//! The byte-level transport interface, its mathematical model, and a
//! script-driven transport used to exercise the protocol engines.

use vstd::prelude::*;

verus! {

/// Named settle-delay magnitudes. A command must be followed by a pause of
/// the stated magnitude before its response is read, to mask adapter
/// processing latency. How long each magnitude is belongs to the transport.
#[derive(Clone, Copy, PartialEq, Eq, Structural)]
pub enum Delay {
    ReallyShort,
    Short,
    Long,
    ReallyLong,
}

/// A failure of the underlying byte channel.
#[derive(Clone, Copy, PartialEq, Eq, Structural)]
#[derive(Debug)]
pub struct TransportError;

/// The mathematical model of a transport: every byte written so far, in
/// order, and the queue of byte groups that future reads will return.
/// One group is what one read hands back at once.
pub ghost struct TransportModel {
    pub tx: Seq<u8>,
    pub rx: Seq<Seq<u8>>,
}

/// What one read returns under the model: the head group, or nothing.
pub open spec fn head_or_empty(rx: Seq<Seq<u8>>) -> Seq<u8> {
    if rx.len() == 0 {
        Seq::empty()
    } else {
        rx[0]
    }
}

/// The receive queue after draining: groups are consumed one by one until a
/// read yields no bytes, that is until the queue is exhausted or an empty
/// group (a moment with nothing to deliver) is consumed.
pub open spec fn after_drain(rx: Seq<Seq<u8>>) -> Seq<Seq<u8>>
    decreases rx.len(),
{
    if rx.len() == 0 {
        rx
    } else if rx[0].len() == 0 {
        rx.skip(1)
    } else {
        after_drain(rx.skip(1))
    }
}

/// A duplex byte channel with blocking semantics: the adapter sits on the
/// other end. The core consumes the transport only through this interface;
/// opening and configuring the channel is the caller's business.
pub trait Transport: Sized {
    /// The model of the channel: bytes sent, and groups still to be read.
    /// An implementation the verifier reads must define it; one outside
    /// the verifier may leave this default, which models an idle channel
    /// and promises nothing.
    open spec fn model(&self) -> TransportModel {
        TransportModel { tx: Seq::empty(), rx: Seq::empty() }
    }

    /// Send the given bytes, in order.
    fn write(&mut self, data: &[u8]) -> (r: Result<(), TransportError>)
        ensures
            r matches Ok(_) ==> final(self).model().tx == old(self).model().tx + data@
                && final(self).model().rx == old(self).model().rx,
            r matches Err(_) ==> final(self).model().tx == old(self).model().tx
                && final(self).model().rx == old(self).model().rx,
    ;

    /// Receive the next group of bytes, or an empty group if nothing is
    /// waiting.
    fn read(&mut self) -> (r: Result<Vec<u8>, TransportError>)
        ensures
            r matches Ok(v) ==> v@ == head_or_empty(old(self).model().rx)
                && final(self).model().rx == old(self).model().rx.skip(
                if old(self).model().rx.len() == 0 {
                    0
                } else {
                    1
                },
            ) && final(self).model().tx == old(self).model().tx,
            r matches Err(_) ==> final(self).model().tx == old(self).model().tx
                && final(self).model().rx == old(self).model().rx,
    ;

    /// Pause for the given settle-delay magnitude.
    fn sleep(&mut self, d: Delay)
        ensures
            final(self).model().tx == old(self).model().tx,
            final(self).model().rx == old(self).model().rx,
    ;
}

/// A transport driven by a fixed script: reads return the scripted groups
/// in order, writes are recorded. It stands in for the adapter when the
/// protocol engines are exercised without hardware.
pub struct SimTransport {
    sent: Vec<u8>,
    script: Vec<Vec<u8>>,
}

impl SimTransport {
    /// A simulated transport whose successive reads will return the groups
    /// of `script`, in order.
    pub fn new(script: Vec<Vec<u8>>) -> (r: SimTransport)
        ensures
            r.model().tx == Seq::<u8>::empty(),
            r.model().rx == script@.map_values(|c: Vec<u8>| c@),
    {
        SimTransport { sent: Vec::new(), script }
    }

    /// Every byte the protocol side has written so far, in order.
    pub fn sent(&self) -> (r: &Vec<u8>)
        ensures
            r@ == self.model().tx,
    {
        &self.sent
    }

    /// How many scripted groups have not been read yet.
    pub fn script_left(&self) -> (r: usize)
        ensures
            r == self.model().rx.len(),
    {
        self.script.len()
    }
}

impl Transport for SimTransport {
    closed spec fn model(&self) -> TransportModel {
        TransportModel { tx: self.sent@, rx: self.script@.map_values(|c: Vec<u8>| c@) }
    }

    fn write(&mut self, data: &[u8]) -> (r: Result<(), TransportError>) {
        let mut i: usize = 0;
        while i < data.len()
            invariant
                i <= data.len(),
                self.sent@ == old(self).sent@ + data@.take(i as int),
                self.script == old(self).script,
            decreases data.len() - i,
        {
            self.sent.push(data[i]);
            i = i + 1;
            proof {
                assert(self.sent@ == old(self).sent@ + data@.take(i as int)) by {
                    assert(data@.take(i as int) == data@.take(i - 1) + seq![data@[i - 1]]);
                }
            }
        }
        proof {
            assert(data@.take(data@.len() as int) == data@);
        }
        Ok(())
    }

    fn read(&mut self) -> (r: Result<Vec<u8>, TransportError>) {
        if self.script.len() == 0 {
            Ok(Vec::new())
        } else {
            let head = self.script.remove(0);
            proof {
                assert(self.script@.map_values(|c: Vec<u8>| c@) == old(self).script@.map_values(
                    |c: Vec<u8>| c@,
                ).skip(1)) by {
                    assert(self.script@ == old(self).script@.skip(1));
                    assert(self.script@.map_values(|c: Vec<u8>| c@) =~= old(
                        self,
                    ).script@.map_values(|c: Vec<u8>| c@).skip(1));
                }
            }
            Ok(head)
        }
    }

    fn sleep(&mut self, _d: Delay) {
    }
}

} // verus!
