//! The I2C protocol engine: bus control bits, configuration, chunked bulk
//! writes with per-byte acknowledgements, single-byte reads, and the
//! composite write-then-read command used for addressed EEPROM access.

use core::marker::PhantomData;
use vstd::prelude::*;

use crate::bitbang::BitBangMode;
use crate::bitbang::Config;
use crate::bitbang::Eeprom;
use crate::bitbang::Error;
use crate::bitbang::Mode;
use crate::codec::all_ack_values;
use crate::codec::bulk_frames;
use crate::codec::first_chunk_len;
use crate::codec::frames_ok;
use crate::codec::frames_rx_after;
use crate::codec::i2c_tag;
use crate::transport::after_drain;
use crate::transport::head_or_empty;
use crate::transport::Delay;
use crate::transport::Transport;

verus! {

/// Marker for the I2C protocol mode.
pub struct I2C;

/// The acknowledgement a bus device gives for one transmitted byte.
#[derive(Debug, PartialEq, Eq, Structural)]
pub enum Ack {
    Ack,
    Nack,
}

/// The acknowledgement that a response byte encodes: `0x00` is a Nack,
/// anything else an Ack.
pub open spec fn ack_of(b: u8) -> Ack {
    if b == 0x00 {
        Ack::Nack
    } else {
        Ack::Ack
    }
}

/// The response group at the head of `rx` is a single acknowledgement byte.
pub open spec fn cmd_ack_ok(rx: Seq<Seq<u8>>) -> bool {
    head_or_empty(rx) == seq![0x01u8]
}

/// The per-byte acknowledgements of a chunked bulk write: for each chunk,
/// the bytes of its response group after the group's own leading
/// acknowledgement, in transmission order.
pub open spec fn bulk_acks(data: Seq<u8>, rx: Seq<Seq<u8>>) -> Seq<Ack>
    decreases data.len(),
{
    if data.len() == 0 {
        Seq::empty()
    } else {
        let n = first_chunk_len(data.len(), 16);
        head_or_empty(rx).skip(1).map_values(|b: u8| ack_of(b)) + bulk_acks(
            data.skip(n as int),
            rx.skip(1),
        )
    }
}

/// The command preamble of one underlying write-then-read exchange: the
/// command byte, then the write length and the read length, each as a high
/// and a low byte.
pub open spec fn wtr_cmd(wlen: nat, rlen: nat) -> Seq<u8> {
    seq![
        0x08u8,
        (wlen / 256) as u8,
        (wlen % 256) as u8,
        (rlen / 256) as u8,
        (rlen % 256) as u8,
    ]
}

/// How many response groups one underlying write-then-read exchange
/// consumes after draining: five acknowledgements for the preamble, one
/// for the command itself, and the data group when bytes are read back.
pub open spec fn wtr_base_consumed(rlen: nat) -> int {
    if rlen > 0 {
        7
    } else {
        6
    }
}

/// The responses to one underlying write-then-read exchange are well
/// formed: six single-`0x01` acknowledgement groups, then, when bytes are
/// read back, a data group of exactly the requested length.
pub open spec fn wtr_base_ok(rlen: nat, rx: Seq<Seq<u8>>) -> bool {
    &&& rx.len() >= 6
    &&& rx[0] == seq![0x01u8]
    &&& rx[1] == seq![0x01u8]
    &&& rx[2] == seq![0x01u8]
    &&& rx[3] == seq![0x01u8]
    &&& rx[4] == seq![0x01u8]
    &&& rx[5] == seq![0x01u8]
    &&& (rlen > 0 ==> rx.len() >= 7 && rx[6].len() == rlen)
}

/// The receive queue once a write-then-read has consumed its responses,
/// following the same splitting as the command: oversized writes are
/// flushed first with no read, oversized reads are drained in a first
/// exchange of 4096 bytes.
pub open spec fn wtr_rx_after(w: Seq<u8>, rlen: nat, rx: Seq<Seq<u8>>) -> Seq<Seq<u8>>
    decreases w.len(), rlen,
{
    if w.len() > 4096 {
        wtr_rx_after(w.skip(4096), rlen, wtr_rx_after(w.take(4096), 0, rx))
    } else if rlen > 4096 {
        wtr_rx_after(Seq::empty(), (rlen - 4096) as nat, wtr_rx_after(w, 4096, rx))
    } else {
        after_drain(rx).skip(wtr_base_consumed(rlen))
    }
}

/// Every underlying exchange of a write-then-read answers well formed.
pub open spec fn wtr_ok(w: Seq<u8>, rlen: nat, rx: Seq<Seq<u8>>) -> bool
    decreases w.len(), rlen,
{
    if w.len() > 4096 {
        wtr_ok(w.take(4096), 0, rx) && wtr_ok(w.skip(4096), rlen, wtr_rx_after(w.take(4096), 0, rx))
    } else if rlen > 4096 {
        wtr_ok(w, 4096, rx) && wtr_ok(
            Seq::empty(),
            (rlen - 4096) as nat,
            wtr_rx_after(w, 4096, rx),
        )
    } else {
        wtr_base_ok(rlen, after_drain(rx))
    }
}

/// The bytes a write-then-read returns: the data groups of its underlying
/// exchanges, concatenated in order.
pub open spec fn wtr_result(w: Seq<u8>, rlen: nat, rx: Seq<Seq<u8>>) -> Seq<u8>
    decreases w.len(), rlen,
{
    if w.len() > 4096 {
        wtr_result(w.skip(4096), rlen, wtr_rx_after(w.take(4096), 0, rx))
    } else if rlen > 4096 {
        wtr_result(w, 4096, rx) + wtr_result(
            Seq::empty(),
            (rlen - 4096) as nat,
            wtr_rx_after(w, 4096, rx),
        )
    } else if rlen > 0 {
        head_or_empty(after_drain(rx).skip(6))
    } else {
        Seq::empty()
    }
}

/// The bytes a write-then-read sends: for each underlying exchange its
/// command preamble followed by that exchange's share of the write
/// payload, so the whole payload goes out in order.
pub open spec fn wtr_tx(w: Seq<u8>, rlen: nat) -> Seq<u8>
    decreases w.len(), rlen,
{
    if w.len() > 4096 {
        wtr_tx(w.take(4096), 0) + wtr_tx(w.skip(4096), rlen)
    } else if rlen > 4096 {
        wtr_tx(w, 4096) + wtr_tx(Seq::empty(), (rlen - 4096) as nat)
    } else {
        wtr_cmd(w.len(), rlen) + w
    }
}

/// Law: a write of more than one and at most two exchanges' worth of bytes
/// with no read-back goes out as exactly two underlying exchanges whose
/// write payloads, concatenated in order, are the original bytes.
pub proof fn lemma_wtr_tx_split(w: Seq<u8>)
    requires
        4096 < w.len() <= 8192,
    ensures
        wtr_tx(w, 0) == wtr_cmd(4096, 0) + w.take(4096) + wtr_cmd((w.len() - 4096) as nat, 0)
            + w.skip(4096),
        w.take(4096) + w.skip(4096) == w,
{
    assert(wtr_tx(w, 0) == wtr_tx(w.take(4096), 0) + wtr_tx(w.skip(4096), 0));
    assert(w.take(4096).len() == 4096);
    assert(wtr_tx(w.take(4096), 0) == wtr_cmd(4096, 0) + w.take(4096));
    assert(wtr_tx(w.skip(4096), 0) == wtr_cmd((w.len() - 4096) as nat, 0) + w.skip(4096));
    assert(wtr_tx(w, 0) =~= wtr_cmd(4096, 0) + w.take(4096) + wtr_cmd(
        (w.len() - 4096) as nat,
        0,
    ) + w.skip(4096));
    assert(w.take(4096) + w.skip(4096) =~= w);
}

impl<T: Transport> Mode<T, I2C> {
    /// Enter I2C mode from bit-bang mode: send the selector byte and
    /// require the exact `"I2C1"` tag. A mismatch is fatal — the adapter
    /// did not switch modes — and hands the bit-bang handle back for
    /// teardown.
    pub fn i2c(port: BitBangMode<T>) -> (r: Result<Mode<T, I2C>, (BitBangMode<T>, Error)>)
        ensures
            r matches Ok(m) ==> (head_or_empty(port.port.model().rx) == i2c_tag()
                && m.model().tx == port.port.model().tx + seq![0x02u8] && m.model().rx
                == port.port.model().rx.skip(1)),
            r matches Err(p) ==> (p.1 matches Error::Transport(_) || (p.1 matches Error::Handshake {
                expected: _,
                got: _,
            } && head_or_empty(port.port.model().rx) != i2c_tag())),
    {
        let mut bb = port;
        match bb.port.write(&[0x02u8]) {
            Err(e) => {
                return Err((bb, Error::Transport(e)));
            },
            Ok(_) => {},
        }
        bb.port.sleep(Delay::Short);
        let chunk = match bb.port.read() {
            Err(e) => {
                return Err((bb, Error::Transport(e)));
            },
            Ok(c) => c,
        };
        let ok = chunk.len() == 4 && chunk[0] == 0x49 && chunk[1] == 0x32 && chunk[2] == 0x43
            && chunk[3] == 0x31;
        if !ok {
            proof {
                assert(chunk@ != i2c_tag());
            }
            let mut expected: Vec<u8> = Vec::new();
            expected.push(0x49);
            expected.push(0x32);
            expected.push(0x43);
            expected.push(0x31);
            return Err((bb, Error::Handshake { expected, got: chunk }));
        }
        proof {
            assert(chunk@ =~= i2c_tag());
        }
        Ok(Mode { port: bb, _ty: PhantomData })
    }

    /// Send one command byte and require a single `0x01` acknowledgement.
    fn send_byte(&mut self, b: u8) -> (r: Result<(), Error>)
        ensures
            r matches Ok(_) ==> (cmd_ack_ok(old(self).model().rx) && final(self).model().tx == old(
                self,
            ).model().tx + seq![b] && final(self).model().rx == old(self).model().rx.skip(1)),
            r matches Err(e) ==> (e matches Error::Transport(_) || (e matches Error::BadResponse {
                command,
                got,
            } && command == b && got@ == head_or_empty(old(self).model().rx) && !cmd_ack_ok(
                old(self).model().rx,
            ) && final(self).model().tx == old(self).model().tx + seq![b])),
    {
        match self.port.port.write(&[b]) {
            Err(e) => {
                return Err(Error::Transport(e));
            },
            Ok(_) => {},
        }
        let chunk = match self.port.port.read() {
            Err(e) => {
                return Err(Error::Transport(e));
            },
            Ok(c) => c,
        };
        if !(chunk.len() == 1 && chunk[0] == 0x01) {
            proof {
                assert(chunk@ != seq![0x01u8]);
            }
            return Err(Error::BadResponse { command: b, got: chunk });
        }
        proof {
            assert(chunk@ =~= seq![0x01u8]);
        }
        Ok(())
    }

    /// Send an I2C start bit.
    pub fn start_bit(&mut self) -> (r: Result<(), Error>)
        ensures
            r matches Ok(_) ==> (cmd_ack_ok(old(self).model().rx) && final(self).model().tx == old(
                self,
            ).model().tx + seq![0x02u8] && final(self).model().rx == old(self).model().rx.skip(1)),
            r matches Err(e) ==> (e matches Error::Transport(_) || (e matches Error::BadResponse {
                command: _,
                got: _,
            } && !cmd_ack_ok(old(self).model().rx))),
    {
        self.send_byte(0x02)
    }

    /// Send an I2C stop bit.
    pub fn stop_bit(&mut self) -> (r: Result<(), Error>)
        ensures
            r matches Ok(_) ==> (cmd_ack_ok(old(self).model().rx) && final(self).model().tx == old(
                self,
            ).model().tx + seq![0x03u8] && final(self).model().rx == old(self).model().rx.skip(1)),
            r matches Err(e) ==> (e matches Error::Transport(_) || (e matches Error::BadResponse {
                command: _,
                got: _,
            } && !cmd_ack_ok(old(self).model().rx))),
    {
        self.send_byte(0x03)
    }

    /// Acknowledge a byte just read.
    pub fn ack(&mut self) -> (r: Result<(), Error>)
        ensures
            r matches Ok(_) ==> (cmd_ack_ok(old(self).model().rx) && final(self).model().tx == old(
                self,
            ).model().tx + seq![0x06u8] && final(self).model().rx == old(self).model().rx.skip(1)),
            r matches Err(e) ==> (e matches Error::Transport(_) || (e matches Error::BadResponse {
                command: _,
                got: _,
            } && !cmd_ack_ok(old(self).model().rx))),
    {
        self.send_byte(0x06)
    }

    /// Refuse a byte just read.
    pub fn nack(&mut self) -> (r: Result<(), Error>)
        ensures
            r matches Ok(_) ==> (cmd_ack_ok(old(self).model().rx) && final(self).model().tx == old(
                self,
            ).model().tx + seq![0x07u8] && final(self).model().rx == old(self).model().rx.skip(1)),
            r matches Err(e) ==> (e matches Error::Transport(_) || (e matches Error::BadResponse {
                command: _,
                got: _,
            } && !cmd_ack_ok(old(self).model().rx))),
    {
        self.send_byte(0x07)
    }

    /// Configure the bus: the low four configuration bits are masked into
    /// the configure command byte.
    pub fn configure(&mut self, config: Config<I2C>) -> (r: Result<(), Error>)
        ensures
            r matches Ok(_) ==> (cmd_ack_ok(old(self).model().rx) && final(self).model().tx == old(
                self,
            ).model().tx + seq![(0x40u8 | (0x0fu8 & config.bits))] && final(self).model().rx == old(
                self,
            ).model().rx.skip(1)),
            r matches Err(e) ==> (e matches Error::Transport(_) || (e matches Error::BadResponse {
                command: _,
                got: _,
            } && !cmd_ack_ok(old(self).model().rx))),
    {
        self.send_byte(0x40 | (0x0f & config.to_byte()))
    }

    /// Write bytes on the bus in chunks of at most sixteen, each chunk
    /// framed with its header byte, and collect one acknowledgement per
    /// transmitted data byte from the response groups.
    #[verifier::loop_isolation(false)]
    pub fn bulk_write(&mut self, to_write: &[u8]) -> (r: Result<Vec<Ack>, Error>)
        ensures
            r matches Ok(acks) ==> ({
                let rx0 = after_drain(old(self).model().rx);
                &&& frames_ok(to_write@, 16, rx0, false)
                &&& acks@ == bulk_acks(to_write@, rx0)
                &&& final(self).model().tx == old(self).model().tx + bulk_frames(to_write@, 16)
                &&& final(self).model().rx == frames_rx_after(to_write@, 16, rx0)
            }),
            r matches Err(e) ==> (e matches Error::Transport(_) || (e matches Error::BadResponse {
                command: _,
                got: _,
            } && !frames_ok(to_write@, 16, after_drain(old(self).model().rx), false))),
    {
        match crate::bitbang::flush_buffer(&mut self.port.port) {
            Err(e) => {
                return Err(Error::Transport(e));
            },
            Ok(_) => {},
        }
        let ghost m0 = old(self).model();
        let ghost rx0 = self.model().rx;
        proof {
            assert(to_write@.skip(0) =~= to_write@);
        }
        let mut acks: Vec<Ack> = Vec::new();
        let mut i: usize = 0;
        while i < to_write.len()
            invariant
                i <= to_write.len(),
                m0 == old(self).model(),
                rx0 == after_drain(m0.rx),
                self.model().tx + bulk_frames(to_write@.skip(i as int), 16) == m0.tx + bulk_frames(
                    to_write@,
                    16,
                ),
                frames_ok(to_write@, 16, rx0, false) <==> frames_ok(
                    to_write@.skip(i as int),
                    16,
                    self.model().rx,
                    false,
                ),
                frames_rx_after(to_write@, 16, rx0) == frames_rx_after(
                    to_write@.skip(i as int),
                    16,
                    self.model().rx,
                ),
                bulk_acks(to_write@, rx0) == acks@ + bulk_acks(
                    to_write@.skip(i as int),
                    self.model().rx,
                ),
            decreases to_write.len() - i,
        {
            let ghost rest = to_write@.skip(i as int);
            let ghost rx_before = self.model().rx;
            let ghost tx_before = self.model().tx;
            let n = if to_write.len() - i > 16 {
                16
            } else {
                to_write.len() - i
            };
            proof {
                assert(rest.len() == to_write@.len() - i);
                assert(first_chunk_len(rest.len(), 16) == n);
            }
            let mut frame: Vec<u8> = Vec::new();
            frame.push(0x10 | ((n - 1) as u8));
            crate::codec::push_range(&mut frame, to_write, i, i + n);
            proof {
                crate::codec::lemma_chunk_header_or(n as nat);
                assert(rest.take(n as int) =~= to_write@.subrange(i as int, i + n));
                assert(frame@ =~= seq![crate::codec::chunk_header(n as nat)] + rest.take(n as int));
            }
            match self.port.port.write(frame.as_slice()) {
                Err(e) => {
                    return Err(Error::Transport(e));
                },
                Ok(_) => {},
            }
            let resp = match self.port.port.read() {
                Err(e) => {
                    return Err(Error::Transport(e));
                },
                Ok(c) => c,
            };
            proof {
                assert(resp@ == head_or_empty(rx_before));
            }
            if resp.len() != n + 1 {
                proof {
                    assert(!frames_ok(rest, 16, rx_before, false));
                }
                return Err(Error::BadResponse { command: frame[0], got: resp });
            }
            let mut j: usize = 0;
            while j < resp.len()
                invariant
                    j <= resp.len(),
                    forall|k: int| 0 <= k < j ==> (resp@[k] == 0x00 || resp@[k] == 0x01),
                decreases resp.len() - j,
            {
                if !(resp[j] == 0x00 || resp[j] == 0x01) {
                    proof {
                        assert(!all_ack_values(resp@));
                        assert(!frames_ok(rest, 16, rx_before, false));
                    }
                    return Err(Error::BadResponse { command: frame[0], got: resp });
                }
                j = j + 1;
            }
            proof {
                assert(all_ack_values(resp@));
            }
            let ghost old_acks = acks@;
            let mut k: usize = 1;
            while k < resp.len()
                invariant
                    1 <= k <= resp.len(),
                    acks@ == old_acks + resp@.subrange(1, k as int).map_values(|b: u8| ack_of(b)),
                decreases resp.len() - k,
            {
                if resp[k] == 0x00 {
                    acks.push(Ack::Nack);
                } else {
                    acks.push(Ack::Ack);
                }
                k = k + 1;
                proof {
                    assert(resp@.subrange(1, k as int) =~= resp@.subrange(1, k - 1).push(
                        resp@[k - 1],
                    ));
                    assert(resp@.subrange(1, k as int).map_values(|b: u8| ack_of(b))
                        =~= resp@.subrange(1, k - 1).map_values(|b: u8| ack_of(b)).push(
                        ack_of(resp@[k - 1]),
                    ));
                    assert(acks@ =~= old_acks + resp@.subrange(1, k as int).map_values(
                        |b: u8| ack_of(b),
                    ));
                }
            }
            proof {
                assert(rx_before.len() > 0);
                assert(rest.skip(n as int) =~= to_write@.skip(i + n));
                assert(bulk_frames(rest, 16) == frame@ + bulk_frames(rest.skip(n as int), 16)) by {
                    assert(bulk_frames(rest, 16) =~= seq![crate::codec::chunk_header(n as nat)]
                        + rest.take(n as int) + bulk_frames(rest.skip(n as int), 16));
                    assert(seq![crate::codec::chunk_header(n as nat)] + rest.take(n as int)
                        + bulk_frames(rest.skip(n as int), 16) =~= frame@ + bulk_frames(
                        rest.skip(n as int),
                        16,
                    ));
                }
                assert(self.model().tx + bulk_frames(to_write@.skip(i + n), 16) =~= m0.tx
                    + bulk_frames(to_write@, 16)) by {
                    assert(self.model().tx == tx_before + frame@);
                    assert(tx_before + frame@ + bulk_frames(rest.skip(n as int), 16) =~= tx_before
                        + bulk_frames(rest, 16));
                }
                assert(frames_ok(rest, 16, rx_before, false) <==> frames_ok(
                    rest.skip(n as int),
                    16,
                    rx_before.skip(1),
                    false,
                ));
                assert(resp@.subrange(1, resp@.len() as int) =~= resp@.skip(1));
                assert(bulk_acks(rest, rx_before) == resp@.skip(1).map_values(|b: u8| ack_of(b))
                    + bulk_acks(rest.skip(n as int), rx_before.skip(1)));
                assert(acks@ == old_acks + resp@.skip(1).map_values(|b: u8| ack_of(b)));
                assert(bulk_acks(to_write@, rx0) =~= acks@ + bulk_acks(
                    rest.skip(n as int),
                    rx_before.skip(1),
                ));
            }
            i = i + n;
        }
        proof {
            assert(to_write@.skip(to_write@.len() as int) =~= Seq::<u8>::empty());
            assert(bulk_frames(Seq::<u8>::empty(), 16) == Seq::<u8>::empty());
            assert(self.model().tx =~= m0.tx + bulk_frames(to_write@, 16));
            assert(bulk_acks(to_write@, rx0) =~= acks@);
        }
        Ok(acks)
    }

    /// Read one byte from the bus; the response must be exactly one byte,
    /// the value read.
    pub fn read_byte(&mut self) -> (r: Result<u8, Error>)
        ensures
            r matches Ok(b) ==> ({
                let rx0 = after_drain(old(self).model().rx);
                &&& head_or_empty(rx0).len() == 1
                &&& b == head_or_empty(rx0)[0]
                &&& final(self).model().tx == old(self).model().tx + seq![0x04u8]
                &&& final(self).model().rx == rx0.skip(1)
            }),
            r matches Err(e) ==> (e matches Error::Transport(_) || (e matches Error::BadResponse {
                command: _,
                got: _,
            } && head_or_empty(after_drain(old(self).model().rx)).len() != 1)),
    {
        match crate::bitbang::flush_buffer(&mut self.port.port) {
            Err(e) => {
                return Err(Error::Transport(e));
            },
            Ok(_) => {},
        }
        match self.port.port.write(&[0x04u8]) {
            Err(e) => {
                return Err(Error::Transport(e));
            },
            Ok(_) => {},
        }
        let chunk = match self.port.port.read() {
            Err(e) => {
                return Err(Error::Transport(e));
            },
            Ok(c) => c,
        };
        if chunk.len() != 1 {
            return Err(Error::BadResponse { command: 0x04, got: chunk });
        }
        Ok(chunk[0])
    }

    /// The composite write-then-read command: a preamble of the write and
    /// read lengths, each byte individually acknowledged, then the raw
    /// payload, one acknowledgement, and exactly the requested bytes back.
    /// Writes over 4096 bytes are first flushed in an exchange with no
    /// read; reads over 4096 bytes are drained 4096 at a time. The whole
    /// write payload is transmitted, in order, before any byte is
    /// returned.
    pub fn write_then_read(&mut self, to_write: &[u8], read_len: usize) -> (r: Result<
        Vec<u8>,
        Error,
    >)
        ensures
            r matches Ok(v) ==> (wtr_ok(to_write@, read_len as nat, old(self).model().rx) && v@
                == wtr_result(to_write@, read_len as nat, old(self).model().rx) && final(self).model().tx == old(self).model().tx + wtr_tx(to_write@, read_len as nat) && final(self).model().rx == wtr_rx_after(to_write@, read_len as nat, old(self).model().rx)),
            r matches Err(e) ==> (e matches Error::Transport(_) || (e matches Error::BadResponse {
                command: _,
                got: _,
            } && !wtr_ok(to_write@, read_len as nat, old(self).model().rx))),
        decreases to_write@.len(), read_len,
    {
        if to_write.len() > 4096 {
            let head = crate::codec::copy_range(to_write, 0, 4096);
            let tail = crate::codec::copy_range(to_write, 4096, to_write.len());
            proof {
                assert(head@ =~= to_write@.take(4096));
                assert(tail@ =~= to_write@.skip(4096));
            }
            match self.write_then_read(head.as_slice(), 0) {
                Err(e) => {
                    return Err(e);
                },
                Ok(_) => {},
            }
            let rest = match self.write_then_read(tail.as_slice(), read_len) {
                Err(e) => {
                    return Err(e);
                },
                Ok(v) => v,
            };
            proof {
                assert(final(self).model().tx =~= old(self).model().tx + wtr_tx(
                    to_write@,
                    read_len as nat,
                ));
            }
            return Ok(rest);
        }
        if read_len > 4096 {
            let mut ret = match self.write_then_read(to_write, 4096) {
                Err(e) => {
                    return Err(e);
                },
                Ok(v) => v,
            };
            let empty_w: Vec<u8> = Vec::new();
            proof {
                assert(empty_w@ =~= Seq::<u8>::empty());
            }
            let mut rest = match self.write_then_read(empty_w.as_slice(), read_len - 4096) {
                Err(e) => {
                    return Err(e);
                },
                Ok(v) => v,
            };
            ret.append(&mut rest);
            proof {
                assert(final(self).model().tx =~= old(self).model().tx + wtr_tx(
                    to_write@,
                    read_len as nat,
                ));
            }
            return Ok(ret);
        }
        match crate::bitbang::flush_buffer(&mut self.port.port) {
            Err(e) => {
                return Err(Error::Transport(e));
            },
            Ok(_) => {},
        }
        let ghost rx0 = self.model().rx;
        let ghost tx0 = self.model().tx;
        match self.send_byte(0x08) {
            Err(e) => {
                proof {
                    assert(!cmd_ack_ok(rx0) ==> !wtr_base_ok(read_len as nat, rx0));
                }
                return Err(e);
            },
            Ok(_) => {},
        }
        let high_write = (to_write.len() / 256) as u8;
        let low_write = (to_write.len() % 256) as u8;
        match self.send_byte(high_write) {
            Err(e) => {
                return Err(e);
            },
            Ok(_) => {},
        }
        match self.send_byte(low_write) {
            Err(e) => {
                return Err(e);
            },
            Ok(_) => {},
        }
        let high_read = (read_len / 256) as u8;
        let low_read = (read_len % 256) as u8;
        match self.send_byte(high_read) {
            Err(e) => {
                return Err(e);
            },
            Ok(_) => {},
        }
        match self.send_byte(low_read) {
            Err(e) => {
                return Err(e);
            },
            Ok(_) => {},
        }
        match self.port.port.write(to_write) {
            Err(e) => {
                return Err(Error::Transport(e));
            },
            Ok(_) => {},
        }
        let cmd_check = match self.port.port.read() {
            Err(e) => {
                return Err(Error::Transport(e));
            },
            Ok(c) => c,
        };
        if !(cmd_check.len() == 1 && cmd_check[0] == 0x01) {
            proof {
                assert(cmd_check@ == head_or_empty(rx0.skip(5)));
                assert(cmd_check@ != seq![0x01u8]);
                assert(rx0.len() > 5 ==> rx0[5] == rx0.skip(5)[0]);
                assert(!wtr_base_ok(read_len as nat, rx0));
            }
            return Err(Error::BadResponse { command: 0x08, got: cmd_check });
        }
        proof {
            assert(cmd_check@ =~= seq![0x01u8]);
            assert(rx0.skip(5).len() > 0);
            assert(rx0[5] == rx0.skip(5)[0]);
            assert(self.model().rx == rx0.skip(5).skip(1));
            assert(rx0.skip(5).skip(1) =~= rx0.skip(6));
        }
        if read_len == 0 {
            proof {
                assert(wtr_base_ok(read_len as nat, rx0));
                assert(self.model().tx =~= tx0 + wtr_cmd(to_write@.len(), read_len as nat)
                    + to_write@);
                assert(self.model().tx =~= old(self).model().tx + wtr_tx(
                    to_write@,
                    read_len as nat,
                ));
            }
            let empty_ret: Vec<u8> = Vec::new();
            proof {
                assert(empty_ret@ =~= Seq::<u8>::empty());
            }
            return Ok(empty_ret);
        }
        let data = match self.port.port.read() {
            Err(e) => {
                return Err(Error::Transport(e));
            },
            Ok(c) => c,
        };
        proof {
            assert(data@ == head_or_empty(rx0.skip(6)));
            assert(rx0.len() > 6 ==> rx0[6] == rx0.skip(6)[0]);
        }
        if data.len() != read_len {
            proof {
                assert(!wtr_base_ok(read_len as nat, rx0));
            }
            return Err(Error::BadResponse { command: 0x08, got: data });
        }
        proof {
            assert(rx0.skip(6).len() > 0);
            assert(self.model().rx == rx0.skip(6).skip(1));
            assert(rx0.skip(6).skip(1) =~= rx0.skip(7));
            assert(wtr_base_ok(read_len as nat, rx0));
            assert(self.model().tx =~= tx0 + wtr_cmd(to_write@.len(), read_len as nat) + to_write@);
            assert(self.model().tx =~= old(self).model().tx + wtr_tx(to_write@, read_len as nat));
        }
        Ok(data)
    }

    /// Read `len` bytes from the EEPROM at bus address `addr`, register
    /// pointer zero: start, address the device for writing with a zero
    /// pointer, repeated start, then clock the bytes out with a
    /// write-then-read of the read address, and stop.
    pub fn read_eeprom(&mut self, addr: u8, len: usize) -> (r: Result<Vec<u8>, Error>)
        ensures
            r matches Ok(v) ==> ({
                let m0 = old(self).model();
                let s1 = m0.rx.skip(1);
                let rb = after_drain(s1);
                let s2 = frames_rx_after(seq![addr << 1, 0x00u8], 16, rb);
                let s3 = s2.skip(1);
                &&& cmd_ack_ok(m0.rx)
                &&& frames_ok(seq![addr << 1, 0x00u8], 16, rb, false)
                &&& cmd_ack_ok(s2)
                &&& wtr_ok(seq![(addr << 1) | 1], len as nat, s3)
                &&& v@ == wtr_result(seq![(addr << 1) | 1], len as nat, s3)
                &&& cmd_ack_ok(wtr_rx_after(seq![(addr << 1) | 1], len as nat, s3))
                &&& final(self).model().rx == wtr_rx_after(
                    seq![(addr << 1) | 1],
                    len as nat,
                    s3,
                ).skip(1)
                &&& final(self).model().tx == m0.tx + seq![0x02u8] + bulk_frames(
                    seq![addr << 1, 0x00u8],
                    16,
                ) + seq![0x02u8] + wtr_tx(seq![(addr << 1) | 1], len as nat) + seq![0x03u8]
            }),
            r matches Err(e) ==> (e matches Error::Transport(_) || e matches Error::BadResponse {
                command: _,
                got: _,
            }),
    {
        match self.start_bit() {
            Err(e) => {
                return Err(e);
            },
            Ok(_) => {},
        }
        let mut pointer: Vec<u8> = Vec::new();
        pointer.push(addr << 1);
        pointer.push(0x00);
        proof {
            assert(pointer@ =~= seq![addr << 1, 0x00u8]);
        }
        match self.bulk_write(pointer.as_slice()) {
            Err(e) => {
                return Err(e);
            },
            Ok(_) => {},
        }
        match self.start_bit() {
            Err(e) => {
                return Err(e);
            },
            Ok(_) => {},
        }
        let mut read_addr: Vec<u8> = Vec::new();
        read_addr.push((addr << 1) | 1);
        proof {
            assert(read_addr@ =~= seq![(addr << 1) | 1]);
        }
        let ret = match self.write_then_read(read_addr.as_slice(), len) {
            Err(e) => {
                return Err(e);
            },
            Ok(v) => v,
        };
        match self.stop_bit() {
            Err(e) => {
                return Err(e);
            },
            Ok(_) => {},
        }
        proof {
            assert(final(self).model().tx =~= old(self).model().tx + seq![0x02u8] + bulk_frames(
                seq![addr << 1, 0x00u8],
                16,
            ) + seq![0x02u8] + wtr_tx(seq![(addr << 1) | 1], len as nat) + seq![0x03u8]);
        }
        Ok(ret)
    }
}

impl<T: Transport> Eeprom for Mode<T, I2C> {
    fn read_eeprom(&mut self, addr: u8, len: usize) -> Result<Vec<u8>, Error> {
        self.read_eeprom(addr, len)
    }

    fn write_eeprom(&mut self, _addr: u8, _to_write: &[u8], _page_sz: usize) -> Result<(), Error> {
        Err(Error::Unsupported)
    }
}

} // verus!
