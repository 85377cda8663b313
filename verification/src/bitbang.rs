//! The mode state machine: entering bit-bang mode over the raw transport,
//! tearing modes down to a known state, and the configuration flag set.

use core::marker::PhantomData;
use vstd::prelude::*;

use crate::codec::bbio_tag;
use crate::transport::after_drain;
use crate::transport::head_or_empty;
use crate::transport::Delay;
use crate::transport::Transport;
use crate::transport::TransportError;
use crate::transport::TransportModel;

verus! {

/// The 8-byte ROM code of one 1-Wire device, as discovered by bus search.
pub type DeviceAddress = Vec<u8>;

/// Why a protocol operation failed. Every fatal condition of the wire
/// protocol surfaces as one of these, carrying the literal bytes received.
#[derive(Debug)]
pub enum Error {
    /// The underlying byte channel failed.
    Transport(TransportError),
    /// A mode entry or exit did not answer with the expected tag.
    Handshake { expected: Vec<u8>, got: Vec<u8> },
    /// A command's response had the wrong byte count or value.
    BadResponse { command: u8, got: Vec<u8> },
    /// A scratchpad read-back did not match the data just written.
    VerifyMismatch { expected: Vec<u8>, got: Vec<u8> },
    /// The bit-bang detection budget was exhausted.
    RetriesExhausted,
    /// A bus search found no device to address.
    NoDevice,
    /// The protocol engine does not implement this capability.
    Unsupported,
}

/// The adapter is in bit-bang mode; the raw transport is owned exclusively
/// by this handle until [`BitBangMode::close`] resets the device and hands
/// the transport back.
pub struct BitBangMode<T> {
    pub port: T,
}

/// The adapter is in protocol mode `P`, reached through bit-bang mode. The
/// handle owns the bit-bang handle for its lifetime, so no other protocol
/// command can be issued until [`Mode::close`] falls back to bit-bang mode.
pub struct Mode<T, P> {
    pub port: BitBangMode<T>,
    pub _ty: PhantomData<P>,
}

/// A 4-bit configuration flag set (power, pull-up resistors, auxiliary pin,
/// chip select), built by immutable updates. Only the low 4 bits are
/// meaningful; they are masked before transmission.
pub struct Config<T> {
    pub bits: u8,
    pub _ty: PhantomData<T>,
}

impl<T> Config<T> {
    /// The empty flag set: everything off.
    pub fn new() -> (r: Config<T>)
        ensures
            r.bits == 0,
    {
        Config { bits: 0, _ty: PhantomData }
    }

    /// The same flags with power on.
    pub fn power_on(self) -> (r: Config<T>)
        ensures
            r.bits == (self.bits | 0x08),
    {
        Config { bits: self.bits | 0x08, _ty: PhantomData }
    }

    /// The same flags with power off.
    pub fn power_off(self) -> (r: Config<T>)
        ensures
            r.bits == (self.bits & !0x08),
    {
        Config { bits: self.bits & !0x08, _ty: PhantomData }
    }

    /// The same flags with the pull-up resistors on.
    pub fn pullup_on(self) -> (r: Config<T>)
        ensures
            r.bits == (self.bits | 0x04),
    {
        Config { bits: self.bits | 0x04, _ty: PhantomData }
    }

    /// The same flags with the pull-up resistors off.
    pub fn pullup_off(self) -> (r: Config<T>)
        ensures
            r.bits == (self.bits & !0x04),
    {
        Config { bits: self.bits & !0x04, _ty: PhantomData }
    }

    /// The same flags with the auxiliary pin on.
    pub fn aux_on(self) -> (r: Config<T>)
        ensures
            r.bits == (self.bits | 0x02),
    {
        Config { bits: self.bits | 0x02, _ty: PhantomData }
    }

    /// The same flags with the auxiliary pin off.
    pub fn aux_off(self) -> (r: Config<T>)
        ensures
            r.bits == (self.bits & !0x02),
    {
        Config { bits: self.bits & !0x02, _ty: PhantomData }
    }

    /// The same flags with chip select on.
    pub fn cs_on(self) -> (r: Config<T>)
        ensures
            r.bits == (self.bits | 0x01),
    {
        Config { bits: self.bits | 0x01, _ty: PhantomData }
    }

    /// The same flags with chip select off.
    pub fn cs_off(self) -> (r: Config<T>)
        ensures
            r.bits == (self.bits & !0x01),
    {
        Config { bits: self.bits & !0x01, _ty: PhantomData }
    }

    /// The flag set as the single byte it is transmitted as.
    pub fn to_byte(self) -> (r: u8)
        ensures
            r == self.bits,
    {
        self.bits
    }
}

/// Discard stale response bytes: read until a read yields no bytes, so the
/// next command's response is not mixed with leftovers of an earlier one.
pub fn flush_buffer<T: Transport>(port: &mut T) -> (r: Result<(), TransportError>)
    ensures
        final(port).model().tx == old(port).model().tx,
        r matches Ok(_) ==> final(port).model().rx == after_drain(old(port).model().rx),
{
    loop
        invariant
            port.model().tx == old(port).model().tx,
            after_drain(port.model().rx) == after_drain(old(port).model().rx),
        decreases port.model().rx.len(),
    {
        match port.read() {
            Err(e) => {
                return Err(e);
            },
            Ok(chunk) => {
                if chunk.len() == 0 {
                    proof {
                        assert(port.model().rx == after_drain(old(port).model().rx));
                    }
                    return Ok(());
                }
            },
        }
    }
}

/// Which probe attempt first sees the bit-bang tag: `Some(k)` when the
/// `k`-th read (1-based, at most `budget` reads, one group each) returns
/// exactly the tag, `None` when no read within the budget does.
pub open spec fn tag_attempts(rx: Seq<Seq<u8>>, budget: nat) -> Option<nat>
    decreases budget,
{
    if budget == 0 {
        None
    } else if rx.len() == 0 {
        None
    } else if rx[0] == bbio_tag() {
        Some(1nat)
    } else {
        match tag_attempts(rx.skip(1), (budget - 1) as nat) {
            Some(k) => Some((k + 1) as nat),
            None => None,
        }
    }
}

/// Enter bit-bang mode: drain stale bytes, then send a single zero byte,
/// wait the shortest settle delay and read, until the response is exactly
/// the `"BBIO1"` tag or 25 attempts are exhausted. Exhaustion is fatal: the
/// adapter is unreachable. On failure the transport is handed back with the
/// error; exactly 25 zero bytes were then written.
pub fn enter_bitbang_mode<T: Transport>(port: T) -> (r: Result<BitBangMode<T>, (T, Error)>)
    ensures
        r matches Ok(bb) ==> (tag_attempts(after_drain(port.model().rx), 25) matches Some(k)
            && bb.port.model().tx == port.model().tx + Seq::new(k, |i: int| 0u8)
            && bb.port.model().rx == after_drain(port.model().rx).skip(k as int)),
        r matches Err(p) ==> (p.1 matches Error::Transport(_) || p.1 matches
            Error::RetriesExhausted),
        r matches Err(p) ==> (p.1 matches Error::RetriesExhausted ==> (tag_attempts(
            after_drain(port.model().rx),
            25,
        ) is None && p.0.model().tx == port.model().tx + Seq::new(25, |i: int| 0u8))),
{
    let ghost m0 = port.model();
    let mut t = port;
    match flush_buffer(&mut t) {
        Err(e) => {
            return Err((t, Error::Transport(e)));
        },
        Ok(_) => {},
    }
    let ghost rx0 = t.model().rx;
    let mut count: usize = 0;
    let ghost mut consumed: nat = 0;
    loop
        invariant
            count <= 25,
            m0 == port.model(),
            t.model().tx == m0.tx + Seq::new(count as nat, |i: int| 0u8),
            rx0 == after_drain(m0.rx),
            consumed == if count <= rx0.len() {
                count as nat
            } else {
                rx0.len()
            },
            t.model().rx == rx0.skip(consumed as int),
            forall|j: int| 0 <= j < consumed ==> rx0[j] != bbio_tag(),
        decreases 25 - count,
    {
        if count >= 25 {
            proof {
                lemma_tag_attempts_none(rx0, 25, consumed);
            }
            return Err((t, Error::RetriesExhausted));
        }
        match t.write(&[0x00u8]) {
            Err(e) => {
                return Err((t, Error::Transport(e)));
            },
            Ok(_) => {},
        }
        t.sleep(Delay::ReallyShort);
        let chunk = match t.read() {
            Err(e) => {
                return Err((t, Error::Transport(e)));
            },
            Ok(c) => c,
        };
        count = count + 1;
        proof {
            assert(t.model().tx =~= m0.tx + Seq::new(count as nat, |i: int| 0u8));
        }
        if is_bbio_chunk(&chunk) {
            proof {
                assert(rx0.skip(consumed as int).len() > 0);
                assert(consumed < rx0.len());
                assert(consumed == count - 1);
                assert(rx0[consumed as int] == bbio_tag());
                lemma_tag_attempts_found(rx0, consumed, 25);
                assert(rx0.skip(consumed as int).skip(1) =~= rx0.skip(count as int));
            }
            return Ok(BitBangMode { port: t });
        }
        proof {
            if rx0.skip(consumed as int).len() > 0 {
                assert(rx0[consumed as int] == head_or_empty(rx0.skip(consumed as int)));
                assert(rx0.skip(consumed as int).skip(1) =~= rx0.skip(consumed as int + 1));
                consumed = consumed + 1;
            } else {
                assert(rx0.skip(consumed as int) =~= rx0.skip(consumed as int).skip(0));
            }
        }
    }
}

/// The group is exactly the `"BBIO1"` tag.
fn is_bbio_chunk(chunk: &Vec<u8>) -> (r: bool)
    ensures
        r == (chunk@ == bbio_tag()),
{
    let ok = chunk.len() == 5 && chunk[0] == 0x42 && chunk[1] == 0x42 && chunk[2] == 0x49
        && chunk[3] == 0x4f && chunk[4] == 0x31;
    proof {
        if ok {
            assert(chunk@ =~= bbio_tag());
        }
    }
    ok
}

/// No attempt within the budget sees the tag when every group that the
/// reads can reach differs from it.
proof fn lemma_tag_attempts_none(rx: Seq<Seq<u8>>, budget: nat, seen: nat)
    requires
        seen == if budget <= rx.len() {
            budget
        } else {
            rx.len()
        },
        forall|j: int| 0 <= j < seen ==> rx[j] != bbio_tag(),
    ensures
        tag_attempts(rx, budget) is None,
    decreases budget,
{
    if budget > 0 && rx.len() > 0 {
        assert(rx[0] != bbio_tag());
        lemma_tag_attempts_none(
            rx.skip(1),
            (budget - 1) as nat,
            (seen - 1) as nat,
        );
    }
}

/// The attempt count when the tag first appears at group index `c`.
proof fn lemma_tag_attempts_found(rx: Seq<Seq<u8>>, c: nat, budget: nat)
    requires
        c < budget,
        c < rx.len(),
        rx[c as int] == bbio_tag(),
        forall|j: int| 0 <= j < c ==> rx[j] != bbio_tag(),
    ensures
        tag_attempts(rx, budget) == Some((c + 1) as nat),
    decreases c,
{
    if c > 0 {
        lemma_tag_attempts_found(rx.skip(1), (c - 1) as nat, (budget - 1) as nat);
    }
}

/// Power the peripheral supply from bit-bang mode and hand back the
/// adapter's status byte, the first byte of its response.
///
/// Sends `0xc0`; an empty response is fatal.
pub fn poweron<T: Transport>(port: &mut T) -> (r: Result<u8, Error>)
    ensures
        r matches Ok(b) ==> ({
            let rx0 = after_drain(old(port).model().rx);
            &&& head_or_empty(rx0).len() >= 1
            &&& b == head_or_empty(rx0)[0]
            &&& final(port).model().tx == old(port).model().tx + seq![0xc0u8]
            &&& final(port).model().rx == rx0.skip(1)
        }),
        r matches Err(e) ==> (e matches Error::Transport(_) || (e matches Error::BadResponse { command: _, got: _ }
            && head_or_empty(after_drain(old(port).model().rx)).len() == 0)),
{
    match flush_buffer(port) {
        Err(e) => {
            return Err(Error::Transport(e));
        },
        Ok(_) => {},
    }
    match port.write(&[0xc0u8]) {
        Err(e) => {
            return Err(Error::Transport(e));
        },
        Ok(_) => {},
    }
    port.sleep(Delay::Short);
    let chunk = match port.read() {
        Err(e) => {
            return Err(Error::Transport(e));
        },
        Ok(c) => c,
    };
    if chunk.len() < 1 {
        return Err(Error::BadResponse { command: 0xc0, got: chunk });
    }
    Ok(chunk[0])
}

/// Fall back from a protocol mode to bit-bang mode: drain, send the zero
/// byte, wait the long settle delay, and require the `"BBIO1"` tag.
pub(crate) fn reset_to_bitbang<T: Transport>(port: &mut T) -> (r: Result<(), Error>)
    ensures
        r matches Ok(_) ==> ({
            let rx0 = after_drain(old(port).model().rx);
            &&& head_or_empty(rx0) == bbio_tag()
            &&& final(port).model().tx == old(port).model().tx + seq![0x00u8]
            &&& final(port).model().rx == rx0.skip(1)
        }),
        r matches Err(e) ==> (e matches Error::Transport(_) || (e matches Error::Handshake { expected: _, got: _ } && ({
            let rx0 = after_drain(old(port).model().rx);
            &&& head_or_empty(rx0) != bbio_tag()
            &&& final(port).model().tx == old(port).model().tx + seq![0x00u8]
        }))),
{
    match flush_buffer(port) {
        Err(e) => {
            return Err(Error::Transport(e));
        },
        Ok(_) => {},
    }
    match port.write(&[0x00u8]) {
        Err(e) => {
            return Err(Error::Transport(e));
        },
        Ok(_) => {},
    }
    port.sleep(Delay::Long);
    let chunk = match port.read() {
        Err(e) => {
            return Err(Error::Transport(e));
        },
        Ok(c) => c,
    };
    if !is_bbio_chunk(&chunk) {
        let expected = bbio_tag_bytes();
        return Err(Error::Handshake { expected, got: chunk });
    }
    Ok(())
}

/// The `"BBIO1"` tag as bytes.
fn bbio_tag_bytes() -> (r: Vec<u8>)
    ensures
        r@ == bbio_tag(),
{
    let mut v: Vec<u8> = Vec::new();
    v.push(0x42);
    v.push(0x42);
    v.push(0x49);
    v.push(0x4f);
    v.push(0x31);
    proof {
        assert(v@ =~= bbio_tag());
    }
    v
}

/// Software-reset the whole adapter from bit-bang mode: drain, send the
/// full-reset command, wait the long settle delay, and require an
/// acknowledgement byte at the head of the response.
pub(crate) fn reset_buspirate<T: Transport>(port: &mut T) -> (r: Result<(), Error>)
    ensures
        r matches Ok(_) ==> ({
            let rx0 = after_drain(old(port).model().rx);
            &&& head_or_empty(rx0).len() >= 1
            &&& head_or_empty(rx0)[0] == 0x01u8
            &&& final(port).model().tx == old(port).model().tx + seq![0x0fu8]
            &&& final(port).model().rx == rx0.skip(1)
        }),
        r matches Err(e) ==> (e matches Error::Transport(_) || (e matches Error::BadResponse { command: _, got: _ } && ({
            let h = head_or_empty(after_drain(old(port).model().rx));
            h.len() == 0 || h[0] != 0x01u8
        }) && final(port).model().tx == old(port).model().tx + seq![0x0fu8])),
{
    match flush_buffer(port) {
        Err(e) => {
            return Err(Error::Transport(e));
        },
        Ok(_) => {},
    }
    match port.write(&[0x0fu8]) {
        Err(e) => {
            return Err(Error::Transport(e));
        },
        Ok(_) => {},
    }
    port.sleep(Delay::Long);
    let chunk = match port.read() {
        Err(e) => {
            return Err(Error::Transport(e));
        },
        Ok(c) => c,
    };
    if chunk.len() < 1 || chunk[0] != 0x01 {
        return Err(Error::BadResponse { command: 0x0f, got: chunk });
    }
    Ok(())
}

impl<T: Transport> BitBangMode<T> {
    /// Tear the bit-bang handle down: software-reset the adapter and hand
    /// the raw transport back. Consuming the handle makes a second reset of
    /// the same handle impossible; the transport is returned on the error
    /// path too, so release always reaches the caller.
    pub fn close(self) -> (r: (T, Result<(), Error>))
        ensures
            r.1 matches Ok(_) ==> ({
                let rx0 = after_drain(self.port.model().rx);
                &&& head_or_empty(rx0).len() >= 1
                &&& head_or_empty(rx0)[0] == 0x01u8
                &&& r.0.model().tx == self.port.model().tx + seq![0x0fu8]
                &&& r.0.model().rx == rx0.skip(1)
            }),
            r.1 matches Err(e) ==> (e matches Error::Transport(_) || (e matches
                Error::BadResponse { command: _, got: _ } && r.0.model().tx == self.port.model().tx
                + seq![0x0fu8])),
    {
        let BitBangMode { port: mut t } = self;
        let res = reset_buspirate(&mut t);
        (t, res)
    }
}

impl<T: Transport, P> Mode<T, P> {
    /// The model of the transport under this protocol handle.
    pub open spec fn model(&self) -> TransportModel {
        self.port.port.model()
    }

    /// Tear the protocol handle down: fall back to bit-bang mode and hand
    /// the bit-bang handle back. Consuming the handle makes a second
    /// teardown of the same handle impossible; the bit-bang handle is
    /// returned on the error path too, so its own teardown still runs.
    pub fn close(self) -> (r: (BitBangMode<T>, Result<(), Error>))
        ensures
            r.1 matches Ok(_) ==> ({
                let rx0 = after_drain(self.model().rx);
                &&& head_or_empty(rx0) == bbio_tag()
                &&& r.0.port.model().tx == self.model().tx + seq![0x00u8]
                &&& r.0.port.model().rx == rx0.skip(1)
            }),
            r.1 matches Err(e) ==> (e matches Error::Transport(_) || (e matches Error::Handshake {
                expected: _,
                got: _,
            } && r.0.port.model().tx == self.model().tx + seq![0x00u8])),
    {
        let Mode { port: mut bb, _ty: _ } = self;
        let res = reset_to_bitbang(&mut bb.port);
        (bb, res)
    }
}

/// The protocol-agnostic EEPROM capability: byte-addressable read and
/// paged write, implemented in terms of each protocol engine's primitives.
pub trait Eeprom {
    /// Read `len` bytes starting at the device's lowest address.
    fn read_eeprom(&mut self, addr: u8, len: usize) -> Result<Vec<u8>, Error>;

    /// Write the bytes in pages of `page_sz` starting at the lowest address.
    fn write_eeprom(&mut self, addr: u8, to_write: &[u8], page_sz: usize) -> Result<(), Error>;
}

} // verus!
