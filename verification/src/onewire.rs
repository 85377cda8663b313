//! The 1-Wire protocol engine: bus reset, ROM-search device discovery,
//! chunked raw writes with per-byte acknowledgement, single-byte bulk
//! reads, device selection, and the scratchpad/verify/copy algorithm for
//! paged EEPROM writes.

use core::marker::PhantomData;
use vstd::prelude::*;

use crate::bitbang::BitBangMode;
use crate::bitbang::DeviceAddress;
use crate::bitbang::Error;
use crate::bitbang::Mode;
use crate::codec::ack_group;
use crate::codec::all_bytes_are;
use crate::codec::bulk_frames;
use crate::codec::first_chunk_len;
use crate::codec::frames_ok;
use crate::codec::frames_rx_after;
use crate::codec::onewire_tag;
use crate::transport::after_drain;
use crate::transport::head_or_empty;
use crate::transport::Delay;
use crate::transport::Transport;

verus! {

/// Marker for the 1-Wire protocol mode.
pub struct OneWire;

/// A response group that names a discovered device: a full 8-byte ROM code
/// that is not the all-`0xff` end-of-search sentinel.
pub open spec fn is_device_group(g: Seq<u8>) -> bool {
    g.len() == 8 && !all_bytes_are(g, 0xff)
}

/// The devices a ROM search returns, given the response groups that follow
/// the search acknowledgement: the longest prefix of device groups, in
/// discovery order. The group that ends the prefix — the sentinel, or a
/// short read — is consumed but not returned.
pub open spec fn devices_of(rx: Seq<Seq<u8>>) -> Seq<Seq<u8>>
    decreases rx.len(),
{
    if rx.len() == 0 {
        Seq::empty()
    } else if is_device_group(rx[0]) {
        seq![rx[0]] + devices_of(rx.skip(1))
    } else {
        Seq::empty()
    }
}

/// How many response groups the search loop consumes: every device group
/// and the one group that ends the search, when there is one.
pub open spec fn search_consumed(rx: Seq<Seq<u8>>) -> int
    decreases rx.len(),
{
    if rx.len() == 0 {
        0
    } else if is_device_group(rx[0]) {
        1 + search_consumed(rx.skip(1))
    } else {
        1
    }
}

/// Law: when the responses are one or more device groups followed by a
/// group that ends the search (the all-`0xff` sentinel, or any short
/// group), exactly the device groups come back, in order, and the ending
/// group is not among them.
pub proof fn lemma_devices_of_groups(groups: Seq<Seq<u8>>, rest: Seq<Seq<u8>>)
    requires
        forall|i: int| 0 <= i < groups.len() ==> is_device_group(#[trigger] groups[i]),
        rest.len() > 0,
        !is_device_group(rest[0]),
    ensures
        devices_of(groups + rest) == groups,
    decreases groups.len(),
{
    if groups.len() == 0 {
        assert(groups + rest =~= rest);
        assert(devices_of(groups + rest) =~= groups);
    } else {
        assert((groups + rest)[0] == groups[0]);
        assert((groups + rest).skip(1) =~= groups.skip(1) + rest);
        lemma_devices_of_groups(groups.skip(1), rest);
        assert(devices_of(groups + rest) =~= seq![groups[0]] + groups.skip(1));
        assert(seq![groups[0]] + groups.skip(1) =~= groups);
    }
}

/// Law: when the first group already ends the search, no device comes
/// back.
pub proof fn lemma_devices_of_sentinel_first(rx: Seq<Seq<u8>>)
    requires
        rx.len() > 0,
        !is_device_group(rx[0]),
    ensures
        devices_of(rx) == Seq::<Seq<u8>>::empty(),
{
}

/// The groups that answer `n` single-byte read commands are well formed:
/// one group per command, of exactly one byte.
pub open spec fn reads_ok(n: nat, rx: Seq<Seq<u8>>) -> bool
    decreases n,
{
    if n == 0 {
        true
    } else {
        rx.len() > 0 && rx[0].len() == 1 && reads_ok((n - 1) as nat, rx.skip(1))
    }
}

/// The bytes that `n` single-byte read commands accumulate: the first
/// group's byte, then the rest.
pub open spec fn read_bytes(n: nat, rx: Seq<Seq<u8>>) -> Seq<u8>
    decreases n,
{
    if n == 0 {
        Seq::empty()
    } else {
        head_or_empty(rx) + read_bytes((n - 1) as nat, rx.skip(1))
    }
}

/// Law: a device that echoes what was written answers the read phase with
/// one single-byte group per written byte; the bytes accumulated are then
/// exactly the bytes written, in order — the round trip returns the data.
pub proof fn lemma_read_bytes_round_trip(bytes: Seq<u8>, rx: Seq<Seq<u8>>)
    requires
        rx.len() >= bytes.len(),
        forall|i: int| 0 <= i < bytes.len() ==> #[trigger] rx[i] == seq![bytes[i]],
    ensures
        reads_ok(bytes.len(), rx),
        read_bytes(bytes.len(), rx) == bytes,
    decreases bytes.len(),
{
    if bytes.len() > 0 {
        assert(rx[0] == seq![bytes[0]]);
        assert(forall|i: int| 0 <= i < bytes.skip(1).len() ==> #[trigger] rx.skip(1)[i]
            == seq![bytes.skip(1)[i]]);
        lemma_read_bytes_round_trip(bytes.skip(1), rx.skip(1));
        assert(head_or_empty(rx) == seq![bytes[0]]);
        assert(read_bytes(bytes.len(), rx) =~= seq![bytes[0]] + bytes.skip(1));
        assert(seq![bytes[0]] + bytes.skip(1) =~= bytes);
    }
}

/// The match-ROM frame that targets one device on the bus.
pub open spec fn select_frame(dev: Seq<u8>) -> Seq<u8> {
    seq![0x55u8] + dev
}


/// The write-scratchpad frame for one page: the command byte, the 16-bit
/// target address low byte first, then the page's data.
pub open spec fn page_write_cmd(addr: nat, chunk: Seq<u8>) -> Seq<u8> {
    seq![0x0fu8, (addr % 256) as u8, ((addr / 256) % 256) as u8] + chunk
}

/// One page of the scratchpad/verify/copy algorithm answers well formed:
/// select and write-scratchpad acknowledged, bus reset acknowledged,
/// select and read-scratchpad acknowledged, three access-code bytes and
/// the scratchpad echo read back, the echo equal to the page just
/// written, reset, select and copy-scratchpad (authorized by the echoed
/// access code) acknowledged, and a final reset acknowledged.
pub open spec fn page_ok(dev: Seq<u8>, addr: nat, chunk: Seq<u8>, rx: Seq<Seq<u8>>) -> bool {
    let d1 = after_drain(rx);
    let s1 = frames_rx_after(select_frame(dev), 4, d1);
    let d2 = after_drain(s1);
    let s2 = frames_rx_after(page_write_cmd(addr, chunk), 4, d2);
    let s3 = s2.skip(1);
    let d3 = after_drain(s3);
    let s4 = frames_rx_after(select_frame(dev), 4, d3);
    let d4 = after_drain(s4);
    let s5 = frames_rx_after(seq![0xaau8], 4, d4);
    let access = read_bytes(3, s5);
    let s6 = s5.skip(3);
    let s7 = s6.skip(chunk.len() as int);
    let s8 = s7.skip(1);
    let d5 = after_drain(s8);
    let s9 = frames_rx_after(select_frame(dev), 4, d5);
    let d6 = after_drain(s9);
    let s10 = frames_rx_after(seq![0x55u8] + access, 4, d6);
    &&& frames_ok(select_frame(dev), 4, d1, true)
    &&& frames_ok(page_write_cmd(addr, chunk), 4, d2, true)
    &&& head_or_empty(s2) == ack_group()
    &&& frames_ok(select_frame(dev), 4, d3, true)
    &&& frames_ok(seq![0xaau8], 4, d4, true)
    &&& reads_ok(3, s5)
    &&& reads_ok(chunk.len(), s6)
    &&& read_bytes(chunk.len(), s6) == chunk
    &&& head_or_empty(s7) == ack_group()
    &&& frames_ok(select_frame(dev), 4, d5, true)
    &&& frames_ok(seq![0x55u8] + access, 4, d6, true)
    &&& head_or_empty(s10) == ack_group()
}

/// The receive queue once one page of the algorithm has consumed its
/// responses, through the final reset.
pub open spec fn page_rx_after(dev: Seq<u8>, addr: nat, chunk: Seq<u8>, rx: Seq<Seq<u8>>) -> Seq<
    Seq<u8>,
> {
    let d1 = after_drain(rx);
    let s1 = frames_rx_after(select_frame(dev), 4, d1);
    let d2 = after_drain(s1);
    let s2 = frames_rx_after(page_write_cmd(addr, chunk), 4, d2);
    let s3 = s2.skip(1);
    let d3 = after_drain(s3);
    let s4 = frames_rx_after(select_frame(dev), 4, d3);
    let d4 = after_drain(s4);
    let s5 = frames_rx_after(seq![0xaau8], 4, d4);
    let access = read_bytes(3, s5);
    let s6 = s5.skip(3);
    let s7 = s6.skip(chunk.len() as int);
    let s8 = s7.skip(1);
    let d5 = after_drain(s8);
    let s9 = frames_rx_after(select_frame(dev), 4, d5);
    let d6 = after_drain(s9);
    let s10 = frames_rx_after(seq![0x55u8] + access, 4, d6);
    s10.skip(1)
}

/// The bytes one page of the algorithm sends: the three select frames, the
/// write-scratchpad and read-scratchpad frames, one read command per byte
/// of access code and echo, the copy frame carrying the access code the
/// device echoed, and the three bus resets.
pub open spec fn page_tx(dev: Seq<u8>, addr: nat, chunk: Seq<u8>, rx: Seq<Seq<u8>>) -> Seq<u8> {
    let d1 = after_drain(rx);
    let s1 = frames_rx_after(select_frame(dev), 4, d1);
    let d2 = after_drain(s1);
    let s2 = frames_rx_after(page_write_cmd(addr, chunk), 4, d2);
    let s3 = s2.skip(1);
    let d3 = after_drain(s3);
    let s4 = frames_rx_after(select_frame(dev), 4, d3);
    let d4 = after_drain(s4);
    let s5 = frames_rx_after(seq![0xaau8], 4, d4);
    let access = read_bytes(3, s5);
    bulk_frames(select_frame(dev), 4) + bulk_frames(page_write_cmd(addr, chunk), 4) + seq![0x02u8]
        + bulk_frames(select_frame(dev), 4) + bulk_frames(seq![0xaau8], 4) + Seq::new(
        (3 + chunk.len()) as nat,
        |i: int| 0x04u8,
    ) + seq![0x02u8] + bulk_frames(select_frame(dev), 4) + bulk_frames(seq![0x55u8] + access, 4)
        + seq![0x02u8]
}

/// The bytes a whole paged EEPROM write sends, page after page.
pub open spec fn eeprom_write_tx(dev: Seq<u8>, addr: nat, data: Seq<u8>, rx: Seq<Seq<u8>>) -> Seq<
    u8,
>
    decreases data.len(),
{
    if data.len() == 0 {
        Seq::empty()
    } else {
        let n = first_chunk_len(data.len(), 8);
        page_tx(dev, addr, data.take(n as int), rx) + eeprom_write_tx(
            dev,
            addr + n,
            data.skip(n as int),
            page_rx_after(dev, addr, data.take(n as int), rx),
        )
    }
}

/// Every page of a paged EEPROM write answers well formed: the data is
/// split into pages of at most eight bytes, the target address starts at
/// zero and advances by each page's length.
pub open spec fn eeprom_write_ok(dev: Seq<u8>, addr: nat, data: Seq<u8>, rx: Seq<Seq<u8>>) -> bool
    decreases data.len(),
{
    if data.len() == 0 {
        true
    } else {
        let n = first_chunk_len(data.len(), 8);
        &&& page_ok(dev, addr, data.take(n as int), rx)
        &&& eeprom_write_ok(
            dev,
            addr + n,
            data.skip(n as int),
            page_rx_after(dev, addr, data.take(n as int), rx),
        )
    }
}

/// The receive queue once a paged EEPROM write has consumed all its
/// responses.
pub open spec fn eeprom_write_rx_after(
    dev: Seq<u8>,
    addr: nat,
    data: Seq<u8>,
    rx: Seq<Seq<u8>>,
) -> Seq<Seq<u8>>
    decreases data.len(),
{
    if data.len() == 0 {
        rx
    } else {
        let n = first_chunk_len(data.len(), 8);
        eeprom_write_rx_after(
            dev,
            addr + n,
            data.skip(n as int),
            page_rx_after(dev, addr, data.take(n as int), rx),
        )
    }
}

impl<T: Transport> Mode<T, OneWire> {
    /// Enter 1-Wire mode from bit-bang mode: send the selector byte and
    /// require the exact `"1W01"` tag, then power the bus (one
    /// acknowledgement byte), wait the longest settle delay, and reset the
    /// bus so it is electrically stable before any transaction. Any
    /// mismatch is fatal and hands the bit-bang handle back for teardown.
    pub fn onewire(port: BitBangMode<T>) -> (r: Result<Mode<T, OneWire>, (BitBangMode<T>, Error)>)
        ensures
            r matches Ok(m) ==> ({
                let m0 = port.port.model();
                &&& head_or_empty(m0.rx) == onewire_tag()
                &&& head_or_empty(m0.rx.skip(1)) == ack_group()
                &&& head_or_empty(m0.rx.skip(2)) == ack_group()
                &&& m.model().tx == m0.tx + seq![0x04u8, 0x48u8, 0x02u8]
                &&& m.model().rx == m0.rx.skip(3)
            }),
            r matches Err(p) ==> (p.1 matches Error::Transport(_) || (p.1 matches Error::Handshake {
                expected: _,
                got: _,
            } && head_or_empty(port.port.model().rx) != onewire_tag()) || p.1 matches
                Error::BadResponse { command: _, got: _ }),
    {
        let mut bb = port;
        match bb.port.write(&[0x04u8]) {
            Err(e) => {
                return Err((bb, Error::Transport(e)));
            },
            Ok(_) => {},
        }
        bb.port.sleep(Delay::Short);
        let chunk = match bb.port.read() {
            Err(e) => {
                return Err((bb, Error::Transport(e)));
            },
            Ok(c) => c,
        };
        let ok = chunk.len() == 4 && chunk[0] == 0x31 && chunk[1] == 0x57 && chunk[2] == 0x30
            && chunk[3] == 0x31;
        if !ok {
            proof {
                assert(chunk@ != onewire_tag());
            }
            let mut expected: Vec<u8> = Vec::new();
            expected.push(0x31);
            expected.push(0x57);
            expected.push(0x30);
            expected.push(0x31);
            return Err((bb, Error::Handshake { expected, got: chunk }));
        }
        proof {
            assert(chunk@ =~= onewire_tag());
        }
        match bb.port.write(&[0x48u8]) {
            Err(e) => {
                return Err((bb, Error::Transport(e)));
            },
            Ok(_) => {},
        }
        bb.port.sleep(Delay::Short);
        let power = match bb.port.read() {
            Err(e) => {
                return Err((bb, Error::Transport(e)));
            },
            Ok(c) => c,
        };
        if !(power.len() == 1 && power[0] == 0x01) {
            return Err((bb, Error::BadResponse { command: 0x48, got: power }));
        }
        proof {
            assert(power@ =~= ack_group());
        }
        let mut owm = Mode { port: bb, _ty: PhantomData };
        owm.port.port.sleep(Delay::ReallyLong);
        match owm.reset() {
            Err(e) => {
                let Mode { port: bb2, _ty: _ } = owm;
                return Err((bb2, e));
            },
            Ok(_) => {},
        }
        Ok(owm)
    }

    /// Reset the bus; it answers with a single acknowledgement byte. Must
    /// precede every new bus transaction sequence.
    pub fn reset(&mut self) -> (r: Result<(), Error>)
        ensures
            r matches Ok(_) ==> (head_or_empty(old(self).model().rx) == ack_group() && final(self).model().tx == old(self).model().tx + seq![0x02u8] && final(self).model().rx == old(
                self,
            ).model().rx.skip(1)),
            r matches Err(e) ==> (e matches Error::Transport(_) || (e matches Error::BadResponse {
                command: _,
                got: _,
            } && head_or_empty(old(self).model().rx) != ack_group())),
    {
        match self.port.port.write(&[0x02u8]) {
            Err(e) => {
                return Err(Error::Transport(e));
            },
            Ok(_) => {},
        }
        self.port.port.sleep(Delay::Short);
        let chunk = match self.port.port.read() {
            Err(e) => {
                return Err(Error::Transport(e));
            },
            Ok(c) => c,
        };
        if !(chunk.len() == 1 && chunk[0] == 0x01) {
            proof {
                assert(chunk@ != ack_group());
            }
            return Err(Error::BadResponse { command: 0x02, got: chunk });
        }
        proof {
            assert(chunk@ =~= ack_group());
        }
        Ok(())
    }

    /// Search the bus for devices: begin the ROM search, require a single
    /// acknowledgement byte, then read 8-byte groups until the all-`0xff`
    /// sentinel or a short read ends the search. Every full non-sentinel
    /// group is a discovered device, in discovery order.
    #[verifier::loop_isolation(false)]
    pub fn find_devices(&mut self) -> (r: Result<Vec<DeviceAddress>, Error>)
        ensures
            r matches Ok(devs) ==> ({
                let m0 = old(self).model();
                &&& head_or_empty(m0.rx) == ack_group()
                &&& devs@.map_values(|d: Vec<u8>| d@) == devices_of(m0.rx.skip(1))
                &&& final(self).model().tx == m0.tx + seq![0x08u8]
                &&& final(self).model().rx == m0.rx.skip(1).skip(search_consumed(m0.rx.skip(1)))
            }),
            r matches Err(e) ==> (e matches Error::Transport(_) || (e matches Error::BadResponse {
                command: _,
                got: _,
            } && head_or_empty(old(self).model().rx) != ack_group())),
    {
        match self.port.port.write(&[0x08u8]) {
            Err(e) => {
                return Err(Error::Transport(e));
            },
            Ok(_) => {},
        }
        self.port.port.sleep(Delay::Long);
        let ack = match self.port.port.read() {
            Err(e) => {
                return Err(Error::Transport(e));
            },
            Ok(c) => c,
        };
        if !(ack.len() == 1 && ack[0] == 0x01) {
            proof {
                assert(ack@ != ack_group());
            }
            return Err(Error::BadResponse { command: 0x08, got: ack });
        }
        proof {
            assert(ack@ =~= ack_group());
        }
        self.port.port.sleep(Delay::Long);
        let ghost rxs = self.model().rx;
        let mut ret: Vec<DeviceAddress> = Vec::new();
        proof {
            assert(rxs.skip(0) =~= rxs);
            assert(ret@.map_values(|d: Vec<u8>| d@) =~= Seq::<Seq<u8>>::empty());
        }
        let ghost mut popped: int = 0;
        loop
            invariant
                0 <= popped <= rxs.len(),
                self.model().rx == rxs.skip(popped),
                self.model().tx == old(self).model().tx + seq![0x08u8],
                rxs == old(self).model().rx.skip(1),
                devices_of(rxs) == ret@.map_values(|d: Vec<u8>| d@) + devices_of(rxs.skip(popped)),
                search_consumed(rxs) == popped + search_consumed(rxs.skip(popped)),
            decreases rxs.len() - popped,
        {
            let group = match self.port.port.read() {
                Err(e) => {
                    return Err(Error::Transport(e));
                },
                Ok(c) => c,
            };
            let device = group.len() == 8 && !is_all_ff(&group);
            if !device {
                proof {
                    if rxs.skip(popped).len() > 0 {
                        assert(group@ == rxs.skip(popped)[0]);
                        assert(!is_device_group(rxs.skip(popped)[0]));
                        assert(devices_of(rxs.skip(popped)) =~= Seq::<Seq<u8>>::empty());
                        assert(search_consumed(rxs.skip(popped)) == 1);
                        assert(rxs.skip(popped).skip(1) =~= rxs.skip(popped + 1));
                    } else {
                        assert(devices_of(rxs.skip(popped)) =~= Seq::<Seq<u8>>::empty());
                        assert(search_consumed(rxs.skip(popped)) == 0);
                    }
                    assert(ret@.map_values(|d: Vec<u8>| d@) + Seq::<Seq<u8>>::empty()
                        =~= ret@.map_values(|d: Vec<u8>| d@));
                }
                return Ok(ret);
            }
            proof {
                assert(rxs.skip(popped).len() > 0);
                assert(group@ == rxs.skip(popped)[0]);
                assert(is_device_group(group@));
                assert(rxs.skip(popped).skip(1) =~= rxs.skip(popped + 1));
            }
            let ghost old_map = ret@.map_values(|d: Vec<u8>| d@);
            ret.push(group);
            proof {
                assert(ret@.map_values(|d: Vec<u8>| d@) =~= old_map + seq![rxs.skip(popped)[0]]);
                assert(devices_of(rxs.skip(popped)) == seq![rxs.skip(popped)[0]] + devices_of(
                    rxs.skip(popped + 1),
                ));
                assert(devices_of(rxs) =~= ret@.map_values(|d: Vec<u8>| d@) + devices_of(
                    rxs.skip(popped + 1),
                ));
                popped = popped + 1;
            }
        }
    }

    /// Write raw bytes on the bus in chunks of at most four, each chunk
    /// framed with its header byte; after each chunk the adapter must
    /// answer with `chunk length + 1` bytes, every one `0x01`.
    #[verifier::loop_isolation(false)]
    pub fn raw_write(&mut self, msg: &[u8]) -> (r: Result<(), Error>)
        ensures
            r matches Ok(_) ==> ({
                let rx0 = after_drain(old(self).model().rx);
                &&& frames_ok(msg@, 4, rx0, true)
                &&& final(self).model().tx == old(self).model().tx + bulk_frames(msg@, 4)
                &&& final(self).model().rx == frames_rx_after(msg@, 4, rx0)
            }),
            r matches Err(e) ==> (e matches Error::Transport(_) || (e matches Error::BadResponse {
                command: _,
                got: _,
            } && !frames_ok(msg@, 4, after_drain(old(self).model().rx), true))),
    {
        match crate::bitbang::flush_buffer(&mut self.port.port) {
            Err(e) => {
                return Err(Error::Transport(e));
            },
            Ok(_) => {},
        }
        let ghost m0 = old(self).model();
        let ghost rx0 = self.model().rx;
        proof {
            assert(msg@.skip(0) =~= msg@);
        }
        let mut i: usize = 0;
        while i < msg.len()
            invariant
                i <= msg.len(),
                self.model().tx + bulk_frames(msg@.skip(i as int), 4) == m0.tx + bulk_frames(
                    msg@,
                    4,
                ),
                frames_ok(msg@, 4, rx0, true) <==> frames_ok(
                    msg@.skip(i as int),
                    4,
                    self.model().rx,
                    true,
                ),
                frames_rx_after(msg@, 4, rx0) == frames_rx_after(
                    msg@.skip(i as int),
                    4,
                    self.model().rx,
                ),
            decreases msg.len() - i,
        {
            let ghost rest = msg@.skip(i as int);
            let ghost rx_before = self.model().rx;
            let ghost tx_before = self.model().tx;
            let n = if msg.len() - i > 4 {
                4
            } else {
                msg.len() - i
            };
            proof {
                assert(first_chunk_len(rest.len(), 4) == n);
            }
            let mut frame: Vec<u8> = Vec::new();
            frame.push(0x10 | ((n - 1) as u8));
            crate::codec::push_range(&mut frame, msg, i, i + n);
            proof {
                crate::codec::lemma_chunk_header_or(n as nat);
                assert(rest.take(n as int) =~= msg@.subrange(i as int, i + n));
                assert(frame@ =~= seq![crate::codec::chunk_header(n as nat)] + rest.take(n as int));
            }
            match self.port.port.write(frame.as_slice()) {
                Err(e) => {
                    return Err(Error::Transport(e));
                },
                Ok(_) => {},
            }
            self.port.port.sleep(Delay::Long);
            let resp = match self.port.port.read() {
                Err(e) => {
                    return Err(Error::Transport(e));
                },
                Ok(c) => c,
            };
            proof {
                assert(resp@ == head_or_empty(rx_before));
            }
            if resp.len() != n + 1 {
                proof {
                    assert(!frames_ok(rest, 4, rx_before, true));
                }
                return Err(Error::BadResponse { command: frame[0], got: resp });
            }
            let mut j: usize = 0;
            while j < resp.len()
                invariant
                    j <= resp.len(),
                    forall|k: int| 0 <= k < j ==> resp@[k] == 0x01,
                decreases resp.len() - j,
            {
                if resp[j] != 0x01 {
                    proof {
                        assert(!all_bytes_are(resp@, 0x01));
                        assert(!frames_ok(rest, 4, rx_before, true));
                    }
                    return Err(Error::BadResponse { command: frame[0], got: resp });
                }
                j = j + 1;
            }
            proof {
                assert(all_bytes_are(resp@, 0x01));
                assert(rx_before.len() > 0);
                assert(rest.skip(n as int) =~= msg@.skip(i + n));
                assert(bulk_frames(rest, 4) == frame@ + bulk_frames(rest.skip(n as int), 4)) by {
                    assert(bulk_frames(rest, 4) =~= seq![crate::codec::chunk_header(n as nat)]
                        + rest.take(n as int) + bulk_frames(rest.skip(n as int), 4));
                    assert(seq![crate::codec::chunk_header(n as nat)] + rest.take(n as int)
                        + bulk_frames(rest.skip(n as int), 4) =~= frame@ + bulk_frames(
                        rest.skip(n as int),
                        4,
                    ));
                }
                assert(self.model().tx + bulk_frames(msg@.skip(i + n), 4) =~= m0.tx + bulk_frames(
                    msg@,
                    4,
                )) by {
                    assert(self.model().tx == tx_before + frame@);
                    assert(tx_before + frame@ + bulk_frames(rest.skip(n as int), 4) =~= tx_before
                        + bulk_frames(rest, 4));
                }
                assert(frames_ok(rest, 4, rx_before, true) <==> frames_ok(
                    rest.skip(n as int),
                    4,
                    rx_before.skip(1),
                    true,
                ));
            }
            i = i + n;
        }
        proof {
            assert(msg@.skip(msg@.len() as int) =~= Seq::<u8>::empty());
            assert(self.model().tx =~= m0.tx + bulk_frames(msg@, 4));
        }
        Ok(())
    }

    /// Read `sz` bytes, one single-byte read command per byte; each command
    /// must answer with exactly one byte.
    #[verifier::loop_isolation(false)]
    pub fn bulk_read(&mut self, sz: usize) -> (r: Result<Vec<u8>, Error>)
        ensures
            r matches Ok(v) ==> ({
                let m0 = old(self).model();
                &&& reads_ok(sz as nat, m0.rx)
                &&& v@ == read_bytes(sz as nat, m0.rx)
                &&& final(self).model().tx == m0.tx + Seq::new(sz as nat, |i: int| 0x04u8)
                &&& final(self).model().rx == m0.rx.skip(sz as int)
            }),
            r matches Err(e) ==> (e matches Error::Transport(_) || (e matches Error::BadResponse {
                command: _,
                got: _,
            } && !reads_ok(sz as nat, old(self).model().rx))),
    {
        let ghost m0 = old(self).model();
        let mut ret: Vec<u8> = Vec::new();
        let mut j: usize = 0;
        while j < sz
            invariant
                j <= sz,
                j as int <= m0.rx.len(),
                self.model().rx == m0.rx.skip(j as int),
                self.model().tx == m0.tx + Seq::new(j as nat, |i: int| 0x04u8),
                reads_ok(sz as nat, m0.rx) <==> reads_ok((sz - j) as nat, self.model().rx),
                read_bytes(sz as nat, m0.rx) == ret@ + read_bytes(
                    (sz - j) as nat,
                    self.model().rx,
                ),
            decreases sz - j,
        {
            let ghost rx_before = self.model().rx;
            match self.port.port.write(&[0x04u8]) {
                Err(e) => {
                    return Err(Error::Transport(e));
                },
                Ok(_) => {},
            }
            self.port.port.sleep(Delay::Short);
            let chunk = match self.port.port.read() {
                Err(e) => {
                    return Err(Error::Transport(e));
                },
                Ok(c) => c,
            };
            proof {
                assert(chunk@ == head_or_empty(rx_before));
            }
            if chunk.len() != 1 {
                proof {
                    assert(!reads_ok((sz - j) as nat, rx_before));
                }
                return Err(Error::BadResponse { command: 0x04, got: chunk });
            }
            let ghost old_ret = ret@;
            ret.push(chunk[0]);
            j = j + 1;
            proof {
                assert(rx_before.len() > 0);
                assert(j - 1 < m0.rx.len());
                assert(rx_before.skip(1) =~= m0.rx.skip(j as int));
                assert(self.model().tx =~= m0.tx + Seq::new(j as nat, |i: int| 0x04u8));
                assert(head_or_empty(rx_before) =~= seq![chunk@[0]]);
                assert(ret@ =~= old_ret + head_or_empty(rx_before));
                assert(read_bytes(sz as nat, m0.rx) =~= ret@ + read_bytes(
                    (sz - j) as nat,
                    self.model().rx,
                ));
            }
        }
        proof {
            assert(read_bytes(0, self.model().rx) =~= Seq::<u8>::empty());
            assert(ret@ + Seq::<u8>::empty() =~= ret@);
        }
        Ok(ret)
    }

    /// Target one device: send the match-ROM frame, the select command
    /// byte followed by the device's ROM code.
    pub fn select(&mut self, addr: &[u8]) -> (r: Result<(), Error>)
        ensures
            r matches Ok(_) ==> ({
                let rx0 = after_drain(old(self).model().rx);
                &&& frames_ok(select_frame(addr@), 4, rx0, true)
                &&& final(self).model().tx == old(self).model().tx + bulk_frames(
                    select_frame(addr@),
                    4,
                )
                &&& final(self).model().rx == frames_rx_after(select_frame(addr@), 4, rx0)
            }),
            r matches Err(e) ==> (e matches Error::Transport(_) || (e matches Error::BadResponse {
                command: _,
                got: _,
            } && !frames_ok(select_frame(addr@), 4, after_drain(old(self).model().rx), true))),
    {
        let mut select_msg: Vec<u8> = Vec::new();
        select_msg.push(0x55);
        crate::codec::push_range(&mut select_msg, addr, 0, addr.len());
        proof {
            assert(addr@.subrange(0, addr@.len() as int) =~= addr@);
            assert(select_msg@ =~= select_frame(addr@));
        }
        self.raw_write(select_msg.as_slice())
    }
    /// Write the data to the device's EEPROM in pages of eight bytes,
    /// starting at address zero: each page is staged in the scratchpad,
    /// read back and required to match, then copied to main memory under
    /// the echoed access code, with a bus reset between transactions.
    #[verifier::loop_isolation(false)]
    #[verifier::rlimit(60)]
    pub fn write_eeprom(&mut self, dev_addr: &[u8], data: &[u8]) -> (r: Result<(), Error>)
        requires
            data@.len() <= 0xffff,
        ensures
            r matches Ok(_) ==> (eeprom_write_ok(dev_addr@, 0, data@, old(self).model().rx)
                && final(self).model().rx == eeprom_write_rx_after(
                dev_addr@,
                0,
                data@,
                old(self).model().rx,
            ) && final(self).model().tx == old(self).model().tx + eeprom_write_tx(
                dev_addr@,
                0,
                data@,
                old(self).model().rx,
            )),
            r matches Err(e) ==> (e matches Error::Transport(_) || ((e matches Error::BadResponse {
                command: _,
                got: _,
            } || e matches Error::VerifyMismatch { expected: _, got: _ }) && !eeprom_write_ok(
                dev_addr@,
                0,
                data@,
                old(self).model().rx,
            ))),
    {
        let ghost rx_orig = old(self).model().rx;
        let ghost tx_orig = old(self).model().tx;
        proof {
            assert(data@.skip(0) =~= data@);
        }
        let mut addr: u16 = 0;
        let mut i: usize = 0;
        while i < data.len()
            invariant
                i <= data.len(),
                addr == i as u16,
                eeprom_write_ok(dev_addr@, 0, data@, rx_orig) <==> eeprom_write_ok(
                    dev_addr@,
                    i as nat,
                    data@.skip(i as int),
                    self.model().rx,
                ),
                eeprom_write_rx_after(dev_addr@, 0, data@, rx_orig) == eeprom_write_rx_after(
                    dev_addr@,
                    i as nat,
                    data@.skip(i as int),
                    self.model().rx,
                ),
                tx_orig + eeprom_write_tx(dev_addr@, 0, data@, rx_orig) == self.model().tx
                    + eeprom_write_tx(dev_addr@, i as nat, data@.skip(i as int), self.model().rx),
            decreases data.len() - i,
        {
            let ghost rx_iter = self.model().rx;
            let ghost tx_iter = self.model().tx;
            let ghost rest = data@.skip(i as int);
            let n = if data.len() - i > 8 {
                8
            } else {
                data.len() - i
            };
            let chunk = crate::codec::copy_range(data, i, i + n);
            proof {
                assert(first_chunk_len(rest.len(), 8) == n);
                assert(rest.take(n as int) =~= chunk@);
                assert(rest.skip(n as int) =~= data@.skip(i + n));
            }
            match self.select(dev_addr) {
                Err(e) => {
                    proof {
                        assert((e matches Error::BadResponse { command: _, got: _ })
                            ==> !eeprom_write_ok(dev_addr@, i as nat, rest, rx_iter));
                    }
                    return Err(e);
                },
                Ok(_) => {},
            }
            let mut write_msg: Vec<u8> = Vec::new();
            write_msg.push(0x0f);
            write_msg.push((addr % 256) as u8);
            write_msg.push(((addr / 256) % 256) as u8);
            crate::codec::push_range(&mut write_msg, data, i, i + n);
            proof {
                assert(write_msg@ =~= page_write_cmd(addr as nat, chunk@));
            }
            match self.raw_write(write_msg.as_slice()) {
                Err(e) => {
                    proof {
                        assert((e matches Error::BadResponse { command: _, got: _ })
                            ==> !eeprom_write_ok(dev_addr@, i as nat, rest, rx_iter));
                    }
                    return Err(e);
                },
                Ok(_) => {},
            }
            self.port.port.sleep(Delay::Short);
            match self.reset() {
                Err(e) => {
                    proof {
                        assert((e matches Error::BadResponse { command: _, got: _ })
                            ==> !eeprom_write_ok(dev_addr@, i as nat, rest, rx_iter));
                    }
                    return Err(e);
                },
                Ok(_) => {},
            }
            self.port.port.sleep(Delay::Short);
            match self.select(dev_addr) {
                Err(e) => {
                    proof {
                        assert((e matches Error::BadResponse { command: _, got: _ })
                            ==> !eeprom_write_ok(dev_addr@, i as nat, rest, rx_iter));
                    }
                    return Err(e);
                },
                Ok(_) => {},
            }
            let mut read_msg: Vec<u8> = Vec::new();
            read_msg.push(0xaa);
            proof {
                assert(read_msg@ =~= seq![0xaau8]);
            }
            match self.raw_write(read_msg.as_slice()) {
                Err(e) => {
                    proof {
                        assert((e matches Error::BadResponse { command: _, got: _ })
                            ==> !eeprom_write_ok(dev_addr@, i as nat, rest, rx_iter));
                    }
                    return Err(e);
                },
                Ok(_) => {},
            }
            let read_results = match self.bulk_read(3) {
                Err(e) => {
                    proof {
                        assert((e matches Error::BadResponse { command: _, got: _ })
                            ==> !eeprom_write_ok(dev_addr@, i as nat, rest, rx_iter));
                    }
                    return Err(e);
                },
                Ok(v) => v,
            };
            let read_scratchpad = match self.bulk_read(n) {
                Err(e) => {
                    proof {
                        assert((e matches Error::BadResponse { command: _, got: _ })
                            ==> !eeprom_write_ok(dev_addr@, i as nat, rest, rx_iter));
                    }
                    return Err(e);
                },
                Ok(v) => v,
            };
            if !crate::codec::bytes_eq(read_scratchpad.as_slice(), chunk.as_slice()) {
                proof {
                    assert(!eeprom_write_ok(dev_addr@, i as nat, rest, rx_iter));
                }
                return Err(Error::VerifyMismatch { expected: chunk, got: read_scratchpad });
            }
            match self.reset() {
                Err(e) => {
                    proof {
                        assert((e matches Error::BadResponse { command: _, got: _ })
                            ==> !eeprom_write_ok(dev_addr@, i as nat, rest, rx_iter));
                    }
                    return Err(e);
                },
                Ok(_) => {},
            }
            self.port.port.sleep(Delay::Short);
            match self.select(dev_addr) {
                Err(e) => {
                    proof {
                        assert((e matches Error::BadResponse { command: _, got: _ })
                            ==> !eeprom_write_ok(dev_addr@, i as nat, rest, rx_iter));
                    }
                    return Err(e);
                },
                Ok(_) => {},
            }
            let mut copy_msg: Vec<u8> = Vec::new();
            copy_msg.push(0x55);
            crate::codec::push_range(&mut copy_msg, read_results.as_slice(), 0, read_results.len());
            proof {
                assert(read_results@.subrange(0, read_results@.len() as int) =~= read_results@);
                assert(copy_msg@ =~= seq![0x55u8] + read_results@);
            }
            match self.raw_write(copy_msg.as_slice()) {
                Err(e) => {
                    proof {
                        assert((e matches Error::BadResponse { command: _, got: _ })
                            ==> !eeprom_write_ok(dev_addr@, i as nat, rest, rx_iter));
                    }
                    return Err(e);
                },
                Ok(_) => {},
            }
            match self.reset() {
                Err(e) => {
                    proof {
                        assert((e matches Error::BadResponse { command: _, got: _ })
                            ==> !eeprom_write_ok(dev_addr@, i as nat, rest, rx_iter));
                    }
                    return Err(e);
                },
                Ok(_) => {},
            }
            self.port.port.sleep(Delay::Short);
            proof {
                assert(page_ok(dev_addr@, i as nat, chunk@, rx_iter));
                assert(self.model().rx == page_rx_after(dev_addr@, i as nat, chunk@, rx_iter));
                assert(self.model().tx =~= tx_iter + page_tx(dev_addr@, i as nat, chunk@, rx_iter));
            }
            addr = addr + (n as u16);
            i = i + n;
        }
        proof {
            assert(data@.skip(data@.len() as int) =~= Seq::<u8>::empty());
            assert(self.model().tx + Seq::<u8>::empty() =~= self.model().tx);
        }
        Ok(())
    }

    /// Read `len` bytes from the selected device's EEPROM: target the
    /// device, read the bytes one command each, and reset the bus.
    pub fn read_eeprom(&mut self, dev_addr: &[u8], len: usize) -> (r: Result<Vec<u8>, Error>)
        ensures
            r matches Ok(v) ==> ({
                let rx0 = after_drain(old(self).model().rx);
                let s1 = frames_rx_after(select_frame(dev_addr@), 4, rx0);
                &&& frames_ok(select_frame(dev_addr@), 4, rx0, true)
                &&& reads_ok(len as nat, s1)
                &&& v@ == read_bytes(len as nat, s1)
                &&& head_or_empty(s1.skip(len as int)) == ack_group()
                &&& final(self).model().rx == s1.skip(len as int).skip(1)
                &&& final(self).model().tx == old(self).model().tx + bulk_frames(
                    select_frame(dev_addr@),
                    4,
                ) + Seq::new(len as nat, |i: int| 0x04u8) + seq![0x02u8]
            }),
            r matches Err(e) ==> (e matches Error::Transport(_) || e matches Error::BadResponse {
                command: _,
                got: _,
            }),
    {
        match self.select(dev_addr) {
            Err(e) => {
                return Err(e);
            },
            Ok(_) => {},
        }
        let ret = match self.bulk_read(len) {
            Err(e) => {
                return Err(e);
            },
            Ok(v) => v,
        };
        match self.reset() {
            Err(e) => {
                return Err(e);
            },
            Ok(_) => {},
        }
        proof {
            assert(final(self).model().tx =~= old(self).model().tx + bulk_frames(
                select_frame(dev_addr@),
                4,
            ) + Seq::new(len as nat, |i: int| 0x04u8) + seq![0x02u8]);
        }
        Ok(ret)
    }
}

/// One whole EEPROM session on the first device found: enter 1-Wire mode,
/// search the bus, write the data to the first device, read it back, and
/// require the read-back to equal what was written. The protocol handle is
/// torn down on every path — success, failure, and entry failure alike —
/// before the bit-bang handle is handed back.
pub fn do_ds2431<T: Transport>(bb: BitBangMode<T>, data: &[u8]) -> (r: (
    BitBangMode<T>,
    Result<(), Error>,
))
    requires
        data@.len() <= 0xffff,
    ensures
        r.1 matches Ok(_) ==> (r.0.port.model().tx.len() > 0 && r.0.port.model().tx.last()
            == 0x00u8),
{
    let mut ow = match Mode::<T, OneWire>::onewire(bb) {
        Err((bb2, e)) => {
            return (bb2, Err(e));
        },
        Ok(m) => m,
    };
    let devices = match ow.find_devices() {
        Err(e) => {
            let (bb2, _) = ow.close();
            return (bb2, Err(e));
        },
        Ok(d) => d,
    };
    if devices.len() == 0 {
        let (bb2, _) = ow.close();
        return (bb2, Err(Error::NoDevice));
    }
    let dev_addr = &devices[0];
    match ow.write_eeprom(dev_addr.as_slice(), data) {
        Err(e) => {
            let (bb2, _) = ow.close();
            return (bb2, Err(e));
        },
        Ok(_) => {},
    }
    let read_result = match ow.read_eeprom(dev_addr.as_slice(), data.len()) {
        Err(e) => {
            let (bb2, _) = ow.close();
            return (bb2, Err(e));
        },
        Ok(v) => v,
    };
    let (bb2, closed) = ow.close();
    if !crate::codec::bytes_eq(read_result.as_slice(), data) {
        let expected = crate::codec::copy_range(data, 0, data.len());
        return (bb2, Err(Error::VerifyMismatch { expected, got: read_result }));
    }
    match closed {
        Err(e) => (bb2, Err(e)),
        Ok(_) => {
            proof {
                assert(bb2.port.model().tx.last() == 0x00u8);
            }
            (bb2, Ok(()))
        },
    }
}

/// Every byte of the group is `0xff`.
fn is_all_ff(v: &Vec<u8>) -> (r: bool)
    ensures
        r == all_bytes_are(v@, 0xff),
{
    let mut i: usize = 0;
    while i < v.len()
        invariant
            i <= v.len(),
            forall|k: int| 0 <= k < i ==> v@[k] == 0xff,
        decreases v.len() - i,
    {
        if v[i] != 0xff {
            return false;
        }
        i = i + 1;
    }
    true
}

} // verus!
