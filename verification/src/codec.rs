//! Wire-level encoding shared by the protocol engines: bulk-write framing,
//! response shapes, and the mode tags the adapter answers with.

use vstd::prelude::*;

verus! {

/// The confirmation tag for bit-bang mode, the bytes of `"BBIO1"`.
pub open spec fn bbio_tag() -> Seq<u8> {
    seq![0x42u8, 0x42u8, 0x49u8, 0x4fu8, 0x31u8]
}

/// The confirmation tag for I2C mode, the bytes of `"I2C1"`.
pub open spec fn i2c_tag() -> Seq<u8> {
    seq![0x49u8, 0x32u8, 0x43u8, 0x31u8]
}

/// The confirmation tag for 1-Wire mode, the bytes of `"1W01"`.
pub open spec fn onewire_tag() -> Seq<u8> {
    seq![0x31u8, 0x57u8, 0x30u8, 0x31u8]
}

/// A single acknowledgement byte.
pub open spec fn ack_group() -> Seq<u8> {
    seq![0x01u8]
}

/// Every byte of `s` equals `b`.
pub open spec fn all_bytes_are(s: Seq<u8>, b: u8) -> bool {
    forall|i: int| 0 <= i < s.len() ==> s[i] == b
}

/// Every byte of `s` is an acknowledgement value, `0x00` or `0x01`.
pub open spec fn all_ack_values(s: Seq<u8>) -> bool {
    forall|i: int| 0 <= i < s.len() ==> (s[i] == 0x00 || s[i] == 0x01)
}

/// The header byte of a bulk-write frame carrying `n` data bytes.
pub open spec fn chunk_header(n: nat) -> u8
    recommends
        1 <= n <= 16,
{
    (0x10 + (n - 1)) as u8
}

/// The full byte stream of a chunked bulk write: the data split into chunks
/// of at most `max` bytes, each preceded by its header byte.
pub open spec fn bulk_frames(data: Seq<u8>, max: nat) -> Seq<u8>
    recommends
        max >= 1,
    decreases data.len(),
    when max >= 1
{
    if data.len() == 0 {
        Seq::empty()
    } else {
        let n: nat = if data.len() <= max {
            data.len()
        } else {
            max
        };
        seq![chunk_header(n)] + data.take(n as int) + bulk_frames(data.skip(n as int), max)
    }
}

/// The header formula written with the bitwise or of the wire protocol:
/// for a chunk of `n` bytes it is `0x10 | (n - 1)`.
pub proof fn lemma_chunk_header_or(n: nat)
    requires
        1 <= n <= 16,
    ensures
        chunk_header(n) == (0x10u8 | ((n - 1) as u8)),
{
    let m: u8 = (n - 1) as u8;
    assert(m < 16 ==> (0x10u8 | m) == (0x10 + m) as u8) by (bit_vector);
}

/// Law: data that fits in one chunk is framed as exactly one header byte,
/// `0x10 | (n - 1)`, followed by the `n` data bytes, so the frame is `n + 1`
/// bytes long. This holds for every chunk size `1..=max`, in particular
/// `1..=16` for I2C and `1..=4` for 1-Wire.
pub proof fn lemma_bulk_frame_single(data: Seq<u8>, max: nat)
    requires
        1 <= data.len() <= max <= 16,
    ensures
        bulk_frames(data, max) == seq![(0x10u8 | ((data.len() - 1) as u8))] + data,
        bulk_frames(data, max).len() == data.len() + 1,
{
    lemma_chunk_header_or(data.len());
    assert(data.take(data.len() as int) =~= data);
    assert(data.skip(data.len() as int) =~= Seq::<u8>::empty());
    assert(bulk_frames(Seq::<u8>::empty(), max) == Seq::<u8>::empty());
    assert(bulk_frames(data, max) =~= seq![chunk_header(data.len())] + data);
}

/// The size of the first chunk that a chunked write of `len` bytes sends.
pub open spec fn first_chunk_len(len: nat, max: nat) -> nat
    recommends
        max >= 1,
{
    if len <= max {
        len
    } else {
        max
    }
}

/// The responses to a chunked bulk write are well formed: one group per
/// chunk, `n + 1` bytes long for a chunk of `n` bytes, and every byte an
/// acknowledgement — strictly `0x01` when `strict`, `0x00` or `0x01`
/// otherwise.
pub open spec fn frames_ok(data: Seq<u8>, max: nat, rx: Seq<Seq<u8>>, strict: bool) -> bool
    recommends
        max >= 1,
    decreases data.len(),
    when max >= 1
{
    if data.len() == 0 {
        true
    } else {
        let n = first_chunk_len(data.len(), max);
        &&& rx.len() > 0
        &&& rx[0].len() == n + 1
        &&& if strict {
            all_bytes_are(rx[0], 0x01)
        } else {
            all_ack_values(rx[0])
        }
        &&& frames_ok(data.skip(n as int), max, rx.skip(1), strict)
    }
}

/// The receive queue once a chunked bulk write has consumed its responses,
/// one group per chunk.
pub open spec fn frames_rx_after(data: Seq<u8>, max: nat, rx: Seq<Seq<u8>>) -> Seq<Seq<u8>>
    recommends
        max >= 1,
    decreases data.len(),
    when max >= 1
{
    if data.len() == 0 {
        rx
    } else {
        let n = first_chunk_len(data.len(), max);
        frames_rx_after(data.skip(n as int), max, rx.skip(1))
    }
}

/// A copy of `src[start..end]` as a fresh vector.
pub fn copy_range(src: &[u8], start: usize, end: usize) -> (out: Vec<u8>)
    requires
        start <= end <= src@.len(),
    ensures
        out@ == src@.subrange(start as int, end as int),
{
    let mut out: Vec<u8> = Vec::new();
    let mut i: usize = start;
    while i < end
        invariant
            start <= i <= end <= src@.len(),
            out@ == src@.subrange(start as int, i as int),
        decreases end - i,
    {
        out.push(src[i]);
        i = i + 1;
        proof {
            assert(out@ =~= src@.subrange(start as int, i as int));
        }
    }
    out
}

/// Append `src[start..end]` to `dst`.
pub fn push_range(dst: &mut Vec<u8>, src: &[u8], start: usize, end: usize)
    requires
        start <= end <= src@.len(),
    ensures
        final(dst)@ == old(dst)@ + src@.subrange(start as int, end as int),
{
    let mut i: usize = start;
    while i < end
        invariant
            start <= i <= end <= src@.len(),
            dst@ == old(dst)@ + src@.subrange(start as int, i as int),
        decreases end - i,
    {
        dst.push(src[i]);
        i = i + 1;
        proof {
            assert(dst@ =~= old(dst)@ + src@.subrange(start as int, i as int));
        }
    }
    proof {
        assert(dst@ =~= old(dst)@ + src@.subrange(start as int, end as int));
    }
}

/// The two byte strings are equal.
pub fn bytes_eq(a: &[u8], b: &[u8]) -> (r: bool)
    ensures
        r == (a@ == b@),
{
    if a.len() != b.len() {
        return false;
    }
    let mut i: usize = 0;
    while i < a.len()
        invariant
            i <= a.len(),
            a@.len() == b@.len(),
            forall|k: int| 0 <= k < i ==> a@[k] == b@[k],
        decreases a.len() - i,
    {
        if a[i] != b[i] {
            return false;
        }
        i = i + 1;
    }
    proof {
        assert(a@ =~= b@);
    }
    true
}

} // verus!
