//! Big-endian integers and the 4-byte length-prefixed framing of a stream.
use vstd::prelude::*;

verus! {

/// The four big-endian bytes of `v`.
pub open spec fn be32(v: u32) -> Seq<u8> {
    seq![(v >> 24u32) as u8, (v >> 16u32) as u8, (v >> 8u32) as u8, v as u8]
}

/// The value of four big-endian bytes.
pub open spec fn be32_value(b0: u8, b1: u8, b2: u8, b3: u8) -> u32 {
    ((b0 as u32) << 24u32) | ((b1 as u32) << 16u32) | ((b2 as u32) << 8u32) | (b3 as u32)
}

/// The value of the first four bytes of `b`, read big-endian.
pub open spec fn be32_at(b: Seq<u8>) -> u32
    recommends
        b.len() >= 4,
{
    be32_value(b[0], b[1], b[2], b[3])
}

/// The eight big-endian bytes of `v`.
pub open spec fn be64(v: u64) -> Seq<u8> {
    be32((v >> 32u64) as u32) + be32(v as u32)
}

/// The value of the first eight bytes of `b`, read big-endian.
pub open spec fn be64_at(b: Seq<u8>) -> u64
    recommends
        b.len() >= 8,
{
    ((be32_at(b) as u64) << 32u64) | (be32_at(b.subrange(4, 8)) as u64)
}

/// A frame: the payload's length as four big-endian bytes, then the payload.
pub open spec fn frame_of(payload: Seq<u8>) -> Seq<u8> {
    be32(payload.len() as u32) + payload
}

proof fn lemma_be32_bits(v: u32)
    ensures
        be32_value((v >> 24u32) as u8, (v >> 16u32) as u8, (v >> 8u32) as u8, v as u8) == v,
{
    let b0 = (v >> 24u32) as u8;
    let b1 = (v >> 16u32) as u8;
    let b2 = (v >> 8u32) as u8;
    let b3 = v as u8;
    assert(((b0 as u32) << 24u32) | ((b1 as u32) << 16u32) | ((b2 as u32) << 8u32) | (b3 as u32)
        == v) by (bit_vector)
        requires
            b0 == (v >> 24u32) as u8,
            b1 == (v >> 16u32) as u8,
            b2 == (v >> 8u32) as u8,
            b3 == v as u8,
    ;
}

proof fn lemma_be32_bytes(b0: u8, b1: u8, b2: u8, b3: u8)
    ensures
        ({
            let v = be32_value(b0, b1, b2, b3);
            &&& (v >> 24u32) as u8 == b0
            &&& (v >> 16u32) as u8 == b1
            &&& (v >> 8u32) as u8 == b2
            &&& v as u8 == b3
        }),
{
    let v = be32_value(b0, b1, b2, b3);
    assert((v >> 24u32) as u8 == b0 && (v >> 16u32) as u8 == b1 && (v >> 8u32) as u8 == b2
        && v as u8 == b3) by (bit_vector)
        requires
            v == ((b0 as u32) << 24u32) | ((b1 as u32) << 16u32) | ((b2 as u32) << 8u32) | (b3 as u32),
    ;
}

/// Reading back the bytes of `be32(v)` gives `v`, whatever follows them.
pub proof fn lemma_be32_read(v: u32, rest: Seq<u8>)
    ensures
        be32_at(be32(v) + rest) == v,
        (be32(v) + rest).len() == rest.len() + 4,
        (be32(v) + rest).subrange(4, rest.len() + 4 as int) == rest,
{
    lemma_be32_bits(v);
    assert((be32(v) + rest).subrange(4, rest.len() + 4 as int) =~= rest);
}

/// Four bytes are the big-endian bytes of the value they are read as.
pub proof fn lemma_be32_split(b: Seq<u8>)
    requires
        b.len() >= 4,
    ensures
        b == be32(be32_at(b)) + b.subrange(4, b.len() as int),
{
    lemma_be32_bytes(b[0], b[1], b[2], b[3]);
    assert(b =~= be32(be32_at(b)) + b.subrange(4, b.len() as int));
}

/// Reading back the bytes of `be64(v)` gives `v`, whatever follows them.
pub proof fn lemma_be64_read(v: u64, rest: Seq<u8>)
    ensures
        be64_at(be64(v) + rest) == v,
        (be64(v) + rest).len() == rest.len() + 8,
        (be64(v) + rest).subrange(8, rest.len() + 8 as int) == rest,
{
    let hi = (v >> 32u64) as u32;
    let lo = v as u32;
    let b = be64(v) + rest;
    lemma_be32_read(hi, be32(lo) + rest);
    assert(b =~= be32(hi) + (be32(lo) + rest));
    lemma_be32_read(lo, rest);
    assert(b.subrange(4, 8) =~= be32(lo) + Seq::<u8>::empty());
    lemma_be32_read(lo, Seq::<u8>::empty());
    assert(((hi as u64) << 32u64) | (lo as u64) == v) by (bit_vector)
        requires
            hi == (v >> 32u64) as u32,
            lo == v as u32,
    ;
    assert(b.subrange(8, rest.len() + 8 as int) =~= rest);
}

/// Eight bytes are the big-endian bytes of the value they are read as.
pub proof fn lemma_be64_split(b: Seq<u8>)
    requires
        b.len() >= 8,
    ensures
        b == be64(be64_at(b)) + b.subrange(8, b.len() as int),
{
    let hi = be32_at(b);
    let lo = be32_at(b.subrange(4, 8));
    let v = be64_at(b);
    assert(v == ((hi as u64) << 32u64) | (lo as u64));
    assert((v >> 32u64) as u32 == hi && v as u32 == lo) by (bit_vector)
        requires
            v == ((hi as u64) << 32u64) | (lo as u64),
    ;
    lemma_be32_split(b);
    lemma_be32_split(b.subrange(4, 8));
    assert(b =~= be64(v) + b.subrange(8, b.len() as int));
}

/// The four big-endian bytes of `v`.
pub fn u32_to_be(v: u32) -> (r: [u8; 4])
    ensures
        r@ == be32(v),
{
    let r = [(v >> 24u32) as u8, (v >> 16u32) as u8, (v >> 8u32) as u8, v as u8];
    assert(r@ =~= be32(v));
    r
}

/// The value of four big-endian bytes.
pub fn u32_from_be(b: [u8; 4]) -> (r: u32)
    ensures
        r == be32_at(b@),
{
    ((b[0] as u32) << 24u32) | ((b[1] as u32) << 16u32) | ((b[2] as u32) << 8u32) | (b[3] as u32)
}

/// Appends the four big-endian bytes of `v`.
pub fn put_u32(out: &mut Vec<u8>, v: u32)
    ensures
        final(out)@ == old(out)@ + be32(v),
{
    out.push((v >> 24u32) as u8);
    out.push((v >> 16u32) as u8);
    out.push((v >> 8u32) as u8);
    out.push(v as u8);
    assert(final(out)@ =~= old(out)@ + be32(v));
}

/// Appends the eight big-endian bytes of `v`.
pub fn put_u64(out: &mut Vec<u8>, v: u64)
    ensures
        final(out)@ == old(out)@ + be64(v),
{
    put_u32(out, (v >> 32u64) as u32);
    put_u32(out, v as u32);
    assert(final(out)@ =~= old(out)@ + be64(v));
}

/// Appends all of `bytes`.
pub fn put_bytes(out: &mut Vec<u8>, bytes: &[u8])
    ensures
        final(out)@ == old(out)@ + bytes@,
{
    let ghost start = out@;
    let mut i: usize = 0;
    while i < bytes.len()
        invariant
            0 <= i <= bytes@.len(),
            out@ == start + bytes@.subrange(0, i as int),
        decreases bytes@.len() - i,
    {
        out.push(bytes[i]);
        i = i + 1;
        assert(out@ =~= start + bytes@.subrange(0, i as int));
    }
    assert(bytes@.subrange(0, i as int) =~= bytes@);
}

/// Reads the big-endian `u32` that starts at `pos`.
pub fn read_u32(b: &[u8], pos: usize) -> (r: u32)
    requires
        pos + 4 <= b@.len(),
    ensures
        r == be32_at(b@.subrange(pos as int, b@.len() as int)),
{
    ((b[pos] as u32) << 24u32) | ((b[pos + 1] as u32) << 16u32) | ((b[pos + 2] as u32) << 8u32) | (
    b[pos + 3] as u32)
}

/// Reads the big-endian `u64` that starts at `pos`.
pub fn read_u64(b: &[u8], pos: usize) -> (r: u64)
    requires
        pos + 8 <= b@.len(),
    ensures
        r == be64_at(b@.subrange(pos as int, b@.len() as int)),
{
    let len = b.len();
    assert(pos + 8 <= len);
    let hi = read_u32(b, pos);
    let lo = read_u32(b, pos + 4);
    let ghost rest = b@.subrange(pos as int, b@.len() as int);
    assert(rest.subrange(4, 8).subrange(0, 4) =~= b@.subrange(pos + 4, b@.len() as int).subrange(0, 4));
    assert(be32_at(rest.subrange(4, 8)) == lo);
    ((hi as u64) << 32u64) | (lo as u64)
}

/// The frame that carries `payload`: its length as four big-endian bytes, then the payload.
pub fn encode_frame(payload: &[u8]) -> (r: Vec<u8>)
    requires
        payload@.len() <= u32::MAX,
    ensures
        r@ == frame_of(payload@),
{
    let mut out: Vec<u8> = Vec::new();
    put_u32(&mut out, payload.len() as u32);
    put_bytes(&mut out, payload);
    assert(out@ =~= frame_of(payload@));
    out
}

/// The payload length announced by a frame's four header bytes.
pub fn frame_payload_len(header: [u8; 4]) -> (r: u32)
    ensures
        r == be32_at(header@),
{
    u32_from_be(header)
}

/// Splits the first frame off `buf`: its payload and the number of bytes the frame takes.
/// `None` while `buf` does not yet hold a whole frame.
pub fn split_frame(buf: &[u8]) -> (r: Option<(Vec<u8>, usize)>)
    ensures
        r is Some <==> buf@.len() >= 4 && buf@.len() - 4 >= be32_at(buf@),
        r matches Some((payload, used)) ==> {
            &&& payload@.len() == be32_at(buf@)
            &&& used == 4 + payload@.len()
            &&& buf@.subrange(0, used as int) == frame_of(payload@)
        },
{
    if buf.len() < 4 {
        return None;
    }
    let n = read_u32(buf, 0);
    assert(buf@.subrange(0, buf@.len() as int) =~= buf@);
    if buf.len() - 4 < n as usize {
        return None;
    }
    let end: usize = 4 + n as usize;
    let payload = vstd::slice::slice_to_vec(vstd::slice::slice_subrange(buf, 4, end));
    proof {
        lemma_be32_split(buf@);
        assert(buf@.subrange(0, end as int) =~= be32(n) + payload@);
    }
    Some((payload, end))
}

/// Splitting the frame of `payload` off the front of a buffer gives `payload` back.
pub proof fn lemma_split_frame(payload: Seq<u8>, rest: Seq<u8>)
    requires
        payload.len() <= u32::MAX,
    ensures
        ({
            let buf = frame_of(payload) + rest;
            &&& buf.len() >= 4
            &&& be32_at(buf) == payload.len()
            &&& buf.subrange(4, 4 + payload.len() as int) == payload
        }),
{
    let buf = frame_of(payload) + rest;
    lemma_be32_read(payload.len() as u32, payload + rest);
    assert(buf =~= be32(payload.len() as u32) + (payload + rest));
    assert(buf.subrange(4, 4 + payload.len() as int) =~= payload);
}

} // verus!
