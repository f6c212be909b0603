//! Little-endian integer framing shared by the binary stream codecs.
use vstd::bytes::*;
use vstd::prelude::*;
use vstd::slice::*;

verus! {

/// Mask that extracts the payload size from a block header.
pub const SIZE_FLAG_MASK: u32 = 0x00FF_FFFF;

/// The `u32` with the little-endian bytes `b0` to `b3`.
pub open spec fn u32_of(b0: u8, b1: u8, b2: u8, b3: u8) -> u32 {
    (b0 as u32) | ((b1 as u32) << 8u32) | ((b2 as u32) << 16u32) | ((b3 as u32) << 24u32)
}

/// The `u32` stored little-endian at byte offset `off` of `s`.
pub open spec fn u32_at(s: Seq<u8>, off: int) -> u32 {
    u32_of(s[off], s[off + 1], s[off + 2], s[off + 3])
}

/// The `u16` stored little-endian at byte offset `off` of `s`.
pub open spec fn u16_at(s: Seq<u8>, off: int) -> u16 {
    spec_u16_from_le_bytes(s.subrange(off, off + 2))
}

/// Little-endian bytes of a `u32`.
pub open spec fn le32(x: u32) -> Seq<u8> {
    seq![(x & 0xffu32) as u8, ((x >> 8u32) & 0xffu32) as u8, ((x >> 16u32) & 0xffu32) as u8, ((x >> 24u32) & 0xffu32) as u8]
}

/// Little-endian bytes of a `u16`.
pub open spec fn le16(x: u16) -> Seq<u8> {
    spec_u16_to_le_bytes(x)
}

/// Block header word: flags in the high byte, payload size in the low 24 bits.
pub open spec fn block_header(flags: u8, len: u32) -> u32 {
    ((flags as u32) << 24u32) | len
}

/// Flags byte of a block header word.
pub open spec fn header_flags(raw: u32) -> u8 {
    ((raw >> 24u32) & 0xFFu32) as u8
}

/// Payload size of a block header word.
pub open spec fn header_len(raw: u32) -> u32 {
    raw & SIZE_FLAG_MASK
}

/// The bytes of `le32(x)` read back as `x`.
pub proof fn lemma_le32(x: u32)
    ensures
        le32(x).len() == 4,
        u32_at(le32(x), 0) == x,
{
    let b0 = (x & 0xffu32) as u8;
    let b1 = ((x >> 8u32) & 0xffu32) as u8;
    let b2 = ((x >> 16u32) & 0xffu32) as u8;
    let b3 = ((x >> 24u32) & 0xffu32) as u8;
    assert(u32_of(b0, b1, b2, b3) == x) by (bit_vector)
        requires
            b0 == (x & 0xffu32) as u8,
            b1 == ((x >> 8u32) & 0xffu32) as u8,
            b2 == ((x >> 16u32) & 0xffu32) as u8,
            b3 == ((x >> 24u32) & 0xffu32) as u8,
    ;
}

/// Four bytes read as a `u32` and written back are the same bytes.
pub proof fn lemma_u32_at_le32(s: Seq<u8>, off: int)
    requires
        0 <= off,
        off + 4 <= s.len(),
    ensures
        le32(u32_at(s, off)) == s.subrange(off, off + 4),
{
    let b0 = s[off];
    let b1 = s[off + 1];
    let b2 = s[off + 2];
    let b3 = s[off + 3];
    let x = u32_of(b0, b1, b2, b3);
    assert(((x & 0xffu32) as u8) == b0 && (((x >> 8u32) & 0xffu32) as u8) == b1 && (((x >> 16u32) & 0xffu32) as u8) == b2
        && (((x >> 24u32) & 0xffu32) as u8) == b3) by (bit_vector)
        requires
            x == u32_of(b0, b1, b2, b3),
    ;
    assert(le32(x) =~= s.subrange(off, off + 4));
}

pub proof fn lemma_le16(x: u16)
    ensures
        le16(x).len() == 2,
        spec_u16_from_le_bytes(le16(x)) == x,
{
    lemma_auto_spec_u16_to_from_le_bytes();
    assert(spec_u16_to_le_bytes(x).len() == 2);
}

/// Reading a `u32` back from the front of `le32(x) + rest` gives `x`.
pub proof fn lemma_u32_at_prefix(x: u32, pre: Seq<u8>, rest: Seq<u8>)
    ensures
        u32_at(pre + le32(x) + rest, pre.len() as int) == x,
{
    lemma_le32(x);
    let s = pre + le32(x) + rest;
    let o = pre.len() as int;
    assert(s[o] == le32(x)[0] && s[o + 1] == le32(x)[1] && s[o + 2] == le32(x)[2] && s[o + 3] == le32(x)[3]);
}

/// Packing flags and a 24-bit size and unpacking them again is the identity.
pub proof fn lemma_block_header(flags: u8, len: u32)
    requires
        len <= SIZE_FLAG_MASK,
    ensures
        header_flags(block_header(flags, len)) == flags,
        header_len(block_header(flags, len)) == len,
{
    let f = flags as u32;
    assert(f < 256);
    assert(((((f << 24u32) | len) >> 24u32) & 0xFFu32) == f) by (bit_vector)
        requires
            f < 256,
            len <= 0x00FF_FFFFu32,
    ;
    assert((((f << 24u32) | len) & 0x00FF_FFFFu32) == len) by (bit_vector)
        requires
            f < 256,
            len <= 0x00FF_FFFFu32,
    ;
}

/// Appends `src` to `out`.
pub fn append_bytes(out: &mut Vec<u8>, src: &[u8])
    ensures
        final(out)@ == old(out)@ + src@,
{
    let mut i: usize = 0;
    let ghost start = out@;
    while i < src.len()
        invariant
            i <= src@.len(),
            out@ == start + src@.subrange(0, i as int),
        decreases src@.len() - i,
    {
        out.push(src[i]);
        i = i + 1;
        assert(out@ =~= start + src@.subrange(0, i as int));
    }
    assert(src@.subrange(0, src@.len() as int) =~= src@);
}

/// Appends the little-endian bytes of `x`.
pub fn push_u32_le(out: &mut Vec<u8>, x: u32)
    ensures
        final(out)@ == old(out)@ + le32(x),
{
    let ghost start = out@;
    out.push((x & 0xffu32) as u8);
    out.push(((x >> 8u32) & 0xffu32) as u8);
    out.push(((x >> 16u32) & 0xffu32) as u8);
    out.push(((x >> 24u32) & 0xffu32) as u8);
    assert(out@ =~= start + le32(x));
}

/// Appends the little-endian bytes of `x`.
pub fn push_u16_le(out: &mut Vec<u8>, x: u16)
    ensures
        final(out)@ == old(out)@ + le16(x),
{
    let b = u16_to_le_bytes(x);
    append_bytes(out, b.as_slice());
}

/// Reads the little-endian `u32` at `off`.
pub fn read_u32_le(data: &[u8], off: usize) -> (x: u32)
    requires
        off + 4 <= data@.len(),
    ensures
        x == u32_at(data@, off as int),
{
    (data[off] as u32) | ((data[off + 1] as u32) << 8u32) | ((data[off + 2] as u32) << 16u32) | ((data[off + 3] as u32)
        << 24u32)
}

/// Reads the little-endian `u16` at `off`.
pub fn read_u16_le(data: &[u8], off: usize) -> (x: u16)
    requires
        off + 2 <= data@.len(),
    ensures
        x == u16_at(data@, off as int),
{
    let n = data.len();
    assert(off + 2 <= n);
    u16_from_le_bytes(slice_subrange(data, off, off + 2))
}

/// Builds a block header word.
pub fn make_block_header(flags: u8, len: u32) -> (raw: u32)
    requires
        len <= SIZE_FLAG_MASK,
    ensures
        raw == block_header(flags, len),
        header_flags(raw) == flags,
        header_len(raw) == len,
{
    proof {
        lemma_block_header(flags, len);
    }
    ((flags as u32) << 24u32) | len
}

/// Splits a block header word into flags and payload size.
pub fn split_block_header(raw: u32) -> (r: (u8, u32))
    ensures
        r.0 == header_flags(raw),
        r.1 == header_len(raw),
        r.1 <= SIZE_FLAG_MASK,
{
    assert((raw & 0x00FF_FFFFu32) <= 0x00FF_FFFFu32) by (bit_vector);
    (((raw >> 24u32) & 0xFFu32) as u8, raw & SIZE_FLAG_MASK)
}

/// Copies `data[from..to]` into a new vector.
pub fn copy_range(data: &[u8], from: usize, to: usize) -> (v: Vec<u8>)
    requires
        from <= to <= data@.len(),
    ensures
        v@ == data@.subrange(from as int, to as int),
{
    slice_to_vec(slice_subrange(data, from, to))
}

} // verus!
