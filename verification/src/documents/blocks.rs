//! Record framings shared by the Altium stream codecs.
//!
//! * block streams: `u32 (flags << 24 | size)` followed by `size` payload bytes;
//! * length-prefixed records: `u32 size` followed by the payload;
//! * prefixed records: `u16 prefix`, `u32 size`, payload.
use vstd::prelude::*;

use crate::error::{text, text2, AltiumError};
use crate::params::{
    entries_ok, find_byte, find_byte_exec, lemma_find_byte_at, lemma_find_byte_bounds,
    lemma_params_roundtrip, lemma_ser_no_nul, parse_param_bytes, parse_params, ser_params,
    ParameterCollection, NUL,
};
use crate::wire::{
    append_bytes, block_header, copy_range, header_flags, header_len, le16, le32,
    lemma_block_header, lemma_le16, lemma_le32, make_block_header, push_u16_le, push_u32_le,
    read_u16_le, read_u32_le, split_block_header, u16_at, u32_at, SIZE_FLAG_MASK,
};

verus! {

/// One block of a block stream.
#[derive(Clone, Debug)]
pub struct RawBlock {
    pub flags: u8,
    pub payload: Vec<u8>,
}

impl View for RawBlock {
    type V = (u8, Seq<u8>);

    open spec fn view(&self) -> (u8, Seq<u8>) {
        (self.flags, self.payload@)
    }
}

pub open spec fn blocks_view(v: Seq<RawBlock>) -> Seq<(u8, Seq<u8>)> {
    v.map_values(|b: RawBlock| b@)
}

pub open spec fn opt_cat<T>(a: Seq<T>, r: Option<Seq<T>>) -> Option<Seq<T>> {
    match r {
        Some(x) => Some(a + x),
        None => None,
    }
}

// ---------------------------------------------------------------------------
// Block streams
// ---------------------------------------------------------------------------

/// The blocks of a block stream from byte `off` on, or `None` when the
/// framing is broken (truncated header, zero size, or overflowing payload).
pub open spec fn spec_blocks_from(data: Seq<u8>, off: int) -> Option<Seq<(u8, Seq<u8>)>>
    decreases data.len() - off,
{
    if off < 0 || off >= data.len() {
        Some(Seq::empty())
    } else if off + 4 > data.len() {
        None
    } else {
        let raw = u32_at(data, off);
        let len = header_len(raw) as int;
        if len == 0 || off + 4 + len > data.len() {
            None
        } else {
            opt_cat(
                seq![(header_flags(raw), data.subrange(off + 4, off + 4 + len))],
                spec_blocks_from(data, off + 4 + len),
            )
        }
    }
}

pub open spec fn spec_blocks(data: Seq<u8>) -> Option<Seq<(u8, Seq<u8>)>> {
    spec_blocks_from(data, 0)
}

/// Encoding of one block.
pub open spec fn enc_block(b: (u8, Seq<u8>)) -> Seq<u8> {
    le32(block_header(b.0, b.1.len() as u32)) + b.1
}

/// Encoding of a list of blocks.
pub open spec fn enc_blocks(bs: Seq<(u8, Seq<u8>)>) -> Seq<u8> {
    bs.map_values(|b: (u8, Seq<u8>)| enc_block(b)).flatten()
}

/// Every payload is non-empty and its size fits the 24-bit size field.
pub open spec fn blocks_fit(bs: Seq<(u8, Seq<u8>)>) -> bool {
    forall|i: int| 0 <= i < bs.len() ==> 0 < (#[trigger] bs[i]).1.len() <= SIZE_FLAG_MASK
}

pub proof fn lemma_u32_at_shift(a: Seq<u8>, b: Seq<u8>, i: int)
    requires
        0 <= i,
        i + 4 <= b.len(),
    ensures
        u32_at(a + b, a.len() + i) == u32_at(b, i),
{
    assert((a + b).subrange(a.len() + i, a.len() + i + 4) =~= b.subrange(i, i + 4));
}

pub proof fn lemma_u16_at_shift(a: Seq<u8>, b: Seq<u8>, i: int)
    requires
        0 <= i,
        i + 2 <= b.len(),
    ensures
        u16_at(a + b, a.len() + i) == u16_at(b, i),
{
    assert((a + b).subrange(a.len() + i, a.len() + i + 2) =~= b.subrange(i, i + 2));
}

/// Decoding the tail `b` of `a + b` does not depend on `a`.
pub proof fn lemma_blocks_shift(a: Seq<u8>, b: Seq<u8>, i: int)
    requires
        0 <= i,
    ensures
        spec_blocks_from(a + b, a.len() + i) == spec_blocks_from(b, i),
    decreases b.len() - i,
{
    let s = a + b;
    if i < b.len() && i + 4 <= b.len() {
        lemma_u32_at_shift(a, b, i);
        let len = header_len(u32_at(b, i)) as int;
        if len != 0 && i + 4 + len <= b.len() {
            lemma_blocks_shift(a, b, i + 4 + len);
            assert(s.subrange(a.len() + i + 4, a.len() + i + 4 + len) =~= b.subrange(
                i + 4,
                i + 4 + len,
            ));
        }
    }
}

/// Decoding an encoding gives the blocks back.
pub proof fn lemma_blocks_roundtrip(bs: Seq<(u8, Seq<u8>)>)
    requires
        blocks_fit(bs),
    ensures
        spec_blocks(enc_blocks(bs)) == Some(bs),
    decreases bs.len(),
{
    let m = bs.map_values(|b: (u8, Seq<u8>)| enc_block(b));
    if bs.len() == 0 {
        assert(enc_blocks(bs) =~= Seq::<u8>::empty());
    } else {
        let rest = bs.drop_first();
        assert(blocks_fit(rest)) by {
            assert forall|i: int| 0 <= i < rest.len() implies 0 < (#[trigger] rest[i]).1.len()
                <= SIZE_FLAG_MASK by {
                assert(rest[i] == bs[i + 1]);
            }
        }
        lemma_blocks_roundtrip(rest);
        assert(m.drop_first() =~= rest.map_values(|b: (u8, Seq<u8>)| enc_block(b)));
        let b0 = bs[0];
        assert(0 < bs[0].1.len() <= SIZE_FLAG_MASK);
        let len = b0.1.len() as u32;
        let h = le32(block_header(b0.0, len));
        let r = enc_blocks(rest);
        assert(enc_blocks(bs) == enc_block(b0) + r);
        let s = h + b0.1 + r;
        assert(enc_blocks(bs) =~= s);
        lemma_le32(block_header(b0.0, len));
        lemma_block_header(b0.0, len);
        assert(s.subrange(0, 4) =~= h);
        assert(u32_at(s, 0) == block_header(b0.0, len));
        assert(s.subrange(4, 4 + len as int) =~= b0.1);
        lemma_blocks_shift(h + b0.1, r, 0);
        assert(h + b0.1 + r =~= (h + b0.1) + r);
        assert(bs =~= seq![b0] + rest);
    }
}

/// Parses a block stream.
pub fn parse_block_stream(data: &[u8]) -> (r: Result<Vec<RawBlock>, AltiumError>)
    ensures
        r matches Ok(v) ==> spec_blocks(data@) == Some(blocks_view(v@)),
        r is Err <==> spec_blocks(data@) is None,
{
    let mut out: Vec<RawBlock> = Vec::new();
    let mut off: usize = 0;
    let n = data.len();
    while off < n
        invariant
            n == data@.len(),
            off <= n,
            spec_blocks(data@) == opt_cat(blocks_view(out@), spec_blocks_from(data@, off as int)),
        decreases n - off,
    {
        if n - off < 4 {
            return Err(AltiumError::Parse(text("block stream truncated at block header")));
        }
        let raw = read_u32_le(data, off);
        let (flags, len32) = split_block_header(raw);
        let len = len32 as usize;
        if len == 0 {
            return Err(AltiumError::Parse(text("block stream has zero-length block")));
        }
        if len > n - off - 4 {
            return Err(AltiumError::Parse(text("block stream block overflows stream")));
        }
        let payload = copy_range(data, off + 4, off + 4 + len);
        let ghost before = out@;
        out.push(RawBlock { flags, payload });
        assert(blocks_view(out@) =~= blocks_view(before) + seq![
            (header_flags(raw), data@.subrange(off + 4, off + 4 + len)),
        ]);
        off = off + 4 + len;
    }
    assert(spec_blocks_from(data@, off as int) == Some(Seq::<(u8, Seq<u8>)>::empty()));
    assert(blocks_view(out@) + Seq::<(u8, Seq<u8>)>::empty() =~= blocks_view(out@));
    Ok(out)
}

/// Appends one block.
pub fn push_block(out: &mut Vec<u8>, flags: u8, payload: &[u8])
    requires
        payload@.len() <= SIZE_FLAG_MASK,
    ensures
        final(out)@ == old(out)@ + enc_block((flags, payload@)),
{
    let h = make_block_header(flags, payload.len() as u32);
    push_u32_le(out, h);
    append_bytes(out, payload);
    assert(final(out)@ =~= old(out)@ + enc_block((flags, payload@)));
}

/// Encodes a list of blocks.
pub fn encode_block_stream(blocks: &[RawBlock]) -> (r: Vec<u8>)
    requires
        blocks_fit(blocks_view(blocks@)),
    ensures
        r@ == enc_blocks(blocks_view(blocks@)),
{
    let mut out: Vec<u8> = Vec::new();
    let mut i: usize = 0;
    while i < blocks.len()
        invariant
            i <= blocks@.len(),
            blocks_fit(blocks_view(blocks@)),
            out@ == enc_blocks(blocks_view(blocks@).take(i as int)),
        decreases blocks@.len() - i,
    {
        assert(blocks_view(blocks@)[i as int] == blocks@[i as int]@);
        push_block(&mut out, blocks[i].flags, blocks[i].payload.as_slice());
        proof {
            let bv = blocks_view(blocks@);
            let t = bv.take(i as int);
            assert(bv.take(i + 1) =~= t.push(bv[i as int]));
            let f = |b: (u8, Seq<u8>)| enc_block(b);
            assert(t.push(bv[i as int]).map_values(f) =~= t.map_values(f).push(enc_block(bv[i as int])));
            t.map_values(f).lemma_flatten_push(enc_block(bv[i as int]));
        }
        i = i + 1;
    }
    assert(blocks_view(blocks@).take(i as int) =~= blocks_view(blocks@));
    out
}

// ---------------------------------------------------------------------------
// NUL-terminated parameter payloads
// ---------------------------------------------------------------------------

/// Every byte from `from` on is zero.
pub open spec fn zeros_from(p: Seq<u8>, from: int) -> bool {
    forall|k: int| from <= k < p.len() ==> p[k] == NUL
}

/// The parameters of a NUL-terminated payload, or `None` when non-zero bytes
/// follow the terminator.
pub open spec fn spec_decode_param_payload(p: Seq<u8>) -> Option<Seq<(Seq<u8>, Seq<u8>)>> {
    let e = find_byte(p, NUL, 0);
    if zeros_from(p, e) {
        Some(parse_params(p.subrange(0, e)))
    } else {
        None
    }
}

/// Decodes a NUL-terminated parameter payload.
pub fn decode_param_payload(p: &[u8]) -> (r: Result<ParameterCollection, AltiumError>)
    ensures
        r matches Ok(c) ==> spec_decode_param_payload(p@) == Some(c@),
        r is Err <==> spec_decode_param_payload(p@) is None,
{
    let e = find_byte_exec(p, NUL, 0);
    let mut k = e;
    while k < p.len()
        invariant
            e <= k <= p@.len(),
            e as int == find_byte(p@, NUL, 0),
            forall|j: int| e <= j < k ==> p@[j] == NUL,
        decreases p@.len() - k,
    {
        if p[k] != 0 {
            assert(p@[k as int] != NUL);
            return Err(AltiumError::Parse(text("record has non-zero bytes after NUL terminator")));
        }
        k = k + 1;
    }
    let t = copy_range(p, 0, e);
    Ok(parse_param_bytes(t.as_slice()))
}

/// A payload of serialized entries, optionally NUL-terminated, decodes to the entries.
pub proof fn lemma_decode_serialized(es: Seq<(Seq<u8>, Seq<u8>)>, terminated: bool)
    requires
        entries_ok(es),
    ensures
        spec_decode_param_payload(
            if terminated {
                ser_params(es).push(NUL)
            } else {
                ser_params(es)
            },
        ) == Some(es),
{
    let s = ser_params(es);
    let p = if terminated {
        s.push(NUL)
    } else {
        s
    };
    lemma_ser_no_nul(es);
    assert forall|k: int| 0 <= k < s.len() implies p[k] != NUL by {
        assert(p[k] == s[k]);
    }
    lemma_find_byte_at(p, NUL, 0, s.len() as int);
    assert(p.subrange(0, s.len() as int) =~= s);
    lemma_params_roundtrip(es);
}

// ---------------------------------------------------------------------------
// Length-prefixed parameter records
// ---------------------------------------------------------------------------

/// Payloads of `u32 size + payload` records from byte `off` on.
pub open spec fn spec_sized_from(data: Seq<u8>, off: int) -> Option<Seq<Seq<u8>>>
    decreases data.len() - off,
{
    if off < 0 || off >= data.len() {
        Some(Seq::empty())
    } else if off + 4 > data.len() {
        None
    } else {
        let len = u32_at(data, off) as int;
        if len == 0 || off + 4 + len > data.len() {
            None
        } else {
            opt_cat(seq![data.subrange(off + 4, off + 4 + len)], spec_sized_from(data, off + 4 + len))
        }
    }
}

pub open spec fn enc_sized(p: Seq<u8>) -> Seq<u8> {
    le32(p.len() as u32) + p
}

pub open spec fn enc_sized_all(ps: Seq<Seq<u8>>) -> Seq<u8> {
    ps.map_values(|p: Seq<u8>| enc_sized(p)).flatten()
}

pub open spec fn sized_fit(ps: Seq<Seq<u8>>) -> bool {
    forall|i: int| 0 <= i < ps.len() ==> 0 < (#[trigger] ps[i]).len() <= u32::MAX
}

pub proof fn lemma_sized_shift(a: Seq<u8>, b: Seq<u8>, i: int)
    requires
        0 <= i,
    ensures
        spec_sized_from(a + b, a.len() + i) == spec_sized_from(b, i),
    decreases b.len() - i,
{
    let s = a + b;
    if i < b.len() && i + 4 <= b.len() {
        lemma_u32_at_shift(a, b, i);
        let len = u32_at(b, i) as int;
        if len != 0 && i + 4 + len <= b.len() {
            lemma_sized_shift(a, b, i + 4 + len);
            assert(s.subrange(a.len() + i + 4, a.len() + i + 4 + len) =~= b.subrange(
                i + 4,
                i + 4 + len,
            ));
        }
    }
}

pub proof fn lemma_sized_roundtrip(ps: Seq<Seq<u8>>)
    requires
        sized_fit(ps),
    ensures
        spec_sized_from(enc_sized_all(ps), 0) == Some(ps),
    decreases ps.len(),
{
    let m = ps.map_values(|p: Seq<u8>| enc_sized(p));
    if ps.len() == 0 {
        assert(enc_sized_all(ps) =~= Seq::<u8>::empty());
    } else {
        let rest = ps.drop_first();
        assert(sized_fit(rest)) by {
            assert forall|i: int| 0 <= i < rest.len() implies 0 < (#[trigger] rest[i]).len()
                <= u32::MAX by {
                assert(rest[i] == ps[i + 1]);
            }
        }
        lemma_sized_roundtrip(rest);
        assert(m.drop_first() =~= rest.map_values(|p: Seq<u8>| enc_sized(p)));
        let p0 = ps[0];
        assert(0 < ps[0].len() <= u32::MAX);
        let h = le32(p0.len() as u32);
        let r = enc_sized_all(rest);
        let s = h + p0 + r;
        assert(enc_sized_all(ps) =~= s);
        lemma_le32(p0.len() as u32);
        assert(s.subrange(0, 4) =~= h);
        assert(s.subrange(4, 4 + p0.len() as int) =~= p0);
        lemma_sized_shift(h + p0, r, 0);
        assert(h + p0 + r =~= (h + p0) + r);
        assert(ps =~= seq![p0] + rest);
    }
}

/// Parses the payloads of `u32 size + payload` records.
pub fn parse_sized_records(data: &[u8]) -> (r: Result<Vec<Vec<u8>>, AltiumError>)
    ensures
        r matches Ok(v) ==> spec_sized_from(data@, 0) == Some(v@.map_values(|x: Vec<u8>| x@)),
        r is Err <==> spec_sized_from(data@, 0) is None,
{
    let mut out: Vec<Vec<u8>> = Vec::new();
    let mut off: usize = 0;
    let n = data.len();
    while off < n
        invariant
            n == data@.len(),
            off <= n,
            spec_sized_from(data@, 0) == opt_cat(
                out@.map_values(|x: Vec<u8>| x@),
                spec_sized_from(data@, off as int),
            ),
        decreases n - off,
    {
        if n - off < 4 {
            return Err(AltiumError::Parse(text("stream truncated before record length")));
        }
        let len = read_u32_le(data, off) as usize;
        if len == 0 {
            return Err(AltiumError::Parse(text("stream has zero-length record")));
        }
        if len > n - off - 4 {
            return Err(AltiumError::Parse(text("record overflows stream")));
        }
        let payload = copy_range(data, off + 4, off + 4 + len);
        let ghost before = out@;
        out.push(payload);
        assert(out@.map_values(|x: Vec<u8>| x@) =~= before.map_values(|x: Vec<u8>| x@) + seq![
            data@.subrange(off + 4, off + 4 + len),
        ]);
        off = off + 4 + len;
    }
    assert(out@.map_values(|x: Vec<u8>| x@) + Seq::<Seq<u8>>::empty() =~= out@.map_values(
        |x: Vec<u8>| x@,
    ));
    Ok(out)
}

/// Appends one `u32 size + payload` record.
pub fn push_sized(out: &mut Vec<u8>, payload: &[u8])
    requires
        payload@.len() <= u32::MAX,
    ensures
        final(out)@ == old(out)@ + enc_sized(payload@),
{
    push_u32_le(out, payload.len() as u32);
    append_bytes(out, payload);
    assert(final(out)@ =~= old(out)@ + enc_sized(payload@));
}

// ---------------------------------------------------------------------------
// Prefixed records
// ---------------------------------------------------------------------------

/// `(prefix, payload)` of `u16 prefix + u32 size + payload` records from `off` on.
pub open spec fn spec_prefixed_from(data: Seq<u8>, off: int) -> Option<Seq<(u16, Seq<u8>)>>
    decreases data.len() - off,
{
    if off < 0 || off >= data.len() {
        Some(Seq::empty())
    } else if off + 6 > data.len() {
        None
    } else {
        let len = u32_at(data, off + 2) as int;
        if len == 0 || off + 6 + len > data.len() {
            None
        } else {
            opt_cat(
                seq![(u16_at(data, off), data.subrange(off + 6, off + 6 + len))],
                spec_prefixed_from(data, off + 6 + len),
            )
        }
    }
}

pub open spec fn enc_prefixed(e: (u16, Seq<u8>)) -> Seq<u8> {
    le16(e.0) + le32(e.1.len() as u32) + e.1
}

pub open spec fn enc_prefixed_all(es: Seq<(u16, Seq<u8>)>) -> Seq<u8> {
    es.map_values(|e: (u16, Seq<u8>)| enc_prefixed(e)).flatten()
}

pub open spec fn prefixed_fit(es: Seq<(u16, Seq<u8>)>) -> bool {
    forall|i: int| 0 <= i < es.len() ==> 0 < (#[trigger] es[i]).1.len() <= u32::MAX
}

pub proof fn lemma_prefixed_shift(a: Seq<u8>, b: Seq<u8>, i: int)
    requires
        0 <= i,
    ensures
        spec_prefixed_from(a + b, a.len() + i) == spec_prefixed_from(b, i),
    decreases b.len() - i,
{
    let s = a + b;
    if i < b.len() && i + 6 <= b.len() {
        lemma_u32_at_shift(a, b, i + 2);
        lemma_u16_at_shift(a, b, i);
        let len = u32_at(b, i + 2) as int;
        if len != 0 && i + 6 + len <= b.len() {
            lemma_prefixed_shift(a, b, i + 6 + len);
            assert(s.subrange(a.len() + i + 6, a.len() + i + 6 + len) =~= b.subrange(
                i + 6,
                i + 6 + len,
            ));
        }
    }
}

#[verifier::spinoff_prover]
pub proof fn lemma_prefixed_roundtrip(es: Seq<(u16, Seq<u8>)>)
    requires
        prefixed_fit(es),
    ensures
        spec_prefixed_from(enc_prefixed_all(es), 0) == Some(es),
    decreases es.len(),
{
    let m = es.map_values(|e: (u16, Seq<u8>)| enc_prefixed(e));
    if es.len() == 0 {
        assert(enc_prefixed_all(es) =~= Seq::<u8>::empty());
    } else {
        let rest = es.drop_first();
        assert(prefixed_fit(rest)) by {
            assert forall|i: int| 0 <= i < rest.len() implies 0 < (#[trigger] rest[i]).1.len()
                <= u32::MAX by {
                assert(rest[i] == es[i + 1]);
            }
        }
        lemma_prefixed_roundtrip(rest);
        assert(m.drop_first() =~= rest.map_values(|e: (u16, Seq<u8>)| enc_prefixed(e)));
        let e0 = es[0];
        assert(0 < es[0].1.len() <= u32::MAX);
        let h1 = le16(e0.0);
        let h2 = le32(e0.1.len() as u32);
        let r = enc_prefixed_all(rest);
        let s = h1 + h2 + e0.1 + r;
        assert(enc_prefixed_all(es) =~= s);
        lemma_le32(e0.1.len() as u32);
        lemma_le16(e0.0);
        assert(s.subrange(0, 2) =~= h1);
        assert(s =~= h1 + h2 + (e0.1 + r));
        crate::wire::lemma_u32_at_prefix(e0.1.len() as u32, h1, e0.1 + r);
        assert(s.subrange(6, 6 + e0.1.len() as int) =~= e0.1);
        lemma_prefixed_shift(h1 + h2 + e0.1, r, 0);
        assert(h1 + h2 + e0.1 + r =~= (h1 + h2 + e0.1) + r);
        assert(es =~= seq![e0] + rest);
    }
}

/// One `u16 prefix + payload` record.
#[derive(Clone, Debug)]
pub struct PrefixedPayload {
    pub prefix: u16,
    pub payload: Vec<u8>,
}

/// Parses `u16 prefix + u32 size + payload` records.
pub fn parse_prefixed_records(data: &[u8]) -> (r: Result<Vec<PrefixedPayload>, AltiumError>)
    ensures
        r matches Ok(v) ==> spec_prefixed_from(data@, 0) == Some(
            v@.map_values(|x: PrefixedPayload| (x.prefix, x.payload@)),
        ),
        r is Err <==> spec_prefixed_from(data@, 0) is None,
{
    let mut out: Vec<PrefixedPayload> = Vec::new();
    let mut off: usize = 0;
    let n = data.len();
    while off < n
        invariant
            n == data@.len(),
            off <= n,
            spec_prefixed_from(data@, 0) == opt_cat(
                out@.map_values(|x: PrefixedPayload| (x.prefix, x.payload@)),
                spec_prefixed_from(data@, off as int),
            ),
        decreases n - off,
    {
        if n - off < 6 {
            return Err(AltiumError::Parse(text("stream truncated before prefixed record header")));
        }
        let prefix = read_u16_le(data, off);
        let len = read_u32_le(data, off + 2) as usize;
        if len == 0 {
            return Err(AltiumError::Parse(text("stream has zero-length prefixed record")));
        }
        if len > n - off - 6 {
            return Err(AltiumError::Parse(text("prefixed record overflows stream")));
        }
        let payload = copy_range(data, off + 6, off + 6 + len);
        let ghost before = out@;
        out.push(PrefixedPayload { prefix, payload });
        assert(out@.map_values(|x: PrefixedPayload| (x.prefix, x.payload@)) =~= before.map_values(
            |x: PrefixedPayload| (x.prefix, x.payload@),
        ) + seq![(u16_at(data@, off as int), data@.subrange(off + 6, off + 6 + len))]);
        off = off + 6 + len;
    }
    assert(out@.map_values(|x: PrefixedPayload| (x.prefix, x.payload@)) + Seq::<
        (u16, Seq<u8>),
    >::empty() =~= out@.map_values(|x: PrefixedPayload| (x.prefix, x.payload@)));
    Ok(out)
}

/// Appends one prefixed record.
pub fn push_prefixed(out: &mut Vec<u8>, prefix: u16, payload: &[u8])
    requires
        payload@.len() <= u32::MAX,
    ensures
        final(out)@ == old(out)@ + enc_prefixed((prefix, payload@)),
{
    push_u16_le(out, prefix);
    push_u32_le(out, payload.len() as u32);
    append_bytes(out, payload);
    assert(final(out)@ =~= old(out)@ + enc_prefixed((prefix, payload@)));
}

} // verus!
