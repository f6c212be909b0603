//! The embedded object envelope: `0xD0`, an id length byte, the id
//! (Windows-1252), a `u32` whose low 24 bits give the length of the zlib
//! data, then that data. Streams of envelopes (Storage, component sidecars)
//! are block streams whose first block holds the header parameters.
use vstd::prelude::*;
use vstd::string::*;

use crate::documents::blocks::{enc_block, push_block, RawBlock};
use crate::documents::intlib::{zlib_read, zlib_read_to_end};
use crate::encoding::{decode_win1252, encode_win1252, win1252_char, win1252_encoded};
use crate::error::{decimal_text, text, text2, usize_text, AltiumError, Result};
use crate::params::{
    index_of_key_from, lookup, parse_i32, parse_i32_bytes, parse_params, ser_params, set_param, text_before_nul,
    ParameterCollection,
};
use crate::wire::{header_len, le32, lemma_le32, push_u32_le, read_u32_le, u32_at, SIZE_FLAG_MASK};

verus! {

/// The tag byte of an envelope.
pub const ENVELOPE_TAG: u8 = 0xD0;

/// An embedded object: its id and its inflated bytes.
pub struct EmbeddedObject {
    pub id: String,
    pub inner_data: Vec<u8>,
}

/// The first read that runs past the end of an envelope whose tag is right,
/// as `(offset, wanted)`: the tag, the id length, the id, the length field,
/// then the zlib data. `None` when every read fits.
pub open spec fn first_short_read(p: Seq<u8>) -> Option<(int, int)> {
    if p.len() < 1 {
        Some((0, 1))
    } else if p.len() < 2 {
        Some((1, 1))
    } else {
        let idl = p[1] as int;
        if p.len() < 2 + idl {
            Some((2, idl))
        } else if p.len() < 6 + idl {
            Some((2 + idl, 4))
        } else {
            let n = header_len(u32_at(p, 2 + idl)) as int;
            if p.len() < 6 + idl + n {
                Some((6 + idl, n))
            } else {
                None
            }
        }
    }
}

/// The id bytes, the zlib bytes and the end of an envelope whose reads fit.
pub open spec fn envelope_fields(p: Seq<u8>) -> (Seq<u8>, Seq<u8>, int) {
    let idl = p[1] as int;
    let n = header_len(u32_at(p, 2 + idl)) as int;
    (p.subrange(2, 2 + idl), p.subrange(6 + idl, 6 + idl + n), 6 + idl + n)
}

/// The message for a wrong tag byte.
pub open spec fn tag_message(t: u8) -> Seq<char> {
    "expected 0xd0 tag, got 0x"@ + crate::documents::intlib::hex_byte_text(t)
}

/// The id text and inflated bytes of an envelope, or `None` when it does
/// not parse.
pub open spec fn envelope_value(p: Seq<u8>) -> Option<(Seq<char>, Seq<u8>)> {
    if p.len() >= 1 && p[0] != ENVELOPE_TAG {
        None
    } else if first_short_read(p) is Some {
        None
    } else {
        let (id, z, end) = envelope_fields(p);
        match zlib_read(z) {
            Ok(d) => if end == p.len() {
                Some((id.map_values(|b: u8| win1252_char(b)), d))
            } else {
                None
            },
            Err(_) => None,
        }
    }
}

/// Whether `e` is the error that parsing the envelope reports: a wrong tag,
/// the first read past the end, a zlib failure, or bytes left after the
/// zlib data, checked in that order.
pub open spec fn envelope_error(p: Seq<u8>, e: AltiumError) -> bool {
    if p.len() >= 1 && p[0] != ENVELOPE_TAG {
        e matches AltiumError::InvalidEmbeddedObject(m) && m@ == tag_message(p[0])
    } else {
        match first_short_read(p) {
            Some((off, n)) => e == AltiumError::BinaryReadPastEnd(off as usize, n as usize),
            None => {
                let (id, z, end) = envelope_fields(p);
                match zlib_read(z) {
                    Err(t) => e matches AltiumError::InvalidEmbeddedObject(m) && m@ == "zlib decompress failed: "@
                        + t,
                    Ok(_) => e matches AltiumError::InvalidEmbeddedObject(m) && m@
                        == "trailing bytes after embedded object"@,
                }
            },
        }
    }
}

/// Parses one envelope, inflating its data.
pub fn parse_embedded_object(data: &[u8]) -> (r: Result<EmbeddedObject>)
    ensures
        r is Ok <==> envelope_value(data@) is Some,
        r matches Ok(o) ==> envelope_value(data@) == Some((o.id@, o.inner_data@)),
        r matches Err(e) ==> envelope_error(data@, e),
{
    if data.len() < 1 {
        return Err(AltiumError::BinaryReadPastEnd(0, 1));
    }
    let tag = data[0];
    if tag != ENVELOPE_TAG {
        let m = text2("expected 0xd0 tag, got 0x", crate::documents::intlib::hex_byte(tag).as_str());
        return Err(AltiumError::InvalidEmbeddedObject(m));
    }
    if data.len() < 2 {
        return Err(AltiumError::BinaryReadPastEnd(1, 1));
    }
    let idl = data[1] as usize;
    if data.len() < 2 + idl {
        return Err(AltiumError::BinaryReadPastEnd(2, idl));
    }
    if data.len() < 6 + idl {
        return Err(AltiumError::BinaryReadPastEnd(2 + idl, 4));
    }
    let raw = read_u32_le(data, 2 + idl);
    let n = (raw & SIZE_FLAG_MASK) as usize;
    assert(n == header_len(u32_at(data@, 2 + idl)));
    if data.len() - (6 + idl) < n {
        return Err(AltiumError::BinaryReadPastEnd(6 + idl, n));
    }
    let id_bytes = crate::wire::copy_range(data, 2, 2 + idl);
    let z = crate::wire::copy_range(data, 6 + idl, 6 + idl + n);
    let inner = match zlib_read_to_end(z.as_slice()) {
        Ok(v) => v,
        Err(m) => {
            return Err(AltiumError::InvalidEmbeddedObject(text2("zlib decompress failed: ", m.as_str())));
        },
    };
    if 6 + idl + n != data.len() {
        return Err(AltiumError::InvalidEmbeddedObject(text("trailing bytes after embedded object")));
    }
    let id = decode_win1252(id_bytes.as_slice());
    Ok(EmbeddedObject { id, inner_data: inner })
}

/// Whether entry `j` is the first `RECORD`, `HEADER` or `Weight` entry.
pub open spec fn key_taken(ps: Seq<(Seq<u8>, Seq<u8>)>, j: int) -> bool {
    j == index_of_key_from(ps, "RECORD".spec_bytes(), 0) || j == index_of_key_from(ps, "HEADER".spec_bytes(), 0)
        || j == index_of_key_from(ps, "Weight".spec_bytes(), 0)
}

/// Whether the header parameters hold nothing but the first `RECORD`,
/// `HEADER` and `Weight` entries.
pub open spec fn header_exhausted(ps: Seq<(Seq<u8>, Seq<u8>)>) -> bool {
    forall|j: int| 0 <= j < ps.len() ==> #[trigger] key_taken(ps, j)
}

/// The header parameters of a stream's first block.
pub open spec fn header_params(b: Seq<u8>) -> Seq<(Seq<u8>, Seq<u8>)> {
    parse_params(text_before_nul(b))
}

/// Whether the header block reads: a text block whose `RECORD`, when
/// present, is an `i32`, whose `Weight`, when present, is a non-negative
/// `i32`, and which holds nothing else but `HEADER`.
pub open spec fn stream_header_ok(bs: Seq<(u8, Seq<u8>)>) -> bool {
    let ps = header_params(bs[0].1);
    &&& bs.len() > 0
    &&& bs[0].0 == 0
    &&& (lookup(ps, "RECORD".spec_bytes()) matches Some(v) ==> parse_i32(v) is Some)
    &&& (lookup(ps, "Weight".spec_bytes()) matches Some(v) ==> parse_i32(v) matches Some(w) && w >= 0)
    &&& header_exhausted(ps)
}

/// The entry count a header announces: its `Weight`, else the number of
/// blocks after it.
pub open spec fn stream_weight(bs: Seq<(u8, Seq<u8>)>) -> int {
    match lookup(header_params(bs[0].1), "Weight".spec_bytes()) {
        Some(v) => parse_i32(v).unwrap() as int,
        None => bs.len() - 1,
    }
}

/// Whether every entry block after the header parses.
pub open spec fn entries_ok(bs: Seq<(u8, Seq<u8>)>) -> bool {
    forall|i: int| 1 <= i < bs.len() ==> (#[trigger] envelope_value(bs[i].1)) is Some
}

pub open spec fn objects_view(v: Seq<EmbeddedObject>) -> Seq<(Seq<char>, Seq<u8>)> {
    v.map_values(|o: EmbeddedObject| (o.id@, o.inner_data@))
}

/// Parses a stream of envelopes: the header block's parameters are checked
/// and taken here, then each later block is parsed as an envelope, and
/// their number must match the header's `Weight`.
pub fn parse_embedded_object_stream(blocks: &[RawBlock]) -> (r: Result<Vec<EmbeddedObject>>)
    ensures
        blocks@.len() == 0 ==> (r matches Err(AltiumError::InvalidEmbeddedObject(m)) && m@
            == "empty block list for embedded object stream"@),
        blocks@.len() > 0 && blocks@[0].flags != 0 ==> (r matches Err(AltiumError::InvalidEmbeddedObject(m))
            && m@ == "first block of embedded object stream must be text format"@),
        r is Ok <==> {
            let bs = blocks@.map_values(|b: RawBlock| b@);
            stream_header_ok(bs) && entries_ok(bs) && stream_weight(bs) == bs.len() - 1
        },
        r matches Ok(v) ==> forall|i: int|
            0 <= i < v@.len() ==> envelope_value(blocks@[i + 1].payload@) == Some(
                #[trigger] objects_view(v@)[i],
            ),
        r matches Ok(v) ==> v@.len() == blocks@.len() - 1,
        forall|i: int|
            1 <= i < blocks@.len() && stream_header_ok(blocks@.map_values(|b: RawBlock| b@)) && envelope_value(
                #[trigger] blocks@[i].payload@,
            ) is None && (forall|k: int| 1 <= k < i ==> envelope_value(blocks@[k].payload@) is Some) ==> (r matches Err(
                e,
            ) && envelope_error(blocks@[i].payload@, e)),
{
    let ghost bs = blocks@.map_values(|b: RawBlock| b@);
    if blocks.len() == 0 {
        return Err(AltiumError::InvalidEmbeddedObject(text("empty block list for embedded object stream")));
    }
    assert(bs[0] == blocks@[0]@);
    if blocks[0].flags != 0 {
        return Err(
            AltiumError::InvalidEmbeddedObject(text("first block of embedded object stream must be text format")),
        );
    }
    let mut params = ParameterCollection::from_bytes(blocks[0].payload.as_slice());
    let ghost ps = params@;
    let ghost e0 = params.entries@;
    assert(ps == header_params(bs[0].1));
    match params.take("RECORD") {
        Some(v) => {
            if parse_i32_bytes(v.as_bytes()).is_none() {
                return Err(AltiumError::InvalidParameter(text("RECORD")));
            }
        },
        None => {},
    }
    let ghost e1 = params.entries@;
    let _ = params.take("HEADER");
    let ghost e2 = params.entries@;
    let count = blocks.len() - 1;
    let weight: usize = match params.take("Weight") {
        Some(v) => match parse_i32_bytes(v.as_bytes()) {
            Some(w) => {
                if w < 0 {
                    return Err(AltiumError::InvalidParameter(text("Weight")));
                }
                w as usize
            },
            None => {
                return Err(AltiumError::InvalidParameter(text("Weight")));
            },
        },
        None => count,
    };
    let ghost e3 = params.entries@;
    assert(weight == stream_weight(bs));
    assert forall|j: int| 0 <= j < e3.len() implies #[trigger] e3[j].consumed == (j == index_of_key_from(
        ps,
        "RECORD".spec_bytes(),
        0,
    ) || j == index_of_key_from(ps, "HEADER".spec_bytes(), 0) || j == index_of_key_from(
        ps,
        "Weight".spec_bytes(),
        0,
    )) by {
        assert(!e0[j].consumed);
        assert(e1[j].consumed == (e0[j].consumed || j == index_of_key_from(ps, "RECORD".spec_bytes(), 0)));
        assert(e2[j].consumed == (e1[j].consumed || j == index_of_key_from(ps, "HEADER".spec_bytes(), 0)));
    }
    assert(e3.len() == ps.len());
    match params.assert_exhausted() {
        Ok(()) => {},
        Err(e) => {
            assert(!header_exhausted(ps)) by {
                if header_exhausted(ps) {
                    assert forall|i: int| 0 <= i < e3.len() implies (#[trigger] e3[i]).consumed by {
                        assert(key_taken(ps, i));
                    }
                }
            }
            return Err(e);
        },
    }
    assert forall|j: int| 0 <= j < ps.len() implies #[trigger] key_taken(ps, j) by {
        assert(e3 == params.entries@);
        assert(params.entries@[j].consumed);
        assert(e3[j].consumed);
    }
    assert(header_exhausted(ps));
    assert(stream_header_ok(bs));
    let mut out: Vec<EmbeddedObject> = Vec::new();
    let mut i: usize = 1;
    while i < blocks.len()
        invariant
            1 <= i <= blocks@.len(),
            bs == blocks@.map_values(|b: RawBlock| b@),
            blocks@[0].flags == 0,
            stream_header_ok(bs),
            weight == stream_weight(bs),
            out@.len() == i - 1,
            forall|k: int| 1 <= k < i ==> envelope_value(#[trigger] blocks@[k].payload@) is Some,
            forall|k: int|
                0 <= k < out@.len() ==> envelope_value(blocks@[k + 1].payload@) == Some(
                    #[trigger] objects_view(out@)[k],
                ),
        decreases blocks@.len() - i,
    {
        match parse_embedded_object(blocks[i].payload.as_slice()) {
            Ok(o) => {
                let ghost prev = objects_view(out@);
                let ghost ov = (o.id@, o.inner_data@);
                out.push(o);
                assert(objects_view(out@) =~= prev.push(ov));
            },
            Err(e) => {
                assert(bs[i as int] == blocks@[i as int]@);
                assert(envelope_value(bs[i as int].1) is None);
                return Err(e);
            },
        }
        i = i + 1;
    }
    assert(entries_ok(bs)) by {
        assert forall|k: int| 1 <= k < bs.len() implies (#[trigger] envelope_value(bs[k].1)) is Some by {
            assert(bs[k] == blocks@[k]@);
        }
    }
    if out.len() != weight {
        return Err(AltiumError::RecordCountMismatch(text("EmbeddedObjectStream"), weight, out.len()));
    }
    Ok(out)
}

/// What `flate2::write::ZlibEncoder` at the default level writes for the
/// bytes and `finish` hands back: the zlib data, or the text of the error.
pub uninterp spec fn zlib_deflate(b: Seq<u8>) -> core::result::Result<Seq<u8>, Seq<char>>;

/// Compresses bytes with `flate2::write::ZlibEncoder` at
/// `Compression::default()` (`write_all`, then `finish`).
///
/// Trusted: the result, or the displayed error, is what the encoder gives
/// for these bytes; inflating the zlib data it writes gives the bytes back.
/// Which bytes deflate writes is not stated.
#[verifier::external_body]
fn zlib_deflate_bytes(data: &[u8]) -> (r: core::result::Result<Vec<u8>, String>)
    ensures
        match r {
            Ok(v) => zlib_deflate(data@) == Ok::<Seq<u8>, Seq<char>>(v@) && zlib_read(v@) == Ok::<
                Seq<u8>,
                Seq<char>,
            >(data@),
            Err(m) => zlib_deflate(data@) == Err::<Seq<u8>, Seq<char>>(m@),
        },
{
    let mut enc = flate2::write::ZlibEncoder::new(Vec::new(), flate2::Compression::default());
    std::io::Write::write_all(&mut enc, data).map_err(|e| e.to_string())?;
    enc.finish().map_err(|e| e.to_string())
}

/// Compresses data as zlib at the default level.
pub fn zlib_compress(data: &[u8]) -> (r: Result<Vec<u8>>)
    ensures
        match zlib_deflate(data@) {
            Ok(z) => r matches Ok(v) && v@ == z && zlib_read(z) == Ok::<Seq<u8>, Seq<char>>(data@),
            Err(t) => r matches Err(AltiumError::InvalidEmbeddedObject(m)) && m@ == "zlib compress failed: "@ + t,
        },
{
    match zlib_deflate_bytes(data) {
        Ok(v) => Ok(v),
        Err(m) => Err(AltiumError::InvalidEmbeddedObject(text2("zlib compress failed: ", m.as_str()))),
    }
}

/// The envelope of an id's bytes and zlib data; the id length is kept to
/// its low byte and the data length to its low 32 bits, as the format's
/// fields hold them.
pub open spec fn envelope_bytes(id: Seq<u8>, z: Seq<u8>) -> Seq<u8> {
    seq![ENVELOPE_TAG, (id.len() % 256) as u8] + id + le32((z.len() % 0x1_0000_0000) as u32) + z
}

/// Serializes one envelope: the id in Windows-1252 and the inner data
/// compressed as zlib.
pub fn serialize_embedded_object(id: &str, inner_data: &[u8]) -> (r: Result<Vec<u8>>)
    ensures
        match zlib_deflate(inner_data@) {
            Ok(z) => r matches Ok(v) && v@ == envelope_bytes(win1252_encoded(id@), z),
            Err(t) => r matches Err(AltiumError::InvalidEmbeddedObject(m)) && m@ == "zlib compress failed: "@ + t,
        },
{
    let compressed = match zlib_compress(inner_data) {
        Ok(c) => c,
        Err(e) => {
            return Err(e);
        },
    };
    let id_bytes = encode_win1252(id);
    let mut w: Vec<u8> = Vec::new();
    w.push(ENVELOPE_TAG);
    w.push((id_bytes.len() % 256) as u8);
    crate::wire::append_bytes(&mut w, id_bytes.as_slice());
    push_u32_le(&mut w, (compressed.len() as u64 % 0x1_0000_0000) as u32);
    crate::wire::append_bytes(&mut w, compressed.as_slice());
    assert(w@ =~= envelope_bytes(id_bytes@, compressed@));
    Ok(w)
}

/// The header parameters of a serialized stream: `HEADER`, then `Weight`.
pub open spec fn stream_header_params(header_name: Seq<char>, n: nat) -> Seq<(Seq<u8>, Seq<u8>)> {
    set_param(
        set_param(Seq::empty(), win1252_encoded("HEADER"@), win1252_encoded(header_name)),
        win1252_encoded("Weight"@),
        win1252_encoded(decimal_text(n)),
    )
}

/// The blocks of the serialized envelopes, or `None` when one does not
/// compress or does not fit a block.
pub open spec fn envelope_blocks(es: Seq<(Seq<char>, Seq<u8>)>) -> Option<Seq<u8>>
    decreases es.len(),
{
    if es.len() == 0 {
        Some(Seq::empty())
    } else {
        match envelope_blocks(es.drop_last()) {
            None => None,
            Some(pre) => match zlib_deflate(es.last().1) {
                Ok(z) => {
                    let env = envelope_bytes(win1252_encoded(es.last().0), z);
                    if env.len() <= SIZE_FLAG_MASK {
                        Some(pre + enc_block((1u8, env)))
                    } else {
                        None
                    }
                },
                Err(_) => None,
            },
        }
    }
}

pub open spec fn entries_text_view(es: Seq<(String, Vec<u8>)>) -> Seq<(Seq<char>, Seq<u8>)> {
    es.map_values(|e: (String, Vec<u8>)| (e.0@, e.1@))
}

/// Serializes a stream of envelopes: a text block with `HEADER` and
/// `Weight` (the entry count), then one binary block per envelope.
pub fn serialize_embedded_object_stream(header_name: &str, entries: &[(String, Vec<u8>)]) -> (r: Result<Vec<u8>>)
    ensures
        ({
            let hp = ser_params(stream_header_params(header_name@, entries@.len()));
            match envelope_blocks(entries_text_view(entries@)) {
                Some(body) => hp.len() <= SIZE_FLAG_MASK ==> (r matches Ok(v) && v@ == enc_block((0u8, hp)) + body),
                None => r is Err,
            }
        }),
        r is Ok ==> ser_params(stream_header_params(header_name@, entries@.len())).len() <= SIZE_FLAG_MASK,
{
    let mut params = ParameterCollection::new();
    params.add("HEADER", header_name);
    let count = usize_text(entries.len());
    params.add("Weight", count.as_str());
    let header_bytes = params.to_bytes();
    if header_bytes.len() > SIZE_FLAG_MASK as usize {
        return Err(AltiumError::InvalidEmbeddedObject(text("header block too large")));
    }
    let mut stream: Vec<u8> = Vec::new();
    push_block(&mut stream, 0, header_bytes.as_slice());
    let ghost head = stream@;
    let ghost ev = entries_text_view(entries@);
    let mut i: usize = 0;
    while i < entries.len()
        invariant
            i <= entries@.len(),
            ev == entries_text_view(entries@),
            envelope_blocks(ev.take(i as int)) == Some(stream@.subrange(head.len() as int, stream@.len() as int)),
            head.len() <= stream@.len(),
            stream@.subrange(0, head.len() as int) == head,
        decreases entries@.len() - i,
    {
        let env = match serialize_embedded_object(entries[i].0.as_str(), entries[i].1.as_slice()) {
            Ok(e) => e,
            Err(e) => {
                proof {
                    assert(ev.take(i + 1).drop_last() =~= ev.take(i as int));
                    lemma_blocks_none_extends(ev, i as int + 1);
                }
                return Err(e);
            },
        };
        if env.len() > SIZE_FLAG_MASK as usize {
            proof {
                assert(ev.take(i + 1).drop_last() =~= ev.take(i as int));
                lemma_blocks_none_extends(ev, i as int + 1);
            }
            return Err(AltiumError::InvalidEmbeddedObject(text("embedded object block too large")));
        }
        let ghost before = stream@;
        push_block(&mut stream, 1, env.as_slice());
        proof {
            assert(ev.take(i + 1).drop_last() =~= ev.take(i as int));
            assert(ev.take(i + 1).last() == ev[i as int]);
            assert(stream@.subrange(head.len() as int, stream@.len() as int) =~= before.subrange(
                head.len() as int,
                before.len() as int,
            ) + enc_block((1u8, env@)));
            assert(stream@.subrange(0, head.len() as int) =~= before.subrange(0, head.len() as int));
        }
        i = i + 1;
    }
    proof {
        assert(ev.take(i as int) =~= ev);
        assert(stream@ =~= head + stream@.subrange(head.len() as int, stream@.len() as int));
    }
    Ok(stream)
}

/// Once a prefix of the entries fails to serialize, every longer prefix
/// fails too.
proof fn lemma_blocks_none_extends(es: Seq<(Seq<char>, Seq<u8>)>, k: int)
    requires
        0 <= k <= es.len(),
        envelope_blocks(es.take(k)) is None,
    ensures
        envelope_blocks(es) is None,
    decreases es.len() - k,
{
    if k < es.len() {
        assert(es.take(k + 1).drop_last() =~= es.take(k));
        lemma_blocks_none_extends(es, k + 1);
    } else {
        assert(es.take(k) =~= es);
    }
}

/// An envelope written for an id of under 256 bytes and zlib data that fits
/// the length field reads back as the id's Windows-1252 text and the bytes
/// the zlib data inflates to.
pub proof fn lemma_envelope_roundtrip(id: Seq<u8>, z: Seq<u8>, d: Seq<u8>)
    requires
        id.len() < 256,
        z.len() <= SIZE_FLAG_MASK,
        zlib_read(z) == Ok::<Seq<u8>, Seq<char>>(d),
    ensures
        envelope_value(envelope_bytes(id, z)) == Some((id.map_values(|b: u8| win1252_char(b)), d)),
{
    let p = envelope_bytes(id, z);
    let n = (z.len() % 0x1_0000_0000) as u32;
    assert(n == z.len());
    lemma_le32(n);
    let idl = id.len() as int;
    assert(p[1] == (id.len() % 256) as u8);
    assert(p[1] as int == idl);
    let f = le32(n);
    assert(p[2 + idl] == f[0]);
    assert(p[3 + idl] == f[1]);
    assert(p[4 + idl] == f[2]);
    assert(p[5 + idl] == f[3]);
    assert(u32_at(p, 2 + idl) == n);
    assert(header_len(n) == n) by (bit_vector)
        requires
            n <= 0x00FF_FFFFu32,
    ;
    assert(p.subrange(2, 2 + idl) =~= id);
    assert(p.subrange(6 + idl, 6 + idl + n) =~= z);
}

} // verus!
