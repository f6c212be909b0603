//! Typed SchLib non-record stream metadata and strict codecs.
use vstd::prelude::*;
use vstd::string::StringSliceAdditionalSpecFns;

use crate::documents::blocks::{
    blocks_view, decode_param_payload, parse_block_stream, push_block, spec_blocks,
    spec_decode_param_payload, zeros_from, RawBlock,
};
use crate::error::{text, AltiumError, Result};
use crate::params::{
    find_byte, find_byte_exec, key_eq, keys_equal, lookup, parse_i32, parse_params, ser_params,
    ParamValue, ParameterCollection, NUL,
};
use crate::wire::{
    append_bytes, copy_range, header_flags, header_len, make_block_header, push_u32_le,
    read_u32_le, split_block_header, u32_at, SIZE_FLAG_MASK,
};

verus! {

/// Tag byte for zlib-compressed CFB storage streams.
pub const CFB_COMPRESSED_TAG: u8 = 0xD0;

pub const STREAM_PIN_FRAC: &'static str = "PinFrac";

pub const STREAM_PIN_TEXT_DATA: &'static str = "PinTextData";

pub const STREAM_PIN_SYMBOL_LINE_WIDTH: &'static str = "PinSymbolLineWidth";

pub const STREAM_PIN_PACKAGE_LENGTH: &'static str = "PinPackageLength";

/// Typed metadata for a SchLib alias redirection stream.
#[derive(Clone, Debug)]
pub struct SchLibRedirectionStreamMeta {
    /// Destination component section name (`SECTIONNAME`).
    pub section_name: Vec<u8>,
    /// Full parsed parameter set for unknown-key round-tripping.
    pub params: ParameterCollection,
}

/// Whether a byte is ASCII white space.
pub open spec fn is_space(b: u8) -> bool {
    b == 32 || b == 9 || b == 10 || b == 13 || b == 12
}

/// Some byte is not white space.
pub open spec fn not_blank(s: Seq<u8>) -> bool {
    exists|i: int| 0 <= i < s.len() && !is_space(s[i])
}

/// The payload of a single-block redirection stream, or `None`.
pub open spec fn spec_redirection_payload(data: Seq<u8>) -> Option<Seq<u8>> {
    if data.len() < 4 {
        None
    } else {
        let raw = u32_at(data, 0);
        let len = header_len(raw) as int;
        if header_flags(raw) != 0 || len == 0 || 4 + len != data.len() {
            None
        } else {
            Some(data.subrange(4, data.len() as int))
        }
    }
}

/// Section name and parameters of a redirection stream, or `None`.
pub open spec fn spec_redirection(data: Seq<u8>) -> Option<(Seq<u8>, Seq<(Seq<u8>, Seq<u8>)>)> {
    match spec_redirection_payload(data) {
        Some(p) => match spec_decode_param_payload(p) {
            Some(ps) => match lookup(ps, "SECTIONNAME".spec_bytes()) {
                Some(name) => if not_blank(name) {
                    Some((name, ps))
                } else {
                    None
                },
                None => None,
            },
            None => None,
        },
        None => None,
    }
}

fn has_non_space(s: &[u8]) -> (r: bool)
    ensures
        r == not_blank(s@),
{
    let mut i: usize = 0;
    while i < s.len()
        invariant
            i <= s@.len(),
            forall|k: int| 0 <= k < i ==> is_space(s@[k]),
        decreases s@.len() - i,
    {
        let b = s[i];
        if !(b == 32 || b == 9 || b == 10 || b == 13 || b == 12) {
            return true;
        }
        i = i + 1;
    }
    false
}

/// Parse a strict SchLib redirection stream from raw bytes.
pub fn parse_redirection_stream(data: &[u8]) -> (r: Result<SchLibRedirectionStreamMeta>)
    ensures
        r is Ok <==> spec_redirection(data@) is Some,
        r matches Ok(m) ==> spec_redirection(data@) == Some((m.section_name@, m.params@)),
{
    if data.len() < 4 {
        return Err(AltiumError::Parse(text("schlib redirection stream is truncated")));
    }
    let raw = read_u32_le(data, 0);
    let (flags, len32) = split_block_header(raw);
    let len = len32 as usize;
    if flags != 0 {
        return Err(AltiumError::Parse(text("schlib redirection stream has unsupported flags")));
    }
    if len == 0 {
        return Err(AltiumError::Parse(text("schlib redirection stream has zero-length payload")));
    }
    if len != data.len() - 4 {
        return Err(AltiumError::Parse(text("schlib redirection stream has unexpected trailing data")));
    }
    let payload = copy_range(data, 4, data.len());
    let params = decode_param_payload(payload.as_slice())?;
    match params.get("SECTIONNAME") {
        Some(v) => {
            if has_non_space(v.bytes.as_slice()) {
                Ok(SchLibRedirectionStreamMeta { section_name: v.bytes, params })
            } else {
                Err(AltiumError::Parse(text("schlib redirection stream missing SECTIONNAME")))
            }
        },
        None => Err(AltiumError::Parse(text("schlib redirection stream missing SECTIONNAME"))),
    }
}

/// A single parameter block: flags 0, the text and a NUL terminator.
pub fn encode_single_param_block(params: &ParameterCollection) -> (r: Result<Vec<u8>>)
    ensures
        r is Ok <==> ser_params(params@).len() + 1 <= SIZE_FLAG_MASK,
        r matches Ok(b) ==> b@ == crate::documents::pcblib_streams::enc_param_block(params@),
        r matches Err(e) ==> (e matches AltiumError::Parse(m) && m@ == "parameter block too large"@),
{
    let mut payload = params.to_bytes();
    payload.push(0);
    if payload.len() > 0x00FF_FFFF {
        return Err(AltiumError::Parse(text("parameter block too large")));
    }
    let mut out: Vec<u8> = Vec::new();
    push_block(&mut out, 0, payload.as_slice());
    Ok(out)
}

/// Serialize typed SchLib redirection metadata back to stream bytes.
pub fn serialize_redirection_stream(meta: &SchLibRedirectionStreamMeta) -> (r: Result<Vec<u8>>)
    ensures
        r matches Ok(b) ==> b@ == crate::documents::pcblib_streams::enc_param_block(
            crate::params::set_param(
                meta.params@,
                crate::encoding::win1252_encoded("SECTIONNAME"@),
                meta.section_name@,
            ),
        ),
        r is Ok <==> ser_params(
            crate::params::set_param(
                meta.params@,
                crate::encoding::win1252_encoded("SECTIONNAME"@),
                meta.section_name@,
            ),
        ).len() + 1 <= SIZE_FLAG_MASK,
{
    let mut params = meta.params.duplicate();
    let key = crate::encoding::encode_win1252("SECTIONNAME");
    params.add_bytes(key.as_slice(), meta.section_name.as_slice());
    encode_single_param_block(&params)
}


/// One compressed entry in a SchLib component sidecar stream.
#[derive(Clone, Debug)]
pub struct SchLibEmbeddedObjectEntry {
    /// Embedded object identifier from the envelope (Windows-1252 bytes).
    pub id: Vec<u8>,
    /// Inner compressed-block flags.
    pub compressed_flags: u8,
    /// Raw compressed bytes from the inner envelope.
    pub compressed_data: Vec<u8>,
}

/// Typed metadata for a SchLib component sidecar stream (`PinFrac`, etc.).
#[derive(Clone, Debug)]
pub struct SchLibEmbeddedObjectStreamMeta {
    /// Header stream name (`HEADER` parameter).
    pub header: Vec<u8>,
    /// Optional `Weight` value.
    pub weight: Option<usize>,
    /// Full parsed header parameter set.
    pub params: ParameterCollection,
    /// Compressed object entries.
    pub entries: Vec<SchLibEmbeddedObjectEntry>,
}

/// Typed sidecar streams present under a SchLib component storage.
#[derive(Clone, Debug)]
pub struct SchLibComponentSidecarStreamsMeta {
    pub pin_frac: Option<SchLibEmbeddedObjectStreamMeta>,
    pub pin_text_data: Option<SchLibEmbeddedObjectStreamMeta>,
    pub pin_symbol_line_width: Option<SchLibEmbeddedObjectStreamMeta>,
    pub pin_package_length: Option<SchLibEmbeddedObjectStreamMeta>,
}

impl SchLibComponentSidecarStreamsMeta {
    /// No sidecar stream is present.
    pub fn new() -> (r: Self)
        ensures
            r.pin_frac is None,
            r.pin_text_data is None,
            r.pin_symbol_line_width is None,
            r.pin_package_length is None,
    {
        SchLibComponentSidecarStreamsMeta {
            pin_frac: None,
            pin_text_data: None,
            pin_symbol_line_width: None,
            pin_package_length: None,
        }
    }

    /// Whether no sidecar stream is present.
    pub fn is_empty(&self) -> (r: bool)
        ensures
            r == (self.pin_frac is None && self.pin_text_data is None
                && self.pin_symbol_line_width is None && self.pin_package_length is None),
    {
        self.pin_frac.is_none() && self.pin_text_data.is_none()
            && self.pin_symbol_line_width.is_none() && self.pin_package_length.is_none()
    }
}

/// `(id, inner flags, compressed bytes)` of one entry block, or `None`.
pub open spec fn spec_sidecar_entry(b: (u8, Seq<u8>)) -> Option<(Seq<u8>, u8, Seq<u8>)> {
    let p = b.1;
    if b.0 != 1 || p.len() < 6 || p[0] != CFB_COMPRESSED_TAG {
        None
    } else {
        let idl = p[1] as int;
        let he = 2 + idl + 4;
        if he > p.len() {
            None
        } else {
            let raw = u32_at(p, 2 + idl);
            if he + header_len(raw) as int != p.len() {
                None
            } else {
                Some((p.subrange(2, 2 + idl), header_flags(raw), p.subrange(he, p.len() as int)))
            }
        }
    }
}

/// The `Weight` of a sidecar header: absent, or a non-negative `i32` equal to the entry count.
pub open spec fn spec_weight(ps: Seq<(Seq<u8>, Seq<u8>)>, n: int) -> Option<Option<int>> {
    match lookup(ps, "Weight".spec_bytes()) {
        None => Some(None),
        Some(v) => match parse_i32(v) {
            Some(w) => if w >= 0 && w == n {
                Some(Some(w as int))
            } else {
                None
            },
            None => None,
        },
    }
}

pub open spec fn entries_ok_from(bs: Seq<(u8, Seq<u8>)>) -> bool {
    forall|i: int| 1 <= i < bs.len() ==> (#[trigger] spec_sidecar_entry(bs[i])) is Some
}

/// The `HEADER` value of a sidecar stream whose blocks and header block
/// read: `Some(None)` when the header block has no `HEADER`; `None` when the
/// stream does not get that far.
pub open spec fn sidecar_header_value(data: Seq<u8>) -> Option<Option<Seq<u8>>> {
    match spec_blocks(data) {
        Some(bs) => if bs.len() > 0 && bs[0].0 == 0 {
            match spec_decode_param_payload(bs[0].1) {
                Some(ps) => Some(lookup(ps, "HEADER".spec_bytes())),
                None => None,
            }
        } else {
            None
        },
        None => None,
    }
}

/// Whether an entry's block is a binary block whose payload starts with the
/// 0xD0 tag and whose inner length field gives the entry's compressed length.
pub open spec fn entry_block(b: (u8, Seq<u8>), e: (Seq<u8>, u8, Seq<u8>)) -> bool {
    &&& b.0 == 1
    &&& b.1.len() >= 6
    &&& b.1[0] == CFB_COMPRESSED_TAG
    &&& header_len(u32_at(b.1, 2 + b.1[1] as int)) as int == e.2.len()
}

/// A sidecar stream that reads has one entry for each block after its
/// header block, and a `Weight`, when present, equal to that count; each
/// entry's block is a binary block whose payload starts with the 0xD0 tag
/// and whose inner length field gives the length of the compressed data.
pub proof fn lemma_sidecar_entries(data: Seq<u8>, expected: Seq<u8>)
    requires
        spec_component_stream(data, expected) is Some,
    ensures
        spec_component_stream(data, expected).unwrap().3.len() == spec_blocks(data).unwrap().len() - 1,
        spec_component_stream(data, expected).unwrap().1 matches Some(x) ==> x == spec_blocks(data).unwrap().len()
            - 1,
        forall|i: int|
            0 <= i < spec_component_stream(data, expected).unwrap().3.len() ==> entry_block(
                spec_blocks(data).unwrap()[i + 1],
                #[trigger] spec_component_stream(data, expected).unwrap().3[i],
            ),
{
    let bs = spec_blocks(data).unwrap();
    let es = spec_component_stream(data, expected).unwrap().3;
    let ps = spec_decode_param_payload(bs[0].1).unwrap();
    assert(spec_component_stream(data, expected).unwrap().1 == spec_weight(ps, bs.len() - 1).unwrap());
    assert(es.len() == bs.len() - 1);
    assert forall|i: int| 0 <= i < spec_component_stream(data, expected).unwrap().3.len() implies entry_block(
        spec_blocks(data).unwrap()[i + 1],
        #[trigger] spec_component_stream(data, expected).unwrap().3[i],
    ) by {
        assert(spec_sidecar_entry(bs[i + 1]) is Some);
        assert(es[i] == spec_sidecar_entry(bs[i + 1]).unwrap());
        let p = bs[i + 1].1;
        let idl = p[1] as int;
        assert(es[i].2 == p.subrange(2 + idl + 4, p.len() as int));
    }
}

/// The start of a message about a stream: `schlib stream '<path>'`
/// followed by `rest`.
fn stream_msg(path: &str, rest: &str) -> (r: String)
    ensures
        r@ == "schlib stream '"@ + path@ + "'"@ + rest@,
{
    let mut m = text("schlib stream '");
    m.append(path);
    m.append("'");
    m.append(rest);
    m
}

/// Header, weight, header parameters and entries of a sidecar stream, or `None`.
pub open spec fn spec_component_stream(data: Seq<u8>, expected: Seq<u8>) -> Option<
    (Seq<u8>, Option<int>, Seq<(Seq<u8>, Seq<u8>)>, Seq<(Seq<u8>, u8, Seq<u8>)>),
> {
    match spec_blocks(data) {
        None => None,
        Some(bs) => if bs.len() == 0 || bs[0].0 != 0 {
            None
        } else {
            match spec_decode_param_payload(bs[0].1) {
                None => None,
                Some(ps) => match lookup(ps, "HEADER".spec_bytes()) {
                    None => None,
                    Some(h) => if !key_eq(h, expected) {
                        None
                    } else {
                        match spec_weight(ps, bs.len() - 1) {
                            None => None,
                            Some(w) => if entries_ok_from(bs) {
                                Some(
                                    (
                                        h,
                                        w,
                                        ps,
                                        Seq::new(
                                            (bs.len() - 1) as nat,
                                            |i: int| spec_sidecar_entry(bs[i + 1]).unwrap(),
                                        ),
                                    ),
                                )
                            } else {
                                None
                            },
                        }
                    },
                },
            }
        },
    }
}

pub open spec fn sidecar_entries_view(v: Seq<SchLibEmbeddedObjectEntry>) -> Seq<
    (Seq<u8>, u8, Seq<u8>),
> {
    v.map_values(|e: SchLibEmbeddedObjectEntry| (e.id@, e.compressed_flags, e.compressed_data@))
}

fn parse_sidecar_entry(b: &RawBlock) -> (r: Result<SchLibEmbeddedObjectEntry>)
    ensures
        r is Ok <==> spec_sidecar_entry(b@) is Some,
        r matches Ok(e) ==> spec_sidecar_entry(b@) == Some(
            (e.id@, e.compressed_flags, e.compressed_data@),
        ),
{
    let p = b.payload.as_slice();
    if b.flags != 1 {
        return Err(AltiumError::Parse(text("schlib stream block has unsupported flags")));
    }
    if p.len() < 6 {
        return Err(AltiumError::Parse(text("schlib stream block is too short")));
    }
    if p[0] != CFB_COMPRESSED_TAG {
        return Err(AltiumError::Parse(text("schlib stream block missing compressed tag 0xD0")));
    }
    let idl = p[1] as usize;
    if idl + 6 > p.len() {
        return Err(AltiumError::Parse(text("schlib stream block has invalid id length")));
    }
    let raw = read_u32_le(p, 2 + idl);
    let (flags, len32) = split_block_header(raw);
    if len32 as usize != p.len() - (idl + 6) {
        return Err(AltiumError::Parse(text("schlib stream block has invalid compressed length")));
    }
    Ok(
        SchLibEmbeddedObjectEntry {
            id: copy_range(p, 2, 2 + idl),
            compressed_flags: flags,
            compressed_data: copy_range(p, idl + 6, p.len()),
        },
    )
}

/// Parse one strict SchLib component sidecar stream.
#[verifier::loop_isolation(false)]
pub fn parse_component_embedded_stream(data: &[u8], stream_path: &str, expected_header: &str) -> (r: Result<
    SchLibEmbeddedObjectStreamMeta,
>)
    ensures
        r is Ok <==> spec_component_stream(data@, expected_header.spec_bytes()) is Some,
        r matches Ok(m) ==> spec_component_stream(data@, expected_header.spec_bytes()) == Some(
            (
                m.header@,
                match m.weight {
                    Some(w) => Some(w as int),
                    None => None,
                },
                m.params@,
                sidecar_entries_view(m.entries@),
            ),
        ),
        (spec_blocks(data@) matches Some(bs) && bs.len() == 0) ==> (r matches Err(AltiumError::Parse(m))
            && m@ == "schlib stream '"@ + stream_path@ + "'"@ + " has no blocks"@),
        (spec_blocks(data@) matches Some(bs) && bs.len() > 0 && bs[0].0 != 0) ==> (r matches Err(
            AltiumError::Parse(m),
        ) && m@ == "schlib stream '"@ + stream_path@ + "'"@ + " header block has unsupported flags "@
            + crate::error::decimal_text(spec_blocks(data@).unwrap()[0].0 as nat)),
        sidecar_header_value(data@) == Some(None::<Seq<u8>>) ==> (r matches Err(AltiumError::Parse(m)) && m@
            == "schlib stream '"@ + stream_path@ + "'"@ + " header block missing HEADER"@),
        (sidecar_header_value(data@) matches Some(Some(h)) && !key_eq(h, expected_header.spec_bytes())) ==> (
        r matches Err(AltiumError::Parse(m)) && m@ == "schlib stream '"@ + stream_path@ + "'"@
            + " has unexpected HEADER='"@ + sidecar_header_value(data@).unwrap().unwrap().map_values(
            |x: u8| crate::encoding::win1252_char(x),
        )
            + "' (expected '"@ + expected_header@ + "')"@),
{
    let blocks = parse_block_stream(data)?;
    let ghost bv = blocks_view(blocks@);
    if blocks.len() == 0 {
        return Err(AltiumError::Parse(stream_msg(stream_path, " has no blocks")));
    }
    assert(bv[0] == blocks@[0]@);
    if blocks[0].flags != 0 {
        let mut m = stream_msg(stream_path, " header block has unsupported flags ");
        m.append(crate::error::usize_text(blocks[0].flags as usize).as_str());
        return Err(AltiumError::Parse(m));
    }
    let params = decode_param_payload(blocks[0].payload.as_slice())?;
    let header = match params.get("HEADER") {
        Some(v) => v.bytes,
        None => {
            return Err(AltiumError::Parse(stream_msg(stream_path, " header block missing HEADER")));
        },
    };
    if !keys_equal(header.as_slice(), expected_header.as_bytes()) {
        let mut m = stream_msg(stream_path, " has unexpected HEADER='");
        m.append(crate::encoding::decode_win1252(header.as_slice()).as_str());
        m.append("' (expected '");
        m.append(expected_header);
        m.append("')");
        return Err(AltiumError::Parse(m));
    }
    let n = blocks.len() - 1;
    let weight: Option<usize> = match params.get("Weight") {
        Some(v) => {
            match crate::params::parse_i32_bytes(v.bytes.as_slice()) {
                Some(w) => {
                    if w < 0 {
                        let mut m = stream_msg(stream_path, " has negative Weight=");
                        m.append(crate::error::i32_text(w).as_str());
                        return Err(AltiumError::Parse(m));
                    }
                    if w as usize != n {
                        let mut m = stream_msg(stream_path, " Weight=");
                        m.append(crate::error::usize_text(w as usize).as_str());
                        m.append(" does not match entry count ");
                        m.append(crate::error::usize_text(n).as_str());
                        return Err(AltiumError::Parse(m));
                    }
                    Some(w as usize)
                },
                None => {
                    let mut m = stream_msg(stream_path, " has invalid Weight='");
                    m.append(crate::encoding::decode_win1252(v.bytes.as_slice()).as_str());
                    m.append("'");
                    return Err(AltiumError::Parse(m));
                },
            }
        },
        None => None,
    };
    let mut entries: Vec<SchLibEmbeddedObjectEntry> = Vec::new();
    let mut i: usize = 1;
    while i < blocks.len()
        invariant
            1 <= i <= blocks@.len(),
            bv == blocks_view(blocks@),
            entries@.len() == i - 1,
            forall|k: int| 1 <= k < i ==> (#[trigger] spec_sidecar_entry(bv[k])) is Some,
            forall|k: int|
                0 <= k < i - 1 ==> spec_sidecar_entry(bv[k + 1]) == Some(
                    (
                        (#[trigger] entries@[k]).id@,
                        entries@[k].compressed_flags,
                        entries@[k].compressed_data@,
                    ),
                ),
        decreases blocks@.len() - i,
    {
        assert(bv[i as int] == blocks@[i as int]@);
        let e = parse_sidecar_entry(&blocks[i])?;
        entries.push(e);
        i = i + 1;
    }
    assert(sidecar_entries_view(entries@) =~= Seq::new(
        (bv.len() - 1) as nat,
        |k: int| spec_sidecar_entry(bv[k + 1]).unwrap(),
    ));
    Ok(SchLibEmbeddedObjectStreamMeta { header, weight, params, entries })
}

/// Bytes of one entry block payload.
pub open spec fn sidecar_entry_payload(e: (Seq<u8>, u8, Seq<u8>)) -> Seq<u8> {
    seq![CFB_COMPRESSED_TAG, e.0.len() as u8] + e.0 + crate::wire::le32(
        crate::wire::block_header(e.1, e.2.len() as u32),
    ) + e.2
}

/// The header parameters written for a sidecar stream: the stream's own
/// parameters with `HEADER` set to the header bytes and `Weight` to the
/// entry count.
pub open spec fn sidecar_header_params(
    params: Seq<(Seq<u8>, Seq<u8>)>,
    header: Seq<u8>,
    count: nat,
) -> Seq<(Seq<u8>, Seq<u8>)> {
    crate::params::set_param(
        crate::params::set_param(params, "HEADER".spec_bytes(), header),
        "Weight".spec_bytes(),
        crate::params::decimal_digits(count),
    )
}

/// The bytes of a sidecar stream: the header parameter block, then one
/// block per entry.
pub open spec fn sidecar_stream_bytes(
    ps: Seq<(Seq<u8>, Seq<u8>)>,
    es: Seq<(Seq<u8>, u8, Seq<u8>)>,
) -> Seq<u8> {
    crate::documents::pcblib_streams::enc_param_block(ps) + es.map_values(
        |e: (Seq<u8>, u8, Seq<u8>)| crate::documents::blocks::enc_block((1u8, sidecar_entry_payload(e))),
    ).flatten()
}

/// The two header keys are ASCII, written as their bytes, valid keys, and
/// different from each other ignoring case.
proof fn lemma_sidecar_keys()
    ensures
        vstd::string::is_ascii("HEADER"),
        vstd::string::is_ascii("Weight"),
        "HEADER".spec_bytes() == seq![72u8, 69u8, 65u8, 68u8, 69u8, 82u8],
        "Weight".spec_bytes() == seq![87u8, 101u8, 105u8, 103u8, 104u8, 116u8],
        crate::params::key_ok("HEADER".spec_bytes()),
        crate::params::key_ok("Weight".spec_bytes()),
        !key_eq("HEADER".spec_bytes(), "Weight".spec_bytes()),
        !key_eq("Weight".spec_bytes(), "HEADER".spec_bytes()),
{
    reveal_strlit("HEADER");
    reveal_strlit("Weight");
    broadcast use vstd::string::is_ascii_spec_bytes;
    assert(vstd::string::is_ascii("HEADER"));
    assert(vstd::string::is_ascii("Weight"));
    assert("HEADER".spec_bytes() =~= seq![72u8, 69u8, 65u8, 68u8, 69u8, 82u8]);
    assert("Weight".spec_bytes() =~= seq![87u8, 101u8, 105u8, 103u8, 104u8, 116u8]);
    assert(crate::params::lower(72u8) != crate::params::lower(87u8));
}

/// An entry that fits reads back from its block.
proof fn lemma_sidecar_entry_roundtrip(e: (Seq<u8>, u8, Seq<u8>))
    requires
        sidecar_entry_fits(e),
    ensures
        spec_sidecar_entry((1u8, sidecar_entry_payload(e))) == Some(e),
        0 < sidecar_entry_payload(e).len() <= SIZE_FLAG_MASK,
{
    let idl = e.0.len() as int;
    let len = e.2.len() as u32;
    let x = crate::wire::block_header(e.1, len);
    let pre = seq![CFB_COMPRESSED_TAG, idl as u8] + e.0;
    let p = sidecar_entry_payload(e);
    assert(p =~= pre + crate::wire::le32(x) + e.2);
    crate::wire::lemma_u32_at_prefix(x, pre, e.2);
    crate::wire::lemma_le32(x);
    crate::wire::lemma_block_header(e.1, len);
    assert(p[1] == idl as u8);
    assert(p.subrange(2, 2 + idl) =~= e.0);
    assert(p.subrange(2 + idl + 4, p.len() as int) =~= e.2);
}

/// Writing a sidecar stream and reading it back with the header it was
/// written with gives that header, the entry count as its weight, the
/// written header parameters and the entries.
pub proof fn lemma_component_stream_roundtrip(
    params: Seq<(Seq<u8>, Seq<u8>)>,
    header: Seq<u8>,
    es: Seq<(Seq<u8>, u8, Seq<u8>)>,
)
    requires
        crate::params::entries_ok(params),
        crate::params::value_ok(header),
        es.len() <= i32::MAX,
        ser_params(sidecar_header_params(params, header, es.len())).len() + 1 <= SIZE_FLAG_MASK,
        forall|k: int| 0 <= k < es.len() ==> sidecar_entry_fits(#[trigger] es[k]),
    ensures
        spec_component_stream(
            sidecar_stream_bytes(sidecar_header_params(params, header, es.len()), es),
            header,
        ) == Some((header, Some(es.len() as int), sidecar_header_params(params, header, es.len()), es)),
{
    lemma_sidecar_keys();
    let n = es.len();
    let hk = "HEADER".spec_bytes();
    let wk = "Weight".spec_bytes();
    let d = crate::params::decimal_digits(n);
    let p1 = crate::params::set_param(params, hk, header);
    let ps = sidecar_header_params(params, header, n);
    crate::params::lemma_parse_decimal_digits(n);
    crate::params::lemma_set_param_ok(params, hk, header);
    crate::params::lemma_set_param_ok(p1, wk, d);
    crate::params::lemma_lookup_set_same(p1, wk, d);
    crate::params::lemma_lookup_set_other(p1, wk, d, hk);
    crate::params::lemma_lookup_set_same(params, hk, header);
    let h0 = (0u8, ser_params(ps).push(NUL));
    let f = |e: (Seq<u8>, u8, Seq<u8>)| (1u8, sidecar_entry_payload(e));
    let bs = seq![h0] + es.map_values(f);
    assert forall|k: int| 0 <= k < es.len() implies spec_sidecar_entry(#[trigger] bs[k + 1]) == Some(es[k])
        && 0 < bs[k + 1].1.len() <= SIZE_FLAG_MASK by {
        assert(bs[k + 1] == f(es[k]));
        lemma_sidecar_entry_roundtrip(es[k]);
    }
    assert(crate::documents::blocks::blocks_fit(bs)) by {
        assert forall|i: int| 0 <= i < bs.len() implies 0 < (#[trigger] bs[i]).1.len() <= SIZE_FLAG_MASK by {
            if i > 0 {
                assert(spec_sidecar_entry(bs[(i - 1) + 1]) == Some(es[i - 1]));
            }
        }
    }
    let g = |b: (u8, Seq<u8>)| crate::documents::blocks::enc_block(b);
    let m = bs.map_values(g);
    assert(m.drop_first() =~= es.map_values(
        |e: (Seq<u8>, u8, Seq<u8>)| crate::documents::blocks::enc_block((1u8, sidecar_entry_payload(e))),
    ));
    assert(crate::documents::blocks::enc_blocks(bs) == sidecar_stream_bytes(ps, es));
    crate::documents::blocks::lemma_blocks_roundtrip(bs);
    crate::documents::blocks::lemma_decode_serialized(ps, true);
    assert(key_eq(header, header));
    assert(entries_ok_from(bs)) by {
        assert forall|i: int| 1 <= i < bs.len() implies (#[trigger] spec_sidecar_entry(bs[i])) is Some by {
            assert(spec_sidecar_entry(bs[(i - 1) + 1]) == Some(es[i - 1]));
        }
    }
    assert(Seq::new(n, |i: int| spec_sidecar_entry(bs[i + 1]).unwrap()) =~= es);
}

/// Whether an entry fits its block: an id of at most 255 bytes, and a whole
/// payload (tag, id length, id, inner header, data) within the 24-bit size field.
pub open spec fn sidecar_entry_fits(e: (Seq<u8>, u8, Seq<u8>)) -> bool {
    e.0.len() <= 255 && e.2.len() + 6 + e.0.len() <= 0x00FF_FFFF
}

/// Serialize one typed SchLib component sidecar stream: the header block with
/// `HEADER` and `Weight` set, then one block per entry. A header block larger
/// than the 24-bit size field, an id longer than 255 bytes or an entry payload
/// larger than the size field is an error; the first such fault decides which.
pub fn serialize_component_embedded_stream(
    meta: &SchLibEmbeddedObjectStreamMeta,
    stream_name: &str,
    expected_header: &str,
) -> (r: Result<Vec<u8>>)
    ensures
        r is Ok <==> ser_params(
            sidecar_header_params(meta.params@, crate::encoding::win1252_encoded(expected_header@), meta.entries@.len()),
        ).len() + 1 <= SIZE_FLAG_MASK && (forall|k: int|
            0 <= k < meta.entries@.len() ==> sidecar_entry_fits(
                #[trigger] sidecar_entries_view(meta.entries@)[k],
            )),
        ser_params(sidecar_header_params(meta.params@, crate::encoding::win1252_encoded(expected_header@), meta.entries@.len())).len()
            + 1 > SIZE_FLAG_MASK ==> (r matches Err(AltiumError::Parse(m)) && m@
            == "parameter block too large"@),
        forall|k: int|
            #![trigger sidecar_entries_view(meta.entries@)[k]]
            0 <= k < meta.entries@.len() && ser_params(
                sidecar_header_params(meta.params@, crate::encoding::win1252_encoded(expected_header@), meta.entries@.len()),
            ).len() + 1 <= SIZE_FLAG_MASK && !sidecar_entry_fits(
                sidecar_entries_view(meta.entries@)[k],
            ) && (forall|j: int|
                0 <= j < k ==> sidecar_entry_fits(sidecar_entries_view(meta.entries@)[j]))
                ==> (r matches Err(AltiumError::Parse(m)) && m@ == (if sidecar_entries_view(
                meta.entries@,
            )[k].0.len() > 255 {
                "schlib stream '"@ + stream_name@ + "'"@ + " entry id too long: "@ + crate::error::decimal_text(
                    sidecar_entries_view(meta.entries@)[k].0.len(),
                ) + " bytes"@
            } else {
                "schlib stream '"@ + stream_name@ + "'"@ + " entry compressed payload too large: "@
                    + crate::error::decimal_text(sidecar_entries_view(meta.entries@)[k].2.len()) + " bytes"@
            })),
        r matches Ok(b) ==> b@ == sidecar_stream_bytes(
            sidecar_header_params(meta.params@, crate::encoding::win1252_encoded(expected_header@), meta.entries@.len()),
            sidecar_entries_view(meta.entries@),
        ),
        vstd::string::is_ascii(expected_header) ==> (r matches Ok(b) ==> b@ == sidecar_stream_bytes(
            sidecar_header_params(meta.params@, expected_header.spec_bytes(), meta.entries@.len()),
            sidecar_entries_view(meta.entries@),
        )),
{
    proof {
        lemma_sidecar_keys();
    }
    let mut params = meta.params.duplicate();
    let hkey = crate::encoding::encode_win1252("HEADER");
    let hval = crate::encoding::encode_win1252(expected_header);
    params.add_bytes(hkey.as_slice(), hval.as_slice());
    let wkey = crate::encoding::encode_win1252("Weight");
    let wval = crate::params::usize_to_decimal(meta.entries.len());
    params.add_bytes(wkey.as_slice(), wval.as_slice());
    let ghost hp = sidecar_header_params(meta.params@, crate::encoding::win1252_encoded(expected_header@), meta.entries@.len());
    assert(params@ == hp);
    let mut out = match encode_single_param_block(&params) {
        Ok(b) => b,
        Err(e) => {
            return Err(e);
        },
    };
    let ghost hdr = out@;
    let ghost ev = sidecar_entries_view(meta.entries@);
    let mut i: usize = 0;
    while i < meta.entries.len()
        invariant
            i <= meta.entries@.len(),
            ev == sidecar_entries_view(meta.entries@),
            ev.len() == meta.entries@.len(),
            hp == sidecar_header_params(meta.params@, crate::encoding::win1252_encoded(expected_header@), meta.entries@.len()),
            ser_params(hp).len() + 1 <= SIZE_FLAG_MASK,
            forall|j: int| 0 <= j < i ==> sidecar_entry_fits(#[trigger] ev[j]),
            out@ == hdr + ev.take(i as int).map_values(
                |e: (Seq<u8>, u8, Seq<u8>)| crate::documents::blocks::enc_block((1u8, sidecar_entry_payload(e))),
            ).flatten(),
        decreases meta.entries@.len() - i,
    {
        let entry = &meta.entries[i];
        assert(ev[i as int] == (entry.id@, entry.compressed_flags, entry.compressed_data@));
        if entry.id.len() > 255 {
            let mut m = stream_msg(stream_name, " entry id too long: ");
            m.append(crate::error::usize_text(entry.id.len()).as_str());
            m.append(" bytes");
            return Err(AltiumError::Parse(m));
        }
        if entry.compressed_data.len() > 0x00FF_FFFF - 6 - entry.id.len() {
            let mut m = stream_msg(stream_name, " entry compressed payload too large: ");
            m.append(crate::error::usize_text(entry.compressed_data.len()).as_str());
            m.append(" bytes");
            return Err(AltiumError::Parse(m));
        }
        assert(sidecar_entry_fits(ev[i as int]));
        let mut payload: Vec<u8> = Vec::new();
        payload.push(CFB_COMPRESSED_TAG);
        payload.push(entry.id.len() as u8);
        append_bytes(&mut payload, entry.id.as_slice());
        let inner = make_block_header(entry.compressed_flags, entry.compressed_data.len() as u32);
        push_u32_le(&mut payload, inner);
        append_bytes(&mut payload, entry.compressed_data.as_slice());
        let ghost x = ev[i as int];
        proof {
            crate::wire::lemma_le32(inner);
        }
        assert(payload@ =~= sidecar_entry_payload(x));
        let ghost before = out@;
        push_block(&mut out, 1, payload.as_slice());
        proof {
            let t = ev.take(i as int);
            assert(ev.take(i + 1) =~= t.push(x));
            let h = |e: (Seq<u8>, u8, Seq<u8>)| crate::documents::blocks::enc_block((1u8, sidecar_entry_payload(e)));
            assert(t.push(x).map_values(h) =~= t.map_values(h).push(h(x)));
            t.map_values(h).lemma_flatten_push(h(x));
            assert(out@ =~= hdr + t.push(x).map_values(h).flatten());
        }
        i = i + 1;
    }
    assert(ev.take(i as int) =~= ev);
    Ok(out)
}

} // verus!
