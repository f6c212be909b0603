//! Typed PcbLib system-stream metadata and strict stream codecs.
use vstd::bytes::{spec_u64_from_le_bytes, spec_u64_to_le_bytes, u64_from_le_bytes, u64_to_le_bytes};
use vstd::prelude::*;
use vstd::slice::slice_subrange;

use crate::documents::blocks::{
    blocks_fit, blocks_view, decode_param_payload, enc_block, enc_blocks, lemma_blocks_roundtrip,
    lemma_decode_serialized, parse_block_stream, push_block, spec_blocks, spec_decode_param_payload,
    RawBlock,
};
use crate::documents::pcbdoc_streams::{collections_view, parse_u32_header_stream};
use crate::documents::pcbdoc_io::{text_from_utf8, utf8_lossy};
use crate::encoding::{encode_win1252, win1252_encoded};
use crate::error::{decimal_text, text, text2, text3, usize_text, AltiumError, Result};
use crate::params::{entries_ok, ser_params, ParameterCollection, NUL};
use crate::wire::{
    append_bytes, copy_range, le32, lemma_le32, lemma_u32_at_prefix, push_u32_le, read_u32_le, u32_at, u32_of, SIZE_FLAG_MASK,
};

verus! {

/// Typed metadata for `Header` + `Data` paired streams.
#[derive(Clone, Debug)]
pub struct PcbLibCountedDataStreamMeta {
    /// `Header` u32 count value.
    pub header_count: u32,
    /// Raw `Data` bytes.
    pub data: Vec<u8>,
}

/// One numbered model blob (`/Library/Models/<N>`).
#[derive(Clone, Debug)]
pub struct PcbLibModelEntry {
    pub index: u32,
    pub data: Vec<u8>,
}

/// Typed metadata for `/Library/Models`.
#[derive(Clone, Debug)]
pub struct PcbLibModelsStorageMeta {
    /// `/Library/Models/Header` u32 count.
    pub header_count: u32,
    /// `/Library/Models/Data` raw bytes.
    pub data: Vec<u8>,
    /// Optional numbered model blobs (`/Library/Models/<N>`), by index.
    pub entries: Vec<PcbLibModelEntry>,
}

/// Typed metadata for `/Library/*` system streams.
#[derive(Clone, Debug)]
pub struct PcbLibLibraryStorageMeta {
    /// `/Library/Header` u32 count.
    pub header_count: u32,
    /// `/Library/Data` raw bytes.
    pub data: Vec<u8>,
    /// `/Library/EmbeddedFonts` raw bytes.
    pub embedded_fonts: Vec<u8>,
    /// `/Library/ComponentParamsTOC/{Header,Data}`.
    pub component_params_toc: PcbLibCountedDataStreamMeta,
    /// `/Library/LayerKindMapping/{Header,Data}`.
    pub layer_kind_mapping: PcbLibCountedDataStreamMeta,
    /// `/Library/Models/*`.
    pub models: PcbLibModelsStorageMeta,
    /// `/Library/ModelsNoEmbed/{Header,Data}`.
    pub models_no_embed: PcbLibCountedDataStreamMeta,
    /// `/Library/PadViaLibrary/{Header,Data}`.
    pub pad_via_library: PcbLibCountedDataStreamMeta,
    /// `/Library/Textures/{Header,Data}`.
    pub textures: PcbLibCountedDataStreamMeta,
}

impl PcbLibLibraryStorageMeta {
    /// The library storage of a new PcbLib: header counts of one for the
    /// library, component-parameter table and layer-kind mapping, zero elsewhere.
    pub fn new_default() -> (r: Self)
        ensures
            r.header_count == 1,
            r.component_params_toc.header_count == 1,
            r.layer_kind_mapping.header_count == 1,
            r.models.header_count == 0,
            r.models_no_embed.header_count == 0,
            r.pad_via_library.header_count == 0,
            r.textures.header_count == 0,
            r.data@.len() == 0,
            r.embedded_fonts@.len() == 0,
            r.models.entries@.len() == 0,
    {
        PcbLibLibraryStorageMeta {
            header_count: 1,
            data: Vec::new(),
            embedded_fonts: Vec::new(),
            component_params_toc: PcbLibCountedDataStreamMeta { header_count: 1, data: Vec::new() },
            layer_kind_mapping: PcbLibCountedDataStreamMeta { header_count: 1, data: Vec::new() },
            models: PcbLibModelsStorageMeta { header_count: 0, data: Vec::new(), entries: Vec::new() },
            models_no_embed: PcbLibCountedDataStreamMeta { header_count: 0, data: Vec::new() },
            pad_via_library: PcbLibCountedDataStreamMeta { header_count: 0, data: Vec::new() },
            textures: PcbLibCountedDataStreamMeta { header_count: 0, data: Vec::new() },
        }
    }
}

/// Typed metadata for a footprint `WideStrings` stream.
#[derive(Clone, Debug)]
pub struct PcbLibWideStringsStreamMeta {
    /// Ordered parameter blocks in the stream.
    pub entries: Vec<ParameterCollection>,
}

/// One parsed row in `PrimitiveGuids/Data`.
#[derive(Clone, Debug)]
pub struct PcbLibPrimitiveGuidEntry {
    /// First 32-bit field (format-specific tag).
    pub tag: u32,
    /// Second 32-bit field (format-specific index).
    pub index: u32,
    /// Raw 16-byte GUID payload.
    pub guid: Vec<u8>,
}

/// Typed metadata for `PrimitiveGuids/{Header,Data}`.
#[derive(Clone, Debug)]
pub struct PcbLibPrimitiveGuidsStreamMeta {
    pub entries: Vec<PcbLibPrimitiveGuidEntry>,
}

/// Typed metadata for parameter-block table streams with `Header` + `Data`.
#[derive(Clone, Debug)]
pub struct PcbLibParamTableStreamMeta {
    /// Ordered parameter blocks from `Data`.
    pub entries: Vec<ParameterCollection>,
}

/// Typed sidecar streams present under one PcbLib footprint storage.
#[derive(Clone, Debug)]
pub struct PcbLibFootprintSidecarStreamsMeta {
    pub wide_strings: Option<PcbLibWideStringsStreamMeta>,
    pub primitive_guids: Option<PcbLibPrimitiveGuidsStreamMeta>,
    pub unique_id_primitive_information: Option<PcbLibParamTableStreamMeta>,
    pub extended_primitive_information: Option<PcbLibParamTableStreamMeta>,
}

impl PcbLibFootprintSidecarStreamsMeta {
    /// No sidecar stream is present.
    pub fn new() -> (r: Self)
        ensures
            r.wide_strings is None,
            r.primitive_guids is None,
            r.unique_id_primitive_information is None,
            r.extended_primitive_information is None,
    {
        PcbLibFootprintSidecarStreamsMeta {
            wide_strings: None,
            primitive_guids: None,
            unique_id_primitive_information: None,
            extended_primitive_information: None,
        }
    }

    /// Whether no sidecar stream is present.
    pub fn is_empty(&self) -> (r: bool)
        ensures
            r == (self.wide_strings is None && self.primitive_guids is None
                && self.unique_id_primitive_information is None
                && self.extended_primitive_information is None),
    {
        self.wide_strings.is_none() && self.primitive_guids.is_none()
            && self.unique_id_primitive_information.is_none()
            && self.extended_primitive_information.is_none()
    }
}

// ---------------------------------------------------------------------------
// Parameter block streams
// ---------------------------------------------------------------------------

/// Every block has flags 0 and a decodable NUL-terminated parameter payload.
pub open spec fn param_blocks_ok(bs: Seq<(u8, Seq<u8>)>) -> bool {
    forall|i: int|
        0 <= i < bs.len() ==> (#[trigger] bs[i]).0 == 0 && spec_decode_param_payload(bs[i].1) is Some
}

pub open spec fn param_blocks_decoded(bs: Seq<(u8, Seq<u8>)>) -> Seq<Seq<(Seq<u8>, Seq<u8>)>> {
    bs.map_values(|b: (u8, Seq<u8>)| spec_decode_param_payload(b.1).unwrap())
}

/// The parameter collections of a parameter block stream, or `None`.
pub open spec fn spec_param_blocks(data: Seq<u8>) -> Option<Seq<Seq<(Seq<u8>, Seq<u8>)>>> {
    match spec_blocks(data) {
        Some(bs) => if param_blocks_ok(bs) {
            Some(param_blocks_decoded(bs))
        } else {
            None
        },
        None => None,
    }
}

/// The block of one parameter collection: flags 0, text, NUL.
pub open spec fn enc_param_block(p: Seq<(Seq<u8>, Seq<u8>)>) -> Seq<u8> {
    enc_block((0u8, ser_params(p).push(NUL)))
}

pub open spec fn enc_param_blocks(es: Seq<Seq<(Seq<u8>, Seq<u8>)>>) -> Seq<u8> {
    es.map_values(|p: Seq<(Seq<u8>, Seq<u8>)>| enc_param_block(p)).flatten()
}

/// Collections that can be written as parameter blocks and read back.
pub open spec fn param_blocks_writable(es: Seq<Seq<(Seq<u8>, Seq<u8>)>>) -> bool {
    forall|i: int|
        0 <= i < es.len() ==> entries_ok(#[trigger] es[i]) && ser_params(es[i]).len() + 1
            <= SIZE_FLAG_MASK
}

/// `pcblib stream '<path>' block <i><rest><n>`.
fn block_msg(path: &str, i: usize, rest: &str, n: usize) -> (r: String)
    ensures
        r@ == "pcblib stream '"@ + path@ + "' block "@ + decimal_text(i as nat) + rest@ + decimal_text(n as nat),
{
    let head = text3("pcblib stream '", path, "' block ");
    let a = text3(head.as_str(), usize_text(i).as_str(), rest);
    text2(a.as_str(), usize_text(n).as_str())
}

fn decode_param_blocks(blocks: &Vec<RawBlock>, stream_path: &str) -> (r: Result<Vec<ParameterCollection>>)
    ensures
        r is Ok <==> param_blocks_ok(blocks_view(blocks@)),
        r matches Ok(v) ==> collections_view(v@) == param_blocks_decoded(blocks_view(blocks@)),
{
    let ghost bv = blocks_view(blocks@);
    let mut out: Vec<ParameterCollection> = Vec::new();
    let mut i: usize = 0;
    while i < blocks.len()
        invariant
            i <= blocks@.len(),
            bv == blocks_view(blocks@),
            out@.len() == i,
            forall|k: int|
                0 <= k < i ==> (#[trigger] bv[k]).0 == 0 && spec_decode_param_payload(bv[k].1) is Some,
            forall|k: int|
                0 <= k < i ==> (#[trigger] out@[k])@ == spec_decode_param_payload(bv[k].1).unwrap(),
        decreases blocks@.len() - i,
    {
        assert(bv[i as int] == blocks@[i as int]@);
        if blocks[i].flags != 0 {
            return Err(AltiumError::Parse(block_msg(stream_path, i, " has unsupported flags ", blocks[i].flags as usize)));
        }
        match decode_param_payload(blocks[i].payload.as_slice()) {
            Ok(c) => {
                out.push(c);
            },
            Err(e) => {
                return Err(e);
            },
        }
        i = i + 1;
    }
    assert(collections_view(out@) =~= param_blocks_decoded(bv));
    Ok(out)
}

/// Writes parameter collections as blocks; a block larger than the 24-bit
/// size field is an error.
pub fn encode_param_blocks(entries: &[ParameterCollection], stream_path: &str) -> (r: Result<Vec<u8>>)
    ensures
        r is Ok <==> forall|i: int|
            0 <= i < entries@.len() ==> ser_params((#[trigger] entries@[i])@).len() + 1
                <= SIZE_FLAG_MASK,
        r matches Ok(b) ==> b@ == enc_param_blocks(collections_view(entries@)),
{
    let ghost ev = collections_view(entries@);
    let mut out: Vec<u8> = Vec::new();
    let mut i: usize = 0;
    while i < entries.len()
        invariant
            i <= entries@.len(),
            ev == collections_view(entries@),
            forall|k: int|
                0 <= k < i ==> ser_params((#[trigger] entries@[k])@).len() + 1 <= SIZE_FLAG_MASK,
            out@ == ev.take(i as int).map_values(
                |p: Seq<(Seq<u8>, Seq<u8>)>| enc_param_block(p),
            ).flatten(),
        decreases entries@.len() - i,
    {
        let mut payload = entries[i].to_bytes();
        payload.push(0);
        if payload.len() > 0x00FF_FFFF {
            let m = block_msg(stream_path, i, " too large: ", payload.len());
            return Err(AltiumError::Parse(text2(m.as_str(), " bytes")));
        }
        push_block(&mut out, 0, payload.as_slice());
        proof {
            let t = ev.take(i as int);
            let x = ev[i as int];
            assert(ev.take(i + 1) =~= t.push(x));
            let h = |p: Seq<(Seq<u8>, Seq<u8>)>| enc_param_block(p);
            assert(t.push(x).map_values(h) =~= t.map_values(h).push(enc_param_block(x)));
            t.map_values(h).lemma_flatten_push(enc_param_block(x));
        }
        i = i + 1;
    }
    assert(ev.take(i as int) =~= ev);
    Ok(out)
}

/// Parameter blocks read back as the collections they were written from.
pub proof fn lemma_param_blocks_roundtrip(es: Seq<Seq<(Seq<u8>, Seq<u8>)>>)
    requires
        param_blocks_writable(es),
    ensures
        spec_param_blocks(enc_param_blocks(es)) == Some(es),
{
    let bs = es.map_values(|p: Seq<(Seq<u8>, Seq<u8>)>| (0u8, ser_params(p).push(NUL)));
    assert(bs.map_values(|b: (u8, Seq<u8>)| enc_block(b)) =~= es.map_values(
        |p: Seq<(Seq<u8>, Seq<u8>)>| enc_param_block(p),
    ));
    assert(blocks_fit(bs)) by {
        assert forall|i: int| 0 <= i < bs.len() implies 0 < (#[trigger] bs[i]).1.len()
            <= SIZE_FLAG_MASK by {
            assert(entries_ok(es[i]));
        }
    }
    lemma_blocks_roundtrip(bs);
    assert forall|i: int| 0 <= i < bs.len() implies (#[trigger] bs[i]).0 == 0
        && spec_decode_param_payload(bs[i].1) is Some by {
        assert(entries_ok(es[i]));
        lemma_decode_serialized(es[i], true);
    }
    assert forall|i: int| 0 <= i < bs.len() implies param_blocks_decoded(bs)[i] == es[i] by {
        assert(entries_ok(es[i]));
        lemma_decode_serialized(es[i], true);
    }
    assert(param_blocks_decoded(bs) =~= es);
}

/// Parse strict typed footprint `WideStrings` stream.
pub fn parse_wide_strings_stream(data: &[u8], stream_path: &str) -> (r: Result<PcbLibWideStringsStreamMeta>)
    ensures
        r is Ok <==> spec_param_blocks(data@) is Some,
        r matches Ok(m) ==> spec_param_blocks(data@) == Some(collections_view(m.entries@)),
{
    let blocks = parse_block_stream(data)?;
    let entries = decode_param_blocks(&blocks, stream_path)?;
    Ok(PcbLibWideStringsStreamMeta { entries })
}

/// Serialize typed `WideStrings` stream bytes.
pub fn serialize_wide_strings_stream(meta: &PcbLibWideStringsStreamMeta, stream_path: &str) -> (r: Result<Vec<u8>>)
    ensures
        r is Ok <==> forall|i: int|
            0 <= i < meta.entries@.len() ==> ser_params((#[trigger] meta.entries@[i])@).len() + 1
                <= SIZE_FLAG_MASK,
        r matches Ok(b) ==> b@ == enc_param_blocks(collections_view(meta.entries@)),
{
    encode_param_blocks(meta.entries.as_slice(), stream_path)
}

// ---------------------------------------------------------------------------
// Parameter tables
// ---------------------------------------------------------------------------

/// The collections of a `Header` + parameter-block `Data` table, or `None`.
pub open spec fn spec_param_table(header: Seq<u8>, data: Seq<u8>) -> Option<
    Seq<Seq<(Seq<u8>, Seq<u8>)>>,
> {
    if header.len() != 4 {
        None
    } else {
        match spec_blocks(data) {
            Some(bs) => if bs.len() == u32_at(header, 0) as int && param_blocks_ok(bs) {
                Some(param_blocks_decoded(bs))
            } else {
                None
            },
            None => None,
        }
    }
}

/// Parse strict typed `Header` + param-block `Data` table streams.
pub fn parse_param_table_stream(header_data: &[u8], data: &[u8], stream_prefix: &str) -> (r: Result<
    PcbLibParamTableStreamMeta,
>)
    ensures
        r is Ok <==> spec_param_table(header_data@, data@) is Some,
        r matches Ok(m) ==> spec_param_table(header_data@, data@) == Some(
            collections_view(m.entries@),
        ),
        header_data@.len() == 4 ==> match spec_blocks(data@) {
            Some(bs) => bs.len() != u32_at(header_data@, 0) ==> (r matches Err(AltiumError::Parse(msg)) && msg@
                == "pcblib stream '"@ + (stream_prefix@ + "/Data"@) + "' has "@ + decimal_text(bs.len())
                + " blocks but header count is "@ + decimal_text(u32_at(header_data@, 0) as nat)),
            None => true,
        },
{
    let header_path = text2(stream_prefix, "/Header");
    let data_path = text2(stream_prefix, "/Data");
    let count = parse_u32_header_stream(header_data, header_path.as_str())?;
    let blocks = parse_block_stream(data)?;
    if blocks.len() as u64 != count as u64 {
        let head = text3("pcblib stream '", data_path.as_str(), "' has ");
        let a = text3(head.as_str(), usize_text(blocks.len()).as_str(), " blocks but header count is ");
        return Err(AltiumError::Parse(text2(a.as_str(), usize_text(count as usize).as_str())));
    }
    let entries = decode_param_blocks(&blocks, data_path.as_str())?;
    Ok(PcbLibParamTableStreamMeta { entries })
}

/// Serialize typed `Header` + param-block `Data` table streams.
pub fn serialize_param_table_stream(meta: &PcbLibParamTableStreamMeta, stream_prefix: &str) -> (r: Result<
    (Vec<u8>, Vec<u8>),
>)
    ensures
        r is Ok <==> meta.entries@.len() <= u32::MAX && forall|i: int|
            0 <= i < meta.entries@.len() ==> ser_params((#[trigger] meta.entries@[i])@).len() + 1
                <= SIZE_FLAG_MASK,
        r matches Ok((h, d)) ==> h@ == le32(meta.entries@.len() as u32) && d@ == enc_param_blocks(
            collections_view(meta.entries@),
        ),
{
    if meta.entries.len() > 4294967295 {
        let head = text3("pcblib stream '", stream_prefix, "' entry count too large: ");
        return Err(AltiumError::Parse(text2(head.as_str(), usize_text(meta.entries.len()).as_str())));
    }
    let count = meta.entries.len() as u32;
    let data_path = text2(stream_prefix, "/Data");
    let data = encode_param_blocks(meta.entries.as_slice(), data_path.as_str())?;
    let mut header: Vec<u8> = Vec::new();
    push_u32_le(&mut header, count);
    assert(header@ =~= le32(count));
    Ok((header, data))
}

/// A written table reads back as its collections.
pub proof fn lemma_param_table_roundtrip(es: Seq<Seq<(Seq<u8>, Seq<u8>)>>)
    requires
        param_blocks_writable(es),
        es.len() <= u32::MAX,
    ensures
        spec_param_table(le32(es.len() as u32), enc_param_blocks(es)) == Some(es),
{
    lemma_param_blocks_roundtrip(es);
    lemma_le32(es.len() as u32);
    assert(le32(es.len() as u32).subrange(0, 4) =~= le32(es.len() as u32));
    let bs = spec_blocks(enc_param_blocks(es)).unwrap();
    assert(param_blocks_decoded(bs).len() == bs.len());
}

// ---------------------------------------------------------------------------
// Primitive GUID tables
// ---------------------------------------------------------------------------

/// One 24-byte row: tag, index, 16 GUID bytes.
pub open spec fn enc_guid_row(e: (u32, u32, Seq<u8>)) -> Seq<u8> {
    le32(e.0) + le32(e.1) + e.2
}

pub open spec fn enc_guid_rows(es: Seq<(u32, u32, Seq<u8>)>) -> Seq<u8> {
    es.map_values(|e: (u32, u32, Seq<u8>)| enc_guid_row(e)).flatten()
}

pub open spec fn guid_row_at(data: Seq<u8>, i: int) -> (u32, u32, Seq<u8>) {
    (u32_at(data, 24 * i), u32_at(data, 24 * i + 4), data.subrange(24 * i + 8, 24 * i + 24))
}

/// The rows of a `PrimitiveGuids` table, or `None` when the data size does
/// not match the header count.
pub open spec fn spec_guid_table(header: Seq<u8>, data: Seq<u8>) -> Option<
    Seq<(u32, u32, Seq<u8>)>,
> {
    if header.len() != 4 {
        None
    } else {
        let c = u32_at(header, 0) as int;
        if data.len() != c * 24 {
            None
        } else {
            Some(Seq::new(c as nat, |i: int| guid_row_at(data, i)))
        }
    }
}

pub open spec fn guid_entries_view(v: Seq<PcbLibPrimitiveGuidEntry>) -> Seq<(u32, u32, Seq<u8>)> {
    v.map_values(|e: PcbLibPrimitiveGuidEntry| (e.tag, e.index, e.guid@))
}

/// Parse strict typed `PrimitiveGuids/{Header,Data}` streams.
pub fn parse_primitive_guids_stream(header_data: &[u8], data: &[u8], stream_prefix: &str) -> (r: Result<
    PcbLibPrimitiveGuidsStreamMeta,
>)
    ensures
        r is Ok <==> spec_guid_table(header_data@, data@) is Some,
        r matches Ok(m) ==> spec_guid_table(header_data@, data@) == Some(
            guid_entries_view(m.entries@),
        ),
        header_data@.len() == 4 && data@.len() != u32_at(header_data@, 0) * 24 && u32_at(header_data@, 0) * 24
            <= usize::MAX ==> (r matches Err(AltiumError::Parse(msg)) && msg@ == "pcblib stream '"@ + (stream_prefix@
            + "/Data"@) + "' expected "@ + decimal_text(
            (u32_at(header_data@, 0) * 24) as nat,
        ) + " bytes for "@ + decimal_text(u32_at(header_data@, 0) as nat) + " entries, got "@ + decimal_text(
            data@.len(),
        )),
{
    let header_path = text2(stream_prefix, "/Header");
    let data_path = text2(stream_prefix, "/Data");
    let count32 = parse_u32_header_stream(header_data, header_path.as_str())?;
    let count = count32 as usize;
    let expected = match count.checked_mul(24) {
        Some(e) => e,
        None => {
            let n = data.len();
            assert(data@.len() != count * 24);
            let head = text3("pcblib stream '", data_path.as_str(), "' entry count overflow: ");
            return Err(AltiumError::Parse(text2(head.as_str(), usize_text(count).as_str())));
        },
    };
    if data.len() != expected {
        let head = text3("pcblib stream '", data_path.as_str(), "' expected ");
        let a = text3(head.as_str(), usize_text(expected).as_str(), " bytes for ");
        let b = text3(a.as_str(), usize_text(count).as_str(), " entries, got ");
        return Err(AltiumError::Parse(text2(b.as_str(), usize_text(data.len()).as_str())));
    }
    let mut entries: Vec<PcbLibPrimitiveGuidEntry> = Vec::new();
    let mut i: usize = 0;
    while i < count
        invariant
            i <= count,
            count == u32_at(header_data@, 0),
            data@.len() == count * 24,
            expected == count * 24,
            entries@.len() == i,
            forall|k: int|
                0 <= k < i ==> (#[trigger] entries@[k]).tag == guid_row_at(data@, k).0
                    && entries@[k].index == guid_row_at(data@, k).1 && entries@[k].guid@
                    == guid_row_at(data@, k).2,
        decreases count - i,
    {
        let off = i * 24;
        let tag = read_u32_le(data, off);
        let index = read_u32_le(data, off + 4);
        let guid = copy_range(data, off + 8, off + 24);
        entries.push(PcbLibPrimitiveGuidEntry { tag, index, guid });
        i = i + 1;
    }
    assert(guid_entries_view(entries@) =~= Seq::new(
        count as nat,
        |k: int| guid_row_at(data@, k),
    ));
    Ok(PcbLibPrimitiveGuidsStreamMeta { entries })
}

/// Serialize typed `PrimitiveGuids/{Header,Data}` streams; a GUID that is not
/// 16 bytes long, or more than `u32::MAX` rows, is an error.
pub fn serialize_primitive_guids_stream(meta: &PcbLibPrimitiveGuidsStreamMeta) -> (r: Result<
    (Vec<u8>, Vec<u8>),
>)
    ensures
        r is Ok <==> meta.entries@.len() <= u32::MAX && forall|i: int|
            0 <= i < meta.entries@.len() ==> (#[trigger] meta.entries@[i]).guid@.len() == 16,
        r matches Ok((h, d)) ==> h@ == le32(meta.entries@.len() as u32) && d@ == enc_guid_rows(
            guid_entries_view(meta.entries@),
        ),
{
    if meta.entries.len() > 4294967295 {
        return Err(AltiumError::Parse(text("pcblib PrimitiveGuids entry count too large")));
    }
    let ghost ev = guid_entries_view(meta.entries@);
    let mut data: Vec<u8> = Vec::new();
    let mut i: usize = 0;
    while i < meta.entries.len()
        invariant
            i <= meta.entries@.len(),
            ev == guid_entries_view(meta.entries@),
            forall|k: int| 0 <= k < i ==> (#[trigger] meta.entries@[k]).guid@.len() == 16,
            data@ == ev.take(i as int).map_values(
                |e: (u32, u32, Seq<u8>)| enc_guid_row(e),
            ).flatten(),
        decreases meta.entries@.len() - i,
    {
        let e = &meta.entries[i];
        if e.guid.len() != 16 {
            return Err(AltiumError::Parse(text("pcblib PrimitiveGuids guid must be 16 bytes")));
        }
        let ghost before = data@;
        push_u32_le(&mut data, e.tag);
        push_u32_le(&mut data, e.index);
        append_bytes(&mut data, e.guid.as_slice());
        proof {
            let t = ev.take(i as int);
            let x = ev[i as int];
            assert(ev.take(i + 1) =~= t.push(x));
            let h = |e: (u32, u32, Seq<u8>)| enc_guid_row(e);
            assert(t.push(x).map_values(h) =~= t.map_values(h).push(enc_guid_row(x)));
            t.map_values(h).lemma_flatten_push(enc_guid_row(x));
            assert(data@ =~= before + enc_guid_row(x));
        }
        i = i + 1;
    }
    assert(ev.take(i as int) =~= ev);
    let mut header: Vec<u8> = Vec::new();
    push_u32_le(&mut header, meta.entries.len() as u32);
    assert(header@ =~= le32(meta.entries@.len() as u32));
    Ok((header, data))
}

/// Rows of equal width: the flattening has the summed length and row `i`
/// sits at `24 * i`.
pub proof fn lemma_flatten_rows(m: Seq<Seq<u8>>)
    requires
        forall|i: int| 0 <= i < m.len() ==> (#[trigger] m[i]).len() == 24,
    ensures
        m.flatten().len() == 24 * m.len(),
        forall|i: int|
            0 <= i < m.len() ==> #[trigger] m.flatten().subrange(24 * i, 24 * i + 24) == m[i],
    decreases m.len(),
{
    if m.len() > 0 {
        let rest = m.drop_first();
        assert forall|i: int| 0 <= i < rest.len() implies (#[trigger] rest[i]).len() == 24 by {
            assert(rest[i] == m[i + 1]);
        }
        lemma_flatten_rows(rest);
        let f = m.flatten();
        assert(f == m[0] + rest.flatten());
        assert forall|i: int| 0 <= i < m.len() implies #[trigger] f.subrange(24 * i, 24 * i + 24)
            == m[i] by {
            if i == 0 {
                assert(f.subrange(0, 24) =~= m[0]);
            } else {
                assert(rest[i - 1] == m[i]);
                assert(rest.flatten().subrange(24 * (i - 1), 24 * (i - 1) + 24) == rest[i - 1]);
                assert(f.subrange(24 * i, 24 * i + 24) =~= rest.flatten().subrange(
                    24 * (i - 1),
                    24 * (i - 1) + 24,
                ));
            }
        }
    }
}

/// A written GUID table reads back as its rows.
pub proof fn lemma_guid_table_roundtrip(es: Seq<(u32, u32, Seq<u8>)>)
    requires
        es.len() <= u32::MAX,
        forall|i: int| 0 <= i < es.len() ==> (#[trigger] es[i]).2.len() == 16,
    ensures
        spec_guid_table(le32(es.len() as u32), enc_guid_rows(es)) == Some(es),
{
    let m = es.map_values(|e: (u32, u32, Seq<u8>)| enc_guid_row(e));
    assert forall|i: int| 0 <= i < m.len() implies (#[trigger] m[i]).len() == 24 by {
        lemma_le32(es[i].0);
        lemma_le32(es[i].1);
    }
    lemma_flatten_rows(m);
    lemma_le32(es.len() as u32);
    assert(le32(es.len() as u32).subrange(0, 4) =~= le32(es.len() as u32));
    let d = enc_guid_rows(es);
    assert forall|i: int| 0 <= i < es.len() implies guid_row_at(d, i) == es[i] by {
        let row = d.subrange(24 * i, 24 * i + 24);
        assert(row == m[i]);
        lemma_le32(es[i].0);
        lemma_le32(es[i].1);
        assert(d.subrange(24 * i, 24 * i + 4) =~= row.subrange(0, 4));
        assert(row.subrange(0, 4) =~= le32(es[i].0));
        assert(d.subrange(24 * i + 4, 24 * i + 8) =~= row.subrange(4, 8));
        assert(row.subrange(4, 8) =~= le32(es[i].1));
        assert(d.subrange(24 * i + 8, 24 * i + 24) =~= row.subrange(8, 24));
        assert(row.subrange(8, 24) =~= es[i].2);
    }
    assert(Seq::new(es.len() as nat, |i: int| guid_row_at(d, i)) =~= es);
}

/// Typed metadata for a PcbLib `/FileHeader` stream. The version is the
/// binary format's `f64`, kept as its bit pattern (`f64::to_bits`).
#[derive(Clone, Debug)]
pub struct PcbLibFileHeaderStreamMeta {
    /// Header text string.
    pub header_text: String,
    /// Bit pattern of the binary format version number.
    pub file_version_bits: u64,
    /// Key token.
    pub key: String,
}

/// The version and key of a `/FileHeader` read from `start`: eight version
/// bytes, then the key as a `u32` length, a length byte and the key bytes,
/// ending the stream.
pub open spec fn version_and_key(d: Seq<u8>, start: int) -> core::result::Result<(u64, Seq<u8>), Seq<char>> {
    if start + 8 > d.len() {
        Err("pcblib FileHeader is truncated before version"@)
    } else if start + 8 + 5 > d.len() {
        Err("pcblib FileHeader is truncated before key length"@)
    } else {
        let p = start + 8;
        let kb = u32_at(d, p);
        let kl = d[p + 4];
        if kb == 0 || kb != kl as u32 {
            Err(
                "pcblib FileHeader has invalid key length block="@ + decimal_text(kb as nat) + " len="@ + decimal_text(
                    kl as nat,
                ),
            )
        } else if p + 5 + kl != d.len() {
            Err("pcblib FileHeader has unexpected trailing bytes"@)
        } else {
            Ok((spec_u64_from_le_bytes(d.subrange(start, start + 8)), d.subrange(p + 5, p + 5 + kl)))
        }
    }
}

/// The header bytes, version bits and key bytes of a `/FileHeader` stream,
/// or the message of the check it fails. The header is a `u32` length, a
/// length byte and the header bytes; the version and key follow, either
/// directly or, in older files, after a 0x0A byte.
pub open spec fn file_header_fields(d: Seq<u8>) -> core::result::Result<(Seq<u8>, u64, Seq<u8>), Seq<char>> {
    if d.len() < 19 {
        Err("pcblib FileHeader stream is truncated"@)
    } else {
        let hb = u32_at(d, 0);
        let hl = d[4];
        if hb == 0 || hb != hl as u32 {
            Err(
                "pcblib FileHeader has invalid header length block="@ + decimal_text(hb as nat) + " len="@
                    + decimal_text(hl as nat),
            )
        } else if 5 + hl > d.len() {
            Err("pcblib FileHeader overflows while reading header text"@)
        } else {
            let pos = 5 + hl;
            let vk = if pos < d.len() && d[pos] == 0x0A {
                match version_and_key(d, pos + 1) {
                    Ok(x) => Ok(x),
                    Err(_) => version_and_key(d, pos),
                }
            } else {
                version_and_key(d, pos)
            };
            match vk {
                Ok((v, k)) => Ok((d.subrange(5, pos), v, k)),
                Err(m) => Err(m),
            }
        }
    }
}

/// The bytes of a `/FileHeader` stream with the given header bytes,
/// version bits and key bytes.
pub open spec fn file_header_bytes(h: Seq<u8>, v: u64, k: Seq<u8>) -> Seq<u8> {
    le32(h.len() as u32) + seq![h.len() as u8] + h + spec_u64_to_le_bytes(v) + le32(k.len() as u32) + seq![
        k.len() as u8,
    ] + k
}

/// A message with two numbers: `a` then the first, `b` then the second.
fn two_numbers_message(a: &str, x: usize, b: &str, y: usize) -> (r: String)
    ensures
        r@ == a@ + decimal_text(x as nat) + b@ + decimal_text(y as nat),
{
    let xs = usize_text(x);
    let ys = usize_text(y);
    let head = text3(a, xs.as_str(), b);
    text2(head.as_str(), ys.as_str())
}

/// Reads the version and key of a `/FileHeader` from `start`.
fn parse_version_and_key(data: &[u8], start: usize) -> (r: Result<(u64, String)>)
    requires
        start <= data@.len(),
    ensures
        match version_and_key(data@, start as int) {
            Ok((v, k)) => r matches Ok((rv, rk)) && rv == v && rk@ == utf8_lossy(k) && (vstd::utf8::valid_utf8(k)
                ==> rk@ == vstd::utf8::decode_utf8(k)),
            Err(m) => r matches Err(AltiumError::Parse(e)) && e@ == m,
        },
{
    let n = data.len();
    if start > n || n - start < 8 {
        return Err(AltiumError::Parse(text("pcblib FileHeader is truncated before version")));
    }
    let p = start + 8;
    if n - p < 5 {
        return Err(AltiumError::Parse(text("pcblib FileHeader is truncated before key length")));
    }
    let version = u64_from_le_bytes(slice_subrange(data, start, p));
    let kb = read_u32_le(data, p);
    let kl = data[p + 4];
    if kb == 0 || kb != kl as u32 {
        return Err(
            AltiumError::Parse(
                two_numbers_message("pcblib FileHeader has invalid key length block=", kb as usize, " len=", kl as usize),
            ),
        );
    }
    if n - (p + 5) != kl as usize {
        return Err(AltiumError::Parse(text("pcblib FileHeader has unexpected trailing bytes")));
    }
    let key = text_from_utf8(slice_subrange(data, p + 5, p + 5 + kl as usize));
    Ok((version, key))
}

/// Parses a `/FileHeader` stream.
pub fn parse_file_header_stream(data: &[u8]) -> (r: Result<PcbLibFileHeaderStreamMeta>)
    ensures
        match file_header_fields(data@) {
            Ok((h, v, k)) => r matches Ok(m) && m.header_text@ == utf8_lossy(h) && m.file_version_bits == v && m.key@
                == utf8_lossy(k) && (vstd::utf8::valid_utf8(h) ==> m.header_text@ == vstd::utf8::decode_utf8(h)) && (
            vstd::utf8::valid_utf8(k) ==> m.key@ == vstd::utf8::decode_utf8(k)),
            Err(msg) => r matches Err(AltiumError::Parse(e)) && e@ == msg,
        },
{
    let n = data.len();
    if n < 19 {
        return Err(AltiumError::Parse(text("pcblib FileHeader stream is truncated")));
    }
    let hb = read_u32_le(data, 0);
    let hl = data[4];
    if hb == 0 || hb != hl as u32 {
        return Err(
            AltiumError::Parse(
                two_numbers_message("pcblib FileHeader has invalid header length block=", hb as usize, " len=", hl as usize),
            ),
        );
    }
    let pos = 5 + hl as usize;
    if pos > n {
        return Err(AltiumError::Parse(text("pcblib FileHeader overflows while reading header text")));
    }
    let header_text = text_from_utf8(slice_subrange(data, 5, pos));
    let vk = if pos < n && data[pos] == 0x0A {
        match parse_version_and_key(data, pos + 1) {
            Ok(x) => Ok(x),
            Err(_) => parse_version_and_key(data, pos),
        }
    } else {
        parse_version_and_key(data, pos)
    };
    match vk {
        Ok((file_version_bits, key)) => Ok(PcbLibFileHeaderStreamMeta { header_text, file_version_bits, key }),
        Err(e) => Err(e),
    }
}

impl PcbLibFileHeaderStreamMeta {
    /// The default header: "PCB 6.0 Binary Library File", version 5.01,
    /// key "AAAAAAAA".
    pub fn new_default() -> (r: Self)
        ensures
            r.header_text@ == "PCB 6.0 Binary Library File"@,
            r.file_version_bits == 0x4014_0A3D_70A3_D70Au64,
            r.key@ == "AAAAAAAA"@,
    {
        PcbLibFileHeaderStreamMeta {
            header_text: text("PCB 6.0 Binary Library File"),
            file_version_bits: 0x4014_0A3D_70A3_D70Au64,
            key: text("AAAAAAAA"),
        }
    }

    /// The `/FileHeader` stream bytes: header and key encoded as
    /// Windows-1252, each at most 255 bytes.
    pub fn to_stream_bytes(&self) -> (r: Result<Vec<u8>>)
        ensures
            ({
                let h = win1252_encoded(self.header_text@);
                let k = win1252_encoded(self.key@);
                if h.len() > 255 {
                    r matches Err(AltiumError::Parse(e)) && e@ == "pcblib FileHeader header text too long: "@ + decimal_text(
                        h.len(),
                    ) + " bytes"@
                } else if k.len() > 255 {
                    r matches Err(AltiumError::Parse(e)) && e@ == "pcblib FileHeader key too long: "@ + decimal_text(
                        k.len(),
                    ) + " bytes"@
                } else {
                    r matches Ok(b) && b@ == file_header_bytes(h, self.file_version_bits, k)
                }
            }),
            vstd::utf8::is_ascii_chars(self.header_text@) && vstd::utf8::is_ascii_chars(self.key@) ==> (
            (r matches Ok(b) ==> b@ == file_header_bytes(
                vstd::utf8::encode_utf8(self.header_text@),
                self.file_version_bits,
                vstd::utf8::encode_utf8(self.key@),
            )) && (vstd::utf8::encode_utf8(self.header_text@).len() <= 255 && vstd::utf8::encode_utf8(self.key@).len()
                <= 255 ==> r is Ok)),
    {
        let header_bytes = encode_win1252(self.header_text.as_str());
        if header_bytes.len() > 255 {
            let n = usize_text(header_bytes.len());
            return Err(AltiumError::Parse(text3("pcblib FileHeader header text too long: ", n.as_str(), " bytes")));
        }
        let key_bytes = encode_win1252(self.key.as_str());
        if key_bytes.len() > 255 {
            let n = usize_text(key_bytes.len());
            return Err(AltiumError::Parse(text3("pcblib FileHeader key too long: ", n.as_str(), " bytes")));
        }
        let mut out: Vec<u8> = Vec::new();
        push_u32_le(&mut out, header_bytes.len() as u32);
        out.push(header_bytes.len() as u8);
        append_bytes(&mut out, header_bytes.as_slice());
        let vb = u64_to_le_bytes(self.file_version_bits);
        append_bytes(&mut out, vb.as_slice());
        push_u32_le(&mut out, key_bytes.len() as u32);
        out.push(key_bytes.len() as u8);
        append_bytes(&mut out, key_bytes.as_slice());
        proof {
            assert(out@ =~= file_header_bytes(header_bytes@, self.file_version_bits, key_bytes@));
        }
        Ok(out)
    }
}

/// A `/FileHeader` stream written from header bytes, version bits and key
/// bytes of 1 to 255 bytes each reads back as the same fields.
pub proof fn lemma_file_header_roundtrip(h: Seq<u8>, v: u64, k: Seq<u8>)
    requires
        1 <= h.len() <= 255,
        1 <= k.len() <= 255,
    ensures
        file_header_fields(file_header_bytes(h, v, k)) == Ok::<(Seq<u8>, u64, Seq<u8>), Seq<char>>((h, v, k)),
{
    vstd::bytes::lemma_auto_spec_u64_to_from_le_bytes();
    lemma_le32(h.len() as u32);
    lemma_le32(k.len() as u32);
    let vb = spec_u64_to_le_bytes(v);
    let d = file_header_bytes(h, v, k);
    let hl = h.len() as int;
    let kl = k.len() as int;
    assert(vb.len() == 8);
    assert(d.len() == 18 + hl + kl);
    let rest0 = seq![h.len() as u8] + h + vb + le32(k.len() as u32) + seq![k.len() as u8] + k;
    assert(d =~= Seq::<u8>::empty() + le32(h.len() as u32) + rest0);
    lemma_u32_at_prefix(h.len() as u32, Seq::<u8>::empty(), rest0);
    assert(d[4] == h.len() as u8);
    let pos = 5 + hl;
    assert(d.subrange(5, pos) =~= h);
    assert(d[pos] == vb[0]);
    let pre = le32(h.len() as u32) + seq![h.len() as u8] + h + vb;
    let rest1 = seq![k.len() as u8] + k;
    assert(d =~= pre + le32(k.len() as u32) + rest1);
    lemma_u32_at_prefix(k.len() as u32, pre, rest1);
    assert(pre.len() == pos + 8);
    assert(d[pos + 8 + 4] == k.len() as u8);
    assert(d.subrange(pos, pos + 8) =~= vb);
    assert(d.subrange(pos + 13, pos + 13 + kl) =~= k);
    assert(version_and_key(d, pos) == Ok::<(u64, Seq<u8>), Seq<char>>((v, k)));
    // Read one byte later, the key length lands in the top byte of the
    // length word, which then exceeds any length byte.
    let x = k.len() as u32;
    let kb = u32_at(d, pos + 9);
    assert(d[pos + 9] == le32(x)[1] && d[pos + 10] == le32(x)[2] && d[pos + 11] == le32(x)[3] && d[pos + 12] == x as u8);
    assert(u32_of(((x >> 8u32) & 0xffu32) as u8, ((x >> 16u32) & 0xffu32) as u8, ((x >> 24u32) & 0xffu32) as u8, x as u8)
        >= 0x0100_0000u32) by (bit_vector)
        requires
            1u32 <= x <= 255u32,
    ;
    assert(kb >= 0x0100_0000u32);
    assert(version_and_key(d, pos + 1) is Err);
}


/// A `/FileHeader` written from header text and key of 1 to 255 ASCII
/// characters reads back as the same text, version bits and key.
pub proof fn lemma_file_header_text_roundtrip(h: Seq<char>, v: u64, k: Seq<char>)
    requires
        vstd::utf8::is_ascii_chars(h),
        vstd::utf8::is_ascii_chars(k),
        1 <= h.len() <= 255,
        1 <= k.len() <= 255,
    ensures
        file_header_fields(file_header_bytes(vstd::utf8::encode_utf8(h), v, vstd::utf8::encode_utf8(k)))
            == Ok::<(Seq<u8>, u64, Seq<u8>), Seq<char>>(
            (vstd::utf8::encode_utf8(h), v, vstd::utf8::encode_utf8(k)),
        ),
        vstd::utf8::valid_utf8(vstd::utf8::encode_utf8(h)),
        vstd::utf8::decode_utf8(vstd::utf8::encode_utf8(h)) == h,
        vstd::utf8::valid_utf8(vstd::utf8::encode_utf8(k)),
        vstd::utf8::decode_utf8(vstd::utf8::encode_utf8(k)) == k,
{
    vstd::utf8::is_ascii_chars_encode_utf8(h);
    vstd::utf8::is_ascii_chars_encode_utf8(k);
    vstd::utf8::encode_utf8_valid_utf8(h);
    vstd::utf8::encode_utf8_valid_utf8(k);
    vstd::utf8::encode_utf8_decode_utf8(h);
    vstd::utf8::encode_utf8_decode_utf8(k);
    lemma_file_header_roundtrip(vstd::utf8::encode_utf8(h), v, vstd::utf8::encode_utf8(k));
}

} // verus!
