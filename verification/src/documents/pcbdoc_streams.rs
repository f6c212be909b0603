//! Typed PcbDoc stream metadata and strict stream codecs.
use vstd::prelude::*;
use vstd::string::StringSliceAdditionalSpecFns;

use crate::documents::blocks::{
    decode_param_payload, enc_prefixed, enc_prefixed_all, enc_sized, enc_sized_all,
    lemma_decode_serialized, lemma_prefixed_roundtrip, lemma_sized_roundtrip,
    parse_prefixed_records, parse_sized_records, push_prefixed, push_sized, spec_decode_param_payload,
    spec_prefixed_from, spec_sized_from, PrefixedPayload,
};
use crate::error::{text, AltiumError, Result};
use crate::params::{entries_ok, lower, ser_params, ParameterCollection};
use crate::wire::{le32, lemma_le32, read_u32_le, u32_at};

verus! {

/// Identifies a record held in a document.
#[derive(Clone, Copy, Debug, PartialEq, Eq, Structural, Hash)]
pub struct RecordId(pub usize);

/// Typed metadata for one primitive section (`Tracks6`, `Pads6`, ...).
#[derive(Clone, Debug)]
pub struct PcbDocPrimitiveSectionMeta {
    pub object_id: u8,
    pub header_count: u32,
    pub record_ids: Vec<RecordId>,
}

/// Typed metadata for a parameter-block section (`Board6`, `Nets6`, ...).
#[derive(Clone, Debug)]
pub struct PcbDocParamSectionMeta {
    pub header_count: u32,
    pub entries: Vec<ParameterCollection>,
}

/// One prefixed parameter entry (`Rules6`, `Dimensions6`, ...).
#[derive(Clone, Debug)]
pub struct PcbDocPrefixedParamEntry {
    /// 2-byte prefix that appears before each parameter block.
    pub prefix: u16,
    pub params: ParameterCollection,
}

/// Typed metadata for prefixed parameter sections.
#[derive(Clone, Debug)]
pub struct PcbDocPrefixedParamSectionMeta {
    pub header_count: u32,
    pub entries: Vec<PcbDocPrefixedParamEntry>,
}

/// Typed metadata for counted raw sections where payload stays binary.
#[derive(Clone, Debug)]
pub struct PcbDocRawSectionMeta {
    pub header_count: u32,
    pub data: Vec<u8>,
}

/// One numbered model blob (`Models/<N>`).
#[derive(Clone, Debug)]
pub struct PcbDocModelEntry {
    pub index: u32,
    pub data: Vec<u8>,
}

/// Typed metadata for `Models/{Header,Data,<N>}`.
#[derive(Clone, Debug)]
pub struct PcbDocModelsSectionMeta {
    pub header_count: u32,
    pub data: Vec<u8>,
    pub entries: Vec<PcbDocModelEntry>,
}

/// Typed metadata for one `Section/Header` + `Section/Data` pair.
#[derive(Clone, Debug)]
pub enum PcbDocSectionMeta {
    Primitive(PcbDocPrimitiveSectionMeta),
    Param(PcbDocParamSectionMeta),
    PrefixedParam(PcbDocPrefixedParamSectionMeta),
    Raw(PcbDocRawSectionMeta),
    Models(PcbDocModelsSectionMeta),
}

/// The header count of a section.
pub open spec fn section_header_count(m: PcbDocSectionMeta) -> u32 {
    match m {
        PcbDocSectionMeta::Primitive(p) => p.header_count,
        PcbDocSectionMeta::Param(p) => p.header_count,
        PcbDocSectionMeta::PrefixedParam(p) => p.header_count,
        PcbDocSectionMeta::Raw(p) => p.header_count,
        PcbDocSectionMeta::Models(p) => p.header_count,
    }
}

impl PcbDocSectionMeta {
    /// Returns the header count this section will emit on save.
    pub fn header_count(&self) -> (r: u32)
        ensures
            r == section_header_count(*self),
    {
        match self {
            PcbDocSectionMeta::Primitive(m) => m.header_count,
            PcbDocSectionMeta::Param(m) => m.header_count,
            PcbDocSectionMeta::PrefixedParam(m) => m.header_count,
            PcbDocSectionMeta::Raw(m) => m.header_count,
            PcbDocSectionMeta::Models(m) => m.header_count,
        }
    }
}

/// One named section of a PcbDoc.
#[derive(Clone, Debug)]
pub struct PcbDocSection {
    /// Storage name (`Board6`, `Tracks6`, ...).
    pub name: Vec<u8>,
    pub meta: PcbDocSectionMeta,
}

/// Top-level typed PcbDoc non-record metadata.
#[derive(Clone, Debug)]
pub struct PcbDocStreamsMeta {
    /// Root `FileHeader` stream bytes.
    pub file_header: Vec<u8>,
    /// Optional root `FileHeaderSix` stream bytes.
    pub file_header_six: Option<Vec<u8>>,
    /// Typed section metadata with the section storage names, in name order.
    pub sections: Vec<PcbDocSection>,
}

impl PcbDocStreamsMeta {
    /// Metadata with no file header and no sections.
    pub fn new() -> (r: Self)
        ensures
            r.file_header@.len() == 0,
            r.file_header_six is None,
            r.sections@.len() == 0,
    {
        PcbDocStreamsMeta { file_header: Vec::new(), file_header_six: None, sections: Vec::new() }
    }
}

/// Known section kinds.
#[derive(Clone, Copy, Debug, PartialEq, Eq, Structural)]
pub enum PcbDocSectionKind {
    Primitive { object_id: u8 },
    Param,
    PrefixedParam,
    Raw,
    Models,
}

/// ASCII lower-casing of a byte string.
pub open spec fn lower_seq(s: Seq<u8>) -> Seq<u8> {
    s.map_values(|b: u8| lower(b))
}

/// The kind of a section storage name, compared case-insensitively.
pub open spec fn spec_section_kind(name: Seq<u8>) -> Option<PcbDocSectionKind> {
    let l = lower_seq(name);
    if l == "arcs6".spec_bytes() {
        Some(PcbDocSectionKind::Primitive { object_id: 1 })
    } else if l == "pads6".spec_bytes() {
        Some(PcbDocSectionKind::Primitive { object_id: 2 })
    } else if l == "vias6".spec_bytes() {
        Some(PcbDocSectionKind::Primitive { object_id: 3 })
    } else if l == "tracks6".spec_bytes() {
        Some(PcbDocSectionKind::Primitive { object_id: 4 })
    } else if l == "texts6".spec_bytes() || l == "texts".spec_bytes() {
        Some(PcbDocSectionKind::Primitive { object_id: 5 })
    } else if l == "fills6".spec_bytes() {
        Some(PcbDocSectionKind::Primitive { object_id: 6 })
    } else if l == "connections6".spec_bytes() {
        Some(PcbDocSectionKind::Primitive { object_id: 7 })
    } else if l == "regions6".spec_bytes() || l == "shapebasedregions6".spec_bytes() || l
        == "splitplaneregions6".spec_bytes() || l == "boardregions".spec_bytes() {
        Some(PcbDocSectionKind::Primitive { object_id: 11 })
    } else if l == "componentbodies6".spec_bytes() || l == "shapebasedcomponentbodies6".spec_bytes() {
        Some(PcbDocSectionKind::Primitive { object_id: 12 })
    } else if is_param_section_name(l) {
        Some(PcbDocSectionKind::Param)
    } else if l == "rules6".spec_bytes() || l == "newrules6".spec_bytes() || l
        == "dimensions6".spec_bytes() || l == "coordinates6".spec_bytes() {
        Some(PcbDocSectionKind::PrefixedParam)
    } else if is_raw_section_name(l) {
        Some(PcbDocSectionKind::Raw)
    } else if l == "models".spec_bytes() {
        Some(PcbDocSectionKind::Models)
    } else {
        None
    }
}

/// Lower-case names of the parameter-block sections.
pub open spec fn is_param_section_name(l: Seq<u8>) -> bool {
    l == "advanced placer options6".spec_bytes() || l == "advanced router options6".spec_bytes()
        || l == "board6".spec_bytes() || l == "classes6".spec_bytes() || l
        == "components6".spec_bytes() || l == "design rule checker options6".spec_bytes() || l
        == "differentialpairs6".spec_bytes() || l == "embeddedboards6".spec_bytes() || l
        == "embeddeds6".spec_bytes() || l == "extendedprimitiveinformation".spec_bytes() || l
        == "fromtos6".spec_bytes() || l == "nets6".spec_bytes() || l
        == "padvialibrary".spec_bytes() || l == "padvialibrarycache".spec_bytes() || l
        == "padvialibrarylinks".spec_bytes() || l == "pin swap options6".spec_bytes() || l
        == "pinpairssection".spec_bytes() || l == "polygons6".spec_bytes() || l
        == "primitiveparameters".spec_bytes() || l == "signalclasses".spec_bytes() || l
        == "smartunions".spec_bytes() || l == "unionrelations".spec_bytes() || l
        == "uniqueidprimitiveinformation".spec_bytes() || l == "waivedviolations".spec_bytes()
}

/// Lower-case names of the counted raw sections.
pub open spec fn is_raw_section_name(l: Seq<u8>) -> bool {
    l == "embeddedfonts6".spec_bytes() || l == "fileversioninfo".spec_bytes() || l
        == "layerkindmapping".spec_bytes() || l == "modelsnoembed".spec_bytes() || l
        == "primitiveguids".spec_bytes() || l == "textures".spec_bytes() || l
        == "unionnames".spec_bytes() || l == "widestrings6".spec_bytes() || l
        == "constraintmanager".spec_bytes()
}

/// Exact byte-string equality.
pub fn bytes_equal(a: &[u8], b: &[u8]) -> (r: bool)
    ensures
        r == (a@ == b@),
{
    if a.len() != b.len() {
        return false;
    }
    let mut i: usize = 0;
    while i < a.len()
        invariant
            a@.len() == b@.len(),
            i <= a@.len(),
            forall|k: int| 0 <= k < i ==> a@[k] == b@[k],
        decreases a@.len() - i,
    {
        if a[i] != b[i] {
            return false;
        }
        i = i + 1;
    }
    assert(a@ =~= b@);
    true
}

/// ASCII lower-cased copy.
pub fn to_ascii_lower(s: &[u8]) -> (r: Vec<u8>)
    ensures
        r@ == lower_seq(s@),
{
    let mut out: Vec<u8> = Vec::new();
    let mut i: usize = 0;
    while i < s.len()
        invariant
            i <= s@.len(),
            out@ == lower_seq(s@.take(i as int)),
        decreases s@.len() - i,
    {
        let b = s[i];
        let l = if 65 <= b && b <= 90 { b + 32 } else { b };
        out.push(l);
        assert(lower_seq(s@.take(i + 1)) =~= lower_seq(s@.take(i as int)).push(lower(b)));
        i = i + 1;
    }
    assert(s@.take(i as int) =~= s@);
    out
}

fn is_lit(l: &[u8], lit: &str) -> (r: bool)
    ensures
        r == (l@ == lit.spec_bytes()),
{
    bytes_equal(l, lit.as_bytes())
}

fn is_param_section_exec(l: &[u8]) -> (r: bool)
    ensures
        r == is_param_section_name(l@),
{
    is_lit(l, "advanced placer options6") || is_lit(l, "advanced router options6") || is_lit(
        l,
        "board6",
    ) || is_lit(l, "classes6") || is_lit(l, "components6") || is_lit(
        l,
        "design rule checker options6",
    ) || is_lit(l, "differentialpairs6") || is_lit(l, "embeddedboards6") || is_lit(
        l,
        "embeddeds6",
    ) || is_lit(l, "extendedprimitiveinformation") || is_lit(l, "fromtos6") || is_lit(
        l,
        "nets6",
    ) || is_lit(l, "padvialibrary") || is_lit(l, "padvialibrarycache") || is_lit(
        l,
        "padvialibrarylinks",
    ) || is_lit(l, "pin swap options6") || is_lit(l, "pinpairssection") || is_lit(
        l,
        "polygons6",
    ) || is_lit(l, "primitiveparameters") || is_lit(l, "signalclasses") || is_lit(
        l,
        "smartunions",
    ) || is_lit(l, "unionrelations") || is_lit(l, "uniqueidprimitiveinformation") || is_lit(
        l,
        "waivedviolations",
    )
}

fn is_raw_section_exec(l: &[u8]) -> (r: bool)
    ensures
        r == is_raw_section_name(l@),
{
    is_lit(l, "embeddedfonts6") || is_lit(l, "fileversioninfo") || is_lit(l, "layerkindmapping")
        || is_lit(l, "modelsnoembed") || is_lit(l, "primitiveguids") || is_lit(l, "textures")
        || is_lit(l, "unionnames") || is_lit(l, "widestrings6") || is_lit(l, "constraintmanager")
}

/// Classify a section storage by known AD26 semantics.
pub fn classify_section_kind(section_name: &[u8]) -> (r: Option<PcbDocSectionKind>)
    ensures
        r == spec_section_kind(section_name@),
{
    let lv = to_ascii_lower(section_name);
    let l = lv.as_slice();
    if is_lit(l, "arcs6") {
        Some(PcbDocSectionKind::Primitive { object_id: 1 })
    } else if is_lit(l, "pads6") {
        Some(PcbDocSectionKind::Primitive { object_id: 2 })
    } else if is_lit(l, "vias6") {
        Some(PcbDocSectionKind::Primitive { object_id: 3 })
    } else if is_lit(l, "tracks6") {
        Some(PcbDocSectionKind::Primitive { object_id: 4 })
    } else if is_lit(l, "texts6") || is_lit(l, "texts") {
        Some(PcbDocSectionKind::Primitive { object_id: 5 })
    } else if is_lit(l, "fills6") {
        Some(PcbDocSectionKind::Primitive { object_id: 6 })
    } else if is_lit(l, "connections6") {
        Some(PcbDocSectionKind::Primitive { object_id: 7 })
    } else if is_lit(l, "regions6") || is_lit(l, "shapebasedregions6") || is_lit(
        l,
        "splitplaneregions6",
    ) || is_lit(l, "boardregions") {
        Some(PcbDocSectionKind::Primitive { object_id: 11 })
    } else if is_lit(l, "componentbodies6") || is_lit(l, "shapebasedcomponentbodies6") {
        Some(PcbDocSectionKind::Primitive { object_id: 12 })
    } else if is_param_section_exec(l) {
        Some(PcbDocSectionKind::Param)
    } else if is_lit(l, "rules6") || is_lit(l, "newrules6") || is_lit(l, "dimensions6") || is_lit(
        l,
        "coordinates6",
    ) {
        Some(PcbDocSectionKind::PrefixedParam)
    } else if is_raw_section_exec(l) {
        Some(PcbDocSectionKind::Raw)
    } else if is_lit(l, "models") {
        Some(PcbDocSectionKind::Models)
    } else {
        None
    }
}

// ---------------------------------------------------------------------------
// Header streams
// ---------------------------------------------------------------------------

/// Parse strict 4-byte header count stream.
pub fn parse_u32_header_stream(data: &[u8], stream_path: &str) -> (r: Result<u32>)
    ensures
        r is Ok <==> data@.len() == 4,
        r matches Ok(v) ==> v == u32_at(data@, 0),
        data@.len() != 4 ==> (r matches Err(AltiumError::Parse(m)) && m@ == "pcblib stream '"@ + stream_path@
            + "' expected 4-byte header, got "@ + crate::error::decimal_text(data@.len()) + " bytes"@),
{
    if data.len() != 4 {
        let head = crate::error::text3("pcblib stream '", stream_path, "' expected 4-byte header, got ");
        let mid = crate::error::text2(head.as_str(), crate::error::usize_text(data.len()).as_str());
        return Err(AltiumError::Parse(crate::error::text2(mid.as_str(), " bytes")));
    }
    Ok(read_u32_le(data, 0))
}

/// Serialize 4-byte header count stream.
pub fn serialize_u32_header_stream(count: u32) -> (r: Vec<u8>)
    ensures
        r@ == le32(count),
{
    let mut out: Vec<u8> = Vec::new();
    crate::wire::push_u32_le(&mut out, count);
    assert(out@ =~= le32(count));
    out
}

/// A header stream written for a count reads back as that count.
pub proof fn lemma_header_stream_roundtrip(count: u32)
    ensures
        le32(count).len() == 4,
        u32_at(le32(count), 0) == count,
{
    lemma_le32(count);
    assert(le32(count).subrange(0, 4) =~= le32(count));
}

// ---------------------------------------------------------------------------
// Parameter sections
// ---------------------------------------------------------------------------

/// Every payload decodes as a parameter payload.
pub open spec fn all_decode(ps: Seq<Seq<u8>>) -> bool {
    forall|i: int| 0 <= i < ps.len() ==> (#[trigger] spec_decode_param_payload(ps[i])) is Some
}

pub open spec fn decode_all(ps: Seq<Seq<u8>>) -> Seq<Seq<(Seq<u8>, Seq<u8>)>> {
    ps.map_values(|p: Seq<u8>| spec_decode_param_payload(p).unwrap())
}

/// The entries of a `u32 size + payload` parameter section, or `None` when it is malformed.
pub open spec fn spec_param_section(data: Seq<u8>) -> Option<Seq<Seq<(Seq<u8>, Seq<u8>)>>> {
    match spec_sized_from(data, 0) {
        Some(ps) => if all_decode(ps) {
            Some(decode_all(ps))
        } else {
            None
        },
        None => None,
    }
}

pub open spec fn collections_view(v: Seq<ParameterCollection>) -> Seq<Seq<(Seq<u8>, Seq<u8>)>> {
    v.map_values(|c: ParameterCollection| c@)
}

/// Decodes each payload as a parameter payload.
fn decode_payloads(ps: &Vec<Vec<u8>>) -> (r: Result<Vec<ParameterCollection>>)
    ensures
        r is Ok <==> all_decode(ps@.map_values(|x: Vec<u8>| x@)),
        r matches Ok(v) ==> collections_view(v@) == decode_all(ps@.map_values(|x: Vec<u8>| x@)),
{
    let ghost pv = ps@.map_values(|x: Vec<u8>| x@);
    let mut out: Vec<ParameterCollection> = Vec::new();
    let mut i: usize = 0;
    while i < ps.len()
        invariant
            i <= ps@.len(),
            pv == ps@.map_values(|x: Vec<u8>| x@),
            out@.len() == i,
            forall|k: int| 0 <= k < i ==> (#[trigger] spec_decode_param_payload(pv[k])) is Some,
            forall|k: int|
                0 <= k < i ==> (#[trigger] out@[k])@ == spec_decode_param_payload(pv[k]).unwrap(),
        decreases ps@.len() - i,
    {
        assert(pv[i as int] == ps@[i as int]@);
        match decode_param_payload(ps[i].as_slice()) {
            Ok(c) => {
                out.push(c);
            },
            Err(e) => {
                assert(!(spec_decode_param_payload(pv[i as int]) is Some));
                return Err(e);
            },
        }
        i = i + 1;
    }
    assert(collections_view(out@) =~= decode_all(pv));
    Ok(out)
}

/// Parse `u32 len + payload` parameter blocks.
pub fn parse_param_section_data(data: &[u8]) -> (r: Result<Vec<ParameterCollection>>)
    ensures
        r is Ok <==> spec_param_section(data@) is Some,
        r matches Ok(v) ==> spec_param_section(data@) == Some(collections_view(v@)),
{
    let ps = parse_sized_records(data)?;
    decode_payloads(&ps)
}

/// The bytes of a `u32 size + payload` parameter section.
pub open spec fn enc_param_section(es: Seq<Seq<(Seq<u8>, Seq<u8>)>>) -> Seq<u8> {
    es.map_values(|p: Seq<(Seq<u8>, Seq<u8>)>| enc_sized(ser_params(p))).flatten()
}

/// Serialize `u32 len + payload` parameter blocks; an entry whose text is longer
/// than `u32::MAX` bytes is an error.
pub fn serialize_param_section_data(entries: &[ParameterCollection]) -> (r: Result<Vec<u8>>)
    ensures
        r is Ok <==> forall|i: int| 0 <= i < entries@.len() ==> ser_params(#[trigger] entries@[i]@).len() <= u32::MAX,
        r matches Ok(b) ==> b@ == enc_param_section(collections_view(entries@)),
{
    let ghost ev = collections_view(entries@);
    let mut out: Vec<u8> = Vec::new();
    let mut i: usize = 0;
    while i < entries.len()
        invariant
            i <= entries@.len(),
            ev == collections_view(entries@),
            forall|k: int| 0 <= k < i ==> ser_params(#[trigger] entries@[k]@).len() <= u32::MAX,
            out@ == ev.take(i as int).map_values(
                |p: Seq<(Seq<u8>, Seq<u8>)>| enc_sized(ser_params(p)),
            ).flatten(),
        decreases entries@.len() - i,
    {
        let payload = entries[i].to_bytes();
        if payload.len() > 4294967295 {
            return Err(AltiumError::Parse(text("pcbdoc parameter record too large")));
        }
        push_sized(&mut out, payload.as_slice());
        proof {
            let t = ev.take(i as int);
            assert(ev.take(i + 1) =~= t.push(ev[i as int]));
            let x = ev[i as int];
            let h = |p: Seq<(Seq<u8>, Seq<u8>)>| enc_sized(ser_params(p));
            assert(t.push(x).map_values(h) =~= t.map_values(h).push(enc_sized(ser_params(x))));
            t.map_values(h).lemma_flatten_push(enc_sized(ser_params(x)));
        }
        i = i + 1;
    }
    assert(ev.take(i as int) =~= ev);
    Ok(out)
}

/// Parameter sections whose collections all have at least one entry and fit.
pub open spec fn param_section_ok(es: Seq<Seq<(Seq<u8>, Seq<u8>)>>) -> bool {
    forall|i: int|
        0 <= i < es.len() ==> entries_ok(#[trigger] es[i]) && es[i].len() > 0 && ser_params(
            es[i],
        ).len() <= u32::MAX
}

/// Parsing a serialized parameter section gives the collections back.
pub proof fn lemma_param_section_roundtrip(es: Seq<Seq<(Seq<u8>, Seq<u8>)>>)
    requires
        param_section_ok(es),
    ensures
        spec_param_section(enc_param_section(es)) == Some(es),
{
    let ps = es.map_values(|p: Seq<(Seq<u8>, Seq<u8>)>| ser_params(p));
    assert(ps.map_values(|p: Seq<u8>| enc_sized(p)) =~= es.map_values(
        |p: Seq<(Seq<u8>, Seq<u8>)>| enc_sized(ser_params(p)),
    ));
    assert forall|i: int| 0 <= i < ps.len() implies 0 < (#[trigger] ps[i]).len() <= u32::MAX by {
        assert(entries_ok(es[i]) && es[i].len() > 0);
        crate::params::lemma_ser_len_nonempty(es[i]);
    }
    lemma_sized_roundtrip(ps);
    assert forall|i: int| 0 <= i < ps.len() implies (#[trigger] spec_decode_param_payload(
        ps[i],
    )) is Some by {
        assert(entries_ok(es[i]));
        lemma_decode_serialized(es[i], false);
    }
    assert forall|i: int| 0 <= i < ps.len() implies decode_all(ps)[i] == es[i] by {
        assert(entries_ok(es[i]));
        lemma_decode_serialized(es[i], false);
    }
    assert(decode_all(ps) =~= es);
}

// ---------------------------------------------------------------------------
// Prefixed parameter sections
// ---------------------------------------------------------------------------

pub open spec fn all_decode_prefixed(ps: Seq<(u16, Seq<u8>)>) -> bool {
    forall|i: int| 0 <= i < ps.len() ==> (#[trigger] spec_decode_param_payload(ps[i].1)) is Some
}

pub open spec fn decode_all_prefixed(ps: Seq<(u16, Seq<u8>)>) -> Seq<
    (u16, Seq<(Seq<u8>, Seq<u8>)>),
> {
    ps.map_values(|p: (u16, Seq<u8>)| (p.0, spec_decode_param_payload(p.1).unwrap()))
}

/// The entries of a prefixed parameter section, or `None` when it is malformed.
pub open spec fn spec_prefixed_param_section(data: Seq<u8>) -> Option<
    Seq<(u16, Seq<(Seq<u8>, Seq<u8>)>)>,
> {
    match spec_prefixed_from(data, 0) {
        Some(ps) => if all_decode_prefixed(ps) {
            Some(decode_all_prefixed(ps))
        } else {
            None
        },
        None => None,
    }
}

pub open spec fn prefixed_entries_view(v: Seq<PcbDocPrefixedParamEntry>) -> Seq<
    (u16, Seq<(Seq<u8>, Seq<u8>)>),
> {
    v.map_values(|e: PcbDocPrefixedParamEntry| (e.prefix, e.params@))
}

/// Parse `u16 prefix + u32 len + payload` parameter blocks.
pub fn parse_prefixed_param_section_data(data: &[u8]) -> (r: Result<Vec<PcbDocPrefixedParamEntry>>)
    ensures
        r is Ok <==> spec_prefixed_param_section(data@) is Some,
        r matches Ok(v) ==> spec_prefixed_param_section(data@) == Some(prefixed_entries_view(v@)),
{
    let ps = parse_prefixed_records(data)?;
    let ghost pv = ps@.map_values(|x: PrefixedPayload| (x.prefix, x.payload@));
    let mut out: Vec<PcbDocPrefixedParamEntry> = Vec::new();
    let mut i: usize = 0;
    while i < ps.len()
        invariant
            i <= ps@.len(),
            pv == ps@.map_values(|x: PrefixedPayload| (x.prefix, x.payload@)),
            spec_prefixed_from(data@, 0) == Some(pv),
            out@.len() == i,
            forall|k: int| 0 <= k < i ==> (#[trigger] spec_decode_param_payload(pv[k].1)) is Some,
            forall|k: int|
                0 <= k < i ==> (#[trigger] out@[k]).params@ == spec_decode_param_payload(
                    pv[k].1,
                ).unwrap() && out@[k].prefix == pv[k].0,
        decreases ps@.len() - i,
    {
        assert(pv[i as int] == (ps@[i as int].prefix, ps@[i as int].payload@));
        match decode_param_payload(ps[i].payload.as_slice()) {
            Ok(c) => {
                out.push(PcbDocPrefixedParamEntry { prefix: ps[i].prefix, params: c });
            },
            Err(e) => {
                assert(!(spec_decode_param_payload(pv[i as int].1) is Some));
                return Err(e);
            },
        }
        i = i + 1;
    }
    assert(prefixed_entries_view(out@) =~= decode_all_prefixed(pv));
    Ok(out)
}

pub open spec fn enc_prefixed_param_section(es: Seq<(u16, Seq<(Seq<u8>, Seq<u8>)>)>) -> Seq<u8> {
    es.map_values(|e: (u16, Seq<(Seq<u8>, Seq<u8>)>)| enc_prefixed((e.0, ser_params(e.1)))).flatten()
}

/// Serialize `u16 prefix + u32 len + payload` parameter blocks.
pub fn serialize_prefixed_param_section_data(entries: &[PcbDocPrefixedParamEntry]) -> (r: Result<
    Vec<u8>,
>)
    ensures
        r is Ok <==> forall|i: int|
            0 <= i < entries@.len() ==> ser_params((#[trigger] entries@[i]).params@).len()
                <= u32::MAX,
        r matches Ok(b) ==> b@ == enc_prefixed_param_section(prefixed_entries_view(entries@)),
{
    let ghost ev = prefixed_entries_view(entries@);
    let mut out: Vec<u8> = Vec::new();
    let mut i: usize = 0;
    while i < entries.len()
        invariant
            i <= entries@.len(),
            ev == prefixed_entries_view(entries@),
            forall|k: int|
                0 <= k < i ==> ser_params((#[trigger] entries@[k]).params@).len() <= u32::MAX,
            out@ == ev.take(i as int).map_values(
                |e: (u16, Seq<(Seq<u8>, Seq<u8>)>)| enc_prefixed((e.0, ser_params(e.1))),
            ).flatten(),
        decreases entries@.len() - i,
    {
        let payload = entries[i].params.to_bytes();
        if payload.len() > 4294967295 {
            return Err(AltiumError::Parse(text("pcbdoc prefixed parameter record too large")));
        }
        push_prefixed(&mut out, entries[i].prefix, payload.as_slice());
        proof {
            let t = ev.take(i as int);
            assert(ev.take(i + 1) =~= t.push(ev[i as int]));
            let x = ev[i as int];
            let one = enc_prefixed((x.0, ser_params(x.1)));
            let h = |e: (u16, Seq<(Seq<u8>, Seq<u8>)>)| enc_prefixed((e.0, ser_params(e.1)));
            assert(t.push(x).map_values(h) =~= t.map_values(h).push(one));
            t.map_values(h).lemma_flatten_push(one);
        }
        i = i + 1;
    }
    assert(ev.take(i as int) =~= ev);
    Ok(out)
}

pub open spec fn prefixed_section_ok(es: Seq<(u16, Seq<(Seq<u8>, Seq<u8>)>)>) -> bool {
    forall|i: int|
        0 <= i < es.len() ==> entries_ok((#[trigger] es[i]).1) && es[i].1.len() > 0 && ser_params(
            es[i].1,
        ).len() <= u32::MAX
}

/// Parsing a serialized prefixed parameter section gives the entries back.
pub proof fn lemma_prefixed_param_section_roundtrip(es: Seq<(u16, Seq<(Seq<u8>, Seq<u8>)>)>)
    requires
        prefixed_section_ok(es),
    ensures
        spec_prefixed_param_section(enc_prefixed_param_section(es)) == Some(es),
{
    let ps = es.map_values(|e: (u16, Seq<(Seq<u8>, Seq<u8>)>)| (e.0, ser_params(e.1)));
    assert(ps.map_values(|e: (u16, Seq<u8>)| enc_prefixed(e)) =~= es.map_values(
        |e: (u16, Seq<(Seq<u8>, Seq<u8>)>)| enc_prefixed((e.0, ser_params(e.1))),
    ));
    assert forall|i: int| 0 <= i < ps.len() implies 0 < (#[trigger] ps[i]).1.len() <= u32::MAX by {
        assert(entries_ok(es[i].1) && es[i].1.len() > 0);
        crate::params::lemma_ser_len_nonempty(es[i].1);
    }
    lemma_prefixed_roundtrip(ps);
    assert forall|i: int| 0 <= i < ps.len() implies (#[trigger] spec_decode_param_payload(
        ps[i].1,
    )) is Some by {
        assert(entries_ok(es[i].1));
        lemma_decode_serialized(es[i].1, false);
    }
    assert forall|i: int| 0 <= i < ps.len() implies decode_all_prefixed(ps)[i] == es[i] by {
        assert(entries_ok(es[i].1));
        lemma_decode_serialized(es[i].1, false);
    }
    assert(decode_all_prefixed(ps) =~= es);
}

} // verus!
