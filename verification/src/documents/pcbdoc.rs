//! PcbDoc documents: typed stream metadata and the primitive records of its
//! sections.
use vstd::prelude::*;
use vstd::string::StringSliceAdditionalSpecFns;

use crate::documents::pcbdoc_io::{object_record, parse_primitive_section_data, section_objects};
use crate::documents::pcbdoc_streams::{
    classify_section_kind, parse_param_section_data, parse_prefixed_param_section_data, parse_u32_header_stream,
    spec_param_section, spec_prefixed_param_section, spec_section_kind, PcbDocSectionKind, PcbDocModelEntry, PcbDocModelsSectionMeta, PcbDocParamSectionMeta, PcbDocPrefixedParamEntry,
    PcbDocPrefixedParamSectionMeta, PcbDocPrimitiveSectionMeta, PcbDocRawSectionMeta, PcbDocSection,
    PcbDocSectionMeta, PcbDocStreamsMeta, RecordId,
};
use crate::documents::schdoc::RecordOrigin;
use crate::error::{text, usize_text, AltiumError, Result};
use crate::params::ParameterCollection;
use crate::wire::{le32, push_u32_le, u32_at};

verus! {

/// One record of a PcbDoc.
#[derive(Clone, Debug)]
pub struct PcbDocRecord {
    /// Record type.
    pub key: u8,
    pub origin: RecordOrigin,
    /// Name of the section the record is written to.
    pub stream_name: Vec<u8>,
}

/// A PcbDoc document: its stream metadata and its records.
pub struct PcbDoc {
    meta: PcbDocStreamsMeta,
    records: Vec<PcbDocRecord>,
}

/// The value of a section's metadata.
pub enum SectionView {
    Primitive(u8, u32, Seq<RecordId>),
    Param(u32, Seq<Seq<(Seq<u8>, Seq<u8>)>>),
    PrefixedParam(u32, Seq<(u16, Seq<(Seq<u8>, Seq<u8>)>)>),
    Raw(u32, Seq<u8>),
    Models(u32, Seq<u8>, Seq<(u32, Seq<u8>)>),
}

pub open spec fn section_view(m: PcbDocSectionMeta) -> SectionView {
    match m {
        PcbDocSectionMeta::Primitive(p) => SectionView::Primitive(p.object_id, p.header_count, p.record_ids@),
        PcbDocSectionMeta::Param(p) => SectionView::Param(
            p.header_count,
            p.entries@.map_values(|c: ParameterCollection| c@),
        ),
        PcbDocSectionMeta::PrefixedParam(p) => SectionView::PrefixedParam(
            p.header_count,
            p.entries@.map_values(|e: PcbDocPrefixedParamEntry| (e.prefix, e.params@)),
        ),
        PcbDocSectionMeta::Raw(p) => SectionView::Raw(p.header_count, p.data@),
        PcbDocSectionMeta::Models(p) => SectionView::Models(
            p.header_count,
            p.data@,
            p.entries@.map_values(|e: PcbDocModelEntry| (e.index, e.data@)),
        ),
    }
}

/// The value of stream metadata: file header, optional `FileHeaderSix`,
/// and the named sections.
pub open spec fn meta_view(m: PcbDocStreamsMeta) -> (Seq<u8>, Option<Seq<u8>>, Seq<(Seq<u8>, SectionView)>) {
    (
        m.file_header@,
        match m.file_header_six {
            Some(b) => Some(b@),
            None => None,
        },
        m.sections@.map_values(|s: PcbDocSection| (s.name@, section_view(s.meta))),
    )
}

/// UTF-16LE code units of "PCB 5.0 Binary File".
pub open spec fn pcb_title_utf16() -> Seq<u8> {
    seq![
        80u8, 0u8, 67u8, 0u8, 66u8, 0u8, 32u8, 0u8, 53u8, 0u8, 46u8, 0u8, 48u8, 0u8, 32u8, 0u8,
        66u8, 0u8, 105u8, 0u8, 110u8, 0u8, 97u8, 0u8, 114u8, 0u8, 121u8, 0u8, 32u8, 0u8, 70u8, 0u8,
        105u8, 0u8, 108u8, 0u8, 101u8, 0u8,
    ]
}

/// The `FileHeader` of a new PcbDoc: the title length 19 as `u32` LE, then
/// the title in UTF-16LE.
pub open spec fn new_file_header() -> Seq<u8> {
    le32(19) + pcb_title_utf16()
}

/// Index of the first section with the name, or the number of sections.
pub open spec fn section_index(s: Seq<PcbDocSection>, name: Seq<u8>) -> int
    decreases s.len(),
{
    if s.len() == 0 {
        0
    } else {
        let i = section_index(s.drop_last(), name);
        if i < s.len() - 1 {
            i
        } else if s.last().name@ == name {
            s.len() - 1
        } else {
            s.len() as int
        }
    }
}

pub(crate) fn dup_bytes(b: &Vec<u8>) -> (r: Vec<u8>)
    ensures
        r@ == b@,
{
    let r = b.clone();
    assert(r@ =~= b@);
    r
}

fn dup_ids(b: &Vec<RecordId>) -> (r: Vec<RecordId>)
    ensures
        r@ == b@,
{
    let mut out: Vec<RecordId> = Vec::new();
    let mut i: usize = 0;
    while i < b.len()
        invariant
            i <= b@.len(),
            out@ == b@.take(i as int),
        decreases b@.len() - i,
    {
        out.push(b[i]);
        assert(out@ =~= b@.take(i + 1));
        i = i + 1;
    }
    assert(b@.take(i as int) =~= b@);
    out
}

fn dup_section(m: &PcbDocSectionMeta) -> (r: PcbDocSectionMeta)
    ensures
        section_view(r) == section_view(*m),
{
    match m {
        PcbDocSectionMeta::Primitive(p) => PcbDocSectionMeta::Primitive(
            PcbDocPrimitiveSectionMeta {
                object_id: p.object_id,
                header_count: p.header_count,
                record_ids: dup_ids(&p.record_ids),
            },
        ),
        PcbDocSectionMeta::Param(p) => {
            let mut out: Vec<ParameterCollection> = Vec::new();
            let mut i: usize = 0;
            while i < p.entries.len()
                invariant
                    i <= p.entries@.len(),
                    out@.map_values(|c: ParameterCollection| c@) == p.entries@.take(i as int).map_values(
                        |c: ParameterCollection| c@,
                    ),
                decreases p.entries@.len() - i,
            {
                let ghost before = out@;
                out.push(p.entries[i].duplicate());
                assert(p.entries@.take(i + 1) =~= p.entries@.take(i as int).push(p.entries@[i as int]));
                assert(out@.map_values(|c: ParameterCollection| c@) =~= before.map_values(|c: ParameterCollection| c@).push(p.entries@[i as int]@));
                assert(out@.map_values(|c: ParameterCollection| c@) =~= p.entries@.take(i + 1).map_values(
                    |c: ParameterCollection| c@,
                ));
                i = i + 1;
            }
            assert(p.entries@.take(i as int) =~= p.entries@);
            PcbDocSectionMeta::Param(PcbDocParamSectionMeta { header_count: p.header_count, entries: out })
        },
        PcbDocSectionMeta::PrefixedParam(p) => {
            let mut out: Vec<PcbDocPrefixedParamEntry> = Vec::new();
            let mut i: usize = 0;
            while i < p.entries.len()
                invariant
                    i <= p.entries@.len(),
                    out@.map_values(|e: PcbDocPrefixedParamEntry| (e.prefix, e.params@)) == p.entries@.take(
                        i as int,
                    ).map_values(|e: PcbDocPrefixedParamEntry| (e.prefix, e.params@)),
                decreases p.entries@.len() - i,
            {
                let ghost before = out@;
                out.push(
                    PcbDocPrefixedParamEntry { prefix: p.entries[i].prefix, params: p.entries[i].params.duplicate() },
                );
                assert(p.entries@.take(i + 1) =~= p.entries@.take(i as int).push(p.entries@[i as int]));
                assert(out@.map_values(|e: PcbDocPrefixedParamEntry| (e.prefix, e.params@)) =~= before.map_values(
                    |e: PcbDocPrefixedParamEntry| (e.prefix, e.params@),
                ).push((p.entries@[i as int].prefix, p.entries@[i as int].params@)));
                assert(out@.map_values(|e: PcbDocPrefixedParamEntry| (e.prefix, e.params@)) =~= p.entries@.take(
                    i + 1,
                ).map_values(|e: PcbDocPrefixedParamEntry| (e.prefix, e.params@)));
                i = i + 1;
            }
            assert(p.entries@.take(i as int) =~= p.entries@);
            PcbDocSectionMeta::PrefixedParam(PcbDocPrefixedParamSectionMeta { header_count: p.header_count, entries: out })
        },
        PcbDocSectionMeta::Raw(p) => PcbDocSectionMeta::Raw(
            PcbDocRawSectionMeta { header_count: p.header_count, data: dup_bytes(&p.data) },
        ),
        PcbDocSectionMeta::Models(p) => {
            let mut out: Vec<PcbDocModelEntry> = Vec::new();
            let mut i: usize = 0;
            while i < p.entries.len()
                invariant
                    i <= p.entries@.len(),
                    out@.map_values(|e: PcbDocModelEntry| (e.index, e.data@)) == p.entries@.take(i as int).map_values(
                        |e: PcbDocModelEntry| (e.index, e.data@),
                    ),
                decreases p.entries@.len() - i,
            {
                let ghost before = out@;
                out.push(PcbDocModelEntry { index: p.entries[i].index, data: dup_bytes(&p.entries[i].data) });
                assert(p.entries@.take(i + 1) =~= p.entries@.take(i as int).push(p.entries@[i as int]));
                assert(out@.map_values(|e: PcbDocModelEntry| (e.index, e.data@)) =~= before.map_values(
                    |e: PcbDocModelEntry| (e.index, e.data@),
                ).push((p.entries@[i as int].index, p.entries@[i as int].data@)));
                assert(out@.map_values(|e: PcbDocModelEntry| (e.index, e.data@)) =~= p.entries@.take(i + 1).map_values(
                    |e: PcbDocModelEntry| (e.index, e.data@),
                ));
                i = i + 1;
            }
            assert(p.entries@.take(i as int) =~= p.entries@);
            PcbDocSectionMeta::Models(
                PcbDocModelsSectionMeta { header_count: p.header_count, data: dup_bytes(&p.data), entries: out },
            )
        },
    }
}

/// A copy of stream metadata.
pub fn duplicate_meta(m: &PcbDocStreamsMeta) -> (r: PcbDocStreamsMeta)
    ensures
        meta_view(r) == meta_view(*m),
{
    let mut sections: Vec<PcbDocSection> = Vec::new();
    let mut i: usize = 0;
    while i < m.sections.len()
        invariant
            i <= m.sections@.len(),
            sections@.map_values(|s: PcbDocSection| (s.name@, section_view(s.meta))) == m.sections@.take(
                i as int,
            ).map_values(|s: PcbDocSection| (s.name@, section_view(s.meta))),
        decreases m.sections@.len() - i,
    {
        let ghost before = sections@;
        sections.push(PcbDocSection { name: dup_bytes(&m.sections[i].name), meta: dup_section(&m.sections[i].meta) });
        assert(m.sections@.take(i + 1) =~= m.sections@.take(i as int).push(m.sections@[i as int]));
        assert(sections@.map_values(|s: PcbDocSection| (s.name@, section_view(s.meta))) =~= before.map_values(
            |s: PcbDocSection| (s.name@, section_view(s.meta)),
        ).push((m.sections@[i as int].name@, section_view(m.sections@[i as int].meta))));
        assert(sections@.map_values(|s: PcbDocSection| (s.name@, section_view(s.meta))) =~= m.sections@.take(
            i + 1,
        ).map_values(|s: PcbDocSection| (s.name@, section_view(s.meta))));
        i = i + 1;
    }
    assert(m.sections@.take(i as int) =~= m.sections@);
    let six = match &m.file_header_six {
        Some(b) => Some(dup_bytes(b)),
        None => None,
    };
    PcbDocStreamsMeta { file_header: dup_bytes(&m.file_header), file_header_six: six, sections }
}

/// Index of the first section with the name.
fn find_section(s: &Vec<PcbDocSection>, name: &[u8]) -> (r: usize)
    ensures
        r == section_index(s@, name@),
        r <= s@.len(),
{
    let mut i: usize = 0;
    while i < s.len()
        invariant
            i <= s@.len(),
            section_index(s@.take(i as int), name@) == i,
        decreases s@.len() - i,
    {
        assert(s@.take(i + 1).drop_last() =~= s@.take(i as int));
        if crate::documents::pcbdoc_streams::bytes_equal(s[i].name.as_slice(), name) {
            proof {
                lemma_section_index_prefix(s@, name@, i as int);
            }
            return i;
        }
        i = i + 1;
    }
    assert(s@.take(i as int) =~= s@);
    i
}

proof fn lemma_section_index_prefix(s: Seq<PcbDocSection>, name: Seq<u8>, i: int)
    requires
        0 <= i < s.len(),
        section_index(s.take(i + 1), name) == i,
    ensures
        section_index(s, name) == i,
    decreases s.len(),
{
    if s.len() > i + 1 {
        assert(s.drop_last().take(i + 1) =~= s.take(i + 1));
        lemma_section_index_prefix(s.drop_last(), name, i);
    } else {
        assert(s.take(i + 1) =~= s);
    }
}

/// Whether every record id of every primitive section names a record.
pub open spec fn ids_valid(meta: PcbDocStreamsMeta, n: nat) -> bool {
    forall|i: int|
        0 <= i < meta.sections@.len() ==> ((#[trigger] meta.sections@[i]).meta matches PcbDocSectionMeta::Primitive(p)
            ==> forall|k: int| 0 <= k < p.record_ids@.len() ==> (#[trigger] p.record_ids@[k]).0 < n)
}

/// The primitive records of a section: `(record type, id)` in section order;
/// nothing when the section is missing or not a primitive section.
pub open spec fn section_records(meta: PcbDocStreamsMeta, records: Seq<PcbDocRecord>, name: Seq<u8>) -> Seq<
    (u8, RecordId),
> {
    let i = section_index(meta.sections@, name);
    if i < meta.sections@.len() {
        match meta.sections@[i].meta {
            PcbDocSectionMeta::Primitive(p) => p.record_ids@.map_values(
                |id: RecordId| (records[id.0 as int].key, id),
            ),
            _ => Seq::empty(),
        }
    } else {
        Seq::empty()
    }
}

impl PcbDoc {
    pub closed spec fn spec_meta(&self) -> PcbDocStreamsMeta {
        self.meta
    }

    pub closed spec fn spec_records(&self) -> Seq<PcbDocRecord> {
        self.records@
    }

    /// A new empty PcbDoc: the standard file header and no sections.
    pub fn new_empty() -> (r: PcbDoc)
        ensures
            r.spec_meta().file_header@ == new_file_header(),
            r.spec_meta().file_header_six is None,
            r.spec_meta().sections@.len() == 0,
            r.spec_records().len() == 0,
    {
        let mut fh: Vec<u8> = Vec::new();
        push_u32_le(&mut fh, 19);
        let title = "PCB 5.0 Binary File".as_bytes();
        let mut i: usize = 0;
        proof {
            reveal_strlit("PCB 5.0 Binary File");
            assert(vstd::string::is_ascii("PCB 5.0 Binary File"));
            vstd::string::is_ascii_spec_bytes("PCB 5.0 Binary File");
        }
        assert(title@ =~= seq![
            80u8, 67u8, 66u8, 32u8, 53u8, 46u8, 48u8, 32u8, 66u8, 105u8, 110u8, 97u8, 114u8, 121u8, 32u8, 70u8,
            105u8, 108u8, 101u8,
        ]);
        while i < title.len()
            invariant
                i <= title@.len(),
                title@.len() == 19,
                forall|k: int| 0 <= k < 19 ==> pcb_title_utf16()[2 * k] == #[trigger] title@[k] && pcb_title_utf16()[2 * k + 1] == 0,
                fh@ == le32(19) + pcb_title_utf16().take(2 * i),
            decreases title@.len() - i,
        {
            fh.push(title[i]);
            fh.push(0);
            assert(pcb_title_utf16().take(2 * i + 2) =~= pcb_title_utf16().take(2 * i).push(title@[i as int]).push(0));
            i = i + 1;
        }
        assert(pcb_title_utf16().take(38) =~= pcb_title_utf16());
        PcbDoc {
            meta: PcbDocStreamsMeta { file_header: fh, file_header_six: None, sections: Vec::new() },
            records: Vec::new(),
        }
    }

    /// Whether every primitive section names records of the document only.
    pub fn ids_in_range(&self) -> (r: bool)
        ensures
            r == ids_valid(self.spec_meta(), self.spec_records().len()),
    {
        let n = self.records.len();
        let mut k: usize = 0;
        while k < self.meta.sections.len()
            invariant
                k <= self.meta.sections@.len(),
                n == self.records@.len(),
                forall|i: int|
                    0 <= i < k ==> ((#[trigger] self.meta.sections@[i]).meta matches PcbDocSectionMeta::Primitive(p)
                        ==> forall|q: int| 0 <= q < p.record_ids@.len() ==> (#[trigger] p.record_ids@[q]).0 < n),
            decreases self.meta.sections@.len() - k,
        {
            match &self.meta.sections[k].meta {
                PcbDocSectionMeta::Primitive(p) => {
                    let mut j: usize = 0;
                    while j < p.record_ids.len()
                        invariant
                            j <= p.record_ids@.len(),
                            n == self.records@.len(),
                            k < self.meta.sections@.len(),
                            self.meta.sections@[k as int].meta == PcbDocSectionMeta::Primitive(*p),
                            forall|q: int| 0 <= q < j ==> (#[trigger] p.record_ids@[q]).0 < n,
                        decreases p.record_ids@.len() - j,
                    {
                        if p.record_ids[j].0 >= n {
                            assert(!ids_valid(self.spec_meta(), self.spec_records().len())) by {
                                assert(self.meta.sections@[k as int].meta matches PcbDocSectionMeta::Primitive(pp)
                                    && pp.record_ids@[j as int].0 >= n);
                            }
                            return false;
                        }
                        j = j + 1;
                    }
                },
                _ => {},
            }
            k = k + 1;
        }
        true
    }

    /// A copy of the stream metadata.
    pub fn streams_meta(&self) -> (r: PcbDocStreamsMeta)
        ensures
            meta_view(r) == meta_view(self.spec_meta()),
    {
        duplicate_meta(&self.meta)
    }

    /// Replace the stream metadata.
    pub fn set_streams_meta(&mut self, streams_meta: PcbDocStreamsMeta) -> (r: Result<()>)
        ensures
            r is Ok,
            final(self).spec_meta() == streams_meta,
            final(self).spec_records() == old(self).spec_records(),
    {
        self.meta = streams_meta;
        Ok(())
    }

    /// The primitive records of one section (`Tracks6`, `Pads6`, ...).
    pub fn primitive_records(&self, section_name: &str) -> (r: Vec<(u8, RecordId)>)
        requires
            ids_valid(self.spec_meta(), self.spec_records().len()),
        ensures
            r@ == section_records(self.spec_meta(), self.spec_records(), section_name.spec_bytes()),
    {
        let i = find_section(&self.meta.sections, section_name.as_bytes());
        if i >= self.meta.sections.len() {
            return Vec::new();
        }
        match &self.meta.sections[i].meta {
            PcbDocSectionMeta::Primitive(p) => {
                assert(self.meta.sections@[i as int].meta matches PcbDocSectionMeta::Primitive(q) && q == *p);
                let mut out: Vec<(u8, RecordId)> = Vec::new();
                let mut k: usize = 0;
                while k < p.record_ids.len()
                    invariant
                        k <= p.record_ids@.len(),
                        forall|j: int| 0 <= j < p.record_ids@.len() ==> (#[trigger] p.record_ids@[j]).0 < self.records@.len(),
                        out@ == p.record_ids@.take(k as int).map_values(
                            |id: RecordId| (self.records@[id.0 as int].key, id),
                        ),
                    decreases p.record_ids@.len() - k,
                {
                    let id = p.record_ids[k];
                    out.push((self.records[id.0].key, id));
                    assert(out@ =~= p.record_ids@.take(k + 1).map_values(
                        |id: RecordId| (self.records@[id.0 as int].key, id),
                    ));
                    k = k + 1;
                }
                assert(p.record_ids@.take(k as int) =~= p.record_ids@);
                out
            },
            _ => Vec::new(),
        }
    }

    /// Add a primitive record of type `record_id` to an existing primitive
    /// section; returns its id. The record must be binary and of the
    /// section's object type.
    pub fn add_primitive_record(&mut self, section_name: &str, record_id: u8, origin: RecordOrigin) -> (r: Result<
        RecordId,
    >)
        ensures
            ({
                let i = section_index(old(self).spec_meta().sections@, section_name.spec_bytes());
                let ok = origin is Binary && i < old(self).spec_meta().sections@.len()
                    && (old(self).spec_meta().sections@[i].meta matches PcbDocSectionMeta::Primitive(p)
                    && p.object_id == record_id);
                &&& (r is Ok <==> ok)
                &&& !ok ==> *final(self) == *old(self)
                &&& r matches Ok(rid) ==> {
                    &&& rid.0 == old(self).spec_records().len()
                    &&& final(self).spec_records() == old(self).spec_records().push(
                        PcbDocRecord { key: record_id, origin, stream_name: final(self).spec_records().last().stream_name },
                    )
                    &&& final(self).spec_records().last().stream_name@ == section_name.spec_bytes()
                    &&& final(self).spec_meta().file_header == old(self).spec_meta().file_header
                    &&& final(self).spec_meta().file_header_six == old(self).spec_meta().file_header_six
                    &&& final(self).spec_meta().sections@.len() == old(self).spec_meta().sections@.len()
                    &&& forall|j: int|
                        0 <= j < old(self).spec_meta().sections@.len() && j != i ==> final(self).spec_meta().sections@[j]
                            == old(self).spec_meta().sections@[j]
                    &&& final(self).spec_meta().sections@[i].name == old(self).spec_meta().sections@[i].name
                    &&& final(self).spec_meta().sections@[i].meta matches PcbDocSectionMeta::Primitive(q) && old(
                        self,
                    ).spec_meta().sections@[i].meta matches PcbDocSectionMeta::Primitive(p) && q.object_id
                        == p.object_id && q.header_count == p.header_count && q.record_ids@ == p.record_ids@.push(rid)
                }
                &&& (!(origin is Binary)) ==> (r matches Err(AltiumError::Parse(m)) && m@ == "pcbdoc section '"@
                    + section_name@ + "' requires binary primitive records (got param record_id="@
                    + crate::error::decimal_text(record_id as nat) + ")"@)
                &&& (origin is Binary && i >= old(self).spec_meta().sections@.len()) ==> (r matches Err(
                    AltiumError::Parse(m),
                ) && m@ == "pcbdoc primitive section '"@ + section_name@ + "' does not exist"@)
                &&& (origin is Binary && i < old(self).spec_meta().sections@.len() && !(old(
                    self,
                ).spec_meta().sections@[i].meta is Primitive)) ==> (r matches Err(AltiumError::Parse(m)) && m@
                    == "pcbdoc section '"@ + section_name@ + "' is not a primitive section"@)
                &&& (origin is Binary && i < old(self).spec_meta().sections@.len() && (old(
                    self,
                ).spec_meta().sections@[i].meta matches PcbDocSectionMeta::Primitive(p) && p.object_id != record_id))
                    ==> (r matches Err(AltiumError::Parse(m)) && m@ == "pcbdoc section '"@ + section_name@
                    + "' expects object_id="@ + crate::error::decimal_text(
                    (old(self).spec_meta().sections@[i].meta->Primitive_0).object_id as nat,
                ) + " but got record_id="@ + crate::error::decimal_text(record_id as nat))
            }),
    {
        let is_binary = match &origin {
            RecordOrigin::Binary(_) => true,
            RecordOrigin::Param(_) => false,
        };
        if !is_binary {
            let mut m = text("pcbdoc section '");
            m.append(section_name);
            m.append("' requires binary primitive records (got param record_id=");
            m.append(usize_text(record_id as usize).as_str());
            m.append(")");
            return Err(AltiumError::Parse(m));
        }
        let i = find_section(&self.meta.sections, section_name.as_bytes());
        if i >= self.meta.sections.len() {
            let mut m = text("pcbdoc primitive section '");
            m.append(section_name);
            m.append("' does not exist");
            return Err(AltiumError::Parse(m));
        }
        let object_id = match &self.meta.sections[i].meta {
            PcbDocSectionMeta::Primitive(p) => p.object_id,
            _ => {
                let mut m = text("pcbdoc section '");
                m.append(section_name);
                m.append("' is not a primitive section");
                return Err(AltiumError::Parse(m));
            },
        };
        if object_id != record_id {
            let mut m = text("pcbdoc section '");
            m.append(section_name);
            m.append("' expects object_id=");
            m.append(usize_text(object_id as usize).as_str());
            m.append(" but got record_id=");
            m.append(usize_text(record_id as usize).as_str());
            return Err(AltiumError::Parse(m));
        }
        let rid = RecordId(self.records.len());
        let name = crate::wire::copy_range(section_name.as_bytes(), 0, section_name.as_bytes().len());
        assert(name@ =~= section_name.spec_bytes());
        self.records.push(PcbDocRecord { key: record_id, origin, stream_name: name });
        let mut sections: Vec<PcbDocSection> = Vec::new();
        std::mem::swap(&mut sections, &mut self.meta.sections);
        let mut sec = sections.remove(i);
        match &mut sec.meta {
            PcbDocSectionMeta::Primitive(p) => {
                p.record_ids.push(rid);
            },
            _ => {},
        }
        sections.insert(i, sec);
        self.meta.sections = sections;
        Ok(rid)
    }
}

// ---------------------------------------------------------------------------
// Building a document from its streams
// ---------------------------------------------------------------------------

/// The streams of one section storage, as read from the compound file.
pub struct PcbDocSectionStreams {
    /// Storage name as it stands in the file.
    pub name: Vec<u8>,
    /// `Header` stream bytes, when the stream exists.
    pub header: Option<Vec<u8>>,
    /// `Data` stream bytes, when the stream exists.
    pub data: Option<Vec<u8>>,
    /// Numbered `Models` entries, by index.
    pub entries: Vec<PcbDocModelEntry>,
}

/// The UTF-8 bytes of a section's name.
pub open spec fn stream_name_bytes(s: PcbDocSectionStreams) -> Seq<u8> {
    s.name@
}

/// Whether a section's streams read as a known section: both streams, a
/// known name, a 4-byte header and a data stream its kind accepts.
pub open spec fn section_streams_ok(s: PcbDocSectionStreams) -> bool {
    &&& s.header matches Some(h) && h@.len() == 4
    &&& s.data is Some
    &&& match spec_section_kind(stream_name_bytes(s)) {
        Some(PcbDocSectionKind::Primitive { object_id }) => section_objects(s.data.unwrap()@, object_id) is Some,
        Some(PcbDocSectionKind::Param) => spec_param_section(s.data.unwrap()@) is Some,
        Some(PcbDocSectionKind::PrefixedParam) => spec_prefixed_param_section(s.data.unwrap()@) is Some,
        Some(_) => true,
        None => false,
    }
}

/// The object payloads a primitive section contributes as records.
pub open spec fn section_new_payloads(s: PcbDocSectionStreams) -> Seq<Seq<u8>> {
    match spec_section_kind(stream_name_bytes(s)) {
        Some(PcbDocSectionKind::Primitive { object_id }) => section_objects(s.data.unwrap()@, object_id).unwrap(),
        _ => Seq::empty(),
    }
}

/// The object type of a primitive section's records.
pub open spec fn section_object_id(s: PcbDocSectionStreams) -> u8 {
    match spec_section_kind(stream_name_bytes(s)) {
        Some(PcbDocSectionKind::Primitive { object_id }) => object_id,
        _ => 0,
    }
}

/// Records contributed by the first `k` sections.
pub open spec fn records_before(ss: Seq<PcbDocSectionStreams>, k: int) -> nat
    decreases k,
{
    if k <= 0 {
        0
    } else {
        records_before(ss, k - 1) + section_new_payloads(ss[k - 1]).len()
    }
}

/// The metadata a section's streams give, its records numbered from
/// `first`.
pub open spec fn opened_section_view(s: PcbDocSectionStreams, first: nat) -> SectionView {
    let count = u32_at(s.header.unwrap()@, 0);
    let data = s.data.unwrap()@;
    match spec_section_kind(stream_name_bytes(s)) {
        Some(PcbDocSectionKind::Primitive { object_id }) => SectionView::Primitive(
            object_id,
            count,
            Seq::new(section_objects(data, object_id).unwrap().len(), |j: int| RecordId((first + j) as usize)),
        ),
        Some(PcbDocSectionKind::Param) => SectionView::Param(count, spec_param_section(data).unwrap()),
        Some(PcbDocSectionKind::PrefixedParam) => SectionView::PrefixedParam(
            count,
            spec_prefixed_param_section(data).unwrap(),
        ),
        Some(PcbDocSectionKind::Raw) => SectionView::Raw(count, data),
        _ => SectionView::Models(count, data, s.entries@.map_values(|e: PcbDocModelEntry| (e.index, e.data@))),
    }
}

/// The sections' names and metadata.
pub open spec fn opened_sections(ss: Seq<PcbDocSectionStreams>) -> Seq<(Seq<u8>, SectionView)> {
    Seq::new(ss.len(), |k: int| (stream_name_bytes(ss[k]), opened_section_view(ss[k], records_before(ss, k))))
}

/// Opens one section's streams, appending a primitive section's objects to
/// `records`.
fn open_section(s: &PcbDocSectionStreams, records: &mut Vec<PcbDocRecord>) -> (r: Result<PcbDocSection>)
    ensures
        r is Ok <==> section_streams_ok(*s),
        r matches Ok(sec) ==> {
            &&& sec.name@ == stream_name_bytes(*s)
            &&& section_view(sec.meta) == opened_section_view(*s, old(records)@.len())
            &&& final(records)@.len() == old(records)@.len() + section_new_payloads(*s).len()
            &&& final(records)@.take(old(records)@.len() as int) == old(records)@
            &&& forall|j: int|
                0 <= j < section_new_payloads(*s).len() ==> object_record(
                    #[trigger] final(records)@[old(records)@.len() + j],
                    section_object_id(*s),
                    section_new_payloads(*s)[j],
                    stream_name_bytes(*s),
                )
        },
{
    let name = s.name.as_slice();
    let shown = crate::documents::pcbdoc_io::text_from_utf8(name);
    let header = match &s.header {
        Some(h) => h,
        None => {
            let mut m = text("pcbdoc section '");
            m.append(shown.as_str());
            m.append("' missing Header stream");
            return Err(AltiumError::Parse(m));
        },
    };
    let data = match &s.data {
        Some(d) => d,
        None => {
            let mut m = text("pcbdoc section '");
            m.append(shown.as_str());
            m.append("' missing Data stream");
            return Err(AltiumError::Parse(m));
        },
    };
    let kind = match classify_section_kind(name) {
        Some(kd) => kd,
        None => {
            let mut m = text("pcbdoc contains unimplemented section '");
            m.append(shown.as_str());
            m.append("'");
            return Err(AltiumError::Parse(m));
        },
    };
    let header_path = crate::error::text2(shown.as_str(), "/Header");
    let header_count = match parse_u32_header_stream(header.as_slice(), header_path.as_str()) {
        Ok(c) => c,
        Err(e) => return Err(e),
    };
    let name_bytes = crate::wire::copy_range(name, 0, name.len());
    assert(name_bytes@ =~= stream_name_bytes(*s));
    let first = records.len();
    let meta = match kind {
        PcbDocSectionKind::Primitive { object_id } => {
            let mut parsed = match parse_primitive_section_data(data.as_slice(), name, object_id) {
                Ok(v) => v,
                Err(e) => return Err(e),
            };
            let ghost added = parsed@;
            let cnt = parsed.len();
            records.append(&mut parsed);
            let total = records.len();
            assert(total == first + cnt);
            let mut ids: Vec<RecordId> = Vec::new();
            let mut j: usize = 0;
            while j < cnt
                invariant
                    j <= cnt,
                    first + cnt <= usize::MAX,
                    ids@ == Seq::new(j as nat, |q: int| RecordId((first + q) as usize)),
                decreases cnt - j,
            {
                ids.push(RecordId(first + j));
                assert(ids@ =~= Seq::new((j + 1) as nat, |q: int| RecordId((first + q) as usize)));
                j = j + 1;
            }
            proof {
                assert(records@.take(first as int) =~= old(records)@);
                assert forall|j: int| 0 <= j < section_new_payloads(*s).len() implies object_record(
                    #[trigger] records@[first + j],
                    section_object_id(*s),
                    section_new_payloads(*s)[j],
                    stream_name_bytes(*s),
                ) by {
                    assert(records@[first + j] == added[j]);
                }
            }
            PcbDocSectionMeta::Primitive(PcbDocPrimitiveSectionMeta { object_id, header_count, record_ids: ids })
        },
        PcbDocSectionKind::Param => {
            let entries = match parse_param_section_data(data.as_slice()) {
                Ok(v) => v,
                Err(e) => return Err(e),
            };
            assert(records@.take(first as int) =~= old(records)@);
            PcbDocSectionMeta::Param(PcbDocParamSectionMeta { header_count, entries })
        },
        PcbDocSectionKind::PrefixedParam => {
            let entries = match parse_prefixed_param_section_data(data.as_slice()) {
                Ok(v) => v,
                Err(e) => return Err(e),
            };
            assert(records@.take(first as int) =~= old(records)@);
            PcbDocSectionMeta::PrefixedParam(PcbDocPrefixedParamSectionMeta { header_count, entries })
        },
        PcbDocSectionKind::Raw => {
            assert(records@.take(first as int) =~= old(records)@);
            PcbDocSectionMeta::Raw(PcbDocRawSectionMeta { header_count, data: dup_bytes(data) })
        },
        PcbDocSectionKind::Models => {
            assert(records@.take(first as int) =~= old(records)@);
            PcbDocSectionMeta::Models(
                PcbDocModelsSectionMeta { header_count, data: dup_bytes(data), entries: dup_entries(&s.entries) },
            )
        },
    };
    Ok(PcbDocSection { name: name_bytes, meta })
}

impl PcbDoc {
    /// A document from its streams: the root file headers and, in order,
    /// each section storage's streams. Primitive sections' objects become
    /// records, numbered in section order.
    #[verifier::rlimit(100)]
    pub fn from_streams(
        file_header: &Vec<u8>,
        file_header_six: &Option<Vec<u8>>,
        sections: &Vec<PcbDocSectionStreams>,
    ) -> (r: Result<PcbDoc>)
        ensures
            r is Ok <==> forall|k: int| 0 <= k < sections@.len() ==> section_streams_ok(#[trigger] sections@[k]),
            r matches Ok(doc) ==> {
                &&& meta_view(doc.spec_meta()) == (
                    file_header@,
                    match file_header_six {
                        Some(b) => Some(b@),
                        None => None,
                    },
                    opened_sections(sections@),
                )
                &&& doc.spec_records().len() == records_before(sections@, sections@.len() as int)
                &&& forall|k: int, j: int|
                    0 <= k < sections@.len() && 0 <= j < section_new_payloads(sections@[k]).len() ==> object_record(
                        #[trigger] doc.spec_records()[records_before(sections@, k) + j],
                        section_object_id(sections@[k]),
                        #[trigger] section_new_payloads(sections@[k])[j],
                        stream_name_bytes(sections@[k]),
                    )
            },
    {
        let mut out_sections: Vec<PcbDocSection> = Vec::new();
        let mut records: Vec<PcbDocRecord> = Vec::new();
        let mut k: usize = 0;
        while k < sections.len()
            invariant
                k <= sections@.len(),
                forall|q: int| 0 <= q < k ==> section_streams_ok(#[trigger] sections@[q]),
                out_sections@.len() == k,
                forall|q: int|
                    0 <= q < k ==> (#[trigger] out_sections@[q]).name@ == stream_name_bytes(sections@[q])
                        && section_view(out_sections@[q].meta) == opened_section_view(
                        sections@[q],
                        records_before(sections@, q),
                    ),
                records@.len() == records_before(sections@, k as int),
                forall|q: int, j: int|
                    0 <= q < k && 0 <= j < section_new_payloads(sections@[q]).len() ==> object_record(
                        #[trigger] records@[records_before(sections@, q) + j],
                        section_object_id(sections@[q]),
                        #[trigger] section_new_payloads(sections@[q])[j],
                        stream_name_bytes(sections@[q]),
                    ),
            decreases sections@.len() - k,
        {
            let ghost before = records@;
            let sec = match open_section(&sections[k], &mut records) {
                Ok(sec) => sec,
                Err(e) => return Err(e),
            };
            proof {
                lemma_records_extend(sections@, k as int, before, records@);
            }
            out_sections.push(sec);
            k = k + 1;
        }
        let fhs = match file_header_six {
            Some(b) => Some(dup_bytes(b)),
            None => None,
        };
        let doc = PcbDoc {
            meta: PcbDocStreamsMeta { file_header: dup_bytes(file_header), file_header_six: fhs, sections: out_sections },
            records,
        };
        assert(meta_view(doc.meta).2 =~= opened_sections(sections@));
        Ok(doc)
    }
}

/// Records opened for section `k`, appended to those of the sections
/// before it, keep what the earlier sections' records were.
proof fn lemma_records_extend(ss: Seq<PcbDocSectionStreams>, k: int, before: Seq<PcbDocRecord>, after: Seq<PcbDocRecord>)
    requires
        0 <= k < ss.len(),
        before.len() == records_before(ss, k),
        after.len() == before.len() + section_new_payloads(ss[k]).len(),
        after.take(before.len() as int) == before,
        forall|q: int, j: int|
            0 <= q < k && 0 <= j < section_new_payloads(ss[q]).len() ==> object_record(
                #[trigger] before[records_before(ss, q) + j],
                section_object_id(ss[q]),
                #[trigger] section_new_payloads(ss[q])[j],
                stream_name_bytes(ss[q]),
            ),
        forall|j: int|
            0 <= j < section_new_payloads(ss[k]).len() ==> object_record(
                #[trigger] after[before.len() + j],
                section_object_id(ss[k]),
                section_new_payloads(ss[k])[j],
                stream_name_bytes(ss[k]),
            ),
    ensures
        after.len() == records_before(ss, k + 1),
        forall|q: int, j: int|
            0 <= q < k + 1 && 0 <= j < section_new_payloads(ss[q]).len() ==> object_record(
                #[trigger] after[records_before(ss, q) + j],
                section_object_id(ss[q]),
                #[trigger] section_new_payloads(ss[q])[j],
                stream_name_bytes(ss[q]),
            ),
{
    lemma_records_before_mono(ss, k);
    assert forall|q: int, j: int|
        0 <= q < k + 1 && 0 <= j < section_new_payloads(ss[q]).len() implies object_record(
            #[trigger] after[records_before(ss, q) + j],
            section_object_id(ss[q]),
            #[trigger] section_new_payloads(ss[q])[j],
            stream_name_bytes(ss[q]),
        ) by {
        if q < k {
            lemma_records_before_le(ss, q + 1, k);
            lemma_records_before_mono(ss, q);
            assert(after[records_before(ss, q) + j] == after.take(before.len() as int)[records_before(ss, q) + j]);
        } else {
            assert(after[records_before(ss, q) + j] == after[before.len() + j]);
        }
    }
}

proof fn lemma_records_before_mono(ss: Seq<PcbDocSectionStreams>, k: int)
    requires
        0 <= k,
    ensures
        records_before(ss, k + 1) == records_before(ss, k) + section_new_payloads(ss[k]).len(),
{
}

proof fn lemma_records_before_le(ss: Seq<PcbDocSectionStreams>, a: int, b: int)
    requires
        0 <= a <= b,
    ensures
        records_before(ss, a) <= records_before(ss, b),
    decreases b - a,
{
    if a < b {
        lemma_records_before_le(ss, a, b - 1);
    }
}

fn dup_entries(v: &Vec<PcbDocModelEntry>) -> (r: Vec<PcbDocModelEntry>)
    ensures
        r@.map_values(|e: PcbDocModelEntry| (e.index, e.data@)) == v@.map_values(|e: PcbDocModelEntry| (e.index, e.data@)),
{
    let mut out: Vec<PcbDocModelEntry> = Vec::new();
    let mut i: usize = 0;
    while i < v.len()
        invariant
            i <= v@.len(),
            out@.map_values(|e: PcbDocModelEntry| (e.index, e.data@)) == v@.take(i as int).map_values(
                |e: PcbDocModelEntry| (e.index, e.data@),
            ),
        decreases v@.len() - i,
    {
        let ghost before = out@;
        out.push(PcbDocModelEntry { index: v[i].index, data: dup_bytes(&v[i].data) });
        assert(v@.take(i + 1) =~= v@.take(i as int).push(v@[i as int]));
        assert(out@.map_values(|e: PcbDocModelEntry| (e.index, e.data@)) =~= before.map_values(
            |e: PcbDocModelEntry| (e.index, e.data@),
        ).push((v@[i as int].index, v@[i as int].data@)));
        assert(out@.map_values(|e: PcbDocModelEntry| (e.index, e.data@)) =~= v@.take(i + 1).map_values(
            |e: PcbDocModelEntry| (e.index, e.data@),
        ));
        i = i + 1;
    }
    assert(v@.take(i as int) =~= v@);
    out
}

// ---------------------------------------------------------------------------
// Flattening a document into its streams
// ---------------------------------------------------------------------------

/// The streams written for one section storage.
pub struct PcbDocSectionOut {
    pub name: Vec<u8>,
    /// `Header`: the section's count as a `u32`.
    pub header: Vec<u8>,
    pub data: Vec<u8>,
    /// Numbered `Models` entries (empty for other sections).
    pub entries: Vec<PcbDocModelEntry>,
}

/// The streams of a PcbDoc: root headers, then each section storage.
pub struct PcbDocStreamsOut {
    pub file_header: Vec<u8>,
    pub file_header_six: Option<Vec<u8>>,
    pub sections: Vec<PcbDocSectionOut>,
}

/// Whether a section can be written: a primitive section's records are
/// binary records of its type; parameter texts fit a `u32` length.
pub open spec fn section_writable(m: PcbDocSectionMeta, records: Seq<PcbDocRecord>) -> bool {
    match m {
        PcbDocSectionMeta::Primitive(p) => crate::documents::pcbdoc_io::section_records_ok(records, p.record_ids@, p.object_id),
        PcbDocSectionMeta::Param(p) => forall|i: int|
            0 <= i < p.entries@.len() ==> crate::params::ser_params(#[trigger] p.entries@[i]@).len() <= u32::MAX,
        PcbDocSectionMeta::PrefixedParam(p) => forall|i: int|
            0 <= i < p.entries@.len() ==> crate::params::ser_params((#[trigger] p.entries@[i]).params@).len()
                <= u32::MAX,
        _ => true,
    }
}

/// The `Data` stream written for a section.
pub open spec fn section_data(m: PcbDocSectionMeta, records: Seq<PcbDocRecord>) -> Seq<u8> {
    match m {
        PcbDocSectionMeta::Primitive(p) => crate::documents::pcbdoc_io::enc_objects(
            p.object_id,
            crate::documents::pcbdoc_io::section_payloads(records, p.record_ids@),
        ),
        PcbDocSectionMeta::Param(p) => crate::documents::pcbdoc_streams::enc_param_section(
            crate::documents::pcbdoc_streams::collections_view(p.entries@),
        ),
        PcbDocSectionMeta::PrefixedParam(p) => crate::documents::pcbdoc_streams::enc_prefixed_param_section(
            crate::documents::pcbdoc_streams::prefixed_entries_view(p.entries@),
        ),
        PcbDocSectionMeta::Raw(p) => p.data@,
        PcbDocSectionMeta::Models(p) => p.data@,
    }
}

/// The numbered entries written for a section.
pub open spec fn section_entries(m: PcbDocSectionMeta) -> Seq<(u32, Seq<u8>)> {
    match m {
        PcbDocSectionMeta::Models(p) => p.entries@.map_values(|e: PcbDocModelEntry| (e.index, e.data@)),
        _ => Seq::empty(),
    }
}

/// Writes one section's streams.
fn write_section(sec: &PcbDocSection, records: &Vec<PcbDocRecord>) -> (r: Result<PcbDocSectionOut>)
    requires
        sec.meta matches PcbDocSectionMeta::Primitive(p) ==> forall|k: int|
            0 <= k < p.record_ids@.len() ==> (#[trigger] p.record_ids@[k]).0 < records@.len(),
    ensures
        r is Ok <==> section_writable(sec.meta, records@),
        r matches Ok(o) ==> {
            &&& o.name@ == sec.name@
            &&& o.header@ == le32(crate::documents::pcbdoc_streams::section_header_count(sec.meta))
            &&& o.data@ == section_data(sec.meta, records@)
            &&& o.entries@.map_values(|e: PcbDocModelEntry| (e.index, e.data@)) == section_entries(sec.meta)
        },
{
    let header = crate::documents::pcbdoc_streams::serialize_u32_header_stream(sec.meta.header_count());
    let data = match &sec.meta {
        PcbDocSectionMeta::Primitive(p) => match crate::documents::pcbdoc_io::build_primitive_section_data(
            records.as_slice(),
            p.record_ids.as_slice(),
            p.object_id,
        ) {
            Ok(d) => d,
            Err(e) => return Err(e),
        },
        PcbDocSectionMeta::Param(p) => match crate::documents::pcbdoc_streams::serialize_param_section_data(
            p.entries.as_slice(),
        ) {
            Ok(d) => d,
            Err(e) => return Err(e),
        },
        PcbDocSectionMeta::PrefixedParam(p) => match crate::documents::pcbdoc_streams::serialize_prefixed_param_section_data(
            p.entries.as_slice(),
        ) {
            Ok(d) => d,
            Err(e) => return Err(e),
        },
        PcbDocSectionMeta::Raw(p) => dup_bytes(&p.data),
        PcbDocSectionMeta::Models(p) => dup_bytes(&p.data),
    };
    let entries = match &sec.meta {
        PcbDocSectionMeta::Models(p) => dup_entries(&p.entries),
        _ => Vec::new(),
    };
    assert(entries@.map_values(|e: PcbDocModelEntry| (e.index, e.data@)) =~= section_entries(sec.meta));
    Ok(PcbDocSectionOut { name: dup_bytes(&sec.name), header, data, entries })
}

impl PcbDoc {
    /// The document's streams: the root headers and, in section order, each
    /// section's `Header` (its count), `Data` and numbered entries.
    pub fn to_streams(&self) -> (r: Result<PcbDocStreamsOut>)
        requires
            ids_valid(self.spec_meta(), self.spec_records().len()),
        ensures
            r is Ok <==> forall|k: int|
                0 <= k < self.spec_meta().sections@.len() ==> section_writable(
                    (#[trigger] self.spec_meta().sections@[k]).meta,
                    self.spec_records(),
                ),
            r matches Ok(o) ==> {
                &&& o.file_header@ == self.spec_meta().file_header@
                &&& o.file_header_six.is_some() == self.spec_meta().file_header_six.is_some()
                &&& (o.file_header_six matches Some(b) ==> b@ == self.spec_meta().file_header_six.unwrap()@)
                &&& o.sections@.len() == self.spec_meta().sections@.len()
                &&& forall|k: int|
                    0 <= k < o.sections@.len() ==> {
                        let sec = self.spec_meta().sections@[k];
                        &&& (#[trigger] o.sections@[k]).name@ == sec.name@
                        &&& o.sections@[k].header@ == le32(
                            crate::documents::pcbdoc_streams::section_header_count(sec.meta),
                        )
                        &&& o.sections@[k].data@ == section_data(sec.meta, self.spec_records())
                        &&& o.sections@[k].entries@.map_values(|e: PcbDocModelEntry| (e.index, e.data@))
                            == section_entries(sec.meta)
                    }
            },
    {
        let mut out: Vec<PcbDocSectionOut> = Vec::new();
        let mut k: usize = 0;
        while k < self.meta.sections.len()
            invariant
                k <= self.meta.sections@.len(),
                ids_valid(self.meta, self.records@.len()),
                forall|q: int| 0 <= q < k ==> section_writable((#[trigger] self.meta.sections@[q]).meta, self.records@),
                out@.len() == k,
                forall|q: int|
                    0 <= q < k ==> {
                        let sec = self.meta.sections@[q];
                        &&& (#[trigger] out@[q]).name@ == sec.name@
                        &&& out@[q].header@ == le32(crate::documents::pcbdoc_streams::section_header_count(sec.meta))
                        &&& out@[q].data@ == section_data(sec.meta, self.records@)
                        &&& out@[q].entries@.map_values(|e: PcbDocModelEntry| (e.index, e.data@)) == section_entries(
                            sec.meta,
                        )
                    },
            decreases self.meta.sections@.len() - k,
        {
            let o = match write_section(&self.meta.sections[k], &self.records) {
                Ok(o) => o,
                Err(e) => return Err(e),
            };
            out.push(o);
            k = k + 1;
        }
        let fhs = match &self.meta.file_header_six {
            Some(b) => Some(dup_bytes(b)),
            None => None,
        };
        Ok(PcbDocStreamsOut { file_header: dup_bytes(&self.meta.file_header), file_header_six: fhs, sections: out })
    }
}


/// Whether a section's metadata is of the kind its name gives and its
/// contents read back: a primitive section's records carry payloads that
/// read back as objects of its type; parameter sections hold non-empty,
/// valid collections.
pub open spec fn section_reopenable(name: Seq<u8>, m: PcbDocSectionMeta, records: Seq<PcbDocRecord>) -> bool {
    match (spec_section_kind(name), m) {
        (Some(PcbDocSectionKind::Primitive { object_id }), PcbDocSectionMeta::Primitive(p)) => p.object_id == object_id
            && forall|k: int|
            0 <= k < p.record_ids@.len() ==> crate::documents::pcbdoc_io::object_payload_ok(
                object_id,
                #[trigger] crate::documents::pcbdoc_io::section_payloads(records, p.record_ids@)[k],
            ),
        (Some(PcbDocSectionKind::Param), PcbDocSectionMeta::Param(p)) => crate::documents::pcbdoc_streams::param_section_ok(
            crate::documents::pcbdoc_streams::collections_view(p.entries@),
        ),
        (Some(PcbDocSectionKind::PrefixedParam), PcbDocSectionMeta::PrefixedParam(p)) => crate::documents::pcbdoc_streams::prefixed_section_ok(
            crate::documents::pcbdoc_streams::prefixed_entries_view(p.entries@),
        ),
        (Some(PcbDocSectionKind::Raw), PcbDocSectionMeta::Raw(_)) => true,
        (Some(PcbDocSectionKind::Models), PcbDocSectionMeta::Models(_)) => true,
        _ => false,
    }
}

/// Whether `s` holds the streams written for the section (as `to_streams`
/// gives them): its name, its count as `Header`, its data and entries.
pub open spec fn written_streams_of(s: PcbDocSectionStreams, sec: PcbDocSection, records: Seq<PcbDocRecord>) -> bool {
    &&& s.name@ == sec.name@
    &&& s.header matches Some(h) && h@ == le32(crate::documents::pcbdoc_streams::section_header_count(sec.meta))
    &&& s.data matches Some(d) && d@ == section_data(sec.meta, records)
    &&& s.entries@.map_values(|e: PcbDocModelEntry| (e.index, e.data@)) == section_entries(sec.meta)
}

/// A section's metadata with a primitive section's records numbered afresh
/// from `first`.
pub open spec fn renumbered_view(m: PcbDocSectionMeta, first: nat) -> SectionView {
    match m {
        PcbDocSectionMeta::Primitive(p) => SectionView::Primitive(
            p.object_id,
            p.header_count,
            Seq::new(p.record_ids@.len(), |j: int| RecordId((first + j) as usize)),
        ),
        _ => section_view(m),
    }
}

/// The payloads a section's records are written with.
pub open spec fn written_payloads(m: PcbDocSectionMeta, records: Seq<PcbDocRecord>) -> Seq<Seq<u8>> {
    match m {
        PcbDocSectionMeta::Primitive(p) => crate::documents::pcbdoc_io::section_payloads(records, p.record_ids@),
        _ => Seq::empty(),
    }
}

/// Reading back a written section gives its metadata, its records
/// numbered afresh, and the payloads it was written with.
pub proof fn lemma_section_reopen(s: PcbDocSectionStreams, sec: PcbDocSection, records: Seq<PcbDocRecord>, first: nat)
    requires
        written_streams_of(s, sec, records),
        section_reopenable(sec.name@, sec.meta, records),
    ensures
        section_streams_ok(s),
        opened_section_view(s, first) == renumbered_view(sec.meta, first),
        section_new_payloads(s) == written_payloads(sec.meta, records),
{
    let count = crate::documents::pcbdoc_streams::section_header_count(sec.meta);
    crate::documents::pcbdoc_streams::lemma_header_stream_roundtrip(count);
    let data = s.data.unwrap()@;
    match sec.meta {
        PcbDocSectionMeta::Primitive(p) => {
            let ps = crate::documents::pcbdoc_io::section_payloads(records, p.record_ids@);
            crate::documents::pcbdoc_io::lemma_objects_roundtrip(p.object_id, ps);
        },
        PcbDocSectionMeta::Param(p) => {
            crate::documents::pcbdoc_streams::lemma_param_section_roundtrip(
                crate::documents::pcbdoc_streams::collections_view(p.entries@),
            );
        },
        PcbDocSectionMeta::PrefixedParam(p) => {
            crate::documents::pcbdoc_streams::lemma_prefixed_param_section_roundtrip(
                crate::documents::pcbdoc_streams::prefixed_entries_view(p.entries@),
            );
        },
        _ => {},
    }
}

/// Writing a document's streams and reading them back gives each section
/// again: its name, kind, count and contents, with the records numbered
/// afresh in section order, each carrying the payload of the record it was
/// written from.
pub proof fn lemma_pcbdoc_reopen(meta: PcbDocStreamsMeta, records: Seq<PcbDocRecord>, ss: Seq<PcbDocSectionStreams>)
    requires
        ss.len() == meta.sections@.len(),
        forall|k: int|
            0 <= k < ss.len() ==> written_streams_of(#[trigger] ss[k], meta.sections@[k], records)
                && section_reopenable(meta.sections@[k].name@, meta.sections@[k].meta, records),
    ensures
        forall|k: int| 0 <= k < ss.len() ==> section_streams_ok(#[trigger] ss[k]),
        forall|k: int|
            0 <= k < ss.len() ==> #[trigger] opened_sections(ss)[k] == (
                meta.sections@[k].name@,
                renumbered_view(meta.sections@[k].meta, records_before(ss, k)),
            ),
        forall|k: int|
            0 <= k < ss.len() ==> #[trigger] section_new_payloads(ss[k]) == written_payloads(meta.sections@[k].meta, records),
{
    assert forall|k: int| 0 <= k < ss.len() implies section_streams_ok(#[trigger] ss[k])
        && opened_sections(ss)[k] == (
            meta.sections@[k].name@,
            renumbered_view(meta.sections@[k].meta, records_before(ss, k)),
        ) && section_new_payloads(ss[k]) == written_payloads(meta.sections@[k].meta, records) by {
        lemma_section_reopen(ss[k], meta.sections@[k], records, records_before(ss, k));
    }
}

} // verus!
