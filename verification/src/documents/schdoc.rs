//! SchDoc documents: records grouped by `OWNERINDEX`.
//!
//! Component records (`RECORD=1`) form groups with the records whose
//! `OWNERINDEX` names them; every other record is an orphan. The records
//! keep their order; a group's place in the group order is the position of
//! its component record among the component records.
use vstd::prelude::*;
use vstd::string::StringSliceAdditionalSpecFns;

use crate::documents::blocks::{blocks_view, decode_param_payload, push_block, RawBlock};
use crate::documents::pcbdoc_streams::RecordId;
use crate::error::{text, AltiumError, Result};
use crate::params::{lookup, parse_i32, ParameterCollection};
use crate::record_ids::{is_known_record_code, SchRecordId};
use crate::wire::{read_u32_le, u32_at, SIZE_FLAG_MASK};
use crate::documents::blocks::enc_block;
use crate::params::{decimal_digits, ser_params, set_param};
use vstd::relations::{sorted_by, total_ordering};

verus! {

/// Where a record's bytes came from.
#[derive(Clone, Debug)]
pub enum RecordOrigin {
    /// A `|KEY=VALUE` text record.
    Param(ParameterCollection),
    /// A binary record (the payload after the block header).
    Binary(Vec<u8>),
}

/// The stream a SchDoc record is written to.
#[derive(Clone, Copy, Debug, PartialEq, Eq, Structural)]
pub enum SchDocStream {
    FileHeader,
    Additional,
}

/// One record with its record-type key.
#[derive(Clone, Debug)]
pub struct RecordNode {
    pub key: u8,
    pub origin: RecordOrigin,
    pub stream: SchDocStream,
}

/// A record's place in the document.
#[derive(Clone, Copy, Debug, PartialEq, Eq, Structural)]
pub enum Place {
    /// The parent record of a component group.
    Component,
    /// A child of the component group with this index.
    Child(usize),
    /// A record owned by no component.
    Orphan,
}

/// A record of a SchDoc with its place and its index in the source stream.
#[derive(Clone, Debug)]
pub struct SchDocRecord {
    pub node: RecordNode,
    pub place: Place,
    /// Block index in the source stream; `usize::MAX` for records added later.
    pub original_index: usize,
}

/// Typed `/FileHeader` header-block metadata.
#[derive(Clone, Debug)]
pub struct SchDocFileHeaderStreamMeta {
    pub params: ParameterCollection,
}

/// Typed `/Additional` header-block metadata.
#[derive(Clone, Debug)]
pub struct SchDocAdditionalStreamMeta {
    pub params: ParameterCollection,
}

/// Typed `/Storage` stream bytes.
#[derive(Clone, Debug)]
pub struct SchDocStorageStreamMeta {
    pub data: Vec<u8>,
}

/// A parsed SchDoc document.
pub struct SchDoc {
    records: Vec<SchDocRecord>,
    file_header_meta: SchDocFileHeaderStreamMeta,
    additional_meta: Option<SchDocAdditionalStreamMeta>,
    storage_meta: SchDocStorageStreamMeta,
}

/// `OWNERINDEX` of a text record, or -1 when absent, not an `i32`, or binary.
pub open spec fn owner_index(n: RecordNode) -> int {
    match n.origin {
        RecordOrigin::Param(p) => match lookup(p@, "OWNERINDEX".spec_bytes()) {
            Some(v) => match parse_i32(v) {
                Some(x) => x as int,
                None => -1,
            },
            None => -1,
        },
        RecordOrigin::Binary(_) => -1,
    }
}

/// Number of component records.
pub open spec fn count_components(s: Seq<SchDocRecord>) -> nat
    decreases s.len(),
{
    if s.len() == 0 {
        0
    } else {
        count_components(s.drop_last()) + if s.last().place == Place::Component {
            1nat
        } else {
            0nat
        }
    }
}

/// Number of records with a given place.
pub open spec fn count_place(s: Seq<SchDocRecord>, p: Place) -> nat
    decreases s.len(),
{
    if s.len() == 0 {
        0
    } else {
        count_place(s.drop_last(), p) + if s.last().place == p {
            1nat
        } else {
            0nat
        }
    }
}

/// Number of records with a given record-type key.
pub open spec fn count_key(s: Seq<SchDocRecord>, k: u8) -> nat
    decreases s.len(),
{
    if s.len() == 0 {
        0
    } else {
        count_key(s.drop_last(), k) + if s.last().node.key == k {
            1nat
        } else {
            0nat
        }
    }
}

/// The place a record gets when `ncomp` components exist.
pub open spec fn spec_place(n: RecordNode, ncomp: nat) -> Place {
    if n.key == 1 {
        Place::Component
    } else if 0 <= owner_index(n) < ncomp {
        Place::Child(owner_index(n) as usize)
    } else {
        Place::Orphan
    }
}

/// Number of key-1 records among parsed records.
pub open spec fn count_key1(s: Seq<(usize, RecordNode)>) -> nat
    decreases s.len(),
{
    if s.len() == 0 {
        0
    } else {
        count_key1(s.drop_last()) + if s.last().1.key == 1 {
            1nat
        } else {
            0nat
        }
    }
}

/// Every child names an existing group.
pub open spec fn places_ok(s: Seq<SchDocRecord>) -> bool {
    forall|i: int|
        0 <= i < s.len() ==> match (#[trigger] s[i]).place {
            Place::Child(g) => g < count_components(s),
            _ => true,
        }
}

/// Ids of records, in order, whose record satisfies `f`.
pub open spec fn ids_where(s: Seq<SchDocRecord>, f: spec_fn(SchDocRecord) -> bool) -> Seq<RecordId>
    decreases s.len(),
{
    if s.len() == 0 {
        Seq::empty()
    } else {
        let r = ids_where(s.drop_last(), f);
        if f(s.last()) {
            r.push(RecordId((s.len() - 1) as usize))
        } else {
            r
        }
    }
}

pub proof fn lemma_count_components_push(s: Seq<SchDocRecord>, r: SchDocRecord)
    ensures
        count_components(s.push(r)) == count_components(s) + if r.place == Place::Component {
            1nat
        } else {
            0nat
        },
        count_place(s.push(r), Place::Orphan) == count_place(s, Place::Orphan) + if r.place
            == Place::Orphan {
            1nat
        } else {
            0nat
        },
{
    assert(s.push(r).drop_last() =~= s);
}

pub proof fn lemma_count_key_push(s: Seq<SchDocRecord>, r: SchDocRecord, k: u8)
    ensures
        count_key(s.push(r), k) == count_key(s, k) + if r.node.key == k {
            1nat
        } else {
            0nat
        },
{
    assert(s.push(r).drop_last() =~= s);
}

pub proof fn lemma_ids_where_push(s: Seq<SchDocRecord>, r: SchDocRecord, f: spec_fn(SchDocRecord) -> bool)
    ensures
        ids_where(s.push(r), f) == if f(r) {
            ids_where(s, f).push(RecordId(s.len() as usize))
        } else {
            ids_where(s, f)
        },
{
    assert(s.push(r).drop_last() =~= s);
}

pub proof fn lemma_places_ok_push(s: Seq<SchDocRecord>, r: SchDocRecord)
    requires
        places_ok(s),
        match r.place {
            Place::Child(g) => g < count_components(s),
            _ => true,
        },
    ensures
        places_ok(s.push(r)),
{
    lemma_count_components_push(s, r);
    assert forall|i: int| 0 <= i < s.push(r).len() implies match (#[trigger] s.push(r)[i]).place {
        Place::Child(g) => g < count_components(s.push(r)),
        _ => true,
    } by {
        if i < s.len() {
            assert(s.push(r)[i] == s[i]);
        }
    }
}

/// Two records with the same key, stream and content.
pub open spec fn same_record(a: RecordNode, b: RecordNode) -> bool {
    a.key == b.key && a.stream == b.stream && match (a.origin, b.origin) {
        (RecordOrigin::Param(x), RecordOrigin::Param(y)) => x@ == y@,
        (RecordOrigin::Binary(x), RecordOrigin::Binary(y)) => x@ == y@,
        _ => false,
    }
}

/// Reads `OWNERINDEX` of a record, or -1.
fn owner_index_exec(n: &RecordNode) -> (r: i64)
    ensures
        r == owner_index(*n),
{
    match &n.origin {
        RecordOrigin::Param(p) => match p.get("OWNERINDEX") {
            Some(v) => match crate::params::parse_i32_bytes(v.bytes.as_slice()) {
                Some(x) => x as i64,
                None => -1,
            },
            None => -1,
        },
        RecordOrigin::Binary(_) => -1,
    }
}

/// Groups parsed `(block index, record)` pairs by `OWNERINDEX`.
pub fn group_by_owner_index(records: Vec<(usize, RecordNode)>) -> (r: Vec<SchDocRecord>)
    ensures
        r@.len() == records@.len(),
        count_components(r@) == count_key1(records@),
        places_ok(r@),
        forall|j: int|
            0 <= j < records@.len() ==> (#[trigger] r@[j]).node == records@[j].1
                && r@[j].original_index == records@[j].0 && r@[j].place == spec_place(
                records@[j].1,
                count_key1(records@),
            ),
{
    let ghost all = records@;
    let mut ncomp: usize = 0;
    let mut i: usize = 0;
    while i < records.len()
        invariant
            i <= records@.len(),
            ncomp == count_key1(records@.take(i as int)),
            ncomp <= i,
        decreases records@.len() - i,
    {
        assert(records@.take(i + 1).drop_last() =~= records@.take(i as int));
        if records[i].1.key == 1 {
            ncomp = ncomp + 1;
        }
        i = i + 1;
    }
    assert(records@.take(i as int) =~= records@);
    let ghost nc = ncomp as nat;
    let mut rest = records;
    let mut out: Vec<SchDocRecord> = Vec::new();
    while rest.len() > 0
        invariant
            ncomp == nc,
            nc == count_key1(all),
            out@.len() + rest@.len() == all.len(),
            rest@ == all.subrange(out@.len() as int, all.len() as int),
            count_components(out@) == count_key1(all.take(out@.len() as int)),
            forall|k: int|
                0 <= k < out@.len() ==> (#[trigger] out@[k]).node == all[k].1 && out@[k].original_index
                    == all[k].0 && out@[k].place == spec_place(all[k].1, nc),
        decreases rest@.len(),
    {
        let ghost j = out@.len() as int;
        let (idx, node) = rest.remove(0);
        assert(all[j] == (idx, node));
        let place = if node.key == 1 {
            Place::Component
        } else {
            let o = owner_index_exec(&node);
            if 0 <= o && (o as u64) < (ncomp as u64) {
                assert(0 <= owner_index(node) < nc);
                Place::Child(o as usize)
            } else {
                assert(!(0 <= owner_index(node) < nc));
                Place::Orphan
            }
        };
        assert(place == spec_place(node, nc));
        let rec = SchDocRecord { node, place, original_index: idx };
        assert(rec.node == all[j].1);
        assert(rec.place == spec_place(all[j].1, nc));
        proof {
            assert(all.take(j + 1).drop_last() =~= all.take(j));
            lemma_count_components_push(out@, rec);
        }
        let ghost before = out@;
        out.push(rec);
        assert(out@[j] == rec);
        assert(forall|k: int| 0 <= k < j ==> out@[k] == before[k]);
        assert(rest@ =~= all.subrange(out@.len() as int, all.len() as int));
    }
    assert(all.take(out@.len() as int) =~= all);
    assert forall|k: int| 0 <= k < out@.len() implies match (#[trigger] out@[k]).place {
        Place::Child(g) => g < count_components(out@),
        _ => true,
    } by {
        assert(out@[k].place == spec_place(all[k].1, nc));
    }
    out
}

impl RecordNode {
    /// A copy of the record.
    pub fn clone_node(&self) -> (r: RecordNode)
        ensures
            same_record(r, *self),
    {
        let origin = match &self.origin {
            RecordOrigin::Param(p) => RecordOrigin::Param(p.duplicate()),
            RecordOrigin::Binary(b) => RecordOrigin::Binary(b.clone()),
        };
        RecordNode { key: self.key, origin, stream: self.stream }
    }
}


impl RecordNode {
    /// A text record with the given record-type key, written to `/FileHeader`.
    pub fn from_text(key: u8, params: &str) -> (r: RecordNode)
        ensures
            r.key == key,
            r.stream == SchDocStream::FileHeader,
            r.origin matches RecordOrigin::Param(p) && p@ == crate::params::parse_params(
                crate::encoding::win1252_encoded(params@),
            ),
    {
        RecordNode {
            key,
            origin: RecordOrigin::Param(ParameterCollection::from_string(params)),
            stream: SchDocStream::FileHeader,
        }
    }
}

pub open spec fn is_component_rec(r: SchDocRecord) -> bool {
    r.place == Place::Component
}

pub open spec fn is_orphan_rec(r: SchDocRecord) -> bool {
    r.place == Place::Orphan
}

impl SchDocFileHeaderStreamMeta {
    /// Header metadata with no parameters.
    pub fn new() -> (r: Self)
        ensures
            r.params@.len() == 0,
    {
        SchDocFileHeaderStreamMeta { params: ParameterCollection::new() }
    }
}

impl SchDocStorageStreamMeta {
    /// Empty storage stream.
    pub fn new() -> (r: Self)
        ensures
            r.data@.len() == 0,
    {
        SchDocStorageStreamMeta { data: Vec::new() }
    }
}

impl SchDoc {
    /// The records in order.
    pub closed spec fn view(&self) -> Seq<SchDocRecord> {
        self.records@
    }

    /// Parameters of the `/FileHeader` header block.
    pub closed spec fn spec_file_header(&self) -> Seq<(Seq<u8>, Seq<u8>)> {
        self.file_header_meta.params@
    }

    /// Parameters of the `/Additional` header block, when the stream exists.
    pub closed spec fn spec_additional(&self) -> Option<Seq<(Seq<u8>, Seq<u8>)>> {
        match self.additional_meta {
            Some(m) => Some(m.params@),
            None => None,
        }
    }

    /// `/Storage` stream bytes.
    pub closed spec fn spec_storage(&self) -> Seq<u8> {
        self.storage_meta.data@
    }

    /// Every child names an existing group.
    #[verifier::type_invariant]
    closed spec fn well_formed(&self) -> bool {
        places_ok(self.records@)
    }

    /// Create a new empty SchDoc document.
    pub fn new_empty() -> (r: Self)
        ensures
            r.view().len() == 0,
            r.spec_file_header().len() == 0,
            r.spec_additional() is None,
            r.spec_storage().len() == 0,
    {
        SchDoc {
            records: Vec::new(),
            file_header_meta: SchDocFileHeaderStreamMeta::new(),
            additional_meta: None,
            storage_meta: SchDocStorageStreamMeta::new(),
        }
    }

    /// A document from parsed `(block index, record)` pairs grouped by `OWNERINDEX`.
    pub fn from_records(
        records: Vec<(usize, RecordNode)>,
        file_header_meta: SchDocFileHeaderStreamMeta,
        additional_meta: Option<SchDocAdditionalStreamMeta>,
        storage_meta: SchDocStorageStreamMeta,
    ) -> (r: Self)
        ensures
            r.view().len() == records@.len(),
            count_components(r.view()) == count_key1(records@),
            forall|j: int|
                0 <= j < records@.len() ==> (#[trigger] r.view()[j]).node == records@[j].1
                    && r.view()[j].original_index == records@[j].0 && r.view()[j].place
                    == spec_place(records@[j].1, count_key1(records@)),
            r.spec_file_header() == file_header_meta.params@,
            r.spec_additional() == match additional_meta {
                Some(m) => Some(m.params@),
                None => None::<Seq<(Seq<u8>, Seq<u8>)>>,
            },
            r.spec_storage() == storage_meta.data@,
    {
        let grouped = group_by_owner_index(records);
        SchDoc { records: grouped, file_header_meta, additional_meta, storage_meta }
    }

    /// Returns typed `/FileHeader` stream metadata.
    pub fn file_header_meta(&self) -> (r: SchDocFileHeaderStreamMeta)
        ensures
            r.params@ == self.spec_file_header(),
    {
        SchDocFileHeaderStreamMeta { params: self.file_header_meta.params.duplicate() }
    }

    /// Replace typed `/FileHeader` stream metadata.
    pub fn set_file_header_meta(&mut self, meta: SchDocFileHeaderStreamMeta) -> (r: Result<()>)
        ensures
            r is Ok,
            final(self).spec_file_header() == meta.params@,
            final(self).view() == old(self).view(),
            final(self).spec_additional() == old(self).spec_additional(),
            final(self).spec_storage() == old(self).spec_storage(),
    {
        proof {
            use_type_invariant(&*self);
        }
        self.file_header_meta = meta;
        Ok(())
    }

    /// Returns typed `/Additional` stream metadata if the stream exists.
    pub fn additional_meta(&self) -> (r: Option<SchDocAdditionalStreamMeta>)
        ensures
            match r {
                Some(m) => self.spec_additional() == Some(m.params@),
                None => self.spec_additional() is None,
            },
    {
        match &self.additional_meta {
            Some(m) => Some(SchDocAdditionalStreamMeta { params: m.params.duplicate() }),
            None => None,
        }
    }

    /// Replace typed `/Additional` stream metadata.
    pub fn set_additional_meta(&mut self, meta: Option<SchDocAdditionalStreamMeta>) -> (r: Result<()>)
        ensures
            r is Ok,
            final(self).spec_additional() == match meta {
                Some(m) => Some(m.params@),
                None => None,
            },
            final(self).view() == old(self).view(),
            final(self).spec_file_header() == old(self).spec_file_header(),
            final(self).spec_storage() == old(self).spec_storage(),
    {
        proof {
            use_type_invariant(&*self);
        }
        self.additional_meta = meta;
        Ok(())
    }

    /// Returns typed `/Storage` stream metadata.
    pub fn storage_meta(&self) -> (r: SchDocStorageStreamMeta)
        ensures
            r.data@ == self.spec_storage(),
    {
        SchDocStorageStreamMeta { data: self.storage_meta.data.clone() }
    }

    /// Replace typed `/Storage` stream metadata.
    pub fn set_storage_meta(&mut self, meta: SchDocStorageStreamMeta) -> (r: Result<()>)
        ensures
            r is Ok,
            final(self).spec_storage() == meta.data@,
            final(self).view() == old(self).view(),
            final(self).spec_file_header() == old(self).spec_file_header(),
            final(self).spec_additional() == old(self).spec_additional(),
    {
        proof {
            use_type_invariant(&*self);
        }
        self.storage_meta = meta;
        Ok(())
    }

    /// Returns the number of components (groups) in the document.
    pub fn component_count(&self) -> (r: usize)
        ensures
            r == count_components(self.view()),
    {
        let mut n: usize = 0;
        let mut i: usize = 0;
        while i < self.records.len()
            invariant
                i <= self.records@.len(),
                n == count_components(self.records@.take(i as int)),
                n <= i,
            decreases self.records@.len() - i,
        {
            proof {
                lemma_count_components_push(self.records@.take(i as int), self.records@[i as int]);
                assert(self.records@.take(i + 1) =~= self.records@.take(i as int).push(
                    self.records@[i as int],
                ));
            }
            if self.records[i].place == Place::Component {
                n = n + 1;
            }
            i = i + 1;
        }
        assert(self.records@.take(i as int) =~= self.records@);
        n
    }

    /// Returns the number of orphan records (records not owned by any component).
    pub fn orphan_count(&self) -> (r: usize)
        ensures
            r == count_place(self.view(), Place::Orphan),
    {
        let mut n: usize = 0;
        let mut i: usize = 0;
        while i < self.records.len()
            invariant
                i <= self.records@.len(),
                n == count_place(self.records@.take(i as int), Place::Orphan),
                n <= i,
            decreases self.records@.len() - i,
        {
            proof {
                lemma_count_components_push(self.records@.take(i as int), self.records@[i as int]);
                assert(self.records@.take(i + 1) =~= self.records@.take(i as int).push(
                    self.records@[i as int],
                ));
            }
            if self.records[i].place == Place::Orphan {
                n = n + 1;
            }
            i = i + 1;
        }
        assert(self.records@.take(i as int) =~= self.records@);
        n
    }

    /// Count all records of a given type across groups and orphans.
    pub fn count_record_type(&self, record_id: u8) -> (r: usize)
        ensures
            r == count_key(self.view(), record_id),
    {
        let mut n: usize = 0;
        let mut i: usize = 0;
        while i < self.records.len()
            invariant
                i <= self.records@.len(),
                n == count_key(self.records@.take(i as int), record_id),
                n <= i,
            decreases self.records@.len() - i,
        {
            proof {
                lemma_count_key_push(self.records@.take(i as int), self.records@[i as int], record_id);
                assert(self.records@.take(i + 1) =~= self.records@.take(i as int).push(
                    self.records@[i as int],
                ));
            }
            if self.records[i].node.key == record_id {
                n = n + 1;
            }
            i = i + 1;
        }
        assert(self.records@.take(i as int) =~= self.records@);
        n
    }

    /// Ids of records satisfying a place test, in record order.
    fn ids_with_place(&self, want: Place) -> (r: Vec<RecordId>)
        ensures
            r@ == ids_where(self.view(), |x: SchDocRecord| x.place == want),
    {
        let ghost f = |x: SchDocRecord| x.place == want;
        let mut out: Vec<RecordId> = Vec::new();
        let mut i: usize = 0;
        while i < self.records.len()
            invariant
                i <= self.records@.len(),
                f == (|x: SchDocRecord| x.place == want),
                out@ == ids_where(self.records@.take(i as int), f),
            decreases self.records@.len() - i,
        {
            proof {
                lemma_ids_where_push(self.records@.take(i as int), self.records@[i as int], f);
                assert(self.records@.take(i + 1) =~= self.records@.take(i as int).push(
                    self.records@[i as int],
                ));
            }
            if self.records[i].place == want {
                out.push(RecordId(i));
            }
            i = i + 1;
        }
        assert(self.records@.take(i as int) =~= self.records@);
        out
    }

    /// Returns the component (parent) record ids in stable group order.
    pub fn components(&self) -> (r: Vec<RecordId>)
        ensures
            r@ == component_ids(self.view()),
    {
        self.ids_with_place(Place::Component)
    }

    /// Returns the child record ids of a component group, in record order.
    pub fn children(&self, group: usize) -> (r: Vec<RecordId>)
        ensures
            r@ == child_ids(self.view(), group),
    {
        self.ids_with_place(Place::Child(group))
    }

    /// Returns orphan records in stable flat-stream order as `(record_id, record_ref)`.
    pub fn orphan_records(&self) -> (r: Vec<(u8, RecordId)>)
        ensures
            r@.len() == orphan_ids(self.view()).len(),
            forall|i: int| 0 <= i < r@.len() ==> (#[trigger] r@[i]).1 == orphan_ids(self.view())[i],
            r@.map_values(|p: (u8, RecordId)| p.1) == orphan_ids(self.view()),
            forall|i: int|
                0 <= i < r@.len() ==> (#[trigger] r@[i]).0 == self.view()[r@[i].1.0 as int].node.key,
    {
        let ghost f = |x: SchDocRecord| x.place == Place::Orphan;
        let mut out: Vec<(u8, RecordId)> = Vec::new();
        let mut i: usize = 0;
        while i < self.records.len()
            invariant
                i <= self.records@.len(),
                f == (|x: SchDocRecord| x.place == Place::Orphan),
                out@.map_values(|p: (u8, RecordId)| p.1) == ids_where(self.records@.take(i as int), f),
                forall|k: int|
                    0 <= k < out@.len() ==> (#[trigger] out@[k]).1.0 < i
                        && out@[k].0 == self.records@[out@[k].1.0 as int].node.key,
            decreases self.records@.len() - i,
        {
            proof {
                lemma_ids_where_push(self.records@.take(i as int), self.records@[i as int], f);
                assert(self.records@.take(i + 1) =~= self.records@.take(i as int).push(
                    self.records@[i as int],
                ));
            }
            if self.records[i].place == Place::Orphan {
                let ghost before = out@;
                out.push((self.records[i].node.key, RecordId(i)));
                assert(out@.map_values(|p: (u8, RecordId)| p.1) =~= before.map_values(
                    |p: (u8, RecordId)| p.1,
                ).push(RecordId(i)));
            }
            i = i + 1;
        }
        assert(self.records@.take(i as int) =~= self.records@);
        out
    }

    /// The record with an id, if it exists.
    pub fn record(&self, id: RecordId) -> (r: Option<&RecordNode>)
        ensures
            id.0 < self.view().len() ==> r == Some(&self.view()[id.0 as int].node),
            id.0 >= self.view().len() ==> r is None,
    {
        if id.0 < self.records.len() {
            Some(&self.records[id.0].node)
        } else {
            None
        }
    }

    /// Add a new orphan record; returns its id.
    pub fn add_orphan_record(&mut self, record: RecordNode) -> (r: RecordId)
        requires
            old(self).view().len() < usize::MAX,
        ensures
            r == RecordId(old(self).view().len() as usize),
            final(self).view() == old(self).view().push(
                SchDocRecord { node: record, place: Place::Orphan, original_index: usize::MAX },
            ),
            final(self).spec_file_header() == old(self).spec_file_header(),
            final(self).spec_additional() == old(self).spec_additional(),
            final(self).spec_storage() == old(self).spec_storage(),
    {
        proof {
            use_type_invariant(&*self);
        }
        let id = RecordId(self.records.len());
        let rec = SchDocRecord { node: record, place: Place::Orphan, original_index: usize::MAX };
        let mut recs: Vec<SchDocRecord> = Vec::new();
        std::mem::swap(&mut recs, &mut self.records);
        proof {
            lemma_places_ok_push(recs@, rec);
        }
        recs.push(rec);
        self.records = recs;
        id
    }

    /// Build and add a new component group from its parent record and its
    /// children; returns the index of the new group.
    pub fn build_component(&mut self, component: RecordNode, children: Vec<RecordNode>) -> (r: usize)
        requires
            old(self).view().len() + children@.len() + 1 < usize::MAX,
        ensures
            r == count_components(old(self).view()),
            count_components(final(self).view()) == r + 1,
            final(self).view() == old(self).view().push(
                SchDocRecord { node: component, place: Place::Component, original_index: usize::MAX },
            ) + children@.map_values(
                |c: RecordNode| SchDocRecord { node: c, place: Place::Child(r as usize), original_index: usize::MAX },
            ),
            final(self).spec_file_header() == old(self).spec_file_header(),
            final(self).spec_additional() == old(self).spec_additional(),
            final(self).spec_storage() == old(self).spec_storage(),
    {
        proof {
            use_type_invariant(&*self);
        }
        let g = self.component_count();
        let mut recs: Vec<SchDocRecord> = Vec::new();
        std::mem::swap(&mut recs, &mut self.records);
        let ghost start = recs@;
        let parent = SchDocRecord { node: component, place: Place::Component, original_index: usize::MAX };
        proof {
            lemma_places_ok_push(recs@, parent);
            lemma_count_components_push(recs@, parent);
        }
        recs.push(parent);
        let ghost all_children = children@;
        let mut rest = children;
        while rest.len() > 0
            invariant
                count_components(recs@) == g + 1,
                places_ok(recs@),
                all_children.len() == rest@.len() + (recs@.len() - start.len() - 1),
                recs@.len() >= start.len() + 1,
                rest@ == all_children.subrange(
                    recs@.len() - start.len() - 1,
                    all_children.len() as int,
                ),
                recs@ == start.push(parent) + all_children.take(
                    recs@.len() - start.len() - 1,
                ).map_values(
                    |c: RecordNode| SchDocRecord { node: c, place: Place::Child(g as usize), original_index: usize::MAX },
                ),
                start.len() + all_children.len() + 1 < usize::MAX,
            decreases rest@.len(),
        {
            let ghost k = recs@.len() - start.len() - 1;
            let c = rest.remove(0);
            let rec = SchDocRecord { node: c, place: Place::Child(g), original_index: usize::MAX };
            proof {
                lemma_places_ok_push(recs@, rec);
                lemma_count_components_push(recs@, rec);
                assert(all_children[k] == c);
                assert(all_children.take(k + 1) =~= all_children.take(k).push(c));
            }
            recs.push(rec);
            proof {
                let f = |c: RecordNode| SchDocRecord { node: c, place: Place::Child(g as usize), original_index: usize::MAX };
                assert(all_children.take(k + 1).map_values(f) =~= all_children.take(k).map_values(f).push(rec));
                assert(recs@ =~= start.push(parent) + all_children.take(k + 1).map_values(f));
            }
            assert(rest@ =~= all_children.subrange(
                recs@.len() - start.len() - 1,
                all_children.len() as int,
            ));
        }
        assert(all_children.take(all_children.len() as int) =~= all_children);
        self.records = recs;
        g
    }

    /// Returns the first orphan sheet record (RECORD=31), if present.
    pub fn sheet_record(&self) -> (r: Option<&RecordNode>)
        ensures
            match r {
                Some(n) => exists|i: int|
                    0 <= i < self.view().len() && self.view()[i].place == Place::Orphan
                        && self.view()[i].node.key == 31 && *n == self.view()[i].node && forall|
                        k: int,
                    |
                        0 <= k < i ==> !(self.view()[k].place == Place::Orphan && #[trigger] self.view()[k].node.key
                            == 31),
                None => forall|k: int|
                    0 <= k < self.view().len() ==> !(self.view()[k].place == Place::Orphan
                        && #[trigger] self.view()[k].node.key == 31),
            },
    {
        let mut i: usize = 0;
        while i < self.records.len()
            invariant
                i <= self.records@.len(),
                forall|k: int|
                    0 <= k < i ==> !(self.records@[k].place == Place::Orphan
                        && #[trigger] self.records@[k].node.key == 31),
            decreases self.records@.len() - i,
        {
            if self.records[i].place == Place::Orphan && self.records[i].node.key == 31 {
                return Some(&self.records[i].node);
            }
            i = i + 1;
        }
        None
    }
}

// ---------------------------------------------------------------------------
// Writing streams
// ---------------------------------------------------------------------------

/// Ids of the component records, in record order.
pub open spec fn component_ids(s: Seq<SchDocRecord>) -> Seq<RecordId> {
    ids_where(s, |x: SchDocRecord| x.place == Place::Component)
}

/// Ids of the children of group `g`, in record order.
pub open spec fn child_ids(s: Seq<SchDocRecord>, g: usize) -> Seq<RecordId> {
    ids_where(s, |x: SchDocRecord| x.place == Place::Child(g))
}

/// Ids of the orphan records, in record order.
pub open spec fn orphan_ids(s: Seq<SchDocRecord>) -> Seq<RecordId> {
    ids_where(s, |x: SchDocRecord| x.place == Place::Orphan)
}

/// The `/FileHeader`, `/Additional` and `/Storage` bytes a document
/// flattens to, or `None` when a record or header block does not fit its
/// length field. Each stream holds a header block whose `WEIGHT` is its
/// record count, then its records; `/Additional` is empty when it has
/// neither records nor metadata.
pub open spec fn flat_streams(d: SchDoc) -> Option<(Seq<u8>, Seq<u8>, Seq<u8>)> {
    let fk = written_keys(d.view(), SchDocStream::FileHeader);
    let ak = written_keys(d.view(), SchDocStream::Additional);
    let fh = header_payload(d.spec_file_header(), Some(fk.len()));
    let add_meta = match d.spec_additional() {
        Some(p) => p,
        None => Seq::empty(),
    };
    let ah = header_payload(add_meta, if ak.len() > 0 { Some(ak.len()) } else { None });
    let add_written = ak.len() > 0 || d.spec_additional() is Some;
    if records_fit(d.view(), fk) && records_fit(d.view(), ak) && fh.len() <= SIZE_FLAG_MASK && (add_written
        ==> ah.len() <= SIZE_FLAG_MASK) {
        Some(
            (
                enc_block((0u8, fh)) + records_bytes(d.view(), fk),
                if add_written {
                    enc_block((0u8, ah)) + records_bytes(d.view(), ak)
                } else {
                    Seq::empty()
                },
                d.spec_storage(),
            ),
        )
    } else {
        None
    }
}

/// The serialized root streams of a SchDoc.
pub struct SchDocSerializedStreams {
    pub file_header: Vec<u8>,
    /// Empty when the document has no `/Additional` stream.
    pub additional: Vec<u8>,
    pub storage: Vec<u8>,
}

/// The record indices of group `g`: its component, then its children.
pub open spec fn group_seq(s: Seq<SchDocRecord>, g: int) -> Seq<usize> {
    seq![component_ids(s)[g].0] + child_ids(s, g as usize).map_values(|id: RecordId| id.0)
}

/// The record indices of the first `n` groups, group by group.
pub open spec fn groups_order(s: Seq<SchDocRecord>, n: nat) -> Seq<usize>
    decreases n,
{
    if n == 0 {
        Seq::empty()
    } else {
        groups_order(s, (n - 1) as nat) + group_seq(s, n - 1)
    }
}

/// The order records were entered in: every group (component, then
/// children), then the orphans.
pub open spec fn insertion_order(s: Seq<SchDocRecord>) -> Seq<usize> {
    groups_order(s, component_ids(s).len())
        + orphan_ids(s).map_values(|id: RecordId| id.0)
}

/// Sort keys `(original index, insertion position, record index)` of the
/// records written to a stream, in insertion order.
pub open spec fn stream_keys(s: Seq<SchDocRecord>, order: Seq<usize>, st: SchDocStream) -> Seq<(usize, usize, usize)>
    decreases order.len(),
{
    if order.len() == 0 {
        Seq::empty()
    } else {
        let r = stream_keys(s, order.drop_last(), st);
        let j = order.last();
        if s[j as int].node.stream == st {
            r.push((s[j as int].original_index, (order.len() - 1) as usize, j))
        } else {
            r
        }
    }
}

/// Lexicographic order of sort keys.
pub open spec fn key_leq(a: (usize, usize, usize), b: (usize, usize, usize)) -> bool {
    a.0 < b.0 || (a.0 == b.0 && (a.1 < b.1 || (a.1 == b.1 && a.2 <= b.2)))
}

pub open spec fn key_order() -> spec_fn((usize, usize, usize), (usize, usize, usize)) -> bool {
    |a: (usize, usize, usize), b: (usize, usize, usize)| key_leq(a, b)
}

/// The records of a stream in written order: by original index, records
/// added later (index `usize::MAX`) in insertion order.
pub open spec fn written_keys(s: Seq<SchDocRecord>, st: SchDocStream) -> Seq<(usize, usize, usize)> {
    stream_keys(s, insertion_order(s), st).sort_by(key_order())
}

/// The block a record is written as: text records as their parameters with
/// a NUL, binary records with flags 1.
pub open spec fn record_block(n: RecordNode) -> (u8, Seq<u8>) {
    match n.origin {
        RecordOrigin::Param(p) => (0u8, ser_params(p@).push(0u8)),
        RecordOrigin::Binary(b) => (1u8, b@),
    }
}

/// The bytes of the records with the given keys, in key order.
pub open spec fn records_bytes(s: Seq<SchDocRecord>, keys: Seq<(usize, usize, usize)>) -> Seq<u8>
    decreases keys.len(),
{
    if keys.len() == 0 {
        Seq::empty()
    } else {
        records_bytes(s, keys.drop_last()) + enc_block(record_block(s[keys.last().2 as int].node))
    }
}

/// Whether the record blocks of the keys fit the 24-bit size field.
pub open spec fn records_fit(s: Seq<SchDocRecord>, keys: Seq<(usize, usize, usize)>) -> bool {
    forall|k: int| 0 <= k < keys.len() ==> (#[trigger] record_block(s[keys[k].2 as int].node)).1.len() <= SIZE_FLAG_MASK
}

/// `WEIGHT` as Windows-1252 bytes.
pub open spec fn weight_key() -> Seq<u8> {
    seq![87u8, 69u8, 73u8, 71u8, 72u8, 84u8]
}

/// A header block payload with `WEIGHT` set to `n`.
pub open spec fn header_payload(ps: Seq<(Seq<u8>, Seq<u8>)>, n: Option<nat>) -> Seq<u8> {
    match n {
        Some(w) => ser_params(set_param(ps, weight_key(), decimal_digits(w))).push(0u8),
        None => ser_params(ps).push(0u8),
    }
}

pub proof fn lemma_key_order_total()
    ensures
        total_ordering(key_order()),
{
    let f = key_order();
    assert(vstd::relations::reflexive(f));
    assert(vstd::relations::antisymmetric(f));
    assert(vstd::relations::transitive(f));
    assert(vstd::relations::strongly_connected(f));
}

/// Sorts keys into key order.
pub fn sort_keys(v: Vec<(usize, usize, usize)>) -> (r: Vec<(usize, usize, usize)>)
    ensures
        r@ == v@.sort_by(key_order()),
{
    broadcast use vstd::seq_lib::group_to_multiset_ensures;

    let mut out: Vec<(usize, usize, usize)> = Vec::new();
    let mut i: usize = 0;
    proof {
        lemma_key_order_total();
    }
    while i < v.len()
        invariant
            i <= v@.len(),
            sorted_by(out@, key_order()),
            out@.to_multiset() == v@.take(i as int).to_multiset(),
            total_ordering(key_order()),
        decreases v@.len() - i,
    {
        let x = v[i];
        let mut pos: usize = 0;
        while pos < out.len() && (out[pos].0 < x.0 || (out[pos].0 == x.0 && (out[pos].1 < x.1 || (out[pos].1
            == x.1 && out[pos].2 <= x.2))))
            invariant
                pos <= out@.len(),
                forall|k: int| 0 <= k < pos ==> key_leq(#[trigger] out@[k], x),
            decreases out@.len() - pos,
        {
            pos = pos + 1;
        }
        let ghost before = out@;
        out.insert(pos, x);
        proof {
            assert(out@ == before.insert(pos as int, x));
            vstd::seq_lib::to_multiset_insert(before, pos as int, x);
            assert(out@.to_multiset() == before.to_multiset().insert(x));
            assert(v@.take(i + 1) =~= v@.take(i as int).push(x));
            vstd::seq_lib::to_multiset_build(v@.take(i as int), x);
            assert(v@.take(i + 1).to_multiset() == v@.take(i as int).to_multiset().insert(x));
            assert forall|a: int, b: int| 0 <= a < b < out@.len() implies (#[trigger] key_order()(out@[a], out@[b])) by {
                let f = key_order();
                if b < pos {
                    assert(f(before[a], before[b]));
                } else if a > pos {
                    assert(f(before[a - 1], before[b - 1]));
                } else if a == pos {
                    // x against a later element: x < before[pos] <= before[b-1]
                    assert(!key_leq(before[pos as int], x));
                    if b - 1 > pos {
                        assert(f(before[pos as int], before[b - 1]));
                    }
                } else {
                    // a < pos, b == pos or later
                    if b == pos {
                        assert(key_leq(before[a], x));
                    } else {
                        assert(f(before[a], before[b - 1]));
                    }
                }
            }
        }
        i = i + 1;
    }
    proof {
        assert(v@.take(i as int) =~= v@);
        v@.lemma_sort_by_ensures(key_order());
        vstd::seq_lib::lemma_sorted_unique(out@, v@.sort_by(key_order()), key_order());
    }
    out
}

impl SchDoc {
    /// The order records were entered in: groups, then orphans.
    fn insertion_order_exec(&self) -> (r: Vec<usize>)
        ensures
            r@ == insertion_order(self.view()),
    {
        let comps = self.components();
        let mut out: Vec<usize> = Vec::new();
        let mut g: usize = 0;
        while g < comps.len()
            invariant
                g <= comps@.len(),
                comps@ == component_ids(self.view()),
                out@ == groups_order(self.view(), g as nat),
            decreases comps@.len() - g,
        {
            let ghost before = out@;
            out.push(comps[g].0);
            let ch = self.children(g);
            let mut k: usize = 0;
            while k < ch.len()
                invariant
                    k <= ch@.len(),
                    out@ == before + seq![comps@[g as int].0] + ch@.take(k as int).map_values(|id: RecordId| id.0),
                decreases ch@.len() - k,
            {
                out.push(ch[k].0);
                assert(ch@.take(k + 1).map_values(|id: RecordId| id.0) =~= ch@.take(k as int).map_values(
                    |id: RecordId| id.0,
                ).push(ch@[k as int].0));
                k = k + 1;
            }
            assert(ch@.take(k as int) =~= ch@);
            assert(out@ =~= before + group_seq(self.view(), g as int));
            g = g + 1;
        }
        let ghost gpart = out@;
        let orphans = self.ids_with_place(Place::Orphan);
        let mut k: usize = 0;
        while k < orphans.len()
            invariant
                k <= orphans@.len(),
                out@ == gpart + orphans@.take(k as int).map_values(|id: RecordId| id.0),
            decreases orphans@.len() - k,
        {
            out.push(orphans[k].0);
            assert(orphans@.take(k + 1).map_values(|id: RecordId| id.0) =~= orphans@.take(k as int).map_values(
                |id: RecordId| id.0,
            ).push(orphans@[k as int].0));
            k = k + 1;
        }
        assert(orphans@.take(k as int) =~= orphans@);
        out
    }

    /// The sort keys of a stream's records, in insertion order.
    fn stream_keys_exec(&self, order: &Vec<usize>, st: SchDocStream) -> (r: Vec<(usize, usize, usize)>)
        requires
            forall|p: int| 0 <= p < order@.len() ==> (#[trigger] order@[p]) < self.view().len(),
        ensures
            r@ == stream_keys(self.view(), order@, st),
    {
        let mut out: Vec<(usize, usize, usize)> = Vec::new();
        let mut p: usize = 0;
        while p < order.len()
            invariant
                p <= order@.len(),
                forall|q: int| 0 <= q < order@.len() ==> (#[trigger] order@[q]) < self.records@.len(),
                out@ == stream_keys(self.records@, order@.take(p as int), st),
            decreases order@.len() - p,
        {
            assert(order@.take(p + 1).drop_last() =~= order@.take(p as int));
            let j = order[p];
            if self.records[j].node.stream == st {
                out.push((self.records[j].original_index, p, j));
            }
            p = p + 1;
        }
        assert(order@.take(p as int) =~= order@);
        out
    }

    /// Writes the records of the keys, in order.
    fn write_records(&self, out: &mut Vec<u8>, keys: &Vec<(usize, usize, usize)>) -> (r: Result<()>)
        requires
            forall|k: int| 0 <= k < keys@.len() ==> (#[trigger] keys@[k]).2 < self.view().len(),
        ensures
            r is Ok <==> records_fit(self.view(), keys@),
            r is Ok ==> final(out)@ == old(out)@ + records_bytes(self.view(), keys@),
    {
        let mut k: usize = 0;
        while k < keys.len()
            invariant
                k <= keys@.len(),
                forall|q: int| 0 <= q < keys@.len() ==> (#[trigger] keys@[q]).2 < self.records@.len(),
                records_fit(self.records@, keys@.take(k as int)),
                out@ == old(out)@ + records_bytes(self.records@, keys@.take(k as int)),
            decreases keys@.len() - k,
        {
            assert(keys@.take(k + 1).drop_last() =~= keys@.take(k as int));
            let j = keys[k].2;
            match &self.records[j].node.origin {
                RecordOrigin::Param(p) => {
                    let mut payload = p.to_bytes();
                    payload.push(0);
                    if payload.len() > 0xFF_FFFF {
                        proof {
                            assert(!records_fit(self.records@, keys@)) by {
                                assert(record_block(self.records@[keys@[k as int].2 as int].node).1 == payload@);
                            }
                        }
                        return Err(AltiumError::Parse(text("schdoc record too large for a block")));
                    }
                    push_block(out, 0, payload.as_slice());
                },
                RecordOrigin::Binary(b) => {
                    if b.len() > 0xFF_FFFF {
                        proof {
                            assert(!records_fit(self.records@, keys@)) by {
                                assert(record_block(self.records@[keys@[k as int].2 as int].node).1 == b@);
                            }
                        }
                        return Err(AltiumError::Parse(text("schdoc record too large for a block")));
                    }
                    push_block(out, 1, b.as_slice());
                },
            }
            k = k + 1;
        }
        assert(keys@.take(k as int) =~= keys@);
        Ok(())
    }

    /// Flatten the document into its root streams. Each stream's records are
    /// written by original index, records added later last in insertion
    /// order (groups, then orphans), after a header block whose `WEIGHT` is
    /// the record count. `/Additional` is written when it has records or
    /// metadata.
    pub fn flatten_to_streams(&self) -> (r: Result<SchDocSerializedStreams>)
        ensures
            r is Ok <==> flat_streams(*self) is Some,
            r matches Ok(st) ==> flat_streams(*self) == Some((st.file_header@, st.additional@, st.storage@)),
    {
        let order = self.insertion_order_exec();
        proof {
            assert(self.records@.len() == self.records.len());
            lemma_insertion_order_bounds(self.records@);
        }
        let fk = sort_keys(self.stream_keys_exec(&order, SchDocStream::FileHeader));
        let ak = sort_keys(self.stream_keys_exec(&order, SchDocStream::Additional));
        proof {
            lemma_written_keys_bounds(self.records@, SchDocStream::FileHeader);
            lemma_written_keys_bounds(self.records@, SchDocStream::Additional);
        }
        // file header stream
        let mut hp = self.file_header_meta.params.duplicate();
        let w = crate::params::usize_to_decimal(fk.len());
        hp.add_bytes(weight_key_exec().as_slice(), w.as_slice());
        let mut header = hp.to_bytes();
        header.push(0);
        if header.len() > 0xFF_FFFF {
            return Err(AltiumError::Parse(text("schdoc header too large for a block")));
        }
        let mut file_header: Vec<u8> = Vec::new();
        push_block(&mut file_header, 0, header.as_slice());
        match self.write_records(&mut file_header, &fk) {
            Ok(()) => {},
            Err(e) => return Err(e),
        }
        // additional stream
        let mut additional: Vec<u8> = Vec::new();
        if ak.len() > 0 || self.additional_meta.is_some() {
            let mut ap = match &self.additional_meta {
                Some(m) => m.params.duplicate(),
                None => ParameterCollection::new(),
            };
            if ak.len() > 0 {
                let w = crate::params::usize_to_decimal(ak.len());
                ap.add_bytes(weight_key_exec().as_slice(), w.as_slice());
            }
            let mut aheader = ap.to_bytes();
            aheader.push(0);
            if aheader.len() > 0xFF_FFFF {
                return Err(AltiumError::Parse(text("schdoc header too large for a block")));
            }
            push_block(&mut additional, 0, aheader.as_slice());
            match self.write_records(&mut additional, &ak) {
                Ok(()) => {},
                Err(e) => return Err(e),
            }
        }
        let storage = self.storage_meta.data.clone();
        assert(storage@ =~= self.storage_meta.data@);
        Ok(SchDocSerializedStreams { file_header, additional, storage })
    }
}

fn weight_key_exec() -> (r: Vec<u8>)
    ensures
        r@ == weight_key(),
{
    let mut v: Vec<u8> = Vec::new();
    v.push(87);
    v.push(69);
    v.push(73);
    v.push(71);
    v.push(72);
    v.push(84);
    assert(v@ =~= weight_key());
    v
}

/// The insertion order lists record indices.
pub proof fn lemma_insertion_order_bounds(s: Seq<SchDocRecord>)
    requires
        s.len() <= usize::MAX,
    ensures
        forall|p: int| 0 <= p < insertion_order(s).len() ==> (#[trigger] insertion_order(s)[p]) < s.len(),
{
    let comps = component_ids(s);
    lemma_ids_where_bounds(s, |x: SchDocRecord| x.place == Place::Component);
    lemma_ids_where_bounds(s, |x: SchDocRecord| x.place == Place::Orphan);
    lemma_groups_order_bounds(s, comps.len());
    let o = orphan_ids(s).map_values(|id: RecordId| id.0);
    let gpart = groups_order(s, comps.len());
    assert forall|p: int| 0 <= p < insertion_order(s).len() implies (#[trigger] insertion_order(s)[p]) < s.len() by {
        if p < gpart.len() {
            assert(insertion_order(s)[p] == gpart[p]);
        } else {
            assert(insertion_order(s)[p] == o[p - gpart.len()]);
        }
    }
}

/// Ids found by a test name records.
pub proof fn lemma_ids_where_bounds(s: Seq<SchDocRecord>, f: spec_fn(SchDocRecord) -> bool)
    requires
        s.len() <= usize::MAX,
    ensures
        forall|k: int| 0 <= k < ids_where(s, f).len() ==> (#[trigger] ids_where(s, f)[k]).0 < s.len()
            && f(s[ids_where(s, f)[k].0 as int]),
    decreases s.len(),
{
    if s.len() > 0 {
        let d = s.drop_last();
        lemma_ids_where_bounds(d, f);
        let r = ids_where(d, f);
        let all = ids_where(s, f);
        assert(all == if f(s.last()) {
            r.push(RecordId((s.len() - 1) as usize))
        } else {
            r
        });
        assert forall|k: int| 0 <= k < all.len() implies (#[trigger] all[k]).0 < s.len() && f(s[all[k].0 as int]) by {
            if k < r.len() {
                assert(all[k] == r[k]);
                assert(s[r[k].0 as int] == d[r[k].0 as int]);
            } else {
                assert(f(s.last()));
                assert(all[k].0 == s.len() - 1);
            }
        }
    }
}

proof fn lemma_groups_order_bounds(s: Seq<SchDocRecord>, n: nat)
    requires
        s.len() <= usize::MAX,
        n <= component_ids(s).len(),
        forall|k: int|
            0 <= k < component_ids(s).len() ==> (#[trigger] component_ids(s)[k]).0 < s.len(),
    ensures
        forall|p: int| 0 <= p < groups_order(s, n).len() ==> (#[trigger] groups_order(s, n)[p]) < s.len(),
    decreases n,
{
    if n > 0 {
        lemma_groups_order_bounds(s, (n - 1) as nat);
        let g = n - 1;
        lemma_ids_where_bounds(s, |x: SchDocRecord| x.place == Place::Child(g as usize));
        let prev = groups_order(s, (n - 1) as nat);
        let gs = group_seq(s, g);
        assert forall|p: int| 0 <= p < groups_order(s, n).len() implies (#[trigger] groups_order(s, n)[p]) < s.len() by {
            if p < prev.len() {
                assert(groups_order(s, n)[p] == prev[p]);
            } else {
                let q = p - prev.len();
                assert(groups_order(s, n)[p] == gs[q]);
                if q > 0 {
                    let ch = child_ids(s, g as usize);
                    assert(gs[q] == ch[q - 1].0);
                }
            }
        }
    }
}

/// Written keys name records.
pub proof fn lemma_written_keys_bounds(s: Seq<SchDocRecord>, st: SchDocStream)
    requires
        s.len() <= usize::MAX,
    ensures
        forall|k: int| 0 <= k < written_keys(s, st).len() ==> (#[trigger] written_keys(s, st)[k]).2 < s.len(),
        forall|k: int|
            0 <= k < written_keys(s, st).len() ==> s[(#[trigger] written_keys(s, st)[k]).2 as int].node.stream == st,
{
    lemma_insertion_order_bounds(s);
    let order = insertion_order(s);
    lemma_stream_keys_bounds(s, order, st);
    let ks = stream_keys(s, order, st);
    lemma_key_order_total();
    ks.lemma_sort_by_ensures(key_order());
    let sorted = ks.sort_by(key_order());
    assert forall|k: int| 0 <= k < sorted.len() implies (#[trigger] sorted[k]).2 < s.len()
        && s[sorted[k].2 as int].node.stream == st by {
        assert(sorted.contains(sorted[k]));
        assert(ks.contains(sorted[k]));
    }
}

proof fn lemma_stream_keys_bounds(s: Seq<SchDocRecord>, order: Seq<usize>, st: SchDocStream)
    requires
        forall|p: int| 0 <= p < order.len() ==> (#[trigger] order[p]) < s.len(),
    ensures
        forall|k: int| 0 <= k < stream_keys(s, order, st).len() ==> (#[trigger] stream_keys(s, order, st)[k]).2 < s.len(),
        forall|k: int|
            0 <= k < stream_keys(s, order, st).len() ==> s[(#[trigger] stream_keys(s, order, st)[k]).2 as int].node.stream
                == st,
    decreases order.len(),
{
    if order.len() > 0 {
        assert forall|p: int| 0 <= p < order.drop_last().len() implies (#[trigger] order.drop_last()[p]) < s.len() by {
            assert(order.drop_last()[p] == order[p]);
        }
        lemma_stream_keys_bounds(s, order.drop_last(), st);
        let r = stream_keys(s, order.drop_last(), st);
        let all = stream_keys(s, order, st);
        assert(order.last() == order[order.len() - 1]);
        assert forall|k: int| 0 <= k < all.len() implies (#[trigger] all[k]).2 < s.len()
            && s[all[k].2 as int].node.stream == st by {
            if k < r.len() {
                assert(all[k] == r[k]);
            }
        }
    }
}

} // verus!
