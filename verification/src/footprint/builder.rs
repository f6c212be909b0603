//! Footprint building blocks: pad-row directions and component editing.
use vstd::prelude::*;
use vstd::string::StringSliceAdditionalSpecFns;

use crate::edit::pcb_records::{PcbPad, PcbRecord};
use crate::params::{key_eq, keys_equal};
use crate::types::Coord;

verus! {

/// Direction of a row of pads.
#[derive(Clone, Copy, Debug, PartialEq, Eq, Structural)]
pub enum PadRowDirection {
    /// Along the X axis.
    Horizontal,
    /// Along the Y axis.
    Vertical,
}

/// The direction a name stands for, ignoring case.
pub open spec fn direction_named(t: Seq<u8>) -> Option<PadRowDirection> {
    if key_eq(t, "horizontal".spec_bytes()) || key_eq(t, "h".spec_bytes()) || key_eq(t, "x".spec_bytes()) || key_eq(
        t,
        "horiz".spec_bytes(),
    ) {
        Some(PadRowDirection::Horizontal)
    } else if key_eq(t, "vertical".spec_bytes()) || key_eq(t, "v".spec_bytes()) || key_eq(t, "y".spec_bytes())
        || key_eq(t, "vert".spec_bytes()) {
        Some(PadRowDirection::Vertical)
    } else {
        None
    }
}

impl PadRowDirection {
    /// Parse a direction ("horizontal", "h", "x", "horiz", "vertical", "v",
    /// "y", "vert"), ignoring case.
    pub fn try_parse(s: &str) -> (r: Option<PadRowDirection>)
        ensures
            r == direction_named(s.spec_bytes()),
    {
        let b = s.as_bytes();
        if keys_equal(b, "horizontal".as_bytes()) || keys_equal(b, "h".as_bytes()) || keys_equal(b, "x".as_bytes())
            || keys_equal(b, "horiz".as_bytes()) {
            Some(PadRowDirection::Horizontal)
        } else if keys_equal(b, "vertical".as_bytes()) || keys_equal(b, "v".as_bytes()) || keys_equal(
            b,
            "y".as_bytes(),
        ) || keys_equal(b, "vert".as_bytes()) {
            Some(PadRowDirection::Vertical)
        } else {
            None
        }
    }
}

/// Builder for PCB footprints.
pub struct FootprintBuilder {
    name: String,
    description: String,
    height: Coord,
    primitives: Vec<PcbRecord>,
    next_pad_num: u32,
}

impl FootprintBuilder {
    pub closed spec fn spec_name(&self) -> Seq<char> {
        self.name@
    }

    pub closed spec fn spec_description(&self) -> Seq<char> {
        self.description@
    }

    pub closed spec fn spec_primitives(&self) -> Seq<PcbRecord> {
        self.primitives@
    }

    /// A builder for a footprint of the given name: no description, zero
    /// height, no primitives, pads numbered from 1.
    pub fn new(name: &str) -> (r: FootprintBuilder)
        ensures
            r.spec_name() == name@,
            r.spec_description().len() == 0,
            r.spec_primitives().len() == 0,
    {
        FootprintBuilder {
            name: crate::error::text(name),
            description: String::new(),
            height: Coord { raw: 0 },
            primitives: Vec::new(),
            next_pad_num: 1,
        }
    }

    /// Set the footprint description.
    pub fn description(self, desc: &str) -> (r: FootprintBuilder)
        ensures
            r.spec_description() == desc@,
            r.spec_name() == self.spec_name(),
            r.spec_primitives() == self.spec_primitives(),
    {
        FootprintBuilder { description: crate::error::text(desc), ..self }
    }
}

/// A library footprint component.
#[derive(Clone, Debug)]
pub struct PcbComponent {
    pub pattern: String,
    pub description: String,
    pub height: Coord,
    pub item_guid: String,
    pub revision_guid: String,
    pub primitives: Vec<PcbRecord>,
}

/// Index of the first pad with exactly this designator, or the number of
/// primitives.
pub open spec fn pad_at(prims: Seq<PcbRecord>, d: Seq<char>) -> int
    decreases prims.len(),
{
    if prims.len() == 0 {
        0
    } else {
        let i = pad_at(prims.drop_last(), d);
        if i < prims.len() - 1 {
            i
        } else if prims.last() matches PcbRecord::Pad(p) && p.designator@ == d {
            prims.len() - 1
        } else {
            prims.len() as int
        }
    }
}

/// A fresh random GUID, `uuid::Uuid::new_v4().to_string()`.
///
/// Trusted: the text is the hyphenated lower-case form that `uuid`'s
/// `Display` writes (36 characters, hyphens at 8, 13, 18, 23) with the
/// version digit 4 that `new_v4` sets; which random digits come is unsaid.
#[verifier::external_body]
fn new_guid_text() -> (r: String)
    ensures
        crate::types::is_hyphenated_v4_text(r@),
{
    uuid::Uuid::new_v4().to_string()
}

impl PcbComponent {
    /// A new empty component with fresh item and revision GUIDs.
    pub fn new_deterministic(pattern: &str) -> (r: PcbComponent)
        ensures
            r.pattern@ == pattern@,
            r.description@.len() == 0,
            r.height.raw == 0,
            r.primitives@.len() == 0,
            crate::types::is_hyphenated_v4_text(r.item_guid@),
            crate::types::is_hyphenated_v4_text(r.revision_guid@),
    {
        PcbComponent {
            pattern: crate::error::text(pattern),
            description: String::new(),
            height: Coord { raw: 0 },
            item_guid: new_guid_text(),
            revision_guid: new_guid_text(),
            primitives: Vec::new(),
        }
    }

    /// Set the description.
    pub fn set_description(&mut self, desc: &str)
        ensures
            final(self).description@ == desc@,
            final(self).pattern == old(self).pattern,
            final(self).primitives == old(self).primitives,
            final(self).item_guid == old(self).item_guid,
            final(self).revision_guid == old(self).revision_guid,
            final(self).height == old(self).height,
    {
        self.description = crate::error::text(desc);
    }

    /// Add a primitive.
    pub fn add_primitive(&mut self, record: PcbRecord)
        ensures
            final(self).primitives@ == old(self).primitives@.push(record),
            final(self).pattern == old(self).pattern,
            final(self).description == old(self).description,
    {
        self.primitives.push(record);
    }

    /// Remove a primitive by index; `None` when there is none.
    pub fn remove_primitive(&mut self, index: usize) -> (r: Option<PcbRecord>)
        ensures
            index < old(self).primitives@.len() ==> r == Some(old(self).primitives@[index as int])
                && final(self).primitives@ == old(self).primitives@.remove(index as int),
            index >= old(self).primitives@.len() ==> r is None && final(self).primitives == old(
                self,
            ).primitives,
            final(self).pattern == old(self).pattern,
            final(self).description == old(self).description,
    {
        if index < self.primitives.len() {
            Some(self.primitives.remove(index))
        } else {
            None
        }
    }

    /// Index of the first pad with the designator.
    fn pad_index(&self, designator: &str) -> (r: usize)
        ensures
            r == pad_at(self.primitives@, designator@),
            r <= self.primitives@.len(),
            r < self.primitives@.len() ==> self.primitives@[r as int] is Pad,
    {
        let mut i: usize = 0;
        while i < self.primitives.len()
            invariant
                i <= self.primitives@.len(),
                pad_at(self.primitives@.take(i as int), designator@) == i,
            decreases self.primitives@.len() - i,
        {
            assert(self.primitives@.take(i + 1).drop_last() =~= self.primitives@.take(i as int));
            match &self.primitives[i] {
                PcbRecord::Pad(p) => {
                    if crate::import::parse::same_text(p.designator.as_str(), designator) {
                        proof {
                            lemma_pad_at_prefix(self.primitives@, designator@, i as int);
                        }
                        return i;
                    }
                },
                _ => {},
            }
            i = i + 1;
        }
        assert(self.primitives@.take(i as int) =~= self.primitives@);
        i
    }

    /// The first pad with exactly this designator.
    pub fn find_pad(&self, designator: &str) -> (r: Option<&PcbPad>)
        ensures
            ({
                let i = pad_at(self.primitives@, designator@);
                if i < self.primitives@.len() {
                    r matches Some(p) && self.primitives@[i] == PcbRecord::Pad(*p)
                } else {
                    r is None
                }
            }),
    {
        let i = self.pad_index(designator);
        if i < self.primitives.len() {
            match &self.primitives[i] {
                PcbRecord::Pad(p) => Some(p),
                _ => None,
            }
        } else {
            None
        }
    }

    /// The first pad with exactly this designator, for editing.
    pub fn find_pad_mut(&mut self, designator: &str) -> (r: Option<&mut PcbPad>)
        ensures
            ({
                let i = pad_at(old(self).primitives@, designator@);
                if i < old(self).primitives@.len() {
                    r matches Some(p) && old(self).primitives@[i] == PcbRecord::Pad(*p) && final(self).primitives@
                        == old(self).primitives@.update(i, PcbRecord::Pad(*final(p)))
                } else {
                    r is None && final(self).primitives@ == old(self).primitives@
                }
            }),
    {
        let i = self.pad_index(designator);
        if i < self.primitives.len() {
            let rec = &mut self.primitives[i];
            match rec {
                PcbRecord::Pad(p) => Some(p),
                _ => None,
            }
        } else {
            None
        }
    }
}

/// The first match in a prefix is the first match overall.
pub proof fn lemma_pad_at_prefix(prims: Seq<PcbRecord>, d: Seq<char>, i: int)
    requires
        0 <= i < prims.len(),
        pad_at(prims.take(i + 1), d) == i,
    ensures
        pad_at(prims, d) == i,
    decreases prims.len(),
{
    if prims.len() > i + 1 {
        assert(prims.drop_last().take(i + 1) =~= prims.take(i + 1));
        lemma_pad_at_prefix(prims.drop_last(), d, i);
    } else {
        assert(prims.take(i + 1) =~= prims);
    }
}

} // verus!
