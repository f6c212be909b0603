//! Schematic libraries and component instantiation.
//!
//! The manager keeps the loaded libraries in load order, each under its
//! path, and one designator counter per prefix.
use vstd::prelude::*;
use vstd::string::StringSliceAdditionalSpecFns;

use crate::edit::geometry::{fits_pt, local_to_absolute, pt, to_absolute};
use crate::edit::sch_records::{
    SchArc, SchBus, SchComponent, SchDesignator, SchEllipse, SchLabel, SchLine, SchNetLabel, SchParameter, SchPolyline,
    SchPort, SchPowerObject, SchRecord, SchWire,
};
use crate::edit::types::Orientation;
use crate::error::text;
use crate::types::{div_trunc_i64, trunc_div, Coord, CoordPoint};
use crate::import::parse::same_text;
use crate::error::{decimal_text, text2, usize_text};
use crate::params::{all_digits, digits_bounded, digits_value, is_digit, lower};

verus! {

/// A component of a schematic library: its name, description, component
/// record and primitives (the component record first).
#[derive(Debug)]
pub struct SchLibComponent {
    pub name: String,
    pub description: String,
    pub component: SchComponent,
    pub primitives: Vec<SchRecord>,
}

/// A schematic library.
#[derive(Debug)]
pub struct SchLib {
    pub components: Vec<SchLibComponent>,
}

/// Loaded libraries and designator counters.
pub struct LibraryManager {
    libraries: Vec<(String, SchLib)>,
    designator_counters: Vec<(Vec<u8>, u32)>,
}

/// Whether no prefix has two counters.
pub open spec fn counters_distinct(cs: Seq<(Vec<u8>, u32)>) -> bool {
    forall|a: int, b: int| 0 <= a < b < cs.len() ==> (#[trigger] cs[a]).0@ != (#[trigger] cs[b]).0@
}

/// The counter of a prefix: the value stored for it, or 0.
pub open spec fn counter_in(cs: Seq<(Vec<u8>, u32)>, prefix: Seq<u8>) -> nat
    decreases cs.len(),
{
    if cs.len() == 0 {
        0
    } else if cs.last().0@ == prefix {
        cs.last().1 as nat
    } else {
        counter_in(cs.drop_last(), prefix)
    }
}

/// Index of the first library with the path, or the number of libraries.
pub open spec fn library_index(ls: Seq<(String, SchLib)>, path: Seq<char>) -> int
    decreases ls.len(),
{
    if ls.len() == 0 {
        0
    } else {
        let i = library_index(ls.drop_last(), path);
        if i < ls.len() - 1 {
            i
        } else if ls.last().0@ == path {
            ls.len() - 1
        } else {
            ls.len() as int
        }
    }
}

/// The `(library path, component)` pairs of all libraries, in order.
pub open spec fn all_components(ls: Seq<(String, SchLib)>) -> Seq<(Seq<char>, SchLibComponent)>
    decreases ls.len(),
{
    if ls.len() == 0 {
        Seq::empty()
    } else {
        all_components(ls.drop_last()) + ls.last().1.components@.map_values(
            |c: SchLibComponent| (ls.last().0@, c),
        )
    }
}

/// Index of the first listed component with the name, or the number of
/// components.
pub open spec fn first_named_component(cs: Seq<(Seq<char>, SchLibComponent)>, name: Seq<char>) -> int
    decreases cs.len(),
{
    if cs.len() == 0 {
        0
    } else {
        let i = first_named_component(cs.drop_last(), name);
        if i < cs.len() - 1 {
            i
        } else if cs.last().1.name@ == name {
            cs.len() - 1
        } else {
            cs.len() as int
        }
    }
}

/// `(path, name, description)` of each listed component.
pub open spec fn listing(cs: Seq<(Seq<char>, SchLibComponent)>) -> Seq<(Seq<char>, Seq<char>, Seq<char>)> {
    cs.map_values(|c: (Seq<char>, SchLibComponent)| (c.0, c.1.name@, c.1.description@))
}

/// Whether `needle` occurs in `hay`.
pub open spec fn contains_sub(hay: Seq<u8>, needle: Seq<u8>) -> bool {
    exists|i: int| 0 <= i <= hay.len() - needle.len() && #[trigger] hay.subrange(i, i + needle.len()) == needle
}

/// ASCII lower-casing.
pub open spec fn ascii_lower(s: Seq<u8>) -> Seq<u8> {
    s.map_values(|b: u8| lower(b))
}

/// Whether a listed component matches a pattern: its name or description
/// contains it, ASCII case ignored.
pub open spec fn matches_pattern(e: (Seq<char>, Seq<char>, Seq<char>), pattern: Seq<char>) -> bool {
    let p = ascii_lower(vstd::utf8::encode_utf8(pattern));
    contains_sub(ascii_lower(vstd::utf8::encode_utf8(e.1)), p) || contains_sub(
        ascii_lower(vstd::utf8::encode_utf8(e.2)),
        p,
    )
}

/// The listed components matching a pattern, in order.
pub open spec fn search_listing(es: Seq<(Seq<char>, Seq<char>, Seq<char>)>, pattern: Seq<char>) -> Seq<
    (Seq<char>, Seq<char>, Seq<char>),
>
    decreases es.len(),
{
    if es.len() == 0 {
        Seq::empty()
    } else {
        search_listing(es.drop_last(), pattern) + if matches_pattern(es.last(), pattern) {
            seq![es.last()]
        } else {
            Seq::empty()
        }
    }
}

/// The value of a listing entry.
pub open spec fn entry_view(e: (&str, &str, &str)) -> (Seq<char>, Seq<char>, Seq<char>) {
    (e.0@, e.1@, e.2@)
}

/// ASCII lower-casing of bytes.
fn ascii_lower_exec(s: &[u8]) -> (r: Vec<u8>)
    ensures
        r@ == ascii_lower(s@),
{
    let mut out: Vec<u8> = Vec::new();
    let mut i: usize = 0;
    while i < s.len()
        invariant
            i <= s@.len(),
            out@ == ascii_lower(s@.take(i as int)),
        decreases s@.len() - i,
    {
        let b = s[i];
        out.push(if 65 <= b && b <= 90 { b + 32 } else { b });
        assert(ascii_lower(s@.take(i + 1)) =~= ascii_lower(s@.take(i as int)).push(lower(b)));
        i = i + 1;
    }
    assert(s@.take(i as int) =~= s@);
    out
}

/// Whether `needle` occurs in `hay`.
fn contains_sub_exec(hay: &[u8], needle: &[u8]) -> (r: bool)
    ensures
        r == contains_sub(hay@, needle@),
{
    if needle.len() > hay.len() {
        return false;
    }
    if needle.len() == 0 {
        assert(hay@.subrange(0int, 0int + needle@.len()) =~= needle@);
        return true;
    }
    let last = hay.len() - needle.len();
    let mut i: usize = 0;
    while i <= last
        invariant
            last == hay@.len() - needle@.len(),
            hay@.len() == hay.len(),
            needle@.len() >= 1,
            i <= last + 1,
            forall|k: int| 0 <= k < i ==> #[trigger] hay@.subrange(k, k + needle@.len()) != needle@,
        decreases last + 1 - i,
    {
        let mut j: usize = 0;
        let mut same = true;
        while j < needle.len()
            invariant
                j <= needle@.len(),
                i <= last,
                last == hay@.len() - needle@.len(),
                i + needle@.len() <= hay@.len(),
                hay@.len() == hay.len(),
                same <==> forall|t: int| 0 <= t < j ==> hay@[i + t] == needle@[t],
            decreases needle@.len() - j,
        {
            if hay[i + j] != needle[j] {
                same = false;
            }
            j = j + 1;
        }
        if same {
            assert(hay@.subrange(i as int, i + needle@.len()) =~= needle@);
            return true;
        } else {
            proof {
                let t = choose|t: int| 0 <= t < needle@.len() && hay@[i + t] != needle@[t];
                assert(hay@.subrange(i as int, i + needle@.len())[t] != needle@[t]);
            }
        }
        i = i + 1;
    }
    false
}

impl LibraryManager {
    /// The loaded libraries, in load order.
    pub closed spec fn spec_libraries(&self) -> Seq<(String, SchLib)> {
        self.libraries@
    }

    /// The designator counter of a prefix.
    pub closed spec fn spec_counter(&self, prefix: Seq<u8>) -> nat {
        counter_in(self.designator_counters@, prefix)
    }

    /// No library loaded; every counter at zero.
    pub fn new() -> (r: Self)
        ensures
            r.spec_libraries().len() == 0,
            forall|p: Seq<u8>| r.spec_counter(p) == 0,
    {
        LibraryManager { libraries: Vec::new(), designator_counters: Vec::new() }
    }

    /// Adds a library under its path, unless a library is loaded from that
    /// path already.
    pub fn load_library(&mut self, path: &str, lib: SchLib) -> (r: crate::error::Result<()>)
        ensures
            r is Ok,
            library_index(old(self).spec_libraries(), path@) < old(self).spec_libraries().len()
                ==> final(self).spec_libraries() == old(self).spec_libraries(),
            library_index(old(self).spec_libraries(), path@) == old(self).spec_libraries().len()
                ==> final(self).spec_libraries().len() == old(self).spec_libraries().len() + 1
                && final(self).spec_libraries().take(old(self).spec_libraries().len() as int)
                == old(self).spec_libraries() && final(self).spec_libraries().last().0@ == path@
                && final(self).spec_libraries().last().1 == lib,
            forall|p: Seq<u8>| final(self).spec_counter(p) == old(self).spec_counter(p),
    {
        let i = self.library_position(path);
        if i < self.libraries.len() {
            return Ok(());
        }
        let ghost before = self.libraries@;
        self.libraries.push((crate::error::text(path), lib));
        assert(self.libraries@.take(before.len() as int) =~= before);
        Ok(())
    }

    /// Index of the first library with the path, or the number of
    /// libraries.
    fn library_position(&self, path: &str) -> (r: usize)
        ensures
            r == library_index(self.libraries@, path@),
            r <= self.libraries@.len(),
    {
        let mut i: usize = 0;
        while i < self.libraries.len()
            invariant
                i <= self.libraries@.len(),
                library_index(self.libraries@.take(i as int), path@) == i,
            decreases self.libraries@.len() - i,
        {
            assert(self.libraries@.take(i + 1).drop_last() =~= self.libraries@.take(i as int));
            if same_text(self.libraries[i].0.as_str(), path) {
                proof {
                    lemma_library_index_prefix(self.libraries@, path@, i as int);
                }
                return i;
            }
            i = i + 1;
        }
        assert(self.libraries@.take(i as int) =~= self.libraries@);
        i
    }

    /// The library loaded from the path.
    pub fn get_library(&self, path: &str) -> (r: Option<&SchLib>)
        ensures
            ({
                let i = library_index(self.spec_libraries(), path@);
                if i < self.spec_libraries().len() {
                    r == Some(&self.spec_libraries()[i].1)
                } else {
                    r is None
                }
            }),
    {
        let i = self.library_position(path);
        if i < self.libraries.len() {
            Some(&self.libraries[i].1)
        } else {
            None
        }
    }

    /// The paths of the loaded libraries, in load order.
    pub fn list_libraries(&self) -> (r: Vec<&str>)
        ensures
            r@.map_values(|s: &str| s@) == self.spec_libraries().map_values(|l: (String, SchLib)| l.0@),
    {
        let mut out: Vec<&str> = Vec::new();
        let mut i: usize = 0;
        while i < self.libraries.len()
            invariant
                i <= self.libraries@.len(),
                out@.map_values(|s: &str| s@) == self.libraries@.take(i as int).map_values(
                    |l: (String, SchLib)| l.0@,
                ),
            decreases self.libraries@.len() - i,
        {
            let ghost before = out@;
            out.push(self.libraries[i].0.as_str());
            assert(out@.map_values(|s: &str| s@) =~= before.map_values(|s: &str| s@).push(self.libraries@[i as int].0@));
            assert(self.libraries@.take(i + 1) =~= self.libraries@.take(i as int).push(self.libraries@[i as int]));
            assert(out@.map_values(|s: &str| s@) =~= self.libraries@.take(i + 1).map_values(
                |l: (String, SchLib)| l.0@,
            ));
            i = i + 1;
        }
        assert(self.libraries@.take(i as int) =~= self.libraries@);
        out
    }

    /// Where the first component with the name stands: library and
    /// component index.
    fn find_position(&self, lib_reference: &str) -> (r: Option<(usize, usize)>)
        ensures
            ({
                let cs = all_components(self.libraries@);
                let i = first_named_component(cs, lib_reference@);
                match r {
                    Some((l, k)) => l < self.libraries@.len() && k < self.libraries@[l as int].1.components@.len()
                        && i < cs.len() && cs[i] == (
                        self.libraries@[l as int].0@,
                        self.libraries@[l as int].1.components@[k as int],
                    ),
                    None => i >= cs.len(),
                }
            }),
    {
        let mut l: usize = 0;
        while l < self.libraries.len()
            invariant
                l <= self.libraries@.len(),
                first_named_component(all_components(self.libraries@.take(l as int)), lib_reference@) == all_components(
                    self.libraries@.take(l as int),
                ).len(),
            decreases self.libraries@.len() - l,
        {
            let ghost pre = all_components(self.libraries@.take(l as int));
            assert(self.libraries@.take(l + 1).drop_last() =~= self.libraries@.take(l as int));
            let lib = &self.libraries[l];
            let ghost part = lib.1.components@.map_values(|c: SchLibComponent| (lib.0@, c));
            assert(all_components(self.libraries@.take(l + 1)) == pre + part);
            let mut k: usize = 0;
            assert(pre + part.take(0) =~= pre);
            while k < lib.1.components.len()
                invariant
                    k <= lib.1.components@.len(),
                    l < self.libraries@.len(),
                    *lib == self.libraries@[l as int],
                    pre == all_components(self.libraries@.take(l as int)),
                    part == lib.1.components@.map_values(|c: SchLibComponent| (lib.0@, c)),
                    first_named_component(pre + part.take(k as int), lib_reference@) == pre.len() + k,
                decreases lib.1.components@.len() - k,
            {
                assert((pre + part.take(k + 1)).drop_last() =~= pre + part.take(k as int));
                if same_text(lib.1.components[k].name.as_str(), lib_reference) {
                    proof {
                        assert(part[k as int].1 == lib.1.components@[k as int]);
                        lemma_first_component_prefix(
                            all_components(self.libraries@),
                            lib_reference@,
                            pre.len() + k,
                            self.libraries@,
                            l as int,
                            k as int,
                        );
                    }
                    return Some((l, k));
                }
                k = k + 1;
            }
            assert(part.take(k as int) =~= part);
            l = l + 1;
        }
        assert(self.libraries@.take(l as int) =~= self.libraries@);
        None
    }

    /// The first component with the name, with its library's path:
    /// libraries in load order, components in library order.
    pub fn find_component(&self, lib_reference: &str) -> (r: Option<(&str, &SchLibComponent)>)
        ensures
            ({
                let cs = all_components(self.spec_libraries());
                let i = first_named_component(cs, lib_reference@);
                if i < cs.len() {
                    r matches Some((p, c)) && p@ == cs[i].0 && *c == cs[i].1
                } else {
                    r is None
                }
            }),
    {
        match self.find_position(lib_reference) {
            Some((l, k)) => Some((self.libraries[l].0.as_str(), &self.libraries[l].1.components[k])),
            None => None,
        }
    }

    /// `(path, name, description)` of every component of every library.
    pub fn list_all_components(&self) -> (r: Vec<(&str, &str, &str)>)
        ensures
            r@.map_values(|e: (&str, &str, &str)| entry_view(e)) == listing(all_components(self.spec_libraries())),
    {
        let mut out: Vec<(&str, &str, &str)> = Vec::new();
        let mut l: usize = 0;
        while l < self.libraries.len()
            invariant
                l <= self.libraries@.len(),
                out@.map_values(|e: (&str, &str, &str)| entry_view(e)) == listing(
                    all_components(self.libraries@.take(l as int)),
                ),
            decreases self.libraries@.len() - l,
        {
            let ghost pre = all_components(self.libraries@.take(l as int));
            assert(self.libraries@.take(l + 1).drop_last() =~= self.libraries@.take(l as int));
            let lib = &self.libraries[l];
            let ghost part = lib.1.components@.map_values(|c: SchLibComponent| (lib.0@, c));
            assert(all_components(self.libraries@.take(l + 1)) == pre + part);
            let mut k: usize = 0;
            while k < lib.1.components.len()
                invariant
                    k <= lib.1.components@.len(),
                    part == lib.1.components@.map_values(|c: SchLibComponent| (lib.0@, c)),
                    out@.map_values(|e: (&str, &str, &str)| entry_view(e)) == listing(pre + part.take(k as int)),
                decreases lib.1.components@.len() - k,
            {
                let c = &lib.1.components[k];
                let ghost before = out@;
                out.push((lib.0.as_str(), c.name.as_str(), c.description.as_str()));
                assert(listing(pre + part.take(k + 1)) =~= listing(pre + part.take(k as int)).push(
                    (lib.0@, c.name@, c.description@),
                ));
                assert(out@.map_values(|e: (&str, &str, &str)| entry_view(e)) =~= before.map_values(
                    |e: (&str, &str, &str)| entry_view(e),
                ).push((lib.0@, c.name@, c.description@)));
                k = k + 1;
            }
            assert(part.take(k as int) =~= part);
            l = l + 1;
        }
        assert(self.libraries@.take(l as int) =~= self.libraries@);
        out
    }

    /// The listed components whose name or description contains the
    /// pattern, ASCII case ignored.
    pub fn search_components(&self, pattern: &str) -> (r: Vec<(&str, &str, &str)>)
        ensures
            r@.map_values(|e: (&str, &str, &str)| entry_view(e)) == search_listing(
                listing(all_components(self.spec_libraries())),
                pattern@,
            ),
    {
        let all = self.list_all_components();
        let ghost av = all@.map_values(|e: (&str, &str, &str)| entry_view(e));
        let p = ascii_lower_exec(pattern.as_bytes());
        let mut out: Vec<(&str, &str, &str)> = Vec::new();
        let mut i: usize = 0;
        while i < all.len()
            invariant
                i <= all@.len(),
                av == all@.map_values(|e: (&str, &str, &str)| entry_view(e)),
                p@ == ascii_lower(pattern.spec_bytes()),
                out@.map_values(|e: (&str, &str, &str)| entry_view(e)) == search_listing(av.take(i as int), pattern@),
            decreases all@.len() - i,
        {
            let e = all[i];
            assert(av.take(i + 1).drop_last() =~= av.take(i as int));
            assert(av.take(i + 1).last() == entry_view(e));
            let n = ascii_lower_exec(e.1.as_bytes());
            let d = ascii_lower_exec(e.2.as_bytes());
            let ghost before = out@;
            if contains_sub_exec(n.as_slice(), p.as_slice()) || contains_sub_exec(d.as_slice(), p.as_slice()) {
                out.push(e);
                assert(out@.map_values(|e: (&str, &str, &str)| entry_view(e)) =~= before.map_values(
                    |e: (&str, &str, &str)| entry_view(e),
                ).push(entry_view(e)));
            }
            i = i + 1;
        }
        assert(av.take(i as int) =~= av);
        out
    }
}

proof fn lemma_library_index_prefix(ls: Seq<(String, SchLib)>, path: Seq<char>, i: int)
    requires
        0 <= i < ls.len(),
        library_index(ls.take(i), path) == i,
        ls[i].0@ == path,
    ensures
        library_index(ls, path) == i,
    decreases ls.len(),
{
    if ls.len() > i + 1 {
        assert(ls.drop_last().take(i) =~= ls.take(i));
        lemma_library_index_prefix(ls.drop_last(), path, i);
    } else {
        assert(ls.drop_last() =~= ls.take(i));
    }
}

proof fn lemma_first_component_prefix(
    cs: Seq<(Seq<char>, SchLibComponent)>,
    name: Seq<char>,
    i: int,
    ls: Seq<(String, SchLib)>,
    l: int,
    k: int,
)
    requires
        cs == all_components(ls),
        0 <= l < ls.len(),
        0 <= k < ls[l].1.components@.len(),
        ls[l].1.components@[k].name@ == name,
        i == all_components(ls.take(l)).len() + k,
        first_named_component(
            all_components(ls.take(l)) + ls[l].1.components@.map_values(|c: SchLibComponent| (ls[l].0@, c)).take(k),
            name,
        ) == i,
    ensures
        i < cs.len(),
        first_named_component(cs, name) == i,
        cs[i] == (ls[l].0@, ls[l].1.components@[k]),
    decreases ls.len(),
{
    lemma_all_components_prefix(ls, l + 1);
    let pre = all_components(ls.take(l));
    let part = ls[l].1.components@.map_values(|c: SchLibComponent| (ls[l].0@, c));
    assert(ls.take(l + 1).drop_last() =~= ls.take(l));
    assert(all_components(ls.take(l + 1)) == pre + part);
    let upto = pre + part.take(k + 1);
    assert(upto.drop_last() =~= pre + part.take(k));
    assert(first_named_component(upto, name) == i);
    let a1 = pre + part;
    assert(cs.take(a1.len() as int) == a1);
    assert(cs.take(upto.len() as int) =~= upto) by {
        assert(cs.take(upto.len() as int) =~= a1.take(upto.len() as int));
        assert(a1.take(upto.len() as int) =~= upto);
    }
    lemma_first_component_extend(upto, cs, name);
}

/// The listing of a prefix of the libraries is a prefix of the listing.
proof fn lemma_all_components_prefix(ls: Seq<(String, SchLib)>, n: int)
    requires
        0 <= n <= ls.len(),
    ensures
        all_components(ls.take(n)).len() <= all_components(ls).len(),
        all_components(ls).take(all_components(ls.take(n)).len() as int) == all_components(ls.take(n)),
    decreases ls.len(),
{
    if n < ls.len() {
        assert(ls.drop_last().take(n) =~= ls.take(n));
        lemma_all_components_prefix(ls.drop_last(), n);
        let a = all_components(ls.drop_last());
        let b = all_components(ls.take(n));
        assert((a + ls.last().1.components@.map_values(|c: SchLibComponent| (ls.last().0@, c))).take(b.len() as int)
            =~= a.take(b.len() as int));
    } else {
        assert(ls.take(n) =~= ls);
        assert(all_components(ls).take(all_components(ls).len() as int) =~= all_components(ls));
    }
}

/// A match found in a prefix stays the first match.
proof fn lemma_first_component_extend(
    pre: Seq<(Seq<char>, SchLibComponent)>,
    cs: Seq<(Seq<char>, SchLibComponent)>,
    name: Seq<char>,
)
    requires
        pre.len() >= 1,
        first_named_component(pre, name) == pre.len() - 1,
        pre.len() <= cs.len() ==> cs.take(pre.len() as int) == pre,
    ensures
        pre.len() <= cs.len() ==> first_named_component(cs, name) == pre.len() - 1 && cs[pre.len() - 1] == pre[pre.len() - 1],
    decreases cs.len(),
{
    if pre.len() <= cs.len() {
        if cs.len() > pre.len() {
            assert(cs.drop_last().take(pre.len() as int) =~= cs.take(pre.len() as int));
            lemma_first_component_extend(pre, cs.drop_last(), name);
        } else {
            assert(cs.take(pre.len() as int) =~= cs);
        }
    }
}

// ---------------------------------------------------------------------------
// Designators
// ---------------------------------------------------------------------------

/// Index of the first ASCII digit, or the length.
pub open spec fn first_digit(b: Seq<u8>) -> int
    decreases b.len(),
{
    if b.len() == 0 {
        0
    } else if is_digit(b[0]) {
        0
    } else {
        1 + first_digit(b.drop_first())
    }
}

/// A designator as prefix and number (`R12` is `R`, 12): a non-empty run
/// of non-digits, then one or more digits whose value fits a `u32`.
pub open spec fn parse_designator_text(b: Seq<u8>) -> Option<(Seq<u8>, u32)> {
    let k = first_digit(b);
    let num = b.subrange(k, b.len() as int);
    if k == 0 || num.len() == 0 || !all_digits(num) || digits_value(num) > u32::MAX {
        None
    } else {
        Some((b.subrange(0, k), digits_value(num) as u32))
    }
}

proof fn lemma_first_digit_scan(b: Seq<u8>, i: int)
    requires
        0 <= i <= b.len(),
        forall|q: int| 0 <= q < i ==> !is_digit(#[trigger] b[q]),
        i < b.len() ==> is_digit(b[i]),
    ensures
        first_digit(b) == i,
    decreases i,
{
    if i > 0 {
        assert forall|q: int| 0 <= q < i - 1 implies !is_digit(#[trigger] b.drop_first()[q]) by {
            assert(b.drop_first()[q] == b[q + 1]);
        }
        if i < b.len() {
            assert(b.drop_first()[i - 1] == b[i]);
        }
        lemma_first_digit_scan(b.drop_first(), i - 1);
    }
}

/// Splits a designator into prefix and number.
pub fn parse_designator(designator: &str) -> (r: Option<(Vec<u8>, u32)>)
    ensures
        match r {
            Some((p, n)) => parse_designator_text(designator.spec_bytes()) == Some((p@, n)),
            None => parse_designator_text(designator.spec_bytes()) is None,
        },
{
    let b = designator.as_bytes();
    let mut k: usize = 0;
    while k < b.len() && !(48 <= b[k] && b[k] <= 57)
        invariant
            k <= b@.len(),
            forall|q: int| 0 <= q < k ==> !is_digit(#[trigger] b@[q]),
        decreases b@.len() - k,
    {
        k = k + 1;
    }
    proof {
        lemma_first_digit_scan(b@, k as int);
    }
    if k == 0 || k == b.len() {
        return None;
    }
    match digits_bounded(b, k, 0xFFFF_FFFF) {
        Some(v) => Some((crate::wire::copy_range(b, 0, k), v as u32)),
        None => None,
    }
}

/// The largest number any designator record with the prefix carries, or 0.
pub open spec fn designator_max(prims: Seq<SchRecord>, prefix: Seq<u8>) -> nat
    decreases prims.len(),
{
    if prims.len() == 0 {
        0
    } else {
        let m = designator_max(prims.drop_last(), prefix);
        match prims.last() {
            SchRecord::Designator(d) => match parse_designator_text(vstd::utf8::encode_utf8(d.text@)) {
                Some((p, n)) => if p == prefix && n > m {
                    n as nat
                } else {
                    m
                },
                None => m,
            },
            _ => m,
        }
    }
}

/// Index of the last counter for the prefix, or -1.
pub open spec fn last_counter(cs: Seq<(Vec<u8>, u32)>, prefix: Seq<u8>) -> int
    decreases cs.len(),
{
    if cs.len() == 0 {
        -1
    } else if cs.last().0@ == prefix {
        cs.len() - 1
    } else {
        last_counter(cs.drop_last(), prefix)
    }
}

proof fn lemma_counter_update(cs: Seq<(Vec<u8>, u32)>, k: int, e: (Vec<u8>, u32))
    requires
        0 <= k < cs.len(),
        k == last_counter(cs, e.0@),
    ensures
        forall|p: Seq<u8>|
            #[trigger] counter_in(cs.update(k, e), p) == if p == e.0@ {
                e.1 as nat
            } else {
                counter_in(cs, p)
            },
    decreases cs.len(),
{
    let r = cs.update(k, e);
    if k < cs.len() - 1 {
        assert(r.drop_last() =~= cs.drop_last().update(k, e));
        assert(cs.last().0@ != e.0@);
        lemma_counter_update(cs.drop_last(), k, e);
        assert(r.last() == cs.last());
        assert forall|p: Seq<u8>|
            #[trigger] counter_in(r, p) == if p == e.0@ {
                e.1 as nat
            } else {
                counter_in(cs, p)
            } by {
            if r.last().0@ != p {
                assert(counter_in(r, p) == counter_in(r.drop_last(), p));
            }
        }
    } else {
        assert(r.drop_last() =~= cs.drop_last());
        lemma_counter_at(cs, e.0@);
        assert(cs[k].0@ == e.0@);
        assert forall|p: Seq<u8>|
            #[trigger] counter_in(r, p) == if p == e.0@ {
                e.1 as nat
            } else {
                counter_in(cs, p)
            } by {
            if p != e.0@ {
                assert(counter_in(r, p) == counter_in(r.drop_last(), p));
                assert(counter_in(cs, p) == counter_in(cs.drop_last(), p));
            }
        }
    }
}

proof fn lemma_counter_push(cs: Seq<(Vec<u8>, u32)>, e: (Vec<u8>, u32))
    ensures
        forall|p: Seq<u8>|
            #[trigger] counter_in(cs.push(e), p) == if p == e.0@ {
                e.1 as nat
            } else {
                counter_in(cs, p)
            },
{
    assert(cs.push(e).drop_last() =~= cs);
}

proof fn lemma_no_counter(cs: Seq<(Vec<u8>, u32)>, p: Seq<u8>)
    requires
        last_counter(cs, p) == -1,
    ensures
        counter_in(cs, p) == 0,
    decreases cs.len(),
{
    if cs.len() > 0 {
        lemma_no_counter(cs.drop_last(), p);
    }
}

proof fn lemma_counter_at(cs: Seq<(Vec<u8>, u32)>, p: Seq<u8>)
    requires
        last_counter(cs, p) >= 0,
    ensures
        last_counter(cs, p) < cs.len(),
        cs[last_counter(cs, p)].0@ == p,
        counter_in(cs, p) == cs[last_counter(cs, p)].1,
    decreases cs.len(),
{
    if cs.len() > 0 && cs.last().0@ != p {
        lemma_counter_at(cs.drop_last(), p);
    }
}

/// Index of the last counter for the prefix, or the number of counters.
fn find_counter(cs: &Vec<(Vec<u8>, u32)>, prefix: &[u8]) -> (r: usize)
    ensures
        r < cs@.len() ==> r == last_counter(cs@, prefix@),
        r >= cs@.len() ==> r == cs@.len() && last_counter(cs@, prefix@) == -1,
{
    let mut i: usize = cs.len();
    assert(cs@.take(i as int) =~= cs@);
    while i > 0
        invariant
            i <= cs@.len(),
            last_counter(cs@, prefix@) == last_counter(cs@.take(i as int), prefix@),
        decreases i,
    {
        assert(cs@.take(i as int).drop_last() =~= cs@.take(i - 1));
        assert(cs@.take(i as int).last() == cs@[i - 1]);
        if crate::documents::pcbdoc_streams::bytes_equal(cs[i - 1].0.as_slice(), prefix) {
            return i - 1;
        }
        i = i - 1;
    }
    cs.len()
}

/// Raises a prefix's counter to at least `num`.
fn raise_counter(cs: &mut Vec<(Vec<u8>, u32)>, prefix: Vec<u8>, num: u32)
    ensures
        forall|p: Seq<u8>|
            #[trigger] counter_in(final(cs)@, p) == if p == prefix@ {
                if num > counter_in(old(cs)@, p) {
                    num as nat
                } else {
                    counter_in(old(cs)@, p)
                }
            } else {
                counter_in(old(cs)@, p)
            },
{
    let k = find_counter(cs, prefix.as_slice());
    let ghost pv = prefix@;
    if k >= cs.len() {
        proof {
            lemma_no_counter(cs@, pv);
            lemma_counter_push(cs@, (prefix, num));
        }
        cs.push((prefix, num));
    } else {
        let ku = k;
        proof {
            lemma_counter_at(cs@, pv);
        }
        let cur = cs[ku].1;
        if num > cur {
            let ghost before = cs@;
            proof {
                lemma_counter_update(before, ku as int, (prefix, num));
            }
            cs.set(ku, (prefix, num));
        }
    }
}

/// Literal text views.
pub open spec fn lit(s: &str) -> Seq<char> {
    s@
}

/// The designator prefix a component name suggests, from its ASCII
/// upper-cased name.
pub open spec fn suggested_prefix(u: Seq<u8>) -> Seq<char> {
    let has = |w: &str| contains_sub(u, w.spec_bytes());
    let starts = |w: &str| u.len() >= 1 && u[0] == w.spec_bytes()[0];
    if has("RESISTOR") || (starts("R") && u.len() <= 6) {
        "R"@
    } else if has("CAPACITOR") || (starts("C") && u.len() <= 6) {
        "C"@
    } else if has("INDUCTOR") || (starts("L") && u.len() <= 6) {
        "L"@
    } else if has("DIODE") || (starts("D") && u.len() <= 6) {
        "D"@
    } else if has("TRANSISTOR") || has("MOSFET") || has("BJT") {
        "Q"@
    } else if has("LED") {
        "D"@
    } else if has("CRYSTAL") || has("OSCILLATOR") {
        "Y"@
    } else if has("CONNECTOR") || starts("J") {
        "J"@
    } else if has("HEADER") {
        "J"@
    } else if has("SWITCH") {
        "SW"@
    } else if has("FUSE") {
        "F"@
    } else if has("TRANSFORMER") {
        "T"@
    } else if has("RELAY") {
        "K"@
    } else if has("OPAMP") || has("OP-AMP") {
        "U"@
    } else {
        "U"@
    }
}

/// A library reference whose ASCII upper-cased text contains `RESISTOR`
/// suggests the designator prefix `R`.
pub proof fn lemma_resistor_prefix(reference: Seq<u8>, at: int)
    requires
        0 <= at,
        at + 8 <= ascii_upper(reference).len(),
        ascii_upper(reference).subrange(at, at + 8) == "RESISTOR".spec_bytes(),
    ensures
        suggested_prefix(ascii_upper(reference)) == "R"@,
{
    reveal_strlit("RESISTOR");
    vstd::string::is_ascii_spec_bytes("RESISTOR");
    assert(vstd::string::is_ascii("RESISTOR"));
    assert("RESISTOR".spec_bytes().len() == 8);
    assert(contains_sub(ascii_upper(reference), "RESISTOR".spec_bytes()));
}

/// A short library reference (1 to 6 bytes) that does not contain
/// `RESISTOR` suggests `R` when its upper-cased text starts with `R` and `C`
/// when it starts with `C`.
pub proof fn lemma_short_reference_prefix(reference: Seq<u8>)
    requires
        1 <= ascii_upper(reference).len() <= 6,
    ensures
        ascii_upper(reference)[0] == 82u8 ==> suggested_prefix(ascii_upper(reference)) == "R"@,
        ascii_upper(reference)[0] == 67u8 && !contains_sub(ascii_upper(reference), "RESISTOR".spec_bytes())
            ==> suggested_prefix(ascii_upper(reference)) == "C"@,
{
    reveal_strlit("R");
    reveal_strlit("C");
    vstd::string::is_ascii_spec_bytes("R");
    vstd::string::is_ascii_spec_bytes("C");
    assert(vstd::string::is_ascii("R"));
    assert(vstd::string::is_ascii("C"));
    assert("R".spec_bytes()[0] == 82u8);
    assert("C".spec_bytes()[0] == 67u8);
}

/// A library reference whose ASCII upper-cased text contains `CAPACITOR`,
/// and that the resistor rule does not claim (the text neither contains
/// `RESISTOR` nor is at most 6 bytes starting with `R`), suggests the
/// designator prefix `C`.
pub proof fn lemma_capacitor_prefix(reference: Seq<u8>, at: int)
    requires
        0 <= at,
        at + 9 <= ascii_upper(reference).len(),
        ascii_upper(reference).subrange(at, at + 9) == "CAPACITOR".spec_bytes(),
        forall|i: int|
            0 <= i && i + 8 <= ascii_upper(reference).len() ==> #[trigger] ascii_upper(reference).subrange(i, i + 8)
                != "RESISTOR".spec_bytes(),
        !(ascii_upper(reference).len() <= 6 && ascii_upper(reference).len() >= 1 && ascii_upper(reference)[0] == 82u8),
    ensures
        suggested_prefix(ascii_upper(reference)) == "C"@,
{
    reveal_strlit("CAPACITOR");
    reveal_strlit("RESISTOR");
    reveal_strlit("R");
    vstd::string::is_ascii_spec_bytes("CAPACITOR");
    vstd::string::is_ascii_spec_bytes("RESISTOR");
    vstd::string::is_ascii_spec_bytes("R");
    assert(vstd::string::is_ascii("CAPACITOR"));
    assert(vstd::string::is_ascii("RESISTOR"));
    assert(vstd::string::is_ascii("R"));
    let u = ascii_upper(reference);
    assert("CAPACITOR".spec_bytes().len() == 9);
    assert("RESISTOR".spec_bytes().len() == 8);
    assert("R".spec_bytes()[0] == 82u8);
    assert(contains_sub(u, "CAPACITOR".spec_bytes()));
    assert(!contains_sub(u, "RESISTOR".spec_bytes()));
}

/// ASCII upper-casing.
pub open spec fn ascii_upper(s: Seq<u8>) -> Seq<u8> {
    s.map_values(|b: u8| if 97 <= b <= 122 { (b - 32) as u8 } else { b })
}

fn ascii_upper_exec(s: &[u8]) -> (r: Vec<u8>)
    ensures
        r@ == ascii_upper(s@),
{
    let mut out: Vec<u8> = Vec::new();
    let mut i: usize = 0;
    while i < s.len()
        invariant
            i <= s@.len(),
            out@ == ascii_upper(s@.take(i as int)),
        decreases s@.len() - i,
    {
        let b = s[i];
        out.push(if 97 <= b && b <= 122 { b - 32 } else { b });
        assert(ascii_upper(s@.take(i + 1)) =~= ascii_upper(s@.take(i as int)).push(
            if 97 <= b <= 122 { (b - 32) as u8 } else { b },
        ));
        i = i + 1;
    }
    assert(s@.take(i as int) =~= s@);
    out
}

fn has_word(u: &Vec<u8>, w: &str) -> (r: bool)
    ensures
        r == contains_sub(u@, w.spec_bytes()),
{
    contains_sub_exec(u.as_slice(), w.as_bytes())
}

fn starts_with_byte(u: &Vec<u8>, w: &str) -> (r: bool)
    requires
        w.spec_bytes().len() >= 1,
    ensures
        r == (u@.len() >= 1 && u@[0] == w.spec_bytes()[0]),
{
    let wb = w.as_bytes();
    u.len() >= 1 && u[0] == wb[0]
}

impl LibraryManager {
    /// Sets every prefix's counter to the largest number the schematic's
    /// designators carry with it.
    pub fn init_designators_from(&mut self, primitives: &[SchRecord])
        ensures
            final(self).spec_libraries() == old(self).spec_libraries(),
            forall|p: Seq<u8>| #[trigger] final(self).spec_counter(p) == designator_max(primitives@, p),
    {
        self.designator_counters = Vec::new();
        let mut i: usize = 0;
        while i < primitives.len()
            invariant
                i <= primitives@.len(),
                self.libraries@ == old(self).libraries@,
                forall|p: Seq<u8>|
                    #[trigger] counter_in(self.designator_counters@, p) == designator_max(primitives@.take(i as int), p),
            decreases primitives@.len() - i,
        {
            assert(primitives@.take(i + 1).drop_last() =~= primitives@.take(i as int));
            match &primitives[i] {
                SchRecord::Designator(d) => {
                    match parse_designator(d.text.as_str()) {
                        Some((prefix, num)) => {
                            raise_counter(&mut self.designator_counters, prefix, num);
                        },
                        None => {},
                    }
                },
                _ => {},
            }
            i = i + 1;
        }
        assert(primitives@.take(i as int) =~= primitives@);
    }

    /// The next designator for a prefix: its counter, raised by one,
    /// after the prefix.
    pub fn next_designator(&mut self, prefix: &str) -> (r: String)
        requires
            old(self).spec_counter(prefix.spec_bytes()) < u32::MAX,
        ensures
            final(self).spec_libraries() == old(self).spec_libraries(),
            final(self).spec_counter(prefix.spec_bytes()) == old(self).spec_counter(prefix.spec_bytes()) + 1,
            forall|p: Seq<u8>| p != prefix.spec_bytes() ==> #[trigger] final(self).spec_counter(p) == old(self).spec_counter(p),
            r@ == prefix@ + decimal_text(old(self).spec_counter(prefix.spec_bytes()) + 1),
    {
        let pb = prefix.as_bytes();
        let k = find_counter(&self.designator_counters, pb);
        let ghost pv = pb@;
        let next: u32;
        if k >= self.designator_counters.len() {
            proof {
                lemma_no_counter(self.designator_counters@, pv);
            }
            next = 1;
        } else {
            proof {
                lemma_counter_at(self.designator_counters@, pv);
            }
            next = self.designator_counters[k].1 + 1;
        }
        let key = crate::wire::copy_range(pb, 0, pb.len());
        assert(key@ =~= pv);
        raise_counter(&mut self.designator_counters, key, next);
        let num = usize_text(next as usize);
        text2(prefix, num.as_str())
    }

    /// The designator prefix a component name suggests.
    pub fn suggest_designator_prefix(&self, lib_reference: &str) -> (r: &'static str)
        ensures
            r@ == suggested_prefix(ascii_upper(lib_reference.spec_bytes())),
    {
        let u = ascii_upper_exec(lib_reference.as_bytes());
        proof {
            reveal_strlit("R");
            reveal_strlit("C");
            reveal_strlit("L");
            reveal_strlit("D");
            reveal_strlit("J");
        }
        let short = u.len() <= 6;
        if has_word(&u, "RESISTOR") || (starts_with_byte(&u, "R") && short) {
            "R"
        } else if has_word(&u, "CAPACITOR") || (starts_with_byte(&u, "C") && short) {
            "C"
        } else if has_word(&u, "INDUCTOR") || (starts_with_byte(&u, "L") && short) {
            "L"
        } else if has_word(&u, "DIODE") || (starts_with_byte(&u, "D") && short) {
            "D"
        } else if has_word(&u, "TRANSISTOR") || has_word(&u, "MOSFET") || has_word(&u, "BJT") {
            "Q"
        } else if has_word(&u, "LED") {
            "D"
        } else if has_word(&u, "CRYSTAL") || has_word(&u, "OSCILLATOR") {
            "Y"
        } else if has_word(&u, "CONNECTOR") || starts_with_byte(&u, "J") {
            "J"
        } else if has_word(&u, "HEADER") {
            "J"
        } else if has_word(&u, "SWITCH") {
            "SW"
        } else if has_word(&u, "FUSE") {
            "F"
        } else if has_word(&u, "TRANSFORMER") {
            "T"
        } else if has_word(&u, "RELAY") {
            "K"
        } else if has_word(&u, "OPAMP") || has_word(&u, "OP-AMP") {
            "U"
        } else {
            "U"
        }
    }
}

// ---------------------------------------------------------------------------
// Instantiating components
// ---------------------------------------------------------------------------

/// A local point of a component placed at `at`.
pub open spec fn place(x: i32, y: i32, at: CoordPoint, o: Orientation) -> (int, int) {
    to_absolute((x as int, y as int), pt(at), o)
}

/// Whether `(nx, ny)` is `(x, y)` placed.
pub open spec fn placed(x: i32, y: i32, nx: i32, ny: i32, at: CoordPoint, o: Orientation) -> bool {
    (nx as int, ny as int) == place(x, y, at, o)
}

/// Rust's `%`: the remainder of truncating division.
pub open spec fn trunc_rem(a: int, b: int) -> int {
    a - trunc_div(a, b) * b
}

/// An arc angle turned with the orientation, kept below a full turn.
pub open spec fn turned_angle(a: i32, o: Orientation) -> int {
    if o.spec_quarters() == 0 {
        a as int
    } else {
        trunc_rem(a + 90 * o.spec_quarters(), 360)
    }
}

/// Whether every point of a record places within `i32`, and an arc's
/// turned angles too.
pub open spec fn record_fits(rec: SchRecord, at: CoordPoint, o: Orientation) -> bool {
    match rec {
        SchRecord::Pin(p) => fits_pt(place(p.location_x, p.location_y, at, o)),
        SchRecord::Line(l) => fits_pt(place(l.location_x, l.location_y, at, o)) && fits_pt(
            place(l.corner_x, l.corner_y, at, o),
        ),
        SchRecord::Rectangle(l) => fits_pt(place(l.location_x, l.location_y, at, o)) && fits_pt(
            place(l.corner_x, l.corner_y, at, o),
        ),
        SchRecord::Polygon(p) => fits_pt(place(p.location_x, p.location_y, at, o)) && forall|k: int|
            0 <= k < p.vertices@.len() ==> fits_pt(place(#[trigger] p.vertices@[k].0, p.vertices@[k].1, at, o)),
        SchRecord::Polyline(p) => fits_pt(place(p.location_x, p.location_y, at, o)) && forall|k: int|
            0 <= k < p.vertices@.len() ==> fits_pt(place(#[trigger] p.vertices@[k].0, p.vertices@[k].1, at, o)),
        SchRecord::Arc(a) => fits_pt(place(a.location_x, a.location_y, at, o)) && a.start_angle + 270 <= i32::MAX
            && a.end_angle + 270 <= i32::MAX,
        SchRecord::Ellipse(e) => fits_pt(place(e.location_x, e.location_y, at, o)),
        SchRecord::Label(l) => fits_pt(place(l.location_x, l.location_y, at, o)),
        SchRecord::Designator(d) => fits_pt(place(d.location_x, d.location_y, at, o)),
        SchRecord::Parameter(p) => fits_pt(place(p.location_x, p.location_y, at, o)),
        _ => true,
    }
}

/// Whether the vertices are the old ones placed.
pub open spec fn vertices_placed(old: Seq<(i32, i32)>, new: Seq<(i32, i32)>, at: CoordPoint, o: Orientation) -> bool {
    new.len() == old.len() && forall|k: int|
        0 <= k < old.len() ==> placed(#[trigger] old[k].0, old[k].1, new[k].0, new[k].1, at, o)
}

/// Whether `out` is an unchanged copy of `rec`.
pub open spec fn copy_of(out: SchRecord, rec: SchRecord) -> bool {
    match (rec, out) {
        (SchRecord::Wire(a), SchRecord::Wire(b)) => b.vertices@ == a.vertices@,
        (SchRecord::Component(a), SchRecord::Component(b)) => b == a,
        (SchRecord::Junction(a), SchRecord::Junction(b)) => b == a,
        (SchRecord::NetLabel(a), SchRecord::NetLabel(b)) => b == a,
        (SchRecord::PowerObject(a), SchRecord::PowerObject(b)) => b == a,
        (SchRecord::Port(a), SchRecord::Port(b)) => b == a,
        (SchRecord::Bus(a), SchRecord::Bus(b)) => b.vertices@ == a.vertices@,
        (SchRecord::BusEntry(a), SchRecord::BusEntry(b)) => b == a,
        (SchRecord::Other(a), SchRecord::Other(b)) => b == a,
        _ => false,
    }
}

/// Whether `out` is `rec` placed at `at` with the orientation, owned by
/// `owner`; a designator takes the text `des`; pins placed rotated by 90 or
/// 270 degrees (not mirrored) swap their rotated flag; arc angles turn with the
/// orientation. Records without placement are copied unchanged.
pub open spec fn transformed(out: SchRecord, rec: SchRecord, at: CoordPoint, o: Orientation, owner: i32, des: Seq<char>) -> bool {
    match (rec, out) {
        (SchRecord::Pin(a), SchRecord::Pin(b)) => b.owner_index == owner && placed(
            a.location_x,
            a.location_y,
            b.location_x,
            b.location_y,
            at,
            o,
        ) && b.pin_length == a.pin_length && b.rotated == (if o is Rotated90 || o is Rotated270 {
            !a.rotated
        } else {
            a.rotated
        }) && b.flipped == a.flipped && b.designator == a.designator && b.name == a.name,
        (SchRecord::Line(a), SchRecord::Line(b)) => b.owner_index == owner && placed(
            a.location_x,
            a.location_y,
            b.location_x,
            b.location_y,
            at,
            o,
        ) && placed(a.corner_x, a.corner_y, b.corner_x, b.corner_y, at, o),
        (SchRecord::Rectangle(a), SchRecord::Rectangle(b)) => b.owner_index == owner && placed(
            a.location_x,
            a.location_y,
            b.location_x,
            b.location_y,
            at,
            o,
        ) && placed(a.corner_x, a.corner_y, b.corner_x, b.corner_y, at, o),
        (SchRecord::Polygon(a), SchRecord::Polygon(b)) => b.owner_index == owner && placed(
            a.location_x,
            a.location_y,
            b.location_x,
            b.location_y,
            at,
            o,
        ) && vertices_placed(a.vertices@, b.vertices@, at, o),
        (SchRecord::Polyline(a), SchRecord::Polyline(b)) => b.owner_index == owner && placed(
            a.location_x,
            a.location_y,
            b.location_x,
            b.location_y,
            at,
            o,
        ) && vertices_placed(a.vertices@, b.vertices@, at, o),
        (SchRecord::Arc(a), SchRecord::Arc(b)) => b.owner_index == owner && placed(
            a.location_x,
            a.location_y,
            b.location_x,
            b.location_y,
            at,
            o,
        ) && b.radius == a.radius && b.start_angle == turned_angle(a.start_angle, o) && b.end_angle
            == turned_angle(a.end_angle, o),
        (SchRecord::Ellipse(a), SchRecord::Ellipse(b)) => b.owner_index == owner && placed(
            a.location_x,
            a.location_y,
            b.location_x,
            b.location_y,
            at,
            o,
        ) && b.radius_x == a.radius_x && b.radius_y == a.radius_y,
        (SchRecord::Label(a), SchRecord::Label(b)) => b.owner_index == owner && placed(
            a.location_x,
            a.location_y,
            b.location_x,
            b.location_y,
            at,
            o,
        ) && b.text == a.text,
        (SchRecord::Designator(a), SchRecord::Designator(b)) => b.owner_index == owner && placed(
            a.location_x,
            a.location_y,
            b.location_x,
            b.location_y,
            at,
            o,
        ) && b.text@ == des,
        (SchRecord::Parameter(a), SchRecord::Parameter(b)) => b.owner_index == owner && placed(
            a.location_x,
            a.location_y,
            b.location_x,
            b.location_y,
            at,
            o,
        ) && b.name == a.name && b.text == a.text,
        _ => copy_of(out, rec),
    }
}

/// Places a local point.
fn place_exec(x: i32, y: i32, at: CoordPoint, o: Orientation) -> (r: (i32, i32))
    requires
        fits_pt(place(x, y, at, o)),
    ensures
        placed(x, y, r.0, r.1, at, o),
{
    let p = local_to_absolute(CoordPoint { x: Coord { raw: x }, y: Coord { raw: y } }, at, o);
    (p.x.raw, p.y.raw)
}

/// The vertices placed.
fn place_vertices(v: &Vec<(i32, i32)>, at: CoordPoint, o: Orientation) -> (r: Vec<(i32, i32)>)
    requires
        forall|k: int| 0 <= k < v@.len() ==> fits_pt(place(#[trigger] v@[k].0, v@[k].1, at, o)),
    ensures
        vertices_placed(v@, r@, at, o),
{
    let mut out: Vec<(i32, i32)> = Vec::new();
    let mut i: usize = 0;
    while i < v.len()
        invariant
            i <= v@.len(),
            forall|k: int| 0 <= k < v@.len() ==> fits_pt(place(#[trigger] v@[k].0, v@[k].1, at, o)),
            out@.len() == i,
            forall|k: int| 0 <= k < i ==> placed(#[trigger] v@[k].0, v@[k].1, out@[k].0, out@[k].1, at, o),
        decreases v@.len() - i,
    {
        let (x, y) = v[i];
        out.push(place_exec(x, y, at, o));
        i = i + 1;
    }
    out
}

/// A copy of the vertices.
fn copy_vertices(v: &Vec<(i32, i32)>) -> (r: Vec<(i32, i32)>)
    ensures
        r@ == v@,
{
    let mut out: Vec<(i32, i32)> = Vec::new();
    let mut i: usize = 0;
    while i < v.len()
        invariant
            i <= v@.len(),
            out@ == v@.take(i as int),
        decreases v@.len() - i,
    {
        out.push(v[i]);
        assert(out@ =~= v@.take(i + 1));
        i = i + 1;
    }
    assert(v@.take(i as int) =~= v@);
    out
}

/// An arc angle turned with the orientation.
fn turn_angle(a: i32, o: Orientation) -> (r: i32)
    requires
        a + 270 <= i32::MAX,
    ensures
        r == turned_angle(a, o),
{
    let q = o.quarter_turns();
    if q == 0 {
        return a;
    }
    let sum = a as i64 + 90 * (q as i64);
    let d = div_trunc_i64(sum, 360);
    proof {
        crate::edit::types::lemma_trunc_div_mul_bound(sum as int, 360);
    }
    (sum - d * 360) as i32
}

/// Placing with the normal orientation moves every point by the placement
/// location.
pub proof fn lemma_normal_place_is_shift(x: i32, y: i32, at: CoordPoint)
    ensures
        place(x, y, at, Orientation::Normal) == (x as int + at.x.raw as int, y as int + at.y.raw as int),
{
}

/// A placed record of a kind that has a location belongs to the component
/// it was placed for.
pub proof fn lemma_placed_record_owned(out: SchRecord, rec: SchRecord, at: CoordPoint, o: Orientation, owner: i32, des: Seq<char>)
    requires
        transformed(out, rec, at, o, owner, des),
        rec is Pin || rec is Line || rec is Rectangle || rec is Polygon
            || rec is Polyline || rec is Arc || rec is Ellipse || rec is Label || rec is Designator || rec is Parameter,
    ensures
        crate::edit::layout::owner_of(out) == owner,
{
}

impl LibraryManager {
    /// A library primitive placed into a schematic: moved with the
    /// component's location and orientation, owned by the component.
    pub fn transform_primitive(
        &self,
        record: &SchRecord,
        location: CoordPoint,
        orientation: Orientation,
        owner_index: i32,
        designator: &str,
    ) -> (r: SchRecord)
        requires
            record_fits(*record, location, orientation),
        ensures
            transformed(r, *record, location, orientation, owner_index, designator@),
    {
        let at = location;
        let o = orientation;
        match record {
            SchRecord::Pin(p) => {
                let (x, y) = place_exec(p.location_x, p.location_y, at, o);
                let odd = match o {
                    Orientation::Rotated90 | Orientation::Rotated270 => true,
                    _ => false,
                };
                SchRecord::Pin(
                    crate::edit::sch_records::SchPin {
                        owner_index,
                        location_x: x,
                        location_y: y,
                        pin_length: p.pin_length,
                        rotated: if odd { !p.rotated } else { p.rotated },
                        flipped: p.flipped,
                        designator: p.designator.clone(),
                        name: p.name.clone(),
                    },
                )
            },
            SchRecord::Line(l) => {
                let (x, y) = place_exec(l.location_x, l.location_y, at, o);
                let (cx, cy) = place_exec(l.corner_x, l.corner_y, at, o);
                SchRecord::Line(SchLine { owner_index, location_x: x, location_y: y, corner_x: cx, corner_y: cy })
            },
            SchRecord::Rectangle(l) => {
                let (x, y) = place_exec(l.location_x, l.location_y, at, o);
                let (cx, cy) = place_exec(l.corner_x, l.corner_y, at, o);
                SchRecord::Rectangle(SchLine { owner_index, location_x: x, location_y: y, corner_x: cx, corner_y: cy })
            },
            SchRecord::Polygon(p) => {
                let (x, y) = place_exec(p.location_x, p.location_y, at, o);
                SchRecord::Polygon(
                    SchPolyline { owner_index, location_x: x, location_y: y, vertices: place_vertices(&p.vertices, at, o) },
                )
            },
            SchRecord::Polyline(p) => {
                let (x, y) = place_exec(p.location_x, p.location_y, at, o);
                SchRecord::Polyline(
                    SchPolyline { owner_index, location_x: x, location_y: y, vertices: place_vertices(&p.vertices, at, o) },
                )
            },
            SchRecord::Arc(a) => {
                let (x, y) = place_exec(a.location_x, a.location_y, at, o);
                SchRecord::Arc(
                    SchArc {
                        owner_index,
                        location_x: x,
                        location_y: y,
                        radius: a.radius,
                        start_angle: turn_angle(a.start_angle, o),
                        end_angle: turn_angle(a.end_angle, o),
                    },
                )
            },
            SchRecord::Ellipse(e) => {
                let (x, y) = place_exec(e.location_x, e.location_y, at, o);
                SchRecord::Ellipse(
                    SchEllipse { owner_index, location_x: x, location_y: y, radius_x: e.radius_x, radius_y: e.radius_y },
                )
            },
            SchRecord::Label(l) => {
                let (x, y) = place_exec(l.location_x, l.location_y, at, o);
                SchRecord::Label(SchLabel { owner_index, location_x: x, location_y: y, text: l.text.clone() })
            },
            SchRecord::Designator(d) => {
                let (x, y) = place_exec(d.location_x, d.location_y, at, o);
                SchRecord::Designator(SchDesignator { owner_index, location_x: x, location_y: y, text: text(designator) })
            },
            SchRecord::Parameter(p) => {
                let (x, y) = place_exec(p.location_x, p.location_y, at, o);
                SchRecord::Parameter(
                    SchParameter { owner_index, location_x: x, location_y: y, name: p.name.clone(), text: p.text.clone() },
                )
            },
            SchRecord::Wire(w) => SchRecord::Wire(SchWire { vertices: copy_vertices(&w.vertices) }),
            SchRecord::Component(c) => SchRecord::Component(copy_component(c)),
            SchRecord::Junction(j) => SchRecord::Junction(*j),
            SchRecord::NetLabel(n) => SchRecord::NetLabel(
                SchNetLabel { location_x: n.location_x, location_y: n.location_y, text: n.text.clone() },
            ),
            SchRecord::PowerObject(n) => SchRecord::PowerObject(
                SchPowerObject {
                    location_x: n.location_x,
                    location_y: n.location_y,
                    text: n.text.clone(),
                    style: n.style,
                    orientation: n.orientation,
                },
            ),
            SchRecord::Port(n) => SchRecord::Port(
                SchPort { location_x: n.location_x, location_y: n.location_y, name: n.name.clone(), io_type: n.io_type },
            ),
            SchRecord::Bus(b) => SchRecord::Bus(SchBus { vertices: copy_vertices(&b.vertices) }),
            SchRecord::BusEntry(e) => SchRecord::BusEntry(*e),
            SchRecord::Other(k) => SchRecord::Other(*k),
        }
    }
}

/// A copy of a component record.
fn copy_component(c: &SchComponent) -> (r: SchComponent)
    ensures
        r == *c,
{
    SchComponent {
        lib_reference: c.lib_reference.clone(),
        description: c.description.clone(),
        owner_index: c.owner_index,
        location_x: c.location_x,
        location_y: c.location_y,
        orientation: c.orientation,
        library_path: c.library_path.clone(),
        source_library_name: c.source_library_name.clone(),
        unique_id: c.unique_id.clone(),
    }
}

/// A fresh random UUID in its 32-digit form without hyphens, through
/// `uuid::Uuid::new_v4` and `simple`.
///
/// Trusted: the text is the lower-case simple form (32 hexadecimal digits)
/// with the version digit 4 that `new_v4` sets; which random digits come is
/// unsaid.
#[verifier::external_body]
fn new_simple_uuid_text() -> (r: String)
    ensures
        crate::types::is_simple_v4_text(r@),
{
    uuid::Uuid::new_v4().simple().to_string()
}

/// The designator record made for a component without one: the text, 10
/// mils right of and 30 mils above the component's location.
pub open spec fn made_designator(r: SchRecord, des: Seq<char>, at: CoordPoint, owner: i32) -> bool {
    r matches SchRecord::Designator(d) && d.owner_index == owner && d.location_x == at.x.raw + 100000 && d.location_y
        == at.y.raw + 300000 && d.text@ == des
}

/// Whether a component record is the library's, placed: location, owner
/// -1 (top level), orientation, library path, and an id that starts with
/// the designator and `_`.
pub open spec fn placed_component(c: SchComponent, lib: SchComponent, path: Seq<char>, at: CoordPoint, o: Orientation, des: Seq<char>) -> bool {
    &&& c.lib_reference == lib.lib_reference
    &&& c.description == lib.description
    &&& c.location_x == at.x.raw && c.location_y == at.y.raw
    &&& c.owner_index == -1
    &&& c.orientation == o.spec_quarters()
    &&& c.library_path@ == path && c.source_library_name@ == path
    &&& c.unique_id@.len() == des.len() + 33
    &&& c.unique_id@.subrange(0, des.len() + 1int) == des + "_"@
    &&& crate::types::is_simple_v4_text(c.unique_id@.subrange(des.len() + 1int, des.len() + 33int))
}

/// Whether any record is a designator.
pub open spec fn has_designator(prims: Seq<SchRecord>) -> bool {
    exists|k: int| 0 <= k < prims.len() && (#[trigger] prims[k]) is Designator
}

/// The designator an instantiation uses: the one given, or the suggested
/// prefix with its next number.
pub open spec fn chosen_designator(m: LibraryManager, lib_reference: Seq<char>, designator: Option<&str>) -> Seq<char> {
    match designator {
        Some(d) => d@,
        None => {
            let prefix = suggested_prefix(ascii_upper(vstd::utf8::encode_utf8(lib_reference)));
            prefix + decimal_text(m.spec_counter(vstd::utf8::encode_utf8(prefix)) + 1)
        },
    }
}

/// Whether the library component can be placed: its records and the
/// designator placed at the location fit an `i32`, and a designator
/// counter can still be raised.
pub open spec fn can_instantiate(
    m: LibraryManager,
    lib_reference: Seq<char>,
    location: CoordPoint,
    orientation: Orientation,
    designator: Option<&str>,
) -> bool {
    ({
                let cs = all_components(m.spec_libraries());
                let i = first_named_component(cs, lib_reference);
                i < cs.len() ==> {
                    let prims = cs[i].1.primitives@;
                    &&& forall|k: int| 1 <= k < prims.len() ==> record_fits(#[trigger] prims[k], location, orientation)
                    &&& fits_pt((location.x.raw + 100000, location.y.raw + 300000))
                    &&& designator is None ==> {
                        let prefix = suggested_prefix(ascii_upper(vstd::utf8::encode_utf8(lib_reference)));
                        m.spec_counter(vstd::utf8::encode_utf8(prefix)) < u32::MAX
                    }
                }
            })
}

/// What placing a library component does to the records: the first
/// library component with the name is placed after them, owning its other
/// primitives, with a designator; or nothing when no component has the
/// name.
pub open spec fn instantiated(
    m: LibraryManager,
    lib_reference: Seq<char>,
    location: CoordPoint,
    orientation: Orientation,
    designator: Option<&str>,
    old_prims: Seq<SchRecord>,
    new_prims: Seq<SchRecord>,
    r: crate::error::Result<usize>,
) -> bool {
    ({
                let cs = all_components(m.spec_libraries());
                let i = first_named_component(cs, lib_reference);
                if i >= cs.len() {
                    &&& r matches Err(crate::error::AltiumError::Parse(msg)) && msg@ == "Component not found: "@ + lib_reference
                    &&& new_prims == old_prims
                } else {
                    let (path, comp) = cs[i];
                    let prims = comp.primitives@;
                    let n = old_prims.len();
                    let des = chosen_designator(m, lib_reference, designator);
                    let owner = n as i32;
                    let tail = if prims.len() == 0 { 0 } else { prims.len() - 1 };
                    &&& r == Ok::<usize, crate::error::AltiumError>(n as usize)
                    &&& new_prims.take(n as int) == old_prims
                    &&& new_prims.len() == n + 1 + tail + if has_designator(prims) { 0int } else { 1int }
                    &&& new_prims[n as int] matches SchRecord::Component(c) && placed_component(
                        c,
                        comp.component,
                        path,
                        location,
                        orientation,
                        des,
                    )
                    &&& forall|k: int|
                        1 <= k < prims.len() ==> transformed(
                            #[trigger] new_prims[n + k],
                            prims[k],
                            location,
                            orientation,
                            owner,
                            des,
                        )
                    &&& !has_designator(prims) ==> made_designator(new_prims.last(), des, location, owner)
                }
            })
}

impl LibraryManager {
    /// A designator record for a component.
    fn create_designator(&self, text_value: &str, location: CoordPoint, owner_index: i32) -> (r: SchRecord)
        requires
            fits_pt((location.x.raw + 100000, location.y.raw + 300000)),
        ensures
            made_designator(r, text_value@, location, owner_index),
    {
        SchRecord::Designator(
            SchDesignator {
                owner_index,
                location_x: location.x.raw + 100000,
                location_y: location.y.raw + 300000,
                text: text(text_value),
            },
        )
    }

    /// Places the first library component with the name into the
    /// schematic: its component record (owned by no one), then its other
    /// primitives placed and owned by it, then a designator record when the
    /// library component has none. Returns the component record's index.
    pub fn instantiate_component(
        &mut self,
        lib_reference: &str,
        location: CoordPoint,
        orientation: Orientation,
        designator: Option<&str>,
        primitives: &mut Vec<SchRecord>,
    ) -> (r: crate::error::Result<usize>)
        requires
            can_instantiate(*old(self), lib_reference@, location, orientation, designator),
        ensures
            final(self).spec_libraries() == old(self).spec_libraries(),
            instantiated(*old(self), lib_reference@, location, orientation, designator, old(primitives)@, final(primitives)@, r),
    {
        let pos = self.find_position(lib_reference);
        let (l, k) = match pos {
            Some(p) => p,
            None => {
                return Err(crate::error::AltiumError::Parse(text2("Component not found: ", lib_reference)));
            },
        };
        let ghost cs = all_components(self.libraries@);
        let ghost i = first_named_component(cs, lib_reference@);
        let des: String = match designator {
            Some(d) => {
                match parse_designator(d) {
                    Some((prefix, num)) => raise_counter(&mut self.designator_counters, prefix, num),
                    None => {},
                }
                text(d)
            },
            None => {
                let prefix = self.suggest_designator_prefix(lib_reference);
                self.next_designator(prefix)
            },
        };
        assert(self.libraries@ == old(self).libraries@);
        let n = primitives.len();
        #[verifier::truncate]
        let owner = n as i32;
        let lib_path = self.libraries[l].0.as_str();
        let lc = &self.libraries[l].1.components[k];
        assert(cs[i].1 == *lc && cs[i].0 == lib_path@);
        assert(des@ == chosen_designator(*old(self), lib_reference@, designator));
        let mut uid = text2(des.as_str(), "_");
        let rand = new_simple_uuid_text();
        uid.append(rand.as_str());
        let comp = SchComponent {
            lib_reference: lc.component.lib_reference.clone(),
            description: lc.component.description.clone(),
            owner_index: -1,
            location_x: location.x.raw,
            location_y: location.y.raw,
            orientation: orientation.to_altium(),
            library_path: text(lib_path),
            source_library_name: text(lib_path),
            unique_id: uid,
        };
        proof {
            reveal_strlit("_");
            assert(comp.unique_id@.subrange(0, des@.len() + 1int) =~= des@ + "_"@);
            assert(comp.unique_id@.subrange(des@.len() + 1int, des@.len() + 33int) =~= rand@);
        }
        let ghost crec = SchRecord::Component(comp);
        primitives.push(SchRecord::Component(comp));
        let ghost base = primitives@;
        assert(base[n as int] == crec);
        let prims = &lc.primitives;
        let mut j: usize = 1;
        let mut has_des = false;
        if prims.len() > 0 {
            has_des = matches!(prims[0], SchRecord::Designator(_));
        }
        while j < prims.len()
            invariant
                1 <= j,
                prims@.len() > 0 ==> j <= prims@.len(),
                prims@.len() == 0 ==> j == 1,
                base.len() == n + 1,
                primitives@.len() == n + j,
                primitives@.take(n + 1) == base,
                forall|q: int| 1 <= q < prims@.len() ==> record_fits(#[trigger] prims@[q], location, orientation),
                forall|q: int|
                    1 <= q < j ==> transformed(
                        #[trigger] primitives@[n + q],
                        prims@[q],
                        location,
                        orientation,
                        owner,
                        des@,
                    ),
                has_des == exists|q: int| 0 <= q < j && q < prims@.len() && (#[trigger] prims@[q]) is Designator,
            decreases prims@.len() - j,
        {
            let rec = self.transform_primitive(&prims[j], location, orientation, owner, des.as_str());
            if matches!(prims[j], SchRecord::Designator(_)) {
                has_des = true;
            }
            let ghost before = primitives@;
            primitives.push(rec);
            assert(primitives@.take(n + 1) =~= before.take(n + 1));
            j = j + 1;
        }
        if !has_des {
            let dr = self.create_designator(des.as_str(), location, owner);
            let ghost before = primitives@;
            primitives.push(dr);
            assert(primitives@.take(n + 1) =~= before.take(n + 1));
        }
        proof {
            assert(has_des == has_designator(prims@));
            assert(primitives@.take(n as int) =~= old(primitives)@);
            assert(primitives@[n as int] == primitives@.take(n + 1)[n as int]);
            assert(primitives@[n as int] == crec);
        }
        Ok(n)
    }
}

impl Default for LibraryManager {
    fn default() -> (r: Self)
        ensures
            r.spec_libraries().len() == 0,
            forall|p: Seq<u8>| r.spec_counter(p) == 0,
    {
        LibraryManager::new()
    }
}

} // verus!
