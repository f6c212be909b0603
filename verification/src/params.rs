//! Parameter records: the `|KEY=VALUE|KEY=VALUE` text format of Altium records.
//!
//! Keys and values are kept as the raw Windows-1252 bytes of the file, so a
//! parse followed by a serialization reproduces the bytes exactly.
use vstd::prelude::*;
use vstd::string::StringSliceAdditionalSpecFns;

use crate::encoding::{all_ascii_bytes, decode_win1252, encode_win1252, win1252_decoded, win1252_encoded};
use crate::error::{text, text2, AltiumError};

verus! {

pub const PIPE: u8 = 0x7C;

pub const EQUALS: u8 = 0x3D;

pub const NUL: u8 = 0;

/// ASCII lower-casing of one byte.
pub open spec fn lower(b: u8) -> u8 {
    if 65 <= b <= 90 {
        (b + 32) as u8
    } else {
        b
    }
}

/// Keys compare equal ignoring ASCII case.
pub open spec fn key_eq(a: Seq<u8>, b: Seq<u8>) -> bool {
    a.len() == b.len() && forall|i: int| 0 <= i < a.len() ==> lower(a[i]) == lower(b[i])
}

/// Index of the first byte `b` at or after `from`, or `s.len()` if there is none.
pub open spec fn find_byte(s: Seq<u8>, b: u8, from: int) -> int
    decreases s.len() - from,
{
    if from >= s.len() {
        s.len() as int
    } else if s[from] == b {
        from
    } else {
        find_byte(s, b, from + 1)
    }
}

/// Splits one `KEY=VALUE` segment at its first `=`.
pub open spec fn split_kv(seg: Seq<u8>) -> (Seq<u8>, Seq<u8>) {
    let eq = find_byte(seg, EQUALS, 0);
    if eq < seg.len() {
        (seg.subrange(0, eq), seg.subrange(eq + 1, seg.len() as int))
    } else {
        (seg, Seq::empty())
    }
}

/// The entries of the `|`-separated segments of `s` from `pos` on; empty
/// segments are skipped.
pub open spec fn parse_params_from(s: Seq<u8>, pos: int) -> Seq<(Seq<u8>, Seq<u8>)>
    decreases s.len() - pos,
{
    if pos < 0 || pos >= s.len() {
        Seq::empty()
    } else {
        proof {
            lemma_find_byte_bounds(s, PIPE, pos);
        }
        let e = find_byte(s, PIPE, pos);
        let rest = if e < s.len() {
            parse_params_from(s, e + 1)
        } else {
            Seq::empty()
        };
        if e == pos {
            rest
        } else {
            seq![split_kv(s.subrange(pos, e))] + rest
        }
    }
}

/// The entries of a parameter text.
pub open spec fn parse_params(s: Seq<u8>) -> Seq<(Seq<u8>, Seq<u8>)> {
    parse_params_from(s, 0)
}

/// The text of a NUL-terminated payload: everything before the first NUL.
pub open spec fn text_before_nul(s: Seq<u8>) -> Seq<u8> {
    s.subrange(0, find_byte(s, NUL, 0))
}

/// Serialization of one entry: `|KEY=VALUE`.
pub open spec fn ser_entry(e: (Seq<u8>, Seq<u8>)) -> Seq<u8> {
    seq![PIPE] + e.0 + seq![EQUALS] + e.1
}

/// Serialization of a list of entries.
pub open spec fn ser_params(es: Seq<(Seq<u8>, Seq<u8>)>) -> Seq<u8>
    decreases es.len(),
{
    if es.len() == 0 {
        Seq::empty()
    } else {
        ser_params(es.drop_last()) + ser_entry(es.last())
    }
}

/// A key that survives a serialize/parse round trip.
pub open spec fn key_ok(k: Seq<u8>) -> bool {
    forall|i: int| 0 <= i < k.len() ==> k[i] != PIPE && k[i] != EQUALS && k[i] != NUL
}

/// A value that survives a serialize/parse round trip.
pub open spec fn value_ok(v: Seq<u8>) -> bool {
    forall|i: int| 0 <= i < v.len() ==> v[i] != PIPE && v[i] != NUL
}

/// Entries whose serialization parses back to themselves.
pub open spec fn entries_ok(es: Seq<(Seq<u8>, Seq<u8>)>) -> bool {
    forall|i: int| 0 <= i < es.len() ==> key_ok(#[trigger] es[i].0) && value_ok(es[i].1)
}

/// The value of the first entry from index `i` on whose key matches `key`.
pub open spec fn lookup_from(es: Seq<(Seq<u8>, Seq<u8>)>, key: Seq<u8>, i: int) -> Option<Seq<u8>>
    decreases es.len() - i,
{
    if i < 0 || i >= es.len() {
        None
    } else if key_eq(es[i].0, key) {
        Some(es[i].1)
    } else {
        lookup_from(es, key, i + 1)
    }
}

/// The value of the first entry whose key matches `key` (ignoring ASCII case).
pub open spec fn lookup(es: Seq<(Seq<u8>, Seq<u8>)>, key: Seq<u8>) -> Option<Seq<u8>> {
    lookup_from(es, key, 0)
}

/// Index of the first entry from `i` on whose key matches, or `es.len()`.
pub open spec fn index_of_key_from(es: Seq<(Seq<u8>, Seq<u8>)>, key: Seq<u8>, i: int) -> int
    decreases es.len() - i,
{
    if i < 0 || i >= es.len() {
        es.len() as int
    } else if key_eq(es[i].0, key) {
        i
    } else {
        index_of_key_from(es, key, i + 1)
    }
}

/// The entries after setting `key` to `value`: the first matching entry's
/// value is replaced, or a new entry is appended.
pub open spec fn set_param(es: Seq<(Seq<u8>, Seq<u8>)>, key: Seq<u8>, value: Seq<u8>) -> Seq<
    (Seq<u8>, Seq<u8>),
> {
    let i = index_of_key_from(es, key, 0);
    if i < es.len() {
        es.update(i, (es[i].0, value))
    } else {
        es.push((key, value))
    }
}

// ---------------------------------------------------------------------------
// Lemmas
// ---------------------------------------------------------------------------

pub proof fn lemma_find_byte_bounds(s: Seq<u8>, b: u8, from: int)
    requires
        0 <= from,
    ensures
        from <= s.len() ==> from <= find_byte(s, b, from) <= s.len(),
        from > s.len() ==> find_byte(s, b, from) == s.len(),
        find_byte(s, b, from) < s.len() ==> s[find_byte(s, b, from)] == b,
        forall|k: int| from <= k < find_byte(s, b, from) ==> s[k] != b,
    decreases s.len() - from,
{
    if from < s.len() && s[from] != b {
        lemma_find_byte_bounds(s, b, from + 1);
    }
}

/// `find_byte` stops at the first `b` once the bytes before it are known.
pub proof fn lemma_find_byte_at(s: Seq<u8>, b: u8, from: int, m: int)
    requires
        0 <= from <= m <= s.len(),
        forall|k: int| from <= k < m ==> s[k] != b,
        m == s.len() || s[m] == b,
    ensures
        find_byte(s, b, from) == m,
    decreases m - from,
{
    if from < m {
        lemma_find_byte_at(s, b, from + 1, m);
    }
}

/// Parsing the tail `b` of `a + b` does not depend on `a`.
pub proof fn lemma_parse_shift(a: Seq<u8>, b: Seq<u8>, i: int)
    requires
        0 <= i,
    ensures
        parse_params_from(a + b, a.len() + i) == parse_params_from(b, i),
    decreases b.len() - i,
{
    let s = a + b;
    let pos = a.len() + i;
    if i < b.len() {
        lemma_find_byte_bounds(b, PIPE, i);
        let eb = find_byte(b, PIPE, i);
        assert forall|k: int| pos <= k < a.len() + eb implies s[k] != PIPE by {
            assert(s[k] == b[k - a.len()]);
        }
        if eb < b.len() {
            assert(s[a.len() + eb] == b[eb]);
        }
        lemma_find_byte_at(s, PIPE, pos, a.len() + eb);
        if eb < b.len() {
            lemma_parse_shift(a, b, eb + 1);
        }
        assert(s.subrange(pos, a.len() + eb) =~= b.subrange(i, eb));
    }
}

pub proof fn lemma_ser_len_nonempty(es: Seq<(Seq<u8>, Seq<u8>)>)
    ensures
        es.len() > 0 ==> ser_params(es).len() > 0 && ser_params(es)[0] == PIPE,
    decreases es.len(),
{
    if es.len() > 0 {
        lemma_ser_len_nonempty(es.drop_last());
        let a = ser_params(es.drop_last());
        let b = ser_entry(es.last());
        assert(b[0] == PIPE);
        if es.len() == 1 {
            assert(es.drop_last().len() == 0);
            assert(a =~= Seq::<u8>::empty());
            assert(ser_params(es) =~= b);
        } else {
            assert((a + b)[0] == a[0]);
        }
    }
}

/// Serialization peels from the front as well as from the back.
pub proof fn lemma_ser_front(es: Seq<(Seq<u8>, Seq<u8>)>)
    requires
        es.len() > 0,
    ensures
        ser_params(es) == ser_entry(es[0]) + ser_params(es.drop_first()),
    decreases es.len(),
{
    if es.len() == 1 {
        assert(es.drop_last().len() == 0);
        assert(es.drop_first().len() == 0);
        assert(ser_params(es.drop_first()) =~= Seq::<u8>::empty());
        assert(ser_params(es.drop_last()) =~= Seq::<u8>::empty());
        assert(ser_params(es) =~= ser_entry(es[0]));
    } else {
        let init = es.drop_last();
        lemma_ser_front(init);
        assert(init.drop_first() =~= es.drop_first().drop_last());
        assert(es.drop_first().last() == es.last());
        assert(ser_params(es.drop_first()) == ser_params(es.drop_first().drop_last()) + ser_entry(
            es.drop_first().last(),
        ));
        assert(ser_params(es) =~= ser_entry(es[0]) + ser_params(es.drop_first()));
    }
}

/// Serialization contains no NUL byte when keys and values contain none.
pub proof fn lemma_ser_no_nul(es: Seq<(Seq<u8>, Seq<u8>)>)
    requires
        entries_ok(es),
    ensures
        forall|k: int| 0 <= k < ser_params(es).len() ==> ser_params(es)[k] != NUL,
    decreases es.len(),
{
    if es.len() > 0 {
        let init = es.drop_last();
        assert(entries_ok(init)) by {
            assert forall|i: int| 0 <= i < init.len() implies key_ok(#[trigger] init[i].0)
                && value_ok(init[i].1) by {
                assert(init[i] == es[i]);
            }
        }
        lemma_ser_no_nul(init);
        let e = es.last();
        assert(key_ok(es[es.len() - 1].0));
        let se = ser_entry(e);
        let s = ser_params(es);
        assert forall|k: int| 0 <= k < s.len() implies s[k] != NUL by {
            let n = ser_params(init).len();
            if k >= n {
                let j = k - n;
                assert(s[k] == se[j]);
                if j >= 1 && j < 1 + e.0.len() {
                    assert(se[j] == e.0[j - 1]);
                } else if j > 1 + e.0.len() {
                    assert(se[j] == e.1[j - 2 - e.0.len()]);
                }
            }
        }
    }
}

/// Parsing a serialization gives the entries back.
pub proof fn lemma_params_roundtrip(es: Seq<(Seq<u8>, Seq<u8>)>)
    requires
        entries_ok(es),
    ensures
        parse_params(ser_params(es)) == es,
    decreases es.len(),
{
    if es.len() == 0 {
        assert(ser_params(es) =~= Seq::<u8>::empty());
    } else {
        let e = es[0];
        let rest = es.drop_first();
        assert(entries_ok(rest)) by {
            assert forall|i: int| 0 <= i < rest.len() implies key_ok(#[trigger] rest[i].0)
                && value_ok(rest[i].1) by {
                assert(rest[i] == es[i + 1]);
                assert(key_ok(es[i + 1].0) && value_ok(es[i + 1].1));
            }
        }
        assert(key_ok(es[0].0));
        lemma_params_roundtrip(rest);
        lemma_ser_front(es);
        lemma_ser_len_nonempty(rest);
        let se = ser_entry(e);
        let r = ser_params(rest);
        let s = se + r;
        assert(ser_params(es) == s);
        let n = se.len() as int;
        // position 0 holds a pipe: the empty first segment is skipped
        assert(s[0] == PIPE);
        lemma_find_byte_at(s, PIPE, 0, 0);
        assert(parse_params_from(s, 0) == parse_params_from(s, 1));
        // the segment after it runs to the end of this entry
        assert forall|k: int| 1 <= k < n implies s[k] != PIPE by {
            assert(s[k] == se[k]);
            if k < 1 + e.0.len() {
                assert(se[k] == e.0[k - 1]);
            } else if k > 1 + e.0.len() {
                assert(se[k] == e.1[k - 2 - e.0.len()]);
            }
        }
        if r.len() > 0 {
            assert(s[n] == r[0]);
        }
        lemma_find_byte_at(s, PIPE, 1, n);
        let seg = s.subrange(1, n);
        assert(seg =~= e.0 + seq![EQUALS] + e.1);
        assert forall|k: int| 0 <= k < e.0.len() implies seg[k] != EQUALS by {
            assert(seg[k] == e.0[k]);
        }
        assert(seg[e.0.len() as int] == EQUALS);
        lemma_find_byte_at(seg, EQUALS, 0, e.0.len() as int);
        assert(seg.subrange(0, e.0.len() as int) =~= e.0);
        assert(seg.subrange(e.0.len() + 1int, seg.len() as int) =~= e.1);
        assert(split_kv(seg) == e);
        assert(n > 1);
        // what follows is the serialization of the rest
        lemma_parse_shift(se, r, 1);
        if r.len() > 0 {
            lemma_find_byte_at(r, PIPE, 0, 0);
            assert(parse_params_from(r, 0) == parse_params_from(r, 1));
        } else {
            assert(parse_params_from(s, n + 1) == Seq::<(Seq<u8>, Seq<u8>)>::empty());
        }
        assert(parse_params_from(s, 1) == seq![e] + parse_params_from(s, n + 1));
        assert(es =~= seq![e] + rest);
    }
}

/// `set_param` makes `key` map to `value` for later lookups.
pub proof fn lemma_lookup_index(es: Seq<(Seq<u8>, Seq<u8>)>, key: Seq<u8>, i: int)
    requires
        0 <= i <= es.len(),
    ensures
        i <= index_of_key_from(es, key, i) <= es.len(),
        index_of_key_from(es, key, i) < es.len() ==> key_eq(
            es[index_of_key_from(es, key, i)].0,
            key,
        ) && lookup_from(es, key, i) == Some(es[index_of_key_from(es, key, i)].1),
        index_of_key_from(es, key, i) == es.len() ==> lookup_from(es, key, i) is None,
        forall|k: int| i <= k < index_of_key_from(es, key, i) ==> !key_eq(#[trigger] es[k].0, key),
    decreases es.len() - i,
{
    if i < es.len() && !key_eq(es[i].0, key) {
        lemma_lookup_index(es, key, i + 1);
    }
}

/// Two keys that both match a third match each other.
pub proof fn lemma_key_eq_through(a: Seq<u8>, k: Seq<u8>, k2: Seq<u8>)
    requires
        key_eq(a, k),
        key_eq(a, k2),
    ensures
        key_eq(k, k2),
{
    assert forall|i: int| 0 <= i < k.len() implies lower(k[i]) == lower(k2[i]) by {
        assert(lower(a[i]) == lower(k[i]));
        assert(lower(a[i]) == lower(k2[i]));
    }
}

/// The first match of a key depends only on the entries' keys.
pub proof fn lemma_index_same_keys(es: Seq<(Seq<u8>, Seq<u8>)>, fs: Seq<(Seq<u8>, Seq<u8>)>, key: Seq<u8>, i: int)
    requires
        0 <= i <= es.len(),
        es.len() == fs.len(),
        forall|j: int| 0 <= j < es.len() ==> (#[trigger] es[j]).0 == fs[j].0,
    ensures
        index_of_key_from(es, key, i) == index_of_key_from(fs, key, i),
    decreases es.len() - i,
{
    if i < es.len() {
        assert(es[i].0 == fs[i].0);
        lemma_index_same_keys(es, fs, key, i + 1);
    }
}

/// Reading a key after setting it gives the value set.
pub proof fn lemma_lookup_set_same(es: Seq<(Seq<u8>, Seq<u8>)>, key: Seq<u8>, value: Seq<u8>)
    ensures
        lookup(set_param(es, key, value), key) == Some(value),
{
    let i = index_of_key_from(es, key, 0);
    lemma_lookup_index(es, key, 0);
    let fs = set_param(es, key, value);
    lemma_lookup_index(fs, key, 0);
    let j = index_of_key_from(fs, key, 0);
    assert(key_eq(key, key));
    if i < es.len() {
        assert(fs[i].0 == es[i].0);
        if j < i {
            assert(fs[j] == es[j]);
        }
        if j > i {
            assert(!key_eq(fs[i].0, key));
        }
        assert(j == i);
    } else {
        assert(fs.len() == es.len() + 1);
        if j < es.len() {
            assert(fs[j] == es[j]);
        }
        if j > es.len() {
            assert(!key_eq(fs[es.len() as int].0, key));
        }
        assert(j == es.len());
    }
}

/// Setting a key leaves what another, different key reads.
pub proof fn lemma_lookup_set_other(es: Seq<(Seq<u8>, Seq<u8>)>, key: Seq<u8>, value: Seq<u8>, other: Seq<u8>)
    requires
        !key_eq(key, other),
    ensures
        lookup(set_param(es, key, value), other) == lookup(es, other),
{
    let i = index_of_key_from(es, key, 0);
    lemma_lookup_index(es, key, 0);
    lemma_lookup_index(es, other, 0);
    let fs = set_param(es, key, value);
    lemma_lookup_index(fs, other, 0);
    let j = index_of_key_from(es, other, 0);
    if i < es.len() {
        lemma_index_same_keys(es, fs, other, 0);
        if j == i {
            lemma_key_eq_through(es[i].0, key, other);
        }
        if j < es.len() {
            assert(fs[j] == es[j]);
        }
    } else {
        let gs = fs.take(es.len() as int);
        assert(gs =~= es);
        if j < es.len() {
            let jf = index_of_key_from(fs, other, 0);
            if jf < j {
                assert(fs[jf] == es[jf]);
            }
            if jf > j {
                assert(fs[j] == es[j]);
            }
            assert(fs[j] == es[j]);
        } else {
            let jf = index_of_key_from(fs, other, 0);
            if jf < es.len() {
                assert(fs[jf] == es[jf]);
            }
            if jf == es.len() {
                assert(fs[jf].0 == key);
                assert(!key_eq(key, other));
            }
        }
    }
}

/// Setting a valid key to a valid value keeps the entries valid.
pub proof fn lemma_set_param_ok(es: Seq<(Seq<u8>, Seq<u8>)>, key: Seq<u8>, value: Seq<u8>)
    requires
        entries_ok(es),
        key_ok(key),
        value_ok(value),
    ensures
        entries_ok(set_param(es, key, value)),
{
    let i = index_of_key_from(es, key, 0);
    lemma_lookup_index(es, key, 0);
    let fs = set_param(es, key, value);
    assert forall|j: int| 0 <= j < fs.len() implies key_ok(#[trigger] fs[j].0) && value_ok(fs[j].1) by {
        if j < es.len() {
            assert(key_ok(es[j].0));
            assert(value_ok(es[j].1));
        }
    }
}

/// The decimal digits of an `i32`-sized natural number parse back to it.
pub proof fn lemma_parse_decimal_digits(n: nat)
    requires
        n <= i32::MAX,
    ensures
        parse_i32(decimal_digits(n)) == Some(n as i32),
        value_ok(decimal_digits(n)),
{
    lemma_decimal_digits(n);
    let d = decimal_digits(n);
    assert(is_digit(d[0]));
    assert forall|i: int| 0 <= i < d.len() implies d[i] != PIPE && d[i] != NUL by {
        assert(is_digit(d[i]));
    }
}

// ---------------------------------------------------------------------------
// Executable collection
// ---------------------------------------------------------------------------

/// One `KEY=VALUE` entry of a parameter record.
#[derive(Clone, Debug)]
pub struct ParamEntry {
    pub key: Vec<u8>,
    pub value: Vec<u8>,
    /// Whether a typed reader has taken this entry.
    pub consumed: bool,
}

impl ParamEntry {
    pub open spec fn spec_pair(&self) -> (Seq<u8>, Seq<u8>) {
        (self.key@, self.value@)
    }

    /// Key bytes.
    pub fn key(&self) -> (r: &[u8])
        ensures
            r@ == self.key@,
    {
        self.key.as_slice()
    }

    /// Value bytes.
    pub fn value(&self) -> (r: &[u8])
        ensures
            r@ == self.value@,
    {
        self.value.as_slice()
    }
}

/// An ordered list of parameter entries.
#[derive(Clone, Debug)]
pub struct ParameterCollection {
    pub entries: Vec<ParamEntry>,
}

/// A parameter value with typed accessors.
#[derive(Clone, Debug)]
pub struct ParamValue {
    pub bytes: Vec<u8>,
}

impl View for ParameterCollection {
    type V = Seq<(Seq<u8>, Seq<u8>)>;

    open spec fn view(&self) -> Seq<(Seq<u8>, Seq<u8>)> {
        self.entries@.map_values(|e: ParamEntry| e.spec_pair())
    }
}

impl View for ParamValue {
    type V = Seq<u8>;

    open spec fn view(&self) -> Seq<u8> {
        self.bytes@
    }
}

/// Exact ASCII-case-insensitive key comparison.
pub fn keys_equal(a: &[u8], b: &[u8]) -> (r: bool)
    ensures
        r == key_eq(a@, b@),
{
    if a.len() != b.len() {
        return false;
    }
    let mut i: usize = 0;
    while i < a.len()
        invariant
            a@.len() == b@.len(),
            i <= a@.len(),
            forall|k: int| 0 <= k < i ==> lower(a@[k]) == lower(b@[k]),
        decreases a@.len() - i,
    {
        let x = a[i];
        let y = b[i];
        let lx = if 65 <= x && x <= 90 { x + 32 } else { x };
        let ly = if 65 <= y && y <= 90 { y + 32 } else { y };
        if lx != ly {
            return false;
        }
        i = i + 1;
    }
    true
}

/// Index of the first `b` at or after `from` in `s`, or `s.len()`.
pub fn find_byte_exec(s: &[u8], b: u8, from: usize) -> (r: usize)
    requires
        from <= s@.len(),
    ensures
        r as int == find_byte(s@, b, from as int),
        from <= r <= s@.len(),
{
    let mut i = from;
    proof {
        lemma_find_byte_bounds(s@, b, from as int);
    }
    while i < s.len()
        invariant
            from <= i <= s@.len(),
            find_byte(s@, b, i as int) == find_byte(s@, b, from as int),
        decreases s@.len() - i,
    {
        if s[i] == b {
            return i;
        }
        i = i + 1;
    }
    i
}

/// Splits a segment into key and value at its first `=`.
fn split_segment(seg: &[u8]) -> (r: ParamEntry)
    ensures
        r.spec_pair() == split_kv(seg@),
        !r.consumed,
{
    let eq = find_byte_exec(seg, EQUALS, 0);
    if eq < seg.len() {
        let key = crate::wire::copy_range(seg, 0, eq);
        let value = crate::wire::copy_range(seg, eq + 1, seg.len());
        ParamEntry { key, value, consumed: false }
    } else {
        let key = crate::wire::copy_range(seg, 0, seg.len());
        assert(key@ =~= seg@);
        ParamEntry { key, value: Vec::new(), consumed: false }
    }
}

/// Parses the entries of a parameter text.
pub fn parse_param_bytes(s: &[u8]) -> (r: ParameterCollection)
    ensures
        r@ == parse_params(s@),
        forall|i: int| 0 <= i < r.entries@.len() ==> !(#[trigger] r.entries@[i]).consumed,
{
    let mut entries: Vec<ParamEntry> = Vec::new();
    let mut pos: usize = 0;
    while pos < s.len()
        invariant
            pos <= s@.len(),
            parse_params(s@) == entries@.map_values(|e: ParamEntry| e.spec_pair())
                + parse_params_from(s@, pos as int),
            forall|i: int| 0 <= i < entries@.len() ==> !(#[trigger] entries@[i]).consumed,
        decreases s@.len() - pos,
    {
        let e = find_byte_exec(s, PIPE, pos);
        proof {
            lemma_find_byte_bounds(s@, PIPE, pos as int);
        }
        let ghost old_entries = entries@;
        if e > pos {
            let seg = crate::wire::copy_range(s, pos, e);
            let entry = split_segment(seg.as_slice());
            entries.push(entry);
            assert(entries@.map_values(|e: ParamEntry| e.spec_pair()) =~= old_entries.map_values(
                |e: ParamEntry| e.spec_pair(),
            ) + seq![split_kv(s@.subrange(pos as int, e as int))]);
        }
        if e < s.len() {
            pos = e + 1;
        } else {
            pos = e;
        }
    }
    assert(parse_params_from(s@, pos as int) =~= Seq::<(Seq<u8>, Seq<u8>)>::empty());
    assert(entries@.map_values(|e: ParamEntry| e.spec_pair()) =~= parse_params(s@));
    ParameterCollection { entries }
}

/// Appends the serialization of one entry.
fn push_entry_bytes(out: &mut Vec<u8>, e: &ParamEntry)
    ensures
        final(out)@ == old(out)@ + ser_entry(e.spec_pair()),
{
    out.push(PIPE);
    crate::wire::append_bytes(out, e.key.as_slice());
    out.push(EQUALS);
    crate::wire::append_bytes(out, e.value.as_slice());
    assert(final(out)@ =~= old(out)@ + ser_entry(e.spec_pair()));
}

impl ParamValue {
    /// Raw Windows-1252 bytes of the value.
    pub fn as_bytes(&self) -> (r: &[u8])
        ensures
            r@ == self@,
    {
        self.bytes.as_slice()
    }

    /// The value decoded from Windows-1252.
    pub fn as_str(&self) -> (r: String)
        ensures
            r@ == win1252_decoded(self@),
            r@ == self@.map_values(|x: u8| crate::encoding::win1252_char(x)),
            all_ascii_bytes(self@) ==> r@ == self@.map_values(|x: u8| x as char),
    {
        decode_win1252(self.bytes.as_slice())
    }

    /// The value as a decimal `i32`.
    pub fn as_int(&self) -> (r: Result<i32, AltiumError>)
        ensures
            r matches Ok(v) ==> parse_int(self@) == Some(v as int),
            r is Err <==> parse_i32(self@) is None,
            parse_i32(self@) matches Some(v) ==> r == Ok::<i32, AltiumError>(v),
    {
        match parse_i32_bytes(self.bytes.as_slice()) {
            Some(v) => Ok(v),
            None => Err(AltiumError::InvalidParameter(text("expected an integer"))),
        }
    }

    /// The value as an `i32`, or `default` when it is not a decimal `i32`.
    pub fn as_int_or(&self, default: i32) -> (r: i32)
        ensures
            r == (match parse_i32(self@) {
                Some(v) => v,
                None => default,
            }),
    {
        match parse_i32_bytes(self.bytes.as_slice()) {
            Some(v) => v,
            None => default,
        }
    }

    /// The value as a boolean flag (`T` or `TRUE`, any case, is true).
    pub fn as_bool(&self) -> (r: bool)
        ensures
            r == is_true_text(self@),
    {
        bool_from_bytes(self.bytes.as_slice())
    }
}

// ---------------------------------------------------------------------------
// Scalar value syntax
// ---------------------------------------------------------------------------

pub open spec fn is_digit(b: u8) -> bool {
    48 <= b <= 57
}

/// The value of a string of decimal digits.
pub open spec fn digits_value(s: Seq<u8>) -> int
    decreases s.len(),
{
    if s.len() == 0 {
        0
    } else {
        digits_value(s.drop_last()) * 10 + (s.last() - 48)
    }
}

pub open spec fn all_digits(s: Seq<u8>) -> bool {
    forall|i: int| 0 <= i < s.len() ==> is_digit(s[i])
}

/// Decimal integer syntax: an optional sign followed by one or more digits.
pub open spec fn parse_int(s: Seq<u8>) -> Option<int> {
    if s.len() > 0 && (s[0] == 45 || s[0] == 43) {
        let d = s.drop_first();
        if d.len() > 0 && all_digits(d) {
            if s[0] == 45 {
                Some(-digits_value(d))
            } else {
                Some(digits_value(d))
            }
        } else {
            None
        }
    } else if s.len() > 0 && all_digits(s) {
        Some(digits_value(s))
    } else {
        None
    }
}

/// Decimal integer syntax whose value fits an `i32`.
pub open spec fn parse_i32(s: Seq<u8>) -> Option<i32> {
    match parse_int(s) {
        Some(v) => if i32::MIN <= v <= i32::MAX {
            Some(v as i32)
        } else {
            None
        },
        None => None,
    }
}

/// Decimal digits of a natural number, most significant first.
pub open spec fn decimal_digits(n: nat) -> Seq<u8>
    decreases n,
{
    if n < 10 {
        seq![(48 + n) as u8]
    } else {
        decimal_digits(n / 10).push((48 + n % 10) as u8)
    }
}

/// Decimal digits of `n`.
pub fn usize_to_decimal(n: usize) -> (r: Vec<u8>)
    ensures
        r@ == decimal_digits(n as nat),
    decreases n,
{
    if n < 10 {
        let mut v: Vec<u8> = Vec::new();
        v.push((48 + n) as u8);
        assert(v@ =~= decimal_digits(n as nat));
        v
    } else {
        let mut v = usize_to_decimal(n / 10);
        v.push((48 + n % 10) as u8);
        v
    }
}

/// The decimal digits of `n` read back as `n`.
pub proof fn lemma_decimal_digits(n: nat)
    ensures
        all_digits(decimal_digits(n)),
        decimal_digits(n).len() > 0,
        digits_value(decimal_digits(n)) == n,
    decreases n,
{
    if n >= 10 {
        lemma_decimal_digits(n / 10);
        let d = decimal_digits(n);
        assert(d.drop_last() =~= decimal_digits(n / 10));
        assert(d.last() == (48 + n % 10) as u8);
        assert(is_digit(d.last()));
        assert((n / 10) * 10 + n % 10 == n);
        assert(digits_value(d) == digits_value(d.drop_last()) * 10 + (d.last() - 48));
    } else {
        let d = decimal_digits(n);
        assert(d.drop_last() =~= Seq::<u8>::empty());
        assert(digits_value(d.drop_last()) == 0);
        assert(d.last() == (48 + n) as u8);
        assert(digits_value(d) == digits_value(d.drop_last()) * 10 + (d.last() - 48));
    }
}

pub open spec fn is_true_text(s: Seq<u8>) -> bool {
    (s.len() == 1 && lower(s[0]) == 116) || (s.len() == 4 && lower(s[0]) == 116 && lower(s[1])
        == 114 && lower(s[2]) == 117 && lower(s[3]) == 101)
}

pub proof fn lemma_digits_value_monotone(s: Seq<u8>)
    requires
        all_digits(s),
    ensures
        digits_value(s) >= 0,
    decreases s.len(),
{
    if s.len() > 0 {
        lemma_digits_value_monotone(s.drop_last());
    }
}

/// Parses decimal digits `s[from..]`, stopping once the value exceeds `limit`.
pub(crate) fn digits_bounded(s: &[u8], from: usize, limit: u64) -> (r: Option<u64>)
    requires
        from <= s@.len(),
        limit < 0x1_0000_0000,
    ensures
        r matches Some(v) ==> all_digits(s@.subrange(from as int, s@.len() as int)) && v
            == digits_value(s@.subrange(from as int, s@.len() as int)) && v <= limit,
        r is None ==> !all_digits(s@.subrange(from as int, s@.len() as int)) || digits_value(
            s@.subrange(from as int, s@.len() as int),
        ) > limit,
{
    let mut acc: u64 = 0;
    let mut i = from;
    while i < s.len()
        invariant
            from <= i <= s@.len(),
            limit < 0x1_0000_0000,
            all_digits(s@.subrange(from as int, i as int)),
            acc == digits_value(s@.subrange(from as int, i as int)),
            acc <= limit,
        decreases s@.len() - i,
    {
        let c = s[i];
        let ghost pre = s@.subrange(from as int, i as int);
        let ghost next = s@.subrange(from as int, i + 1);
        assert(next.drop_last() =~= pre);
        if c < 48 || c > 57 {
            assert(!is_digit(next.last()));
            proof {
                let full = s@.subrange(from as int, s@.len() as int);
                assert(full[i - from] == c);
            }
            return None;
        }
        assert(next.last() == c);
        assert(all_digits(next));
        acc = acc * 10 + (c - 48) as u64;
        assert(acc == digits_value(next));
        if acc > limit {
            proof {
                let full = s@.subrange(from as int, s@.len() as int);
                assert(full.subrange(0, (i + 1 - from) as int) =~= next);
                lemma_digits_prefix_bound(full, (i + 1 - from) as int);
            }
            return None;
        }
        i = i + 1;
    }
    assert(s@.subrange(from as int, i as int) =~= s@.subrange(from as int, s@.len() as int));
    Some(acc)
}

/// A digit string is at least as large as any of its prefixes.
pub proof fn lemma_digits_prefix_bound(s: Seq<u8>, n: int)
    requires
        0 <= n <= s.len(),
    ensures
        all_digits(s) ==> digits_value(s) >= digits_value(s.subrange(0, n)),
    decreases s.len() - n,
{
    if n == s.len() {
        assert(s.subrange(0, n) =~= s);
    }
    if all_digits(s) && n < s.len() {
        lemma_digits_prefix_bound(s, n + 1);
        let p = s.subrange(0, n + 1);
        assert(p.drop_last() =~= s.subrange(0, n));
        assert(p.last() == s[n]);
        assert(is_digit(s[n]));
        assert(all_digits(s.subrange(0, n)));
        lemma_digits_value_monotone(s.subrange(0, n));
        assert(digits_value(p) == digits_value(s.subrange(0, n)) * 10 + (s[n] - 48));
    }
}

/// Parses a decimal `i32` with an optional sign.
pub fn parse_i32_bytes(s: &[u8]) -> (r: Option<i32>)
    ensures
        r == parse_i32(s@),
{
    if s.len() == 0 {
        return None;
    }
    let c0 = s[0];
    if c0 == 45 || c0 == 43 {
        if s.len() == 1 {
            return None;
        }
        let limit: u64 = if c0 == 45 { 2147483648 } else { 2147483647 };
        let r = digits_bounded(s, 1, limit);
        assert(s@.subrange(1, s@.len() as int) =~= s@.drop_first());
        match r {
            Some(v) => {
                if c0 == 45 {
                    if v == 2147483648 {
                        Some(i32::MIN)
                    } else {
                        Some(-(v as i32))
                    }
                } else {
                    Some(v as i32)
                }
            },
            None => None,
        }
    } else {
        let r = digits_bounded(s, 0, 2147483647);
        assert(s@.subrange(0, s@.len() as int) =~= s@);
        match r {
            Some(v) => Some(v as i32),
            None => None,
        }
    }
}

/// Whether the bytes read as a true flag.
pub fn bool_from_bytes(s: &[u8]) -> (r: bool)
    ensures
        r == is_true_text(s@),
{
    let lw = |b: u8| -> (r: u8)
        ensures
            r == lower(b),
        { if 65 <= b && b <= 90 { b + 32 } else { b } };
    if s.len() == 1 {
        lw(s[0]) == 116
    } else if s.len() == 4 {
        lw(s[0]) == 116 && lw(s[1]) == 114 && lw(s[2]) == 117 && lw(s[3]) == 101
    } else {
        false
    }
}

impl ParameterCollection {
    /// An empty collection.
    pub fn new() -> (r: Self)
        ensures
            r@ == Seq::<(Seq<u8>, Seq<u8>)>::empty(),
    {
        ParameterCollection { entries: Vec::new() }
    }

    /// Parses a NUL-terminated record payload: the text before the first NUL.
    pub fn from_bytes(data: &[u8]) -> (r: Self)
        ensures
            r@ == parse_params(text_before_nul(data@)),
            forall|i: int| 0 <= i < r.entries@.len() ==> !(#[trigger] r.entries@[i]).consumed,
    {
        let end = find_byte_exec(data, NUL, 0);
        let t = crate::wire::copy_range(data, 0, end);
        parse_param_bytes(t.as_slice())
    }

    /// Parses a parameter text, encoding it as Windows-1252 first.
    pub fn from_string(s: &str) -> (r: Self)
        ensures
            r@ == parse_params(win1252_encoded(s@)),
    {
        let b = encode_win1252(s);
        parse_param_bytes(b.as_slice())
    }

    /// A copy with the same entries, none of them taken.
    pub fn duplicate(&self) -> (r: Self)
        ensures
            r@ == self@,
    {
        let mut entries: Vec<ParamEntry> = Vec::new();
        let mut i: usize = 0;
        while i < self.entries.len()
            invariant
                i <= self.entries@.len(),
                entries@.map_values(|e: ParamEntry| e.spec_pair()) == self@.take(i as int),
            decreases self.entries@.len() - i,
        {
            let e = &self.entries[i];
            let ghost before = entries@;
            let k = e.key.clone();
            let v = e.value.clone();
            assert(k@ =~= e.key@);
            assert(v@ =~= e.value@);
            entries.push(ParamEntry { key: k, value: v, consumed: false });
            assert(self@[i as int] == e.spec_pair());
            assert(self@.take(i + 1) =~= self@.take(i as int).push(self@[i as int]));
            assert(entries@.map_values(|e: ParamEntry| e.spec_pair()) =~= before.map_values(
                |e: ParamEntry| e.spec_pair(),
            ).push(self@[i as int]));
            i = i + 1;
        }
        assert(self@.take(i as int) =~= self@);
        ParameterCollection { entries }
    }

    /// Number of entries.
    pub fn len(&self) -> (r: usize)
        ensures
            r == self@.len(),
    {
        self.entries.len()
    }

    /// The entries in order.
    pub fn entries(&self) -> (r: &[ParamEntry])
        ensures
            r@.map_values(|e: ParamEntry| e.spec_pair()) == self@,
    {
        self.entries.as_slice()
    }

    /// Index of the first entry whose key matches, or the number of entries.
    fn index_of(&self, key: &[u8]) -> (r: usize)
        ensures
            r == index_of_key_from(self@, key@, 0),
    {
        let mut i: usize = 0;
        proof {
            lemma_lookup_index(self@, key@, 0);
        }
        while i < self.entries.len()
            invariant
                i <= self@.len(),
                self@.len() == self.entries@.len(),
                index_of_key_from(self@, key@, i as int) == index_of_key_from(self@, key@, 0),
            decreases self@.len() - i,
        {
            assert(self@[i as int] == self.entries@[i as int].spec_pair());
            if keys_equal(self.entries[i].key.as_slice(), key) {
                return i;
            }
            i = i + 1;
        }
        i
    }

    /// The value of the first entry whose key matches (ignoring ASCII case).
    pub fn get_bytes(&self, key: &[u8]) -> (r: Option<ParamValue>)
        ensures
            r matches Some(v) ==> lookup(self@, key@) == Some(v@),
            r is None <==> lookup(self@, key@) is None,
    {
        let i = self.index_of(key);
        proof {
            lemma_lookup_index(self@, key@, 0);
        }
        if i < self.entries.len() {
            assert(self@[i as int] == self.entries@[i as int].spec_pair());
            Some(ParamValue { bytes: self.entries[i].value.clone() })
        } else {
            None
        }
    }

    /// The value of the first entry whose key matches `key` (ignoring ASCII case).
    pub fn get(&self, key: &str) -> (r: Option<ParamValue>)
        ensures
            r matches Some(v) ==> lookup(self@, key.spec_bytes()) == Some(v@),
            r is None <==> lookup(self@, key.spec_bytes()) is None,
    {
        self.get_bytes(key.as_bytes())
    }

    /// Whether some entry has the key.
    pub fn contains_key(&self, key: &str) -> (r: bool)
        ensures
            r == lookup(self@, key.spec_bytes()) is Some,
    {
        self.get(key).is_some()
    }

    /// Sets a key to a value given as bytes.
    pub fn add_bytes(&mut self, key: &[u8], value: &[u8])
        ensures
            final(self)@ == set_param(old(self)@, key@, value@),
    {
        let i = self.index_of(key);
        if i < self.entries.len() {
            let ghost before = self@;
            let k = self.entries[i].key.clone();
            let c = self.entries[i].consumed;
            self.entries.set(i, ParamEntry { key: k, value: crate::wire::copy_range(value, 0, value.len()), consumed: c });
            assert(value@.subrange(0, value@.len() as int) =~= value@);
            assert(self@ =~= before.update(i as int, (before[i as int].0, value@)));
        } else {
            let ghost before = self@;
            let k = crate::wire::copy_range(key, 0, key.len());
            let v = crate::wire::copy_range(value, 0, value.len());
            assert(key@.subrange(0, key@.len() as int) =~= key@);
            assert(value@.subrange(0, value@.len() as int) =~= value@);
            self.entries.push(ParamEntry { key: k, value: v, consumed: false });
            assert(self@ =~= before.push((key@, value@)));
        }
    }

    /// Sets a key to a value; both are encoded as Windows-1252.
    pub fn add(&mut self, key: &str, value: &str)
        ensures
            final(self)@ == set_param(old(self)@, win1252_encoded(key@), win1252_encoded(value@)),
    {
        let k = encode_win1252(key);
        let v = encode_win1252(value);
        self.add_bytes(k.as_slice(), v.as_slice());
    }

    /// The `|KEY=VALUE` serialization of the entries.
    pub fn to_bytes(&self) -> (r: Vec<u8>)
        ensures
            r@ == ser_params(self@),
    {
        let mut out: Vec<u8> = Vec::new();
        let mut i: usize = 0;
        while i < self.entries.len()
            invariant
                i <= self.entries@.len(),
                out@ == ser_params(self@.take(i as int)),
            decreases self.entries@.len() - i,
        {
            let ghost before = out@;
            push_entry_bytes(&mut out, &self.entries[i]);
            proof {
                let t = self@.take(i + 1);
                assert(t.drop_last() =~= self@.take(i as int));
                assert(t.last() == self.entries@[i as int].spec_pair());
            }
            i = i + 1;
        }
        assert(self@.take(i as int) =~= self@);
        out
    }

    /// Takes the value of `key`, marking the entry consumed.
    pub fn take_bytes(&mut self, key: &[u8]) -> (r: Option<ParamValue>)
        ensures
            final(self)@ == old(self)@,
            final(self).entries@.len() == old(self).entries@.len(),
            forall|j: int|
                0 <= j < old(self).entries@.len() ==> (#[trigger] final(self).entries@[j]).consumed == (old(
                    self,
                ).entries@[j].consumed || j == index_of_key_from(old(self)@, key@, 0)),
            r matches Some(v) ==> lookup(old(self)@, key@) == Some(v@),
            r is None <==> lookup(old(self)@, key@) is None,
    {
        let i = self.index_of(key);
        proof {
            lemma_lookup_index(self@, key@, 0);
        }
        if i < self.entries.len() {
            let ghost before = self@;
            let k = self.entries[i].key.clone();
            let v = self.entries[i].value.clone();
            self.entries.set(i, ParamEntry { key: k, value: v.clone(), consumed: true });
            assert(self@ =~= before);
            assert forall|j: int| 0 <= j < self.entries@.len() implies (#[trigger] self.entries@[j]).consumed == (old(
                self,
            ).entries@[j].consumed || j == i) by {}
            Some(ParamValue { bytes: v })
        } else {
            None
        }
    }

    /// Takes the value of `key`, marking the entry consumed.
    pub fn take(&mut self, key: &str) -> (r: Option<ParamValue>)
        ensures
            final(self)@ == old(self)@,
            final(self).entries@.len() == old(self).entries@.len(),
            forall|j: int|
                0 <= j < old(self).entries@.len() ==> (#[trigger] final(self).entries@[j]).consumed == (old(
                    self,
                ).entries@[j].consumed || j == index_of_key_from(old(self)@, key.spec_bytes(), 0)),
            r matches Some(v) ==> lookup(old(self)@, key.spec_bytes()) == Some(v@),
            r is None <==> lookup(old(self)@, key.spec_bytes()) is None,
    {
        self.take_bytes(key.as_bytes())
    }

    /// Ok when every entry has been taken; otherwise an error naming the first
    /// leftover key.
    pub fn assert_exhausted(&self) -> (r: Result<(), AltiumError>)
        ensures
            r is Ok <==> forall|i: int| 0 <= i < self.entries@.len() ==> (#[trigger] self.entries@[i]).consumed,
            forall|i: int|
                0 <= i < self.entries@.len() && !(#[trigger] self.entries@[i]).consumed && (forall|k: int|
                    0 <= k < i ==> self.entries@[k].consumed) ==> (r matches Err(AltiumError::InvalidParameter(m))
                    && m@ == "unconsumed parameter key '"@ + self.entries@[i].key@.map_values(
                    |x: u8| crate::encoding::win1252_char(x),
                ) + "'"@),
    {
        let mut i: usize = 0;
        while i < self.entries.len()
            invariant
                i <= self.entries@.len(),
                forall|k: int| 0 <= k < i ==> (#[trigger] self.entries@[k]).consumed,
            decreases self.entries@.len() - i,
        {
            if !self.entries[i].consumed {
                let name = decode_win1252(self.entries[i].key.as_slice());
                let m = crate::error::text3("unconsumed parameter key '", name.as_str(), "'");
                return Err(AltiumError::InvalidParameter(m));
            }
            i = i + 1;
        }
        Ok(())
    }
}

} // verus!
