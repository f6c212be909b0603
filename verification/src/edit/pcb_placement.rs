//! PCB placement: board edges, coordinate text with units, and the
//! placement engine that snaps, resolves anchors and finds connected routes.
//!
//! A coordinate text is a decimal number with an optional unit (`mm`, `mil`
//! or `in`; plain numbers are mils). Its value is rounded to internal units,
//! halves away from zero, and saturated to the `i32` range.
use vstd::prelude::*;
use vstd::string::StringSliceAdditionalSpecFns;
use vstd::arithmetic::div_mod::lemma_fundamental_div_mod_converse;
use vstd::utf8::{encode_utf8_valid_utf8, is_char_boundary, is_char_boundary_iff_is_leading_byte, is_char_boundary_start_end_of_seq, valid_utf8, valid_utf8_split};

use crate::params::{all_digits, digits_value, find_byte, find_byte_exec, is_digit, key_eq, keys_equal, lower};
use crate::edit::pcb_records::{PcbBoard, PcbDocComponent, PcbRecord};
use crate::edit::types::{can_snap, snap_raw, Grid};
use crate::params::lookup;
use crate::types::{abs_int, fits_i32, trunc_div, Coord, CoordPoint, CoordRect};

verus! {

/// `10^n`.
pub open spec fn pow10(n: nat) -> nat
    decreases n,
{
    if n == 0 {
        1
    } else {
        10 * pow10((n - 1) as nat)
    }
}

/// Whitespace among ASCII bytes, as `char::is_whitespace` sees it.
pub open spec fn is_space(b: u8) -> bool {
    b == 32 || (9 <= b <= 13)
}

/// The bytes without leading whitespace.
pub open spec fn trim_start(s: Seq<u8>) -> Seq<u8>
    decreases s.len(),
{
    if s.len() > 0 && is_space(s[0]) {
        trim_start(s.drop_first())
    } else {
        s
    }
}

/// The bytes without trailing whitespace.
pub open spec fn trim_end(s: Seq<u8>) -> Seq<u8>
    decreases s.len(),
{
    if s.len() > 0 && is_space(s.last()) {
        trim_end(s.drop_last())
    } else {
        s
    }
}

/// The bytes without leading and trailing whitespace.
pub open spec fn trim(s: Seq<u8>) -> Seq<u8> {
    trim_end(trim_start(s))
}

/// ASCII lower-casing of every byte.
pub open spec fn lower_all(s: Seq<u8>) -> Seq<u8> {
    s.map_values(|b: u8| lower(b))
}

/// Whether `s` ends with `suf`.
pub open spec fn ends_with(s: Seq<u8>, suf: Seq<u8>) -> bool {
    s.len() >= suf.len() && s.subrange(s.len() - suf.len(), s.len() as int) == suf
}

/// `s` with every trailing repetition of a non-empty `suf` removed.
pub open spec fn strip_suffix_all(s: Seq<u8>, suf: Seq<u8>) -> Seq<u8>
    decreases s.len(),
{
    if suf.len() > 0 && ends_with(s, suf) {
        strip_suffix_all(s.subrange(0, s.len() - suf.len()), suf)
    } else {
        s
    }
}

/// Decimal number syntax: an optional sign, digits, and an optional `.` with
/// more digits, at least one digit in all. Gives the sign, the integer
/// digits and the fraction digits.
pub open spec fn decimal_parts(s: Seq<u8>) -> Option<(bool, Seq<u8>, Seq<u8>)> {
    let signed = s.len() > 0 && (s[0] == 45 || s[0] == 43);
    let body = if signed {
        s.drop_first()
    } else {
        s
    };
    let p = find_byte(body, 46, 0);
    let ip = body.subrange(0, p);
    let fp = if p < body.len() {
        body.subrange(p + 1, body.len() as int)
    } else {
        Seq::<u8>::empty()
    };
    if all_digits(ip) && all_digits(fp) && ip.len() + fp.len() > 0 {
        Some((s.len() > 0 && s[0] == 45, ip, fp))
    } else {
        None
    }
}

/// `floor(c * 0.fp)`: the fraction digits scaled by `c`, rounded down.
pub open spec fn frac_floor(fp: Seq<u8>, c: nat) -> int {
    (c * digits_value(fp)) / (pow10(fp.len()) as int)
}

/// The number `sign ip.fp` times `k / d`, rounded half away from zero.
pub open spec fn round_scaled(neg: bool, ip: Seq<u8>, fp: Seq<u8>, k: nat, d: nat) -> int {
    let w2 = 2 * digits_value(ip) * k + frac_floor(fp, 2 * k);
    let m = (w2 + d) / (2 * d as int);
    if neg {
        -m
    } else {
        m
    }
}

/// The value saturated to the `i32` range.
pub open spec fn saturate_i32(v: int) -> i32 {
    if v > i32::MAX {
        i32::MAX
    } else if v < i32::MIN {
        i32::MIN
    } else {
        v as i32
    }
}

/// The internal-unit value of a decimal number scaled by `k / d`.
pub open spec fn scaled_value(num: Seq<u8>, k: nat, d: nat) -> Option<i32> {
    match decimal_parts(num) {
        Some((neg, ip, fp)) => Some(saturate_i32(round_scaled(neg, ip, fp, k, d))),
        None => None,
    }
}

pub open spec fn mm_bytes() -> Seq<u8> {
    seq![109u8, 109u8]
}

pub open spec fn mil_bytes() -> Seq<u8> {
    seq![109u8, 105u8, 108u8]
}

pub open spec fn in_bytes() -> Seq<u8> {
    seq![105u8, 110u8]
}

/// The value of a coordinate text already trimmed and lower-cased: a
/// number with an `mm`, `mil` or `in` suffix, or a plain number of mils.
pub open spec fn coord_text_value(t: Seq<u8>) -> Option<i32> {
    if ends_with(t, mm_bytes()) {
        scaled_value(trim(strip_suffix_all(t, mm_bytes())), 100_000_000, 254)
    } else if ends_with(t, mil_bytes()) {
        scaled_value(trim(strip_suffix_all(t, mil_bytes())), 10_000, 1)
    } else if ends_with(t, in_bytes()) {
        scaled_value(trim(strip_suffix_all(t, in_bytes())), 10_000_000, 1)
    } else {
        scaled_value(t, 10_000, 1)
    }
}

/// The value of a coordinate text.
pub open spec fn coord_value(s: Seq<u8>) -> Option<i32> {
    coord_text_value(lower_all(trim(s)))
}

// ---------------------------------------------------------------------------
// Lemmas
// ---------------------------------------------------------------------------

/// A digit prepended to a digit string adds its place value.
pub proof fn lemma_digits_prepend(x: u8, r: Seq<u8>)
    ensures
        digits_value(seq![x] + r) == (x - 48) * pow10(r.len()) + digits_value(r),
    decreases r.len(),
{
    let s = seq![x] + r;
    if r.len() == 0 {
        assert(s.drop_last() =~= Seq::<u8>::empty());
        assert(s.last() == x);
        assert(digits_value(Seq::<u8>::empty()) == 0);
        assert(digits_value(s) == digits_value(s.drop_last()) * 10 + (s.last() - 48));
        assert(pow10(0) == 1);
    } else {
        lemma_digits_prepend(x, r.drop_last());
        assert(s.drop_last() =~= seq![x] + r.drop_last());
        assert(s.last() == r.last());
        assert(pow10(r.len()) == 10 * pow10((r.len() - 1) as nat));
        assert(digits_value(s) == digits_value(s.drop_last()) * 10 + (s.last() - 48));
        assert(digits_value(r) == digits_value(r.drop_last()) * 10 + (r.last() - 48));
        let p = pow10((r.len() - 1) as nat) as int;
        let a = x - 48;
        let v = digits_value(r.drop_last());
        assert((a * p + v) * 10 + (r.last() - 48) == a * (10 * p) + (v * 10 + (r.last() - 48)))
            by (nonlinear_arith);
    }
}

/// Digit strings have a non-negative value.
pub proof fn lemma_digits_nonneg(s: Seq<u8>)
    requires
        all_digits(s),
    ensures
        digits_value(s) >= 0,
    decreases s.len(),
{
    if s.len() > 0 {
        lemma_digits_nonneg(s.drop_last());
    }
}

pub proof fn lemma_pow10_pos(n: nat)
    ensures
        pow10(n) >= 1,
    decreases n,
{
    if n > 0 {
        lemma_pow10_pos((n - 1) as nat);
    }
}

/// `floor(c * (a * M + v) / (10 * M)) == floor((c * a + floor(c * v / M)) / 10)`.
pub proof fn lemma_floor_step(c: int, a: int, v: int, m: int)
    requires
        c >= 0,
        a >= 0,
        v >= 0,
        m >= 1,
    ensures
        (c * (a * m + v)) / (10 * m) == (c * a + (c * v) / m) / 10,
{
    let t = (c * v) / m;
    let rho = (c * v) % m;
    vstd::arithmetic::div_mod::lemma_fundamental_div_mod(c * v, m);
    vstd::arithmetic::div_mod::lemma_mod_pos_bound(c * v, m);
    let big = c * a + t;
    let q = big / 10;
    let s = big % 10;
    vstd::arithmetic::div_mod::lemma_fundamental_div_mod(big, 10);
    vstd::arithmetic::div_mod::lemma_mod_pos_bound(big, 10);
    assert(c * (a * m + v) == q * (10 * m) + (s * m + rho)) by (nonlinear_arith)
        requires
            c * v == m * t + rho,
            big == c * a + t,
            big == 10 * q + s,
    ;
    assert(0 <= s * m + rho < 10 * m) by (nonlinear_arith)
        requires
            0 <= s < 10,
            0 <= rho < m,
            m >= 1,
    ;
    lemma_fundamental_div_mod_converse(c * (a * m + v), 10 * m, q, s * m + rho);
}

/// One step of the right-to-left fraction scan.
pub proof fn lemma_frac_floor_step(x: u8, r: Seq<u8>, c: nat)
    requires
        is_digit(x),
        all_digits(r),
    ensures
        frac_floor(seq![x] + r, c) == (c * (x - 48) + frac_floor(r, c)) / 10,
{
    lemma_digits_prepend(x, r);
    lemma_digits_nonneg(r);
    lemma_pow10_pos(r.len());
    let s = seq![x] + r;
    assert(s.len() == r.len() + 1);
    assert(pow10(s.len()) == 10 * pow10(r.len()));
    lemma_floor_step(c as int, (x - 48) as int, digits_value(r), pow10(r.len()) as int);
}

/// The fraction scan stays below `c`.
pub proof fn lemma_frac_floor_bound(fp: Seq<u8>, c: nat)
    requires
        all_digits(fp),
    ensures
        0 <= frac_floor(fp, c) < c || (c == 0 && frac_floor(fp, c) == 0),
    decreases fp.len(),
{
    if fp.len() == 0 {
        assert(digits_value(fp) == 0);
    } else {
        let r = fp.drop_first();
        assert(fp =~= seq![fp[0]] + r);
        lemma_frac_floor_bound(r, c);
        lemma_frac_floor_step(fp[0], r, c);
        let t = frac_floor(r, c);
        let a = fp[0] - 48;
        assert(0 <= c * a <= 9 * c) by (nonlinear_arith)
            requires
                0 <= a <= 9,
                c >= 0,
        ;
    }
}

// ---------------------------------------------------------------------------
// Executable parsing
// ---------------------------------------------------------------------------

/// Index of the first non-space byte of `s[from..to]`, or `to`.
fn skip_spaces(s: &[u8], from: usize, to: usize) -> (r: usize)
    requires
        from <= to <= s@.len(),
    ensures
        from <= r <= to,
        trim_start(s@.subrange(from as int, to as int)) == s@.subrange(r as int, to as int),
    decreases to - from,
{
    if from < to && (s[from] == 32 || (9 <= s[from] && s[from] <= 13)) {
        let r = skip_spaces(s, from + 1, to);
        assert(s@.subrange(from as int, to as int).drop_first() =~= s@.subrange(from + 1, to as int));
        r
    } else {
        r_id(from)
    }
}

fn r_id(x: usize) -> (r: usize)
    ensures
        r == x,
{
    x
}

/// One past the last non-space byte of `s[from..to]`, or `from`.
fn back_spaces(s: &[u8], from: usize, to: usize) -> (r: usize)
    requires
        from <= to <= s@.len(),
    ensures
        from <= r <= to,
        trim_end(s@.subrange(from as int, to as int)) == s@.subrange(from as int, r as int),
    decreases to - from,
{
    if from < to && (s[to - 1] == 32 || (9 <= s[to - 1] && s[to - 1] <= 13)) {
        let r = back_spaces(s, from, to - 1);
        assert(s@.subrange(from as int, to as int).drop_last() =~= s@.subrange(from as int, to - 1));
        r
    } else {
        to
    }
}

/// The trimmed, lower-cased copy of the bytes.
pub fn trimmed_lower(s: &[u8]) -> (r: Vec<u8>)
    ensures
        r@ == lower_all(trim(s@)),
{
    let a = skip_spaces(s, 0, s.len());
    assert(s@.subrange(0, s@.len() as int) =~= s@);
    let b = back_spaces(s, a, s.len());
    let mut out: Vec<u8> = Vec::new();
    let mut i: usize = a;
    while i < b
        invariant
            a <= i <= b <= s@.len(),
            out@ == lower_all(s@.subrange(a as int, i as int)),
        decreases b - i,
    {
        let x = s[i];
        let y = if 65 <= x && x <= 90 {
            x + 32
        } else {
            x
        };
        out.push(y);
        assert(lower_all(s@.subrange(a as int, i + 1)) =~= lower_all(s@.subrange(a as int, i as int)).push(lower(x)));
        i = i + 1;
    }
    out
}

/// Whether `s[..to]` ends with `suf`.
fn ends_with_exec(s: &[u8], to: usize, suf: &[u8]) -> (r: bool)
    requires
        to <= s@.len(),
    ensures
        r == ends_with(s@.subrange(0, to as int), suf@),
{
    if to < suf.len() {
        return false;
    }
    let base = to - suf.len();
    let mut i: usize = 0;
    while i < suf.len()
        invariant
            base + suf@.len() == to,
            to <= s@.len(),
            i <= suf@.len(),
            forall|k: int| 0 <= k < i ==> s@[base + k] == suf@[k],
        decreases suf@.len() - i,
    {
        if s[base + i] != suf[i] {
            assert(s@.subrange(0, to as int).subrange(base as int, to as int)[i as int] != suf@[i as int]);
            return false;
        }
        i = i + 1;
    }
    assert(s@.subrange(0, to as int).subrange(base as int, to as int) =~= suf@);
    true
}

/// End of `s[..to]` after removing every trailing repetition of `suf`.
fn strip_suffix_exec(s: &[u8], to: usize, suf: &[u8]) -> (r: usize)
    requires
        to <= s@.len(),
        suf@.len() > 0,
    ensures
        r <= to,
        strip_suffix_all(s@.subrange(0, to as int), suf@) == s@.subrange(0, r as int),
    decreases to,
{
    if ends_with_exec(s, to, suf) {
        let nto = to - suf.len();
        let r = strip_suffix_exec(s, nto, suf);
        assert(s@.subrange(0, to as int).subrange(0, to - suf@.len()) =~= s@.subrange(0, nto as int));
        r
    } else {
        to
    }
}

/// Saturating conversion to `i32`.
fn saturate(v: i128) -> (r: i32)
    ensures
        r == saturate_i32(v as int),
{
    if v > 2147483647 {
        i32::MAX
    } else if v < -2147483648 {
        i32::MIN
    } else {
        v as i32
    }
}

/// Cap on the integer part kept while scanning; anything larger saturates.
pub const INT_CAP: u64 = 1_000_000_000_000;

/// The value of the decimal number `num` scaled by `k / d`, rounded half
/// away from zero and saturated; `None` for text that is not a decimal.
pub fn parse_scaled(num: &[u8], k: u64, d: u64) -> (r: Option<i32>)
    requires
        1 <= k <= 100_000_000,
        1 <= d <= 254,
        k >= 39 * d,
    ensures
        r == scaled_value(num@, k as nat, d as nat),
{
    let signed = num.len() > 0 && (num[0] == 45 || num[0] == 43);
    let start: usize = if signed {
        1
    } else {
        0
    };
    let ghost body = if signed {
        num@.drop_first()
    } else {
        num@
    };
    assert(body =~= num@.subrange(start as int, num@.len() as int));
    let p = find_byte_exec(num, 46, start);
    let ghost pb = find_byte(body, 46, 0);
    proof {
        lemma_find_shift(num@, start as int);
    }
    assert(p == start + pb);
    let fstart: usize = if p < num.len() {
        p + 1
    } else {
        p
    };
    let ghost ip = body.subrange(0, pb);
    let ghost fp = if pb < body.len() {
        body.subrange(pb + 1, body.len() as int)
    } else {
        Seq::<u8>::empty()
    };
    assert(ip =~= num@.subrange(start as int, p as int));
    assert(fp =~= num@.subrange(fstart as int, num@.len() as int));
    assert(decimal_parts(num@) == if all_digits(ip) && all_digits(fp) && ip.len() + fp.len() > 0 {
        Some((num@.len() > 0 && num@[0] == 45, ip, fp))
    } else {
        None
    });
    if p - start + (num.len() - fstart) == 0 {
        return None;
    }
    // integer part, capped
    let mut acc: u64 = 0;
    let mut i: usize = start;
    while i < p
        invariant
            start <= i <= p <= num@.len(),
            ip == num@.subrange(start as int, p as int),
            decimal_parts(num@) == if all_digits(ip) && all_digits(fp) && ip.len() + fp.len() > 0 {
                Some((num@.len() > 0 && num@[0] == 45, ip, fp))
            } else {
                None
            },
            all_digits(num@.subrange(start as int, i as int)),
            acc as int == if digits_value(num@.subrange(start as int, i as int)) >= INT_CAP {
                INT_CAP as int
            } else {
                digits_value(num@.subrange(start as int, i as int))
            },
        decreases p - i,
    {
        let c = num[i];
        if !(48 <= c && c <= 57) {
            assert(!all_digits(ip)) by {
                assert(ip[i - start] == c);
            }
            return None;
        }
        proof {
            let pre = num@.subrange(start as int, i as int);
            assert(num@.subrange(start as int, i + 1) =~= pre.push(c));
            assert(num@.subrange(start as int, i + 1).drop_last() =~= pre);
            lemma_digits_nonneg(pre);
        }
        if acc >= INT_CAP {
            acc = INT_CAP;
        } else {
            let nv = acc * 10 + (c - 48) as u64;
            acc = if nv >= INT_CAP {
                INT_CAP
            } else {
                nv
            };
        }
        i = i + 1;
    }
    // fraction part, scanned from the right
    let c2: u64 = 2 * k;
    let mut t: u64 = 0;
    let mut j: usize = num.len();
    assert(num@.subrange(j as int, num@.len() as int) =~= Seq::<u8>::empty());
    while j > fstart
        invariant
            fstart <= j <= num@.len(),
            fp == num@.subrange(fstart as int, num@.len() as int),
            decimal_parts(num@) == if all_digits(ip) && all_digits(fp) && ip.len() + fp.len() > 0 {
                Some((num@.len() > 0 && num@[0] == 45, ip, fp))
            } else {
                None
            },
            c2 == 2 * k,
            1 <= k <= 100_000_000,
            all_digits(num@.subrange(j as int, num@.len() as int)),
            t as int == frac_floor(num@.subrange(j as int, num@.len() as int), c2 as nat),
            t < c2,
        decreases j - fstart,
    {
        let c = num[j - 1];
        if !(48 <= c && c <= 57) {
            assert(!all_digits(fp)) by {
                assert(fp[j - 1 - fstart] == c);
            }
            return None;
        }
        let ghost rest = num@.subrange(j as int, num@.len() as int);
        proof {
            assert(num@.subrange(j - 1, num@.len() as int) =~= seq![c] + rest);
            lemma_frac_floor_step(c, rest, c2 as nat);
            lemma_frac_floor_bound(seq![c] + rest, c2 as nat);
        }
        t = (c2 * (c - 48) as u64 + t) / 10;
        j = j - 1;
    }
    assert(all_digits(fp));
    assert(all_digits(ip));
    assert(decimal_parts(num@) == Some((num@.len() > 0 && num@[0] == 45, ip, fp)));
    // combine: m = (2 * I * k + t + d) / (2 * d)
    assert(acc <= INT_CAP);
    assert(2 * (acc as int) * (k as int) <= 2 * INT_CAP * 100_000_000) by (nonlinear_arith)
        requires
            acc <= INT_CAP,
            k <= 100_000_000,
    ;
    let w2: u128 = 2 * (acc as u128) * (k as u128) + t as u128;
    let m: u128 = (w2 + d as u128) / (2 * d as u128);
    proof {
        lemma_cap_saturates(ip, fp, k as nat, d as nat, acc as int, t as int);
    }
    let neg = num.len() > 0 && num[0] == 45;
    let mi: i128 = m as i128;
    if neg {
        Some(saturate(-mi))
    } else {
        Some(saturate(mi))
    }
}

/// Scanning from `start` finds the first `b` of the suffix.
pub proof fn lemma_find_shift_byte(s: Seq<u8>, b: u8, start: int)
    requires
        0 <= start <= s.len(),
    ensures
        find_byte(s, b, start) == start + find_byte(s.subrange(start, s.len() as int), b, 0),
{
    lemma_find_shift_byte_from(s, b, start, start);
}

proof fn lemma_find_shift_byte_from(s: Seq<u8>, b: u8, start: int, i: int)
    requires
        0 <= start <= i <= s.len(),
    ensures
        find_byte(s, b, i) == start + find_byte(s.subrange(start, s.len() as int), b, i - start),
    decreases s.len() - i,
{
    if i < s.len() {
        lemma_find_shift_byte_from(s, b, start, i + 1);
    }
}

/// Scanning from `start` finds the first `.` of the suffix.
pub proof fn lemma_find_shift(s: Seq<u8>, start: int)
    requires
        0 <= start <= s.len(),
    ensures
        find_byte(s, 46, start) == start + find_byte(s.subrange(start, s.len() as int), 46, 0),
{
    lemma_find_shift_from(s, start, start);
}

proof fn lemma_find_shift_from(s: Seq<u8>, start: int, i: int)
    requires
        0 <= start <= i <= s.len(),
    ensures
        find_byte(s, 46, i) == start + find_byte(s.subrange(start, s.len() as int), 46, i - start),
    decreases s.len() - i,
{
    if i < s.len() {
        lemma_find_shift_from(s, start, i + 1);
    }
}

/// Capping the integer part at `INT_CAP` does not change the saturated
/// result.
proof fn lemma_cap_saturates(ip: Seq<u8>, fp: Seq<u8>, k: nat, d: nat, acc: int, t: int)
    requires
        1 <= k <= 100_000_000,
        1 <= d <= 254,
        k >= 39 * d,
        all_digits(ip),
        all_digits(fp),
        acc == if digits_value(ip) >= INT_CAP {
            INT_CAP as int
        } else {
            digits_value(ip)
        },
        t == frac_floor(fp, 2 * k),
    ensures
        ({
            let m = (2 * acc * k + t + d) / (2 * d as int);
            &&& saturate_i32(round_scaled(false, ip, fp, k, d)) == saturate_i32(m)
            &&& saturate_i32(round_scaled(true, ip, fp, k, d)) == saturate_i32(-m)
            &&& 0 <= m
            &&& 2 * acc * k + t + d < 0x1_0000_0000_0000_0000_0000_0000
        }),
{
    lemma_digits_nonneg(ip);
    lemma_frac_floor_bound(fp, 2 * k);
    let iv = digits_value(ip);
    let m = (2 * acc * k + t + d) / (2 * d as int);
    let mt = (2 * iv * k + t + d) / (2 * d as int);
    assert(0 <= 2 * acc * k <= 2 * INT_CAP * 100_000_000) by (nonlinear_arith)
        requires
            0 <= acc <= INT_CAP,
            1 <= k <= 100_000_000,
    ;
    assert(m >= 0) by (nonlinear_arith)
        requires
            m == (2 * acc * k + t + d) / (2 * d as int),
            2 * acc * k + t + d >= 0,
            d >= 1,
    ;
    if iv >= INT_CAP {
        // both are far beyond the i32 range
        assert(2 * INT_CAP * k >= 2 * (0x1_0000_0000 as int) * (2 * d as int)) by (nonlinear_arith)
            requires
                k >= 39 * d,
                d >= 1,
        ;
        assert(2 * iv * k >= 2 * INT_CAP * k) by (nonlinear_arith)
            requires
                iv >= INT_CAP,
                k >= 1,
        ;
        assert(m >= 0x1_0000_0000) by (nonlinear_arith)
            requires
                m == (2 * INT_CAP * k + t + d) / (2 * d as int),
                2 * INT_CAP * k >= 2 * (0x1_0000_0000 as int) * (2 * d as int),
                t >= 0,
                d >= 1,
        ;
        assert(mt >= 0x1_0000_0000) by (nonlinear_arith)
            requires
                mt == (2 * iv * k + t + d) / (2 * d as int),
                2 * iv * k >= 2 * (0x1_0000_0000 as int) * (2 * d as int),
                t >= 0,
                d >= 1,
        ;
    }
}

fn bytes2(a: u8, b: u8) -> (r: Vec<u8>)
    ensures
        r@ == seq![a, b],
{
    let mut v: Vec<u8> = Vec::new();
    v.push(a);
    v.push(b);
    assert(v@ =~= seq![a, b]);
    v
}

fn bytes3(a: u8, b: u8, c: u8) -> (r: Vec<u8>)
    ensures
        r@ == seq![a, b, c],
{
    let mut v: Vec<u8> = Vec::new();
    v.push(a);
    v.push(b);
    v.push(c);
    assert(v@ =~= seq![a, b, c]);
    v
}

/// The number before a unit suffix: every repetition of the suffix removed,
/// then the whitespace around it.
fn number_before(t: &[u8], suf: &[u8]) -> (r: Vec<u8>)
    requires
        suf@.len() > 0,
    ensures
        r@ == trim(strip_suffix_all(t@, suf@)),
{
    let e = strip_suffix_exec(t, t.len(), suf);
    assert(t@.subrange(0, t@.len() as int) =~= t@);
    let a = skip_spaces(t, 0, e);
    let b = back_spaces(t, a, e);
    crate::wire::copy_range(t, a, b)
}

/// The value of a trimmed, lower-cased coordinate text.
pub fn coord_bytes_value(t: &[u8]) -> (r: Option<i32>)
    ensures
        r == coord_text_value(t@),
{
    let mm = bytes2(109, 109);
    let mil = bytes3(109, 105, 108);
    let inch = bytes2(105, 110);
    assert(t@.subrange(0, t@.len() as int) =~= t@);
    if ends_with_exec(t, t.len(), mm.as_slice()) {
        let n = number_before(t, mm.as_slice());
        parse_scaled(n.as_slice(), 100_000_000, 254)
    } else if ends_with_exec(t, t.len(), mil.as_slice()) {
        let n = number_before(t, mil.as_slice());
        parse_scaled(n.as_slice(), 10_000, 1)
    } else if ends_with_exec(t, t.len(), inch.as_slice()) {
        let n = number_before(t, inch.as_slice());
        parse_scaled(n.as_slice(), 10_000_000, 1)
    } else {
        parse_scaled(t, 10_000, 1)
    }
}

/// Whether a trimmed, lower-cased coordinate text ends in a unit.
pub open spec fn has_unit(t: Seq<u8>) -> bool {
    ends_with(t, mm_bytes()) || ends_with(t, mil_bytes()) || ends_with(t, in_bytes())
}

/// The message for a coordinate text that does not parse: the trimmed,
/// lower-cased text (read as UTF-8), with a hint at the units when it has
/// none.
pub open spec fn coord_error(s: Seq<u8>) -> Seq<char> {
    let t = lower_all(trim(s));
    "Invalid coordinate: "@ + crate::documents::pcbdoc_io::utf8_lossy(t) + if has_unit(t) {
        ""@
    } else {
        " (use '10mm', '100mil', etc.)"@
    }
}

/// Parse a coordinate text like "20mm", "100mil", "1in" or "50" (mils).
pub fn parse_coord(s: &str) -> (r: core::result::Result<Coord, String>)
    ensures
        r is Ok <==> coord_value(s.spec_bytes()) is Some,
        r matches Ok(c) ==> Some(c.raw) == coord_value(s.spec_bytes()),
        r matches Err(m) ==> m@ == coord_error(s.spec_bytes()),
{
    let t = trimmed_lower(s.as_bytes());
    let v = coord_bytes_value(t.as_slice());
    match v {
        Some(raw) => Ok(Coord { raw }),
        None => {
            let shown = crate::documents::pcbdoc_io::text_from_utf8(t.as_slice());
            let m = crate::error::text2("Invalid coordinate: ", shown.as_str());
            let mm = bytes2(109, 109);
            let mil = bytes3(109, 105, 108);
            let inch = bytes2(105, 110);
            assert(t@.subrange(0, t@.len() as int) =~= t@);
            let unit = ends_with_exec(t.as_slice(), t.len(), mm.as_slice()) || ends_with_exec(
                t.as_slice(),
                t.len(),
                mil.as_slice(),
            ) || ends_with_exec(t.as_slice(), t.len(), inch.as_slice());
            if unit {
                proof {
                    reveal_strlit("");
                    assert(m@ + ""@ =~= m@);
                }
                Err(m)
            } else {
                Err(crate::error::text2(m.as_str(), " (use '10mm', '100mil', etc.)"))
            }
        },
    }
}

/// A byte position just after an ASCII byte of valid UTF-8 is a character
/// boundary.
pub proof fn lemma_after_ascii_boundary(bytes: Seq<u8>, c: int)
    requires
        valid_utf8(bytes),
        0 <= c < bytes.len(),
        bytes[c] <= 0x7f,
    ensures
        is_char_boundary(bytes, c),
        is_char_boundary(bytes, c + 1),
{
    is_char_boundary_iff_is_leading_byte(bytes, c);
    valid_utf8_split(bytes, c);
    is_char_boundary_start_end_of_seq(bytes);
    let t = bytes.subrange(c, bytes.len() as int);
    assert(t[0] == bytes[c]);
    let u = t.subrange(1, t.len() as int);
    assert(valid_utf8(u));
    if c + 1 < bytes.len() {
        assert(u[0] == bytes[c + 1]);
        is_char_boundary_iff_is_leading_byte(bytes, c + 1);
    }
}

/// Board edge for alignment.
#[derive(Clone, Copy, Debug, PartialEq, Eq, Structural)]
pub enum BoardEdge {
    Left,
    Right,
    Top,
    Bottom,
}

/// ASCII bytes of a string literal.
pub open spec fn ascii(s: &str) -> Seq<u8> {
    s.spec_bytes()
}

/// The board edge a name stands for, ignoring case.
pub open spec fn board_edge_named(t: Seq<u8>) -> Option<BoardEdge> {
    if key_eq(t, "left".spec_bytes()) || key_eq(t, "left-edge".spec_bytes()) || key_eq(t, "l".spec_bytes()) {
        Some(BoardEdge::Left)
    } else if key_eq(t, "right".spec_bytes()) || key_eq(t, "right-edge".spec_bytes()) || key_eq(
        t,
        "r".spec_bytes(),
    ) {
        Some(BoardEdge::Right)
    } else if key_eq(t, "top".spec_bytes()) || key_eq(t, "top-edge".spec_bytes()) || key_eq(t, "t".spec_bytes()) {
        Some(BoardEdge::Top)
    } else if key_eq(t, "bottom".spec_bytes()) || key_eq(t, "bottom-edge".spec_bytes()) || key_eq(
        t,
        "b".spec_bytes(),
    ) {
        Some(BoardEdge::Bottom)
    } else {
        None
    }
}

impl BoardEdge {
    /// Parse an edge name ("left", "left-edge", "l", ...), ignoring case.
    pub fn try_parse(s: &str) -> (r: Option<BoardEdge>)
        ensures
            r == board_edge_named(s.spec_bytes()),
    {
        let b = s.as_bytes();
        if keys_equal(b, "left".as_bytes()) || keys_equal(b, "left-edge".as_bytes()) || keys_equal(b, "l".as_bytes()) {
            Some(BoardEdge::Left)
        } else if keys_equal(b, "right".as_bytes()) || keys_equal(b, "right-edge".as_bytes())
            || keys_equal(b, "r".as_bytes()) {
            Some(BoardEdge::Right)
        } else if keys_equal(b, "top".as_bytes()) || keys_equal(b, "top-edge".as_bytes()) || keys_equal(b, "t".as_bytes()) {
            Some(BoardEdge::Top)
        } else if keys_equal(b, "bottom".as_bytes()) || keys_equal(b, "bottom-edge".as_bytes())
            || keys_equal(b, "b".as_bytes()) {
            Some(BoardEdge::Bottom)
        } else {
            None
        }
    }
}

/// The two comma-separated fields of a position text, if it has exactly
/// one comma.
pub open spec fn position_fields(s: Seq<u8>) -> Option<(Seq<u8>, Seq<u8>)> {
    let c = find_byte(s, 44, 0);
    if c < s.len() && find_byte(s, 44, c + 1) == s.len() {
        Some((s.subrange(0, c), s.subrange(c + 1, s.len() as int)))
    } else {
        None
    }
}

/// The point a position text stands for.
pub open spec fn position_value(s: Seq<u8>) -> Option<(i32, i32)> {
    match position_fields(s) {
        Some((a, b)) => match (coord_value(a), coord_value(b)) {
            (Some(x), Some(y)) => Some((x, y)),
            _ => None,
        },
        None => None,
    }
}

/// Parse a position text like "20mm,30mm" or "100mil,200mil".
pub fn parse_position(s: &str) -> (r: core::result::Result<CoordPoint, String>)
    ensures
        r is Ok <==> position_value(s.spec_bytes()) is Some,
        r matches Ok(p) ==> position_value(s.spec_bytes()) == Some((p.x.raw, p.y.raw)),
        position_fields(s.spec_bytes()) is None ==> (r matches Err(m) && m@ == "Invalid position format: '"@
            + s@ + "'. Expected 'X,Y' (e.g., '20mm,30mm')"@),
{
    let b = s.as_bytes();
    let c = find_byte_exec(b, 44, 0);
    if c >= b.len() || find_byte_exec(b, 44, c + 1) < b.len() {
        return Err(
            crate::error::text3(
                "Invalid position format: '",
                s,
                "'. Expected 'X,Y' (e.g., '20mm,30mm')",
            ),
        );
    }
    proof {
        crate::params::lemma_find_byte_bounds(s.spec_bytes(), 44, 0);
        encode_utf8_valid_utf8(s@);
        lemma_after_ascii_boundary(s.spec_bytes(), c as int);
    }
    let (first, rest) = s.split_at(c);
    proof {
        valid_utf8_split(s.spec_bytes(), c as int);
        let rb = rest.spec_bytes();
        assert(rb =~= s.spec_bytes().subrange(c as int, s.spec_bytes().len() as int));
        assert(rb[0] == 44);
        lemma_after_ascii_boundary(rb, 0);
    }
    let (_comma, second) = rest.split_at(1);
    assert(second.spec_bytes() =~= s.spec_bytes().subrange(c + 1, s.spec_bytes().len() as int));
    let x = parse_coord(first);
    let x = match x {
        Ok(v) => v,
        Err(e) => return Err(e),
    };
    let y = parse_coord(second);
    let y = match y {
        Ok(v) => v,
        Err(e) => return Err(e),
    };
    Ok(CoordPoint { x, y })
}

/// The point an offset text stands for: a position when it holds a comma,
/// else one coordinate on the x axis.
pub open spec fn offset_value(s: Seq<u8>) -> Option<(i32, i32)> {
    if find_byte(s, 44, 0) < s.len() {
        position_value(s)
    } else {
        match coord_value(s) {
            Some(x) => Some((x, 0i32)),
            None => None,
        }
    }
}

/// Parse an offset text like "5mm,0mm", or "5mm" for the x axis alone.
pub fn parse_offset(s: &str) -> (r: core::result::Result<CoordPoint, String>)
    ensures
        r is Ok <==> offset_value(s.spec_bytes()) is Some,
        r matches Ok(p) ==> offset_value(s.spec_bytes()) == Some((p.x.raw, p.y.raw)),
{
    if find_byte_exec(s.as_bytes(), 44, 0) < s.as_bytes().len() {
        parse_position(s)
    } else {
        let c = parse_coord(s);
        match c {
            Ok(x) => Ok(CoordPoint { x, y: Coord { raw: 0 } }),
            Err(e) => Err(e),
        }
    }
}

// ---------------------------------------------------------------------------
// Placement engine
// ---------------------------------------------------------------------------

/// The UTF-8 bytes of a text.
pub open spec fn text_bytes(s: Seq<char>) -> Seq<u8> {
    vstd::utf8::encode_utf8(s)
}

/// Whether two texts are equal ignoring ASCII case.
pub fn text_eq_ignore_case(a: &str, b: &str) -> (r: bool)
    ensures
        r == key_eq(a.spec_bytes(), b.spec_bytes()),
{
    keys_equal(a.as_bytes(), b.as_bytes())
}

/// Index of the first component with the designator (ASCII case ignored),
/// or the number of components.
pub open spec fn component_index(comps: Seq<PcbDocComponent>, d: Seq<u8>) -> int
    decreases comps.len(),
{
    if comps.len() == 0 {
        0
    } else {
        let i = component_index(comps.drop_last(), d);
        if i < comps.len() - 1 {
            i
        } else if key_eq(text_bytes(comps.last().designator@), d) {
            comps.len() - 1
        } else {
            comps.len() as int
        }
    }
}

/// A coordinate parameter value, zero where it does not parse.
pub open spec fn coord_or_zero(v: Seq<u8>) -> i32 {
    match coord_value(v) {
        Some(x) => x,
        None => 0i32,
    }
}

/// Where a component stands: its `X` and `Y` parameters (zero where they do
/// not parse); `None` when either is missing.
pub open spec fn component_xy(c: PcbDocComponent) -> Option<(i32, i32)> {
    match (lookup(c.params@, "X".spec_bytes()), lookup(c.params@, "Y".spec_bytes())) {
        (Some(x), Some(y)) => Some((coord_or_zero(x), coord_or_zero(y))),
        _ => None,
    }
}

/// Component position.
#[derive(Clone, Copy, Debug, PartialEq, Eq, Structural)]
pub struct ComponentPosition {
    pub x: Coord,
    pub y: Coord,
}

/// Anchor point for relative placement.
#[derive(Clone, Debug)]
pub enum PlacementAnchor {
    /// Absolute position.
    Absolute(CoordPoint),
    /// Near another component with optional offset.
    NearComponent { designator: String, offset: CoordPoint },
    /// Align X coordinate with another component.
    AlignX { designator: String, offset: Coord },
    /// Align Y coordinate with another component.
    AlignY { designator: String, offset: Coord },
    /// Align to board edge.
    BoardEdge { edge: BoardEdge, offset: Coord },
}

/// Tracks and vias that touch a component.
#[derive(Clone, Debug)]
pub struct ConnectedRoutes {
    /// Track indices that connect to the component.
    pub tracks: Vec<usize>,
    /// Via indices that connect to the component.
    pub vias: Vec<usize>,
    /// Net names involved.
    pub nets: Vec<String>,
}

impl ConnectedRoutes {
    /// Whether any routes are connected.
    pub fn has_connections(&self) -> (r: bool)
        ensures
            r == (self.tracks@.len() > 0 || self.vias@.len() > 0),
    {
        self.tracks.len() > 0 || self.vias.len() > 0
    }

    /// Total count of connected primitives.
    pub fn count(&self) -> (r: usize)
        requires
            self.tracks@.len() + self.vias@.len() <= usize::MAX,
        ensures
            r == self.tracks@.len() + self.vias@.len(),
    {
        self.tracks.len() + self.vias.len()
    }
}

/// Snapping a coordinate computed in wide arithmetic: `None` when it or its
/// rounding leaves the `i32` range.
pub open spec fn snap_checked(g: Grid, v: int) -> Option<i32> {
    if fits_i32(v) && g.can_snap_raw(v) {
        Some(g.spec_snap_raw(v) as i32)
    } else {
        None
    }
}

/// Snapping a point computed in wide arithmetic.
pub open spec fn snap_point_checked(g: Grid, x: int, y: int) -> Option<CoordPoint> {
    match (snap_checked(g, x), snap_checked(g, y)) {
        (Some(a), Some(b)) => Some(CoordPoint { x: Coord { raw: a }, y: Coord { raw: b } }),
        _ => None,
    }
}

/// Whether two points are within one mil of each other on both axes.
pub open spec fn near(a: CoordPoint, b: CoordPoint) -> bool {
    abs_int(a.x.raw - b.x.raw) <= 10000 && abs_int(a.y.raw - b.y.raw) <= 10000
}

/// Indices of tracks with an end within one mil of `p`.
pub open spec fn tracks_touching(prims: Seq<PcbRecord>, p: CoordPoint) -> Seq<usize>
    decreases prims.len(),
{
    if prims.len() == 0 {
        Seq::empty()
    } else {
        let r = tracks_touching(prims.drop_last(), p);
        match prims.last() {
            PcbRecord::Track(t) => if near(t.start, p) || near(t.end, p) {
                r.push((prims.len() - 1) as usize)
            } else {
                r
            },
            _ => r,
        }
    }
}

/// Indices of vias within one mil of `p`.
pub open spec fn vias_touching(prims: Seq<PcbRecord>, p: CoordPoint) -> Seq<usize>
    decreases prims.len(),
{
    if prims.len() == 0 {
        Seq::empty()
    } else {
        let r = vias_touching(prims.drop_last(), p);
        match prims.last() {
            PcbRecord::Via(v) => if near(v.location, p) {
                r.push((prims.len() - 1) as usize)
            } else {
                r
            },
            _ => r,
        }
    }
}

/// Whether `a` and `b` are within one mil on both axes.
fn near_exec(a: CoordPoint, b: CoordPoint) -> (r: bool)
    ensures
        r == near(a, b),
{
    let dx: i64 = a.x.raw as i64 - b.x.raw as i64;
    let dy: i64 = a.y.raw as i64 - b.y.raw as i64;
    let ax = if dx < 0 {
        -dx
    } else {
        dx
    };
    let ay = if dy < 0 {
        -dy
    } else {
        dy
    };
    ax <= 10000 && ay <= 10000
}

/// Rounds a wide value to the grid, or `None` when it leaves `i32`.
pub fn snap_wide(g: &Grid, v: i64) -> (r: Option<i32>)
    ensures
        r == snap_checked(*g, v as int),
{
    if v < -2147483648 || v > 2147483647 {
        return None;
    }
    let x = v as i32;
    if !g.snap_enabled || g.spacing.raw == 0 {
        return Some(x);
    }
    if !g.can_snap_value(x) {
        return None;
    }
    let c = g.snap_coord(Coord { raw: x });
    Some(c.raw)
}

/// Rounds a wide point to the grid, or `None` when it leaves `i32`.
pub fn snap_point_wide(g: &Grid, x: i64, y: i64) -> (r: Option<CoordPoint>)
    ensures
        r == snap_point_checked(*g, x as int, y as int),
{
    let a = snap_wide(g, x);
    let b = snap_wide(g, y);
    match (a, b) {
        (Some(a), Some(b)) => Some(CoordPoint { x: Coord { raw: a }, y: Coord { raw: b } }),
        _ => None,
    }
}

/// PCB placement engine: a grid and the board bounds.
pub struct PcbPlacementEngine {
    grid: Grid,
    board_bounds: Option<CoordRect>,
}

/// A component's position, by designator.
pub open spec fn position_of(pcb: PcbBoard, d: Seq<u8>) -> Option<(i32, i32)> {
    let i = component_index(pcb.components@, d);
    if i < pcb.components@.len() {
        component_xy(pcb.components@[i])
    } else {
        None
    }
}

/// The bounds that `calculate_board_bounds` sets: the positioned
/// components' box grown by 500 mil on every side, or the empty rectangle.
pub open spec fn components_box(comps: Seq<PcbDocComponent>) -> CoordRect
    decreases comps.len(),
{
    if comps.len() == 0 {
        CoordRect {
            location1: CoordPoint { x: Coord { raw: i32::MAX }, y: Coord { raw: i32::MAX } },
            location2: CoordPoint { x: Coord { raw: i32::MIN }, y: Coord { raw: i32::MIN } },
        }
    } else {
        let b = components_box(comps.drop_last());
        match component_xy(comps.last()) {
            Some((x, y)) => CoordRect {
                location1: CoordPoint {
                    x: Coord { raw: crate::types::min_int(b.location1.x.raw as int, x as int) as i32 },
                    y: Coord { raw: crate::types::min_int(b.location1.y.raw as int, y as int) as i32 },
                },
                location2: CoordPoint {
                    x: Coord { raw: crate::types::max_int(b.location2.x.raw as int, x as int) as i32 },
                    y: Coord { raw: crate::types::max_int(b.location2.y.raw as int, y as int) as i32 },
                },
            },
            None => b,
        }
    }
}

/// Board margin added around the components, in internal units (500 mil).
pub const BOARD_MARGIN: i32 = 5_000_000;

/// The computed board bounds of a set of components.
pub open spec fn board_bounds_of(comps: Seq<PcbDocComponent>) -> CoordRect {
    let b = components_box(comps);
    if b.spec_is_empty() {
        b
    } else {
        CoordRect {
            location1: CoordPoint {
                x: Coord { raw: (b.location1.x.raw - BOARD_MARGIN) as i32 },
                y: Coord { raw: (b.location1.y.raw - BOARD_MARGIN) as i32 },
            },
            location2: CoordPoint {
                x: Coord { raw: (b.location2.x.raw + BOARD_MARGIN) as i32 },
                y: Coord { raw: (b.location2.y.raw + BOARD_MARGIN) as i32 },
            },
        }
    }
}

/// Whether the margin can be added around the components' box.
pub open spec fn margin_fits(comps: Seq<PcbDocComponent>) -> bool {
    let b = components_box(comps);
    b.spec_is_empty() || (fits_i32(b.location1.x.raw - BOARD_MARGIN) && fits_i32(
        b.location1.y.raw - BOARD_MARGIN,
    ) && fits_i32(b.location2.x.raw + BOARD_MARGIN) && fits_i32(b.location2.y.raw + BOARD_MARGIN))
}

/// Where an anchor points before snapping, or `None` with the reason.
pub open spec fn anchor_target(
    bounds: Option<CoordRect>,
    pcb: PcbBoard,
    anchor: PlacementAnchor,
    cur: Option<ComponentPosition>,
) -> core::result::Result<(int, int), ()> {
    match anchor {
        PlacementAnchor::Absolute(p) => Ok((p.x.raw as int, p.y.raw as int)),
        PlacementAnchor::NearComponent { designator, offset } => match position_of(
            pcb,
            text_bytes(designator@),
        ) {
            Some((x, y)) => Ok((x + offset.x.raw, y + offset.y.raw)),
            None => Err(()),
        },
        PlacementAnchor::AlignX { designator, offset } => match position_of(
            pcb,
            text_bytes(designator@),
        ) {
            Some((x, _)) => Ok(
                (
                    x + offset.raw,
                    match cur {
                        Some(c) => c.y.raw as int,
                        None => 0,
                    },
                ),
            ),
            None => Err(()),
        },
        PlacementAnchor::AlignY { designator, offset } => match position_of(
            pcb,
            text_bytes(designator@),
        ) {
            Some((_, y)) => Ok(
                (
                    match cur {
                        Some(c) => c.x.raw as int,
                        None => 0,
                    },
                    y + offset.raw,
                ),
            ),
            None => Err(()),
        },
        PlacementAnchor::BoardEdge { edge, offset } => match bounds {
            Some(b) => {
                let cx = match cur {
                    Some(c) => c.x.raw as int,
                    None => trunc_div(b.location1.x.raw + b.location2.x.raw, 2),
                };
                let cy = match cur {
                    Some(c) => c.y.raw as int,
                    None => trunc_div(b.location1.y.raw + b.location2.y.raw, 2),
                };
                Ok(
                    match edge {
                        BoardEdge::Left => (b.location1.x.raw + offset.raw, cy),
                        BoardEdge::Right => (b.location2.x.raw - offset.raw, cy),
                        BoardEdge::Top => (cx, b.location2.y.raw - offset.raw),
                        BoardEdge::Bottom => (cx, b.location1.y.raw + offset.raw),
                    },
                )
            },
            None => Err(()),
        },
    }
}

/// Finds a component by designator, ignoring ASCII case.
pub fn find_component_index(pcb: &PcbBoard, designator: &str) -> (r: usize)
    ensures
        r == component_index(pcb.components@, designator.spec_bytes()),
        r <= pcb.components@.len(),
{
    let mut i: usize = 0;
    while i < pcb.components.len()
        invariant
            i <= pcb.components@.len(),
            component_index(pcb.components@.take(i as int), designator.spec_bytes()) == i,
        decreases pcb.components@.len() - i,
    {
        let ghost pre = pcb.components@.take(i as int);
        assert(pcb.components@.take(i + 1).drop_last() =~= pre);
        if text_eq_ignore_case(pcb.components[i].designator.as_str(), designator) {
            proof {
                lemma_component_index_prefix(pcb.components@, designator.spec_bytes(), i as int);
            }
            return i;
        }
        i = i + 1;
    }
    assert(pcb.components@.take(i as int) =~= pcb.components@);
    i
}

/// The first match in a prefix is the first match overall.
pub proof fn lemma_component_index_prefix(comps: Seq<PcbDocComponent>, d: Seq<u8>, i: int)
    requires
        0 <= i < comps.len(),
        component_index(comps.take(i + 1), d) == i,
    ensures
        component_index(comps, d) == i,
    decreases comps.len(),
{
    if comps.len() > i + 1 {
        assert(comps.drop_last().take(i + 1) =~= comps.take(i + 1));
        lemma_component_index_prefix(comps.drop_last(), d, i);
    } else {
        assert(comps.take(i + 1) =~= comps);
    }
}

/// Reads a component's `X`/`Y` position.
pub fn component_position(c: &PcbDocComponent) -> (r: Option<ComponentPosition>)
    ensures
        match r {
            Some(p) => component_xy(*c) == Some((p.x.raw, p.y.raw)),
            None => component_xy(*c) is None,
        },
{
    let x = c.params.get("X");
    let y = c.params.get("Y");
    match (x, y) {
        (Some(x), Some(y)) => {
            let xv = coord_bytes_value(trimmed_lower(x.as_bytes()).as_slice());
            let yv = coord_bytes_value(trimmed_lower(y.as_bytes()).as_slice());
            let xr = match xv {
                Some(v) => v,
                None => 0,
            };
            let yr = match yv {
                Some(v) => v,
                None => 0,
            };
            Some(ComponentPosition { x: Coord { raw: xr }, y: Coord { raw: yr } })
        },
        _ => None,
    }
}

impl PcbPlacementEngine {
    pub closed spec fn spec_grid(&self) -> Grid {
        self.grid
    }

    pub closed spec fn spec_board_bounds(&self) -> Option<CoordRect> {
        self.board_bounds
    }

    /// A new placement engine: the default grid and no board bounds.
    pub fn new() -> (r: PcbPlacementEngine)
        ensures
            r.spec_grid().spacing.raw == 100000,
            r.spec_grid().snap_enabled,
            r.spec_board_bounds() is None,
    {
        PcbPlacementEngine { grid: Grid::default_grid(), board_bounds: None }
    }

    /// Set the grid configuration.
    pub fn set_grid(&mut self, grid: Grid)
        ensures
            final(self).spec_grid() == grid,
            final(self).spec_board_bounds() == old(self).spec_board_bounds(),
    {
        self.grid = grid;
    }

    /// The grid configuration.
    pub fn grid(&self) -> (r: &Grid)
        ensures
            *r == self.spec_grid(),
    {
        &self.grid
    }

    /// The board bounds, if set.
    pub fn board_bounds(&self) -> (r: Option<CoordRect>)
        ensures
            r == self.spec_board_bounds(),
    {
        self.board_bounds
    }

    /// Set board bounds for edge alignment.
    pub fn set_board_bounds(&mut self, bounds: CoordRect)
        ensures
            final(self).spec_board_bounds() == Some(bounds),
            final(self).spec_grid() == old(self).spec_grid(),
    {
        self.board_bounds = Some(bounds);
    }

    /// Set the board bounds from the components' positions, with a 500 mil
    /// margin; the empty rectangle when no component has a position.
    pub fn calculate_board_bounds(&mut self, pcb: &PcbBoard)
        requires
            margin_fits(pcb.components@),
        ensures
            final(self).spec_board_bounds() == Some(board_bounds_of(pcb.components@)),
            final(self).spec_grid() == old(self).spec_grid(),
    {
        let mut bounds = CoordRect::empty();
        let mut i: usize = 0;
        assert(pcb.components@.take(0) =~= Seq::<PcbDocComponent>::empty());
        while i < pcb.components.len()
            invariant
                i <= pcb.components@.len(),
                bounds == components_box(pcb.components@.take(i as int)),
            decreases pcb.components@.len() - i,
        {
            assert(pcb.components@.take(i + 1).drop_last() =~= pcb.components@.take(i as int));
            let pos = component_position(&pcb.components[i]);
            match pos {
                Some(p) => {
                    let x1 = if bounds.location1.x.raw <= p.x.raw {
                        bounds.location1.x.raw
                    } else {
                        p.x.raw
                    };
                    let y1 = if bounds.location1.y.raw <= p.y.raw {
                        bounds.location1.y.raw
                    } else {
                        p.y.raw
                    };
                    let x2 = if bounds.location2.x.raw >= p.x.raw {
                        bounds.location2.x.raw
                    } else {
                        p.x.raw
                    };
                    let y2 = if bounds.location2.y.raw >= p.y.raw {
                        bounds.location2.y.raw
                    } else {
                        p.y.raw
                    };
                    bounds = CoordRect {
                        location1: CoordPoint { x: Coord { raw: x1 }, y: Coord { raw: y1 } },
                        location2: CoordPoint { x: Coord { raw: x2 }, y: Coord { raw: y2 } },
                    };
                },
                None => {},
            }
            i = i + 1;
        }
        assert(pcb.components@.take(i as int) =~= pcb.components@);
        if !bounds.is_empty() {
            bounds = CoordRect {
                location1: CoordPoint {
                    x: Coord { raw: bounds.location1.x.raw - BOARD_MARGIN },
                    y: Coord { raw: bounds.location1.y.raw - BOARD_MARGIN },
                },
                location2: CoordPoint {
                    x: Coord { raw: bounds.location2.x.raw + BOARD_MARGIN },
                    y: Coord { raw: bounds.location2.y.raw + BOARD_MARGIN },
                },
            };
        }
        self.board_bounds = Some(bounds);
    }

    /// Snap a point to the grid.
    pub fn snap_to_grid(&self, point: CoordPoint) -> (r: CoordPoint)
        requires
            self.spec_grid().can_snap_raw(point.x.raw as int),
            self.spec_grid().can_snap_raw(point.y.raw as int),
        ensures
            r.x.raw == self.spec_grid().spec_snap_raw(point.x.raw as int),
            r.y.raw == self.spec_grid().spec_snap_raw(point.y.raw as int),
    {
        self.grid.snap(point)
    }

    /// The position of a component by designator (ASCII case ignored).
    pub fn get_component_position(&self, pcb: &PcbBoard, designator: &str) -> (r: Option<
        ComponentPosition,
    >)
        ensures
            match r {
                Some(p) => position_of(*pcb, designator.spec_bytes()) == Some((p.x.raw, p.y.raw)),
                None => position_of(*pcb, designator.spec_bytes()) is None,
            },
    {
        let i = find_component_index(pcb, designator);
        if i < pcb.components.len() {
            component_position(&pcb.components[i])
        } else {
            None
        }
    }

    /// Find a component by designator (ASCII case ignored).
    pub fn find_component<'a>(&self, pcb: &'a PcbBoard, designator: &str) -> (r: Option<
        &'a PcbDocComponent,
    >)
        ensures
            match r {
                Some(c) => {
                    let i = component_index(pcb.components@, designator.spec_bytes());
                    i < pcb.components@.len() && *c == pcb.components@[i]
                },
                None => component_index(pcb.components@, designator.spec_bytes())
                    == pcb.components@.len(),
            },
    {
        let i = find_component_index(pcb, designator);
        if i < pcb.components.len() {
            Some(&pcb.components[i])
        } else {
            None
        }
    }

    /// Resolve a placement anchor to a snapped absolute point.
    pub fn resolve_anchor(
        &self,
        pcb: &PcbBoard,
        anchor: &PlacementAnchor,
        current_pos: Option<ComponentPosition>,
    ) -> (r: core::result::Result<CoordPoint, String>)
        ensures
            match anchor_target(self.spec_board_bounds(), *pcb, *anchor, current_pos) {
                Ok((x, y)) => match snap_point_checked(self.spec_grid(), x, y) {
                    Some(p) => r == core::result::Result::<CoordPoint, String>::Ok(p),
                    None => r is Err,
                },
                Err(_) => r is Err,
            },
    {
        match anchor {
            PlacementAnchor::Absolute(p) => {
                let q = snap_point_wide(&self.grid, p.x.raw as i64, p.y.raw as i64);
                match q {
                    Some(q) => Ok(q),
                    None => Err(crate::error::text("Position out of range")),
                }
            },
            PlacementAnchor::NearComponent { designator, offset } => {
                let rp = self.get_component_position(pcb, designator.as_str());
                match rp {
                    Some(rp) => {
                        let q = snap_point_wide(
                            &self.grid,
                            rp.x.raw as i64 + offset.x.raw as i64,
                            rp.y.raw as i64 + offset.y.raw as i64,
                        );
                        match q {
                            Some(q) => Ok(q),
                            None => Err(crate::error::text("Position out of range")),
                        }
                    },
                    None => Err(crate::error::text3("Component '", designator.as_str(), "' not found")),
                }
            },
            PlacementAnchor::AlignX { designator, offset } => {
                let rp = self.get_component_position(pcb, designator.as_str());
                match rp {
                    Some(rp) => {
                        let cy: i64 = match current_pos {
                            Some(c) => c.y.raw as i64,
                            None => 0,
                        };
                        let q = snap_point_wide(&self.grid, rp.x.raw as i64 + offset.raw as i64, cy);
                        match q {
                            Some(q) => Ok(q),
                            None => Err(crate::error::text("Position out of range")),
                        }
                    },
                    None => Err(crate::error::text3("Component '", designator.as_str(), "' not found")),
                }
            },
            PlacementAnchor::AlignY { designator, offset } => {
                let rp = self.get_component_position(pcb, designator.as_str());
                match rp {
                    Some(rp) => {
                        let cx: i64 = match current_pos {
                            Some(c) => c.x.raw as i64,
                            None => 0,
                        };
                        let q = snap_point_wide(&self.grid, cx, rp.y.raw as i64 + offset.raw as i64);
                        match q {
                            Some(q) => Ok(q),
                            None => Err(crate::error::text("Position out of range")),
                        }
                    },
                    None => Err(crate::error::text3("Component '", designator.as_str(), "' not found")),
                }
            },
            PlacementAnchor::BoardEdge { edge, offset } => {
                match self.board_bounds {
                    Some(b) => {
                        let center = b.center();
                        let cx: i64 = match current_pos {
                            Some(c) => c.x.raw as i64,
                            None => center.x.raw as i64,
                        };
                        let cy: i64 = match current_pos {
                            Some(c) => c.y.raw as i64,
                            None => center.y.raw as i64,
                        };
                        let (x, y): (i64, i64) = match edge {
                            BoardEdge::Left => (b.location1.x.raw as i64 + offset.raw as i64, cy),
                            BoardEdge::Right => (b.location2.x.raw as i64 - offset.raw as i64, cy),
                            BoardEdge::Top => (cx, b.location2.y.raw as i64 - offset.raw as i64),
                            BoardEdge::Bottom => (cx, b.location1.y.raw as i64 + offset.raw as i64),
                        };
                        let q = snap_point_wide(&self.grid, x, y);
                        match q {
                            Some(q) => Ok(q),
                            None => Err(crate::error::text("Position out of range")),
                        }
                    },
                    None => Err(crate::error::text("Board bounds not set")),
                }
            },
        }
    }

    /// The tracks and vias touching a component: those within one mil of its
    /// position. Nothing when the component is missing or has no position.
    pub fn find_connected_routes(&self, pcb: &PcbBoard, designator: &str) -> (r: ConnectedRoutes)
        ensures
            match position_of(*pcb, designator.spec_bytes()) {
                Some((x, y)) => {
                    let p = CoordPoint { x: Coord { raw: x }, y: Coord { raw: y } };
                    &&& r.tracks@ == tracks_touching(pcb.primitives@, p)
                    &&& r.vias@ == vias_touching(pcb.primitives@, p)
                },
                None => r.tracks@.len() == 0 && r.vias@.len() == 0,
            },
            r.nets@.len() == 0,
    {
        let mut result = ConnectedRoutes { tracks: Vec::new(), vias: Vec::new(), nets: Vec::new() };
        let pos = self.get_component_position(pcb, designator);
        let pos = match pos {
            Some(p) => p,
            None => return result,
        };
        let loc = CoordPoint { x: pos.x, y: pos.y };
        let mut i: usize = 0;
        while i < pcb.primitives.len()
            invariant
                i <= pcb.primitives@.len(),
                result.tracks@ == tracks_touching(pcb.primitives@.take(i as int), loc),
                result.vias@ == vias_touching(pcb.primitives@.take(i as int), loc),
                result.nets@.len() == 0,
            decreases pcb.primitives@.len() - i,
        {
            assert(pcb.primitives@.take(i + 1).drop_last() =~= pcb.primitives@.take(i as int));
            match &pcb.primitives[i] {
                PcbRecord::Track(t) => {
                    if near_exec(t.start, loc) || near_exec(t.end, loc) {
                        result.tracks.push(i);
                    }
                },
                PcbRecord::Via(v) => {
                    if near_exec(v.location, loc) {
                        result.vias.push(i);
                    }
                },
                _ => {},
            }
            i = i + 1;
        }
        assert(pcb.primitives@.take(i as int) =~= pcb.primitives@);
        result
    }
}

} // verus!
