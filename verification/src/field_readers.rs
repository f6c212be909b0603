//! Typed field readers over parameter collections: required, defaulted and
//! optional scalars, coordinates with fraction keys, indexed vertex lists
//! and comma-separated integer lists. Each reader takes (consumes) the
//! entries it reads.
use vstd::prelude::*;
use vstd::string::StringSliceAdditionalSpecFns;

use crate::encoding::win1252_decoded;
use crate::error::{text, AltiumError, Result};
use crate::params::{decimal_digits, find_byte, find_byte_exec, lookup, parse_i32, parse_i32_bytes, ParameterCollection, is_true_text};
use crate::types::{fits_i32, Coord, CoordPoint};

verus! {

/// Internal units per schematic coordinate unit (10 mil).
pub const SCH_UNIT: i64 = 100_000;

/// The value of a coordinate given as whole units and a fraction.
pub open spec fn coord_units(whole: int, frac: int) -> int {
    whole * SCH_UNIT + frac
}

/// Whether a reader's lookup left the collection's entries as they were.
pub open spec fn same_entries(a: ParameterCollection, b: ParameterCollection) -> bool {
    a@ == b@
}

/// A required text field.
pub fn take_required_text(params: &mut ParameterCollection, key: &str) -> (r: Result<String>)
    ensures
        same_entries(*old(params), *final(params)),
        match lookup(old(params)@, key.spec_bytes()) {
            Some(v) => r matches Ok(s) && s@ == win1252_decoded(v),
            None => r matches Err(AltiumError::MissingParameter(k)) && k@ == key@,
        },
{
    match params.take(key) {
        Some(v) => Ok(v.as_str()),
        None => Err(AltiumError::MissingParameter(text(key))),
    }
}

/// A required `i32` field; an error when missing or not a decimal `i32`.
pub fn take_required_i32(params: &mut ParameterCollection, key: &str) -> (r: Result<i32>)
    ensures
        same_entries(*old(params), *final(params)),
        match lookup(old(params)@, key.spec_bytes()) {
            Some(v) => match parse_i32(v) {
                Some(x) => r == Result::<i32>::Ok(x),
                None => r matches Err(AltiumError::InvalidParameter(_)),
            },
            None => r matches Err(AltiumError::MissingParameter(k)) && k@ == key@,
        },
{
    match params.take(key) {
        Some(v) => match parse_i32_bytes(v.as_bytes()) {
            Some(x) => Ok(x),
            None => Err(AltiumError::InvalidParameter(text(key))),
        },
        None => Err(AltiumError::MissingParameter(text(key))),
    }
}

/// An `i32` field with a default for when it is absent.
pub fn take_i32_or(params: &mut ParameterCollection, key: &str, default: i32) -> (r: Result<i32>)
    ensures
        same_entries(*old(params), *final(params)),
        match lookup(old(params)@, key.spec_bytes()) {
            Some(v) => match parse_i32(v) {
                Some(x) => r == Result::<i32>::Ok(x),
                None => r matches Err(AltiumError::InvalidParameter(_)),
            },
            None => r == Result::<i32>::Ok(default),
        },
{
    match params.take(key) {
        Some(v) => match parse_i32_bytes(v.as_bytes()) {
            Some(x) => Ok(x),
            None => Err(AltiumError::InvalidParameter(text(key))),
        },
        None => Ok(default),
    }
}

/// A boolean field (`T`/`TRUE`, any case) with a default for when it is
/// absent.
pub fn take_bool_or(params: &mut ParameterCollection, key: &str, default: bool) -> (r: bool)
    ensures
        same_entries(*old(params), *final(params)),
        r == match lookup(old(params)@, key.spec_bytes()) {
            Some(v) => is_true_text(v),
            None => default,
        },
{
    match params.take(key) {
        Some(v) => v.as_bool(),
        None => default,
    }
}

/// An optional `i32` field.
pub fn take_optional_i32(params: &mut ParameterCollection, key: &str) -> (r: Result<Option<i32>>)
    ensures
        same_entries(*old(params), *final(params)),
        match lookup(old(params)@, key.spec_bytes()) {
            Some(v) => match parse_i32(v) {
                Some(x) => r == Result::<Option<i32>>::Ok(Some(x)),
                None => r matches Err(AltiumError::InvalidParameter(_)),
            },
            None => r == Result::<Option<i32>>::Ok(None),
        },
{
    match params.take(key) {
        Some(v) => match parse_i32_bytes(v.as_bytes()) {
            Some(x) => Ok(Some(x)),
            None => Err(AltiumError::InvalidParameter(text(key))),
        },
        None => Ok(None),
    }
}

/// The coordinate of whole units and a fraction, as the field readers see
/// them: `None` when the whole part is missing, either part is not a decimal
/// `i32`, or the value leaves `i32`; `Err(true)` marks the missing case.
pub open spec fn coord_field(whole: Option<Seq<u8>>, frac: Option<Seq<u8>>) -> core::result::Result<i32, bool> {
    match whole {
        None => Err(true),
        Some(w) => match parse_i32(w) {
            None => Err(false),
            Some(wv) => {
                let fv: core::result::Result<int, bool> = match frac {
                    None => Ok(0int),
                    Some(f) => match parse_i32(f) {
                        Some(x) => Ok(x as int),
                        None => Err(false),
                    },
                };
                match fv {
                    Ok(f) => if fits_i32(coord_units(wv as int, f)) {
                        Ok(coord_units(wv as int, f) as i32)
                    } else {
                        Err(false)
                    },
                    Err(e) => Err(e),
                }
            },
        },
    }
}

/// The view of an optional byte slice.
pub open spec fn opt_view(o: Option<&[u8]>) -> Option<Seq<u8>> {
    match o {
        Some(w) => Some(w@),
        None => None,
    }
}

/// A coordinate from whole-unit and fraction values.
fn coord_from_parts(key: &[u8], whole: Option<&[u8]>, frac: Option<&[u8]>) -> (r: Result<Coord>)
    ensures
        match coord_field(opt_view(whole), opt_view(frac)) {
            Ok(v) => r == Result::<Coord>::Ok(Coord { raw: v }),
            Err(true) => r matches Err(AltiumError::MissingParameter(_)),
            Err(false) => r matches Err(AltiumError::InvalidParameter(_)),
        },
{
    let w = match whole {
        Some(w) => w,
        None => return Err(AltiumError::MissingParameter(crate::encoding::decode_win1252(key))),
    };
    let wv = match parse_i32_bytes(w) {
        Some(x) => x,
        None => return Err(AltiumError::InvalidParameter(crate::encoding::decode_win1252(key))),
    };
    let fv: i64 = match frac {
        Some(f) => match parse_i32_bytes(f) {
            Some(x) => x as i64,
            None => return Err(AltiumError::InvalidParameter(crate::encoding::decode_win1252(key))),
        },
        None => 0,
    };
    let v: i64 = wv as i64 * 100_000 + fv;
    if v < -2147483648 || v > 2147483647 {
        return Err(AltiumError::InvalidParameter(crate::encoding::decode_win1252(key)));
    }
    Ok(Coord { raw: v as i32 })
}

/// A coordinate field: whole units under `key`, an optional fraction under
/// `frac_key`.
pub fn take_coord(params: &mut ParameterCollection, key: &str, frac_key: &str) -> (r: Result<Coord>)
    ensures
        same_entries(*old(params), *final(params)),
        match coord_field(lookup(old(params)@, key.spec_bytes()), lookup(old(params)@, frac_key.spec_bytes())) {
            Ok(v) => r == Result::<Coord>::Ok(Coord { raw: v }),
            Err(true) => r matches Err(AltiumError::MissingParameter(_)),
            Err(false) => r matches Err(AltiumError::InvalidParameter(_)),
        },
{
    let w = params.take(key);
    let f = params.take(frac_key);
    let wb: Option<&[u8]> = match &w {
        Some(v) => Some(v.as_bytes()),
        None => None,
    };
    let fb: Option<&[u8]> = match &f {
        Some(v) => Some(v.as_bytes()),
        None => None,
    };
    coord_from_parts(key.as_bytes(), wb, fb)
}

/// A point field from two coordinate fields.
pub fn take_coord_point(
    params: &mut ParameterCollection,
    x_key: &str,
    x_frac: &str,
    y_key: &str,
    y_frac: &str,
) -> (r: Result<CoordPoint>)
    ensures
        same_entries(*old(params), *final(params)),
        match (
            coord_field(lookup(old(params)@, x_key.spec_bytes()), lookup(old(params)@, x_frac.spec_bytes())),
            coord_field(lookup(old(params)@, y_key.spec_bytes()), lookup(old(params)@, y_frac.spec_bytes())),
        ) {
            (Ok(x), Ok(y)) => r == Result::<CoordPoint>::Ok(CoordPoint { x: Coord { raw: x }, y: Coord { raw: y } }),
            _ => r is Err,
        },
{
    let x = match take_coord(params, x_key, x_frac) {
        Ok(c) => c,
        Err(e) => return Err(e),
    };
    let y = match take_coord(params, y_key, y_frac) {
        Ok(c) => c,
        Err(e) => return Err(e),
    };
    Ok(CoordPoint { x, y })
}

/// The key `prefix` followed by the decimal digits of `i`.
pub open spec fn indexed_key(prefix: Seq<u8>, i: nat) -> Seq<u8> {
    prefix + decimal_digits(i)
}

/// The key `prefix`, the digits of `i`, then `_FRAC`.
pub open spec fn indexed_frac_key(prefix: Seq<u8>, i: nat) -> Seq<u8> {
    prefix + decimal_digits(i) + "_FRAC".spec_bytes()
}

/// The vertices of an indexed list: `count` points `(X1, Y1)` to
/// `(Xn, Yn)`, each with optional `_FRAC` keys.
pub open spec fn indexed_points(es: Seq<(Seq<u8>, Seq<u8>)>, count: nat, xp: Seq<u8>, yp: Seq<u8>) -> Option<
    Seq<CoordPoint>,
> {
    if forall|i: int|
        1 <= i <= count ==> (#[trigger] coord_field(
            lookup(es, indexed_key(xp, i as nat)),
            lookup(es, indexed_frac_key(xp, i as nat)),
        )) is Ok && coord_field(lookup(es, indexed_key(yp, i as nat)), lookup(es, indexed_frac_key(yp, i as nat)))
            is Ok {
        Some(
            Seq::new(
                count,
                |k: int|
                    CoordPoint {
                        x: Coord {
                            raw: coord_field(
                                lookup(es, indexed_key(xp, (k + 1) as nat)),
                                lookup(es, indexed_frac_key(xp, (k + 1) as nat)),
                            )->Ok_0,
                        },
                        y: Coord {
                            raw: coord_field(
                                lookup(es, indexed_key(yp, (k + 1) as nat)),
                                lookup(es, indexed_frac_key(yp, (k + 1) as nat)),
                            )->Ok_0,
                        },
                    },
            ),
        )
    } else {
        None
    }
}

/// Appends the decimal digits of `n` and optionally `_FRAC` to a prefix.
fn build_key(prefix: &str, n: usize, frac: bool) -> (r: Vec<u8>)
    ensures
        r@ == if frac {
            indexed_frac_key(prefix.spec_bytes(), n as nat)
        } else {
            indexed_key(prefix.spec_bytes(), n as nat)
        },
{
    let mut k = crate::wire::copy_range(prefix.as_bytes(), 0, prefix.as_bytes().len());
    assert(k@ =~= prefix.spec_bytes());
    let d = crate::params::usize_to_decimal(n);
    crate::wire::append_bytes(&mut k, d.as_slice());
    if frac {
        crate::wire::append_bytes(&mut k, "_FRAC".as_bytes());
    }
    k
}

/// An indexed vertex list: a required `count_key`, then `count` points
/// from `x_prefix`/`y_prefix` keys numbered from 1.
pub fn take_indexed_coords(
    params: &mut ParameterCollection,
    count_key: &str,
    x_prefix: &str,
    y_prefix: &str,
) -> (r: Result<Vec<CoordPoint>>)
    ensures
        same_entries(*old(params), *final(params)),
        match lookup(old(params)@, count_key.spec_bytes()) {
            None => r matches Err(AltiumError::MissingParameter(_)),
            Some(cv) => match parse_i32(cv) {
                None => r is Err,
                Some(c) => if c < 0 {
                    r is Err
                } else {
                    match indexed_points(old(params)@, c as nat, x_prefix.spec_bytes(), y_prefix.spec_bytes()) {
                        Some(pts) => r matches Ok(v) && v@ == pts,
                        None => r is Err,
                    }
                },
            },
        },
{
    let count = match take_required_i32(params, count_key) {
        Ok(c) => c,
        Err(e) => return Err(e),
    };
    if count < 0 {
        return Err(AltiumError::InvalidParameter(text(count_key)));
    }
    let ghost es = params@;
    let ghost xp = x_prefix.spec_bytes();
    let ghost yp = y_prefix.spec_bytes();
    let n = count as usize;
    let mut out: Vec<CoordPoint> = Vec::new();
    let mut i: usize = 1;
    while i <= n
        invariant
            1 <= i <= n + 1,
            n == count,
            es == old(params)@,
            params@ == es,
            xp == x_prefix.spec_bytes(),
            yp == y_prefix.spec_bytes(),
            count >= 0,
            lookup(old(params)@, count_key.spec_bytes()) matches Some(cv) && parse_i32(cv) == Some(count),
            out@.len() == i - 1,
            forall|k: int|
                1 <= k < i ==> (#[trigger] coord_field(
                    lookup(es, indexed_key(xp, k as nat)),
                    lookup(es, indexed_frac_key(xp, k as nat)),
                )) is Ok && coord_field(lookup(es, indexed_key(yp, k as nat)), lookup(es, indexed_frac_key(yp, k as nat)))
                    is Ok,
            forall|k: int|
                0 <= k < out@.len() ==> (#[trigger] out@[k]) == (CoordPoint {
                    x: Coord {
                        raw: coord_field(
                            lookup(es, indexed_key(xp, (k + 1) as nat)),
                            lookup(es, indexed_frac_key(xp, (k + 1) as nat)),
                        )->Ok_0,
                    },
                    y: Coord {
                        raw: coord_field(
                            lookup(es, indexed_key(yp, (k + 1) as nat)),
                            lookup(es, indexed_frac_key(yp, (k + 1) as nat)),
                        )->Ok_0,
                    },
                }),
        decreases n + 1 - i,
    {
        let xk = build_key(x_prefix, i, false);
        let xf = build_key(x_prefix, i, true);
        let yk = build_key(y_prefix, i, false);
        let yf = build_key(y_prefix, i, true);
        let xw = params.take_bytes(xk.as_slice());
        let xfv = params.take_bytes(xf.as_slice());
        let yw = params.take_bytes(yk.as_slice());
        let yfv = params.take_bytes(yf.as_slice());
        let xwb: Option<&[u8]> = match &xw {
            Some(v) => Some(v.as_bytes()),
            None => None,
        };
        let xfb: Option<&[u8]> = match &xfv {
            Some(v) => Some(v.as_bytes()),
            None => None,
        };
        let ywb: Option<&[u8]> = match &yw {
            Some(v) => Some(v.as_bytes()),
            None => None,
        };
        let yfb: Option<&[u8]> = match &yfv {
            Some(v) => Some(v.as_bytes()),
            None => None,
        };
        assert(opt_view(xwb) == lookup(es, indexed_key(xp, i as nat)));
        assert(opt_view(xfb) == lookup(es, indexed_frac_key(xp, i as nat)));
        assert(opt_view(ywb) == lookup(es, indexed_key(yp, i as nat)));
        assert(opt_view(yfb) == lookup(es, indexed_frac_key(yp, i as nat)));
        let x = coord_from_parts(xk.as_slice(), xwb, xfb);
        let y = coord_from_parts(yk.as_slice(), ywb, yfb);
        match (x, y) {
            (Ok(x), Ok(y)) => {
                out.push(CoordPoint { x, y });
            },
            (Err(e), _) => {
                proof {
                    let k = i as int;
                    assert(!(coord_field(lookup(es, indexed_key(xp, k as nat)), lookup(es, indexed_frac_key(xp, k as nat))) is Ok));
                }
                return Err(e);
            },
            (_, Err(e)) => {
                proof {
                    let k = i as int;
                    assert(!(coord_field(lookup(es, indexed_key(yp, k as nat)), lookup(es, indexed_frac_key(yp, k as nat))) is Ok));
                }
                return Err(e);
            },
        }
        i = i + 1;
    }
    Ok(out)
}

/// Comma-separated decimal `i32` values; `None` when a field is not one.
pub open spec fn int_list(s: Seq<u8>) -> Option<Seq<i32>>
    decreases s.len(),
{
    let c = find_byte(s, 44, 0);
    proof {
        crate::params::lemma_find_byte_bounds(s, 44, 0);
    }
    match parse_i32(s.subrange(0, c)) {
        None => None,
        Some(v) => if c < s.len() {
            match int_list(s.subrange(c + 1, s.len() as int)) {
                Some(rest) => Some(seq![v] + rest),
                None => None,
            }
        } else {
            Some(seq![v])
        },
    }
}

/// Parses comma-separated `i32` values.
pub fn parse_int_list(s: &[u8]) -> (r: Option<Vec<i32>>)
    ensures
        match int_list(s@) {
            Some(v) => r matches Some(x) && x@ == v,
            None => r is None,
        },
{
    let mut out: Vec<i32> = Vec::new();
    let mut pos: usize = 0;
    assert(s@.subrange(0, s@.len() as int) =~= s@);
    assert(out@ + Seq::<i32>::empty() =~= out@);
    loop
        invariant
            pos <= s@.len(),
            match int_list(s@.subrange(pos as int, s@.len() as int)) {
                Some(rest) => int_list(s@) == Some(out@ + rest),
                None => int_list(s@) is None,
            },
        decreases s@.len() - pos,
    {
        let ghost t = s@.subrange(pos as int, s@.len() as int);
        let c = find_byte_exec(s, 44, pos);
        proof {
            crate::edit::pcb_placement::lemma_find_shift_byte(s@, 44, pos as int);
        }
        let field = crate::wire::copy_range(s, pos, c);
        assert(field@ =~= t.subrange(0, c - pos));
        match parse_i32_bytes(field.as_slice()) {
            None => return None,
            Some(v) => {
                out.push(v);
                if c >= s.len() {
                    proof {
                        assert(int_list(t) == Some(seq![v]));
                    }
                    return Some(out);
                }
                proof {
                    assert(t.subrange(c - pos + 1, t.len() as int) =~= s@.subrange(c + 1, s@.len() as int));
                    let ghost before = out@.drop_last();
                    match int_list(s@.subrange(c + 1, s@.len() as int)) {
                        Some(rest) => {
                            assert(before + (seq![v] + rest) =~= out@ + rest);
                        },
                        None => {},
                    }
                }
                pos = c + 1;
            },
        }
    }
}

/// A required list of `i32` values.
pub fn take_int_list(params: &mut ParameterCollection, key: &str) -> (r: Result<Vec<i32>>)
    ensures
        same_entries(*old(params), *final(params)),
        match lookup(old(params)@, key.spec_bytes()) {
            None => r matches Err(AltiumError::MissingParameter(k)) && k@ == key@,
            Some(v) => match int_list(v) {
                Some(xs) => r matches Ok(x) && x@ == xs,
                None => r matches Err(AltiumError::InvalidParameter(_)),
            },
        },
{
    match params.take(key) {
        Some(v) => match parse_int_list(v.as_bytes()) {
            Some(xs) => Ok(xs),
            None => Err(AltiumError::InvalidParameter(text(key))),
        },
        None => Err(AltiumError::MissingParameter(text(key))),
    }
}

/// A list of `i32` values, empty when the key is absent.
pub fn take_int_list_or_empty(params: &mut ParameterCollection, key: &str) -> (r: Result<Vec<i32>>)
    ensures
        same_entries(*old(params), *final(params)),
        match lookup(old(params)@, key.spec_bytes()) {
            None => r matches Ok(x) && x@.len() == 0,
            Some(v) => match int_list(v) {
                Some(xs) => r matches Ok(x) && x@ == xs,
                None => r matches Err(AltiumError::InvalidParameter(_)),
            },
        },
{
    match params.take(key) {
        Some(v) => match parse_int_list(v.as_bytes()) {
            Some(xs) => Ok(xs),
            None => Err(AltiumError::InvalidParameter(text(key))),
        },
        None => Ok(Vec::new()),
    }
}

} // verus!
