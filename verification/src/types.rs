//! Coordinates, points, rectangles and layers.
//!
//! Coordinates are kept in Altium's internal units: one mil is 10 000 units,
//! one inch is 10 000 000 units and one millimetre is 10^8 / 254 units.
use vstd::prelude::*;

verus! {

/// A lower-case hexadecimal digit.
pub open spec fn is_lower_hex_char(c: char) -> bool {
    ('0' <= c && c <= '9') || ('a' <= c && c <= 'f')
}

/// The hyphenated text of a random (version 4) UUID: 36 characters,
/// hyphens at 8, 13, 18 and 23, lower-case hexadecimal digits elsewhere, and
/// the version digit `4` at 14.
pub open spec fn is_hyphenated_v4_text(s: Seq<char>) -> bool {
    &&& s.len() == 36
    &&& forall|i: int|
        0 <= i < 36 ==> if i == 8 || i == 13 || i == 18 || i == 23 {
            s[i] == '-'
        } else {
            is_lower_hex_char(s[i])
        }
    &&& s[14] == '4'
}

/// The simple text of a random (version 4) UUID: 32 lower-case hexadecimal
/// digits, the version digit `4` at 12.
pub open spec fn is_simple_v4_text(s: Seq<char>) -> bool {
    &&& s.len() == 32
    &&& forall|i: int| 0 <= i < 32 ==> is_lower_hex_char(s[i])
    &&& s[12] == '4'
}

/// Internal units per mil.
pub const UNITS_PER_MIL: i64 = 10000;

/// A coordinate in internal units.
#[derive(Clone, Copy, Debug, PartialEq, Eq, Structural)]
pub struct Coord {
    pub raw: i32,
}

/// A point.
#[derive(Clone, Copy, Debug, PartialEq, Eq, Structural)]
pub struct CoordPoint {
    pub x: Coord,
    pub y: Coord,
}

/// A rectangle between two corners, `location1` the lower-left and
/// `location2` the upper-right. A rectangle whose lower-left lies right of or
/// above its upper-right is empty; `CoordRect::empty()` is the empty rectangle
/// that every union absorbs.
#[derive(Clone, Copy, Debug, PartialEq, Eq, Structural)]
pub struct CoordRect {
    pub location1: CoordPoint,
    pub location2: CoordPoint,
}

/// A PCB layer, by its Altium layer number.
#[derive(Clone, Copy, Debug, PartialEq, Eq, Structural)]
pub struct Layer {
    pub id: u8,
}

/// Smaller of two integers.
pub open spec fn min_int(a: int, b: int) -> int {
    if a <= b {
        a
    } else {
        b
    }
}

/// Larger of two integers.
pub open spec fn max_int(a: int, b: int) -> int {
    if a >= b {
        a
    } else {
        b
    }
}

/// Integer division rounding toward zero, as Rust's `/` on signed integers.
pub open spec fn trunc_div(a: int, b: int) -> int
    recommends
        b != 0,
{
    let q = abs_int(a) / abs_int(b);
    if (a < 0) != (b < 0) {
        -q
    } else {
        q
    }
}

/// Absolute value.
pub open spec fn abs_int(a: int) -> int {
    if a < 0 {
        -a
    } else {
        a
    }
}

/// Whether an integer fits in an `i32`.
pub open spec fn fits_i32(a: int) -> bool {
    i32::MIN <= a <= i32::MAX
}

/// Half of the sum of two `i32` values fits in an `i32`.
pub proof fn lemma_half_fits(a: int)
    requires
        2 * i32::MIN <= a <= 2 * i32::MAX,
    ensures
        fits_i32(trunc_div(a, 2)),
{
    let q = abs_int(a) / 2;
    assert(q <= 0x8000_0000);
    if a >= 0 {
        assert(q <= 0x7fff_ffff);
    }
}

/// Rust's `/` on `i64`, proved equal to `trunc_div`.
pub fn div_trunc_i64(a: i64, b: i64) -> (r: i64)
    requires
        b != 0,
        a > i64::MIN,
        b > i64::MIN,
    ensures
        r == trunc_div(a as int, b as int),
{
    let ua: u64 = if a < 0 {
        (-a) as u64
    } else {
        a as u64
    };
    let ub: u64 = if b < 0 {
        (-b) as u64
    } else {
        b as u64
    };
    let q: u64 = ua / ub;
    assert(q <= ua) by (nonlinear_arith)
        requires
            q == ua / ub,
            ub > 0,
    ;
    if (a < 0) != (b < 0) {
        -(q as i64)
    } else {
        q as i64
    }
}

/// Rust's `/` on `i128`, proved equal to `trunc_div`.
pub fn div_trunc_i128(a: i128, b: i128) -> (r: i128)
    requires
        b != 0,
        a > i128::MIN,
        b > i128::MIN,
    ensures
        r == trunc_div(a as int, b as int),
{
    let ua: u128 = if a < 0 {
        (-a) as u128
    } else {
        a as u128
    };
    let ub: u128 = if b < 0 {
        (-b) as u128
    } else {
        b as u128
    };
    let q: u128 = ua / ub;
    assert(q <= ua) by (nonlinear_arith)
        requires
            q == ua / ub,
            ub > 0,
    ;
    if (a < 0) != (b < 0) {
        -(q as i128)
    } else {
        q as i128
    }
}

/// Grows a rectangle to hold a point (the empty rectangle becomes the point).
pub open spec fn extend_box(b: CoordRect, p: CoordPoint) -> CoordRect {
    CoordRect {
        location1: CoordPoint {
            x: Coord { raw: min_int(b.location1.x.raw as int, p.x.raw as int) as i32 },
            y: Coord { raw: min_int(b.location1.y.raw as int, p.y.raw as int) as i32 },
        },
        location2: CoordPoint {
            x: Coord { raw: max_int(b.location2.x.raw as int, p.x.raw as int) as i32 },
            y: Coord { raw: max_int(b.location2.y.raw as int, p.y.raw as int) as i32 },
        },
    }
}

/// Grows a rectangle to hold a point.
pub fn extend_box_exec(b: CoordRect, p: CoordPoint) -> (r: CoordRect)
    ensures
        r == extend_box(b, p),
{
    let x1 = if b.location1.x.raw <= p.x.raw {
        b.location1.x.raw
    } else {
        p.x.raw
    };
    let y1 = if b.location1.y.raw <= p.y.raw {
        b.location1.y.raw
    } else {
        p.y.raw
    };
    let x2 = if b.location2.x.raw >= p.x.raw {
        b.location2.x.raw
    } else {
        p.x.raw
    };
    let y2 = if b.location2.y.raw >= p.y.raw {
        b.location2.y.raw
    } else {
        p.y.raw
    };
    CoordRect {
        location1: CoordPoint { x: Coord { raw: x1 }, y: Coord { raw: y1 } },
        location2: CoordPoint { x: Coord { raw: x2 }, y: Coord { raw: y2 } },
    }
}

/// The empty rectangle as a spec value.
pub open spec fn empty_rect() -> CoordRect {
    CoordRect {
        location1: CoordPoint { x: Coord { raw: i32::MAX }, y: Coord { raw: i32::MAX } },
        location2: CoordPoint { x: Coord { raw: i32::MIN }, y: Coord { raw: i32::MIN } },
    }
}

impl Coord {
    /// The zero coordinate.
    pub fn zero() -> (r: Coord)
        ensures
            r.raw == 0,
    {
        Coord { raw: 0 }
    }

    /// A coordinate from internal units.
    pub fn from_raw(raw: i32) -> (r: Coord)
        ensures
            r.raw == raw,
    {
        Coord { raw }
    }

    /// The coordinate in internal units.
    pub fn to_raw(&self) -> (r: i32)
        ensures
            r == self.raw,
    {
        self.raw
    }

    /// A coordinate from a whole number of mils.
    pub fn from_mils(mils: i32) -> (r: Coord)
        requires
            fits_i32(mils * UNITS_PER_MIL),
        ensures
            r.raw == mils * UNITS_PER_MIL,
    {
        Coord { raw: mils * 10000 }
    }

    /// Sum of two coordinates.
    pub fn add(self, other: Coord) -> (r: Coord)
        requires
            fits_i32(self.raw + other.raw),
        ensures
            r.raw == self.raw + other.raw,
    {
        Coord { raw: self.raw + other.raw }
    }

    /// Difference of two coordinates.
    pub fn sub(self, other: Coord) -> (r: Coord)
        requires
            fits_i32(self.raw - other.raw),
        ensures
            r.raw == self.raw - other.raw,
    {
        Coord { raw: self.raw - other.raw }
    }

    /// Absolute value of a coordinate.
    pub fn abs(self) -> (r: Coord)
        requires
            self.raw > i32::MIN,
        ensures
            r.raw == abs_int(self.raw as int),
    {
        if self.raw < 0 {
            Coord { raw: -self.raw }
        } else {
            self
        }
    }
}

impl CoordPoint {
    /// A point from its coordinates.
    pub fn new(x: Coord, y: Coord) -> (r: CoordPoint)
        ensures
            r.x == x,
            r.y == y,
    {
        CoordPoint { x, y }
    }

    /// The origin.
    pub fn origin() -> (r: CoordPoint)
        ensures
            r.x.raw == 0 && r.y.raw == 0,
    {
        CoordPoint { x: Coord { raw: 0 }, y: Coord { raw: 0 } }
    }
}

impl CoordRect {
    /// The normalised rectangle spanned by two corners.
    pub fn new(a: CoordPoint, b: CoordPoint) -> (r: CoordRect)
        ensures
            r.location1.x.raw == min_int(a.x.raw as int, b.x.raw as int),
            r.location1.y.raw == min_int(a.y.raw as int, b.y.raw as int),
            r.location2.x.raw == max_int(a.x.raw as int, b.x.raw as int),
            r.location2.y.raw == max_int(a.y.raw as int, b.y.raw as int),
    {
        let x1 = if a.x.raw <= b.x.raw {
            a.x.raw
        } else {
            b.x.raw
        };
        let y1 = if a.y.raw <= b.y.raw {
            a.y.raw
        } else {
            b.y.raw
        };
        let x2 = if a.x.raw >= b.x.raw {
            a.x.raw
        } else {
            b.x.raw
        };
        let y2 = if a.y.raw >= b.y.raw {
            a.y.raw
        } else {
            b.y.raw
        };
        CoordRect {
            location1: CoordPoint { x: Coord { raw: x1 }, y: Coord { raw: y1 } },
            location2: CoordPoint { x: Coord { raw: x2 }, y: Coord { raw: y2 } },
        }
    }

    /// The rectangle with the given corners, taken as they are.
    pub fn from_points(x1: Coord, y1: Coord, x2: Coord, y2: Coord) -> (r: CoordRect)
        ensures
            r.location1 == (CoordPoint { x: x1, y: y1 }),
            r.location2 == (CoordPoint { x: x2, y: y2 }),
    {
        CoordRect { location1: CoordPoint { x: x1, y: y1 }, location2: CoordPoint { x: x2, y: y2 } }
    }

    /// The rectangle at `(x, y)` with a width and a height.
    pub fn from_xywh(x: Coord, y: Coord, w: Coord, h: Coord) -> (r: CoordRect)
        requires
            fits_i32(x.raw + w.raw),
            fits_i32(y.raw + h.raw),
        ensures
            r.location1 == (CoordPoint { x, y }),
            r.location2.x.raw == x.raw + w.raw,
            r.location2.y.raw == y.raw + h.raw,
    {
        CoordRect {
            location1: CoordPoint { x, y },
            location2: CoordPoint { x: Coord { raw: x.raw + w.raw }, y: Coord { raw: y.raw + h.raw } },
        }
    }

    /// The empty rectangle, absorbed by every union.
    pub fn empty() -> (r: CoordRect)
        ensures
            r.spec_is_empty(),
            r == empty_rect(),
            r.location1.x.raw == i32::MAX && r.location1.y.raw == i32::MAX,
            r.location2.x.raw == i32::MIN && r.location2.y.raw == i32::MIN,
    {
        CoordRect {
            location1: CoordPoint { x: Coord { raw: i32::MAX }, y: Coord { raw: i32::MAX } },
            location2: CoordPoint { x: Coord { raw: i32::MIN }, y: Coord { raw: i32::MIN } },
        }
    }

    /// Whether the rectangle holds no point.
    pub open spec fn spec_is_empty(self) -> bool {
        self.location1.x.raw > self.location2.x.raw || self.location1.y.raw > self.location2.y.raw
    }

    /// Whether a point lies in the rectangle, edges included.
    pub open spec fn spec_contains(self, p: CoordPoint) -> bool {
        self.location1.x.raw <= p.x.raw <= self.location2.x.raw && self.location1.y.raw <= p.y.raw
            <= self.location2.y.raw
    }

    /// Whether the rectangle holds no point.
    pub fn is_empty(&self) -> (r: bool)
        ensures
            r == self.spec_is_empty(),
    {
        self.location1.x.raw > self.location2.x.raw || self.location1.y.raw > self.location2.y.raw
    }

    /// Whether a point lies in the rectangle, edges included.
    pub fn contains(&self, p: CoordPoint) -> (r: bool)
        ensures
            r == self.spec_contains(p),
    {
        self.location1.x.raw <= p.x.raw && p.x.raw <= self.location2.x.raw && self.location1.y.raw
            <= p.y.raw && p.y.raw <= self.location2.y.raw
    }

    /// The smallest rectangle holding both; an empty operand adds nothing.
    pub fn union(&self, other: CoordRect) -> (r: CoordRect)
        ensures
            self.spec_is_empty() ==> r == other,
            !self.spec_is_empty() && other.spec_is_empty() ==> r == *self,
            !self.spec_is_empty() && !other.spec_is_empty() ==> {
                &&& r.location1.x.raw == min_int(self.location1.x.raw as int, other.location1.x.raw as int)
                &&& r.location1.y.raw == min_int(self.location1.y.raw as int, other.location1.y.raw as int)
                &&& r.location2.x.raw == max_int(self.location2.x.raw as int, other.location2.x.raw as int)
                &&& r.location2.y.raw == max_int(self.location2.y.raw as int, other.location2.y.raw as int)
            },
    {
        if self.is_empty() {
            return other;
        }
        if other.is_empty() {
            return *self;
        }
        let x1 = if self.location1.x.raw <= other.location1.x.raw {
            self.location1.x.raw
        } else {
            other.location1.x.raw
        };
        let y1 = if self.location1.y.raw <= other.location1.y.raw {
            self.location1.y.raw
        } else {
            other.location1.y.raw
        };
        let x2 = if self.location2.x.raw >= other.location2.x.raw {
            self.location2.x.raw
        } else {
            other.location2.x.raw
        };
        let y2 = if self.location2.y.raw >= other.location2.y.raw {
            self.location2.y.raw
        } else {
            other.location2.y.raw
        };
        CoordRect {
            location1: CoordPoint { x: Coord { raw: x1 }, y: Coord { raw: y1 } },
            location2: CoordPoint { x: Coord { raw: x2 }, y: Coord { raw: y2 } },
        }
    }

    /// The centre point, each coordinate the halved sum rounded toward zero.
    pub fn center(&self) -> (r: CoordPoint)
        ensures
            r.x.raw == trunc_div(self.location1.x.raw + self.location2.x.raw, 2),
            r.y.raw == trunc_div(self.location1.y.raw + self.location2.y.raw, 2),
    {
        let sx: i64 = self.location1.x.raw as i64 + self.location2.x.raw as i64;
        let sy: i64 = self.location1.y.raw as i64 + self.location2.y.raw as i64;
        let cx = div_trunc_i64(sx, 2);
        let cy = div_trunc_i64(sy, 2);
        proof {
            lemma_half_fits(sx as int);
            lemma_half_fits(sy as int);
        }
        CoordPoint { x: Coord { raw: cx as i32 }, y: Coord { raw: cy as i32 } }
    }

    /// Width (`location2.x - location1.x`).
    pub fn width(&self) -> (r: i64)
        ensures
            r == self.location2.x.raw - self.location1.x.raw,
    {
        self.location2.x.raw as i64 - self.location1.x.raw as i64
    }

    /// Height (`location2.y - location1.y`).
    pub fn height(&self) -> (r: i64)
        ensures
            r == self.location2.y.raw - self.location1.y.raw,
    {
        self.location2.y.raw as i64 - self.location1.y.raw as i64
    }
}

impl Layer {
    /// Top copper layer.
    pub fn top_layer() -> (r: Layer)
        ensures
            r.id == 1,
    {
        Layer { id: 1 }
    }

    /// Bottom copper layer.
    pub fn bottom_layer() -> (r: Layer)
        ensures
            r.id == 32,
    {
        Layer { id: 32 }
    }

    /// Top silkscreen overlay.
    pub fn top_overlay() -> (r: Layer)
        ensures
            r.id == 33,
    {
        Layer { id: 33 }
    }

    /// The layer of through-hole objects present on every copper layer.
    pub fn multi_layer() -> (r: Layer)
        ensures
            r.id == 74,
    {
        Layer { id: 74 }
    }
}

} // verus!
