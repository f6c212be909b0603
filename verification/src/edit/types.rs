//! Common types of the editing engines: grid, orientation, directions, wire
//! segments and routing paths.
use vstd::prelude::*;

use crate::types::{abs_int, div_trunc_i64, fits_i32, max_int, min_int, trunc_div, Coord, CoordPoint, CoordRect};

verus! {

/// Default grid spacing in mils.
pub const DEFAULT_GRID_MILS: i32 = 10;

/// Grid configuration for placement.
#[derive(Clone, Copy, Debug)]
pub struct Grid {
    /// Grid spacing in internal units.
    pub spacing: Coord,
    /// Whether to snap to grid.
    pub snap_enabled: bool,
}

/// A value rounded to the nearest multiple of the spacing's magnitude `m`:
/// `floor((v + m / 2) / m) * m`, so a value half way between two grid lines
/// goes to the upper one.
pub open spec fn snap_raw(v: int, s: int) -> int {
    let m = abs_int(s);
    ((v + m / 2) / m) * m
}

/// Whether rounding `v` to spacing `s` stays within `i32`.
pub open spec fn can_snap(v: int, s: int) -> bool {
    s == 0 || fits_i32(snap_raw(v, s))
}

/// `trunc_div(a, b) * b` lies between zero and `a`.
pub proof fn lemma_trunc_div_mul_bound(a: int, b: int)
    requires
        b != 0,
    ensures
        a >= 0 ==> 0 <= trunc_div(a, b) * b <= a,
        a < 0 ==> a <= trunc_div(a, b) * b <= 0,
{
    let q = abs_int(a) / abs_int(b);
    let m = abs_int(b);
    assert(0 <= q * m <= abs_int(a)) by (nonlinear_arith)
        requires
            q == abs_int(a) / m,
            m > 0,
            abs_int(a) >= 0,
    ;
    if a >= 0 && b > 0 {
        assert(trunc_div(a, b) * b == q * m);
    } else if a >= 0 && b < 0 {
        assert(trunc_div(a, b) * b == q * m) by (nonlinear_arith)
            requires
                trunc_div(a, b) == -q,
                m == -b,
        ;
    } else if a < 0 && b > 0 {
        assert(trunc_div(a, b) * b == -(q * m)) by (nonlinear_arith)
            requires
                trunc_div(a, b) == -q,
                m == b,
        ;
    } else {
        assert(trunc_div(a, b) * b == -(q * m)) by (nonlinear_arith)
            requires
                trunc_div(a, b) == q,
                m == -b,
        ;
    }
}

/// A rounded value is a multiple of the spacing, within half a spacing of
/// the value.
pub proof fn lemma_snap_nearest(v: int, s: int)
    requires
        s != 0,
    ensures
        snap_raw(v, s) % abs_int(s) == 0,
        abs_int(snap_raw(v, s) - v) <= abs_int(s) / 2,
{
    let m = abs_int(s);
    let h = m / 2;
    let q = (v + h) / m;
    assert((q * m) % m == 0) by (nonlinear_arith)
        requires
            m > 0,
    ;
    assert(q * m <= v + h < q * m + m) by (nonlinear_arith)
        requires
            m > 0,
            q == (v + h) / m,
    ;
    assert(h * 2 <= m <= h * 2 + 1);
}

/// Rounding twice gives what rounding once gave.
pub proof fn lemma_snap_idempotent(v: int, s: int)
    requires
        s != 0,
    ensures
        snap_raw(snap_raw(v, s), s) == snap_raw(v, s),
{
    let m = abs_int(s);
    let h = m / 2;
    let q = (v + h) / m;
    assert((q * m + h) / m == q) by (nonlinear_arith)
        requires
            0 <= h < m,
    ;
}

/// Rounds one raw value to the grid.
fn snap_value(v: i32, s: i32) -> (r: i32)
    requires
        s != 0,
        can_snap(v as int, s as int),
    ensures
        r == snap_raw(v as int, s as int),
{
    match snap_value_checked(v, s) {
        Some(x) => x,
        None => v,
    }
}

/// Rounds one raw value to the grid, or `None` when the result leaves `i32`.
fn snap_value_checked(v: i32, s: i32) -> (r: Option<i32>)
    requires
        s != 0,
    ensures
        r matches Some(x) ==> x == snap_raw(v as int, s as int),
        r is Some <==> can_snap(v as int, s as int),
{
    let m: i64 = if s < 0 { -(s as i64) } else { s as i64 };
    let a: i64 = v as i64 + m / 2;
    let q: i64 = if a >= 0 {
        (a / m) as i64
    } else {
        let na: u64 = (-a) as u64;
        let c: u64 = (na + (m as u64) - 1) / (m as u64);
        -(c as i64)
    };
    proof {
        let mi = m as int;
        let ai = a as int;
        if ai < 0 {
            let na = -ai;
            let c = (na + mi - 1) / mi;
            assert(-c == ai / mi) by (nonlinear_arith)
                requires
                    mi > 0,
                    na == -ai,
                    na > 0,
                    c == (na + mi - 1) / mi,
            ;
        }
        assert(q as int == ai / mi);
        assert(q * mi <= ai < q * mi + mi) by (nonlinear_arith)
            requires
                q as int == ai / mi,
                mi >= 1,
        ;
    }
    let p: i64 = q * m;
    if p < -2147483648 || p > 2147483647 {
        None
    } else {
        Some(p as i32)
    }
}

impl Grid {
    /// The rounded coordinate of a raw value under this grid.
    pub open spec fn spec_snap_raw(&self, v: int) -> int {
        if !self.snap_enabled || self.spacing.raw == 0 {
            v
        } else {
            snap_raw(v, self.spacing.raw as int)
        }
    }

    /// Whether a raw value can be rounded under this grid.
    pub open spec fn can_snap_raw(&self, v: int) -> bool {
        !self.snap_enabled || can_snap(v, self.spacing.raw as int)
    }

    /// The default grid: 10 mil spacing, snapping on.
    pub fn default_grid() -> (r: Grid)
        ensures
            r.spacing.raw == DEFAULT_GRID_MILS * 10000,
            r.snap_enabled,
    {
        Grid { spacing: Coord::from_mils(DEFAULT_GRID_MILS), snap_enabled: true }
    }

    /// A grid with the given spacing in whole mils, snapping on.
    pub fn with_mils(mils: i32) -> (r: Grid)
        requires
            fits_i32(mils * 10000),
        ensures
            r.spacing.raw == mils * 10000,
            r.snap_enabled,
    {
        Grid { spacing: Coord::from_mils(mils), snap_enabled: true }
    }

    /// Whether a raw value can be rounded under this grid without leaving
    /// the `i32` range.
    pub fn can_snap_value(&self, v: i32) -> (r: bool)
        ensures
            r == self.can_snap_raw(v as int),
    {
        if !self.snap_enabled {
            return true;
        }
        let s = self.spacing.raw;
        if s == 0 {
            return true;
        }
        snap_value_checked(v, s).is_some()
    }

    /// Snap a point to the nearest grid intersection.
    pub fn snap(&self, point: CoordPoint) -> (r: CoordPoint)
        requires
            self.can_snap_raw(point.x.raw as int),
            self.can_snap_raw(point.y.raw as int),
        ensures
            r.x.raw == self.spec_snap_raw(point.x.raw as int),
            r.y.raw == self.spec_snap_raw(point.y.raw as int),
            self.snap_enabled && self.spacing.raw != 0 ==> ((r.x.raw as int) % abs_int(self.spacing.raw as int) == 0
                && (r.y.raw as int) % abs_int(self.spacing.raw as int) == 0 && abs_int(r.x.raw - point.x.raw)
                <= abs_int(self.spacing.raw as int) / 2 && abs_int(r.y.raw - point.y.raw) <= abs_int(
                self.spacing.raw as int,
            ) / 2),
    {
        proof {
            if self.snap_enabled && self.spacing.raw != 0 {
                lemma_snap_nearest(point.x.raw as int, self.spacing.raw as int);
                lemma_snap_nearest(point.y.raw as int, self.spacing.raw as int);
            }
        }
        if !self.snap_enabled {
            return point;
        }
        let spacing = self.spacing.raw;
        if spacing == 0 {
            return point;
        }
        CoordPoint {
            x: Coord { raw: snap_value(point.x.raw, spacing) },
            y: Coord { raw: snap_value(point.y.raw, spacing) },
        }
    }

    /// Snap a coordinate to the nearest grid line.
    pub fn snap_coord(&self, coord: Coord) -> (r: Coord)
        requires
            self.can_snap_raw(coord.raw as int),
        ensures
            r.raw == self.spec_snap_raw(coord.raw as int),
            self.snap_enabled && self.spacing.raw != 0 ==> (r.raw as int) % abs_int(self.spacing.raw as int) == 0
                && abs_int(r.raw - coord.raw) <= abs_int(self.spacing.raw as int) / 2,
    {
        proof {
            if self.snap_enabled && self.spacing.raw != 0 {
                lemma_snap_nearest(coord.raw as int, self.spacing.raw as int);
            }
        }
        if !self.snap_enabled {
            return coord;
        }
        let spacing = self.spacing.raw;
        if spacing == 0 {
            return coord;
        }
        Coord { raw: snap_value(coord.raw, spacing) }
    }
}

impl Default for Grid {
    fn default() -> (r: Grid)
        ensures
            r.spacing.raw == DEFAULT_GRID_MILS * 10000,
            r.snap_enabled,
    {
        Grid::default_grid()
    }
}

/// Orientation for component placement.
#[derive(Clone, Copy, Debug, PartialEq, Eq, Structural)]
pub enum Orientation {
    Normal,
    Rotated90,
    Rotated180,
    Rotated270,
    MirroredX,
    MirroredY,
    MirroredXRotated90,
    MirroredYRotated90,
}

impl Orientation {
    /// Altium's orientation number (rotation in quarter turns; the mirror is
    /// a separate flag).
    pub fn to_altium(&self) -> (r: i32)
        ensures
            r == match *self {
                Orientation::Normal | Orientation::MirroredX | Orientation::MirroredY => 0,
                Orientation::Rotated90 | Orientation::MirroredXRotated90
                | Orientation::MirroredYRotated90 => 1,
                Orientation::Rotated180 => 2,
                Orientation::Rotated270 => 3int,
            },
    {
        match self {
            Orientation::Normal => 0,
            Orientation::Rotated90 => 1,
            Orientation::Rotated180 => 2,
            Orientation::Rotated270 => 3,
            Orientation::MirroredX => 0,
            Orientation::MirroredY => 0,
            Orientation::MirroredXRotated90 => 1,
            Orientation::MirroredYRotated90 => 1,
        }
    }

    /// Whether this orientation mirrors.
    pub open spec fn spec_mirrored(self) -> bool {
        self == Orientation::MirroredX || self == Orientation::MirroredY || self == Orientation::MirroredXRotated90
            || self == Orientation::MirroredYRotated90
    }

    /// Counter-clockwise quarter turns of this orientation.
    pub open spec fn spec_quarters(self) -> int {
        match self {
            Orientation::Normal | Orientation::MirroredX | Orientation::MirroredY => 0,
            Orientation::Rotated90 | Orientation::MirroredXRotated90 | Orientation::MirroredYRotated90 => 1,
            Orientation::Rotated180 => 2,
            Orientation::Rotated270 => 3,
        }
    }

    /// Counter-clockwise quarter turns of this orientation (its rotation
    /// angle over 90 degrees).
    pub fn quarter_turns(&self) -> (r: u8)
        ensures
            r == self.spec_quarters(),
    {
        match self {
            Orientation::Normal | Orientation::MirroredX | Orientation::MirroredY => 0,
            Orientation::Rotated90 | Orientation::MirroredXRotated90 | Orientation::MirroredYRotated90 => 1,
            Orientation::Rotated180 => 2,
            Orientation::Rotated270 => 3,
        }
    }

    /// Whether this orientation includes mirroring.
    pub fn is_mirrored(&self) -> (r: bool)
        ensures
            r <==> (*self == Orientation::MirroredX || *self == Orientation::MirroredY || *self
                == Orientation::MirroredXRotated90 || *self == Orientation::MirroredYRotated90),
    {
        match self {
            Orientation::MirroredX | Orientation::MirroredY | Orientation::MirroredXRotated90
            | Orientation::MirroredYRotated90 => true,
            _ => false,
        }
    }
}

/// Direction for wire routing.
#[derive(Clone, Copy, Debug, PartialEq, Eq, Structural)]
pub enum Direction {
    Up,
    Down,
    Left,
    Right,
}

impl Direction {
    /// The unit vector of this direction (y grows upward).
    pub open spec fn spec_unit(self) -> (int, int) {
        match self {
            Direction::Up => (0, 1),
            Direction::Down => (0, -1),
            Direction::Left => (-1, 0),
            Direction::Right => (1, 0),
        }
    }

    /// The opposite direction.
    pub open spec fn spec_opposite(self) -> Direction {
        match self {
            Direction::Up => Direction::Down,
            Direction::Down => Direction::Up,
            Direction::Left => Direction::Right,
            Direction::Right => Direction::Left,
        }
    }

    /// The unit vector of this direction.
    pub fn unit_vector(&self) -> (r: (i32, i32))
        ensures
            r.0 == self.spec_unit().0 && r.1 == self.spec_unit().1,
    {
        match self {
            Direction::Up => (0, 1),
            Direction::Down => (0, -1),
            Direction::Left => (-1, 0),
            Direction::Right => (1, 0),
        }
    }

    /// The opposite direction.
    pub fn opposite(&self) -> (r: Direction)
        ensures
            r == self.spec_opposite(),
    {
        match self {
            Direction::Up => Direction::Down,
            Direction::Down => Direction::Up,
            Direction::Left => Direction::Right,
            Direction::Right => Direction::Left,
        }
    }

    /// The two perpendicular directions.
    pub fn perpendicular(&self) -> (r: [Direction; 2])
        ensures
            (*self == Direction::Up || *self == Direction::Down) ==> r@ == seq![
                Direction::Left,
                Direction::Right,
            ],
            (*self == Direction::Left || *self == Direction::Right) ==> r@ == seq![
                Direction::Up,
                Direction::Down,
            ],
    {
        match self {
            Direction::Up | Direction::Down => [Direction::Left, Direction::Right],
            Direction::Left | Direction::Right => [Direction::Up, Direction::Down],
        }
    }
}

/// The opposite of the opposite is the direction itself, and opposite
/// directions have opposite unit vectors.
pub proof fn lemma_opposite_involution(d: Direction)
    ensures
        d.spec_opposite().spec_opposite() == d,
        d.spec_opposite().spec_unit().0 == -d.spec_unit().0,
        d.spec_opposite().spec_unit().1 == -d.spec_unit().1,
{
}

/// A pin location with its facing.
#[derive(Clone, Debug)]
pub struct PinLocation {
    /// Pin designator (e.g., "1", "VCC").
    pub designator: String,
    /// Pin name.
    pub name: String,
    /// Absolute location of the pin endpoint.
    pub location: CoordPoint,
    /// Direction the pin faces (for routing).
    pub direction: Direction,
}

/// A placed component reference.
#[derive(Clone, Debug)]
pub struct PlacedComponent {
    /// Index in the primitives list.
    pub index: usize,
    /// Component designator (e.g., "U1", "R1").
    pub designator: String,
    /// Library reference name.
    pub lib_reference: String,
    /// Bounding box.
    pub bounds: CoordRect,
    /// Pin locations (absolute coordinates).
    pub pin_locations: Vec<PinLocation>,
}

/// Wire segment for routing.
#[derive(Clone, Copy, Debug, PartialEq, Eq, Structural)]
pub struct WireSegment {
    /// Start point.
    pub start: CoordPoint,
    /// End point.
    pub end: CoordPoint,
}

/// Whether `p` lies on the line through `a` and `b` (zero cross product).
pub open spec fn collinear(a: CoordPoint, b: CoordPoint, p: CoordPoint) -> bool {
    (p.x.raw - a.x.raw) * (b.y.raw - a.y.raw) - (p.y.raw - a.y.raw) * (b.x.raw - a.x.raw) == 0
}

impl WireSegment {
    /// The normalised bounding box of the segment.
    pub open spec fn spec_bounds(self) -> CoordRect {
        CoordRect {
            location1: CoordPoint {
                x: Coord { raw: min_int(self.start.x.raw as int, self.end.x.raw as int) as i32 },
                y: Coord { raw: min_int(self.start.y.raw as int, self.end.y.raw as int) as i32 },
            },
            location2: CoordPoint {
                x: Coord { raw: max_int(self.start.x.raw as int, self.end.x.raw as int) as i32 },
                y: Coord { raw: max_int(self.start.y.raw as int, self.end.y.raw as int) as i32 },
            },
        }
    }

    /// Whether a point lies on the segment: inside its bounding box, and for
    /// a diagonal segment also on its line.
    pub open spec fn spec_contains(self, p: CoordPoint) -> bool {
        self.spec_bounds().spec_contains(p) && (self.start.y == self.end.y || self.start.x
            == self.end.x || collinear(self.start, self.end, p))
    }

    /// A new wire segment.
    pub fn new(start: CoordPoint, end: CoordPoint) -> (r: WireSegment)
        ensures
            r.start == start && r.end == end,
    {
        WireSegment { start, end }
    }

    /// Whether the segment is horizontal.
    pub fn is_horizontal(&self) -> (r: bool)
        ensures
            r == (self.start.y == self.end.y),
    {
        self.start.y.raw == self.end.y.raw
    }

    /// Whether the segment is vertical.
    pub fn is_vertical(&self) -> (r: bool)
        ensures
            r == (self.start.x == self.end.x),
    {
        self.start.x.raw == self.end.x.raw
    }

    /// The bounding box of the segment.
    pub fn bounds(&self) -> (r: CoordRect)
        ensures
            r == self.spec_bounds(),
    {
        CoordRect::new(self.start, self.end)
    }

    /// Whether a point lies on this segment.
    pub fn contains_point(&self, point: CoordPoint) -> (r: bool)
        ensures
            r == self.spec_contains(point),
    {
        let bounds = self.bounds();
        if !bounds.contains(point) {
            return false;
        }
        if self.is_horizontal() || self.is_vertical() {
            return true;
        }
        let dx1: i64 = point.x.raw as i64 - self.start.x.raw as i64;
        let dy1: i64 = point.y.raw as i64 - self.start.y.raw as i64;
        let dx2: i64 = self.end.x.raw as i64 - self.start.x.raw as i64;
        let dy2: i64 = self.end.y.raw as i64 - self.start.y.raw as i64;
        assert(-0x1_0000_0000_0000_0000 <= dx1 * dy2 <= 0x1_0000_0000_0000_0000) by (nonlinear_arith)
            requires
                -0x1_0000_0000 <= dx1 <= 0x1_0000_0000,
                -0x1_0000_0000 <= dy2 <= 0x1_0000_0000,
        ;
        assert(-0x1_0000_0000_0000_0000 <= dy1 * dx2 <= 0x1_0000_0000_0000_0000) by (nonlinear_arith)
            requires
                -0x1_0000_0000 <= dy1 <= 0x1_0000_0000,
                -0x1_0000_0000 <= dx2 <= 0x1_0000_0000,
        ;
        let c1: i128 = dx1 as i128 * dy2 as i128;
        let c2: i128 = dy1 as i128 * dx2 as i128;
        c1 - c2 == 0
    }
}

/// A routing path of wire segments, with its junctions.
#[derive(Clone, Debug)]
pub struct RoutingPath {
    /// Wire segments in order.
    pub segments: Vec<WireSegment>,
    /// Junction locations where wires connect.
    pub junctions: Vec<CoordPoint>,
}

/// Manhattan length of one segment.
pub open spec fn segment_length(s: WireSegment) -> int {
    abs_int(s.end.x.raw - s.start.x.raw) + abs_int(s.end.y.raw - s.start.y.raw)
}

/// Manhattan length of a path: the sum of its segments' lengths.
pub open spec fn path_length(s: Seq<WireSegment>) -> int
    decreases s.len(),
{
    if s.len() == 0 {
        0
    } else {
        path_length(s.drop_last()) + segment_length(s.last())
    }
}

/// The vertices of a path: the first segment's start, then every segment's
/// end.
pub open spec fn path_vertices(s: Seq<WireSegment>) -> Seq<CoordPoint> {
    if s.len() == 0 {
        Seq::empty()
    } else {
        seq![s[0].start] + s.map_values(|g: WireSegment| g.end)
    }
}

/// A path's length never decreases as segments are added.
pub proof fn lemma_path_length_monotone(s: Seq<WireSegment>, i: int)
    requires
        0 <= i <= s.len(),
    ensures
        0 <= path_length(s.take(i)) <= path_length(s),
    decreases s.len(),
{
    if s.len() > 0 {
        if i == s.len() {
            assert(s.take(i) =~= s);
            lemma_path_length_monotone(s.drop_last(), i - 1);
            assert(s.drop_last().take(i - 1) =~= s.take(i - 1));
        } else {
            lemma_path_length_monotone(s.drop_last(), i);
            assert(s.drop_last().take(i) =~= s.take(i));
        }
    }
}

impl RoutingPath {
    /// An empty path.
    pub fn new() -> (r: RoutingPath)
        ensures
            r.segments@.len() == 0,
            r.junctions@.len() == 0,
    {
        RoutingPath { segments: Vec::new(), junctions: Vec::new() }
    }

    /// Append a segment to the path.
    pub fn add_segment(&mut self, segment: WireSegment)
        ensures
            final(self).segments@ == old(self).segments@.push(segment),
            final(self).junctions@ == old(self).junctions@,
    {
        self.segments.push(segment);
    }

    /// All vertices of the path.
    pub fn vertices(&self) -> (r: Vec<CoordPoint>)
        ensures
            r@ == path_vertices(self.segments@),
    {
        if self.segments.len() == 0 {
            return Vec::new();
        }
        let mut out: Vec<CoordPoint> = Vec::new();
        out.push(self.segments[0].start);
        let mut i: usize = 0;
        while i < self.segments.len()
            invariant
                i <= self.segments@.len(),
                self.segments@.len() > 0,
                out@ == seq![self.segments@[0].start] + self.segments@.take(i as int).map_values(
                    |g: WireSegment| g.end,
                ),
            decreases self.segments@.len() - i,
        {
            out.push(self.segments[i].end);
            assert(self.segments@.take(i + 1).map_values(|g: WireSegment| g.end)
                =~= self.segments@.take(i as int).map_values(|g: WireSegment| g.end).push(
                self.segments@[i as int].end,
            ));
            i = i + 1;
        }
        assert(self.segments@.take(i as int) =~= self.segments@);
        out
    }

    /// The Manhattan length of the path.
    pub fn total_length(&self) -> (r: Coord)
        requires
            fits_i32(path_length(self.segments@)),
            forall|i: int|
                0 <= i < self.segments@.len() ==> {
                    let g = #[trigger] self.segments@[i];
                    fits_i32(g.end.x.raw - g.start.x.raw) && fits_i32(g.end.y.raw - g.start.y.raw)
                        && g.end.x.raw - g.start.x.raw != i32::MIN && g.end.y.raw - g.start.y.raw
                        != i32::MIN
                },
        ensures
            r.raw == path_length(self.segments@),
    {
        let mut length: i32 = 0;
        let mut i: usize = 0;
        while i < self.segments.len()
            invariant
                i <= self.segments@.len(),
                length == path_length(self.segments@.take(i as int)),
                fits_i32(path_length(self.segments@)),
                forall|k: int|
                    0 <= k < self.segments@.len() ==> {
                        let g = #[trigger] self.segments@[k];
                        fits_i32(g.end.x.raw - g.start.x.raw) && fits_i32(g.end.y.raw - g.start.y.raw)
                            && g.end.x.raw - g.start.x.raw != i32::MIN && g.end.y.raw
                            - g.start.y.raw != i32::MIN
                    },
            decreases self.segments@.len() - i,
        {
            let g = self.segments[i];
            proof {
                assert(self.segments@.take(i + 1).drop_last() =~= self.segments@.take(i as int));
                lemma_path_length_monotone(self.segments@, i + 1);
                lemma_path_length_monotone(self.segments@, i as int);
            }
            let dx = g.end.x.sub(g.start.x).abs();
            let dy = g.end.y.sub(g.start.y).abs();
            length = length + dx.raw + dy.raw;
            i = i + 1;
        }
        assert(self.segments@.take(i as int) =~= self.segments@);
        Coord { raw: length }
    }
}

/// Types of validation errors.
#[derive(Clone, Copy, Debug, PartialEq, Eq, Structural)]
pub enum ValidationErrorKind {
    /// Components overlap.
    ComponentOverlap,
    /// Wire crosses component.
    WireCrossesComponent,
    /// Unconnected pin.
    UnconnectedPin,
    /// Missing junction.
    MissingJunction,
    /// Duplicate designator.
    DuplicateDesignator,
    /// Invalid net connection.
    InvalidNetConnection,
    /// Off-grid placement.
    OffGrid,
}

/// Validation error for schematic edits.
#[derive(Clone, Debug)]
pub struct ValidationError {
    /// Error type.
    pub kind: ValidationErrorKind,
    /// Human-readable message.
    pub message: String,
    /// Location of the error (if applicable).
    pub location: Option<CoordPoint>,
    /// Related component designators.
    pub components: Vec<String>,
}

/// Edit operation for undo/redo.
#[derive(Debug)]
pub enum EditOperation {
    /// Add a component.
    AddComponent { index: usize, designator: String },
    /// Remove a component.
    RemoveComponent { index: usize, designator: String },
    /// Move a component.
    MoveComponent { index: usize, from: CoordPoint, to: CoordPoint },
    /// Add a wire.
    AddWire { index: usize },
    /// Remove a wire.
    RemoveWire { index: usize },
    /// Add a junction.
    AddJunction { index: usize, location: CoordPoint },
    /// Add a net label.
    AddNetLabel { index: usize, net_name: String },
    /// Add a power port.
    AddPowerPort { index: usize, net_name: String },
    /// Batch operation containing multiple operations.
    Batch { operations: Vec<EditOperation> },
}

} // verus!
