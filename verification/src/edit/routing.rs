//! Wire routing on a schematic sheet.
//!
//! A route between two points is, in order of preference: one straight
//! segment, an L of two segments (horizontal first, then vertical first), or
//! a walk over the grid found by a best-first search that steps around
//! component bodies, with its collinear steps merged into segments.
use vstd::prelude::*;

use std::collections::{HashMap, HashSet};

use crate::edit::layout::{
    anchors_fit, component_at, component_box, component_indices, expand, expanded_fit, rect_view,
    squares_fit, LayoutEngine,
};
use crate::edit::netlist::{all_segments, collect_segments, seg_view};
use crate::edit::sch_records::SchRecord;
use crate::edit::types::{Direction, Grid, RoutingPath, WireSegment};
use crate::types::{fits_i32, max_int, min_int, Coord, CoordPoint, CoordRect};

verus! {

broadcast use vstd::std_specs::hash::group_hash_axioms;

/// Cost of a grid step that keeps the direction.
const STRAIGHT_COST: i64 = 1;

/// Extra cost of a grid step that turns.
const TURN_COST: i64 = 2;

/// Extra cost of a grid step that crosses an existing wire.
const CROSSING_COST: i64 = 5;

/// How far component bounds shrink before they become obstacles (5 mils),
/// so that wires may end on pins at the body's edge.
pub const OBSTACLE_MARGIN: i32 = 50000;

/// Routes wires between points around obstacles.
pub struct RoutingEngine {
    grid: Grid,
    obstacles: Vec<CoordRect>,
    existing_wires: Vec<WireSegment>,
    max_iterations: usize,
}

/// The segment from `a` to `b`.
pub open spec fn seg(a: CoordPoint, b: CoordPoint) -> WireSegment {
    WireSegment { start: a, end: b }
}

/// The endpoints of a segment as integer pairs.
pub open spec fn wire_view(w: WireSegment) -> ((int, int), (int, int)) {
    ((w.start.x.raw as int, w.start.y.raw as int), (w.end.x.raw as int, w.end.y.raw as int))
}

/// Whether two rectangles share a point, edges included.
pub open spec fn rects_intersect(a: CoordRect, b: CoordRect) -> bool {
    a.location1.x.raw <= b.location2.x.raw && b.location1.x.raw <= a.location2.x.raw
        && a.location1.y.raw <= b.location2.y.raw && b.location1.y.raw <= a.location2.y.raw
}

/// Whether a horizontal or vertical segment runs into a rectangle: it lies
/// within the rectangle's span across it and overlaps the open span along
/// it. A diagonal segment never does.
pub open spec fn line_hits_rect(s: WireSegment, r: CoordRect) -> bool {
    let x1 = s.start.x.raw as int;
    let y1 = s.start.y.raw as int;
    let x2 = s.end.x.raw as int;
    let y2 = s.end.y.raw as int;
    let rx1 = r.location1.x.raw as int;
    let ry1 = r.location1.y.raw as int;
    let rx2 = r.location2.x.raw as int;
    let ry2 = r.location2.y.raw as int;
    if y1 == y2 {
        ry1 <= y1 <= ry2 && max_int(x1, x2) > rx1 && min_int(x1, x2) < rx2
    } else if x1 == x2 {
        rx1 <= x1 <= rx2 && max_int(y1, y2) > ry1 && min_int(y1, y2) < ry2
    } else {
        false
    }
}

/// Whether some obstacle blocks a segment.
pub open spec fn segment_blocked(s: WireSegment, obs: Seq<CoordRect>) -> bool {
    exists|i: int|
        0 <= i < obs.len() && rects_intersect(s.spec_bounds(), #[trigger] obs[i]) && line_hits_rect(s, obs[i])
}

/// Whether some obstacle holds a point, edges included.
pub open spec fn point_blocked(p: CoordPoint, obs: Seq<CoordRect>) -> bool {
    exists|i: int| 0 <= i < obs.len() && (#[trigger] obs[i]).spec_contains(p)
}

/// Whether the straight segment from `s` to `e` is horizontal or vertical
/// and unblocked.
pub open spec fn direct_free(s: CoordPoint, e: CoordPoint, obs: Seq<CoordRect>) -> bool {
    (s.y == e.y || s.x == e.x) && !segment_blocked(seg(s, e), obs)
}

/// The corner of the L that runs horizontally first.
pub open spec fn corner_h(s: CoordPoint, e: CoordPoint) -> CoordPoint {
    CoordPoint { x: e.x, y: s.y }
}

/// The corner of the L that runs vertically first.
pub open spec fn corner_v(s: CoordPoint, e: CoordPoint) -> CoordPoint {
    CoordPoint { x: s.x, y: e.y }
}

/// Whether both legs through the corner `c` are unblocked.
pub open spec fn via_free(s: CoordPoint, c: CoordPoint, e: CoordPoint, obs: Seq<CoordRect>) -> bool {
    !segment_blocked(seg(s, c), obs) && !segment_blocked(seg(c, e), obs)
}

/// The obstacles among the first `n` that equal none of the excluded
/// rectangles, in order.
pub open spec fn kept_obstacles(obs: Seq<CoordRect>, ex: Seq<CoordRect>, n: nat) -> Seq<CoordRect>
    decreases n,
{
    if n == 0 {
        Seq::empty()
    } else {
        kept_obstacles(obs, ex, (n - 1) as nat) + if ex.contains(obs[n - 1]) {
            Seq::<CoordRect>::empty()
        } else {
            seq![obs[n - 1]]
        }
    }
}

/// Whether `b` lies one grid step from `a`, along an axis.
pub open spec fn grid_step(a: CoordPoint, b: CoordPoint, step: int) -> bool {
    ||| b.y == a.y && (b.x.raw == a.x.raw + step || b.x.raw == a.x.raw - step)
    ||| b.x == a.x && (b.y.raw == a.y.raw + step || b.y.raw == a.y.raw - step)
}

/// A walk of grid steps from `s` to `e` that visits no point twice and
/// whose inner points all lie outside every obstacle.
pub open spec fn clear_walk(w: Seq<CoordPoint>, s: CoordPoint, e: CoordPoint, obs: Seq<CoordRect>, step: int) -> bool {
    &&& w.len() >= 1
    &&& w[0] == s
    &&& w.last() == e
    &&& forall|i: int| 0 <= i < w.len() - 1 ==> grid_step(#[trigger] w[i], w[i + 1], step)
    &&& forall|i: int| 0 < i < w.len() - 1 ==> !point_blocked(#[trigger] w[i], obs)
    &&& forall|i: int, j: int| 0 <= i < j < w.len() ==> w[i] != w[j]
}

/// Whether `curr` continues the line from `prev` to `next` along one axis.
pub open spec fn continues(prev: CoordPoint, curr: CoordPoint, next: CoordPoint) -> bool {
    (curr.x == prev.x && next.x == curr.x) || (curr.y == prev.y && next.y == curr.y)
}

/// The points kept of `vs[..n]` after dropping each inner point that
/// continues the line from the last point kept.
pub open spec fn kept_points(vs: Seq<CoordPoint>, n: nat) -> Seq<CoordPoint>
    decreases n,
{
    if n <= 1 {
        seq![vs[0]]
    } else {
        let s = kept_points(vs, (n - 1) as nat);
        if continues(s.last(), vs[n - 1], vs[n as int]) {
            s
        } else {
            s.push(vs[n - 1])
        }
    }
}

/// A point list with the inner points that continue a straight run removed.
pub open spec fn simplify(vs: Seq<CoordPoint>) -> Seq<CoordPoint> {
    if vs.len() <= 2 {
        vs
    } else {
        kept_points(vs, (vs.len() - 1) as nat).push(vs.last())
    }
}

/// The segments between consecutive points.
pub open spec fn pairs(vs: Seq<CoordPoint>) -> Seq<WireSegment> {
    Seq::new(
        if vs.len() == 0 {
            0nat
        } else {
            (vs.len() - 1) as nat
        },
        |i: int| seg(vs[i], vs[i + 1]),
    )
}

/// Whether segments come from a clear walk between `s` and `e`.
pub open spec fn searched_path(segs: Seq<WireSegment>, s: CoordPoint, e: CoordPoint, obs: Seq<CoordRect>, step: int) -> bool {
    exists|w: Seq<CoordPoint>| clear_walk(w, s, e, obs, step) && segs == pairs(simplify(w))
}

/// A point snapped to the grid.
pub open spec fn snapped(g: Grid, p: CoordPoint) -> CoordPoint {
    CoordPoint {
        x: Coord { raw: g.spec_snap_raw(p.x.raw as int) as i32 },
        y: Coord { raw: g.spec_snap_raw(p.y.raw as int) as i32 },
    }
}

/// What a route between the grid points `s` and `e` gives: the straight
/// segment when it is free, else the first free L, else a searched path or
/// nothing.
pub open spec fn route_ok(step: int, obs: Seq<CoordRect>, s: CoordPoint, e: CoordPoint, r: Option<RoutingPath>) -> bool {
    match r {
        Some(p) => p.junctions@.len() == 0 && if direct_free(s, e, obs) {
            p.segments@ == seq![seg(s, e)]
        } else if via_free(s, corner_h(s, e), e, obs) {
            p.segments@ == seq![seg(s, corner_h(s, e)), seg(corner_h(s, e), e)]
        } else if via_free(s, corner_v(s, e), e, obs) {
            p.segments@ == seq![seg(s, corner_v(s, e)), seg(corner_v(s, e), e)]
        } else {
            searched_path(p.segments@, s, e, obs, step)
        },
        None => !direct_free(s, e, obs) && !via_free(s, corner_h(s, e), e, obs) && !via_free(
            s,
            corner_v(s, e),
            e,
            obs,
        ),
    }
}

/// Whether segments run horizontally or vertically, each starting where the
/// last ended, from `s` to `e` (no segments when `s` is `e`).
pub open spec fn rectilinear_from_to(segs: Seq<WireSegment>, s: CoordPoint, e: CoordPoint) -> bool {
    &&& segs.len() == 0 ==> s == e
    &&& segs.len() > 0 ==> segs[0].start == s && segs.last().end == e
    &&& forall|i: int| 0 <= i < segs.len() - 1 ==> (#[trigger] segs[i]).end == segs[i + 1].start
    &&& forall|i: int|
        0 <= i < segs.len() ==> (#[trigger] segs[i]).start.x == segs[i].end.x || segs[i].start.y
            == segs[i].end.y
}

/// Where a horizontal and a vertical segment meet, edges included; `None`
/// for two parallel segments or a pair without a horizontal one.
pub open spec fn crossing_point(s1: WireSegment, s2: WireSegment) -> Option<CoordPoint> {
    let h1 = s1.start.y == s1.end.y;
    let v1 = s1.start.x == s1.end.x;
    let h2 = s2.start.y == s2.end.y;
    let v2 = s2.start.x == s2.end.x;
    if (h1 && h2) || (v1 && v2) {
        None
    } else if !h1 && !(v1 && h2) {
        None
    } else {
        let h = if h1 {
            s1
        } else {
            s2
        };
        let v = if h1 {
            s2
        } else {
            s1
        };
        let hy = h.start.y.raw as int;
        let vx = v.start.x.raw as int;
        if min_int(h.start.x.raw as int, h.end.x.raw as int) <= vx <= max_int(h.start.x.raw as int, h.end.x.raw as int)
            && min_int(v.start.y.raw as int, v.end.y.raw as int) <= hy <= max_int(
            v.start.y.raw as int,
            v.end.y.raw as int,
        ) {
            Some(CoordPoint { x: v.start.x, y: h.start.y })
        } else {
            None
        }
    }
}

/// Whether a horizontal and a vertical segment cross strictly inside both.
pub open spec fn crosses(s1: WireSegment, s2: WireSegment) -> bool {
    let h1 = s1.start.y == s1.end.y;
    let v1 = s1.start.x == s1.end.x;
    let h2 = s2.start.y == s2.end.y;
    let v2 = s2.start.x == s2.end.x;
    if (h1 && h2) || (v1 && v2) {
        false
    } else if !h1 && !(v1 && h2) {
        false
    } else {
        let h = if h1 {
            s1
        } else {
            s2
        };
        let v = if h1 {
            s2
        } else {
            s1
        };
        let hy = h.start.y.raw as int;
        let vx = v.start.x.raw as int;
        min_int(h.start.x.raw as int, h.end.x.raw as int) < vx < max_int(h.start.x.raw as int, h.end.x.raw as int)
            && min_int(v.start.y.raw as int, v.end.y.raw as int) < hy < max_int(
            v.start.y.raw as int,
            v.end.y.raw as int,
        )
    }
}

/// Whether a point is a junction of a path with the wires: where one of the
/// path's segments meets a wire, other than at that segment's ends.
pub open spec fn is_junction(segs: Seq<WireSegment>, wires: Seq<WireSegment>, p: CoordPoint) -> bool {
    exists|i: int, j: int|
        0 <= i < segs.len() && 0 <= j < wires.len() && crossing_point(#[trigger] segs[i], #[trigger] wires[j])
            == Some(p) && p != segs[i].start && p != segs[i].end
}

/// Points ordered by x, then by y.
pub open spec fn point_lt(a: CoordPoint, b: CoordPoint) -> bool {
    a.x.raw < b.x.raw || (a.x.raw == b.x.raw && a.y.raw < b.y.raw)
}

/// Whether points are in strictly increasing order.
pub open spec fn strictly_sorted(s: Seq<CoordPoint>) -> bool {
    forall|i: int, j: int| 0 <= i < j < s.len() ==> point_lt(#[trigger] s[i], #[trigger] s[j])
}

impl RoutingEngine {
    /// The grid that routes snap to.
    pub closed spec fn spec_grid(&self) -> Grid {
        self.grid
    }

    /// The obstacles.
    pub closed spec fn spec_obstacles(&self) -> Seq<CoordRect> {
        self.obstacles@
    }

    /// The wires already on the sheet.
    pub closed spec fn spec_wires(&self) -> Seq<WireSegment> {
        self.existing_wires@
    }

    /// The most nodes a grid search expands.
    pub closed spec fn spec_max_iterations(&self) -> usize {
        self.max_iterations
    }

    /// A routing engine with the default grid, no obstacles, no wires and a
    /// search limit of 10000 nodes.
    pub fn new() -> (r: Self)
        ensures
            r.spec_grid().spacing.raw == 100000 && r.spec_grid().snap_enabled,
            r.spec_obstacles().len() == 0,
            r.spec_wires().len() == 0,
            r.spec_max_iterations() == 10000,
    {
        RoutingEngine {
            grid: Grid::default_grid(),
            obstacles: Vec::new(),
            existing_wires: Vec::new(),
            max_iterations: 10000,
        }
    }

    /// The grid that routes snap to.
    pub fn grid_ref(&self) -> (r: &Grid)
        ensures
            *r == self.spec_grid(),
    {
        &self.grid
    }

    /// Sets the grid.
    pub fn set_grid(&mut self, grid: Grid)
        ensures
            final(self).spec_grid() == grid,
            final(self).spec_obstacles() == old(self).spec_obstacles(),
            final(self).spec_wires() == old(self).spec_wires(),
            final(self).spec_max_iterations() == old(self).spec_max_iterations(),
    {
        self.grid = grid;
    }

    /// Sets the search limit.
    pub fn set_max_iterations(&mut self, max: usize)
        ensures
            final(self).spec_max_iterations() == max,
            final(self).spec_grid() == old(self).spec_grid(),
            final(self).spec_obstacles() == old(self).spec_obstacles(),
            final(self).spec_wires() == old(self).spec_wires(),
    {
        self.max_iterations = max;
    }

    /// Replaces the obstacles by the bounds of the placed components, each
    /// shrunk by the margin, and the wires by the segments of the wire
    /// records.
    pub fn update_obstacles(&mut self, primitives: &[SchRecord], layout: &LayoutEngine)
        requires
            anchors_fit(primitives@),
            squares_fit(primitives@),
            expanded_fit(primitives@, -OBSTACLE_MARGIN),
        ensures
            final(self).spec_obstacles().len() == component_indices(primitives@, primitives@.len()).len(),
            forall|k: int|
                0 <= k < final(self).spec_obstacles().len() ==> {
                    let c = component_indices(primitives@, primitives@.len())[k];
                    rect_view(#[trigger] final(self).spec_obstacles()[k]) == expand(
                        component_box(primitives@, c, component_at(primitives@, c)),
                        -OBSTACLE_MARGIN,
                    )
                },
            final(self).spec_wires().map_values(|w: WireSegment| wire_view(w)) == all_segments(primitives@),
            final(self).spec_grid() == old(self).spec_grid(),
            final(self).spec_max_iterations() == old(self).spec_max_iterations(),
    {
        let placed = layout.get_placed_components(primitives);
        let ghost cis = component_indices(primitives@, primitives@.len());
        let mut obstacles: Vec<CoordRect> = Vec::new();
        let mut i: usize = 0;
        while i < placed.len()
            invariant
                i <= placed@.len(),
                placed@.len() == cis.len(),
                cis == component_indices(primitives@, primitives@.len()),
                expanded_fit(primitives@, -OBSTACLE_MARGIN),
                forall|k: int|
                    0 <= k < placed@.len() ==> rect_view((#[trigger] placed@[k]).bounds) == component_box(
                        primitives@,
                        cis[k],
                        component_at(primitives@, cis[k]),
                    ),
                obstacles@.len() == i,
                forall|k: int|
                    0 <= k < i ==> rect_view(#[trigger] obstacles@[k]) == expand(
                        component_box(primitives@, cis[k], component_at(primitives@, cis[k])),
                        -OBSTACLE_MARGIN,
                    ),
            decreases placed@.len() - i,
        {
            let b = placed[i].bounds;
            proof {
                let e = expand(component_box(primitives@, cis[i as int], component_at(primitives@, cis[i as int])), -OBSTACLE_MARGIN);
                assert(fits_i32(e.0) && fits_i32(e.1) && fits_i32(e.2) && fits_i32(e.3));
            }
            obstacles.push(
                CoordRect::from_points(
                    Coord { raw: b.location1.x.raw + OBSTACLE_MARGIN },
                    Coord { raw: b.location1.y.raw + OBSTACLE_MARGIN },
                    Coord { raw: b.location2.x.raw - OBSTACLE_MARGIN },
                    Coord { raw: b.location2.y.raw - OBSTACLE_MARGIN },
                ),
            );
            i = i + 1;
        }
        let segs = collect_segments(primitives);
        let mut wires: Vec<WireSegment> = Vec::new();
        let mut j: usize = 0;
        while j < segs.len()
            invariant
                j <= segs@.len(),
                wires@.len() == j,
                forall|k: int| 0 <= k < j ==> wire_view(#[trigger] wires@[k]) == seg_view(segs@[k]),
            decreases segs@.len() - j,
        {
            let s = segs[j];
            wires.push(
                WireSegment {
                    start: CoordPoint { x: Coord { raw: s.0.0 }, y: Coord { raw: s.0.1 } },
                    end: CoordPoint { x: Coord { raw: s.1.0 }, y: Coord { raw: s.1.1 } },
                },
            );
            j = j + 1;
        }
        assert(wires@.map_values(|w: WireSegment| wire_view(w)) =~= segs@.map_values(
            |s: ((i32, i32), (i32, i32))| seg_view(s),
        ));
        self.obstacles = obstacles;
        self.existing_wires = wires;
    }
}

/// Whether two rectangles share a point.
pub(crate) fn rects_intersect_exec(a: &CoordRect, b: &CoordRect) -> (r: bool)
    ensures
        r == rects_intersect(*a, *b),
{
    a.location1.x.raw <= b.location2.x.raw && b.location1.x.raw <= a.location2.x.raw
        && a.location1.y.raw <= b.location2.y.raw && b.location1.y.raw <= a.location2.y.raw
}

/// Whether a horizontal or vertical segment runs into a rectangle.
fn line_intersects_rect(segment: &WireSegment, rect: &CoordRect) -> (r: bool)
    ensures
        r == line_hits_rect(*segment, *rect),
{
    let x1 = segment.start.x.raw;
    let y1 = segment.start.y.raw;
    let x2 = segment.end.x.raw;
    let y2 = segment.end.y.raw;
    let rx1 = rect.location1.x.raw;
    let ry1 = rect.location1.y.raw;
    let rx2 = rect.location2.x.raw;
    let ry2 = rect.location2.y.raw;
    if segment.is_horizontal() {
        if y1 < ry1 || y1 > ry2 {
            return false;
        }
        let (min_x, max_x) = if x1 < x2 {
            (x1, x2)
        } else {
            (x2, x1)
        };
        return max_x > rx1 && min_x < rx2;
    }
    if segment.is_vertical() {
        if x1 < rx1 || x1 > rx2 {
            return false;
        }
        let (min_y, max_y) = if y1 < y2 {
            (y1, y2)
        } else {
            (y2, y1)
        };
        return max_y > ry1 && min_y < ry2;
    }
    false
}

/// Whether some obstacle blocks a segment.
fn segment_blocked_by(segment: &WireSegment, obstacles: &[CoordRect]) -> (r: bool)
    ensures
        r == segment_blocked(*segment, obstacles@),
{
    let bounds = segment.bounds();
    let mut i: usize = 0;
    while i < obstacles.len()
        invariant
            i <= obstacles@.len(),
            bounds == segment.spec_bounds(),
            forall|k: int|
                0 <= k < i ==> !(rects_intersect(segment.spec_bounds(), #[trigger] obstacles@[k])
                    && line_hits_rect(*segment, obstacles@[k])),
        decreases obstacles@.len() - i,
    {
        if rects_intersect_exec(&bounds, &obstacles[i]) {
            if line_intersects_rect(segment, &obstacles[i]) {
                return true;
            }
        }
        i = i + 1;
    }
    false
}

/// Whether some obstacle holds a point.
fn point_blocked_by(point: CoordPoint, obstacles: &[CoordRect]) -> (r: bool)
    ensures
        r == point_blocked(point, obstacles@),
{
    let mut i: usize = 0;
    while i < obstacles.len()
        invariant
            i <= obstacles@.len(),
            forall|k: int| 0 <= k < i ==> !(#[trigger] obstacles@[k]).spec_contains(point),
        decreases obstacles@.len() - i,
    {
        if obstacles[i].contains(point) {
            return true;
        }
        i = i + 1;
    }
    false
}

/// The straight path, when the segment is horizontal or vertical and free.
fn try_direct_path_with(start: CoordPoint, end: CoordPoint, obstacles: &[CoordRect]) -> (r: Option<RoutingPath>)
    ensures
        match r {
            Some(p) => direct_free(start, end, obstacles@) && p.segments@ == seq![seg(start, end)]
                && p.junctions@.len() == 0,
            None => !direct_free(start, end, obstacles@),
        },
{
    let segment = WireSegment::new(start, end);
    if !segment.is_horizontal() && !segment.is_vertical() {
        return None;
    }
    if segment_blocked_by(&segment, obstacles) {
        return None;
    }
    let mut path = RoutingPath::new();
    path.add_segment(segment);
    Some(path)
}

/// The first free L: horizontal first, then vertical first.
fn try_l_path_with(start: CoordPoint, end: CoordPoint, obstacles: &[CoordRect]) -> (r: Option<RoutingPath>)
    ensures
        match r {
            Some(p) => p.junctions@.len() == 0 && if via_free(start, corner_h(start, end), end, obstacles@) {
                p.segments@ == seq![seg(start, corner_h(start, end)), seg(corner_h(start, end), end)]
            } else {
                via_free(start, corner_v(start, end), end, obstacles@) && p.segments@ == seq![
                    seg(start, corner_v(start, end)),
                    seg(corner_v(start, end), end),
                ]
            },
            None => !via_free(start, corner_h(start, end), end, obstacles@) && !via_free(
                start,
                corner_v(start, end),
                end,
                obstacles@,
            ),
        },
{
    let corner1 = CoordPoint::new(end.x, start.y);
    let seg1_h = WireSegment::new(start, corner1);
    let seg2_v = WireSegment::new(corner1, end);
    if !segment_blocked_by(&seg1_h, obstacles) && !segment_blocked_by(&seg2_v, obstacles) {
        let mut path = RoutingPath::new();
        path.add_segment(seg1_h);
        path.add_segment(seg2_v);
        return Some(path);
    }
    let corner2 = CoordPoint::new(start.x, end.y);
    let seg1_v = WireSegment::new(start, corner2);
    let seg2_h = WireSegment::new(corner2, end);
    if !segment_blocked_by(&seg1_v, obstacles) && !segment_blocked_by(&seg2_h, obstacles) {
        let mut path = RoutingPath::new();
        path.add_segment(seg1_v);
        path.add_segment(seg2_h);
        return Some(path);
    }
    None
}

/// The obstacles that equal none of the excluded rectangles.
fn filter_obstacles(obstacles: &Vec<CoordRect>, exclude_rects: &[CoordRect]) -> (r: Vec<CoordRect>)
    ensures
        r@ == kept_obstacles(obstacles@, exclude_rects@, obstacles@.len()),
{
    let mut out: Vec<CoordRect> = Vec::new();
    let mut i: usize = 0;
    while i < obstacles.len()
        invariant
            i <= obstacles@.len(),
            out@ == kept_obstacles(obstacles@, exclude_rects@, i as nat),
        decreases obstacles@.len() - i,
    {
        let o = obstacles[i];
        let mut excluded = false;
        let mut j: usize = 0;
        while j < exclude_rects.len()
            invariant
                j <= exclude_rects@.len(),
                excluded <==> exists|k: int| 0 <= k < j && exclude_rects@[k] == o,
            decreases exclude_rects@.len() - j,
        {
            let ex = exclude_rects[j];
            if o.location1.x.raw == ex.location1.x.raw && o.location1.y.raw == ex.location1.y.raw
                && o.location2.x.raw == ex.location2.x.raw && o.location2.y.raw == ex.location2.y.raw {
                excluded = true;
            }
            j = j + 1;
        }
        proof {
            if exists|k: int| 0 <= k < exclude_rects@.len() && exclude_rects@[k] == o {
                let k = choose|k: int| 0 <= k < exclude_rects@.len() && exclude_rects@[k] == o;
                assert(exclude_rects@.contains(o));
            }
            if exclude_rects@.contains(o) {
                let k = choose|k: int| 0 <= k < exclude_rects@.len() && exclude_rects@[k] == o;
                assert(excluded);
            }
        }
        if !excluded {
            out.push(o);
        }
        i = i + 1;
    }
    out
}

/// Whether two segments cross strictly inside both.
fn segments_intersect(s1: &WireSegment, s2: &WireSegment) -> (r: bool)
    ensures
        r == crosses(*s1, *s2),
{
    if (s1.is_horizontal() && s2.is_horizontal()) || (s1.is_vertical() && s2.is_vertical()) {
        return false;
    }
    let (h_seg, v_seg) = if s1.is_horizontal() {
        (s1, s2)
    } else if s1.is_vertical() && s2.is_horizontal() {
        (s2, s1)
    } else {
        return false;
    };
    let h_y = h_seg.start.y.raw;
    let h_x1 = if h_seg.start.x.raw <= h_seg.end.x.raw { h_seg.start.x.raw } else { h_seg.end.x.raw };
    let h_x2 = if h_seg.start.x.raw >= h_seg.end.x.raw { h_seg.start.x.raw } else { h_seg.end.x.raw };
    let v_x = v_seg.start.x.raw;
    let v_y1 = if v_seg.start.y.raw <= v_seg.end.y.raw { v_seg.start.y.raw } else { v_seg.end.y.raw };
    let v_y2 = if v_seg.start.y.raw >= v_seg.end.y.raw { v_seg.start.y.raw } else { v_seg.end.y.raw };
    v_x > h_x1 && v_x < h_x2 && h_y > v_y1 && h_y < v_y2
}

/// Where two segments meet, edges included.
fn find_intersection(s1: &WireSegment, s2: &WireSegment) -> (r: Option<CoordPoint>)
    ensures
        r == crossing_point(*s1, *s2),
{
    if (s1.is_horizontal() && s2.is_horizontal()) || (s1.is_vertical() && s2.is_vertical()) {
        return None;
    }
    let (h_seg, v_seg) = if s1.is_horizontal() {
        (s1, s2)
    } else if s1.is_vertical() && s2.is_horizontal() {
        (s2, s1)
    } else {
        return None;
    };
    let h_y = h_seg.start.y;
    let h_x1 = if h_seg.start.x.raw <= h_seg.end.x.raw { h_seg.start.x.raw } else { h_seg.end.x.raw };
    let h_x2 = if h_seg.start.x.raw >= h_seg.end.x.raw { h_seg.start.x.raw } else { h_seg.end.x.raw };
    let v_x = v_seg.start.x;
    let v_y1 = if v_seg.start.y.raw <= v_seg.end.y.raw { v_seg.start.y.raw } else { v_seg.end.y.raw };
    let v_y2 = if v_seg.start.y.raw >= v_seg.end.y.raw { v_seg.start.y.raw } else { v_seg.end.y.raw };
    if v_x.raw >= h_x1 && v_x.raw <= h_x2 && h_y.raw >= v_y1 && h_y.raw <= v_y2 {
        Some(CoordPoint::new(v_x, h_y))
    } else {
        None
    }
}

/// Whether `a` comes before `b`, by x and then y.
fn point_lt_exec(a: &CoordPoint, b: &CoordPoint) -> (r: bool)
    ensures
        r == point_lt(*a, *b),
{
    a.x.raw < b.x.raw || (a.x.raw == b.x.raw && a.y.raw < b.y.raw)
}

/// Inserts a point into a strictly sorted list unless it is there.
#[verifier::spinoff_prover]
fn insert_sorted(out: &mut Vec<CoordPoint>, p: CoordPoint)
    requires
        strictly_sorted(old(out)@),
    ensures
        strictly_sorted(final(out)@),
        forall|q: CoordPoint| final(out)@.contains(q) <==> (old(out)@.contains(q) || q == p),
{
    let mut i: usize = 0;
    while i < out.len() && point_lt_exec(&out[i], &p)
        invariant
            out@ == old(out)@,
            strictly_sorted(out@),
            i <= out@.len(),
            forall|k: int| 0 <= k < i ==> point_lt(#[trigger] out@[k], p),
        decreases out@.len() - i,
    {
        i = i + 1;
    }
    if i < out.len() && out[i] == p {
        assert(out@.contains(p));
        assert forall|q: CoordPoint| out@.contains(q) <==> (old(out)@.contains(q) || q == p) by {}
        return;
    }
    let ghost before = out@;
    assert(before == old(out)@);
    out.insert(i, p);
    proof {
        assert(out@ == before.subrange(0, i as int).push(p) + before.subrange(i as int, before.len() as int));
        assert forall|q: CoordPoint| out@.contains(q) implies (before.contains(q) || q == p) by {
            let k = choose|k: int| 0 <= k < out@.len() && out@[k] == q;
            if k < i {
                assert(before[k] == q);
            } else if k > i {
                assert(before[k - 1] == q);
            }
        }
        assert forall|q: CoordPoint| before.contains(q) implies out@.contains(q) by {
            let k = choose|k: int| 0 <= k < before.len() && before[k] == q;
            if k < i {
                assert(out@[k] == q);
            } else {
                assert(out@[k + 1] == q);
            }
        }
        assert(out@[i as int] == p);
        assert forall|a: int, b: int| 0 <= a < b < out@.len() implies point_lt(#[trigger] out@[a], #[trigger] out@[b]) by {
            if b < i {
                assert(out@[a] == before[a] && out@[b] == before[b]);
            } else if b == i {
                assert(out@[a] == before[a]);
            } else if a == i {
                assert(out@[b] == before[b - 1]);
                if b - 1 > i {
                    assert(point_lt(before[i as int], before[b - 1]));
                }
            } else if a < i {
                assert(out@[a] == before[a] && out@[b] == before[b - 1]);
            } else {
                assert(out@[a] == before[a - 1] && out@[b] == before[b - 1]);
            }
        }
    }
}

impl RoutingEngine {
    /// The points where a path meets the existing wires other than at its
    /// own segments' ends, each once, ordered by x and then y.
    pub fn find_junctions(&self, path: &RoutingPath) -> (r: Vec<CoordPoint>)
        ensures
            strictly_sorted(r@),
            forall|p: CoordPoint| r@.contains(p) <==> is_junction(path.segments@, self.spec_wires(), p),
    {
        let mut out: Vec<CoordPoint> = Vec::new();
        let mut i: usize = 0;
        while i < path.segments.len()
            invariant
                i <= path.segments@.len(),
                strictly_sorted(out@),
                forall|p: CoordPoint|
                    out@.contains(p) <==> is_junction(path.segments@.take(i as int), self.existing_wires@, p),
            decreases path.segments@.len() - i,
        {
            let segment = path.segments[i];
            let mut j: usize = 0;
            while j < self.existing_wires.len()
                invariant
                    i < path.segments@.len(),
                    segment == path.segments@[i as int],
                    j <= self.existing_wires@.len(),
                    strictly_sorted(out@),
                    forall|p: CoordPoint|
                        out@.contains(p) <==> (is_junction(path.segments@.take(i as int), self.existing_wires@, p)
                            || is_junction(seq![segment], self.existing_wires@.take(j as int), p)),
                decreases self.existing_wires@.len() - j,
            {
                let wire = self.existing_wires[j];
                let found = find_intersection(&segment, &wire);
                let ghost out0 = out@;
                match found {
                    Some(p) => {
                        if p != segment.start && p != segment.end {
                            insert_sorted(&mut out, p);
                        }
                    },
                    None => {},
                }
                proof {
                    let wires = self.existing_wires@;
                    assert forall|q: CoordPoint|
                        is_junction(seq![segment], wires.take(j + 1), q) <==> (is_junction(
                            seq![segment],
                            wires.take(j as int),
                            q,
                        ) || (crossing_point(segment, wire) == Some(q) && q != segment.start && q
                            != segment.end)) by {
                        if is_junction(seq![segment], wires.take(j + 1), q) {
                            let (a, b) = choose|a: int, b: int|
                                0 <= a < 1 && 0 <= b < j + 1 && crossing_point(
                                    #[trigger] seq![segment][a],
                                    #[trigger] wires.take(j + 1)[b],
                                ) == Some(q) && q != seq![segment][a].start && q != seq![segment][a].end;
                            if b < j {
                                assert(wires.take(j as int)[b] == wires.take(j + 1)[b]);
                            }
                        }
                        if is_junction(seq![segment], wires.take(j as int), q) {
                            let (a, b) = choose|a: int, b: int|
                                0 <= a < 1 && 0 <= b < j && crossing_point(
                                    #[trigger] seq![segment][a],
                                    #[trigger] wires.take(j as int)[b],
                                ) == Some(q) && q != seq![segment][a].start && q != seq![segment][a].end;
                            assert(wires.take(j + 1)[b] == wires.take(j as int)[b]);
                        }
                        if crossing_point(segment, wire) == Some(q) && q != segment.start && q != segment.end {
                            assert(wires.take(j + 1)[j as int] == wire);
                            assert(seq![segment][0] == segment);
                        }
                    }
                }
                j = j + 1;
            }
            proof {
                let segs = path.segments@;
                let wires = self.existing_wires@;
                assert(wires.take(j as int) =~= wires);
                assert forall|q: CoordPoint|
                    is_junction(segs.take(i + 1), wires, q) <==> (is_junction(segs.take(i as int), wires, q)
                        || is_junction(seq![segment], wires, q)) by {
                    if is_junction(segs.take(i + 1), wires, q) {
                        let (a, b) = choose|a: int, b: int|
                            0 <= a < i + 1 && 0 <= b < wires.len() && crossing_point(
                                #[trigger] segs.take(i + 1)[a],
                                #[trigger] wires[b],
                            ) == Some(q) && q != segs.take(i + 1)[a].start && q != segs.take(i + 1)[a].end;
                        if a < i {
                            assert(segs.take(i as int)[a] == segs.take(i + 1)[a]);
                        } else {
                            assert(seq![segment][0] == segs.take(i + 1)[a]);
                        }
                    }
                    if is_junction(segs.take(i as int), wires, q) {
                        let (a, b) = choose|a: int, b: int|
                            0 <= a < i && 0 <= b < wires.len() && crossing_point(
                                #[trigger] segs.take(i as int)[a],
                                #[trigger] wires[b],
                            ) == Some(q) && q != segs.take(i as int)[a].start && q != segs.take(i as int)[a].end;
                        assert(segs.take(i + 1)[a] == segs.take(i as int)[a]);
                    }
                    if is_junction(seq![segment], wires, q) {
                        let (a, b) = choose|a: int, b: int|
                            0 <= a < 1 && 0 <= b < wires.len() && crossing_point(
                                #[trigger] seq![segment][a],
                                #[trigger] wires[b],
                            ) == Some(q) && q != seq![segment][a].start && q != seq![segment][a].end;
                        assert(segs.take(i + 1)[i as int] == segment);
                    }
                }
            }
            i = i + 1;
        }
        assert(path.segments@.take(i as int) =~= path.segments@);
        out
    }
}

/// A node waiting in the grid search.
struct PathNode {
    position: CoordPoint,
    g_cost: i64,
    f_cost: i64,
    direction: Option<Direction>,
}

/// Costs at or above this are not expanded further; a step adds at most 8,
/// so the search reaches it only after far more steps than any limit allows
/// in practice, and every sum below stays within `i64`.
const COST_CEILING: i64 = 0x4000_0000_0000_0000;

/// The search key of a point: its two coordinates, each offset to be
/// non-negative, packed into 64 bits.
pub open spec fn key_of(p: CoordPoint) -> u64 {
    ((p.x.raw as int + 0x8000_0000) * 0x1_0000_0000 + (p.y.raw as int + 0x8000_0000)) as u64
}

/// Distinct points have distinct keys.
proof fn lemma_key_injective(p: CoordPoint, q: CoordPoint)
    requires
        key_of(p) == key_of(q),
    ensures
        p == q,
{
    let a = p.x.raw as int + 0x8000_0000;
    let b = p.y.raw as int + 0x8000_0000;
    let c = q.x.raw as int + 0x8000_0000;
    let d = q.y.raw as int + 0x8000_0000;
    assert(0 <= a * 0x1_0000_0000 + b <= 0xffff_ffff_ffff_ffff) by (nonlinear_arith)
        requires
            0 <= a < 0x1_0000_0000,
            0 <= b < 0x1_0000_0000,
    ;
    assert(0 <= c * 0x1_0000_0000 + d <= 0xffff_ffff_ffff_ffff) by (nonlinear_arith)
        requires
            0 <= c < 0x1_0000_0000,
            0 <= d < 0x1_0000_0000,
    ;
    assert(a * 0x1_0000_0000 + b == c * 0x1_0000_0000 + d);
    assert(a == c && b == d) by (nonlinear_arith)
        requires
            a * 0x1_0000_0000 + b == c * 0x1_0000_0000 + d,
            0 <= b < 0x1_0000_0000,
            0 <= d < 0x1_0000_0000,
    ;
    assert(p.x == q.x && p.y == q.y);
}

/// The search key of a point.
fn point_key(p: CoordPoint) -> (k: u64)
    ensures
        k == key_of(p),
{
    let a: u64 = (p.x.raw as i64 + 0x8000_0000) as u64;
    let b: u64 = (p.y.raw as i64 + 0x8000_0000) as u64;
    assert(a * 0x1_0000_0000 + b <= 0xffff_ffff_ffff_ffff) by (nonlinear_arith)
        requires
            a < 0x1_0000_0000,
            b < 0x1_0000_0000,
    ;
    a * 0x1_0000_0000 + b
}

/// Manhattan distance between two points.
fn heuristic(from: CoordPoint, to: CoordPoint) -> (r: i64)
    ensures
        r == manhattan((from, to)),
        0 <= r <= 0x2_0000_0000,
{
    let dx: i64 = to.x.raw as i64 - from.x.raw as i64;
    let dy: i64 = to.y.raw as i64 - from.y.raw as i64;
    let adx = if dx < 0 { -dx } else { dx };
    let ady = if dy < 0 { -dy } else { dy };
    adx + ady
}

/// What the grid search keeps true of a predecessor entry `k`: the entry
/// holds the point with that key and a predecessor one grid step away, of
/// lower cost, that is the start or has an entry itself and is not the end;
/// the point is outside the obstacles unless it is an end of the search.
pub open spec fn entry_ok(
    came: Map<u64, (CoordPoint, CoordPoint)>,
    g: Map<u64, i64>,
    k: u64,
    start: CoordPoint,
    end: CoordPoint,
    obs: Seq<CoordRect>,
    step: int,
) -> bool {
    let node = came[k].0;
    let prev = came[k].1;
    &&& key_of(node) == k
    &&& grid_step(prev, node, step)
    &&& g.contains_key(k) && g.contains_key(key_of(prev)) && g[key_of(prev)] < g[k]
    &&& (prev == start || came.contains_key(key_of(prev)))
    &&& prev != end
    &&& (!point_blocked(node, obs) || node == end || node == start)
}

/// The search's record of costs and predecessors.
pub open spec fn tables_ok(
    came: Map<u64, (CoordPoint, CoordPoint)>,
    g: Map<u64, i64>,
    start: CoordPoint,
    end: CoordPoint,
    obs: Seq<CoordRect>,
    step: int,
) -> bool {
    &&& g.contains_key(key_of(start)) && g[key_of(start)] == 0
    &&& forall|k: u64| g.contains_key(k) ==> g[k] >= 0
    &&& forall|k: u64| came.contains_key(k) ==> entry_ok(came, g, k, start, end, obs, step)
}

/// A node of the search: the start, or a point with an entry, costed no
/// lower than its recorded cost.
spec fn node_ok(n: PathNode, came: Map<u64, (CoordPoint, CoordPoint)>, g: Map<u64, i64>, start: CoordPoint) -> bool {
    &&& (n.position == start || came.contains_key(key_of(n.position)))
    &&& g.contains_key(key_of(n.position)) && g[key_of(n.position)] <= n.g_cost
}

/// The search's open list, cost table and predecessor table.
type SearchTables = (Seq<PathNode>, Map<u64, i64>, Map<u64, (CoordPoint, CoordPoint)>);

/// The neighbour that one relaxation step offers, if any: the point one step
/// `(dx, dy)` from the current node, when it lies in the coordinate range, is
/// not closed, is outside the obstacles (or an end of the search), and is
/// reached more cheaply than its recorded cost. A step costs 1, 2 more when
/// it turns away from the node's direction and 5 more when it crosses one of
/// `wires`; the estimate adds the Manhattan distance to `end`.
#[verifier::opaque]
spec fn relax_offer(
    wires: Seq<WireSegment>,
    cur: PathNode,
    dir: Direction,
    dx: int,
    dy: int,
    start: CoordPoint,
    end: CoordPoint,
    obs: Seq<CoordRect>,
    g: Map<u64, i64>,
    closed: Set<u64>,
) -> Option<PathNode> {
    let nx = cur.position.x.raw + dx;
    let ny = cur.position.y.raw + dy;
    if nx < i32::MIN || nx > i32::MAX || ny < i32::MIN || ny > i32::MAX {
        None
    } else {
        let next = CoordPoint { x: Coord { raw: nx as i32 }, y: Coord { raw: ny as i32 } };
        let k = key_of(next);
        let turn: int = match cur.direction {
            Some(p) => if p != dir {
                TURN_COST as int
            } else {
                0
            },
            None => 0,
        };
        let cross: int = if exists|j: int|
            0 <= j < wires.len() && crosses(seg(cur.position, next), #[trigger] wires[j]) {
            CROSSING_COST as int
        } else {
            0
        };
        let t = cur.g_cost + STRAIGHT_COST + turn + cross;
        if closed.contains(k) || (point_blocked(next, obs) && next != end && next != start) || (
        g.contains_key(k) && t >= g[k]) {
            None
        } else {
            Some(
                PathNode {
                    position: next,
                    g_cost: t as i64,
                    f_cost: (t + manhattan((next, end))) as i64,
                    direction: Some(dir),
                },
            )
        }
    }
}

/// The open list, costs and predecessors after one relaxation step.
spec fn relax_into(
    wires: Seq<WireSegment>,
    cur: PathNode,
    dir: Direction,
    dx: int,
    dy: int,
    start: CoordPoint,
    end: CoordPoint,
    obs: Seq<CoordRect>,
    t: SearchTables,
    closed: Set<u64>,
) -> SearchTables {
    match relax_offer(wires, cur, dir, dx, dy, start, end, obs, t.1, closed) {
        Some(n) => (
            t.0.push(n),
            t.1.insert(key_of(n.position), n.g_cost),
            t.2.insert(key_of(n.position), (n.position, cur.position)),
        ),
        None => t,
    }
}

/// The open list, costs and predecessors after a node is expanded: right,
/// left, up, down.
spec fn expand_node(
    wires: Seq<WireSegment>,
    step: int,
    cur: PathNode,
    start: CoordPoint,
    end: CoordPoint,
    obs: Seq<CoordRect>,
    t: SearchTables,
    closed: Set<u64>,
) -> SearchTables {
    let a = relax_into(wires, cur, Direction::Right, step, 0, start, end, obs, t, closed);
    let b = relax_into(wires, cur, Direction::Left, -step, 0, start, end, obs, a, closed);
    let c = relax_into(wires, cur, Direction::Up, 0, step, start, end, obs, b, closed);
    relax_into(wires, cur, Direction::Down, 0, -step, start, end, obs, c, closed)
}

/// The outcome of the search from an open list, cost table, predecessor
/// table, closed set and count of taken nodes: the predecessor table at the
/// moment the end is taken off the open list, or `None` when the open list
/// empties or `limit` nodes have been taken first. Each round takes the first
/// node of least estimate, skips it when closed, closes it, and expands it
/// unless its cost has reached the ceiling.
#[verifier::opaque]
spec fn search_outcome(
    wires: Seq<WireSegment>,
    step: int,
    limit: nat,
    start: CoordPoint,
    end: CoordPoint,
    obs: Seq<CoordRect>,
    t: SearchTables,
    closed: Set<u64>,
    it: nat,
) -> Option<Map<u64, (CoordPoint, CoordPoint)>>
    decreases limit - it,
{
    if t.0.len() == 0 || it >= limit {
        None
    } else {
        let cur = t.0[first_min_index(t.0)];
        let rest = (t.0.remove(first_min_index(t.0)), t.1, t.2);
        let k = key_of(cur.position);
        if k == key_of(end) {
            Some(t.2)
        } else if closed.contains(k) {
            search_outcome(wires, step, limit, start, end, obs, rest, closed, (it + 1) as nat)
        } else if cur.g_cost >= COST_CEILING {
            search_outcome(wires, step, limit, start, end, obs, rest, closed.insert(k), (it + 1) as nat)
        } else {
            let e = expand_node(wires, step, cur, start, end, obs, rest, closed.insert(k));
            search_outcome(wires, step, limit, start, end, obs, e, closed.insert(k), (it + 1) as nat)
        }
    }
}

/// Whether a search result matches the search's outcome: a path when the
/// end was reached, made of the simplified walk back along the recorded
/// predecessors, and none otherwise.
#[verifier::opaque]
spec fn found_as(outcome: Option<Map<u64, (CoordPoint, CoordPoint)>>, r: Option<RoutingPath>, start: CoordPoint, end: CoordPoint) -> bool {
    match outcome {
        Some(came) => match r {
            Some(path) => exists|w: Seq<CoordPoint>|
                follows_predecessors(came, w, start, end) && #[trigger] pairs(simplify(w)) == path.segments@,
            None => false,
        },
        None => r is None,
    }
}

/// A path from the walk back along the predecessors is the search's result.
proof fn lemma_found_as(came: Map<u64, (CoordPoint, CoordPoint)>, p: RoutingPath, w: Seq<CoordPoint>, start: CoordPoint, end: CoordPoint)
    requires
        follows_predecessors(came, w, start, end),
        p.segments@ == pairs(simplify(w)),
    ensures
        found_as(Some(came), Some(p), start, end),
{
    reveal(found_as);
    assert(follows_predecessors(came, w, start, end) && pairs(simplify(w)) == p.segments@);
}

/// No path is the result of a search that did not reach the end.
proof fn lemma_not_found_as(start: CoordPoint, end: CoordPoint)
    ensures
        found_as(None, None, start, end),
{
    reveal(found_as);
}

/// One round of the search, when the open list is not empty and the limit
/// not reached: the end is found, or the search goes on from the next tables.
proof fn lemma_outcome_round(
    wires: Seq<WireSegment>,
    step: int,
    limit: nat,
    start: CoordPoint,
    end: CoordPoint,
    obs: Seq<CoordRect>,
    t: SearchTables,
    closed: Set<u64>,
    it: nat,
)
    requires
        t.0.len() > 0,
        it < limit,
    ensures
        ({
            let cur = t.0[first_min_index(t.0)];
            let rest = (t.0.remove(first_min_index(t.0)), t.1, t.2);
            let k = key_of(cur.position);
            search_outcome(wires, step, limit, start, end, obs, t, closed, it) == if k == key_of(end) {
                Some(t.2)
            } else if closed.contains(k) {
                search_outcome(wires, step, limit, start, end, obs, rest, closed, (it + 1) as nat)
            } else if cur.g_cost >= COST_CEILING {
                search_outcome(wires, step, limit, start, end, obs, rest, closed.insert(k), (it + 1) as nat)
            } else {
                search_outcome(
                    wires,
                    step,
                    limit,
                    start,
                    end,
                    obs,
                    expand_node(wires, step, cur, start, end, obs, rest, closed.insert(k)),
                    closed.insert(k),
                    (it + 1) as nat,
                )
            }
        }),
{
    reveal(search_outcome);
}

/// The search ends without the end when the open list is empty or the limit
/// is reached.
proof fn lemma_outcome_stop(
    wires: Seq<WireSegment>,
    step: int,
    limit: nat,
    start: CoordPoint,
    end: CoordPoint,
    obs: Seq<CoordRect>,
    t: SearchTables,
    closed: Set<u64>,
    it: nat,
)
    requires
        t.0.len() == 0 || it >= limit,
    ensures
        search_outcome(wires, step, limit, start, end, obs, t, closed, it) is None,
{
    reveal(search_outcome);
}

/// Whether `w` runs from `start` to `end` by recorded predecessors: each
/// point after the first has an entry whose predecessor is the point before
/// it, and only the first point is `start`. Reading back from `end`, this
/// fixes `w`.
pub open spec fn follows_predecessors(
    came: Map<u64, (CoordPoint, CoordPoint)>,
    w: Seq<CoordPoint>,
    start: CoordPoint,
    end: CoordPoint,
) -> bool {
    &&& w.len() >= 1
    &&& w[0] == start
    &&& w.last() == end
    &&& forall|k: int| 1 <= k < w.len() ==> #[trigger] w[k] != start
    &&& forall|k: int|
        0 <= k < w.len() - 1 ==> came.contains_key(key_of(#[trigger] w[k + 1])) && came[key_of(w[k + 1])].1
            == w[k]
}

/// The search's tables at the outset: the start node open at cost 0, no
/// predecessors.
spec fn initial_tables(start: CoordPoint, end: CoordPoint) -> SearchTables {
    (
        seq![start_node(start, end)],
        Map::<u64, i64>::empty().insert(key_of(start), 0i64),
        Map::<u64, (CoordPoint, CoordPoint)>::empty(),
    )
}

/// The search's first node: the start, at cost 0.
spec fn start_node(start: CoordPoint, end: CoordPoint) -> PathNode {
    PathNode { position: start, g_cost: 0, f_cost: manhattan((start, end)) as i64, direction: None }
}

/// The tables only grow, and recorded costs only fall.
spec fn tables_grow(
    came0: Map<u64, (CoordPoint, CoordPoint)>,
    g0: Map<u64, i64>,
    came1: Map<u64, (CoordPoint, CoordPoint)>,
    g1: Map<u64, i64>,
) -> bool {
    &&& forall|k: u64| came0.contains_key(k) ==> came1.contains_key(k)
    &&& forall|k: u64| g0.contains_key(k) ==> g1.contains_key(k) && g1[k] <= g0[k]
}

/// A node stays a node of the search as the tables grow.
proof fn lemma_node_ok_grow(
    n: PathNode,
    came0: Map<u64, (CoordPoint, CoordPoint)>,
    g0: Map<u64, i64>,
    came1: Map<u64, (CoordPoint, CoordPoint)>,
    g1: Map<u64, i64>,
    start: CoordPoint,
)
    requires
        node_ok(n, came0, g0, start),
        tables_grow(came0, g0, came1, g1),
    ensures
        node_ok(n, came1, g1, start),
{
}

/// The index of the first node of least estimated cost in a non-empty list.
spec fn first_min_index(s: Seq<PathNode>) -> int
    decreases s.len(),
{
    if s.len() <= 1 {
        0
    } else {
        let b = first_min_index(s.drop_last());
        if s.last().f_cost < s[b].f_cost {
            s.len() - 1
        } else {
            b
        }
    }
}

/// The first least index is in range, no node costs less, and every node
/// before it costs more.
proof fn lemma_first_min_index(s: Seq<PathNode>)
    requires
        s.len() > 0,
    ensures
        0 <= first_min_index(s) < s.len(),
        forall|j: int| 0 <= j < s.len() ==> s[first_min_index(s)].f_cost <= #[trigger] s[j].f_cost,
        forall|j: int| 0 <= j < first_min_index(s) ==> s[first_min_index(s)].f_cost < #[trigger] s[j].f_cost,
    decreases s.len(),
{
    if s.len() > 1 {
        let t = s.drop_last();
        lemma_first_min_index(t);
        let b = first_min_index(t);
        let r = first_min_index(s);
        assert(t[b] == s[b]);
        assert forall|j: int| 0 <= j < s.len() implies s[r].f_cost <= #[trigger] s[j].f_cost by {
            if j < t.len() {
                assert(t[j] == s[j]);
            }
        }
        assert forall|j: int| 0 <= j < r implies s[r].f_cost < #[trigger] s[j].f_cost by {
            if j < t.len() {
                assert(t[j] == s[j]);
            }
        }
    }
}

/// The index of the first node of least estimated cost.
fn min_f_index(open_set: &Vec<PathNode>) -> (r: usize)
    requires
        open_set@.len() > 0,
    ensures
        r == first_min_index(open_set@),
        r < open_set@.len(),
        forall|j: int| 0 <= j < open_set@.len() ==> open_set@[r as int].f_cost <= #[trigger] open_set@[j].f_cost,
        forall|j: int| 0 <= j < r ==> open_set@[r as int].f_cost < #[trigger] open_set@[j].f_cost,
{
    let mut best: usize = 0;
    let mut i: usize = 1;
    while i < open_set.len()
        invariant
            best < i,
            1 <= i <= open_set@.len(),
            best == first_min_index(open_set@.take(i as int)),
        decreases open_set@.len() - i,
    {
        proof {
            let t = open_set@.take(i + 1);
            assert(t.drop_last() =~= open_set@.take(i as int));
            assert(t[best as int] == open_set@[best as int]);
        }
        if open_set[i].f_cost < open_set[best].f_cost {
            best = i;
        }
        i = i + 1;
    }
    assert(open_set@.take(i as int) =~= open_set@);
    proof {
        lemma_first_min_index(open_set@);
    }
    best
}

/// The points kept of a list, with the inner points that continue a
/// straight run removed.
fn simplify_vertices(vertices: &Vec<CoordPoint>) -> (r: Vec<CoordPoint>)
    ensures
        r@ == simplify(vertices@),
{
    let n = vertices.len();
    if n <= 2 {
        let mut copy: Vec<CoordPoint> = Vec::new();
        let mut i: usize = 0;
        while i < n
            invariant
                n == vertices@.len(),
                i <= n,
                copy@ == vertices@.take(i as int),
            decreases n - i,
        {
            copy.push(vertices[i]);
            assert(vertices@.take(i + 1) =~= vertices@.take(i as int).push(vertices@[i as int]));
            i = i + 1;
        }
        assert(vertices@.take(n as int) =~= vertices@);
        return copy;
    }
    let mut simplified: Vec<CoordPoint> = Vec::new();
    simplified.push(vertices[0]);
    assert(simplified@ =~= kept_points(vertices@, 1));
    let mut i: usize = 1;
    while i < n - 1
        invariant
            n == vertices@.len(),
            n > 2,
            1 <= i <= n - 1,
            simplified@ == kept_points(vertices@, i as nat),
            simplified@.len() >= 1,
        decreases n - i,
    {
        let prev = simplified[simplified.len() - 1];
        let curr = vertices[i];
        let next = vertices[i + 1];
        let collinear = (curr.x.raw == prev.x.raw && next.x.raw == curr.x.raw) || (curr.y.raw == prev.y.raw
            && next.y.raw == curr.y.raw);
        proof {
            assert(collinear == continues(prev, curr, next));
        }
        if !collinear {
            simplified.push(curr);
        }
        i = i + 1;
    }
    simplified.push(vertices[n - 1]);
    simplified
}

/// Follows the predecessor entries back from `end` to `start`, giving the
/// points met, `end` first.
#[verifier::rlimit(30)]
fn walk_back(
    came_from: &HashMap<u64, (CoordPoint, CoordPoint)>,
    Ghost(g): Ghost<Map<u64, i64>>,
    start: CoordPoint,
    end: CoordPoint,
    Ghost(obs): Ghost<Seq<CoordRect>>,
    Ghost(step): Ghost<int>,
) -> (rev: Vec<CoordPoint>)
    requires
        tables_ok(came_from@, g, start, end, obs, step),
        end == start || came_from@.contains_key(key_of(end)),
    ensures
        rev@.len() >= 1,
        rev@[0] == end,
        rev@.last() == start,
        forall|i: int| 0 <= i < rev@.len() ==> g.contains_key(key_of(#[trigger] rev@[i])),
        forall|i: int| 0 <= i < rev@.len() - 1 ==> grid_step(rev@[i + 1], #[trigger] rev@[i], step),
        forall|i: int| 0 <= i < rev@.len() - 1 ==> #[trigger] rev@[i] != start,
        forall|i: int| 0 < i < rev@.len() ==> #[trigger] rev@[i] != end && (rev@[i] == start || !point_blocked(rev@[i], obs)),
        forall|i: int, j: int| 0 <= i < j < rev@.len() ==> g[key_of(#[trigger] rev@[i])] > g[key_of(#[trigger] rev@[j])],
        forall|i: int|
            0 <= i < rev@.len() - 1 ==> came_from@.contains_key(key_of(#[trigger] rev@[i])) && came_from@[key_of(
                rev@[i],
            )].1 == rev@[i + 1],
{
    let mut rev: Vec<CoordPoint> = Vec::new();
    rev.push(end);
    let mut current = end;
    proof {
        if end != start {
            assert(entry_ok(came_from@, g, key_of(end), start, end, obs, step));
        }
    }
    while current != start
        invariant
            tables_ok(came_from@, g, start, end, obs, step),
            rev@.len() >= 1,
            rev@[0] == end,
            rev@.last() == current,
            current == start || came_from@.contains_key(key_of(current)),
            g.contains_key(key_of(current)),
            forall|i: int| 0 <= i < rev@.len() ==> g.contains_key(key_of(#[trigger] rev@[i])),
            forall|i: int| 0 <= i < rev@.len() - 1 ==> grid_step(rev@[i + 1], #[trigger] rev@[i], step),
            forall|i: int| 0 <= i < rev@.len() - 1 ==> #[trigger] rev@[i] != start,
            forall|i: int| 0 < i < rev@.len() ==> #[trigger] rev@[i] != end && (rev@[i] == start || !point_blocked(rev@[i], obs)),
            forall|i: int, j: int| 0 <= i < j < rev@.len() ==> g[key_of(#[trigger] rev@[i])] > g[key_of(#[trigger] rev@[j])],
            forall|i: int|
                0 <= i < rev@.len() - 1 ==> came_from@.contains_key(key_of(#[trigger] rev@[i])) && came_from@[key_of(
                    rev@[i],
                )].1 == rev@[i + 1],
        decreases g[key_of(current)],
    {
        let key = point_key(current);
        let entry = *came_from.get(&key).unwrap();
        let prev = entry.1;
        let ghost before = rev@;
        proof {
            assert(entry_ok(came_from@, g, key, start, end, obs, step));
            lemma_key_injective(entry.0, current);
            if prev != start {
                assert(entry_ok(came_from@, g, key_of(prev), start, end, obs, step));
                lemma_key_injective(came_from@[key_of(prev)].0, prev);
            }
        }
        rev.push(prev);
        proof {
            assert(rev@ == before.push(prev));
            assert forall|i: int, j: int| 0 <= i < j < rev@.len() implies g[key_of(#[trigger] rev@[i])] > g[key_of(#[trigger] rev@[j])] by {
                if j < before.len() {
                    assert(rev@[i] == before[i] && rev@[j] == before[j]);
                } else if i < before.len() - 1 {
                    assert(rev@[i] == before[i]);
                    assert(g[key_of(before[i])] > g[key_of(before[before.len() - 1])]);
                }
            }
            assert forall|i: int| 0 <= i < rev@.len() - 1 implies grid_step(rev@[i + 1], #[trigger] rev@[i], step) by {
                if i < before.len() - 1 {
                    assert(rev@[i] == before[i] && rev@[i + 1] == before[i + 1]);
                }
            }
            assert forall|i: int| 0 <= i < rev@.len() - 1 implies came_from@.contains_key(key_of(#[trigger] rev@[i]))
                && came_from@[key_of(rev@[i])].1 == rev@[i + 1] by {
                if i < before.len() - 1 {
                    assert(rev@[i] == before[i] && rev@[i + 1] == before[i + 1]);
                }
            }
        }
        current = prev;
    }
    rev
}

/// The reverse of a list of points.
fn reversed(rev: &Vec<CoordPoint>) -> (w: Vec<CoordPoint>)
    ensures
        w@.len() == rev@.len(),
        forall|k: int| 0 <= k < w@.len() ==> #[trigger] w@[k] == rev@[rev@.len() - 1 - k],
{
    let n = rev.len();
    let mut walk: Vec<CoordPoint> = Vec::new();
    let mut i: usize = 0;
    while i < n
        invariant
            n == rev@.len(),
            i <= n,
            walk@.len() == i,
            forall|k: int| 0 <= k < i ==> #[trigger] walk@[k] == rev@[n - 1 - k],
        decreases n - i,
    {
        walk.push(rev[n - 1 - i]);
        i = i + 1;
    }
    walk
}

/// The segments between consecutive points.
fn segments_between(points: &Vec<CoordPoint>) -> (path: RoutingPath)
    ensures
        path.segments@ == pairs(points@),
        path.junctions@.len() == 0,
{
    let n = points.len();
    let mut path = RoutingPath::new();
    if n == 0 {
        assert(pairs(points@) =~= Seq::<WireSegment>::empty());
        return path;
    }
    let mut j: usize = 0;
    while j < n - 1
        invariant
            n == points@.len(),
            n > 0,
            j <= n - 1,
            pairs(points@).len() == n - 1,
            path.segments@ == pairs(points@).take(j as int),
            path.junctions@.len() == 0,
        decreases n - j,
    {
        path.add_segment(WireSegment::new(points[j], points[j + 1]));
        assert(pairs(points@).take(j + 1) =~= pairs(points@).take(j as int).push(seg(points@[j as int], points@[j + 1])));
        j = j + 1;
    }
    assert(pairs(points@).take(j as int) =~= pairs(points@));
    path
}

/// Walks the predecessor entries back from the end to the start, giving the
/// walk from start to end with its straight runs merged into segments.
fn reconstruct_path(
    came_from: &HashMap<u64, (CoordPoint, CoordPoint)>,
    Ghost(g): Ghost<Map<u64, i64>>,
    start: CoordPoint,
    end: CoordPoint,
    Ghost(obs): Ghost<Seq<CoordRect>>,
    Ghost(step): Ghost<int>,
) -> (r: RoutingPath)
    requires
        tables_ok(came_from@, g, start, end, obs, step),
        end == start || came_from@.contains_key(key_of(end)),
    ensures
        r.junctions@.len() == 0,
        searched_path(r.segments@, start, end, obs, step),
        exists|w: Seq<CoordPoint>| follows_predecessors(came_from@, w, start, end) && r.segments@ == pairs(simplify(w)),
{
    let rev = walk_back(came_from, Ghost(g), start, end, Ghost(obs), Ghost(step));
    let walk = reversed(&rev);
    proof {
        let w = walk@;
        let n = rev@.len();
        assert(w[0] == start);
        assert(w.last() == end);
        assert forall|k: int| 0 <= k < w.len() - 1 implies grid_step(#[trigger] w[k], w[k + 1], step) by {
            assert(w[k] == rev@[n - 1 - k] && w[k + 1] == rev@[n - 2 - k]);
            assert(grid_step(rev@[(n - 2 - k) + 1], rev@[n - 2 - k], step));
        }
        assert forall|k: int| 0 < k < w.len() - 1 implies !point_blocked(#[trigger] w[k], obs) by {
            assert(w[k] == rev@[n - 1 - k]);
            assert(rev@[n - 1 - k] != start);
        }
        assert forall|a: int, b: int| 0 <= a < b < w.len() implies w[a] != w[b] by {
            assert(w[a] == rev@[n - 1 - a] && w[b] == rev@[n - 1 - b]);
            assert(g[key_of(rev@[n - 1 - b])] > g[key_of(rev@[n - 1 - a])]);
        }
        assert(clear_walk(w, start, end, obs, step));
        assert forall|k: int| 1 <= k < w.len() implies #[trigger] w[k] != start by {
            assert(w[k] == rev@[n - 1 - k]);
        }
        assert forall|k: int| 0 <= k < w.len() - 1 implies came_from@.contains_key(key_of(#[trigger] w[k + 1]))
            && came_from@[key_of(w[k + 1])].1 == w[k] by {
            assert(w[k] == rev@[n - 1 - k] && w[k + 1] == rev@[n - 2 - k]);
            assert(rev@[(n - 2 - k) + 1] == rev@[n - 1 - k]);
        }
        assert(follows_predecessors(came_from@, w, start, end));
    }
    let simplified = simplify_vertices(&walk);
    let path = segments_between(&simplified);
    path
}

impl RoutingEngine {
    /// Whether a segment crosses one of the existing wires.
    fn crosses_wire(&self, segment: &WireSegment) -> (r: bool)
        ensures
            r == exists|j: int| 0 <= j < self.existing_wires@.len() && crosses(*segment, #[trigger] self.existing_wires@[j]),
    {
        let mut j: usize = 0;
        while j < self.existing_wires.len()
            invariant
                j <= self.existing_wires@.len(),
                forall|k: int| 0 <= k < j ==> !crosses(*segment, #[trigger] self.existing_wires@[k]),
            decreases self.existing_wires@.len() - j,
        {
            if segments_intersect(segment, &self.existing_wires[j]) {
                return true;
            }
            j = j + 1;
        }
        false
    }

    /// Offers the neighbour one step from `current` in direction `dir`.
    fn relax(
        &self,
        current: &PathNode,
        dir: Direction,
        dx: i64,
        dy: i64,
        start: CoordPoint,
        end: CoordPoint,
        obstacles: &[CoordRect],
        open_set: &mut Vec<PathNode>,
        came_from: &mut HashMap<u64, (CoordPoint, CoordPoint)>,
        g_score: &mut HashMap<u64, i64>,
        closed_set: &HashSet<u64>,
    )
        requires
            tables_ok(old(came_from)@, old(g_score)@, start, end, obstacles@, self.grid.spacing.raw as int),
            forall|i: int| 0 <= i < old(open_set)@.len() ==> node_ok(#[trigger] old(open_set)@[i], old(came_from)@, old(g_score)@, start),
            node_ok(*current, old(came_from)@, old(g_score)@, start),
            current.position != end,
            current.g_cost < COST_CEILING,
            closed_set@.contains(key_of(current.position)),
            (dx == self.grid.spacing.raw && dy == 0) || (dx == -self.grid.spacing.raw && dy == 0)
                || (dx == 0 && dy == self.grid.spacing.raw) || (dx == 0 && dy == -self.grid.spacing.raw),
        ensures
            tables_ok(final(came_from)@, final(g_score)@, start, end, obstacles@, self.grid.spacing.raw as int),
            forall|i: int| 0 <= i < final(open_set)@.len() ==> node_ok(#[trigger] final(open_set)@[i], final(came_from)@, final(g_score)@, start),
            tables_grow(old(came_from)@, old(g_score)@, final(came_from)@, final(g_score)@),
            match relax_offer(
                self.existing_wires@,
                *current,
                dir,
                dx as int,
                dy as int,
                start,
                end,
                obstacles@,
                old(g_score)@,
                closed_set@,
            ) {
                Some(n) => final(open_set)@ == old(open_set)@.push(n) && final(g_score)@ == old(
                    g_score,
                )@.insert(key_of(n.position), n.g_cost) && final(came_from)@ == old(came_from)@.insert(
                    key_of(n.position),
                    (n.position, current.position),
                ),
                None => final(open_set)@ == old(open_set)@ && final(g_score)@ == old(g_score)@
                    && final(came_from)@ == old(came_from)@,
            },
    {
        reveal(relax_offer);
        let ghost step = self.grid.spacing.raw as int;
        let nx: i64 = current.position.x.raw as i64 + dx;
        let ny: i64 = current.position.y.raw as i64 + dy;
        if nx < i32::MIN as i64 || nx > i32::MAX as i64 || ny < i32::MIN as i64 || ny > i32::MAX as i64 {
            return;
        }
        let next_pos = CoordPoint { x: Coord { raw: nx as i32 }, y: Coord { raw: ny as i32 } };
        let next_key = point_key(next_pos);
        if closed_set.contains(&next_key) {
            return;
        }
        if point_blocked_by(next_pos, obstacles) && next_pos != end && next_pos != start {
            return;
        }
        let mut move_cost: i64 = STRAIGHT_COST;
        match current.direction {
            Some(prev_dir) => {
                if prev_dir != dir {
                    move_cost = move_cost + TURN_COST;
                }
            },
            None => {},
        }
        let test_segment = WireSegment::new(current.position, next_pos);
        assert(test_segment == seg(current.position, next_pos));
        if self.crosses_wire(&test_segment) {
            move_cost = move_cost + CROSSING_COST;
        }
        assert(next_pos == CoordPoint { x: Coord { raw: (current.position.x.raw + dx) as i32 }, y: Coord { raw: (current.position.y.raw + dy) as i32 } });
        let tentative_g = current.g_cost + move_cost;
        let better = match g_score.get(&next_key) {
            Some(old_g) => tentative_g < *old_g,
            None => true,
        };
        if better {
            let ghost came0 = came_from@;
            let ghost g0 = g_score@;
            proof {
                assert(next_key != key_of(start));
                assert(next_key != key_of(current.position));
                assert(grid_step(current.position, next_pos, step));
            }
            came_from.insert(next_key, (next_pos, current.position));
            g_score.insert(next_key, tentative_g);
            let h = heuristic(next_pos, end);
            open_set.push(PathNode { position: next_pos, g_cost: tentative_g, f_cost: tentative_g + h, direction: Some(dir) });
            proof {
                let came1 = came_from@;
                let g1 = g_score@;
                assert forall|k: u64| came1.contains_key(k) implies entry_ok(came1, g1, k, start, end, obstacles@, step) by {
                    if k != next_key {
                        assert(entry_ok(came0, g0, k, start, end, obstacles@, step));
                    }
                }
                assert forall|i: int| 0 <= i < open_set@.len() implies node_ok(#[trigger] open_set@[i], came1, g1, start) by {
                    if i < open_set@.len() - 1 {
                        assert(node_ok(old(open_set)@[i], came0, g0, start));
                    }
                }
            }
        }
    }

    /// Searches the grid from `start` to `end`, best estimated cost first:
    /// a step costs 1, 2 more when it turns and 5 more when it crosses a
    /// wire, and the estimate adds the Manhattan distance to the end. Points
    /// inside an obstacle are not entered, other than `start` and `end`.
    /// Gives up after expanding the iteration limit of nodes.
    #[verifier::rlimit(50)]
    fn route_astar_with(&self, start: CoordPoint, end: CoordPoint, obstacles: &[CoordRect]) -> (r: Option<RoutingPath>)
        ensures
            match r {
                Some(p) => p.junctions@.len() == 0 && searched_path(
                    p.segments@,
                    start,
                    end,
                    obstacles@,
                    self.grid.spacing.raw as int,
                ),
                None => true,
            },
            found_as(
                search_outcome(
                    self.existing_wires@,
                    self.grid.spacing.raw as int,
                    self.max_iterations as nat,
                    start,
                    end,
                    obstacles@,
                    initial_tables(start, end),
                    Set::<u64>::empty(),
                    0,
                ),
                r,
                start,
                end,
            ),
    {
        let ghost step = self.grid.spacing.raw as int;
        let mut open_set: Vec<PathNode> = Vec::new();
        let mut came_from: HashMap<u64, (CoordPoint, CoordPoint)> = HashMap::new();
        let mut g_score: HashMap<u64, i64> = HashMap::new();
        let mut closed_set: HashSet<u64> = HashSet::new();
        let start_key = point_key(start);
        let end_key = point_key(end);
        g_score.insert(start_key, 0);
        open_set.push(PathNode { position: start, g_cost: 0, f_cost: heuristic(start, end), direction: None });
        let grid_step = self.grid.spacing.raw as i64;
        let mut iterations: usize = 0;
        let ghost wires = self.existing_wires@;
        let ghost limit = self.max_iterations as nat;
        let ghost goal = search_outcome(wires, step, limit, start, end, obstacles@, initial_tables(start, end), Set::<u64>::empty(), 0);
        assert(open_set@ =~= seq![start_node(start, end)]);
        assert(g_score@ =~= Map::<u64, i64>::empty().insert(key_of(start), 0i64));
        assert(came_from@ =~= Map::<u64, (CoordPoint, CoordPoint)>::empty());
        assert(closed_set@ =~= Set::<u64>::empty());
        while open_set.len() > 0
            invariant
                wires == self.existing_wires@,
                limit == self.max_iterations as nat,
                goal == search_outcome(wires, step, limit, start, end, obstacles@, initial_tables(start, end), Set::<u64>::empty(), 0),
                search_outcome(wires, step, limit, start, end, obstacles@, (open_set@, g_score@, came_from@), closed_set@, iterations as nat) == goal,
                tables_ok(came_from@, g_score@, start, end, obstacles@, step),
                forall|i: int| 0 <= i < open_set@.len() ==> node_ok(#[trigger] open_set@[i], came_from@, g_score@, start),
                start_key == key_of(start),
                end_key == key_of(end),
                step == self.grid.spacing.raw as int,
                grid_step == step,
                iterations <= self.max_iterations,
            decreases self.max_iterations - iterations,
        {
            let ghost open0 = open_set@;
            let ghost g0 = g_score@;
            let ghost came0 = came_from@;
            let ghost closed0 = closed_set@;
            let ghost it0 = iterations as nat;
            let ghost obs = obstacles@;
            if iterations >= self.max_iterations {
                proof {
                    lemma_outcome_stop(wires, step, limit, start, end, obs, (open0, g0, came0), closed0, it0);
                    lemma_not_found_as(start, end);
                }
                return None;
            }
            iterations = iterations + 1;
            let idx = min_f_index(&open_set);
            let current = open_set.remove(idx);
            proof {
                assert(node_ok(current, came_from@, g_score@, start));
            }
            let current_key = point_key(current.position);
            let ghost rest = open0.remove(idx as int);
            assert(open_set@ == rest);
            assert(current == open0[first_min_index(open0)]);
            proof {
                lemma_outcome_round(wires, step, limit, start, end, obs, (open0, g0, came0), closed0, it0);
            }
            if current_key == end_key {
                proof {
                    lemma_key_injective(current.position, end);
                }
                assert(goal == Some(came0));
                let path = reconstruct_path(&came_from, Ghost(g_score@), start, end, Ghost(obstacles@), Ghost(step));
                proof {
                    let w = choose|w: Seq<CoordPoint>|
                        follows_predecessors(came_from@, w, start, end) && path.segments@ == pairs(simplify(w));
                    lemma_found_as(came0, path, w, start, end);
                }
                return Some(path);
            }
            if closed_set.contains(&current_key) {
                continue;
            }
            closed_set.insert(current_key);
            if current.g_cost >= COST_CEILING {
                continue;
            }
            let ghost cl = closed_set@;
            let ghost t0: SearchTables = (rest, g0, came0);
            assert(cl == closed0.insert(current_key));
            let ghost came_a = came_from@;
            let ghost g_a = g_score@;
            self.relax(&current, Direction::Right, grid_step, 0, start, end, obstacles, &mut open_set, &mut came_from, &mut g_score, &closed_set);
            let ghost t1: SearchTables = (open_set@, g_score@, came_from@);
            proof {
                lemma_node_ok_grow(current, came_a, g_a, came_from@, g_score@, start);
                assert(t1 == relax_into(wires, current, Direction::Right, step, 0, start, end, obs, t0, cl));
            }
            let ghost came_b = came_from@;
            let ghost g_b = g_score@;
            self.relax(&current, Direction::Left, -grid_step, 0, start, end, obstacles, &mut open_set, &mut came_from, &mut g_score, &closed_set);
            let ghost t2: SearchTables = (open_set@, g_score@, came_from@);
            proof {
                lemma_node_ok_grow(current, came_b, g_b, came_from@, g_score@, start);
                assert(t2 == relax_into(wires, current, Direction::Left, -step, 0, start, end, obs, t1, cl));
            }
            let ghost came_c = came_from@;
            let ghost g_c = g_score@;
            self.relax(&current, Direction::Up, 0, grid_step, start, end, obstacles, &mut open_set, &mut came_from, &mut g_score, &closed_set);
            let ghost t3: SearchTables = (open_set@, g_score@, came_from@);
            proof {
                lemma_node_ok_grow(current, came_c, g_c, came_from@, g_score@, start);
                assert(t3 == relax_into(wires, current, Direction::Up, 0, step, start, end, obs, t2, cl));
            }
            self.relax(&current, Direction::Down, 0, -grid_step, start, end, obstacles, &mut open_set, &mut came_from, &mut g_score, &closed_set);
            proof {
                let t4: SearchTables = (open_set@, g_score@, came_from@);
                assert(t4 == relax_into(wires, current, Direction::Down, 0, -step, start, end, obs, t3, cl));
                let e = expand_node(wires, step, current, start, end, obs, t0, cl);
                assert(t4 == e);
            }
        }
        proof {
            lemma_outcome_stop(wires, step, limit, start, end, obstacles@, (open_set@, g_score@, came_from@), closed_set@, iterations as nat);
            lemma_not_found_as(start, end);
        }
        None
    }
}

/// The points kept by simplification start at the first point, run
/// horizontally or vertically between each other, and reach the next point
/// of the walk along an axis.
proof fn lemma_kept_points_aligned(vs: Seq<CoordPoint>, step: int, n: nat)
    requires
        1 <= n < vs.len(),
        forall|i: int| 0 <= i < vs.len() - 1 ==> grid_step(#[trigger] vs[i], vs[i + 1], step),
    ensures
        kept_points(vs, n).len() >= 1,
        kept_points(vs, n)[0] == vs[0],
        forall|i: int|
            0 <= i < kept_points(vs, n).len() - 1 ==> (#[trigger] kept_points(vs, n)[i]).x == kept_points(vs, n)[i
                + 1].x || kept_points(vs, n)[i].y == kept_points(vs, n)[i + 1].y,
        kept_points(vs, n).last().x == vs[n as int].x || kept_points(vs, n).last().y == vs[n as int].y,
    decreases n,
{
    if n == 1 {
        assert(grid_step(vs[0], vs[1], step));
    } else {
        lemma_kept_points_aligned(vs, step, (n - 1) as nat);
        assert(grid_step(vs[n - 1], vs[n as int], step));
    }
}

/// A walk of grid steps, simplified, runs horizontally and vertically from
/// its first point to its last.
#[verifier::spinoff_prover]
proof fn lemma_simplified_rectilinear(w: Seq<CoordPoint>, step: int)
    requires
        w.len() >= 1,
        forall|i: int| 0 <= i < w.len() - 1 ==> grid_step(#[trigger] w[i], w[i + 1], step),
    ensures
        rectilinear_from_to(pairs(simplify(w)), w[0], w.last()),
{
    let v = simplify(w);
    if w.len() <= 2 {
        assert(v == w);
        if w.len() == 2 {
            assert(grid_step(w[0], w[1], step));
        }
    } else {
        lemma_kept_points_aligned(w, step, (w.len() - 1) as nat);
        let k = kept_points(w, (w.len() - 1) as nat);
        assert(v == k.push(w.last()));
        assert forall|i: int| 0 <= i < v.len() - 1 implies (#[trigger] v[i]).x == v[i + 1].x || v[i].y == v[i + 1].y by {
            if i < k.len() - 1 {
                assert(v[i] == k[i] && v[i + 1] == k[i + 1]);
            } else {
                assert(v[i] == k.last() && v[i + 1] == w.last());
            }
        }
    }
    let segs = pairs(v);
    assert(v.len() >= 1);
    assert forall|i: int| 0 <= i < segs.len() implies (#[trigger] segs[i]).start.x == segs[i].end.x || segs[i].start.y
        == segs[i].end.y by {
        assert(segs[i] == seg(v[i], v[i + 1]));
    }
}

/// Every route runs horizontally and vertically from the snapped start to
/// the snapped end, each segment starting where the last ended.
pub proof fn lemma_route_rectilinear(step: int, obs: Seq<CoordRect>, s: CoordPoint, e: CoordPoint, p: RoutingPath)
    requires
        route_ok(step, obs, s, e, Some(p)),
    ensures
        rectilinear_from_to(p.segments@, s, e),
{
    if direct_free(s, e, obs) {
    } else if via_free(s, corner_h(s, e), e, obs) {
    } else if via_free(s, corner_v(s, e), e, obs) {
    } else {
        let w = choose|w: Seq<CoordPoint>| clear_walk(w, s, e, obs, step) && p.segments@ == pairs(simplify(w));
        lemma_simplified_rectilinear(w, step);
    }
}

/// Excluding nothing keeps every obstacle.
proof fn lemma_kept_all(obs: Seq<CoordRect>, ex: Seq<CoordRect>, n: nat)
    requires
        ex.len() == 0,
        n <= obs.len(),
    ensures
        kept_obstacles(obs, ex, n) == obs.take(n as int),
    decreases n,
{
    if n > 0 {
        lemma_kept_all(obs, ex, (n - 1) as nat);
        assert(obs.take(n as int) =~= obs.take(n - 1).push(obs[n - 1]));
    }
}

/// The Manhattan length of a connection.
pub open spec fn manhattan(c: (CoordPoint, CoordPoint)) -> int {
    let dx = c.1.x.raw - c.0.x.raw;
    let dy = c.1.y.raw - c.0.y.raw;
    (if dx < 0 { -dx } else { dx }) + (if dy < 0 { -dy } else { dy })
}

/// Whether connection `a` routes before connection `b`: shorter first, and
/// in their given order when equally long.
pub open spec fn routes_before(conns: Seq<(CoordPoint, CoordPoint)>, a: int, b: int) -> bool {
    manhattan(conns[a]) < manhattan(conns[b]) || (manhattan(conns[a]) == manhattan(conns[b]) && a < b)
}

/// Whether `ord` lists every connection index once, in routing order.
pub open spec fn routing_order(conns: Seq<(CoordPoint, CoordPoint)>, ord: Seq<int>) -> bool {
    &&& ord.len() == conns.len()
    &&& forall|i: int| 0 <= i < ord.len() ==> 0 <= #[trigger] ord[i] < conns.len()
    &&& forall|i: int, j: int| 0 <= i < j < ord.len() ==> routes_before(conns, #[trigger] ord[i], #[trigger] ord[j])
}

/// The segments of the routes found, in order.
pub open spec fn added_segments(rs: Seq<Option<RoutingPath>>) -> Seq<WireSegment>
    decreases rs.len(),
{
    if rs.len() == 0 {
        Seq::empty()
    } else {
        added_segments(rs.drop_last()) + match rs.last() {
            Some(p) => p.segments@,
            None => Seq::empty(),
        }
    }
}

/// The Manhattan length of a connection.
fn connection_length(c: &(CoordPoint, CoordPoint)) -> (r: i64)
    ensures
        r == manhattan(*c),
{
    let dx: i64 = c.1.x.raw as i64 - c.0.x.raw as i64;
    let dy: i64 = c.1.y.raw as i64 - c.0.y.raw as i64;
    let adx = if dx < 0 { -dx } else { dx };
    let ady = if dy < 0 { -dy } else { dy };
    adx + ady
}

/// The connection indices in routing order.
fn order_connections(conns: &[(CoordPoint, CoordPoint)]) -> (ord: Vec<usize>)
    ensures
        routing_order(conns@, ord@.map_values(|i: usize| i as int)),
{
    let mut ord: Vec<usize> = Vec::new();
    let mut i: usize = 0;
    while i < conns.len()
        invariant
            i <= conns@.len(),
            ord@.len() == i,
            forall|k: int| 0 <= k < ord@.len() ==> #[trigger] ord@[k] < i,
            forall|a: int, b: int|
                0 <= a < b < ord@.len() ==> routes_before(conns@, #[trigger] ord@[a] as int, #[trigger] ord@[b] as int),
        decreases conns@.len() - i,
    {
        let d = connection_length(&conns[i]);
        let mut pos: usize = 0;
        while pos < ord.len() && connection_length(&conns[ord[pos]]) <= d
            invariant
                i < conns@.len(),
                d == manhattan(conns@[i as int]),
                pos <= ord@.len(),
                forall|k: int| 0 <= k < ord@.len() ==> #[trigger] ord@[k] < i,
                forall|k: int| 0 <= k < pos ==> manhattan(conns@[#[trigger] ord@[k] as int]) <= d,
            decreases ord@.len() - pos,
        {
            pos = pos + 1;
        }
        let ghost before = ord@;
        ord.insert(pos, i);
        proof {
            assert(ord@ == before.subrange(0, pos as int).push(i) + before.subrange(pos as int, before.len() as int));
            assert forall|k: int| 0 <= k < ord@.len() implies #[trigger] ord@[k] < i + 1 by {
                if k < pos {
                    assert(ord@[k] == before[k]);
                } else if k > pos {
                    assert(ord@[k] == before[k - 1]);
                }
            }
            assert forall|a: int, b: int| 0 <= a < b < ord@.len() implies routes_before(
                conns@,
                #[trigger] ord@[a] as int,
                #[trigger] ord@[b] as int,
            ) by {
                if b < pos {
                    assert(ord@[a] == before[a] && ord@[b] == before[b]);
                } else if b == pos {
                    assert(ord@[a] == before[a]);
                } else if a == pos {
                    assert(ord@[b] == before[b - 1]);
                    if pos < before.len() {
                        assert(manhattan(conns@[before[pos as int] as int]) > d);
                        if b - 1 > pos {
                            assert(routes_before(conns@, before[pos as int] as int, before[b - 1] as int));
                        }
                    }
                } else if a < pos {
                    assert(ord@[a] == before[a] && ord@[b] == before[b - 1]);
                } else {
                    assert(ord@[a] == before[a - 1] && ord@[b] == before[b - 1]);
                }
            }
        }
        i = i + 1;
    }
    proof {
        let m = ord@.map_values(|i: usize| i as int);
        assert forall|a: int, b: int| 0 <= a < b < m.len() implies routes_before(conns@, #[trigger] m[a], #[trigger] m[b]) by {
            assert(m[a] == ord@[a] as int && m[b] == ord@[b] as int);
        }
        assert forall|a: int| 0 <= a < m.len() implies 0 <= #[trigger] m[a] < conns@.len() by {
            assert(m[a] == ord@[a] as int);
        }
    }
    ord
}

impl RoutingEngine {
    /// Routes between two points, each first snapped to the grid, around the
    /// obstacles other than those equal to one of `exclude_rects`.
    pub fn route_excluding(&self, start: CoordPoint, end: CoordPoint, exclude_rects: &[CoordRect]) -> (r: Option<RoutingPath>)
        requires
            self.spec_grid().can_snap_raw(start.x.raw as int),
            self.spec_grid().can_snap_raw(start.y.raw as int),
            self.spec_grid().can_snap_raw(end.x.raw as int),
            self.spec_grid().can_snap_raw(end.y.raw as int),
        ensures
            route_ok(
                self.spec_grid().spacing.raw as int,
                kept_obstacles(self.spec_obstacles(), exclude_rects@, self.spec_obstacles().len()),
                snapped(self.spec_grid(), start),
                snapped(self.spec_grid(), end),
                r,
            ),
            r matches Some(p) ==> rectilinear_from_to(p.segments@, snapped(self.spec_grid(), start), snapped(self.spec_grid(), end)),
    {
        let start = self.grid.snap(start);
        let end = self.grid.snap(end);
        let filtered = filter_obstacles(&self.obstacles, exclude_rects);
        let ghost step = self.grid.spacing.raw as int;
        let r = match try_direct_path_with(start, end, filtered.as_slice()) {
            Some(path) => Some(path),
            None => match try_l_path_with(start, end, filtered.as_slice()) {
                Some(path) => Some(path),
                None => self.route_astar_with(start, end, filtered.as_slice()),
            },
        };
        proof {
            if r is Some {
                lemma_route_rectilinear(step, filtered@, start, end, r->0);
            }
        }
        r
    }

    /// Routes between two points, each first snapped to the grid, around all
    /// obstacles.
    pub fn route(&self, start: CoordPoint, end: CoordPoint) -> (r: Option<RoutingPath>)
        requires
            self.spec_grid().can_snap_raw(start.x.raw as int),
            self.spec_grid().can_snap_raw(start.y.raw as int),
            self.spec_grid().can_snap_raw(end.x.raw as int),
            self.spec_grid().can_snap_raw(end.y.raw as int),
        ensures
            route_ok(
                self.spec_grid().spacing.raw as int,
                self.spec_obstacles(),
                snapped(self.spec_grid(), start),
                snapped(self.spec_grid(), end),
                r,
            ),
            r matches Some(p) ==> rectilinear_from_to(p.segments@, snapped(self.spec_grid(), start), snapped(self.spec_grid(), end)),
    {
        let none: Vec<CoordRect> = Vec::new();
        proof {
            lemma_kept_all(self.spec_obstacles(), none@, self.spec_obstacles().len());
            assert(self.spec_obstacles().take(self.spec_obstacles().len() as int) =~= self.spec_obstacles());
        }
        self.route_excluding(start, end, none.as_slice())
    }

    /// Routes every connection, shortest first (ties in the given order),
    /// each route's segments joining the existing wires before the next is
    /// routed. The results come in routing order.
    pub fn auto_route_all(&mut self, connections: &[(CoordPoint, CoordPoint)]) -> (r: Vec<Option<RoutingPath>>)
        requires
            forall|i: int|
                0 <= i < connections@.len() ==> {
                    let c = #[trigger] connections@[i];
                    old(self).spec_grid().can_snap_raw(c.0.x.raw as int) && old(self).spec_grid().can_snap_raw(
                        c.0.y.raw as int,
                    ) && old(self).spec_grid().can_snap_raw(c.1.x.raw as int) && old(self).spec_grid().can_snap_raw(
                        c.1.y.raw as int,
                    )
                },
        ensures
            r@.len() == connections@.len(),
            exists|ord: Seq<int>|
                routing_order(connections@, ord) && forall|k: int|
                    0 <= k < r@.len() ==> route_ok(
                        old(self).spec_grid().spacing.raw as int,
                        old(self).spec_obstacles(),
                        snapped(old(self).spec_grid(), connections@[ord[k]].0),
                        snapped(old(self).spec_grid(), connections@[ord[k]].1),
                        #[trigger] r@[k],
                    ),
            final(self).spec_wires() == old(self).spec_wires() + added_segments(r@),
            final(self).spec_grid() == old(self).spec_grid(),
            final(self).spec_obstacles() == old(self).spec_obstacles(),
            final(self).spec_max_iterations() == old(self).spec_max_iterations(),
    {
        let ord = order_connections(connections);
        let ghost m = ord@.map_values(|i: usize| i as int);
        let ghost wires0 = self.existing_wires@;
        let mut results: Vec<Option<RoutingPath>> = Vec::new();
        let mut k: usize = 0;
        while k < ord.len()
            invariant
                routing_order(connections@, m),
                m == ord@.map_values(|i: usize| i as int),
                k <= ord@.len(),
                results@.len() == k,
                self.grid == old(self).grid,
                self.obstacles@ == old(self).obstacles@,
                self.max_iterations == old(self).max_iterations,
                self.existing_wires@ == wires0 + added_segments(results@),
                wires0 == old(self).existing_wires@,
                forall|i: int|
                    0 <= i < connections@.len() ==> {
                        let c = #[trigger] connections@[i];
                        self.spec_grid().can_snap_raw(c.0.x.raw as int) && self.spec_grid().can_snap_raw(
                            c.0.y.raw as int,
                        ) && self.spec_grid().can_snap_raw(c.1.x.raw as int) && self.spec_grid().can_snap_raw(
                            c.1.y.raw as int,
                        )
                    },
                forall|j: int|
                    0 <= j < k ==> route_ok(
                        old(self).spec_grid().spacing.raw as int,
                        old(self).spec_obstacles(),
                        snapped(old(self).spec_grid(), connections@[m[j]].0),
                        snapped(old(self).spec_grid(), connections@[m[j]].1),
                        #[trigger] results@[j],
                    ),
            decreases ord@.len() - k,
        {
            let idx = ord[k];
            assert(m[k as int] == idx as int);
            let c = connections[idx];
            let path = self.route(c.0, c.1);
            let ghost wires_before = self.existing_wires@;
            match &path {
                Some(p) => {
                    let mut t: usize = 0;
                    while t < p.segments.len()
                        invariant
                            t <= p.segments@.len(),
                            self.existing_wires@ == wires_before + p.segments@.take(t as int),
                            self.grid == old(self).grid,
                            self.obstacles@ == old(self).obstacles@,
                            self.max_iterations == old(self).max_iterations,
                        decreases p.segments@.len() - t,
                    {
                        self.existing_wires.push(p.segments[t]);
                        assert(p.segments@.take(t + 1) =~= p.segments@.take(t as int).push(p.segments@[t as int]));
                        t = t + 1;
                    }
                    assert(p.segments@.take(t as int) =~= p.segments@);
                },
                None => {
                    assert(wires_before + Seq::<WireSegment>::empty() =~= wires_before);
                },
            }
            let ghost results_before = results@;
            results.push(path);
            proof {
                assert(results@.drop_last() =~= results_before);
                assert(wires0 + added_segments(results@) =~= wires0 + added_segments(results_before) + match path {
                    Some(p) => p.segments@,
                    None => Seq::<WireSegment>::empty(),
                });
            }
            k = k + 1;
        }
        results
    }
}

impl Default for RoutingEngine {
    /// The same engine as `RoutingEngine::new`.
    fn default() -> (r: Self)
        ensures
            r.spec_grid().spacing.raw == 100000 && r.spec_grid().snap_enabled,
            r.spec_obstacles().len() == 0,
            r.spec_wires().len() == 0,
            r.spec_max_iterations() == 10000,
    {
        RoutingEngine::new()
    }
}

} // verus!
