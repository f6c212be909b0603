//! PCB edit session: positions, track/via/pad/region/polygon creation,
//! deletion, nets, queries and undo/redo.
//!
//! Every new primitive's coordinates are snapped to the session grid; a
//! coordinate that its computation or rounding would carry outside the
//! `i32` range is refused with an error.
use vstd::prelude::*;
use vstd::string::StringSliceAdditionalSpecFns;

use crate::edit::pcb_placement::{
    component_index, coord_or_zero, find_component_index, position_of, snap_point_checked,
    snap_point_wide, text_bytes, text_eq_ignore_case, BoardEdge, PcbPlacementEngine, PlacementAnchor,
};
use crate::edit::pcb_records::{
    HatchStyle, PcbArc, PcbBoard, PcbDocComponent, PcbFill, PcbPad, PcbPadShape, PcbPolygon, PcbRecord, PcbRegion,
    PcbText, PcbTrack, PcbVia, PrimitiveKind, PAD_LAYER_SLOTS,
};
use crate::edit::types::Grid;
use crate::error::{text, text2, text3, usize_text, AltiumError, Result};
use crate::params::{key_eq, lookup};
use crate::types::{
    div_trunc_i128, empty_rect, extend_box, extend_box_exec, fits_i32, trunc_div, Coord, CoordPoint, CoordRect,
    Layer,
};

verus! {

/// Position specification for PCB primitives.
#[derive(Clone, Debug)]
pub enum Position {
    /// Absolute position.
    Absolute(CoordPoint),
    /// Relative to another primitive by index.
    RelativeTo { reference_index: usize, offset: CoordPoint },
    /// Relative to a component by designator.
    RelativeToComponent { designator: String, offset: CoordPoint },
    /// Relative to a pad on a component.
    RelativeToPad { component: String, pad: String, offset: CoordPoint },
    /// Relative to a board edge.
    RelativeToEdge { edge: BoardEdge, offset: CoordPoint },
    /// Centre of the board.
    BoardCenter { offset: CoordPoint },
}

impl Position {
    /// An absolute position from coordinates.
    pub fn absolute(x: Coord, y: Coord) -> (r: Position)
        ensures
            r == Position::Absolute(CoordPoint { x, y }),
    {
        Position::Absolute(CoordPoint { x, y })
    }

    /// An absolute position from a point.
    pub fn at(point: CoordPoint) -> (r: Position)
        ensures
            r == Position::Absolute(point),
    {
        Position::Absolute(point)
    }

    /// A position relative to a component.
    pub fn relative_to_component(designator: &str, dx: Coord, dy: Coord) -> (r: Position)
        ensures
            r matches Position::RelativeToComponent { designator: d, offset } && d@ == designator@
                && offset == (CoordPoint { x: dx, y: dy }),
    {
        Position::RelativeToComponent { designator: text(designator), offset: CoordPoint { x: dx, y: dy } }
    }

    /// A position relative to a component pad.
    pub fn relative_to_pad(component: &str, pad: &str, dx: Coord, dy: Coord) -> (r: Position)
        ensures
            r matches Position::RelativeToPad { component: c, pad: p, offset } && c@ == component@
                && p@ == pad@ && offset == (CoordPoint { x: dx, y: dy }),
    {
        Position::RelativeToPad {
            component: text(component),
            pad: text(pad),
            offset: CoordPoint { x: dx, y: dy },
        }
    }

    /// A position relative to a board edge.
    pub fn from_edge(edge: BoardEdge, dx: Coord, dy: Coord) -> (r: Position)
        ensures
            r == (Position::RelativeToEdge { edge, offset: CoordPoint { x: dx, y: dy } }),
    {
        Position::RelativeToEdge { edge, offset: CoordPoint { x: dx, y: dy } }
    }
}

/// Track path specification.
#[derive(Clone, Debug)]
pub enum TrackPath {
    /// Direct line from start to end.
    Direct { start: Position, end: Position },
    /// Manhattan routing (90-degree angles only).
    Manhattan { start: Position, end: Position, prefer_horizontal_first: bool },
    /// Diagonal routing (45-degree angles).
    Diagonal45 { start: Position, end: Position },
    /// Explicit list of vertices.
    Vertices(Vec<Position>),
}

/// Edit operation for undo/redo.
#[derive(Clone, Debug)]
pub enum PcbEditOperation {
    AddTrack { index: usize },
    AddVia { index: usize },
    AddPad { index: usize },
    AddArc { index: usize },
    AddFill { index: usize },
    AddText { index: usize },
    AddRegion { index: usize },
    AddPolygon { index: usize },
    DeletePrimitive { index: usize, record: Box<PcbRecord> },
    ModifyPrimitive { index: usize, old: Box<PcbRecord>, new: Box<PcbRecord> },
    MoveComponent { designator: String, old_pos: CoordPoint, new_pos: CoordPoint },
}

/// PCB editing session.
pub struct PcbEditSession {
    /// The board being edited.
    pub doc: PcbBoard,
    placement: PcbPlacementEngine,
    history: Vec<PcbEditOperation>,
    redo_stack: Vec<PcbEditOperation>,
    source_path: Option<String>,
    modified: bool,
    default_track_width: Coord,
    default_via_diameter: Coord,
    default_via_hole: Coord,
    default_layer: Layer,
}

/// Primitive count statistics.
#[derive(Clone, Copy, Debug)]
pub struct PrimitiveCount {
    pub tracks: usize,
    pub vias: usize,
    pub pads: usize,
    pub arcs: usize,
    pub fills: usize,
    pub texts: usize,
    pub regions: usize,
    pub polygons: usize,
    pub other: usize,
}

impl PrimitiveCount {
    /// The sum of all counts.
    pub open spec fn spec_total(&self) -> int {
        self.tracks + self.vias + self.pads + self.arcs + self.fills + self.texts + self.regions
            + self.polygons + self.other
    }

    /// Total number of primitives.
    pub fn total(&self) -> (r: usize)
        requires
            self.spec_total() <= usize::MAX,
        ensures
            r == self.spec_total(),
    {
        self.tracks + self.vias + self.pads + self.arcs + self.fills + self.texts + self.regions
            + self.polygons + self.other
    }
}

// ---------------------------------------------------------------------------
// Specifications
// ---------------------------------------------------------------------------

/// Sum of x (or y) coordinates of points.
pub open spec fn sum_coords(s: Seq<CoordPoint>, on_x: bool) -> int
    decreases s.len(),
{
    if s.len() == 0 {
        0
    } else {
        sum_coords(s.drop_last(), on_x) + if on_x {
            s.last().x.raw as int
        } else {
            s.last().y.raw as int
        }
    }
}

/// The mean point of a point list, each coordinate rounded toward zero;
/// the origin for no points.
pub open spec fn mean_point(s: Seq<CoordPoint>) -> (int, int) {
    if s.len() == 0 {
        (0, 0)
    } else {
        (trunc_div(sum_coords(s, true), s.len() as int), trunc_div(sum_coords(s, false), s.len() as int))
    }
}

/// The centre of a primitive, the anchor of positions relative to it.
pub open spec fn primitive_center(p: PcbRecord) -> (int, int) {
    match p {
        PcbRecord::Track(t) => (
            trunc_div(t.start.x.raw + t.end.x.raw, 2),
            trunc_div(t.start.y.raw + t.end.y.raw, 2),
        ),
        PcbRecord::Via(v) => (v.location.x.raw as int, v.location.y.raw as int),
        PcbRecord::Pad(p) => (p.location.x.raw as int, p.location.y.raw as int),
        PcbRecord::Arc(a) => (a.location.x.raw as int, a.location.y.raw as int),
        PcbRecord::Fill(f) => (
            trunc_div(f.corner1.x.raw + f.corner2.x.raw, 2),
            trunc_div(f.corner1.y.raw + f.corner2.y.raw, 2),
        ),
        PcbRecord::Text(t) => (t.location.x.raw as int, t.location.y.raw as int),
        PcbRecord::Region(r) => mean_point(r.outline@),
        PcbRecord::Polygon(p) => mean_point(p.vertices@),
        PcbRecord::Other(_) => (0, 0),
    }
}

/// A component coordinate parameter, zero where missing or unparsable.
pub open spec fn component_coord(c: PcbDocComponent, key: Seq<u8>) -> int {
    match lookup(c.params@, key) {
        Some(v) => coord_or_zero(v) as int,
        None => 0,
    }
}

/// Index of the first pad with the designator (ASCII case ignored) among
/// primitives, or their number.
pub open spec fn pad_index(prims: Seq<PcbRecord>, d: Seq<u8>) -> int
    decreases prims.len(),
{
    if prims.len() == 0 {
        0
    } else {
        let i = pad_index(prims.drop_last(), d);
        if i < prims.len() - 1 {
            i
        } else if prims.last() matches PcbRecord::Pad(p) && key_eq(text_bytes(p.designator@), d) {
            prims.len() - 1
        } else {
            prims.len() as int
        }
    }
}

/// The points that make up the board's extent: track ends, via centres and
/// region outline points.
pub open spec fn extent_points(prims: Seq<PcbRecord>) -> Seq<CoordPoint>
    decreases prims.len(),
{
    if prims.len() == 0 {
        Seq::empty()
    } else {
        extent_points(prims.drop_last()) + match prims.last() {
            PcbRecord::Track(t) => seq![t.start, t.end],
            PcbRecord::Via(v) => seq![v.location],
            PcbRecord::Region(r) => r.outline@,
            _ => Seq::empty(),
        }
    }
}

/// The smallest rectangle holding the points (the empty rectangle for none).
pub open spec fn points_box(s: Seq<CoordPoint>) -> CoordRect
    decreases s.len(),
{
    if s.len() == 0 {
        empty_rect()
    } else {
        extend_box(points_box(s.drop_last()), s.last())
    }
}

/// Default board: 4000 x 3000 mil from the origin.
pub open spec fn default_board() -> CoordRect {
    CoordRect {
        location1: CoordPoint { x: Coord { raw: 0 }, y: Coord { raw: 0 } },
        location2: CoordPoint { x: Coord { raw: 40_000_000 }, y: Coord { raw: 30_000_000 } },
    }
}

/// The board bounds of a set of primitives.
pub open spec fn board_bounds(prims: Seq<PcbRecord>) -> CoordRect {
    let b = points_box(extent_points(prims));
    if b.spec_is_empty() {
        default_board()
    } else {
        b
    }
}

/// Where a position points before snapping; `Err` when it cannot be
/// resolved.
pub open spec fn position_target(
    doc: PcbBoard,
    bounds: Option<CoordRect>,
    pos: Position,
) -> core::result::Result<(int, int), ()> {
    match pos {
        Position::Absolute(p) => Ok((p.x.raw as int, p.y.raw as int)),
        Position::RelativeTo { reference_index, offset } => if reference_index < doc.primitives@.len() {
            let c = primitive_center(doc.primitives@[reference_index as int]);
            Ok((c.0 + offset.x.raw, c.1 + offset.y.raw))
        } else {
            Err(())
        },
        Position::RelativeToComponent { designator, offset } => match position_of(
            doc,
            text_bytes(designator@),
        ) {
            Some((x, y)) => Ok((x + offset.x.raw, y + offset.y.raw)),
            None => Err(()),
        },
        Position::RelativeToPad { component, pad, offset } => {
            let ci = component_index(doc.components@, text_bytes(component@));
            if ci < doc.components@.len() {
                let c = doc.components@[ci];
                let pi = pad_index(c.primitives@, text_bytes(pad@));
                if pi < c.primitives@.len() {
                    match c.primitives@[pi] {
                        PcbRecord::Pad(p) => Ok(
                            (
                                component_coord(c, "X".spec_bytes()) + p.location.x.raw + offset.x.raw,
                                component_coord(c, "Y".spec_bytes()) + p.location.y.raw + offset.y.raw,
                            ),
                        ),
                        _ => Err(()),
                    }
                } else {
                    Err(())
                }
            } else {
                Err(())
            }
        },
        Position::RelativeToEdge { edge, offset } => match bounds {
            Some(b) => {
                let cx = trunc_div(b.location1.x.raw + b.location2.x.raw, 2);
                let cy = trunc_div(b.location1.y.raw + b.location2.y.raw, 2);
                let base = match edge {
                    BoardEdge::Left => (b.location1.x.raw as int, cy),
                    BoardEdge::Right => (b.location2.x.raw as int, cy),
                    BoardEdge::Top => (cx, b.location2.y.raw as int),
                    BoardEdge::Bottom => (cx, b.location1.y.raw as int),
                };
                Ok((base.0 + offset.x.raw, base.1 + offset.y.raw))
            },
            None => Err(()),
        },
        Position::BoardCenter { offset } => {
            let b = board_bounds(doc.primitives@);
            Ok(
                (
                    trunc_div(b.location1.x.raw + b.location2.x.raw, 2) + offset.x.raw,
                    trunc_div(b.location1.y.raw + b.location2.y.raw, 2) + offset.y.raw,
                ),
            )
        },
    }
}

/// The point a position resolves to: its target snapped to the grid.
pub open spec fn resolved(doc: PcbBoard, bounds: Option<CoordRect>, g: Grid, pos: Position) -> Option<
    CoordPoint,
> {
    match position_target(doc, bounds, pos) {
        Ok((x, y)) => snap_point_checked(g, x, y),
        Err(_) => None,
    }
}

// ---------------------------------------------------------------------------
// Helpers
// ---------------------------------------------------------------------------

/// The mean point of a point list.
fn mean_point_exec(s: &Vec<CoordPoint>) -> (r: (i64, i64))
    ensures
        r.0 == mean_point(s@).0,
        r.1 == mean_point(s@).1,
        fits_i32(r.0 as int) && fits_i32(r.1 as int),
{
    if s.len() == 0 {
        return (0, 0);
    }
    let mut sx: i128 = 0;
    let mut sy: i128 = 0;
    let mut i: usize = 0;
    while i < s.len()
        invariant
            i <= s@.len(),
            sx == sum_coords(s@.take(i as int), true),
            sy == sum_coords(s@.take(i as int), false),
            -0x8000_0000 * (i as int) <= sx <= 0x7fff_ffff * (i as int),
            -0x8000_0000 * (i as int) <= sy <= 0x7fff_ffff * (i as int),
            s@.len() <= usize::MAX,
        decreases s@.len() - i,
    {
        assert(s@.take(i + 1).drop_last() =~= s@.take(i as int));
        sx = sx + s[i].x.raw as i128;
        sy = sy + s[i].y.raw as i128;
        i = i + 1;
    }
    assert(s@.take(i as int) =~= s@);
    let n = s.len() as i128;
    let mx = div_trunc_i128(sx, n);
    let my = div_trunc_i128(sy, n);
    proof {
        lemma_mean_fits(sx as int, n as int);
        lemma_mean_fits(sy as int, n as int);
    }
    (mx as i64, my as i64)
}

/// The mean of `n` values of `i32` fits in an `i32`.
proof fn lemma_mean_fits(s: int, n: int)
    requires
        n >= 1,
        -0x8000_0000 * n <= s <= 0x7fff_ffff * n,
    ensures
        fits_i32(trunc_div(s, n)),
{
    let q = crate::types::abs_int(s) / n;
    if s >= 0 {
        assert(q <= 0x7fff_ffff) by (nonlinear_arith)
            requires
                q == s / n,
                0 <= s <= 0x7fff_ffff * n,
                n >= 1,
        ;
    } else {
        assert(q <= 0x8000_0000) by (nonlinear_arith)
            requires
                q == (-s) / n,
                0 < -s <= 0x8000_0000 * n,
                n >= 1,
        ;
    }
}

/// The centre of a primitive.
fn primitive_center_exec(p: &PcbRecord) -> (r: (i64, i64))
    ensures
        r.0 == primitive_center(*p).0,
        r.1 == primitive_center(*p).1,
        fits_i32(r.0 as int) && fits_i32(r.1 as int),
{
    match p {
        PcbRecord::Track(t) => {
            let c = CoordRect::new(t.start, t.end).center();
            (c.x.raw as i64, c.y.raw as i64)
        },
        PcbRecord::Via(v) => (v.location.x.raw as i64, v.location.y.raw as i64),
        PcbRecord::Pad(p) => (p.location.x.raw as i64, p.location.y.raw as i64),
        PcbRecord::Arc(a) => (a.location.x.raw as i64, a.location.y.raw as i64),
        PcbRecord::Fill(f) => {
            let c = CoordRect::new(f.corner1, f.corner2).center();
            (c.x.raw as i64, c.y.raw as i64)
        },
        PcbRecord::Text(t) => (t.location.x.raw as i64, t.location.y.raw as i64),
        PcbRecord::Region(r) => mean_point_exec(&r.outline),
        PcbRecord::Polygon(p) => mean_point_exec(&p.vertices),
        PcbRecord::Other(_) => (0, 0),
    }
}

/// Index of the first pad with the designator among primitives.
fn find_pad_index(prims: &Vec<PcbRecord>, d: &str) -> (r: usize)
    ensures
        r == pad_index(prims@, d.spec_bytes()),
        r <= prims@.len(),
{
    let mut i: usize = 0;
    while i < prims.len()
        invariant
            i <= prims@.len(),
            pad_index(prims@.take(i as int), d.spec_bytes()) == i,
        decreases prims@.len() - i,
    {
        assert(prims@.take(i + 1).drop_last() =~= prims@.take(i as int));
        match &prims[i] {
            PcbRecord::Pad(p) => {
                if text_eq_ignore_case(p.designator.as_str(), d) {
                    proof {
                        lemma_pad_index_prefix(prims@, d.spec_bytes(), i as int);
                    }
                    return i;
                }
            },
            _ => {},
        }
        i = i + 1;
    }
    assert(prims@.take(i as int) =~= prims@);
    i
}

/// The first match in a prefix is the first match overall.
pub proof fn lemma_pad_index_prefix(prims: Seq<PcbRecord>, d: Seq<u8>, i: int)
    requires
        0 <= i < prims.len(),
        pad_index(prims.take(i + 1), d) == i,
    ensures
        pad_index(prims, d) == i,
    decreases prims.len(),
{
    if prims.len() > i + 1 {
        assert(prims.drop_last().take(i + 1) =~= prims.take(i + 1));
        lemma_pad_index_prefix(prims.drop_last(), d, i);
    } else {
        assert(prims.take(i + 1) =~= prims);
    }
}

/// A component coordinate parameter.
fn component_coord_exec(c: &PcbDocComponent, key: &str) -> (r: i32)
    ensures
        r == component_coord(*c, key.spec_bytes()),
{
    match c.params.get(key) {
        Some(v) => {
            let t = crate::edit::pcb_placement::trimmed_lower(v.as_bytes());
            match crate::edit::pcb_placement::coord_bytes_value(t.as_slice()) {
                Some(x) => x,
                None => 0,
            }
        },
        None => 0,
    }
}

/// The board bounds.
fn board_bounds_exec(prims: &Vec<PcbRecord>) -> (r: CoordRect)
    ensures
        r == board_bounds(prims@),
{
    let mut b = CoordRect::empty();
    let mut i: usize = 0;
    let ghost mut pts: Seq<CoordPoint> = Seq::empty();
    while i < prims.len()
        invariant
            i <= prims@.len(),
            pts == extent_points(prims@.take(i as int)),
            b == points_box(pts),
        decreases prims@.len() - i,
    {
        assert(prims@.take(i + 1).drop_last() =~= prims@.take(i as int));
        match &prims[i] {
            PcbRecord::Track(t) => {
                proof {
                    lemma_points_box_push(pts, t.start);
                    lemma_points_box_push(pts.push(t.start), t.end);
                    assert(pts + seq![t.start, t.end] =~= pts.push(t.start).push(t.end));
                }
                b = extend_box_exec(b, t.start);
                b = extend_box_exec(b, t.end);
                proof {
                    pts = pts + seq![t.start, t.end];
                }
            },
            PcbRecord::Via(v) => {
                proof {
                    lemma_points_box_push(pts, v.location);
                    assert(pts + seq![v.location] =~= pts.push(v.location));
                }
                b = extend_box_exec(b, v.location);
                proof {
                    pts = pts + seq![v.location];
                }
            },
            PcbRecord::Region(r) => {
                let mut k: usize = 0;
                let ghost base = pts;
                while k < r.outline.len()
                    invariant
                        k <= r.outline@.len(),
                        b == points_box(base + r.outline@.take(k as int)),
                    decreases r.outline@.len() - k,
                {
                    proof {
                        lemma_points_box_push(base + r.outline@.take(k as int), r.outline@[k as int]);
                        assert(base + r.outline@.take(k + 1) =~= (base + r.outline@.take(k as int)).push(
                            r.outline@[k as int],
                        ));
                    }
                    b = extend_box_exec(b, r.outline[k]);
                    k = k + 1;
                }
                assert(r.outline@.take(k as int) =~= r.outline@);
                proof {
                    pts = base + r.outline@;
                }
            },
            _ => {
                assert(pts + Seq::<CoordPoint>::empty() =~= pts);
            },
        }
        i = i + 1;
    }
    assert(prims@.take(i as int) =~= prims@);
    if b.is_empty() {
        CoordRect {
            location1: CoordPoint { x: Coord { raw: 0 }, y: Coord { raw: 0 } },
            location2: CoordPoint { x: Coord { raw: 40_000_000 }, y: Coord { raw: 30_000_000 } },
        }
    } else {
        b
    }
}

/// The box of points grows point by point.
pub proof fn lemma_points_box_push(s: Seq<CoordPoint>, p: CoordPoint)
    ensures
        points_box(s.push(p)) == extend_box(points_box(s), p),
{
    assert(s.push(p).drop_last() =~= s);
}

/// The box of some points holds each of them, and is not empty when there
/// is one.
proof fn lemma_points_box_holds(s: Seq<CoordPoint>)
    ensures
        forall|i: int| 0 <= i < s.len() ==> points_box(s).spec_contains(#[trigger] s[i]),
        s.len() > 0 ==> !points_box(s).spec_is_empty(),
    decreases s.len(),
{
    if s.len() > 0 {
        let t = s.drop_last();
        lemma_points_box_holds(t);
        assert forall|i: int| 0 <= i < s.len() implies points_box(s).spec_contains(#[trigger] s[i]) by {
            if i < t.len() {
                assert(s[i] == t[i]);
                assert(points_box(t).spec_contains(t[i]));
            }
        }
    }
}

/// The board bounds hold every track end, via centre and region outline
/// point.
pub proof fn lemma_board_bounds_hold_extent(prims: Seq<PcbRecord>)
    ensures
        forall|i: int|
            0 <= i < extent_points(prims).len() ==> board_bounds(prims).spec_contains(#[trigger] extent_points(prims)[i]),
{
    lemma_points_box_holds(extent_points(prims));
}

// ---------------------------------------------------------------------------
// The session
// ---------------------------------------------------------------------------

/// The views of a list of names.
pub open spec fn net_names(ns: Seq<String>) -> Seq<Seq<char>> {
    ns.map_values(|s: String| s@)
}

/// Whether a name is among the nets, ASCII case ignored.
pub open spec fn has_net(names: Seq<Seq<char>>, n: Seq<char>) -> bool {
    exists|i: int| 0 <= i < names.len() && key_eq(text_bytes(#[trigger] names[i]), text_bytes(n))
}

/// The net names after making sure a net exists.
pub open spec fn with_net(names: Seq<Seq<char>>, n: Seq<char>) -> Seq<Seq<char>> {
    if has_net(names, n) {
        names
    } else {
        names.push(n)
    }
}

/// The net names after an optional net is made sure to exist.
pub open spec fn with_opt_net(names: Seq<Seq<char>>, n: Option<Seq<char>>) -> Seq<Seq<char>> {
    match n {
        Some(n) => with_net(names, n),
        None => names,
    }
}

/// The view of an optional text.
pub open spec fn opt_text(n: Option<&str>) -> Option<Seq<char>> {
    match n {
        Some(s) => Some(s@),
        None => None,
    }
}

/// The session settings that editing leaves alone.
pub struct SessionSettings {
    pub grid: Grid,
    pub bounds: Option<CoordRect>,
    pub track_width: Coord,
    pub via_diameter: Coord,
    pub via_hole: Coord,
    pub layer: Layer,
}

/// A primitive was added: the record appended, the operation recorded, the
/// redo stack cleared, the session marked modified and an optional net
/// made sure to exist.
pub open spec fn added(
    old: PcbEditSession,
    new: PcbEditSession,
    rec: PcbRecord,
    op: PcbEditOperation,
    net: Option<Seq<char>>,
) -> bool {
    &&& new.spec_doc().primitives@ == old.spec_doc().primitives@.push(rec)
    &&& new.spec_doc().components == old.spec_doc().components
    &&& net_names(new.spec_doc().nets@) == with_opt_net(net_names(old.spec_doc().nets@), net)
    &&& new.spec_history() == old.spec_history().push(op)
    &&& new.spec_redo().len() == 0
    &&& new.spec_modified()
    &&& new.spec_settings() == old.spec_settings()
    &&& new.spec_source_path() == old.spec_source_path()
}

/// A primitive's index as recorded by its add operation.
pub open spec fn add_index(op: PcbEditOperation) -> Option<usize> {
    match op {
        PcbEditOperation::AddTrack { index } => Some(index),
        PcbEditOperation::AddVia { index } => Some(index),
        PcbEditOperation::AddPad { index } => Some(index),
        PcbEditOperation::AddArc { index } => Some(index),
        PcbEditOperation::AddFill { index } => Some(index),
        PcbEditOperation::AddText { index } => Some(index),
        PcbEditOperation::AddRegion { index } => Some(index),
        PcbEditOperation::AddPolygon { index } => Some(index),
        _ => None,
    }
}

impl PcbEditSession {
    pub closed spec fn spec_doc(&self) -> PcbBoard {
        self.doc
    }

    pub closed spec fn spec_history(&self) -> Seq<PcbEditOperation> {
        self.history@
    }

    pub closed spec fn spec_redo(&self) -> Seq<PcbEditOperation> {
        self.redo_stack@
    }

    pub closed spec fn spec_modified(&self) -> bool {
        self.modified
    }

    pub closed spec fn spec_source_path(&self) -> Option<Seq<char>> {
        match self.source_path {
            Some(p) => Some(p@),
            None => None,
        }
    }

    pub closed spec fn spec_settings(&self) -> SessionSettings {
        SessionSettings {
            grid: self.placement.spec_grid(),
            bounds: self.placement.spec_board_bounds(),
            track_width: self.default_track_width,
            via_diameter: self.default_via_diameter,
            via_hole: self.default_via_hole,
            layer: self.default_layer,
        }
    }

    /// A new empty session: 10 mil grid and tracks, 50 mil vias with a
    /// 28 mil hole, on the top layer.
    pub fn new() -> (r: PcbEditSession)
        ensures
            r.spec_doc().primitives@.len() == 0 && r.spec_doc().components@.len() == 0 && r.spec_doc().nets@.len() == 0,
            r.spec_history().len() == 0 && r.spec_redo().len() == 0,
            !r.spec_modified(),
            r.spec_source_path() is None,
            r.spec_settings().grid.spacing.raw == 100000 && r.spec_settings().grid.snap_enabled,
            r.spec_settings().bounds is None,
            r.spec_settings().track_width.raw == 100000,
            r.spec_settings().via_diameter.raw == 500000,
            r.spec_settings().via_hole.raw == 280000,
            r.spec_settings().layer.id == 1,
    {
        PcbEditSession {
            doc: PcbBoard::new(),
            placement: PcbPlacementEngine::new(),
            history: Vec::new(),
            redo_stack: Vec::new(),
            source_path: None,
            modified: false,
            default_track_width: Coord::from_mils(10),
            default_via_diameter: Coord::from_mils(50),
            default_via_hole: Coord::from_mils(28),
            default_layer: Layer::top_layer(),
        }
    }

    /// Whether the document has been modified.
    pub fn is_modified(&self) -> (r: bool)
        ensures
            r == self.spec_modified(),
    {
        self.modified
    }

    /// The source file path.
    pub fn source_path(&self) -> (r: Option<&str>)
        ensures
            match r {
                Some(p) => self.spec_source_path() == Some(p@),
                None => self.spec_source_path() is None,
            },
    {
        match &self.source_path {
            Some(p) => Some(p.as_str()),
            None => None,
        }
    }

    /// Record where the document was read from or saved to; a save clears
    /// the modified mark.
    pub fn set_source_path(&mut self, path: String, saved: bool)
        ensures
            final(self).spec_source_path() == Some(path@),
            final(self).spec_modified() == (old(self).spec_modified() && !saved),
            final(self).spec_doc() == old(self).spec_doc(),
            final(self).spec_history() == old(self).spec_history(),
            final(self).spec_redo() == old(self).spec_redo(),
            final(self).spec_settings() == old(self).spec_settings(),
    {
        self.source_path = Some(path);
        if saved {
            self.modified = false;
        }
    }

    /// Replace the board, recomputing the board bounds from its components.
    pub fn set_board(&mut self, doc: PcbBoard)
        requires
            crate::edit::pcb_placement::margin_fits(doc.components@),
        ensures
            final(self).spec_doc() == doc,
            final(self).spec_settings().bounds == Some(
                crate::edit::pcb_placement::board_bounds_of(doc.components@),
            ),
            final(self).spec_settings().grid == old(self).spec_settings().grid,
    {
        self.placement.calculate_board_bounds(&doc);
        self.doc = doc;
    }

    /// Set the grid configuration.
    pub fn set_grid(&mut self, grid: Grid)
        ensures
            final(self).spec_settings() == (SessionSettings { grid, ..old(self).spec_settings() }),
            final(self).spec_doc() == old(self).spec_doc(),
            final(self).spec_history() == old(self).spec_history(),
            final(self).spec_redo() == old(self).spec_redo(),
            final(self).spec_modified() == old(self).spec_modified(),
    {
        self.placement.set_grid(grid);
    }

    /// Set the default track width.
    pub fn set_default_track_width(&mut self, width: Coord)
        ensures
            final(self).spec_settings() == (SessionSettings { track_width: width, ..old(self).spec_settings() }),
            final(self).spec_doc() == old(self).spec_doc(),
    {
        self.default_track_width = width;
    }

    /// Set the default via diameter.
    pub fn set_default_via_diameter(&mut self, diameter: Coord)
        ensures
            final(self).spec_settings() == (SessionSettings { via_diameter: diameter, ..old(self).spec_settings() }),
            final(self).spec_doc() == old(self).spec_doc(),
    {
        self.default_via_diameter = diameter;
    }

    /// Set the default via hole size.
    pub fn set_default_via_hole(&mut self, hole: Coord)
        ensures
            final(self).spec_settings() == (SessionSettings { via_hole: hole, ..old(self).spec_settings() }),
            final(self).spec_doc() == old(self).spec_doc(),
    {
        self.default_via_hole = hole;
    }

    /// Set the default layer for new primitives.
    pub fn set_default_layer(&mut self, layer: Layer)
        ensures
            final(self).spec_settings() == (SessionSettings { layer, ..old(self).spec_settings() }),
            final(self).spec_doc() == old(self).spec_doc(),
    {
        self.default_layer = layer;
    }

    /// The default layer.
    pub fn default_layer(&self) -> (r: Layer)
        ensures
            r == self.spec_settings().layer,
    {
        self.default_layer
    }

    /// The board bounds: the box of track ends, via centres and region
    /// outlines, or a 4000 x 3000 mil board from the origin when there are
    /// none.
    pub fn get_board_bounds(&self) -> (r: CoordRect)
        ensures
            r == board_bounds(self.spec_doc().primitives@),
    {
        board_bounds_exec(&self.doc.primitives)
    }

    /// Resolve a position to a snapped absolute point.
    pub fn resolve_position(&self, pos: &Position) -> (r: Result<CoordPoint>)
        ensures
            match resolved(self.spec_doc(), self.spec_settings().bounds, self.spec_settings().grid, *pos) {
                Some(p) => r == Result::<CoordPoint>::Ok(p),
                None => r is Err,
            },
            pos matches Position::RelativeTo { reference_index, .. } ==> (reference_index
                >= self.spec_doc().primitives@.len() ==> (r matches Err(AltiumError::Parse(m)) && m@
                == "Invalid primitive index: "@ + crate::error::decimal_text(reference_index as nat))),
    {
        let target: core::result::Result<(i64, i64), AltiumError> = match pos {
            Position::Absolute(p) => Ok((p.x.raw as i64, p.y.raw as i64)),
            Position::RelativeTo { reference_index, offset } => {
                if *reference_index >= self.doc.primitives.len() {
                    return Err(
                        AltiumError::Parse(
                            text2("Invalid primitive index: ", usize_text(*reference_index).as_str()),
                        ),
                    );
                }
                let c = primitive_center_exec(&self.doc.primitives[*reference_index]);
                Ok((c.0 + offset.x.raw as i64, c.1 + offset.y.raw as i64))
            },
            Position::RelativeToComponent { designator, offset } => {
                match self.placement.get_component_position(&self.doc, designator.as_str()) {
                    Some(cp) => Ok((cp.x.raw as i64 + offset.x.raw as i64, cp.y.raw as i64 + offset.y.raw as i64)),
                    None => Err(AltiumError::Parse(text3("Component '", designator.as_str(), "' not found"))),
                }
            },
            Position::RelativeToPad { component, pad, offset } => {
                let ci = find_component_index(&self.doc, component.as_str());
                if ci < self.doc.components.len() {
                    let c = &self.doc.components[ci];
                    let pi = find_pad_index(&c.primitives, pad.as_str());
                    if pi < c.primitives.len() {
                        match &c.primitives[pi] {
                            PcbRecord::Pad(p) => {
                                let cx = component_coord_exec(c, "X");
                                let cy = component_coord_exec(c, "Y");
                                Ok(
                                    (
                                        cx as i64 + p.location.x.raw as i64 + offset.x.raw as i64,
                                        cy as i64 + p.location.y.raw as i64 + offset.y.raw as i64,
                                    ),
                                )
                            },
                            _ => Err(AltiumError::Parse(text3("Pad '", pad.as_str(), "' not found"))),
                        }
                    } else {
                        let mut m = text3("Pad '", pad.as_str(), "' not found on component '");
                        m.append(component.as_str());
                        m.append("'");
                        Err(AltiumError::Parse(m))
                    }
                } else {
                    Err(AltiumError::Parse(text3("Component '", component.as_str(), "' not found")))
                }
            },
            Position::RelativeToEdge { edge, offset } => {
                match self.placement.board_bounds() {
                    Some(b) => {
                        let c = b.center();
                        let base: (i64, i64) = match edge {
                            BoardEdge::Left => (b.location1.x.raw as i64, c.y.raw as i64),
                            BoardEdge::Right => (b.location2.x.raw as i64, c.y.raw as i64),
                            BoardEdge::Top => (c.x.raw as i64, b.location2.y.raw as i64),
                            BoardEdge::Bottom => (c.x.raw as i64, b.location1.y.raw as i64),
                        };
                        Ok((base.0 + offset.x.raw as i64, base.1 + offset.y.raw as i64))
                    },
                    None => Err(AltiumError::Parse(text("Board bounds not set"))),
                }
            },
            Position::BoardCenter { offset } => {
                let b = self.get_board_bounds();
                let c = b.center();
                Ok((c.x.raw as i64 + offset.x.raw as i64, c.y.raw as i64 + offset.y.raw as i64))
            },
        };
        match target {
            Ok((x, y)) => match snap_point_wide(self.placement.grid(), x, y) {
                Some(p) => Ok(p),
                None => Err(AltiumError::Parse(text("Position out of range"))),
            },
            Err(e) => Err(e),
        }
    }

    /// Make sure a net exists (ASCII case ignored); adds it when missing.
    pub fn ensure_net_exists(&mut self, net_name: &str)
        ensures
            net_names(final(self).spec_doc().nets@) == with_net(net_names(old(self).spec_doc().nets@), net_name@),
            final(self).spec_doc().primitives == old(self).spec_doc().primitives,
            final(self).spec_doc().components == old(self).spec_doc().components,
            final(self).spec_history() == old(self).spec_history(),
            final(self).spec_redo() == old(self).spec_redo(),
            final(self).spec_modified() == old(self).spec_modified(),
            final(self).spec_settings() == old(self).spec_settings(),
            final(self).spec_source_path() == old(self).spec_source_path(),
    {
        if !self.has_net(net_name) {
            let ghost before = self.doc.nets@;
            self.doc.nets.push(text(net_name));
            assert(net_names(self.doc.nets@) =~= net_names(before).push(net_name@));
        }
    }

    /// Whether a net exists (ASCII case ignored).
    pub fn has_net(&self, net_name: &str) -> (r: bool)
        ensures
            r == has_net(net_names(self.spec_doc().nets@), net_name@),
    {
        let mut i: usize = 0;
        while i < self.doc.nets.len()
            invariant
                i <= self.doc.nets@.len(),
                forall|k: int|
                    0 <= k < i ==> !key_eq(text_bytes(#[trigger] net_names(self.doc.nets@)[k]), text_bytes(net_name@)),
            decreases self.doc.nets@.len() - i,
        {
            if text_eq_ignore_case(self.doc.nets[i].as_str(), net_name) {
                assert(net_names(self.doc.nets@)[i as int] == self.doc.nets@[i as int]@);
                return true;
            }
            assert(net_names(self.doc.nets@)[i as int] == self.doc.nets@[i as int]@);
            i = i + 1;
        }
        false
    }

    /// Add a new net; an error when one of that name (ASCII case ignored)
    /// exists.
    pub fn add_net(&mut self, net_name: &str) -> (r: Result<()>)
        ensures
            has_net(net_names(old(self).spec_doc().nets@), net_name@) ==> (r matches Err(AltiumError::Parse(m)) && m@
                == "Net '"@ + net_name@ + "' already exists"@ && *final(self) == *old(self)),
            !has_net(net_names(old(self).spec_doc().nets@), net_name@) ==> {
                &&& r is Ok
                &&& net_names(final(self).spec_doc().nets@) == net_names(old(self).spec_doc().nets@).push(net_name@)
                &&& final(self).spec_doc().primitives == old(self).spec_doc().primitives
                &&& final(self).spec_doc().components == old(self).spec_doc().components
                &&& final(self).spec_modified()
                &&& final(self).spec_history() == old(self).spec_history()
                &&& final(self).spec_redo() == old(self).spec_redo()
                &&& final(self).spec_settings() == old(self).spec_settings()
            },
    {
        if self.has_net(net_name) {
            return Err(AltiumError::Parse(text3("Net '", net_name, "' already exists")));
        }
        let ghost before = self.doc.nets@;
        self.doc.nets.push(text(net_name));
        assert(net_names(self.doc.nets@) =~= net_names(before).push(net_name@));
        self.modified = true;
        Ok(())
    }

    /// All nets of the document.
    pub fn nets(&self) -> (r: &[String])
        ensures
            r@ == self.spec_doc().nets@,
    {
        self.doc.nets.as_slice()
    }

    /// Records an added primitive.
    fn record_add(&mut self, rec: PcbRecord, op: PcbEditOperation, net: Option<&str>)
        ensures
            added(*old(self), *final(self), rec, op, opt_text(net)),
    {
        self.doc.primitives.push(rec);
        match net {
            Some(n) => self.ensure_net_exists(n),
            None => {},
        }
        self.history.push(op);
        self.redo_stack.clear();
        self.modified = true;
    }

    /// Snaps a point to the session grid, or an error when it leaves `i32`.
    fn snap(&self, p: CoordPoint) -> (r: Result<CoordPoint>)
        ensures
            match snap_point_checked(self.spec_settings().grid, p.x.raw as int, p.y.raw as int) {
                Some(q) => r == Result::<CoordPoint>::Ok(q),
                None => r is Err,
            },
    {
        match snap_point_wide(self.placement.grid(), p.x.raw as i64, p.y.raw as i64) {
            Some(q) => Ok(q),
            None => Err(AltiumError::Parse(text("Position out of range"))),
        }
    }
}

// ---------------------------------------------------------------------------
// Adding primitives
// ---------------------------------------------------------------------------

/// A point snapped to the grid, or `None` when it leaves `i32`.
pub open spec fn snap_pt(g: Grid, p: CoordPoint) -> Option<CoordPoint> {
    snap_point_checked(g, p.x.raw as int, p.y.raw as int)
}

/// Every point snapped, or `None` when one leaves `i32`.
pub open spec fn snap_all(g: Grid, vs: Seq<CoordPoint>) -> Option<Seq<CoordPoint>> {
    if forall|i: int| 0 <= i < vs.len() ==> (#[trigger] snap_pt(g, vs[i])) is Some {
        Some(Seq::new(vs.len(), |i: int| snap_pt(g, vs[i]).unwrap()))
    } else {
        None
    }
}

pub open spec fn or_coord(o: Option<Coord>, d: Coord) -> Coord {
    match o {
        Some(c) => c,
        None => d,
    }
}

pub open spec fn or_layer(o: Option<Layer>, d: Layer) -> Layer {
    match o {
        Some(c) => c,
        None => d,
    }
}

/// A through-hole pad as `add_through_hole_pad` makes it.
pub open spec fn is_th_pad(
    r: PcbRecord,
    loc: CoordPoint,
    designator: Seq<char>,
    hole: Coord,
    size: CoordPoint,
    shape: PcbPadShape,
) -> bool {
    r matches PcbRecord::Pad(p) && p.layer.id == 74 && p.location == loc && p.designator@ == designator
        && p.hole_size == hole && p.is_plated && p.size_layers@ == Seq::new(32, |i: int| size)
        && p.shape_layers@ == Seq::new(32, |i: int| shape)
}

/// The per-layer slot of an SMD pad: 0 on the top layer, else 31.
pub open spec fn smd_slot(layer: Layer) -> int {
    if layer.id == 1 {
        0
    } else {
        31
    }
}

/// An SMD pad as `add_smd_pad` makes it.
pub open spec fn is_smd_pad(
    r: PcbRecord,
    loc: CoordPoint,
    designator: Seq<char>,
    size: CoordPoint,
    shape: PcbPadShape,
    layer: Layer,
) -> bool {
    r matches PcbRecord::Pad(p) && p.layer == layer && p.location == loc && p.designator@ == designator
        && p.hole_size.raw == 0 && !p.is_plated && p.size_layers@ == Seq::new(
        32,
        |i: int|
            if i == smd_slot(layer) {
                size
            } else {
                CoordPoint { x: Coord { raw: 0 }, y: Coord { raw: 0 } }
            },
    ) && p.shape_layers@ == Seq::new(
        32,
        |i: int|
            if i == smd_slot(layer) {
                shape
            } else {
                PcbPadShape::Round
            },
    )
}

/// The four corners of the rectangle between two corners, in order.
pub open spec fn rect_vertices(c1: CoordPoint, c2: CoordPoint) -> Seq<CoordPoint> {
    seq![c1, CoordPoint { x: c2.x, y: c1.y }, c2, CoordPoint { x: c1.x, y: c2.y }]
}

/// A polygon as `add_polygon` makes it.
pub open spec fn is_polygon(
    r: PcbRecord,
    layer: Layer,
    net: Seq<char>,
    hatch: HatchStyle,
    pour_over: bool,
    remove_dead: bool,
    vertices: Seq<CoordPoint>,
) -> bool {
    r matches PcbRecord::Polygon(p) && p.layer == layer && p.net_name@ == net && p.hatch_style == hatch
        && p.pour_over == pour_over && p.remove_dead == remove_dead && p.vertices@ == vertices
}

/// The tracks of a vertex path's first `n` segments.
pub open spec fn path_tracks(g: Grid, vs: Seq<CoordPoint>, width: Coord, layer: Layer, n: int) -> Seq<
    PcbRecord,
> {
    Seq::new(
        n as nat,
        |k: int|
            PcbRecord::Track(
                PcbTrack { layer, start: snap_pt(g, vs[k]).unwrap(), end: snap_pt(g, vs[k + 1]).unwrap(), width },
            ),
    )
}

/// The add operations of `n` tracks appended from index `base`.
pub open spec fn path_ops(base: int, n: int) -> Seq<PcbEditOperation> {
    Seq::new(n as nat, |k: int| PcbEditOperation::AddTrack { index: (base + k) as usize })
}

/// Number of leading vertices that snap.
pub open spec fn good_prefix(g: Grid, vs: Seq<CoordPoint>) -> int
    decreases vs.len(),
{
    if vs.len() == 0 {
        0
    } else {
        let k = good_prefix(g, vs.drop_last());
        if k == vs.len() - 1 && snap_pt(g, vs.last()) is Some {
            vs.len() as int
        } else {
            k
        }
    }
}

/// Number of leading segments of a vertex path whose ends both snap.
pub open spec fn good_segments(g: Grid, vs: Seq<CoordPoint>) -> int {
    let k = good_prefix(g, vs);
    if vs.len() < 2 {
        0
    } else if k == vs.len() {
        vs.len() - 1
    } else if k == 0 {
        0
    } else {
        k - 1
    }
}

/// The outcome of adding a track path: `n` tracks were appended.
pub open spec fn path_added(
    old: PcbEditSession,
    new: PcbEditSession,
    vs: Seq<CoordPoint>,
    width: Option<Coord>,
    layer: Option<Layer>,
    net: Option<Seq<char>>,
    n: int,
) -> bool {
    let g = old.spec_settings().grid;
    let w = or_coord(width, old.spec_settings().track_width);
    let l = or_layer(layer, old.spec_settings().layer);
    let base = old.spec_doc().primitives@.len() as int;
    if n == 0 {
        new == old
    } else {
        &&& new.spec_doc().primitives@ == old.spec_doc().primitives@ + path_tracks(g, vs, w, l, n)
        &&& new.spec_doc().components == old.spec_doc().components
        &&& net_names(new.spec_doc().nets@) == with_opt_net(net_names(old.spec_doc().nets@), net)
        &&& new.spec_history() == old.spec_history() + path_ops(base, n)
        &&& new.spec_redo().len() == 0
        &&& new.spec_modified()
        &&& new.spec_settings() == old.spec_settings()
        &&& new.spec_source_path() == old.spec_source_path()
    }
}

/// The outcome of adding a track path through `vs`.
pub open spec fn path_outcome(
    old: PcbEditSession,
    new: PcbEditSession,
    vs: Seq<CoordPoint>,
    width: Option<Coord>,
    layer: Option<Layer>,
    net: Option<Seq<char>>,
    r: Result<Vec<usize>>,
) -> bool {
    &&& vs.len() < 2 ==> (r matches Err(AltiumError::Parse(m)) && m@ == "Track path requires at least 2 vertices"@
        && new == old)
    &&& vs.len() >= 2 ==> {
        let n = good_segments(old.spec_settings().grid, vs);
        &&& path_added(old, new, vs, width, layer, net, n)
        &&& (r is Ok <==> n == vs.len() - 1)
        &&& r matches Ok(ix) ==> ix@ == Seq::new(n as nat, |k: int| (old.spec_doc().primitives@.len() + k) as usize)
    }
}

proof fn lemma_good_prefix_bounds(g: Grid, vs: Seq<CoordPoint>)
    ensures
        0 <= good_prefix(g, vs) <= vs.len(),
        forall|i: int| 0 <= i < good_prefix(g, vs) ==> (#[trigger] snap_pt(g, vs[i])) is Some,
        good_prefix(g, vs) < vs.len() ==> snap_pt(g, vs[good_prefix(g, vs)]) is None,
    decreases vs.len(),
{
    if vs.len() > 0 {
        lemma_good_prefix_bounds(g, vs.drop_last());
        assert forall|i: int| 0 <= i < vs.len() - 1 implies vs.drop_last()[i] == vs[i] by {}
    }
}

impl PcbEditSession {
    /// Add a track segment between two snapped points.
    pub fn add_track(
        &mut self,
        start: CoordPoint,
        end: CoordPoint,
        width: Option<Coord>,
        layer: Option<Layer>,
        net: Option<&str>,
    ) -> (r: Result<usize>)
        ensures
            match (snap_pt(old(self).spec_settings().grid, start), snap_pt(old(self).spec_settings().grid, end)) {
                (Some(s), Some(e)) => {
                    &&& r == Result::<usize>::Ok(old(self).spec_doc().primitives@.len() as usize)
                    &&& added(
                        *old(self),
                        *final(self),
                        PcbRecord::Track(
                            PcbTrack {
                                layer: or_layer(layer, old(self).spec_settings().layer),
                                start: s,
                                end: e,
                                width: or_coord(width, old(self).spec_settings().track_width),
                            },
                        ),
                        PcbEditOperation::AddTrack { index: old(self).spec_doc().primitives@.len() as usize },
                        opt_text(net),
                    )
                },
                _ => r is Err && *final(self) == *old(self),
            },
    {
        let s = match self.snap(start) {
            Ok(p) => p,
            Err(e) => return Err(e),
        };
        let e = match self.snap(end) {
            Ok(p) => p,
            Err(e) => return Err(e),
        };
        let track = PcbTrack {
            layer: match layer {
                Some(l) => l,
                None => self.default_layer,
            },
            start: s,
            end: e,
            width: match width {
                Some(w) => w,
                None => self.default_track_width,
            },
        };
        let index = self.doc.primitives.len();
        self.record_add(PcbRecord::Track(track), PcbEditOperation::AddTrack { index }, net);
        Ok(index)
    }

    /// Add a track between two resolved positions.
    pub fn add_track_positioned(
        &mut self,
        start: &Position,
        end: &Position,
        width: Option<Coord>,
        layer: Option<Layer>,
        net: Option<&str>,
    ) -> (r: Result<usize>)
        ensures
            ({
                let g = old(self).spec_settings().grid;
                let b = old(self).spec_settings().bounds;
                match (resolved(old(self).spec_doc(), b, g, *start), resolved(old(self).spec_doc(), b, g, *end)) {
                    (Some(sp), Some(ep)) => match (snap_pt(g, sp), snap_pt(g, ep)) {
                        (Some(s), Some(e)) => {
                            &&& r == Result::<usize>::Ok(old(self).spec_doc().primitives@.len() as usize)
                            &&& added(
                                *old(self),
                                *final(self),
                                PcbRecord::Track(
                                    PcbTrack {
                                        layer: or_layer(layer, old(self).spec_settings().layer),
                                        start: s,
                                        end: e,
                                        width: or_coord(width, old(self).spec_settings().track_width),
                                    },
                                ),
                                PcbEditOperation::AddTrack {
                                    index: old(self).spec_doc().primitives@.len() as usize,
                                },
                                opt_text(net),
                            )
                        },
                        _ => r is Err && *final(self) == *old(self),
                    },
                    _ => r is Err && *final(self) == *old(self),
                }
            }),
    {
        let sp = match self.resolve_position(start) {
            Ok(p) => p,
            Err(e) => return Err(e),
        };
        let ep = match self.resolve_position(end) {
            Ok(p) => p,
            Err(e) => return Err(e),
        };
        self.add_track(sp, ep, width, layer, net)
    }

    /// Add connected track segments through the vertices.
    pub fn add_track_path(
        &mut self,
        vertices: &[CoordPoint],
        width: Option<Coord>,
        layer: Option<Layer>,
        net: Option<&str>,
    ) -> (r: Result<Vec<usize>>)
        ensures
            path_outcome(*old(self), *final(self), vertices@, width, layer, opt_text(net), r),
    {
        if vertices.len() < 2 {
            return Err(AltiumError::Parse(text("Track path requires at least 2 vertices")));
        }
        let ghost g = self.spec_settings().grid;
        let ghost s0 = *self;
        let ghost n = good_segments(g, vertices@);
        proof {
            lemma_good_prefix_bounds(g, vertices@);
        }
        let mut indices: Vec<usize> = Vec::new();
        let mut i: usize = 0;
        while i < vertices.len() - 1
            invariant
                vertices@.len() >= 2,
                i <= vertices@.len() - 1,
                i <= n,
                g == s0.spec_settings().grid,
                s0 == *old(self),
                n == good_segments(g, vertices@),
                0 <= good_prefix(g, vertices@) <= vertices@.len(),
                forall|k: int| 0 <= k < good_prefix(g, vertices@) ==> (#[trigger] snap_pt(g, vertices@[k])) is Some,
                good_prefix(g, vertices@) < vertices@.len() ==> snap_pt(g, vertices@[good_prefix(g, vertices@)]) is None,
                path_added(s0, *self, vertices@, width, layer, opt_text(net), i as int),
                indices@ == Seq::new(i as nat, |k: int| (s0.spec_doc().primitives@.len() + k) as usize),
            decreases vertices@.len() - 1 - i,
        {
            let ghost before = *self;
            let res = self.add_track(vertices[i], vertices[i + 1], width, layer, net);
            match res {
                Ok(idx) => {
                    proof {
                        let w = or_coord(width, s0.spec_settings().track_width);
                        let l = or_layer(layer, s0.spec_settings().layer);
                        assert(path_tracks(g, vertices@, w, l, i + 1) =~= path_tracks(g, vertices@, w, l, i as int).push(
                            self.spec_doc().primitives@.last(),
                        ));
                        assert(path_ops(s0.spec_doc().primitives@.len() as int, i + 1) =~= path_ops(
                            s0.spec_doc().primitives@.len() as int,
                            i as int,
                        ).push(self.spec_history().last()));
                        if i > 0 {
                            assert(with_opt_net(with_opt_net(net_names(s0.spec_doc().nets@), opt_text(net)), opt_text(net))
                                == with_opt_net(net_names(s0.spec_doc().nets@), opt_text(net))) by {
                                lemma_with_net_idempotent(net_names(s0.spec_doc().nets@), opt_text(net));
                            }
                        }
                        assert(i < n) by {
                            if good_prefix(g, vertices@) < vertices@.len() {
                                let k = good_prefix(g, vertices@);
                                assert(k != i && k != i + 1);
                            }
                        }
                        assert(self.spec_doc().primitives@ =~= s0.spec_doc().primitives@ + path_tracks(g, vertices@, w, l, i + 1));
                        assert(self.spec_history() =~= s0.spec_history() + path_ops(s0.spec_doc().primitives@.len() as int, i + 1));
                    }
                    indices.push(idx);
                    assert(indices@ =~= Seq::new((i + 1) as nat, |k: int| (s0.spec_doc().primitives@.len() + k) as usize));
                },
                Err(e) => {
                    proof {
                        let k = good_prefix(g, vertices@);
                        assert(!(snap_pt(g, vertices@[i as int]) is Some && snap_pt(g, vertices@[i + 1]) is Some));
                        if k > i + 1 {
                            assert(snap_pt(g, vertices@[i as int]) is Some);
                            assert(snap_pt(g, vertices@[i + 1]) is Some);
                        }
                        assert(k <= i + 1);
                        assert(k < vertices@.len());
                        assert(n == i);
                        assert(*self == before);
                        assert(path_added(s0, *self, vertices@, width, layer, opt_text(net), n));
                        assert(s0 == *old(self));
                    }
                    return Err(e);
                },
            }
            i = i + 1;
        }
        Ok(indices)
    }
}

/// Making sure a net exists twice is making sure once.
pub proof fn lemma_with_net_idempotent(names: Seq<Seq<char>>, n: Option<Seq<char>>)
    ensures
        with_opt_net(with_opt_net(names, n), n) == with_opt_net(names, n),
{
    match n {
        Some(x) => {
            if !has_net(names, x) {
                let ns = names.push(x);
                assert(ns[names.len() as int] == x);
                assert(key_eq(text_bytes(x), text_bytes(x)));
                assert(has_net(ns, x));
            }
        },
        None => {},
    }
}

/// A via as `add_via` makes it.
pub open spec fn via_record(
    old: PcbEditSession,
    loc: CoordPoint,
    diameter: Option<Coord>,
    hole: Option<Coord>,
    from: Option<Layer>,
    to: Option<Layer>,
) -> PcbRecord {
    PcbRecord::Via(
        PcbVia {
            layer: Layer { id: 74 },
            location: loc,
            diameter: or_coord(diameter, old.spec_settings().via_diameter),
            hole_size: or_coord(hole, old.spec_settings().via_hole),
            from_layer: or_layer(from, Layer { id: 1 }),
            to_layer: or_layer(to, Layer { id: 32 }),
        },
    )
}

/// `n` copies of a value.
fn repeat_points(p: CoordPoint, n: usize) -> (r: Vec<CoordPoint>)
    ensures
        r@ == Seq::new(n as nat, |i: int| p),
{
    let mut v: Vec<CoordPoint> = Vec::new();
    let mut i: usize = 0;
    while i < n
        invariant
            i <= n,
            v@ == Seq::new(i as nat, |k: int| p),
        decreases n - i,
    {
        v.push(p);
        assert(v@ =~= Seq::new((i + 1) as nat, |k: int| p));
        i = i + 1;
    }
    v
}

/// `n` copies of a shape.
fn repeat_shapes(s: PcbPadShape, n: usize) -> (r: Vec<PcbPadShape>)
    ensures
        r@ == Seq::new(n as nat, |i: int| s),
{
    let mut v: Vec<PcbPadShape> = Vec::new();
    let mut i: usize = 0;
    while i < n
        invariant
            i <= n,
            v@ == Seq::new(i as nat, |k: int| s),
        decreases n - i,
    {
        v.push(s);
        assert(v@ =~= Seq::new((i + 1) as nat, |k: int| s));
        i = i + 1;
    }
    v
}

impl PcbEditSession {
    /// Every vertex snapped, or an error when one leaves `i32`.
    fn snap_all_exec(&self, vertices: &[CoordPoint]) -> (r: Result<Vec<CoordPoint>>)
        ensures
            match snap_all(self.spec_settings().grid, vertices@) {
                Some(v) => r matches Ok(x) && x@ == v,
                None => r is Err,
            },
    {
        let ghost g = self.spec_settings().grid;
        let mut out: Vec<CoordPoint> = Vec::new();
        let mut i: usize = 0;
        while i < vertices.len()
            invariant
                g == self.spec_settings().grid,
                i <= vertices@.len(),
                out@.len() == i,
                forall|k: int| 0 <= k < i ==> (#[trigger] snap_pt(g, vertices@[k])) == Some(out@[k]),
            decreases vertices@.len() - i,
        {
            match self.snap(vertices[i]) {
                Ok(p) => out.push(p),
                Err(e) => {
                    assert(snap_pt(g, vertices@[i as int]) is None);
                    return Err(e);
                },
            }
            i = i + 1;
        }
        assert(out@ =~= Seq::new(vertices@.len(), |k: int| snap_pt(g, vertices@[k]).unwrap()));
        Ok(out)
    }

    /// Add a via at a snapped location.
    pub fn add_via(
        &mut self,
        location: CoordPoint,
        diameter: Option<Coord>,
        hole_size: Option<Coord>,
        from_layer: Option<Layer>,
        to_layer: Option<Layer>,
        net: Option<&str>,
    ) -> (r: Result<usize>)
        ensures
            match snap_pt(old(self).spec_settings().grid, location) {
                Some(loc) => {
                    &&& r == Result::<usize>::Ok(old(self).spec_doc().primitives@.len() as usize)
                    &&& added(
                        *old(self),
                        *final(self),
                        via_record(*old(self), loc, diameter, hole_size, from_layer, to_layer),
                        PcbEditOperation::AddVia { index: old(self).spec_doc().primitives@.len() as usize },
                        opt_text(net),
                    )
                },
                None => r is Err && *final(self) == *old(self),
            },
    {
        let loc = match self.snap(location) {
            Ok(p) => p,
            Err(e) => return Err(e),
        };
        let via = PcbVia {
            layer: Layer::multi_layer(),
            location: loc,
            diameter: match diameter {
                Some(d) => d,
                None => self.default_via_diameter,
            },
            hole_size: match hole_size {
                Some(h) => h,
                None => self.default_via_hole,
            },
            from_layer: match from_layer {
                Some(l) => l,
                None => Layer::top_layer(),
            },
            to_layer: match to_layer {
                Some(l) => l,
                None => Layer::bottom_layer(),
            },
        };
        let index = self.doc.primitives.len();
        self.record_add(PcbRecord::Via(via), PcbEditOperation::AddVia { index }, net);
        Ok(index)
    }

    /// Add a via at a resolved position.
    pub fn add_via_positioned(
        &mut self,
        position: &Position,
        diameter: Option<Coord>,
        hole_size: Option<Coord>,
        from_layer: Option<Layer>,
        to_layer: Option<Layer>,
        net: Option<&str>,
    ) -> (r: Result<usize>)
        ensures
            ({
                let g = old(self).spec_settings().grid;
                match resolved(old(self).spec_doc(), old(self).spec_settings().bounds, g, *position) {
                    Some(p) => match snap_pt(g, p) {
                        Some(loc) => {
                            &&& r == Result::<usize>::Ok(old(self).spec_doc().primitives@.len() as usize)
                            &&& added(
                                *old(self),
                                *final(self),
                                via_record(*old(self), loc, diameter, hole_size, from_layer, to_layer),
                                PcbEditOperation::AddVia {
                                    index: old(self).spec_doc().primitives@.len() as usize,
                                },
                                opt_text(net),
                            )
                        },
                        None => r is Err && *final(self) == *old(self),
                    },
                    None => r is Err && *final(self) == *old(self),
                }
            }),
    {
        let loc = match self.resolve_position(position) {
            Ok(p) => p,
            Err(e) => return Err(e),
        };
        self.add_via(loc, diameter, hole_size, from_layer, to_layer, net)
    }

    /// Add a blind via between two given layers.
    pub fn add_blind_via(
        &mut self,
        location: CoordPoint,
        from_layer: Layer,
        to_layer: Layer,
        diameter: Option<Coord>,
        hole_size: Option<Coord>,
        net: Option<&str>,
    ) -> (r: Result<usize>)
        ensures
            match snap_pt(old(self).spec_settings().grid, location) {
                Some(loc) => {
                    &&& r == Result::<usize>::Ok(old(self).spec_doc().primitives@.len() as usize)
                    &&& added(
                        *old(self),
                        *final(self),
                        via_record(*old(self), loc, diameter, hole_size, Some(from_layer), Some(to_layer)),
                        PcbEditOperation::AddVia { index: old(self).spec_doc().primitives@.len() as usize },
                        opt_text(net),
                    )
                },
                None => r is Err && *final(self) == *old(self),
            },
    {
        self.add_via(location, diameter, hole_size, Some(from_layer), Some(to_layer), net)
    }

    /// Add a plated through-hole pad with one size and shape on every layer.
    pub fn add_through_hole_pad(
        &mut self,
        location: CoordPoint,
        designator: &str,
        hole_size: Coord,
        pad_size: CoordPoint,
        shape: PcbPadShape,
        net: Option<&str>,
    ) -> (r: Result<usize>)
        ensures
            match snap_pt(old(self).spec_settings().grid, location) {
                Some(loc) => {
                    &&& r == Result::<usize>::Ok(old(self).spec_doc().primitives@.len() as usize)
                    &&& is_th_pad(final(self).spec_doc().primitives@.last(), loc, designator@, hole_size, pad_size, shape)
                    &&& added(
                        *old(self),
                        *final(self),
                        final(self).spec_doc().primitives@.last(),
                        PcbEditOperation::AddPad { index: old(self).spec_doc().primitives@.len() as usize },
                        opt_text(net),
                    )
                },
                None => r is Err && *final(self) == *old(self),
            },
    {
        let loc = match self.snap(location) {
            Ok(p) => p,
            Err(e) => return Err(e),
        };
        let pad = PcbPad {
            layer: Layer::multi_layer(),
            location: loc,
            designator: text(designator),
            hole_size,
            is_plated: true,
            size_layers: repeat_points(pad_size, PAD_LAYER_SLOTS),
            shape_layers: repeat_shapes(shape, PAD_LAYER_SLOTS),
        };
        let index = self.doc.primitives.len();
        self.record_add(PcbRecord::Pad(pad), PcbEditOperation::AddPad { index }, net);
        Ok(index)
    }

    /// Add an unplated surface-mount pad sized on its layer's slot only.
    pub fn add_smd_pad(
        &mut self,
        location: CoordPoint,
        designator: &str,
        size: CoordPoint,
        shape: PcbPadShape,
        layer: Layer,
        net: Option<&str>,
    ) -> (r: Result<usize>)
        ensures
            match snap_pt(old(self).spec_settings().grid, location) {
                Some(loc) => {
                    &&& r == Result::<usize>::Ok(old(self).spec_doc().primitives@.len() as usize)
                    &&& is_smd_pad(final(self).spec_doc().primitives@.last(), loc, designator@, size, shape, layer)
                    &&& added(
                        *old(self),
                        *final(self),
                        final(self).spec_doc().primitives@.last(),
                        PcbEditOperation::AddPad { index: old(self).spec_doc().primitives@.len() as usize },
                        opt_text(net),
                    )
                },
                None => r is Err && *final(self) == *old(self),
            },
    {
        let loc = match self.snap(location) {
            Ok(p) => p,
            Err(e) => return Err(e),
        };
        let slot: usize = if layer.id == 1 {
            0
        } else {
            31
        };
        let mut sizes = repeat_points(CoordPoint { x: Coord { raw: 0 }, y: Coord { raw: 0 } }, PAD_LAYER_SLOTS);
        let mut shapes = repeat_shapes(PcbPadShape::Round, PAD_LAYER_SLOTS);
        sizes.set(slot, size);
        shapes.set(slot, shape);
        assert(sizes@ =~= Seq::new(
            32,
            |i: int|
                if i == smd_slot(layer) {
                    size
                } else {
                    CoordPoint { x: Coord { raw: 0 }, y: Coord { raw: 0 } }
                },
        ));
        assert(shapes@ =~= Seq::new(
            32,
            |i: int|
                if i == smd_slot(layer) {
                    shape
                } else {
                    PcbPadShape::Round
                },
        ));
        let pad = PcbPad {
            layer,
            location: loc,
            designator: text(designator),
            hole_size: Coord { raw: 0 },
            is_plated: false,
            size_layers: sizes,
            shape_layers: shapes,
        };
        let index = self.doc.primitives.len();
        self.record_add(PcbRecord::Pad(pad), PcbEditOperation::AddPad { index }, net);
        Ok(index)
    }

    /// Add a full circle: an arc from 0 to 360 degrees.
    pub fn add_circle(&mut self, center: CoordPoint, radius: Coord, width: Option<Coord>, layer: Option<Layer>) -> (r:
        Result<usize>)
        ensures
            match snap_pt(old(self).spec_settings().grid, center) {
                Some(c) => {
                    &&& r == Result::<usize>::Ok(old(self).spec_doc().primitives@.len() as usize)
                    &&& added(
                        *old(self),
                        *final(self),
                        PcbRecord::Arc(
                            PcbArc {
                                layer: or_layer(layer, old(self).spec_settings().layer),
                                location: c,
                                radius,
                                start_angle: 0,
                                end_angle: 360,
                                width: or_coord(width, old(self).spec_settings().track_width),
                            },
                        ),
                        PcbEditOperation::AddArc { index: old(self).spec_doc().primitives@.len() as usize },
                        None,
                    )
                },
                None => r is Err && *final(self) == *old(self),
            },
    {
        let c = match self.snap(center) {
            Ok(p) => p,
            Err(e) => return Err(e),
        };
        let arc = PcbArc {
            layer: match layer {
                Some(l) => l,
                None => self.default_layer,
            },
            location: c,
            radius,
            start_angle: 0,
            end_angle: 360,
            width: match width {
                Some(w) => w,
                None => self.default_track_width,
            },
        };
        let index = self.doc.primitives.len();
        self.record_add(PcbRecord::Arc(arc), PcbEditOperation::AddArc { index }, None);
        Ok(index)
    }

    /// Add a region through at least three snapped vertices.
    pub fn add_region(&mut self, vertices: &[CoordPoint], layer: Layer, is_keepout: bool, net: Option<&str>) -> (r:
        Result<usize>)
        ensures
            vertices@.len() < 3 ==> (r matches Err(AltiumError::Parse(m)) && m@
                == "Region requires at least 3 vertices"@ && *final(self) == *old(self)),
            vertices@.len() >= 3 ==> match snap_all(old(self).spec_settings().grid, vertices@) {
                Some(vs) => {
                    &&& r == Result::<usize>::Ok(old(self).spec_doc().primitives@.len() as usize)
                    &&& final(self).spec_doc().primitives@.last() matches PcbRecord::Region(g) && g.layer
                        == layer && g.keepout == is_keepout && g.outline@ == vs
                    &&& added(
                        *old(self),
                        *final(self),
                        final(self).spec_doc().primitives@.last(),
                        PcbEditOperation::AddRegion { index: old(self).spec_doc().primitives@.len() as usize },
                        opt_text(net),
                    )
                },
                None => r is Err && *final(self) == *old(self),
            },
    {
        if vertices.len() < 3 {
            return Err(AltiumError::Parse(text("Region requires at least 3 vertices")));
        }
        let outline = match self.snap_all_exec(vertices) {
            Ok(v) => v,
            Err(e) => return Err(e),
        };
        let region = PcbRegion { layer, keepout: is_keepout, outline };
        let index = self.doc.primitives.len();
        self.record_add(PcbRecord::Region(region), PcbEditOperation::AddRegion { index }, net);
        Ok(index)
    }

    /// Add a rectangular region between two corners.
    pub fn add_rectangular_region(
        &mut self,
        corner1: CoordPoint,
        corner2: CoordPoint,
        layer: Layer,
        is_keepout: bool,
        net: Option<&str>,
    ) -> (r: Result<usize>)
        ensures
            match snap_all(old(self).spec_settings().grid, rect_vertices(corner1, corner2)) {
                Some(vs) => {
                    &&& r == Result::<usize>::Ok(old(self).spec_doc().primitives@.len() as usize)
                    &&& final(self).spec_doc().primitives@.last() matches PcbRecord::Region(g) && g.layer
                        == layer && g.keepout == is_keepout && g.outline@ == vs
                    &&& added(
                        *old(self),
                        *final(self),
                        final(self).spec_doc().primitives@.last(),
                        PcbEditOperation::AddRegion { index: old(self).spec_doc().primitives@.len() as usize },
                        opt_text(net),
                    )
                },
                None => r is Err && *final(self) == *old(self),
            },
    {
        let mut vertices: Vec<CoordPoint> = Vec::new();
        vertices.push(corner1);
        vertices.push(CoordPoint { x: corner2.x, y: corner1.y });
        vertices.push(corner2);
        vertices.push(CoordPoint { x: corner1.x, y: corner2.y });
        assert(vertices@ =~= rect_vertices(corner1, corner2));
        self.add_region(vertices.as_slice(), layer, is_keepout, net)
    }

    /// Add a polygon pour through at least three snapped vertices; its net is
    /// made sure to exist.
    pub fn add_polygon(
        &mut self,
        vertices: &[CoordPoint],
        layer: Layer,
        net_name: &str,
        hatch_style: HatchStyle,
        pour_over_same_net: bool,
        remove_dead_copper: bool,
    ) -> (r: Result<usize>)
        ensures
            vertices@.len() < 3 ==> (r matches Err(AltiumError::Parse(m)) && m@
                == "Polygon requires at least 3 vertices"@ && *final(self) == *old(self)),
            vertices@.len() >= 3 ==> match snap_all(old(self).spec_settings().grid, vertices@) {
                Some(vs) => {
                    &&& r == Result::<usize>::Ok(old(self).spec_doc().primitives@.len() as usize)
                    &&& is_polygon(
                        final(self).spec_doc().primitives@.last(),
                        layer,
                        net_name@,
                        hatch_style,
                        pour_over_same_net,
                        remove_dead_copper,
                        vs,
                    )
                    &&& added(
                        *old(self),
                        *final(self),
                        final(self).spec_doc().primitives@.last(),
                        PcbEditOperation::AddPolygon { index: old(self).spec_doc().primitives@.len() as usize },
                        Some(net_name@),
                    )
                },
                None => r is Err && *final(self) == *old(self),
            },
    {
        if vertices.len() < 3 {
            return Err(AltiumError::Parse(text("Polygon requires at least 3 vertices")));
        }
        let vs = match self.snap_all_exec(vertices) {
            Ok(v) => v,
            Err(e) => return Err(e),
        };
        let polygon = PcbPolygon {
            layer,
            net_name: text(net_name),
            hatch_style,
            pour_over: pour_over_same_net,
            remove_dead: remove_dead_copper,
            vertices: vs,
        };
        let index = self.doc.primitives.len();
        self.record_add(PcbRecord::Polygon(polygon), PcbEditOperation::AddPolygon { index }, Some(net_name));
        Ok(index)
    }

    /// Add a rectangular polygon pour (pouring over its net, removing dead
    /// copper).
    pub fn add_rectangular_polygon(
        &mut self,
        corner1: CoordPoint,
        corner2: CoordPoint,
        layer: Layer,
        net_name: &str,
        hatch_style: HatchStyle,
    ) -> (r: Result<usize>)
        ensures
            match snap_all(old(self).spec_settings().grid, rect_vertices(corner1, corner2)) {
                Some(vs) => {
                    &&& r == Result::<usize>::Ok(old(self).spec_doc().primitives@.len() as usize)
                    &&& is_polygon(final(self).spec_doc().primitives@.last(), layer, net_name@, hatch_style, true, true, vs)
                    &&& added(
                        *old(self),
                        *final(self),
                        final(self).spec_doc().primitives@.last(),
                        PcbEditOperation::AddPolygon { index: old(self).spec_doc().primitives@.len() as usize },
                        Some(net_name@),
                    )
                },
                None => r is Err && *final(self) == *old(self),
            },
    {
        let mut vertices: Vec<CoordPoint> = Vec::new();
        vertices.push(corner1);
        vertices.push(CoordPoint { x: corner2.x, y: corner1.y });
        vertices.push(corner2);
        vertices.push(CoordPoint { x: corner1.x, y: corner2.y });
        assert(vertices@ =~= rect_vertices(corner1, corner2));
        self.add_polygon(vertices.as_slice(), layer, net_name, hatch_style, true, true)
    }
}

// ---------------------------------------------------------------------------
// Routed tracks
// ---------------------------------------------------------------------------

/// Every position resolved, or `None` when one cannot be.
pub open spec fn all_resolved(doc: PcbBoard, b: Option<CoordRect>, g: Grid, ps: Seq<Position>) -> Option<
    Seq<CoordPoint>,
> {
    if forall|i: int| 0 <= i < ps.len() ==> (#[trigger] resolved(doc, b, g, ps[i])) is Some {
        Some(Seq::new(ps.len(), |i: int| resolved(doc, b, g, ps[i]).unwrap()))
    } else {
        None
    }
}

/// The corner of a 45-degree route: a diagonal run from the start as long
/// as the shorter axis distance, toward the end (away from it on an axis
/// where the end is not greater).
pub open spec fn diagonal_mid(s: CoordPoint, e: CoordPoint) -> (int, int) {
    let dx = crate::types::abs_int(e.x.raw - s.x.raw);
    let dy = crate::types::abs_int(e.y.raw - s.y.raw);
    let diag = if dx <= dy {
        dx
    } else {
        dy
    };
    (
        if e.x.raw > s.x.raw {
            s.x.raw + diag
        } else {
            s.x.raw - diag
        },
        if e.y.raw > s.y.raw {
            s.y.raw + diag
        } else {
            s.y.raw - diag
        },
    )
}

/// The vertices a routed path goes through; `None` when a position cannot
/// be resolved or the corner leaves `i32`.
pub open spec fn routed_points(doc: PcbBoard, b: Option<CoordRect>, g: Grid, path: TrackPath) -> Option<
    Seq<CoordPoint>,
> {
    match path {
        TrackPath::Direct { start, end } => match (resolved(doc, b, g, start), resolved(doc, b, g, end)) {
            (Some(s), Some(e)) => Some(seq![s, e]),
            _ => None,
        },
        TrackPath::Manhattan { start, end, prefer_horizontal_first } => match (
            resolved(doc, b, g, start),
            resolved(doc, b, g, end),
        ) {
            (Some(s), Some(e)) => Some(
                seq![
                    s,
                    if prefer_horizontal_first {
                        CoordPoint { x: e.x, y: s.y }
                    } else {
                        CoordPoint { x: s.x, y: e.y }
                    },
                    e,
                ],
            ),
            _ => None,
        },
        TrackPath::Diagonal45 { start, end } => match (resolved(doc, b, g, start), resolved(doc, b, g, end)) {
            (Some(s), Some(e)) => {
                let m = diagonal_mid(s, e);
                if fits_i32(m.0) && fits_i32(m.1) {
                    Some(seq![s, CoordPoint { x: Coord { raw: m.0 as i32 }, y: Coord { raw: m.1 as i32 } }, e])
                } else {
                    None
                }
            },
            _ => None,
        },
        TrackPath::Vertices(ps) => all_resolved(doc, b, g, ps@),
    }
}

impl PcbEditSession {
    /// Resolve every position, stopping at the first failure.
    fn resolve_all(&self, ps: &Vec<Position>) -> (r: Result<Vec<CoordPoint>>)
        ensures
            match all_resolved(self.spec_doc(), self.spec_settings().bounds, self.spec_settings().grid, ps@) {
                Some(v) => r matches Ok(x) && x@ == v,
                None => r is Err,
            },
    {
        let ghost d = self.spec_doc();
        let ghost b = self.spec_settings().bounds;
        let ghost g = self.spec_settings().grid;
        let mut out: Vec<CoordPoint> = Vec::new();
        let mut i: usize = 0;
        while i < ps.len()
            invariant
                d == self.spec_doc(),
                b == self.spec_settings().bounds,
                g == self.spec_settings().grid,
                i <= ps@.len(),
                out@.len() == i,
                forall|k: int| 0 <= k < i ==> (#[trigger] resolved(d, b, g, ps@[k])) == Some(out@[k]),
            decreases ps@.len() - i,
        {
            match self.resolve_position(&ps[i]) {
                Ok(p) => out.push(p),
                Err(e) => {
                    assert(resolved(d, b, g, ps@[i as int]) is None);
                    return Err(e);
                },
            }
            i = i + 1;
        }
        assert(out@ =~= Seq::new(ps@.len(), |k: int| resolved(d, b, g, ps@[k]).unwrap()));
        Ok(out)
    }

    /// Add a track path through already resolved points.
    fn add_points_path(
        &mut self,
        pts: Vec<CoordPoint>,
        width: Option<Coord>,
        layer: Option<Layer>,
        net: Option<&str>,
    ) -> (r: Result<Vec<usize>>)
        ensures
            path_outcome(*old(self), *final(self), pts@, width, layer, opt_text(net), r),
    {
        self.add_track_path(pts.as_slice(), width, layer, net)
    }

    /// The start and end of a two-point route, resolved.
    fn resolve_pair(&self, start: &Position, end: &Position) -> (r: Result<(CoordPoint, CoordPoint)>)
        ensures
            ({
                let d = self.spec_doc();
                let b = self.spec_settings().bounds;
                let g = self.spec_settings().grid;
                match (resolved(d, b, g, *start), resolved(d, b, g, *end)) {
                    (Some(s), Some(e)) => r == Result::<(CoordPoint, CoordPoint)>::Ok((s, e)),
                    _ => r is Err,
                }
            }),
    {
        let sp = match self.resolve_position(start) {
            Ok(p) => p,
            Err(e) => return Err(e),
        };
        let ep = match self.resolve_position(end) {
            Ok(p) => p,
            Err(e) => return Err(e),
        };
        Ok((sp, ep))
    }

    /// The corner of a 45-degree route, or `None` when it leaves `i32`.
    fn diagonal_corner(sp: CoordPoint, ep: CoordPoint) -> (r: Option<CoordPoint>)
        ensures
            ({
                let m = diagonal_mid(sp, ep);
                if fits_i32(m.0) && fits_i32(m.1) {
                    r == Some(CoordPoint { x: Coord { raw: m.0 as i32 }, y: Coord { raw: m.1 as i32 } })
                } else {
                    r is None
                }
            }),
    {
        let dxr: i64 = ep.x.raw as i64 - sp.x.raw as i64;
        let dyr: i64 = ep.y.raw as i64 - sp.y.raw as i64;
        let dx: i64 = if dxr < 0 {
            -dxr
        } else {
            dxr
        };
        let dy: i64 = if dyr < 0 {
            -dyr
        } else {
            dyr
        };
        let diag: i64 = if dx <= dy {
            dx
        } else {
            dy
        };
        let mx: i64 = if ep.x.raw > sp.x.raw {
            sp.x.raw as i64 + diag
        } else {
            sp.x.raw as i64 - diag
        };
        let my: i64 = if ep.y.raw > sp.y.raw {
            sp.y.raw as i64 + diag
        } else {
            sp.y.raw as i64 - diag
        };
        if mx < -2147483648 || mx > 2147483647 || my < -2147483648 || my > 2147483647 {
            return None;
        }
        Some(CoordPoint { x: Coord { raw: mx as i32 }, y: Coord { raw: my as i32 } })
    }

    /// Add the tracks of a routed path.
    pub fn add_track_routed(
        &mut self,
        path: &TrackPath,
        width: Option<Coord>,
        layer: Option<Layer>,
        net: Option<&str>,
    ) -> (r: Result<Vec<usize>>)
        ensures
            match routed_points(
                old(self).spec_doc(),
                old(self).spec_settings().bounds,
                old(self).spec_settings().grid,
                *path,
            ) {
                Some(pts) => path_outcome(*old(self), *final(self), pts, width, layer, opt_text(net), r),
                None => r is Err && *final(self) == *old(self),
            },
    {
        let pts: Vec<CoordPoint> = match path {
            TrackPath::Direct { start, end } => {
                let (sp, ep) = match self.resolve_pair(start, end) {
                    Ok(p) => p,
                    Err(e) => return Err(e),
                };
                let mut pts: Vec<CoordPoint> = Vec::new();
                pts.push(sp);
                pts.push(ep);
                assert(pts@ =~= seq![sp, ep]);
                pts
            },
            TrackPath::Manhattan { start, end, prefer_horizontal_first } => {
                let (sp, ep) = match self.resolve_pair(start, end) {
                    Ok(p) => p,
                    Err(e) => return Err(e),
                };
                let mid = if *prefer_horizontal_first {
                    CoordPoint { x: ep.x, y: sp.y }
                } else {
                    CoordPoint { x: sp.x, y: ep.y }
                };
                let mut pts: Vec<CoordPoint> = Vec::new();
                pts.push(sp);
                pts.push(mid);
                pts.push(ep);
                assert(pts@ =~= seq![sp, mid, ep]);
                pts
            },
            TrackPath::Diagonal45 { start, end } => {
                let (sp, ep) = match self.resolve_pair(start, end) {
                    Ok(p) => p,
                    Err(e) => return Err(e),
                };
                let mid = match Self::diagonal_corner(sp, ep) {
                    Some(m) => m,
                    None => return Err(AltiumError::Parse(text("Position out of range"))),
                };
                let mut pts: Vec<CoordPoint> = Vec::new();
                pts.push(sp);
                pts.push(mid);
                pts.push(ep);
                assert(pts@ =~= seq![sp, mid, ep]);
                pts
            },
            TrackPath::Vertices(positions) => {
                match self.resolve_all(positions) {
                    Ok(v) => v,
                    Err(e) => return Err(e),
                }
            },
        };
        self.add_points_path(pts, width, layer, net)
    }
}

// ---------------------------------------------------------------------------
// Deleting
// ---------------------------------------------------------------------------

/// The records not selected, in order.
pub open spec fn kept(s: Seq<PcbRecord>, sel: Seq<bool>) -> Seq<PcbRecord>
    decreases s.len(),
{
    if s.len() == 0 || sel.len() == 0 {
        Seq::empty()
    } else {
        kept(s.drop_last(), sel.drop_last()) + if sel.last() {
            Seq::<PcbRecord>::empty()
        } else {
            seq![s.last()]
        }
    }
}

/// The delete operations of the selected records, by ascending index.
pub open spec fn removed_ops(s: Seq<PcbRecord>, sel: Seq<bool>) -> Seq<PcbEditOperation>
    decreases s.len(),
{
    if s.len() == 0 || sel.len() == 0 {
        Seq::empty()
    } else {
        removed_ops(s.drop_last(), sel.drop_last()) + if sel.last() {
            seq![
                PcbEditOperation::DeletePrimitive {
                    index: (s.len() - 1) as usize,
                    record: Box::new(s.last()),
                },
            ]
        } else {
            Seq::<PcbEditOperation>::empty()
        }
    }
}

/// The records removed by a selection: the selected primitives were
/// deleted one by one from the highest index down, each deletion recorded.
pub open spec fn deleted_where(old: PcbEditSession, new: PcbEditSession, sel: Seq<bool>, n: usize) -> bool {
    let ops = removed_ops(old.spec_doc().primitives@, sel);
    &&& sel.len() == old.spec_doc().primitives@.len()
    &&& n == ops.len()
    &&& new.spec_doc().primitives@ == kept(old.spec_doc().primitives@, sel)
    &&& new.spec_doc().components == old.spec_doc().components
    &&& new.spec_doc().nets == old.spec_doc().nets
    &&& new.spec_history() == old.spec_history() + ops.reverse()
    &&& (n > 0 ==> new.spec_redo().len() == 0 && new.spec_modified())
    &&& (n == 0 ==> new.spec_redo() == old.spec_redo() && new.spec_modified() == old.spec_modified())
    &&& new.spec_settings() == old.spec_settings()
    &&& new.spec_source_path() == old.spec_source_path()
}

/// `sel` holds the filter's answers on the primitives, in order.
pub open spec fn selected_by<F: Fn(&PcbRecord) -> bool>(f: F, prims: Seq<PcbRecord>, sel: Seq<bool>) -> bool {
    sel.len() == prims.len() && forall|i: int| 0 <= i < sel.len() ==> f.ensures((&prims[i],), #[trigger] sel[i])
}

/// Whether a primitive is a track on a layer.
pub open spec fn is_track_on(p: PcbRecord, layer: Layer) -> bool {
    p matches PcbRecord::Track(t) && t.layer == layer
}

impl PcbEditSession {
    /// Delete a primitive by index.
    pub fn delete_primitive(&mut self, index: usize) -> (r: Result<()>)
        ensures
            index >= old(self).spec_doc().primitives@.len() ==> (r matches Err(AltiumError::Parse(m)) && m@
                == "Invalid primitive index: "@ + crate::error::decimal_text(index as nat) && *final(self)
                == *old(self)),
            index < old(self).spec_doc().primitives@.len() ==> {
                &&& r is Ok
                &&& final(self).spec_doc().primitives@ == old(self).spec_doc().primitives@.remove(index as int)
                &&& final(self).spec_doc().components == old(self).spec_doc().components
                &&& final(self).spec_doc().nets == old(self).spec_doc().nets
                &&& final(self).spec_history() == old(self).spec_history().push(
                    PcbEditOperation::DeletePrimitive {
                        index,
                        record: Box::new(old(self).spec_doc().primitives@[index as int]),
                    },
                )
                &&& final(self).spec_redo().len() == 0
                &&& final(self).spec_modified()
                &&& final(self).spec_settings() == old(self).spec_settings()
                &&& final(self).spec_source_path() == old(self).spec_source_path()
            },
    {
        if index >= self.doc.primitives.len() {
            return Err(AltiumError::Parse(text2("Invalid primitive index: ", usize_text(index).as_str())));
        }
        let record = self.doc.primitives.remove(index);
        self.history.push(PcbEditOperation::DeletePrimitive { index, record: Box::new(record) });
        self.redo_stack.clear();
        self.modified = true;
        Ok(())
    }

    /// Delete every primitive the filter selects; returns how many.
    #[verifier::loop_isolation(false)]
    pub fn delete_primitives_where<F: Fn(&PcbRecord) -> bool>(&mut self, filter: F) -> (r: Result<usize>)
        requires
            forall|p: &PcbRecord| #[trigger] filter.requires((p,)),
        ensures
            exists|sel: Seq<bool>|
                #![trigger selected_by(filter, old(self).spec_doc().primitives@, sel)]
                {
                    &&& selected_by(filter, old(self).spec_doc().primitives@, sel)
                    &&& r matches Ok(n) && deleted_where(*old(self), *final(self), sel, n)
                },
    {
        let mut rest: Vec<PcbRecord> = Vec::new();
        std::mem::swap(&mut rest, &mut self.doc.primitives);
        let ghost orig = rest@;
        let ghost s0 = *old(self);
        assert(orig.len() == rest.len());
        let ghost mut sel: Seq<bool> = Seq::empty();
        let mut removed: Vec<(usize, PcbRecord)> = Vec::new();
        let mut i: usize = 0;
        while rest.len() > 0
            invariant
                forall|p: &PcbRecord| #[trigger] filter.requires((p,)),
                orig == s0.spec_doc().primitives@,
                self.history == s0.history,
                self.redo_stack == s0.redo_stack,
                self.modified == s0.modified,
                self.placement == s0.placement,
                self.source_path == s0.source_path,
                self.default_track_width == s0.default_track_width,
                self.default_via_diameter == s0.default_via_diameter,
                self.default_via_hole == s0.default_via_hole,
                self.default_layer == s0.default_layer,
                self.doc.components == s0.doc.components,
                self.doc.nets == s0.doc.nets,

                i + rest@.len() == orig.len(),
                rest@ == orig.subrange(i as int, orig.len() as int),
                sel.len() == i,
                forall|k: int| 0 <= k < i ==> filter.ensures((&orig[k],), #[trigger] sel[k]),
                self.doc.primitives@ == kept(orig.take(i as int), sel),
                removed@.map_values(
                    |e: (usize, PcbRecord)|
                        PcbEditOperation::DeletePrimitive { index: e.0, record: Box::new(e.1) },
                ) == removed_ops(orig.take(i as int), sel),
            decreases rest@.len(),
        {
            let rec = rest.remove(0);
            assert(rec == orig[i as int]);
            let b = filter(&rec);
            proof {
                assert(orig.take(i + 1).drop_last() =~= orig.take(i as int));
                assert(sel.push(b).drop_last() =~= sel);
                sel = sel.push(b);
            }
            if b {
                let ghost before = removed@;
                removed.push((i, rec));
                assert(removed@.map_values(
                    |e: (usize, PcbRecord)|
                        PcbEditOperation::DeletePrimitive { index: e.0, record: Box::new(e.1) },
                ) =~= before.map_values(
                    |e: (usize, PcbRecord)|
                        PcbEditOperation::DeletePrimitive { index: e.0, record: Box::new(e.1) },
                ) + seq![PcbEditOperation::DeletePrimitive { index: i, record: Box::new(orig[i as int]) }]);
            } else {
                self.doc.primitives.push(rec);
            }
            assert(rest@ =~= orig.subrange(i + 1, orig.len() as int));
            i = i + 1;
        }
        assert(orig.take(i as int) =~= orig);
        assert(selected_by(filter, orig, sel));
        let ghost ops = removed_ops(orig, sel);
        let count = removed.len();
        let ghost h0 = self.history@;
        let mut k: usize = 0;
        while removed.len() > 0
            invariant
                k + removed@.len() == count,
                count == ops.len(),
                removed@.map_values(
                    |e: (usize, PcbRecord)|
                        PcbEditOperation::DeletePrimitive { index: e.0, record: Box::new(e.1) },
                ) == ops.take(removed@.len() as int),
                self.history@ == h0 + ops.reverse().take(k as int),
                k > 0 ==> self.redo_stack@.len() == 0 && self.modified,
                k == 0 ==> self.redo_stack@ == s0.spec_redo() && self.modified == s0.spec_modified(),
                h0 == s0.spec_history(),
                self.placement == s0.placement,
                self.source_path == s0.source_path,
                self.default_track_width == s0.default_track_width,
                self.default_via_diameter == s0.default_via_diameter,
                self.default_via_hole == s0.default_via_hole,
                self.default_layer == s0.default_layer,
                self.doc.components == s0.doc.components,
                self.doc.nets == s0.doc.nets,
                self.doc.primitives@ == kept(orig, sel),
            decreases removed@.len(),
        {
            let ghost before = removed@;
            let (idx, rec) = removed.pop().unwrap();
            assert(removed@ =~= before.drop_last());
            self.history.push(PcbEditOperation::DeletePrimitive { index: idx, record: Box::new(rec) });
            self.redo_stack.clear();
            self.modified = true;
            proof {
                let f = |e: (usize, PcbRecord)| PcbEditOperation::DeletePrimitive { index: e.0, record: Box::new(e.1) };
                assert(before.map_values(f)[before.len() - 1] == ops[before.len() - 1]);
                assert(ops.reverse().take(k + 1) =~= ops.reverse().take(k as int).push(ops[count - 1 - k]));
                assert(removed@.map_values(f) =~= ops.take(removed@.len() as int));
            }
            k = k + 1;
        }
        assert(ops.reverse().take(k as int) =~= ops.reverse());
        Ok(count)
    }

    /// Delete all tracks on a layer; returns how many.
    pub fn delete_tracks_on_layer(&mut self, layer: Layer) -> (r: Result<usize>)
        ensures
            r matches Ok(n) && deleted_where(
                *old(self),
                *final(self),
                Seq::new(
                    old(self).spec_doc().primitives@.len(),
                    |i: int| is_track_on(old(self).spec_doc().primitives@[i], layer),
                ),
                n,
            ),
    {
        let f = |p: &PcbRecord| -> (b: bool)
            ensures
                b == is_track_on(*p, layer),
            {
                match p {
                    PcbRecord::Track(t) => t.layer.id == layer.id,
                    _ => false,
                }
            };
        let r = self.delete_primitives_where(f);
        proof {
            let sel = choose|sel: Seq<bool>|
                #![trigger selected_by(f, old(self).spec_doc().primitives@, sel)]
                {
                    &&& selected_by(f, old(self).spec_doc().primitives@, sel)
                    &&& r matches Ok(n) && deleted_where(*old(self), *final(self), sel, n)
                };
            assert(sel =~= Seq::new(
                old(self).spec_doc().primitives@.len(),
                |i: int| is_track_on(old(self).spec_doc().primitives@[i], layer),
            ));
        }
        r
    }

    /// Delete all vias; returns how many.
    pub fn delete_all_vias(&mut self) -> (r: Result<usize>)
        ensures
            r matches Ok(n) && deleted_where(
                *old(self),
                *final(self),
                Seq::new(
                    old(self).spec_doc().primitives@.len(),
                    |i: int| old(self).spec_doc().primitives@[i] is Via,
                ),
                n,
            ),
    {
        let f = |p: &PcbRecord| -> (b: bool)
            ensures
                b == (*p is Via),
            {
                match p {
                    PcbRecord::Via(_) => true,
                    _ => false,
                }
            };
        let r = self.delete_primitives_where(f);
        proof {
            let sel = choose|sel: Seq<bool>|
                #![trigger selected_by(f, old(self).spec_doc().primitives@, sel)]
                {
                    &&& selected_by(f, old(self).spec_doc().primitives@, sel)
                    &&& r matches Ok(n) && deleted_where(*old(self), *final(self), sel, n)
                };
            assert(sel =~= Seq::new(
                old(self).spec_doc().primitives@.len(),
                |i: int| old(self).spec_doc().primitives@[i] is Via,
            ));
        }
        r
    }
}

// ---------------------------------------------------------------------------
// Queries
// ---------------------------------------------------------------------------

/// Indices of the primitives of a kind, in order.
pub open spec fn kind_ids(prims: Seq<PcbRecord>, k: PrimitiveKind) -> Seq<usize>
    decreases prims.len(),
{
    if prims.len() == 0 {
        Seq::empty()
    } else {
        let r = kind_ids(prims.drop_last(), k);
        if prims.last().spec_kind() == k {
            r.push((prims.len() - 1) as usize)
        } else {
            r
        }
    }
}

/// Number of primitives of a kind.
pub open spec fn count_kind(prims: Seq<PcbRecord>, k: PrimitiveKind) -> nat
    decreases prims.len(),
{
    if prims.len() == 0 {
        0
    } else {
        count_kind(prims.drop_last(), k) + if prims.last().spec_kind() == k {
            1nat
        } else {
            0nat
        }
    }
}

/// Indices of the tracks on a layer, in order.
pub open spec fn track_ids_on(prims: Seq<PcbRecord>, layer: Layer) -> Seq<usize>
    decreases prims.len(),
{
    if prims.len() == 0 {
        Seq::empty()
    } else {
        let r = track_ids_on(prims.drop_last(), layer);
        if is_track_on(prims.last(), layer) {
            r.push((prims.len() - 1) as usize)
        } else {
            r
        }
    }
}

impl PcbEditSession {
    /// All tracks with their indices, in order.
    pub fn tracks(&self) -> (r: Vec<(usize, PcbTrack)>)
        ensures
            r@.map_values(|e: (usize, PcbTrack)| e.0) == kind_ids(self.spec_doc().primitives@, PrimitiveKind::Track),
            forall|k: int|
                0 <= k < r@.len() ==> self.spec_doc().primitives@[(#[trigger] r@[k]).0 as int]
                    == PcbRecord::Track(r@[k].1),
    {
        let mut out: Vec<(usize, PcbTrack)> = Vec::new();
        let mut i: usize = 0;
        while i < self.doc.primitives.len()
            invariant
                i <= self.doc.primitives@.len(),
                out@.map_values(|e: (usize, PcbTrack)| e.0) == kind_ids(
                    self.doc.primitives@.take(i as int),
                    PrimitiveKind::Track,
                ),
                forall|k: int|
                    0 <= k < out@.len() ==> (#[trigger] out@[k]).0 < i && self.doc.primitives@[out@[k].0 as int]
                        == PcbRecord::Track(out@[k].1),
            decreases self.doc.primitives@.len() - i,
        {
            assert(self.doc.primitives@.take(i + 1).drop_last() =~= self.doc.primitives@.take(i as int));
            let ghost before = out@;
            match &self.doc.primitives[i] {
                PcbRecord::Track(x) => {
                    out.push((i, *x));
                    assert(out@.map_values(|e: (usize, PcbTrack)| e.0) =~= before.map_values(
                        |e: (usize, PcbTrack)| e.0,
                    ).push(i));
                },
                _ => {},
            }
            i = i + 1;
        }
        assert(self.doc.primitives@.take(i as int) =~= self.doc.primitives@);
        out
    }

    /// All vias with their indices, in order.
    pub fn vias(&self) -> (r: Vec<(usize, PcbVia)>)
        ensures
            r@.map_values(|e: (usize, PcbVia)| e.0) == kind_ids(self.spec_doc().primitives@, PrimitiveKind::Via),
            forall|k: int|
                0 <= k < r@.len() ==> self.spec_doc().primitives@[(#[trigger] r@[k]).0 as int]
                    == PcbRecord::Via(r@[k].1),
    {
        let mut out: Vec<(usize, PcbVia)> = Vec::new();
        let mut i: usize = 0;
        while i < self.doc.primitives.len()
            invariant
                i <= self.doc.primitives@.len(),
                out@.map_values(|e: (usize, PcbVia)| e.0) == kind_ids(
                    self.doc.primitives@.take(i as int),
                    PrimitiveKind::Via,
                ),
                forall|k: int|
                    0 <= k < out@.len() ==> (#[trigger] out@[k]).0 < i && self.doc.primitives@[out@[k].0 as int]
                        == PcbRecord::Via(out@[k].1),
            decreases self.doc.primitives@.len() - i,
        {
            assert(self.doc.primitives@.take(i + 1).drop_last() =~= self.doc.primitives@.take(i as int));
            let ghost before = out@;
            match &self.doc.primitives[i] {
                PcbRecord::Via(x) => {
                    out.push((i, *x));
                    assert(out@.map_values(|e: (usize, PcbVia)| e.0) =~= before.map_values(
                        |e: (usize, PcbVia)| e.0,
                    ).push(i));
                },
                _ => {},
            }
            i = i + 1;
        }
        assert(self.doc.primitives@.take(i as int) =~= self.doc.primitives@);
        out
    }

    /// All pads with their indices, in order.
    pub fn pads(&self) -> (r: Vec<(usize, &PcbPad)>)
        ensures
            r@.map_values(|e: (usize, &PcbPad)| e.0) == kind_ids(self.spec_doc().primitives@, PrimitiveKind::Pad),
            forall|k: int|
                0 <= k < r@.len() ==> self.spec_doc().primitives@[(#[trigger] r@[k]).0 as int]
                    == PcbRecord::Pad(*r@[k].1),
    {
        let mut out: Vec<(usize, &PcbPad)> = Vec::new();
        let mut i: usize = 0;
        while i < self.doc.primitives.len()
            invariant
                i <= self.doc.primitives@.len(),
                out@.map_values(|e: (usize, &PcbPad)| e.0) == kind_ids(
                    self.doc.primitives@.take(i as int),
                    PrimitiveKind::Pad,
                ),
                forall|k: int|
                    0 <= k < out@.len() ==> (#[trigger] out@[k]).0 < i && self.doc.primitives@[out@[k].0 as int]
                        == PcbRecord::Pad(*out@[k].1),
            decreases self.doc.primitives@.len() - i,
        {
            assert(self.doc.primitives@.take(i + 1).drop_last() =~= self.doc.primitives@.take(i as int));
            let ghost before = out@;
            match &self.doc.primitives[i] {
                PcbRecord::Pad(x) => {
                    out.push((i, x));
                    assert(out@.map_values(|e: (usize, &PcbPad)| e.0) =~= before.map_values(
                        |e: (usize, &PcbPad)| e.0,
                    ).push(i));
                },
                _ => {},
            }
            i = i + 1;
        }
        assert(self.doc.primitives@.take(i as int) =~= self.doc.primitives@);
        out
    }

    /// All arcs with their indices, in order.
    pub fn arcs(&self) -> (r: Vec<(usize, PcbArc)>)
        ensures
            r@.map_values(|e: (usize, PcbArc)| e.0) == kind_ids(self.spec_doc().primitives@, PrimitiveKind::Arc),
            forall|k: int|
                0 <= k < r@.len() ==> self.spec_doc().primitives@[(#[trigger] r@[k]).0 as int]
                    == PcbRecord::Arc(r@[k].1),
    {
        let mut out: Vec<(usize, PcbArc)> = Vec::new();
        let mut i: usize = 0;
        while i < self.doc.primitives.len()
            invariant
                i <= self.doc.primitives@.len(),
                out@.map_values(|e: (usize, PcbArc)| e.0) == kind_ids(
                    self.doc.primitives@.take(i as int),
                    PrimitiveKind::Arc,
                ),
                forall|k: int|
                    0 <= k < out@.len() ==> (#[trigger] out@[k]).0 < i && self.doc.primitives@[out@[k].0 as int]
                        == PcbRecord::Arc(out@[k].1),
            decreases self.doc.primitives@.len() - i,
        {
            assert(self.doc.primitives@.take(i + 1).drop_last() =~= self.doc.primitives@.take(i as int));
            let ghost before = out@;
            match &self.doc.primitives[i] {
                PcbRecord::Arc(x) => {
                    out.push((i, *x));
                    assert(out@.map_values(|e: (usize, PcbArc)| e.0) =~= before.map_values(
                        |e: (usize, PcbArc)| e.0,
                    ).push(i));
                },
                _ => {},
            }
            i = i + 1;
        }
        assert(self.doc.primitives@.take(i as int) =~= self.doc.primitives@);
        out
    }

    /// All fills with their indices, in order.
    pub fn fills(&self) -> (r: Vec<(usize, PcbFill)>)
        ensures
            r@.map_values(|e: (usize, PcbFill)| e.0) == kind_ids(self.spec_doc().primitives@, PrimitiveKind::Fill),
            forall|k: int|
                0 <= k < r@.len() ==> self.spec_doc().primitives@[(#[trigger] r@[k]).0 as int]
                    == PcbRecord::Fill(r@[k].1),
    {
        let mut out: Vec<(usize, PcbFill)> = Vec::new();
        let mut i: usize = 0;
        while i < self.doc.primitives.len()
            invariant
                i <= self.doc.primitives@.len(),
                out@.map_values(|e: (usize, PcbFill)| e.0) == kind_ids(
                    self.doc.primitives@.take(i as int),
                    PrimitiveKind::Fill,
                ),
                forall|k: int|
                    0 <= k < out@.len() ==> (#[trigger] out@[k]).0 < i && self.doc.primitives@[out@[k].0 as int]
                        == PcbRecord::Fill(out@[k].1),
            decreases self.doc.primitives@.len() - i,
        {
            assert(self.doc.primitives@.take(i + 1).drop_last() =~= self.doc.primitives@.take(i as int));
            let ghost before = out@;
            match &self.doc.primitives[i] {
                PcbRecord::Fill(x) => {
                    out.push((i, *x));
                    assert(out@.map_values(|e: (usize, PcbFill)| e.0) =~= before.map_values(
                        |e: (usize, PcbFill)| e.0,
                    ).push(i));
                },
                _ => {},
            }
            i = i + 1;
        }
        assert(self.doc.primitives@.take(i as int) =~= self.doc.primitives@);
        out
    }

    /// All texts with their indices, in order.
    pub fn texts(&self) -> (r: Vec<(usize, &PcbText)>)
        ensures
            r@.map_values(|e: (usize, &PcbText)| e.0) == kind_ids(self.spec_doc().primitives@, PrimitiveKind::Text),
            forall|k: int|
                0 <= k < r@.len() ==> self.spec_doc().primitives@[(#[trigger] r@[k]).0 as int]
                    == PcbRecord::Text(*r@[k].1),
    {
        let mut out: Vec<(usize, &PcbText)> = Vec::new();
        let mut i: usize = 0;
        while i < self.doc.primitives.len()
            invariant
                i <= self.doc.primitives@.len(),
                out@.map_values(|e: (usize, &PcbText)| e.0) == kind_ids(
                    self.doc.primitives@.take(i as int),
                    PrimitiveKind::Text,
                ),
                forall|k: int|
                    0 <= k < out@.len() ==> (#[trigger] out@[k]).0 < i && self.doc.primitives@[out@[k].0 as int]
                        == PcbRecord::Text(*out@[k].1),
            decreases self.doc.primitives@.len() - i,
        {
            assert(self.doc.primitives@.take(i + 1).drop_last() =~= self.doc.primitives@.take(i as int));
            let ghost before = out@;
            match &self.doc.primitives[i] {
                PcbRecord::Text(x) => {
                    out.push((i, x));
                    assert(out@.map_values(|e: (usize, &PcbText)| e.0) =~= before.map_values(
                        |e: (usize, &PcbText)| e.0,
                    ).push(i));
                },
                _ => {},
            }
            i = i + 1;
        }
        assert(self.doc.primitives@.take(i as int) =~= self.doc.primitives@);
        out
    }

    /// All regions with their indices, in order.
    pub fn regions(&self) -> (r: Vec<(usize, &PcbRegion)>)
        ensures
            r@.map_values(|e: (usize, &PcbRegion)| e.0) == kind_ids(self.spec_doc().primitives@, PrimitiveKind::Region),
            forall|k: int|
                0 <= k < r@.len() ==> self.spec_doc().primitives@[(#[trigger] r@[k]).0 as int]
                    == PcbRecord::Region(*r@[k].1),
    {
        let mut out: Vec<(usize, &PcbRegion)> = Vec::new();
        let mut i: usize = 0;
        while i < self.doc.primitives.len()
            invariant
                i <= self.doc.primitives@.len(),
                out@.map_values(|e: (usize, &PcbRegion)| e.0) == kind_ids(
                    self.doc.primitives@.take(i as int),
                    PrimitiveKind::Region,
                ),
                forall|k: int|
                    0 <= k < out@.len() ==> (#[trigger] out@[k]).0 < i && self.doc.primitives@[out@[k].0 as int]
                        == PcbRecord::Region(*out@[k].1),
            decreases self.doc.primitives@.len() - i,
        {
            assert(self.doc.primitives@.take(i + 1).drop_last() =~= self.doc.primitives@.take(i as int));
            let ghost before = out@;
            match &self.doc.primitives[i] {
                PcbRecord::Region(x) => {
                    out.push((i, x));
                    assert(out@.map_values(|e: (usize, &PcbRegion)| e.0) =~= before.map_values(
                        |e: (usize, &PcbRegion)| e.0,
                    ).push(i));
                },
                _ => {},
            }
            i = i + 1;
        }
        assert(self.doc.primitives@.take(i as int) =~= self.doc.primitives@);
        out
    }

    /// All polygons with their indices, in order.
    pub fn polygons(&self) -> (r: Vec<(usize, &PcbPolygon)>)
        ensures
            r@.map_values(|e: (usize, &PcbPolygon)| e.0) == kind_ids(self.spec_doc().primitives@, PrimitiveKind::Polygon),
            forall|k: int|
                0 <= k < r@.len() ==> self.spec_doc().primitives@[(#[trigger] r@[k]).0 as int]
                    == PcbRecord::Polygon(*r@[k].1),
    {
        let mut out: Vec<(usize, &PcbPolygon)> = Vec::new();
        let mut i: usize = 0;
        while i < self.doc.primitives.len()
            invariant
                i <= self.doc.primitives@.len(),
                out@.map_values(|e: (usize, &PcbPolygon)| e.0) == kind_ids(
                    self.doc.primitives@.take(i as int),
                    PrimitiveKind::Polygon,
                ),
                forall|k: int|
                    0 <= k < out@.len() ==> (#[trigger] out@[k]).0 < i && self.doc.primitives@[out@[k].0 as int]
                        == PcbRecord::Polygon(*out@[k].1),
            decreases self.doc.primitives@.len() - i,
        {
            assert(self.doc.primitives@.take(i + 1).drop_last() =~= self.doc.primitives@.take(i as int));
            let ghost before = out@;
            match &self.doc.primitives[i] {
                PcbRecord::Polygon(x) => {
                    out.push((i, x));
                    assert(out@.map_values(|e: (usize, &PcbPolygon)| e.0) =~= before.map_values(
                        |e: (usize, &PcbPolygon)| e.0,
                    ).push(i));
                },
                _ => {},
            }
            i = i + 1;
        }
        assert(self.doc.primitives@.take(i as int) =~= self.doc.primitives@);
        out
    }

    /// Tracks on a layer with their indices, in order.
    pub fn tracks_on_layer(&self, layer: Layer) -> (r: Vec<(usize, PcbTrack)>)
        ensures
            r@.map_values(|e: (usize, PcbTrack)| e.0) == track_ids_on(self.spec_doc().primitives@, layer),
            forall|k: int|
                0 <= k < r@.len() ==> self.spec_doc().primitives@[(#[trigger] r@[k]).0 as int]
                    == PcbRecord::Track(r@[k].1),
    {
        let mut out: Vec<(usize, PcbTrack)> = Vec::new();
        let mut i: usize = 0;
        while i < self.doc.primitives.len()
            invariant
                i <= self.doc.primitives@.len(),
                out@.map_values(|e: (usize, PcbTrack)| e.0) == track_ids_on(self.doc.primitives@.take(i as int), layer),
                forall|k: int|
                    0 <= k < out@.len() ==> (#[trigger] out@[k]).0 < i && self.doc.primitives@[out@[k].0 as int]
                        == PcbRecord::Track(out@[k].1),
            decreases self.doc.primitives@.len() - i,
        {
            assert(self.doc.primitives@.take(i + 1).drop_last() =~= self.doc.primitives@.take(i as int));
            let ghost before = out@;
            match &self.doc.primitives[i] {
                PcbRecord::Track(t) => {
                    if t.layer.id == layer.id {
                        out.push((i, *t));
                        assert(out@.map_values(|e: (usize, PcbTrack)| e.0) =~= before.map_values(
                            |e: (usize, PcbTrack)| e.0,
                        ).push(i));
                    }
                },
                _ => {},
            }
            i = i + 1;
        }
        assert(self.doc.primitives@.take(i as int) =~= self.doc.primitives@);
        out
    }

    /// Count primitives by kind.
    pub fn count_primitives(&self) -> (r: PrimitiveCount)
        ensures
            r.tracks == count_kind(self.spec_doc().primitives@, PrimitiveKind::Track),
            r.vias == count_kind(self.spec_doc().primitives@, PrimitiveKind::Via),
            r.pads == count_kind(self.spec_doc().primitives@, PrimitiveKind::Pad),
            r.arcs == count_kind(self.spec_doc().primitives@, PrimitiveKind::Arc),
            r.fills == count_kind(self.spec_doc().primitives@, PrimitiveKind::Fill),
            r.texts == count_kind(self.spec_doc().primitives@, PrimitiveKind::Text),
            r.regions == count_kind(self.spec_doc().primitives@, PrimitiveKind::Region),
            r.polygons == count_kind(self.spec_doc().primitives@, PrimitiveKind::Polygon),
            r.other == count_kind(self.spec_doc().primitives@, PrimitiveKind::Other),
            r.spec_total() == self.spec_doc().primitives@.len(),
    {
        let mut c = PrimitiveCount {
            tracks: 0,
            vias: 0,
            pads: 0,
            arcs: 0,
            fills: 0,
            texts: 0,
            regions: 0,
            polygons: 0,
            other: 0,
        };
        let mut i: usize = 0;
        while i < self.doc.primitives.len()
            invariant
                i <= self.doc.primitives@.len(),
                c.tracks == count_kind(self.doc.primitives@.take(i as int), PrimitiveKind::Track),
                c.vias == count_kind(self.doc.primitives@.take(i as int), PrimitiveKind::Via),
                c.pads == count_kind(self.doc.primitives@.take(i as int), PrimitiveKind::Pad),
                c.arcs == count_kind(self.doc.primitives@.take(i as int), PrimitiveKind::Arc),
                c.fills == count_kind(self.doc.primitives@.take(i as int), PrimitiveKind::Fill),
                c.texts == count_kind(self.doc.primitives@.take(i as int), PrimitiveKind::Text),
                c.regions == count_kind(self.doc.primitives@.take(i as int), PrimitiveKind::Region),
                c.polygons == count_kind(self.doc.primitives@.take(i as int), PrimitiveKind::Polygon),
                c.other == count_kind(self.doc.primitives@.take(i as int), PrimitiveKind::Other),
                c.spec_total() == i,
            decreases self.doc.primitives@.len() - i,
        {
            assert(self.doc.primitives@.take(i + 1).drop_last() =~= self.doc.primitives@.take(i as int));
            match &self.doc.primitives[i] {
                PcbRecord::Track(_) => c.tracks = c.tracks + 1,
                PcbRecord::Via(_) => c.vias = c.vias + 1,
                PcbRecord::Pad(_) => c.pads = c.pads + 1,
                PcbRecord::Arc(_) => c.arcs = c.arcs + 1,
                PcbRecord::Fill(_) => c.fills = c.fills + 1,
                PcbRecord::Text(_) => c.texts = c.texts + 1,
                PcbRecord::Region(_) => c.regions = c.regions + 1,
                PcbRecord::Polygon(_) => c.polygons = c.polygons + 1,
                PcbRecord::Other(_) => c.other = c.other + 1,
            }
            i = i + 1;
        }
        assert(self.doc.primitives@.take(i as int) =~= self.doc.primitives@);
        c
    }
}

// ---------------------------------------------------------------------------
// Undo and redo
// ---------------------------------------------------------------------------

/// Operations a session records: additions and deletions of primitives.
pub open spec fn ops_ok(h: Seq<PcbEditOperation>) -> bool {
    forall|i: int| 0 <= i < h.len() ==> (add_index(#[trigger] h[i]) is Some || h[i] is DeletePrimitive)
}

/// The primitives after undoing an operation.
pub open spec fn undo_prims(prims: Seq<PcbRecord>, op: PcbEditOperation) -> Seq<PcbRecord> {
    match op {
        PcbEditOperation::DeletePrimitive { index, record } => prims.insert(index as int, *record),
        _ => match add_index(op) {
            Some(i) => if i < prims.len() {
                prims.remove(i as int)
            } else {
                prims
            },
            None => prims,
        },
    }
}

/// The primitives after redoing a deletion.
pub open spec fn redo_prims(prims: Seq<PcbRecord>, op: PcbEditOperation) -> Seq<PcbRecord> {
    match op {
        PcbEditOperation::DeletePrimitive { index, .. } => if index < prims.len() {
            prims.remove(index as int)
        } else {
            prims
        },
        _ => prims,
    }
}

/// Whether undoing the last operation can proceed: a deletion is undone by
/// inserting at its index, which must not lie past the end.
pub open spec fn undo_ok(s: PcbEditSession) -> bool {
    &&& ops_ok(s.spec_history())
    &&& ops_ok(s.spec_redo())
    &&& (s.spec_history().len() > 0 ==> (s.spec_history().last() matches PcbEditOperation::DeletePrimitive {
        index,
        ..
    } ==> index <= s.spec_doc().primitives@.len()))
}

/// Two recorded operations of the same kind at the same index.
pub open spec fn same_op(a: PcbEditOperation, b: PcbEditOperation) -> bool {
    match (a, b) {
        (PcbEditOperation::DeletePrimitive { index: i, .. }, PcbEditOperation::DeletePrimitive { index: j, .. }) => i
            == j,
        _ => a == b,
    }
}

impl PcbEditSession {
    /// Undo the last operation.
    pub fn undo(&mut self) -> (r: Result<()>)
        requires
            undo_ok(*old(self)),
        ensures
            old(self).spec_history().len() == 0 ==> (r matches Err(AltiumError::Parse(m)) && m@ == "Nothing to undo"@
                && *final(self) == *old(self)),
            old(self).spec_history().len() > 0 ==> {
                let op = old(self).spec_history().last();
                &&& r is Ok
                &&& final(self).spec_doc().primitives@ == undo_prims(old(self).spec_doc().primitives@, op)
                &&& final(self).spec_doc().components == old(self).spec_doc().components
                &&& final(self).spec_doc().nets == old(self).spec_doc().nets
                &&& final(self).spec_history() == old(self).spec_history().drop_last()
                &&& final(self).spec_redo().len() == old(self).spec_redo().len() + 1
                &&& final(self).spec_redo().drop_last() == old(self).spec_redo()
                &&& same_op(final(self).spec_redo().last(), op)
                &&& final(self).spec_modified()
                &&& final(self).spec_settings() == old(self).spec_settings()
                &&& final(self).spec_source_path() == old(self).spec_source_path()
            },
            ops_ok(final(self).spec_history()) && ops_ok(final(self).spec_redo()),
    {
        if self.history.len() == 0 {
            return Err(AltiumError::Parse(text("Nothing to undo")));
        }
        let op = self.history.pop().unwrap();
        let ghost hist = self.history@;
        assert(old(self).spec_history().drop_last() =~= hist);
        let redo_op = match op {
            PcbEditOperation::DeletePrimitive { index, record } => {
                let kept_copy = (*record).clone();
                self.doc.primitives.insert(index, *record);
                PcbEditOperation::DeletePrimitive { index, record: Box::new(kept_copy) }
            },
            PcbEditOperation::AddTrack { index } => {
                if index < self.doc.primitives.len() {
                    self.doc.primitives.remove(index);
                }
                PcbEditOperation::AddTrack { index }
            },
            PcbEditOperation::AddVia { index } => {
                if index < self.doc.primitives.len() {
                    self.doc.primitives.remove(index);
                }
                PcbEditOperation::AddVia { index }
            },
            PcbEditOperation::AddPad { index } => {
                if index < self.doc.primitives.len() {
                    self.doc.primitives.remove(index);
                }
                PcbEditOperation::AddPad { index }
            },
            PcbEditOperation::AddArc { index } => {
                if index < self.doc.primitives.len() {
                    self.doc.primitives.remove(index);
                }
                PcbEditOperation::AddArc { index }
            },
            PcbEditOperation::AddFill { index } => {
                if index < self.doc.primitives.len() {
                    self.doc.primitives.remove(index);
                }
                PcbEditOperation::AddFill { index }
            },
            PcbEditOperation::AddText { index } => {
                if index < self.doc.primitives.len() {
                    self.doc.primitives.remove(index);
                }
                PcbEditOperation::AddText { index }
            },
            PcbEditOperation::AddRegion { index } => {
                if index < self.doc.primitives.len() {
                    self.doc.primitives.remove(index);
                }
                PcbEditOperation::AddRegion { index }
            },
            PcbEditOperation::AddPolygon { index } => {
                if index < self.doc.primitives.len() {
                    self.doc.primitives.remove(index);
                }
                PcbEditOperation::AddPolygon { index }
            },
            PcbEditOperation::ModifyPrimitive { index, old, new } => {
                // never recorded by a session (see `ops_ok`)
                PcbEditOperation::ModifyPrimitive { index, old, new }
            },
            PcbEditOperation::MoveComponent { designator, old_pos, new_pos } => {
                // never recorded by a session (see `ops_ok`)
                PcbEditOperation::MoveComponent { designator, old_pos, new_pos }
            },
        };
        self.redo_stack.push(redo_op);
        self.modified = true;
        proof {
            assert forall|i: int| 0 <= i < self.redo_stack@.len() implies (add_index(#[trigger] self.redo_stack@[i]) is Some
                || self.redo_stack@[i] is DeletePrimitive) by {
                if i < self.redo_stack@.len() - 1 {
                    assert(self.redo_stack@[i] == old(self).spec_redo()[i]);
                }
            }
            assert forall|i: int| 0 <= i < self.history@.len() implies (add_index(#[trigger] self.history@[i]) is Some
                || self.history@[i] is DeletePrimitive) by {
                assert(self.history@[i] == old(self).spec_history()[i]);
            }
        }
        Ok(())
    }

    /// Redo the last undone operation. Additions cannot be redone: the
    /// operation is dropped and an error returned.
    pub fn redo(&mut self) -> (r: Result<()>)
        requires
            ops_ok(old(self).spec_history()),
            ops_ok(old(self).spec_redo()),
        ensures
            old(self).spec_redo().len() == 0 ==> (r matches Err(AltiumError::Parse(m)) && m@ == "Nothing to redo"@
                && *final(self) == *old(self)),
            old(self).spec_redo().len() > 0 && add_index(old(self).spec_redo().last()) is Some ==> {
                &&& r matches Err(AltiumError::Parse(m)) && m@ == "Cannot redo add operation"@
                &&& final(self).spec_doc() == old(self).spec_doc()
                &&& final(self).spec_redo() == old(self).spec_redo().drop_last()
                &&& final(self).spec_history() == old(self).spec_history()
                &&& final(self).spec_modified() == old(self).spec_modified()
                &&& final(self).spec_settings() == old(self).spec_settings()
                &&& final(self).spec_source_path() == old(self).spec_source_path()
            },
            old(self).spec_redo().len() > 0 && add_index(old(self).spec_redo().last()) is None ==> {
                let op = old(self).spec_redo().last();
                &&& r is Ok
                &&& final(self).spec_doc().primitives@ == redo_prims(old(self).spec_doc().primitives@, op)
                &&& final(self).spec_doc().components == old(self).spec_doc().components
                &&& final(self).spec_doc().nets == old(self).spec_doc().nets
                &&& final(self).spec_redo() == old(self).spec_redo().drop_last()
                &&& final(self).spec_history() == old(self).spec_history().push(op)
                &&& final(self).spec_modified()
                &&& final(self).spec_settings() == old(self).spec_settings()
                &&& final(self).spec_source_path() == old(self).spec_source_path()
            },
            ops_ok(final(self).spec_history()) && ops_ok(final(self).spec_redo()),
    {
        if self.redo_stack.len() == 0 {
            return Err(AltiumError::Parse(text("Nothing to redo")));
        }
        let op = self.redo_stack.pop().unwrap();
        assert(old(self).spec_redo().drop_last() =~= self.redo_stack@);
        proof {
            assert forall|i: int| 0 <= i < self.redo_stack@.len() implies (add_index(#[trigger] self.redo_stack@[i]) is Some
                || self.redo_stack@[i] is DeletePrimitive) by {
                assert(self.redo_stack@[i] == old(self).spec_redo()[i]);
            }
        }
        match &op {
            PcbEditOperation::DeletePrimitive { index, .. } => {
                if *index < self.doc.primitives.len() {
                    self.doc.primitives.remove(*index);
                }
            },
            PcbEditOperation::ModifyPrimitive { .. } => {},
            PcbEditOperation::MoveComponent { .. } => {},
            _ => {
                return Err(AltiumError::Parse(text("Cannot redo add operation")));
            },
        }
        self.history.push(op);
        self.modified = true;
        proof {
            assert forall|i: int| 0 <= i < self.history@.len() implies (add_index(#[trigger] self.history@[i]) is Some
                || self.history@[i] is DeletePrimitive) by {
                if i < self.history@.len() - 1 {
                    assert(self.history@[i] == old(self).spec_history()[i]);
                }
            }
        }
        Ok(())
    }

    /// Clear the undo and redo history.
    pub fn clear_history(&mut self)
        ensures
            final(self).spec_history().len() == 0,
            final(self).spec_redo().len() == 0,
            final(self).spec_doc() == old(self).spec_doc(),
            final(self).spec_modified() == old(self).spec_modified(),
            final(self).spec_settings() == old(self).spec_settings(),
            final(self).spec_source_path() == old(self).spec_source_path(),
    {
        self.history.clear();
        self.redo_stack.clear();
    }
}

// ---------------------------------------------------------------------------
// Laws
// ---------------------------------------------------------------------------

/// Undoing the addition of a primitive removes exactly that primitive: the
/// primitives are those before the addition.
pub proof fn lemma_undo_add_restores(prims: Seq<PcbRecord>, rec: PcbRecord, op: PcbEditOperation)
    requires
        add_index(op) == Some(prims.len() as usize),
        prims.len() < usize::MAX,
    ensures
        undo_prims(prims.push(rec), op) == prims,
{
    assert(prims.push(rec).remove(prims.len() as int) =~= prims);
}

/// Undoing the deletion of a primitive puts it back where it was.
pub proof fn lemma_undo_delete_restores(prims: Seq<PcbRecord>, i: usize)
    requires
        i < prims.len(),
    ensures
        undo_prims(
            prims.remove(i as int),
            PcbEditOperation::DeletePrimitive { index: i, record: Box::new(prims[i as int]) },
        ) == prims,
{
    assert(prims.remove(i as int).insert(i as int, prims[i as int]) =~= prims);
}

/// Redoing an undone deletion deletes the primitive again.
pub proof fn lemma_redo_undone_delete(prims: Seq<PcbRecord>, i: usize, other: PcbRecord)
    requires
        i < prims.len(),
    ensures
        redo_prims(
            undo_prims(
                prims.remove(i as int),
                PcbEditOperation::DeletePrimitive { index: i, record: Box::new(prims[i as int]) },
            ),
            PcbEditOperation::DeletePrimitive { index: i, record: Box::new(other) },
        ) == prims.remove(i as int),
{
    lemma_undo_delete_restores(prims, i);
}

/// The kind counts add up to the number of primitives.
pub proof fn lemma_counts_total(prims: Seq<PcbRecord>)
    ensures
        count_kind(prims, PrimitiveKind::Track) + count_kind(prims, PrimitiveKind::Via) + count_kind(
            prims,
            PrimitiveKind::Pad,
        ) + count_kind(prims, PrimitiveKind::Arc) + count_kind(prims, PrimitiveKind::Fill) + count_kind(
            prims,
            PrimitiveKind::Text,
        ) + count_kind(prims, PrimitiveKind::Region) + count_kind(prims, PrimitiveKind::Polygon) + count_kind(
            prims,
            PrimitiveKind::Other,
        ) == prims.len(),
    decreases prims.len(),
{
    if prims.len() > 0 {
        lemma_counts_total(prims.drop_last());
    }
}

/// The indices of one kind are exactly the positions holding that kind.
pub proof fn lemma_kind_ids_exact(prims: Seq<PcbRecord>, k: PrimitiveKind)
    requires
        prims.len() <= usize::MAX,
    ensures
        kind_ids(prims, k).len() == count_kind(prims, k),
        forall|j: int|
            0 <= j < kind_ids(prims, k).len() ==> (#[trigger] kind_ids(prims, k)[j]) < prims.len()
                && prims[kind_ids(prims, k)[j] as int].spec_kind() == k,
    decreases prims.len(),
{
    if prims.len() > 0 {
        lemma_kind_ids_exact(prims.drop_last(), k);
        let r = kind_ids(prims.drop_last(), k);
        let ids = kind_ids(prims, k);
        assert forall|j: int| 0 <= j < ids.len() implies (#[trigger] ids[j]) < prims.len() && prims[ids[j] as int].spec_kind() == k by {
            if j < r.len() {
                assert(ids[j] == r[j]);
                assert(prims[r[j] as int] == prims.drop_last()[r[j] as int]);
            }
        }
    }
}

} // verus!
