//! Component placement on a schematic sheet: component bounds, pin ends,
//! collision checks and the grid.
//!
//! A record's extent is the box of its anchor points: a pin's location and
//! hot end, a line's or rectangle's two corners, a polygon's vertices, an
//! arc's or ellipse's box about its centre, a text's location. A
//! component's bounds are the box of the records it owns, or a 100 mil
//! square at its location when it owns none.
use vstd::prelude::*;

use crate::edit::geometry::{pt, to_absolute, to_local};
use crate::edit::netlist::pin_endpoint;
use crate::edit::sch_records::{SchComponent, SchPin, SchRecord};
use crate::edit::types::{Direction, Grid, Orientation, PinLocation, PlacedComponent};
use crate::types::{fits_i32, max_int, min_int, Coord, CoordPoint, CoordRect};

verus! {

/// Lays out components on a sheet.
pub struct LayoutEngine {
    grid: Grid,
    component_spacing: Coord,
    component_bounds: Vec<(usize, CoordRect)>,
    sheet_bounds: CoordRect,
}

/// The owner of a record (-1 for records owned by none).
pub open spec fn owner_of(r: SchRecord) -> i32 {
    match r {
        SchRecord::Pin(p) => p.owner_index,
        SchRecord::Line(l) => l.owner_index,
        SchRecord::Rectangle(l) => l.owner_index,
        SchRecord::Polygon(p) => p.owner_index,
        SchRecord::Polyline(p) => p.owner_index,
        SchRecord::Arc(a) => a.owner_index,
        SchRecord::Ellipse(e) => e.owner_index,
        SchRecord::Label(l) => l.owner_index,
        SchRecord::Designator(d) => d.owner_index,
        SchRecord::Parameter(p) => p.owner_index,
        _ => -1i32,
    }
}

/// The anchor points of a record.
pub open spec fn anchors(r: SchRecord) -> Seq<(int, int)> {
    match r {
        SchRecord::Pin(p) => seq![(p.location_x as int, p.location_y as int), pin_endpoint(p)],
        SchRecord::Line(l) => seq![(l.location_x as int, l.location_y as int), (l.corner_x as int, l.corner_y as int)],
        SchRecord::Rectangle(l) => seq![
            (l.location_x as int, l.location_y as int),
            (l.corner_x as int, l.corner_y as int),
        ],
        SchRecord::Polygon(p) => if p.vertices@.len() == 0 {
            seq![(p.location_x as int, p.location_y as int)]
        } else {
            p.vertices@.map_values(|v: (i32, i32)| (v.0 as int, v.1 as int))
        },
        SchRecord::Polyline(p) => if p.vertices@.len() == 0 {
            seq![(p.location_x as int, p.location_y as int)]
        } else {
            p.vertices@.map_values(|v: (i32, i32)| (v.0 as int, v.1 as int))
        },
        SchRecord::Arc(a) => seq![
            (a.location_x - a.radius, a.location_y - a.radius),
            (a.location_x + a.radius, a.location_y + a.radius),
        ],
        SchRecord::Ellipse(e) => seq![
            (e.location_x - e.radius_x, e.location_y - e.radius_y),
            (e.location_x + e.radius_x, e.location_y + e.radius_y),
        ],
        SchRecord::Label(l) => seq![(l.location_x as int, l.location_y as int)],
        SchRecord::Designator(d) => seq![(d.location_x as int, d.location_y as int)],
        SchRecord::Parameter(p) => seq![(p.location_x as int, p.location_y as int)],
        _ => Seq::empty(),
    }
}

/// Whether every anchor point of every record fits an `i32`.
pub open spec fn anchors_fit(prims: Seq<SchRecord>) -> bool {
    forall|i: int, k: int|
        0 <= i < prims.len() && 0 <= k < anchors(prims[i]).len() ==> fits_i32(#[trigger] anchors(prims[i])[k].0)
            && fits_i32(anchors(prims[i])[k].1)
}

/// The box grown to hold a point.
pub open spec fn grow(b: Option<(int, int, int, int)>, p: (int, int)) -> Option<(int, int, int, int)> {
    match b {
        None => Some((p.0, p.1, p.0, p.1)),
        Some((x1, y1, x2, y2)) => Some((min_int(x1, p.0), min_int(y1, p.1), max_int(x2, p.0), max_int(y2, p.1))),
    }
}

/// The box grown to hold the points.
pub open spec fn grow_all(b: Option<(int, int, int, int)>, ps: Seq<(int, int)>) -> Option<(int, int, int, int)>
    decreases ps.len(),
{
    if ps.len() == 0 {
        b
    } else {
        grow(grow_all(b, ps.drop_last()), ps.last())
    }
}

/// The box of the records among the first `n` owned by the component at
/// index `c` (other than the component record itself).
pub open spec fn owned_box(prims: Seq<SchRecord>, c: int, n: nat) -> Option<(int, int, int, int)>
    decreases n,
{
    if n == 0 {
        None
    } else {
        let b = owned_box(prims, c, (n - 1) as nat);
        if n - 1 != c && owner_of(prims[n - 1]) == c as i32 {
            grow_all(b, anchors(prims[n - 1]))
        } else {
            b
        }
    }
}

/// A component's bounds: the box of its records, or a 100 mil square at
/// its location.
pub open spec fn component_box(prims: Seq<SchRecord>, c: int, comp: SchComponent) -> (int, int, int, int) {
    match owned_box(prims, c, prims.len()) {
        Some(b) => b,
        None => (
            comp.location_x as int,
            comp.location_y as int,
            comp.location_x + 1000000,
            comp.location_y + 1000000,
        ),
    }
}

/// Whether a point lies in a box, edges included.
pub open spec fn in_box(b: (int, int, int, int), p: (int, int)) -> bool {
    b.0 <= p.0 <= b.2 && b.1 <= p.1 <= b.3
}

/// Whether a box was found and holds the point.
pub open spec fn box_holds(b: Option<(int, int, int, int)>, p: (int, int)) -> bool {
    b matches Some(g) && in_box(g, p)
}

/// Whether box `a` lies within box `b`.
pub open spec fn box_within(a: (int, int, int, int), b: (int, int, int, int)) -> bool {
    b.0 <= a.0 && b.1 <= a.1 && a.2 <= b.2 && a.3 <= b.3
}

/// A box grown by points holds them and the box it started from.
proof fn lemma_grow_all_holds(b: Option<(int, int, int, int)>, ps: Seq<(int, int)>)
    requires
        b matches Some(x) ==> x.0 <= x.2 && x.1 <= x.3,
    ensures
        (b is Some || ps.len() > 0) ==> grow_all(b, ps) is Some,
        grow_all(b, ps) matches Some(g) ==> g.0 <= g.2 && g.1 <= g.3,
        forall|k: int| 0 <= k < ps.len() ==> box_holds(grow_all(b, ps), #[trigger] ps[k]),
        b matches Some(x) ==> (grow_all(b, ps) matches Some(g) && box_within(x, g)),
    decreases ps.len(),
{
    if ps.len() > 0 {
        let pre = ps.drop_last();
        lemma_grow_all_holds(b, pre);
        assert forall|k: int| 0 <= k < ps.len() implies box_holds(grow_all(b, ps), #[trigger] ps[k]) by {
            if k < pre.len() {
                assert(pre[k] == ps[k]);
            }
        }
    }
}

/// The box of the records a component owns holds every anchor point of
/// each of them.
proof fn lemma_owned_box_holds(prims: Seq<SchRecord>, c: int, n: nat)
    requires
        n <= prims.len(),
    ensures
        owned_box(prims, c, n) matches Some(g) ==> g.0 <= g.2 && g.1 <= g.3,
        forall|i: int, k: int|
            0 <= i < n && i != c && owner_of(prims[i]) == c as i32 && 0 <= k < anchors(prims[i]).len() ==> box_holds(
                owned_box(prims, c, n),
                #[trigger] anchors(prims[i])[k],
            ),
    decreases n,
{
    if n > 0 {
        let m = (n - 1) as nat;
        lemma_owned_box_holds(prims, c, m);
        let b = owned_box(prims, c, m);
        let grows = m != c && owner_of(prims[m as int]) == c as i32;
        if grows {
            lemma_grow_all_holds(b, anchors(prims[m as int]));
        }
        assert forall|i: int, k: int|
            0 <= i < n && i != c && owner_of(prims[i]) == c as i32 && 0 <= k < anchors(prims[i]).len() implies box_holds(
            owned_box(prims, c, n),
            #[trigger] anchors(prims[i])[k],
        ) by {
            if i < m {
                let g0 = b.unwrap();
                assert(in_box(g0, anchors(prims[i])[k]));
                if grows {
                    let g = grow_all(b, anchors(prims[m as int])).unwrap();
                    assert(box_within(g0, g));
                }
            }
        }
    }
}

/// The bounds of a component hold every point of the records it owns: the
/// location and the corner of each line and rectangle, the location of
/// each pin, label, designator and parameter, each vertex of a polygon or
/// polyline (its location when it has none), and the extent of each arc and
/// ellipse.
pub proof fn lemma_component_box_holds_owned(prims: Seq<SchRecord>, c: int, comp: SchComponent)
    ensures
        forall|i: int|
            0 <= i < prims.len() && i != c && owner_of(#[trigger] prims[i]) == c as i32 ==> {
                let b = component_box(prims, c, comp);
                match prims[i] {
                    SchRecord::Line(l) => in_box(b, (l.location_x as int, l.location_y as int)) && in_box(
                        b,
                        (l.corner_x as int, l.corner_y as int),
                    ),
                    SchRecord::Rectangle(l) => in_box(b, (l.location_x as int, l.location_y as int)) && in_box(
                        b,
                        (l.corner_x as int, l.corner_y as int),
                    ),
                    SchRecord::Pin(p) => in_box(b, (p.location_x as int, p.location_y as int)),
                    SchRecord::Label(l) => in_box(b, (l.location_x as int, l.location_y as int)),
                    SchRecord::Designator(d) => in_box(b, (d.location_x as int, d.location_y as int)),
                    SchRecord::Parameter(p) => in_box(b, (p.location_x as int, p.location_y as int)),
                    SchRecord::Polygon(p) => if p.vertices@.len() == 0 {
                        in_box(b, (p.location_x as int, p.location_y as int))
                    } else {
                        forall|v: int|
                            0 <= v < p.vertices@.len() ==> in_box(
                                b,
                                (#[trigger] p.vertices@[v].0 as int, p.vertices@[v].1 as int),
                            )
                    },
                    SchRecord::Polyline(p) => if p.vertices@.len() == 0 {
                        in_box(b, (p.location_x as int, p.location_y as int))
                    } else {
                        forall|v: int|
                            0 <= v < p.vertices@.len() ==> in_box(
                                b,
                                (#[trigger] p.vertices@[v].0 as int, p.vertices@[v].1 as int),
                            )
                    },
                    SchRecord::Arc(a) => in_box(b, (a.location_x - a.radius, a.location_y - a.radius)) && in_box(
                        b,
                        (a.location_x + a.radius, a.location_y + a.radius),
                    ),
                    SchRecord::Ellipse(e) => in_box(b, (e.location_x - e.radius_x, e.location_y - e.radius_y))
                        && in_box(b, (e.location_x + e.radius_x, e.location_y + e.radius_y)),
                    _ => true,
                }
            },
{
    lemma_owned_box_holds(prims, c, prims.len());
    assert forall|i: int| 0 <= i < prims.len() && i != c && owner_of(#[trigger] prims[i]) == c as i32 implies {
        let b = component_box(prims, c, comp);
        match prims[i] {
            SchRecord::Line(l) => in_box(b, (l.location_x as int, l.location_y as int)) && in_box(
                b,
                (l.corner_x as int, l.corner_y as int),
            ),
            SchRecord::Rectangle(l) => in_box(b, (l.location_x as int, l.location_y as int)) && in_box(
                b,
                (l.corner_x as int, l.corner_y as int),
            ),
            SchRecord::Pin(p) => in_box(b, (p.location_x as int, p.location_y as int)),
            SchRecord::Label(l) => in_box(b, (l.location_x as int, l.location_y as int)),
            SchRecord::Designator(d) => in_box(b, (d.location_x as int, d.location_y as int)),
            SchRecord::Parameter(p) => in_box(b, (p.location_x as int, p.location_y as int)),
            SchRecord::Polygon(p) => if p.vertices@.len() == 0 {
                in_box(b, (p.location_x as int, p.location_y as int))
            } else {
                forall|v: int|
                    0 <= v < p.vertices@.len() ==> in_box(b, (#[trigger] p.vertices@[v].0 as int, p.vertices@[v].1 as int))
            },
            SchRecord::Polyline(p) => if p.vertices@.len() == 0 {
                in_box(b, (p.location_x as int, p.location_y as int))
            } else {
                forall|v: int|
                    0 <= v < p.vertices@.len() ==> in_box(b, (#[trigger] p.vertices@[v].0 as int, p.vertices@[v].1 as int))
            },
            SchRecord::Arc(a) => in_box(b, (a.location_x - a.radius, a.location_y - a.radius)) && in_box(
                b,
                (a.location_x + a.radius, a.location_y + a.radius),
            ),
            SchRecord::Ellipse(e) => in_box(b, (e.location_x - e.radius_x, e.location_y - e.radius_y)) && in_box(
                b,
                (e.location_x + e.radius_x, e.location_y + e.radius_y),
            ),
            _ => true,
        }
    } by {
        let a = anchors(prims[i]);
        if a.len() > 0 {
            assert(box_holds(owned_box(prims, c, prims.len()), a[0]));
        }
        match prims[i] {
            SchRecord::Polygon(p) => {
                if p.vertices@.len() > 0 {
                    assert forall|v: int| 0 <= v < p.vertices@.len() implies in_box(
                        component_box(prims, c, comp),
                        (#[trigger] p.vertices@[v].0 as int, p.vertices@[v].1 as int),
                    ) by {
                        assert(a[v] == (p.vertices@[v].0 as int, p.vertices@[v].1 as int));
                    }
                }
            },
            SchRecord::Polyline(p) => {
                if p.vertices@.len() > 0 {
                    assert forall|v: int| 0 <= v < p.vertices@.len() implies in_box(
                        component_box(prims, c, comp),
                        (#[trigger] p.vertices@[v].0 as int, p.vertices@[v].1 as int),
                    ) by {
                        assert(a[v] == (p.vertices@[v].0 as int, p.vertices@[v].1 as int));
                    }
                }
            },
            _ => {
                if a.len() > 1 {
                    assert(in_box(component_box(prims, c, comp), a[1]));
                }
            },
        }
    }
}

/// The corners of a rectangle.
pub open spec fn rect_view(r: CoordRect) -> (int, int, int, int) {
    (r.location1.x.raw as int, r.location1.y.raw as int, r.location2.x.raw as int, r.location2.y.raw as int)
}

/// Whether two rectangles overlap, edges included.
pub open spec fn rects_meet(a: (int, int, int, int), b: (int, int, int, int)) -> bool {
    a.0 <= b.2 && b.0 <= a.2 && a.1 <= b.3 && b.1 <= a.3
}

/// The direction a pin faces.
pub open spec fn pin_direction(p: SchPin) -> Direction {
    if !p.rotated && !p.flipped {
        Direction::Right
    } else if p.rotated && !p.flipped {
        Direction::Up
    } else if !p.rotated {
        Direction::Left
    } else {
        Direction::Down
    }
}

/// The pins among the first `n` records owned by component `c`.
pub open spec fn owned_pins(prims: Seq<SchRecord>, c: int, n: nat) -> Seq<SchPin>
    decreases n,
{
    if n == 0 {
        Seq::empty()
    } else {
        owned_pins(prims, c, (n - 1) as nat) + match prims[n - 1] {
            SchRecord::Pin(p) => if n - 1 != c && p.owner_index == c as i32 {
                seq![p]
            } else {
                Seq::empty()
            },
            _ => Seq::empty(),
        }
    }
}

/// Whether a pin location reports a pin: designator, name, hot end,
/// facing.
pub open spec fn pin_reported(l: PinLocation, p: SchPin) -> bool {
    &&& l.designator == p.designator
    &&& l.name == p.name
    &&& pt(l.location) == pin_endpoint(p)
    &&& l.direction == pin_direction(p)
}

/// Index of the first designator owned by component `c`, or the number of
/// records.
pub open spec fn designator_index(prims: Seq<SchRecord>, c: int) -> int
    decreases prims.len(),
{
    if prims.len() == 0 {
        0
    } else {
        let i = designator_index(prims.drop_last(), c);
        if i < prims.len() - 1 {
            i
        } else if prims.last() matches SchRecord::Designator(d) && prims.len() - 1 != c && d.owner_index == c as i32 {
            prims.len() - 1
        } else {
            prims.len() as int
        }
    }
}

/// The designator text of component `c` (empty when none).
pub open spec fn designator_text(prims: Seq<SchRecord>, c: int) -> Seq<char> {
    let i = designator_index(prims, c);
    if i < prims.len() {
        match prims[i] {
            SchRecord::Designator(d) => d.text@,
            _ => Seq::empty(),
        }
    } else {
        Seq::empty()
    }
}

/// The indices of component records among the first `n`.
pub open spec fn component_indices(prims: Seq<SchRecord>, n: nat) -> Seq<int>
    decreases n,
{
    if n == 0 {
        Seq::empty()
    } else {
        component_indices(prims, (n - 1) as nat) + if prims[n - 1] is Component {
            seq![n - 1]
        } else {
            Seq::empty()
        }
    }
}

/// Whether a placed component reports the component record at index `c`.
pub open spec fn placed_ok(pc: PlacedComponent, prims: Seq<SchRecord>, c: int) -> bool {
    &&& pc.index == c
    &&& prims[c] matches SchRecord::Component(comp) && pc.lib_reference == comp.lib_reference && rect_view(pc.bounds)
        == component_box(prims, c, comp)
    &&& pc.designator@ == designator_text(prims, c)
    &&& pc.pin_locations@.len() == owned_pins(prims, c, prims.len()).len()
    &&& forall|k: int|
        0 <= k < pc.pin_locations@.len() ==> pin_reported(
            #[trigger] pc.pin_locations@[k],
            owned_pins(prims, c, prims.len())[k],
        )
}

/// The value of a 64-bit box.
pub open spec fn box_view(b: Option<(i64, i64, i64, i64)>) -> Option<(int, int, int, int)> {
    match b {
        Some((x1, y1, x2, y2)) => Some((x1 as int, y1 as int, x2 as int, y2 as int)),
        None => None,
    }
}

/// Whether a box's corners fit an `i32`.
pub open spec fn box_fits(b: Option<(int, int, int, int)>) -> bool {
    match b {
        Some((x1, y1, x2, y2)) => fits_i32(x1) && fits_i32(y1) && fits_i32(x2) && fits_i32(y2),
        None => true,
    }
}

fn grow_exec(b: Option<(i64, i64, i64, i64)>, x: i64, y: i64) -> (r: Option<(i64, i64, i64, i64)>)
    ensures
        box_view(r) == grow(box_view(b), (x as int, y as int)),
{
    match b {
        None => Some((x, y, x, y)),
        Some((x1, y1, x2, y2)) => Some(
            (
                if x1 <= x { x1 } else { x },
                if y1 <= y { y1 } else { y },
                if x2 >= x { x2 } else { x },
                if y2 >= y { y2 } else { y },
            ),
        ),
    }
}

proof fn lemma_grow_fits(b: Option<(int, int, int, int)>, p: (int, int))
    requires
        box_fits(b),
        fits_i32(p.0) && fits_i32(p.1),
    ensures
        box_fits(grow(b, p)),
{
}

/// The pin's hot end in 64-bit arithmetic.
fn pin_end_i64(p: &SchPin) -> (r: (i64, i64))
    ensures
        (r.0 as int, r.1 as int) == pin_endpoint(*p),
{
    let x = p.location_x as i64;
    let y = p.location_y as i64;
    let len = p.pin_length as i64;
    if !p.rotated {
        if p.flipped {
            (x - len, y)
        } else {
            (x + len, y)
        }
    } else {
        if p.flipped {
            (x, y - len)
        } else {
            (x, y + len)
        }
    }
}

/// A record's anchor points.
pub(crate) fn anchors_exec(r: &SchRecord) -> (v: Vec<(i64, i64)>)
    ensures
        v@.map_values(|p: (i64, i64)| (p.0 as int, p.1 as int)) == anchors(*r),
{
    let mut v: Vec<(i64, i64)> = Vec::new();
    match r {
        SchRecord::Pin(p) => {
            v.push((p.location_x as i64, p.location_y as i64));
            v.push(pin_end_i64(p));
        },
        SchRecord::Line(l) => {
            v.push((l.location_x as i64, l.location_y as i64));
            v.push((l.corner_x as i64, l.corner_y as i64));
        },
        SchRecord::Rectangle(l) => {
            v.push((l.location_x as i64, l.location_y as i64));
            v.push((l.corner_x as i64, l.corner_y as i64));
        },
        SchRecord::Polygon(p) => {
            push_vertices(&mut v, &p.vertices, p.location_x, p.location_y);
        },
        SchRecord::Polyline(p) => {
            push_vertices(&mut v, &p.vertices, p.location_x, p.location_y);
        },
        SchRecord::Arc(a) => {
            v.push((a.location_x as i64 - a.radius as i64, a.location_y as i64 - a.radius as i64));
            v.push((a.location_x as i64 + a.radius as i64, a.location_y as i64 + a.radius as i64));
        },
        SchRecord::Ellipse(e) => {
            v.push((e.location_x as i64 - e.radius_x as i64, e.location_y as i64 - e.radius_y as i64));
            v.push((e.location_x as i64 + e.radius_x as i64, e.location_y as i64 + e.radius_y as i64));
        },
        SchRecord::Label(l) => {
            v.push((l.location_x as i64, l.location_y as i64));
        },
        SchRecord::Designator(d) => {
            v.push((d.location_x as i64, d.location_y as i64));
        },
        SchRecord::Parameter(p) => {
            v.push((p.location_x as i64, p.location_y as i64));
        },
        _ => {},
    }
    assert(v@.map_values(|p: (i64, i64)| (p.0 as int, p.1 as int)) =~= anchors(*r));
    v
}

/// A polygon's vertices, or its location when it has none.
fn push_vertices(v: &mut Vec<(i64, i64)>, vs: &Vec<(i32, i32)>, x: i32, y: i32)
    requires
        old(v)@.len() == 0,
    ensures
        final(v)@.map_values(|p: (i64, i64)| (p.0 as int, p.1 as int)) == if vs@.len() == 0 {
            seq![(x as int, y as int)]
        } else {
            vs@.map_values(|p: (i32, i32)| (p.0 as int, p.1 as int))
        },
{
    if vs.len() == 0 {
        v.push((x as i64, y as i64));
        assert(v@.map_values(|p: (i64, i64)| (p.0 as int, p.1 as int)) =~= seq![(x as int, y as int)]);
        return;
    }
    let mut i: usize = 0;
    while i < vs.len()
        invariant
            i <= vs@.len(),
            v@.map_values(|p: (i64, i64)| (p.0 as int, p.1 as int)) == vs@.take(i as int).map_values(
                |p: (i32, i32)| (p.0 as int, p.1 as int),
            ),
        decreases vs@.len() - i,
    {
        let ghost before = v@;
        v.push((vs[i].0 as i64, vs[i].1 as i64));
        assert(vs@.take(i + 1) =~= vs@.take(i as int).push(vs@[i as int]));
        assert(v@.map_values(|p: (i64, i64)| (p.0 as int, p.1 as int)) =~= before.map_values(
            |p: (i64, i64)| (p.0 as int, p.1 as int),
        ).push((vs@[i as int].0 as int, vs@[i as int].1 as int)));
        assert(v@.map_values(|p: (i64, i64)| (p.0 as int, p.1 as int)) =~= vs@.take(i + 1).map_values(
            |p: (i32, i32)| (p.0 as int, p.1 as int),
        ));
        i = i + 1;
    }
    assert(vs@.take(i as int) =~= vs@);
}

/// The box grown to hold a record's anchor points.
fn grow_anchors(b: Option<(i64, i64, i64, i64)>, r: &SchRecord) -> (out: Option<(i64, i64, i64, i64)>)
    requires
        box_fits(box_view(b)),
        forall|k: int| 0 <= k < anchors(*r).len() ==> fits_i32(#[trigger] anchors(*r)[k].0) && fits_i32(anchors(*r)[k].1),
    ensures
        box_view(out) == grow_all(box_view(b), anchors(*r)),
        box_fits(box_view(out)),
{
    let v = anchors_exec(r);
    let ghost av = anchors(*r);
    let mut acc = b;
    let mut i: usize = 0;
    while i < v.len()
        invariant
            i <= v@.len(),
            av == v@.map_values(|p: (i64, i64)| (p.0 as int, p.1 as int)),
            forall|k: int| 0 <= k < av.len() ==> fits_i32(#[trigger] av[k].0) && fits_i32(av[k].1),
            box_view(acc) == grow_all(box_view(b), av.take(i as int)),
            box_fits(box_view(acc)),
        decreases v@.len() - i,
    {
        assert(av.take(i + 1).drop_last() =~= av.take(i as int));
        assert(av[i as int] == (v@[i as int].0 as int, v@[i as int].1 as int));
        proof {
            lemma_grow_fits(box_view(acc), av[i as int]);
        }
        acc = grow_exec(acc, v[i].0, v[i].1);
        i = i + 1;
    }
    assert(av.take(i as int) =~= av);
    acc
}

impl LayoutEngine {
    /// The grid.
    pub closed spec fn spec_grid(&self) -> Grid {
        self.grid
    }

    /// The spacing kept between components.
    pub closed spec fn spec_spacing(&self) -> Coord {
        self.component_spacing
    }

    /// The sheet.
    pub closed spec fn spec_sheet(&self) -> CoordRect {
        self.sheet_bounds
    }

    /// The default engine: 10 mil grid, 100 mil spacing, an 11000 x 8500
    /// mil sheet at the origin.
    pub fn new() -> (r: Self)
        ensures
            r.spec_grid().spacing.raw == 100000 && r.spec_grid().snap_enabled,
            r.spec_spacing().raw == 1000000,
            rect_view(r.spec_sheet()) == (0int, 0int, 110000000int, 85000000int),
    {
        LayoutEngine {
            grid: Grid::default_grid(),
            component_spacing: Coord::from_mils(100),
            component_bounds: Vec::new(),
            sheet_bounds: CoordRect::from_xywh(
                Coord::zero(),
                Coord::zero(),
                Coord::from_mils(11000),
                Coord::from_mils(8500),
            ),
        }
    }

    /// Sets the grid.
    pub fn set_grid(&mut self, grid: Grid)
        ensures
            final(self).spec_grid() == grid,
            final(self).spec_spacing() == old(self).spec_spacing(),
            final(self).spec_sheet() == old(self).spec_sheet(),
    {
        self.grid = grid;
    }

    /// The grid.
    pub fn grid(&self) -> (r: &Grid)
        ensures
            *r == self.spec_grid(),
    {
        &self.grid
    }

    /// Sets the sheet bounds.
    pub fn set_sheet_bounds(&mut self, bounds: CoordRect)
        ensures
            final(self).spec_sheet() == bounds,
            final(self).spec_grid() == old(self).spec_grid(),
            final(self).spec_spacing() == old(self).spec_spacing(),
    {
        self.sheet_bounds = bounds;
    }

    /// Sets the spacing kept between components.
    pub fn set_component_spacing(&mut self, spacing: Coord)
        ensures
            final(self).spec_spacing() == spacing,
            final(self).spec_grid() == old(self).spec_grid(),
            final(self).spec_sheet() == old(self).spec_sheet(),
    {
        self.component_spacing = spacing;
    }

    /// Forgets cached component bounds.
    pub fn clear_cache(&mut self)
        ensures
            final(self).spec_grid() == old(self).spec_grid(),
            final(self).spec_spacing() == old(self).spec_spacing(),
            final(self).spec_sheet() == old(self).spec_sheet(),
    {
        self.component_bounds.clear();
    }

    /// The bounds of a component and the records it owns.
    pub fn calculate_component_bounds(&self, component: &SchComponent, primitives: &[SchRecord], component_index: usize) -> (r:
        CoordRect)
        requires
            anchors_fit(primitives@),
            fits_i32(component.location_x + 1000000),
            fits_i32(component.location_y + 1000000),
        ensures
            rect_view(r) == component_box(primitives@, component_index as int, *component),
    {
        let mut b: Option<(i64, i64, i64, i64)> = None;
        let mut i: usize = 0;
        while i < primitives.len()
            invariant
                i <= primitives@.len(),
                anchors_fit(primitives@),
                box_view(b) == owned_box(primitives@, component_index as int, i as nat),
                box_fits(box_view(b)),
            decreases primitives@.len() - i,
        {
            let rec = &primitives[i];
            let owner = record_owner(rec);
            #[verifier::truncate]
            let ci = component_index as i32;
            if i != component_index && owner == ci {
                b = grow_anchors(b, rec);
            }
            i = i + 1;
        }
        match b {
            Some((x1, y1, x2, y2)) => CoordRect {
                location1: CoordPoint { x: Coord { raw: x1 as i32 }, y: Coord { raw: y1 as i32 } },
                location2: CoordPoint { x: Coord { raw: x2 as i32 }, y: Coord { raw: y2 as i32 } },
            },
            None => CoordRect {
                location1: CoordPoint { x: Coord { raw: component.location_x }, y: Coord { raw: component.location_y } },
                location2: CoordPoint {
                    x: Coord { raw: component.location_x + 1000000 },
                    y: Coord { raw: component.location_y + 1000000 },
                },
            },
        }
    }
}

/// The owner of a record.
fn record_owner(r: &SchRecord) -> (o: i32)
    ensures
        o == owner_of(*r),
{
    match r {
        SchRecord::Pin(p) => p.owner_index,
        SchRecord::Line(l) => l.owner_index,
        SchRecord::Rectangle(l) => l.owner_index,
        SchRecord::Polygon(p) => p.owner_index,
        SchRecord::Polyline(p) => p.owner_index,
        SchRecord::Arc(a) => a.owner_index,
        SchRecord::Ellipse(e) => e.owner_index,
        SchRecord::Label(l) => l.owner_index,
        SchRecord::Designator(d) => d.owner_index,
        SchRecord::Parameter(p) => p.owner_index,
        _ => -1,
    }
}

/// The component record at index `c`.
pub open spec fn component_at(prims: Seq<SchRecord>, c: int) -> SchComponent {
    match prims[c] {
        SchRecord::Component(comp) => comp,
        _ => arbitrary(),
    }
}

/// Whether every component's default square fits an `i32`.
pub open spec fn squares_fit(prims: Seq<SchRecord>) -> bool {
    forall|c: int|
        0 <= c < prims.len() ==> (#[trigger] prims[c] matches SchRecord::Component(comp) ==> fits_i32(
            comp.location_x + 1000000,
        ) && fits_i32(comp.location_y + 1000000))
}

/// A box grown by a margin on every side.
pub open spec fn expand(b: (int, int, int, int), m: int) -> (int, int, int, int) {
    (b.0 - m, b.1 - m, b.2 + m, b.3 + m)
}

/// Whether a rectangle comes within `spacing` of a component's bounds,
/// other than the excluded one.
pub open spec fn collides(prims: Seq<SchRecord>, spacing: int, rect: (int, int, int, int), exclude: Option<usize>) -> bool {
    let cis = component_indices(prims, prims.len());
    exists|k: int|
        0 <= k < cis.len() && exclude != Some(#[trigger] cis[k] as usize) && rects_meet(
            expand(component_box(prims, cis[k], component_at(prims, cis[k])), spacing),
            rect,
        )
}

/// Whether every component's bounds, grown by the spacing, fit an `i32`.
pub open spec fn expanded_fit(prims: Seq<SchRecord>, spacing: int) -> bool {
    let cis = component_indices(prims, prims.len());
    forall|k: int|
        0 <= k < cis.len() ==> {
            let e = expand(component_box(prims, #[trigger] cis[k], component_at(prims, cis[k])), spacing);
            fits_i32(e.0) && fits_i32(e.1) && fits_i32(e.2) && fits_i32(e.3)
        }
}

proof fn lemma_component_indices(prims: Seq<SchRecord>, n: nat)
    requires
        n <= prims.len(),
    ensures
        forall|k: int|
            0 <= k < component_indices(prims, n).len() ==> 0 <= #[trigger] component_indices(prims, n)[k] < n
                && prims[component_indices(prims, n)[k]] is Component,
    decreases n,
{
    if n > 0 {
        lemma_component_indices(prims, (n - 1) as nat);
    }
}

/// The pins a component owns, reported.
fn pin_locations(primitives: &[SchRecord], c: usize) -> (r: Vec<PinLocation>)
    requires
        anchors_fit(primitives@),
    ensures
        r@.len() == owned_pins(primitives@, c as int, primitives@.len()).len(),
        forall|k: int| 0 <= k < r@.len() ==> pin_reported(#[trigger] r@[k], owned_pins(primitives@, c as int, primitives@.len())[k]),
{
    let mut out: Vec<PinLocation> = Vec::new();
    let mut i: usize = 0;
    while i < primitives.len()
        invariant
            i <= primitives@.len(),
            anchors_fit(primitives@),
            out@.len() == owned_pins(primitives@, c as int, i as nat).len(),
            forall|k: int| 0 <= k < out@.len() ==> pin_reported(#[trigger] out@[k], owned_pins(primitives@, c as int, i as nat)[k]),
        decreases primitives@.len() - i,
    {
        let ghost before = owned_pins(primitives@, c as int, i as nat);
        match &primitives[i] {
            SchRecord::Pin(p) => {
                #[verifier::truncate]
                let ci = c as i32;
                if i != c && p.owner_index == ci {
                    let (x, y) = pin_end_i64(p);
                    assert(anchors(primitives@[i as int])[1] == pin_endpoint(*p));
                    let dir = if !p.rotated && !p.flipped {
                        Direction::Right
                    } else if p.rotated && !p.flipped {
                        Direction::Up
                    } else if !p.rotated {
                        Direction::Left
                    } else {
                        Direction::Down
                    };
                    out.push(
                        PinLocation {
                            designator: p.designator.clone(),
                            name: p.name.clone(),
                            location: CoordPoint { x: Coord { raw: x as i32 }, y: Coord { raw: y as i32 } },
                            direction: dir,
                        },
                    );
                }
            },
            _ => {},
        }
        proof {
            let now = owned_pins(primitives@, c as int, (i + 1) as nat);
            assert forall|k: int| 0 <= k < out@.len() implies pin_reported(#[trigger] out@[k], now[k]) by {
                if k < before.len() {
                    assert(now[k] == before[k]);
                }
            }
        }
        i = i + 1;
    }
    out
}

/// The designator text of a component.
fn designator_of_component(primitives: &[SchRecord], c: usize) -> (r: String)
    ensures
        r@ == designator_text(primitives@, c as int),
{
    let mut i: usize = 0;
    while i < primitives.len()
        invariant
            i <= primitives@.len(),
            designator_index(primitives@.take(i as int), c as int) == i,
        decreases primitives@.len() - i,
    {
        assert(primitives@.take(i + 1).drop_last() =~= primitives@.take(i as int));
        match &primitives[i] {
            SchRecord::Designator(d) => {
                #[verifier::truncate]
                let ci = c as i32;
                if i != c && d.owner_index == ci {
                    proof {
                        lemma_designator_index_prefix(primitives@, c as int, i as int);
                    }
                    return d.text.clone();
                }
            },
            _ => {},
        }
        i = i + 1;
    }
    assert(primitives@.take(i as int) =~= primitives@);
    String::new()
}

proof fn lemma_designator_index_prefix(prims: Seq<SchRecord>, c: int, i: int)
    requires
        0 <= i < prims.len(),
        designator_index(prims.take(i), c) == i,
        prims[i] matches SchRecord::Designator(d) && i != c && d.owner_index == c as i32,
    ensures
        designator_index(prims, c) == i,
    decreases prims.len(),
{
    if prims.len() > i + 1 {
        assert(prims.drop_last().take(i) =~= prims.take(i));
        lemma_designator_index_prefix(prims.drop_last(), c, i);
    } else {
        assert(prims.drop_last() =~= prims.take(i));
    }
}

impl LayoutEngine {
    /// The components of the schematic, in record order, with bounds, pins
    /// and designators.
    pub fn get_placed_components(&self, primitives: &[SchRecord]) -> (r: Vec<PlacedComponent>)
        requires
            anchors_fit(primitives@),
            squares_fit(primitives@),
        ensures
            r@.len() == component_indices(primitives@, primitives@.len()).len(),
            forall|k: int|
                0 <= k < r@.len() ==> placed_ok(
                    #[trigger] r@[k],
                    primitives@,
                    component_indices(primitives@, primitives@.len())[k],
                ),
    {
        let mut out: Vec<PlacedComponent> = Vec::new();
        let mut i: usize = 0;
        while i < primitives.len()
            invariant
                i <= primitives@.len(),
                anchors_fit(primitives@),
                squares_fit(primitives@),
                out@.len() == component_indices(primitives@, i as nat).len(),
                forall|k: int|
                    0 <= k < out@.len() ==> placed_ok(#[trigger] out@[k], primitives@, component_indices(primitives@, i as nat)[k]),
            decreases primitives@.len() - i,
        {
            let ghost before = component_indices(primitives@, i as nat);
            match &primitives[i] {
                SchRecord::Component(comp) => {
                    assert(primitives@[i as int] matches SchRecord::Component(x) && x == *comp);
                    let bounds = self.calculate_component_bounds(comp, primitives, i);
                    let pins = pin_locations(primitives, i);
                    let designator = designator_of_component(primitives, i);
                    out.push(
                        PlacedComponent {
                            index: i,
                            designator,
                            lib_reference: comp.lib_reference.clone(),
                            bounds,
                            pin_locations: pins,
                        },
                    );
                },
                _ => {},
            }
            proof {
                let now = component_indices(primitives@, (i + 1) as nat);
                assert forall|k: int| 0 <= k < out@.len() implies placed_ok(#[trigger] out@[k], primitives@, now[k]) by {
                    if k < before.len() {
                        assert(now[k] == before[k]);
                    }
                }
            }
            i = i + 1;
        }
        out
    }

    /// Whether the rectangle comes within the spacing of a component other
    /// than the excluded one.
    pub fn check_collision(&self, rect: CoordRect, primitives: &[SchRecord], exclude_index: Option<usize>) -> (r: bool)
        requires
            anchors_fit(primitives@),
            squares_fit(primitives@),
            expanded_fit(primitives@, self.spec_spacing().raw as int),
        ensures
            r == collides(primitives@, self.spec_spacing().raw as int, rect_view(rect), exclude_index),
    {
        let placed = self.get_placed_components(primitives);
        let ghost cis = component_indices(primitives@, primitives@.len());
        let s = self.component_spacing.raw as i64;
        let mut k: usize = 0;
        while k < placed.len()
            invariant
                k <= placed@.len(),
                placed@.len() == cis.len(),
                cis == component_indices(primitives@, primitives@.len()),
                s == self.component_spacing.raw,
                forall|q: int| 0 <= q < placed@.len() ==> placed_ok(#[trigger] placed@[q], primitives@, cis[q]),
                forall|q: int|
                    0 <= q < k ==> !(exclude_index != Some(#[trigger] cis[q] as usize) && rects_meet(
                        expand(component_box(primitives@, cis[q], component_at(primitives@, cis[q])), s as int),
                        rect_view(rect),
                    )),
            decreases placed@.len() - k,
        {
            let pc = &placed[k];
            assert(placed_ok(placed@[k as int], primitives@, cis[k as int]));
            let skip = match exclude_index {
                Some(e) => e == pc.index,
                None => false,
            };
            let b = pc.bounds;
            let x1 = b.location1.x.raw as i64 - s;
            let y1 = b.location1.y.raw as i64 - s;
            let x2 = b.location2.x.raw as i64 + s;
            let y2 = b.location2.y.raw as i64 + s;
            let meet = x1 <= rect.location2.x.raw as i64 && rect.location1.x.raw as i64 <= x2 && y1
                <= rect.location2.y.raw as i64 && rect.location1.y.raw as i64 <= y2;
            if !skip && meet {
                return true;
            }
            k = k + 1;
        }
        false
    }

    /// The bounds of every component, in record order.
    pub fn get_all_bounds(&self, primitives: &[SchRecord]) -> (r: Vec<CoordRect>)
        requires
            anchors_fit(primitives@),
            squares_fit(primitives@),
        ensures
            r@.len() == component_indices(primitives@, primitives@.len()).len(),
            forall|k: int|
                0 <= k < r@.len() ==> rect_view(#[trigger] r@[k]) == {
                    let c = component_indices(primitives@, primitives@.len())[k];
                    component_box(primitives@, c, component_at(primitives@, c))
                },
    {
        let placed = self.get_placed_components(primitives);
        let mut out: Vec<CoordRect> = Vec::new();
        let mut k: usize = 0;
        while k < placed.len()
            invariant
                k <= placed@.len(),
                placed@.len() == component_indices(primitives@, primitives@.len()).len(),
                forall|q: int|
                    0 <= q < placed@.len() ==> placed_ok(
                        #[trigger] placed@[q],
                        primitives@,
                        component_indices(primitives@, primitives@.len())[q],
                    ),
                out@.len() == k,
                forall|q: int|
                    0 <= q < k ==> rect_view(#[trigger] out@[q]) == {
                        let c = component_indices(primitives@, primitives@.len())[q];
                        component_box(primitives@, c, component_at(primitives@, c))
                    },
            decreases placed@.len() - k,
        {
            assert(placed_ok(placed@[k as int], primitives@, component_indices(primitives@, primitives@.len())[k as int]));
            out.push(placed[k].bounds);
            k = k + 1;
        }
        out
    }

    /// The point snapped to the grid.
    pub fn snap_to_grid(&self, point: CoordPoint) -> (r: CoordPoint)
        requires
            self.spec_grid().can_snap_raw(point.x.raw as int),
            self.spec_grid().can_snap_raw(point.y.raw as int),
        ensures
            r.x.raw == self.spec_grid().spec_snap_raw(point.x.raw as int),
            r.y.raw == self.spec_grid().spec_snap_raw(point.y.raw as int),
    {
        self.grid.snap(point)
    }

    /// Whether snapping leaves the point where it is.
    pub fn is_on_grid(&self, point: CoordPoint) -> (r: bool)
        requires
            self.spec_grid().can_snap_raw(point.x.raw as int),
            self.spec_grid().can_snap_raw(point.y.raw as int),
        ensures
            r == (self.spec_grid().spec_snap_raw(point.x.raw as int) == point.x.raw
                && self.spec_grid().spec_snap_raw(point.y.raw as int) == point.y.raw),
    {
        let s = self.grid.snap(point);
        s.x.raw == point.x.raw && s.y.raw == point.y.raw
    }

    /// A component-local point placed at the component's location.
    pub fn local_to_absolute(&self, local: CoordPoint, component_location: CoordPoint, orientation: Orientation) -> (r:
        CoordPoint)
        requires
            crate::edit::geometry::fits_pt(to_absolute(pt(local), pt(component_location), orientation)),
        ensures
            pt(r) == to_absolute(pt(local), pt(component_location), orientation),
    {
        crate::edit::geometry::local_to_absolute(local, component_location, orientation)
    }

    /// An absolute point read back in a component's frame.
    pub fn absolute_to_local(&self, absolute: CoordPoint, component_location: CoordPoint, orientation: Orientation) -> (r:
        CoordPoint)
        requires
            crate::edit::geometry::fits_pt(to_local(pt(absolute), pt(component_location), orientation)),
        ensures
            pt(r) == to_local(pt(absolute), pt(component_location), orientation),
    {
        crate::edit::geometry::absolute_to_local(absolute, component_location, orientation)
    }
}

impl Default for LayoutEngine {
    fn default() -> (r: Self)
        ensures
            r.spec_grid().spacing.raw == 100000 && r.spec_grid().snap_enabled,
            r.spec_spacing().raw == 1000000,
    {
        LayoutEngine::new()
    }
}

} // verus!
