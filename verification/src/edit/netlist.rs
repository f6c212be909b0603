//! Netlists of schematic primitives: connection points joined into nets.
//!
//! Every pin end, wire end, junction, net label, power port and sheet port
//! is a connection point. Two points are joined when they snap to the same
//! tolerance cell, or when a wire segment starts at the cell of one and
//! ends at, or passes over, the cell of the other. Nets are the connected
//! groups of points.
use vstd::prelude::*;

use crate::edit::graph::{
    add_edge, connected, labels_exact, lemma_merge, lemma_no_edges, no_edges, relabel_exec,
};
use crate::edit::sch_records::{SchPin, SchRecord};
use crate::edit::text_order::{
    bytes_le, bytes_le_exec, lemma_bytes_le_antisymmetric, lemma_bytes_le_reflexive, lemma_bytes_le_total,
    lemma_bytes_le_transitive,
};
use crate::error::{decimal_text, text, text2, usize_text};
use crate::import::parse::same_text;
use crate::types::{abs_int, div_trunc_i64, max_int, min_int, trunc_div};

verus! {

/// What a connection point is.
#[derive(Debug)]
pub enum ConnectionKind {
    /// A pin's hot end: component designator and pin designator.
    Pin { component: String, pin: String },
    /// An end of the wire with this record index.
    WireEnd { wire_index: usize },
    /// The junction with this record index.
    Junction { index: usize },
    NetLabel { name: String },
    PowerPort { name: String },
    /// A sheet port.
    Port { name: String },
}

/// A connection point on the schematic.
#[derive(Debug)]
pub struct ConnectionPoint {
    pub location: (i32, i32),
    pub kind: ConnectionKind,
}

/// The value of a connection kind.
pub enum KindView {
    Pin(Seq<char>, Seq<char>),
    WireEnd(usize),
    Junction(usize),
    NetLabel(Seq<char>),
    PowerPort(Seq<char>),
    Port(Seq<char>),
}

/// The value of a connection point.
pub struct PointView {
    pub loc: (int, int),
    pub kind: KindView,
}

pub open spec fn kind_view(k: ConnectionKind) -> KindView {
    match k {
        ConnectionKind::Pin { component, pin } => KindView::Pin(component@, pin@),
        ConnectionKind::WireEnd { wire_index } => KindView::WireEnd(wire_index),
        ConnectionKind::Junction { index } => KindView::Junction(index),
        ConnectionKind::NetLabel { name } => KindView::NetLabel(name@),
        ConnectionKind::PowerPort { name } => KindView::PowerPort(name@),
        ConnectionKind::Port { name } => KindView::Port(name@),
    }
}

impl View for ConnectionPoint {
    type V = PointView;

    open spec fn view(&self) -> PointView {
        PointView { loc: (self.location.0 as int, self.location.1 as int), kind: kind_view(self.kind) }
    }
}

/// A net: its name, whether a label, power port or port named it, and its
/// points.
#[derive(Debug)]
pub struct Net {
    pub name: String,
    pub named: bool,
    pub connections: Vec<ConnectionPoint>,
}

/// The value of a net.
pub struct NetView {
    pub name: Seq<char>,
    pub named: bool,
    pub connections: Seq<PointView>,
}

impl View for Net {
    type V = NetView;

    open spec fn view(&self) -> NetView {
        NetView {
            name: self.name@,
            named: self.named,
            connections: self.connections@.map_values(|c: ConnectionPoint| c@),
        }
    }
}

/// All nets of a schematic, sorted by name.
#[derive(Debug)]
pub struct Netlist {
    pub nets: Vec<Net>,
}

/// Builds netlists; points within `tolerance` internal units match.
#[derive(Clone, Copy, Debug)]
pub struct NetlistBuilder {
    tolerance: i32,
}

// ---------------------------------------------------------------------------
// The points and segments of a schematic
// ---------------------------------------------------------------------------

/// The text of the last designator owned by `owner`, or empty.
pub open spec fn designator_of(prims: Seq<SchRecord>, owner: i32) -> Seq<char>
    decreases prims.len(),
{
    if prims.len() == 0 {
        Seq::empty()
    } else {
        match prims.last() {
            SchRecord::Designator(d) => if d.owner_index == owner {
                d.text@
            } else {
                designator_of(prims.drop_last(), owner)
            },
            _ => designator_of(prims.drop_last(), owner),
        }
    }
}

/// The hot end of a pin.
pub open spec fn pin_endpoint(p: SchPin) -> (int, int) {
    let dx: int = if p.rotated {
        0
    } else if p.flipped {
        -p.pin_length
    } else {
        p.pin_length as int
    };
    let dy: int = if !p.rotated {
        0
    } else if p.flipped {
        -p.pin_length
    } else {
        p.pin_length as int
    };
    (p.location_x + dx, p.location_y + dy)
}

/// Whether a value fits an `i32`.
pub open spec fn fits(v: int) -> bool {
    i32::MIN <= v <= i32::MAX
}

/// Whether every pin's hot end has `i32` coordinates.
pub open spec fn endpoints_fit(prims: Seq<SchRecord>) -> bool {
    forall|i: int|
        0 <= i < prims.len() ==> (#[trigger] prims[i] matches SchRecord::Pin(p) ==> fits(pin_endpoint(p).0) && fits(
            pin_endpoint(p).1,
        ))
}

/// The connection points of record `i`.
pub open spec fn record_points(prims: Seq<SchRecord>, i: int) -> Seq<PointView> {
    match prims[i] {
        SchRecord::Pin(p) => seq![
            PointView {
                loc: pin_endpoint(p),
                kind: KindView::Pin(designator_of(prims, p.owner_index), p.designator@),
            },
        ],
        SchRecord::Wire(w) => {
            let v = w.vertices@;
            let first = PointView { loc: (v[0].0 as int, v[0].1 as int), kind: KindView::WireEnd(i as usize) };
            let last = PointView {
                loc: (v[v.len() - 1].0 as int, v[v.len() - 1].1 as int),
                kind: KindView::WireEnd(i as usize),
            };
            if v.len() == 0 {
                Seq::empty()
            } else if v.len() == 1 {
                seq![first]
            } else {
                seq![first, last]
            }
        },
        SchRecord::Junction(j) => seq![
            PointView { loc: (j.location_x as int, j.location_y as int), kind: KindView::Junction(i as usize) },
        ],
        SchRecord::NetLabel(l) => seq![
            PointView { loc: (l.location_x as int, l.location_y as int), kind: KindView::NetLabel(l.text@) },
        ],
        SchRecord::PowerObject(p) => seq![
            PointView { loc: (p.location_x as int, p.location_y as int), kind: KindView::PowerPort(p.text@) },
        ],
        SchRecord::Port(p) => seq![
            PointView { loc: (p.location_x as int, p.location_y as int), kind: KindView::Port(p.name@) },
        ],
        _ => Seq::empty(),
    }
}

/// The connection points of the first `n` records, in record order.
pub open spec fn points_upto(prims: Seq<SchRecord>, n: nat) -> Seq<PointView>
    decreases n,
{
    if n == 0 {
        Seq::empty()
    } else {
        points_upto(prims, (n - 1) as nat) + record_points(prims, n - 1)
    }
}

/// All connection points, in record order.
pub open spec fn connection_points(prims: Seq<SchRecord>) -> Seq<PointView> {
    points_upto(prims, prims.len())
}

/// A wire's segments between consecutive vertices.
pub open spec fn wire_segments(v: Seq<(i32, i32)>) -> Seq<((int, int), (int, int))> {
    Seq::new(
        if v.len() == 0 {
            0nat
        } else {
            (v.len() - 1) as nat
        },
        |k: int| ((v[k].0 as int, v[k].1 as int), (v[k + 1].0 as int, v[k + 1].1 as int)),
    )
}

/// The wire segments of the first `n` records.
pub open spec fn segments_upto(prims: Seq<SchRecord>, n: nat) -> Seq<((int, int), (int, int))>
    decreases n,
{
    if n == 0 {
        Seq::empty()
    } else {
        segments_upto(prims, (n - 1) as nat) + match prims[n - 1] {
            SchRecord::Wire(w) => wire_segments(w.vertices@),
            _ => Seq::empty(),
        }
    }
}

/// All wire segments.
pub open spec fn all_segments(prims: Seq<SchRecord>) -> Seq<((int, int), (int, int))> {
    segments_upto(prims, prims.len())
}

/// A coordinate snapped down (toward zero) to a multiple of `t`.
pub open spec fn snap(v: int, t: int) -> int {
    trunc_div(v, t) * t
}

pub open spec fn snap_loc(l: (int, int), t: int) -> (int, int) {
    (snap(l.0, t), snap(l.1, t))
}

/// Whether a point lies on a horizontal or vertical segment, within `tol`.
pub open spec fn on_segment(pt: (int, int), s: ((int, int), (int, int)), tol: int) -> bool {
    let (px, py) = pt;
    let ((sx, sy), (ex, ey)) = s;
    let inside = min_int(sx, ex) - tol <= px <= max_int(sx, ex) + tol && min_int(sy, ey) - tol <= py <= max_int(
        sy,
        ey,
    ) + tol;
    inside && ((sy == ey && abs_int(py - sy) <= tol) || (sx == ex && abs_int(px - sx) <= tol))
}

/// Whether points `x` and `y` are joined directly: same cell, or a segment
/// from the cell of `x` to, or over, the cell of `y`.
pub open spec fn linked(
    pts: Seq<PointView>,
    segs: Seq<((int, int), (int, int))>,
    t: int,
    tol: int,
    x: int,
    y: int,
) -> bool {
    &&& 0 <= x < pts.len()
    &&& 0 <= y < pts.len()
    &&& {
        let cx = snap_loc(pts[x].loc, t);
        let cy = snap_loc(pts[y].loc, t);
        cx == cy || exists|k: int|
            0 <= k < segs.len() && #[trigger] snap_loc(segs[k].0, t) == cx && (snap_loc(segs[k].1, t) == cy
                || on_segment(cy, segs[k], tol))
    }
}

/// The cell size of a tolerance.
pub open spec fn cell(tol: int) -> int {
    if tol < 1 {
        1
    } else {
        tol
    }
}

/// The direct joins of a schematic's points.
pub open spec fn joins(prims: Seq<SchRecord>, tol: int) -> spec_fn(int, int) -> bool {
    |x: int, y: int| linked(connection_points(prims), all_segments(prims), cell(tol), tol, x, y)
}

// ---------------------------------------------------------------------------
// Collecting points and segments
// ---------------------------------------------------------------------------

/// The text of the last designator owned by `owner`.
fn designator_for(prims: &[SchRecord], owner: i32) -> (r: String)
    ensures
        r@ == designator_of(prims@, owner),
{
    let mut i: usize = prims.len();
    assert(prims@.take(i as int) =~= prims@);
    while i > 0
        invariant
            i <= prims@.len(),
            designator_of(prims@.take(i as int), owner) == designator_of(prims@, owner),
        decreases i,
    {
        assert(prims@.take(i as int).drop_last() =~= prims@.take(i - 1));
        match &prims[i - 1] {
            SchRecord::Designator(d) => {
                if d.owner_index == owner {
                    return text(d.text.as_str());
                }
            },
            _ => {},
        }
        i = i - 1;
    }
    String::new()
}

/// The hot end of a pin.
fn pin_endpoint_exec(p: &SchPin) -> (r: (i32, i32))
    requires
        fits(pin_endpoint(*p).0),
        fits(pin_endpoint(*p).1),
    ensures
        (r.0 as int, r.1 as int) == pin_endpoint(*p),
{
    let x = p.location_x as i64;
    let y = p.location_y as i64;
    let len = p.pin_length as i64;
    let (dx, dy): (i64, i64) = if !p.rotated {
        if p.flipped {
            (-len, 0)
        } else {
            (len, 0)
        }
    } else {
        if p.flipped {
            (0, -len)
        } else {
            (0, len)
        }
    };
    ((x + dx) as i32, (y + dy) as i32)
}

/// A copy of a string.
fn dup_text(s: &String) -> (r: String)
    ensures
        r@ == s@,
{
    text(s.as_str())
}

/// The connection points of record `i`.
fn record_points_exec(prims: &[SchRecord], i: usize, out: &mut Vec<ConnectionPoint>)
    requires
        i < prims@.len(),
        endpoints_fit(prims@),
    ensures
        final(out)@.map_values(|c: ConnectionPoint| c@) == old(out)@.map_values(|c: ConnectionPoint| c@)
            + record_points(prims@, i as int),
{
    let ghost before = out@.map_values(|c: ConnectionPoint| c@);
    match &prims[i] {
        SchRecord::Pin(p) => {
            assert(prims@[i as int] matches SchRecord::Pin(q) && q == *p);
            let component = designator_for(prims, p.owner_index);
            let location = pin_endpoint_exec(p);
            out.push(ConnectionPoint { location, kind: ConnectionKind::Pin { component, pin: dup_text(&p.designator) } });
        },
        SchRecord::Wire(w) => {
            let n = w.vertices.len();
            if n > 0 {
                out.push(ConnectionPoint { location: w.vertices[0], kind: ConnectionKind::WireEnd { wire_index: i } });
                if n > 1 {
                    out.push(
                        ConnectionPoint { location: w.vertices[n - 1], kind: ConnectionKind::WireEnd { wire_index: i } },
                    );
                }
            }
        },
        SchRecord::Junction(j) => {
            out.push(
                ConnectionPoint { location: (j.location_x, j.location_y), kind: ConnectionKind::Junction { index: i } },
            );
        },
        SchRecord::NetLabel(l) => {
            out.push(
                ConnectionPoint {
                    location: (l.location_x, l.location_y),
                    kind: ConnectionKind::NetLabel { name: dup_text(&l.text) },
                },
            );
        },
        SchRecord::PowerObject(p) => {
            out.push(
                ConnectionPoint {
                    location: (p.location_x, p.location_y),
                    kind: ConnectionKind::PowerPort { name: dup_text(&p.text) },
                },
            );
        },
        SchRecord::Port(p) => {
            out.push(
                ConnectionPoint {
                    location: (p.location_x, p.location_y),
                    kind: ConnectionKind::Port { name: dup_text(&p.name) },
                },
            );
        },
        _ => {},
    }
    assert(out@.map_values(|c: ConnectionPoint| c@) =~= before + record_points(prims@, i as int));
}

/// All connection points, in record order.
fn collect_points(prims: &[SchRecord]) -> (r: Vec<ConnectionPoint>)
    requires
        endpoints_fit(prims@),
    ensures
        r@.map_values(|c: ConnectionPoint| c@) == connection_points(prims@),
{
    let mut out: Vec<ConnectionPoint> = Vec::new();
    let mut i: usize = 0;
    assert(out@.map_values(|c: ConnectionPoint| c@) =~= points_upto(prims@, 0));
    while i < prims.len()
        invariant
            i <= prims@.len(),
            endpoints_fit(prims@),
            out@.map_values(|c: ConnectionPoint| c@) == points_upto(prims@, i as nat),
        decreases prims@.len() - i,
    {
        record_points_exec(prims, i, &mut out);
        i = i + 1;
    }
    out
}

/// The value of a segment.
pub open spec fn seg_view(s: ((i32, i32), (i32, i32))) -> ((int, int), (int, int)) {
    ((s.0.0 as int, s.0.1 as int), (s.1.0 as int, s.1.1 as int))
}

/// All wire segments, in record order.
pub(crate) fn collect_segments(prims: &[SchRecord]) -> (r: Vec<((i32, i32), (i32, i32))>)
    ensures
        r@.map_values(|s: ((i32, i32), (i32, i32))| seg_view(s)) == all_segments(prims@),
{
    let mut out: Vec<((i32, i32), (i32, i32))> = Vec::new();
    let mut i: usize = 0;
    assert(out@.map_values(|s: ((i32, i32), (i32, i32))| seg_view(s)) =~= segments_upto(prims@, 0));
    while i < prims.len()
        invariant
            i <= prims@.len(),
            out@.map_values(|s: ((i32, i32), (i32, i32))| seg_view(s)) == segments_upto(prims@, i as nat),
        decreases prims@.len() - i,
    {
        let ghost before = out@.map_values(|s: ((i32, i32), (i32, i32))| seg_view(s));
        match &prims[i] {
            SchRecord::Wire(w) => {
                let v = &w.vertices;
                let mut k: usize = 1;
                while k < v.len()
                    invariant
                        1 <= k <= v@.len() || (v@.len() == 0 && k == 1),
                        k >= 1,
                        out@.map_values(|s: ((i32, i32), (i32, i32))| seg_view(s)) == before + wire_segments(
                            v@,
                        ).take(k - 1),
                    decreases v@.len() - k,
                {
                    let ghost prev = out@;
                    out.push((v[k - 1], v[k]));
                    assert(out@.map_values(|s: ((i32, i32), (i32, i32))| seg_view(s)) =~= prev.map_values(
                        |s: ((i32, i32), (i32, i32))| seg_view(s),
                    ).push(seg_view((v@[k - 1], v@[k as int]))));
                    assert(wire_segments(v@).take(k as int) =~= wire_segments(v@).take(k - 1).push(
                        seg_view((v@[k - 1], v@[k as int])),
                    ));
                    assert(out@.map_values(|s: ((i32, i32), (i32, i32))| seg_view(s)) =~= before + wire_segments(
                        v@,
                    ).take(k as int));
                    k = k + 1;
                }
                assert(wire_segments(v@).len() == if v@.len() == 0 { 0 } else { v@.len() - 1 });
                assert(wire_segments(v@).take(k - 1) =~= wire_segments(v@));
            },
            _ => {
                assert(before + Seq::empty() =~= before);
            },
        }
        i = i + 1;
    }
    out
}

// ---------------------------------------------------------------------------
// Joining points
// ---------------------------------------------------------------------------

/// A coordinate snapped toward zero to a multiple of `t`.
fn snap_exec(v: i32, t: i32) -> (r: i64)
    requires
        t >= 1,
    ensures
        r == snap(v as int, t as int),
        fits(r as int),
{
    let q = div_trunc_i64(v as i64, t as i64);
    proof {
        crate::edit::types::lemma_trunc_div_mul_bound(v as int, t as int);
    }
    q * (t as i64)
}

/// Whether a point lies on a horizontal or vertical segment, within `tol`.
fn on_segment_exec(px: i64, py: i64, s: ((i32, i32), (i32, i32)), tol: i32) -> (r: bool)
    requires
        fits(px as int),
        fits(py as int),
    ensures
        r == on_segment((px as int, py as int), seg_view(s), tol as int),
{
    let sx = s.0.0 as i64;
    let sy = s.0.1 as i64;
    let ex = s.1.0 as i64;
    let ey = s.1.1 as i64;
    let t = tol as i64;
    let min_x = if sx < ex { sx } else { ex };
    let max_x = if sx < ex { ex } else { sx };
    let min_y = if sy < ey { sy } else { ey };
    let max_y = if sy < ey { ey } else { sy };
    if px < min_x - t || px > max_x + t || py < min_y - t || py > max_y + t {
        return false;
    }
    let dy = if py >= sy { py - sy } else { sy - py };
    if sy == ey && dy <= t {
        return true;
    }
    let dx = if px >= sx { px - sx } else { sx - px };
    sx == ex && dx <= t
}

/// The points' values.
pub open spec fn points_view(v: Seq<ConnectionPoint>) -> Seq<PointView> {
    v.map_values(|c: ConnectionPoint| c@)
}

/// The segments' values.
pub open spec fn segs_view(v: Seq<((i32, i32), (i32, i32))>) -> Seq<((int, int), (int, int))> {
    v.map_values(|s: ((i32, i32), (i32, i32))| seg_view(s))
}

/// Whether points `x` and `y` are joined directly.
fn linked_exec(
    pts: &Vec<ConnectionPoint>,
    segs: &Vec<((i32, i32), (i32, i32))>,
    t: i32,
    tol: i32,
    x: usize,
    y: usize,
) -> (r: bool)
    requires
        t >= 1,
        x < pts@.len(),
        y < pts@.len(),
    ensures
        r == linked(points_view(pts@), segs_view(segs@), t as int, tol as int, x as int, y as int),
{
    let ghost pv = points_view(pts@);
    let ghost sv = segs_view(segs@);
    let cx = (snap_exec(pts[x].location.0, t), snap_exec(pts[x].location.1, t));
    let cy = (snap_exec(pts[y].location.0, t), snap_exec(pts[y].location.1, t));
    assert(pv[x as int] == pts@[x as int]@ && pv[y as int] == pts@[y as int]@);
    if cx.0 == cy.0 && cx.1 == cy.1 {
        return true;
    }
    let mut k: usize = 0;
    while k < segs.len()
        invariant
            k <= segs@.len(),
            sv == segs_view(segs@),
            pv == points_view(pts@),
            x < pts@.len(),
            y < pts@.len(),
            (cx.0 as int, cx.1 as int) == snap_loc(pv[x as int].loc, t as int),
            (cy.0 as int, cy.1 as int) == snap_loc(pv[y as int].loc, t as int),
            fits(cy.0 as int),
            fits(cy.1 as int),
            t >= 1,
            forall|j: int|
                0 <= j < k ==> !(#[trigger] snap_loc(sv[j].0, t as int) == snap_loc(pv[x as int].loc, t as int) && (
                snap_loc(sv[j].1, t as int) == snap_loc(pv[y as int].loc, t as int) || on_segment(
                    snap_loc(pv[y as int].loc, t as int),
                    sv[j],
                    tol as int,
                ))),
        decreases segs@.len() - k,
    {
        let s = segs[k];
        assert(sv[k as int] == seg_view(s));
        let s0 = (snap_exec(s.0.0, t), snap_exec(s.0.1, t));
        if s0.0 == cx.0 && s0.1 == cx.1 {
            let s1 = (snap_exec(s.1.0, t), snap_exec(s.1.1, t));
            if (s1.0 == cy.0 && s1.1 == cy.1) || on_segment_exec(cy.0, cy.1, s, tol) {
                proof {
                    let sy = snap_loc(pv[y as int].loc, t as int);
                    assert(snap_loc(sv[k as int].1, t as int) == (s1.0 as int, s1.1 as int));
                    assert(snap_loc(sv[k as int].0, t as int) == snap_loc(pv[x as int].loc, t as int) && (snap_loc(
                        sv[k as int].1,
                        t as int,
                    ) == sy || on_segment(sy, sv[k as int], tol as int)));
                    assert(sv == segs_view(segs@));
                }
                return true;
            }
        }
        k = k + 1;
    }
    false
}

/// The joins among the first `x0` rows and the first `y0` entries of row
/// `x0`.
pub open spec fn joins_before(e: spec_fn(int, int) -> bool, x0: int, y0: int) -> spec_fn(int, int) -> bool {
    |a: int, b: int| e(a, b) && (a < x0 || (a == x0 && b < y0))
}

// ---------------------------------------------------------------------------
// Nets
// ---------------------------------------------------------------------------

/// Whether no earlier point is connected to point `i`.
pub open spec fn is_leader(e: spec_fn(int, int) -> bool, n: int, i: int) -> bool {
    forall|j: int| 0 <= j < i ==> !#[trigger] connected(e, n, j, i)
}

/// The points among the first `m` connected to point `x`.
pub open spec fn members(e: spec_fn(int, int) -> bool, n: int, x: int, m: nat) -> Seq<int>
    decreases m,
{
    if m == 0 {
        Seq::empty()
    } else {
        members(e, n, x, (m - 1) as nat) + if connected(e, n, x, m - 1) {
            seq![m - 1]
        } else {
            Seq::empty()
        }
    }
}

/// The name a kind gives a net under rule `tag` (0 net label, 1 power
/// port, 2 port), when not empty.
pub open spec fn kind_name(k: KindView, tag: int) -> Option<Seq<char>> {
    match k {
        KindView::NetLabel(nm) => if tag == 0 && nm.len() > 0 {
            Some(nm)
        } else {
            None
        },
        KindView::PowerPort(nm) => if tag == 1 && nm.len() > 0 {
            Some(nm)
        } else {
            None
        },
        KindView::Port(nm) => if tag == 2 && nm.len() > 0 {
            Some(nm)
        } else {
            None
        },
        _ => None,
    }
}

/// The first name that rule `tag` finds among the points.
pub open spec fn first_named(cs: Seq<PointView>, tag: int) -> Option<Seq<char>>
    decreases cs.len(),
{
    if cs.len() == 0 {
        None
    } else {
        match first_named(cs.drop_last(), tag) {
            Some(nm) => Some(nm),
            None => kind_name(cs.last().kind, tag),
        }
    }
}

/// A net's name from its points: a net label, else a power port, else a
/// port; `None` when none names it.
pub open spec fn explicit_name(cs: Seq<PointView>) -> Option<Seq<char>> {
    match first_named(cs, 0) {
        Some(nm) => Some(nm),
        None => match first_named(cs, 1) {
            Some(nm) => Some(nm),
            None => first_named(cs, 2),
        },
    }
}

/// The net of leader `x`; an unnamed net is called `Net<c>`.
pub open spec fn make_net(pts: Seq<PointView>, e: spec_fn(int, int) -> bool, x: int, c: nat) -> NetView {
    let cs = members(e, pts.len() as int, x, pts.len()).map_values(|j: int| pts[j]);
    match explicit_name(cs) {
        Some(nm) => NetView { name: nm, named: true, connections: cs },
        None => NetView { name: "Net"@ + decimal_text(c), named: false, connections: cs },
    }
}

/// Number of unnamed nets.
pub open spec fn unnamed_in(s: Seq<NetView>) -> nat
    decreases s.len(),
{
    if s.len() == 0 {
        0
    } else {
        unnamed_in(s.drop_last()) + if s.last().named {
            0nat
        } else {
            1nat
        }
    }
}

/// The nets of the groups led by the first `m` points, in leader order,
/// unnamed ones numbered from 1.
pub open spec fn nets_upto(pts: Seq<PointView>, e: spec_fn(int, int) -> bool, m: nat) -> Seq<NetView>
    decreases m,
{
    if m == 0 {
        Seq::empty()
    } else {
        let prev = nets_upto(pts, e, (m - 1) as nat);
        if is_leader(e, pts.len() as int, m - 1) {
            prev.push(make_net(pts, e, m - 1, unnamed_in(prev) + 1))
        } else {
            prev
        }
    }
}

/// The first name a rule finds is that of the first point it names: no
/// earlier point gives a name under the rule; when it finds none, no point
/// does.
pub proof fn lemma_first_named(cs: Seq<PointView>, tag: int)
    ensures
        first_named(cs, tag) matches Some(nm) ==> exists|j: int|
            0 <= j < cs.len() && kind_name(#[trigger] cs[j].kind, tag) == Some(nm) && forall|k: int|
                0 <= k < j ==> kind_name(#[trigger] cs[k].kind, tag) is None,
        first_named(cs, tag) is None ==> forall|k: int| 0 <= k < cs.len() ==> kind_name(#[trigger] cs[k].kind, tag) is None,
    decreases cs.len(),
{
    if cs.len() > 0 {
        let t = cs.drop_last();
        lemma_first_named(t, tag);
        match first_named(t, tag) {
            Some(nm) => {
                let j = choose|j: int|
                    0 <= j < t.len() && kind_name(#[trigger] t[j].kind, tag) == Some(nm) && forall|k: int|
                        0 <= k < j ==> kind_name(#[trigger] t[k].kind, tag) is None;
                assert(t[j] == cs[j]);
                assert forall|k: int| 0 <= k < j implies kind_name(#[trigger] cs[k].kind, tag) is None by {
                    assert(t[k] == cs[k]);
                }
            },
            None => {
                assert forall|k: int| 0 <= k < cs.len() - 1 implies kind_name(#[trigger] cs[k].kind, tag) is None by {
                    assert(t[k] == cs[k]);
                }
            },
        }
    }
}

/// How the nets of the first `m` leaders are named: by their points'
/// explicit name when there is one, else `Net<k>` with `k` one more than the
/// unnamed nets before.
proof fn lemma_nets_upto_names(pts: Seq<PointView>, e: spec_fn(int, int) -> bool, m: nat)
    ensures
        forall|i: int|
            0 <= i < nets_upto(pts, e, m).len() ==> {
                let n = #[trigger] nets_upto(pts, e, m)[i];
                &&& n.named == explicit_name(n.connections) is Some
                &&& n.name == match explicit_name(n.connections) {
                    Some(nm) => nm,
                    None => "Net"@ + decimal_text(unnamed_in(nets_upto(pts, e, m).take(i)) + 1),
                }
            },
    decreases m,
{
    if m > 0 {
        let prev = nets_upto(pts, e, (m - 1) as nat);
        lemma_nets_upto_names(pts, e, (m - 1) as nat);
        let all = nets_upto(pts, e, m);
        assert forall|i: int| 0 <= i < all.len() implies {
            let n = #[trigger] all[i];
            &&& n.named == explicit_name(n.connections) is Some
            &&& n.name == match explicit_name(n.connections) {
                Some(nm) => nm,
                None => "Net"@ + decimal_text(unnamed_in(all.take(i)) + 1),
            }
        } by {
            if i < prev.len() {
                assert(all[i] == prev[i]);
                assert(all.take(i) =~= prev.take(i));
            } else {
                assert(all.take(i) =~= prev);
            }
        }
    }
}

/// Each net of a schematic is named after its points: the first non-empty
/// net label among them, else the first power port, else the first port;
/// a net that none of them names is unnamed and called `Net<k>`, where `k`
/// counts it among the unnamed nets in leader order.
pub proof fn lemma_net_naming(prims: Seq<SchRecord>, tol: int)
    ensures
        forall|i: int|
            0 <= i < schematic_nets(prims, tol).len() ==> {
                let n = #[trigger] schematic_nets(prims, tol)[i];
                &&& n.named == explicit_name(n.connections) is Some
                &&& n.name == match explicit_name(n.connections) {
                    Some(nm) => nm,
                    None => "Net"@ + decimal_text(unnamed_in(schematic_nets(prims, tol).take(i)) + 1),
                }
            },
{
    let pts = connection_points(prims);
    lemma_nets_upto_names(pts, joins(prims, tol), pts.len());
}

/// Whether a point is a net label with non-empty text.
pub open spec fn is_named_label(c: PointView) -> bool {
    c.kind matches KindView::NetLabel(nm) && nm.len() > 0
}

/// Whether a point is a power port with a non-empty name.
pub open spec fn is_named_power_port(c: PointView) -> bool {
    c.kind matches KindView::PowerPort(nm) && nm.len() > 0
}

/// Whether a point is a sheet port with a non-empty name.
pub open spec fn is_named_port(c: PointView) -> bool {
    c.kind matches KindView::Port(nm) && nm.len() > 0
}

/// The text of a label, power port or port point.
pub open spec fn point_text(c: PointView) -> Seq<char> {
    match c.kind {
        KindView::NetLabel(nm) => nm,
        KindView::PowerPort(nm) => nm,
        KindView::Port(nm) => nm,
        _ => Seq::empty(),
    }
}

/// If point `j` is the first point that rule `tag` names, the rule finds
/// that point's name.
proof fn lemma_first_named_at(cs: Seq<PointView>, tag: int, j: int)
    requires
        0 <= j < cs.len(),
        kind_name(cs[j].kind, tag) is Some,
        forall|k: int| 0 <= k < j ==> kind_name(#[trigger] cs[k].kind, tag) is None,
    ensures
        first_named(cs, tag) == kind_name(cs[j].kind, tag),
{
    lemma_first_named(cs, tag);
    if first_named(cs, tag) is Some {
        let nm = first_named(cs, tag).unwrap();
        let i = choose|i: int|
            0 <= i < cs.len() && kind_name(#[trigger] cs[i].kind, tag) == Some(nm) && forall|k: int|
                0 <= k < i ==> kind_name(#[trigger] cs[k].kind, tag) is None;
        if i < j {
            assert(kind_name(cs[i].kind, tag) is None);
        } else if j < i {
            assert(kind_name(cs[j].kind, tag) is None);
        }
    }
}

/// A net that holds a net label with non-empty text is named by the first
/// such label, whatever power ports or ports it also holds; a net without
/// such a label but with a named power port is named by the first such
/// power port.
pub proof fn lemma_label_names_net(prims: Seq<SchRecord>, tol: int)
    ensures
        forall|i: int, j: int|
            0 <= i < schematic_nets(prims, tol).len() && 0 <= j < schematic_nets(prims, tol)[i].connections.len()
                && is_named_label(#[trigger] schematic_nets(prims, tol)[i].connections[j]) && (forall|k: int|
                0 <= k < j ==> !is_named_label(#[trigger] schematic_nets(prims, tol)[i].connections[k]))
                ==> schematic_nets(prims, tol)[i].named && schematic_nets(prims, tol)[i].name == point_text(
                schematic_nets(prims, tol)[i].connections[j],
            ),
        forall|i: int, j: int|
            0 <= i < schematic_nets(prims, tol).len() && 0 <= j < schematic_nets(prims, tol)[i].connections.len()
                && is_named_power_port(#[trigger] schematic_nets(prims, tol)[i].connections[j]) && (forall|k: int|
                0 <= k < schematic_nets(prims, tol)[i].connections.len() ==> !is_named_label(
                    #[trigger] schematic_nets(prims, tol)[i].connections[k],
                )) && (forall|k: int|
                0 <= k < j ==> !is_named_power_port(#[trigger] schematic_nets(prims, tol)[i].connections[k]))
                ==> schematic_nets(prims, tol)[i].named && schematic_nets(prims, tol)[i].name == point_text(
                schematic_nets(prims, tol)[i].connections[j],
            ),
{
    lemma_net_naming(prims, tol);
    let nets = schematic_nets(prims, tol);
    assert forall|i: int, j: int|
        0 <= i < nets.len() && 0 <= j < nets[i].connections.len() && is_named_label(
            #[trigger] nets[i].connections[j],
        ) && (forall|k: int| 0 <= k < j ==> !is_named_label(#[trigger] nets[i].connections[k])) implies nets[i].named
        && nets[i].name == point_text(nets[i].connections[j]) by {
        let cs = nets[i].connections;
        assert forall|k: int| 0 <= k < j implies kind_name(#[trigger] cs[k].kind, 0) is None by {
            assert(!is_named_label(cs[k]));
        }
        lemma_first_named_at(cs, 0, j);
    }
    assert forall|i: int, j: int|
        0 <= i < nets.len() && 0 <= j < nets[i].connections.len() && is_named_power_port(
            #[trigger] nets[i].connections[j],
        ) && (forall|k: int| 0 <= k < nets[i].connections.len() ==> !is_named_label(#[trigger] nets[i].connections[k]))
            && (forall|k: int| 0 <= k < j ==> !is_named_power_port(#[trigger] nets[i].connections[k])) implies nets[i].named
        && nets[i].name == point_text(nets[i].connections[j]) by {
        let cs = nets[i].connections;
        assert forall|k: int| 0 <= k < cs.len() implies kind_name(#[trigger] cs[k].kind, 0) is None by {
            assert(!is_named_label(cs[k]));
        }
        lemma_first_named(cs, 0);
        if first_named(cs, 0) is Some {
            let nm = first_named(cs, 0).unwrap();
            let q = choose|q: int|
                0 <= q < cs.len() && kind_name(#[trigger] cs[q].kind, 0) == Some(nm) && forall|k: int|
                    0 <= k < q ==> kind_name(#[trigger] cs[k].kind, 0) is None;
            assert(kind_name(cs[q].kind, 0) is None);
        }
        assert forall|k: int| 0 <= k < j implies kind_name(#[trigger] cs[k].kind, 1) is None by {
            assert(!is_named_power_port(cs[k]));
        }
        lemma_first_named_at(cs, 1, j);
    }
}

/// A net with neither a named net label nor a named power port is named by
/// its first named sheet port; a net with none of the three is unnamed.
pub proof fn lemma_port_names_net(prims: Seq<SchRecord>, tol: int)
    ensures
        forall|i: int, j: int|
            0 <= i < schematic_nets(prims, tol).len() && 0 <= j < schematic_nets(prims, tol)[i].connections.len()
                && is_named_port(#[trigger] schematic_nets(prims, tol)[i].connections[j]) && (forall|k: int|
                0 <= k < schematic_nets(prims, tol)[i].connections.len() ==> !is_named_label(
                    #[trigger] schematic_nets(prims, tol)[i].connections[k],
                ) && !is_named_power_port(schematic_nets(prims, tol)[i].connections[k])) && (forall|k: int|
                0 <= k < j ==> !is_named_port(#[trigger] schematic_nets(prims, tol)[i].connections[k]))
                ==> schematic_nets(prims, tol)[i].named && schematic_nets(prims, tol)[i].name == point_text(
                schematic_nets(prims, tol)[i].connections[j],
            ),
        forall|i: int|
            0 <= i < schematic_nets(prims, tol).len() && (forall|k: int|
                0 <= k < schematic_nets(prims, tol)[i].connections.len() ==> !is_named_label(
                    #[trigger] schematic_nets(prims, tol)[i].connections[k],
                ) && !is_named_power_port(schematic_nets(prims, tol)[i].connections[k]) && !is_named_port(
                    schematic_nets(prims, tol)[i].connections[k],
                )) ==> !(#[trigger] schematic_nets(prims, tol)[i]).named,
{
    lemma_net_naming(prims, tol);
    let nets = schematic_nets(prims, tol);
    assert forall|i: int, j: int|
        0 <= i < nets.len() && 0 <= j < nets[i].connections.len() && is_named_port(#[trigger] nets[i].connections[j])
            && (forall|k: int|
            0 <= k < nets[i].connections.len() ==> !is_named_label(#[trigger] nets[i].connections[k])
                && !is_named_power_port(nets[i].connections[k])) && (forall|k: int|
            0 <= k < j ==> !is_named_port(#[trigger] nets[i].connections[k])) implies nets[i].named && nets[i].name
        == point_text(nets[i].connections[j]) by {
        let cs = nets[i].connections;
        lemma_first_named(cs, 0);
        lemma_first_named(cs, 1);
        assert forall|k: int| 0 <= k < cs.len() implies kind_name(#[trigger] cs[k].kind, 0) is None
            && kind_name(cs[k].kind, 1) is None by {
            assert(!is_named_label(cs[k]) && !is_named_power_port(cs[k]));
        }
        if first_named(cs, 0) is Some {
            let q = choose|q: int|
                0 <= q < cs.len() && kind_name(#[trigger] cs[q].kind, 0) == first_named(cs, 0) && forall|k: int|
                    0 <= k < q ==> kind_name(#[trigger] cs[k].kind, 0) is None;
            assert(kind_name(cs[q].kind, 0) is None);
        }
        if first_named(cs, 1) is Some {
            let q = choose|q: int|
                0 <= q < cs.len() && kind_name(#[trigger] cs[q].kind, 1) == first_named(cs, 1) && forall|k: int|
                    0 <= k < q ==> kind_name(#[trigger] cs[k].kind, 1) is None;
            assert(kind_name(cs[q].kind, 1) is None);
        }
        assert forall|k: int| 0 <= k < j implies kind_name(#[trigger] cs[k].kind, 2) is None by {
            assert(!is_named_port(cs[k]));
        }
        lemma_first_named_at(cs, 2, j);
    }
    assert forall|i: int|
        0 <= i < nets.len() && (forall|k: int|
            0 <= k < nets[i].connections.len() ==> !is_named_label(#[trigger] nets[i].connections[k])
                && !is_named_power_port(nets[i].connections[k]) && !is_named_port(nets[i].connections[k])) implies !(
    #[trigger] nets[i]).named by {
        let cs = nets[i].connections;
        lemma_first_named(cs, 0);
        lemma_first_named(cs, 1);
        lemma_first_named(cs, 2);
        assert forall|k: int| 0 <= k < cs.len() implies kind_name(#[trigger] cs[k].kind, 0) is None
            && kind_name(cs[k].kind, 1) is None && kind_name(cs[k].kind, 2) is None by {
            assert(!is_named_label(cs[k]) && !is_named_power_port(cs[k]) && !is_named_port(cs[k]));
        }
        if first_named(cs, 0) is Some {
            let q = choose|q: int|
                0 <= q < cs.len() && kind_name(#[trigger] cs[q].kind, 0) == first_named(cs, 0) && forall|k: int|
                    0 <= k < q ==> kind_name(#[trigger] cs[k].kind, 0) is None;
            assert(kind_name(cs[q].kind, 0) is None);
        }
        if first_named(cs, 1) is Some {
            let q = choose|q: int|
                0 <= q < cs.len() && kind_name(#[trigger] cs[q].kind, 1) == first_named(cs, 1) && forall|k: int|
                    0 <= k < q ==> kind_name(#[trigger] cs[k].kind, 1) is None;
            assert(kind_name(cs[q].kind, 1) is None);
        }
        if first_named(cs, 2) is Some {
            let q = choose|q: int|
                0 <= q < cs.len() && kind_name(#[trigger] cs[q].kind, 2) == first_named(cs, 2) && forall|k: int|
                    0 <= k < q ==> kind_name(#[trigger] cs[k].kind, 2) is None;
            assert(kind_name(cs[q].kind, 2) is None);
        }
    }
}

/// Every point is connected to a leader at or before it.
proof fn lemma_leader_exists(e: spec_fn(int, int) -> bool, n: int, a: int)
    requires
        0 <= a < n,
    ensures
        exists|x: int| 0 <= x <= a && #[trigger] connected(e, n, x, a) && is_leader(e, n, x),
    decreases a,
{
    crate::edit::graph::lemma_walk_single(e, n, a);
    if !is_leader(e, n, a) {
        let j = choose|j: int| 0 <= j < a && #[trigger] connected(e, n, j, a);
        assert(0 <= j < n);
        lemma_leader_exists(e, n, j);
        let x = choose|x: int| 0 <= x <= j && #[trigger] connected(e, n, x, j) && is_leader(e, n, x);
        crate::edit::graph::lemma_connected_symmetric_transitive(e, n, x, j, a);
        assert(connected(e, n, x, a));
    } else {
        assert(connected(e, n, a, a));
    }
}

/// The members of a point among the first `m` are exactly the points
/// before `m` connected to it.
proof fn lemma_members_contain(e: spec_fn(int, int) -> bool, n: int, x: int, m: nat, j: int)
    requires
        0 <= j < m,
        connected(e, n, x, j),
    ensures
        members(e, n, x, m).contains(j),
    decreases m,
{
    if j < m - 1 {
        lemma_members_contain(e, n, x, (m - 1) as nat, j);
        let a = members(e, n, x, (m - 1) as nat);
        let k = choose|k: int| 0 <= k < a.len() && a[k] == j;
        assert(members(e, n, x, m)[k] == j);
    } else {
        let a = members(e, n, x, (m - 1) as nat);
        assert(members(e, n, x, m)[a.len() as int] == j);
    }
}

/// The net of every leader among the first `m` points is among the nets.
proof fn lemma_leader_net(pts: Seq<PointView>, e: spec_fn(int, int) -> bool, m: nat, x: int)
    requires
        0 <= x < m,
        is_leader(e, pts.len() as int, x),
    ensures
        exists|i: int|
            0 <= i < nets_upto(pts, e, m).len() && (#[trigger] nets_upto(pts, e, m)[i]).connections == members(
                e,
                pts.len() as int,
                x,
                pts.len(),
            ).map_values(|j: int| pts[j]),
    decreases m,
{
    let prev = nets_upto(pts, e, (m - 1) as nat);
    let all = nets_upto(pts, e, m);
    if x < m - 1 {
        lemma_leader_net(pts, e, (m - 1) as nat, x);
        let i = choose|i: int|
            0 <= i < prev.len() && (#[trigger] prev[i]).connections == members(e, pts.len() as int, x, pts.len()).map_values(
                |j: int| pts[j],
            );
        if is_leader(e, pts.len() as int, m - 1) {
            assert(all[i] == prev[i]);
        }
    } else {
        assert(all[prev.len() as int] == make_net(pts, e, x, unnamed_in(prev) + 1));
    }
}

/// Two points in the same cell lie in one net of the schematic.
pub proof fn lemma_same_cell_same_net(prims: Seq<SchRecord>, tol: int, a: int, b: int)
    requires
        0 <= a < connection_points(prims).len(),
        0 <= b < connection_points(prims).len(),
        snap_loc(connection_points(prims)[a].loc, cell(tol)) == snap_loc(connection_points(prims)[b].loc, cell(tol)),
    ensures
        exists|i: int|
            0 <= i < schematic_nets(prims, tol).len() && (#[trigger] schematic_nets(prims, tol)[i]).connections.contains(
                connection_points(prims)[a],
            ) && schematic_nets(prims, tol)[i].connections.contains(connection_points(prims)[b]),
{
    let pts = connection_points(prims);
    let e = joins(prims, tol);
    let n = pts.len() as int;
    assert(e(a, b));
    crate::edit::graph::lemma_walk_edge(e, n, a, b);
    lemma_leader_exists(e, n, a);
    let x = choose|x: int| 0 <= x <= a && #[trigger] connected(e, n, x, a) && is_leader(e, n, x);
    crate::edit::graph::lemma_connected_symmetric_transitive(e, n, x, a, b);
    lemma_members_contain(e, n, x, pts.len(), a);
    lemma_members_contain(e, n, x, pts.len(), b);
    lemma_leader_net(pts, e, pts.len(), x);
    let i = choose|i: int|
        0 <= i < nets_upto(pts, e, pts.len()).len() && (#[trigger] nets_upto(pts, e, pts.len())[i]).connections
            == members(e, n, x, pts.len()).map_values(|j: int| pts[j]);
    let ms = members(e, n, x, pts.len());
    let ka = choose|k: int| 0 <= k < ms.len() && ms[k] == a;
    let kb = choose|k: int| 0 <= k < ms.len() && ms[k] == b;
    let cs = ms.map_values(|j: int| pts[j]);
    assert(cs[ka] == pts[a]);
    assert(cs[kb] == pts[b]);
    assert(cs.contains(pts[a]) && cs.contains(pts[b]));
    assert(schematic_nets(prims, tol) == nets_upto(pts, e, pts.len()));
    assert(schematic_nets(prims, tol)[i].connections == cs);
}

/// The nets of a schematic, before sorting.
pub open spec fn schematic_nets(prims: Seq<SchRecord>, tol: int) -> Seq<NetView> {
    let pts = connection_points(prims);
    nets_upto(pts, joins(prims, tol), pts.len())
}

/// The sort key of a net: its name's UTF-8 bytes.
pub open spec fn name_key(v: NetView) -> Seq<u8> {
    vstd::utf8::encode_utf8(v.name)
}

/// Whether the nets are in name order.
pub open spec fn names_sorted(s: Seq<NetView>) -> bool {
    forall|i: int, j: int| 0 <= i < j < s.len() ==> bytes_le(name_key(#[trigger] s[i]), name_key(#[trigger] s[j]))
}

/// The values of nets.
pub open spec fn nets_view(v: Seq<Net>) -> Seq<NetView> {
    v.map_values(|n: Net| n@)
}

/// Component labels of the points under the direct joins.
fn component_labels(pts: &Vec<ConnectionPoint>, segs: &Vec<((i32, i32), (i32, i32))>, t: i32, tol: i32) -> (l: Vec<
    usize,
>)
    requires
        t >= 1,
    ensures
        labels_exact(
            |x: int, y: int| linked(points_view(pts@), segs_view(segs@), t as int, tol as int, x, y),
            pts@.len() as int,
            l@,
        ),
{
    let ghost e = |x: int, y: int| linked(points_view(pts@), segs_view(segs@), t as int, tol as int, x, y);
    let ghost n = pts@.len() as int;
    let mut l: Vec<usize> = Vec::new();
    let mut i: usize = 0;
    while i < pts.len()
        invariant
            i <= pts@.len(),
            l@.len() == i,
            forall|k: int| 0 <= k < i ==> l@[k] == k,
        decreases pts@.len() - i,
    {
        l.push(i);
        i = i + 1;
    }
    proof {
        assert(joins_before(e, 0, 0) =~= no_edges());
        assert forall|x: int, y: int| 0 <= x < n && 0 <= y < n implies (l@[x] == l@[y] <==> #[trigger] connected(
            joins_before(e, 0, 0),
            n,
            x,
            y,
        )) by {
            lemma_no_edges(n, x, y);
        }
    }
    let mut x: usize = 0;
    while x < pts.len()
        invariant
            x <= pts@.len(),
            n == pts@.len(),
            t >= 1,
            e == (|a: int, b: int| linked(points_view(pts@), segs_view(segs@), t as int, tol as int, a, b)),
            labels_exact(joins_before(e, x as int, 0), n, l@),
        decreases pts@.len() - x,
    {
        let mut y: usize = 0;
        while y < pts.len()
            invariant
                x < pts@.len(),
                y <= pts@.len(),
                n == pts@.len(),
                t >= 1,
                e == (|a: int, b: int| linked(points_view(pts@), segs_view(segs@), t as int, tol as int, a, b)),
                labels_exact(joins_before(e, x as int, y as int), n, l@),
            decreases pts@.len() - y,
        {
            if linked_exec(pts, segs, t, tol, x, y) {
                proof {
                    lemma_merge(joins_before(e, x as int, y as int), n, l@, x as int, y as int);
                    assert(joins_before(e, x as int, y + 1) =~= add_edge(
                        joins_before(e, x as int, y as int),
                        x as int,
                        y as int,
                    ));
                }
                let from = l[y];
                let to = l[x];
                relabel_exec(&mut l, from, to);
            } else {
                assert(joins_before(e, x as int, y + 1) =~= joins_before(e, x as int, y as int));
            }
            y = y + 1;
        }
        assert(joins_before(e, x + 1, 0) =~= joins_before(e, x as int, y as int));
        x = x + 1;
    }
    assert(joins_before(e, x as int, 0) =~= e);
    l
}

/// A copy of a connection point.
fn dup_point(p: &ConnectionPoint) -> (r: ConnectionPoint)
    ensures
        r@ == p@,
{
    let kind = match &p.kind {
        ConnectionKind::Pin { component, pin } => ConnectionKind::Pin { component: dup_text(component), pin: dup_text(pin) },
        ConnectionKind::WireEnd { wire_index } => ConnectionKind::WireEnd { wire_index: *wire_index },
        ConnectionKind::Junction { index } => ConnectionKind::Junction { index: *index },
        ConnectionKind::NetLabel { name } => ConnectionKind::NetLabel { name: dup_text(name) },
        ConnectionKind::PowerPort { name } => ConnectionKind::PowerPort { name: dup_text(name) },
        ConnectionKind::Port { name } => ConnectionKind::Port { name: dup_text(name) },
    };
    ConnectionPoint { location: p.location, kind }
}

/// The name rule `tag` gives a point, when it names the net.
fn kind_name_exec(k: &ConnectionKind, tag: u8) -> (r: Option<String>)
    ensures
        match r {
            Some(s) => kind_name(kind_view(*k), tag as int) == Some(s@),
            None => kind_name(kind_view(*k), tag as int) is None,
        },
{
    match k {
        ConnectionKind::NetLabel { name } => if tag == 0 && !name.as_str().is_empty() {
            Some(dup_text(name))
        } else {
            None
        },
        ConnectionKind::PowerPort { name } => if tag == 1 && !name.as_str().is_empty() {
            Some(dup_text(name))
        } else {
            None
        },
        ConnectionKind::Port { name } => if tag == 2 && !name.as_str().is_empty() {
            Some(dup_text(name))
        } else {
            None
        },
        _ => None,
    }
}

/// The first name rule `tag` finds among the points.
fn first_named_exec(cs: &Vec<ConnectionPoint>, tag: u8) -> (r: Option<String>)
    ensures
        match r {
            Some(s) => first_named(points_view(cs@), tag as int) == Some(s@),
            None => first_named(points_view(cs@), tag as int) is None,
        },
{
    let mut i: usize = 0;
    while i < cs.len()
        invariant
            i <= cs@.len(),
            first_named(points_view(cs@).take(i as int), tag as int) is None,
        decreases cs@.len() - i,
    {
        assert(points_view(cs@).take(i + 1).drop_last() =~= points_view(cs@).take(i as int));
        match kind_name_exec(&cs[i].kind, tag) {
            Some(nm) => {
                proof {
                    lemma_first_named_prefix(points_view(cs@), i + 1, tag as int);
                }
                return Some(nm);
            },
            None => {},
        }
        i = i + 1;
    }
    assert(points_view(cs@).take(i as int) =~= points_view(cs@));
    None
}

/// A name found in a prefix is the first name.
proof fn lemma_first_named_prefix(cs: Seq<PointView>, m: int, tag: int)
    requires
        0 <= m <= cs.len(),
        first_named(cs.take(m), tag) is Some,
    ensures
        first_named(cs, tag) == first_named(cs.take(m), tag),
    decreases cs.len(),
{
    if cs.len() > m {
        assert(cs.drop_last().take(m) =~= cs.take(m));
        lemma_first_named_prefix(cs.drop_last(), m, tag);
    } else {
        assert(cs.take(m) =~= cs);
    }
}

/// A net's name from its points.
fn explicit_name_exec(cs: &Vec<ConnectionPoint>) -> (r: Option<String>)
    ensures
        match r {
            Some(s) => explicit_name(points_view(cs@)) == Some(s@),
            None => explicit_name(points_view(cs@)) is None,
        },
{
    match first_named_exec(cs, 0) {
        Some(n) => Some(n),
        None => match first_named_exec(cs, 1) {
            Some(n) => Some(n),
            None => first_named_exec(cs, 2),
        },
    }
}

/// Where a net goes among name-sorted nets: after every net whose name
/// sorts at or before its own.
pub open spec fn insert_pos(s: Seq<NetView>, v: NetView) -> int
    decreases s.len(),
{
    if s.len() == 0 {
        0
    } else if bytes_le(name_key(s[0]), name_key(v)) {
        1 + insert_pos(s.drop_first(), v)
    } else {
        0
    }
}

/// The nets sorted by name, nets of equal names in their given order.
pub open spec fn sort_names(s: Seq<NetView>) -> Seq<NetView>
    decreases s.len(),
{
    if s.len() == 0 {
        Seq::empty()
    } else {
        let r = sort_names(s.drop_last());
        r.insert(insert_pos(r, s.last()), s.last())
    }
}

/// The insertion position is after the scanned prefix.
proof fn lemma_insert_pos_scan(s: Seq<NetView>, v: NetView, pos: int)
    requires
        0 <= pos <= s.len(),
        forall|q: int| 0 <= q < pos ==> bytes_le(name_key(#[trigger] s[q]), name_key(v)),
        pos < s.len() ==> !bytes_le(name_key(s[pos]), name_key(v)),
    ensures
        insert_pos(s, v) == pos,
    decreases s.len(),
{
    if s.len() > 0 && pos > 0 {
        assert forall|q: int| 0 <= q < pos - 1 implies bytes_le(name_key(#[trigger] s.drop_first()[q]), name_key(v)) by {
            assert(s.drop_first()[q] == s[q + 1]);
        }
        if pos < s.len() {
            assert(s.drop_first()[pos - 1] == s[pos]);
        }
        lemma_insert_pos_scan(s.drop_first(), v, pos - 1);
    }
}

/// Inserting a net after every net whose name sorts at or before its own
/// keeps the nets in name order.
proof fn lemma_insert_sorted(s: Seq<NetView>, pos: int, v: NetView)
    requires
        names_sorted(s),
        0 <= pos <= s.len(),
        forall|k: int| 0 <= k < pos ==> bytes_le(name_key(#[trigger] s[k]), name_key(v)),
        pos < s.len() ==> !bytes_le(name_key(s[pos]), name_key(v)),
    ensures
        names_sorted(s.insert(pos, v)),
{
    let r = s.insert(pos, v);
    if pos < s.len() {
        lemma_bytes_le_total(name_key(s[pos]), name_key(v));
    }
    assert forall|a: int, b: int| 0 <= a < b < r.len() implies bytes_le(name_key(#[trigger] r[a]), name_key(#[trigger] r[b])) by {
        if b < pos {
            assert(r[a] == s[a] && r[b] == s[b]);
        } else if a > pos {
            assert(r[a] == s[a - 1] && r[b] == s[b - 1]);
        } else if a == pos {
            assert(r[a] == v && r[b] == s[b - 1]);
            if b - 1 > pos {
                assert(bytes_le(name_key(s[pos]), name_key(s[b - 1])));
                lemma_bytes_le_transitive(name_key(v), name_key(s[pos]), name_key(s[b - 1]));
            }
        } else {
            assert(r[a] == s[a]);
            if b == pos {
                assert(r[b] == v);
            } else {
                assert(r[b] == s[b - 1]);
            }
        }
    }
}

proof fn lemma_unnamed_push(s: Seq<NetView>, v: NetView)
    ensures
        unnamed_in(s.push(v)) == unnamed_in(s) + if v.named {
            0nat
        } else {
            1nat
        },
{
    assert(s.push(v).drop_last() =~= s);
}

proof fn lemma_unnamed_bound(s: Seq<NetView>)
    ensures
        unnamed_in(s) <= s.len(),
    decreases s.len(),
{
    if s.len() > 0 {
        lemma_unnamed_bound(s.drop_last());
    }
}

/// The nets of the labelled points, sorted by name.
fn group_nets(pts: &Vec<ConnectionPoint>, l: &Vec<usize>, Ghost(e): Ghost<spec_fn(int, int) -> bool>) -> (r: Vec<Net>)
    requires
        labels_exact(e, pts@.len() as int, l@),
    ensures
        nets_view(r@) == sort_names(nets_upto(points_view(pts@), e, pts@.len())),
        nets_view(r@).to_multiset() == nets_upto(points_view(pts@), e, pts@.len()).to_multiset(),
        names_sorted(nets_view(r@)),
{
    broadcast use vstd::seq_lib::group_to_multiset_ensures;

    let ghost pv = points_view(pts@);
    let ghost n = pts@.len() as int;
    let mut sorted: Vec<Net> = Vec::new();
    let ghost mut unsorted: Seq<NetView> = Seq::empty();
    let mut unnamed: usize = 0;
    let mut i: usize = 0;
    while i < pts.len()
        invariant
            i <= pts@.len(),
            n == pts@.len(),
            pv == points_view(pts@),
            labels_exact(e, n, l@),
            unsorted == nets_upto(pv, e, i as nat),
            nets_view(sorted@).to_multiset() == unsorted.to_multiset(),
            nets_view(sorted@) == sort_names(unsorted),
            names_sorted(nets_view(sorted@)),
            unnamed == unnamed_in(unsorted),
            unnamed_in(unsorted) <= unsorted.len() <= i,
        decreases pts@.len() - i,
    {
        // leader test
        let mut j: usize = 0;
        let mut leader = true;
        while j < i
            invariant
                j <= i < l@.len(),
                l@.len() == n,
                leader == forall|k: int| 0 <= k < j ==> l@[k] != l@[i as int],
            decreases i - j,
        {
            if l[j] == l[i] {
                leader = false;
            }
            j = j + 1;
        }
        proof {
            assert(is_leader(e, n, i as int) == leader) by {
                if leader {
                    assert forall|k: int| 0 <= k < i implies !#[trigger] connected(e, n, k, i as int) by {
                        assert(l@[k] != l@[i as int]);
                    }
                } else {
                    let k = choose|k: int| 0 <= k < i && l@[k] == l@[i as int];
                    assert(connected(e, n, k, i as int));
                }
            }
        }
        if leader {
            let mut conns: Vec<ConnectionPoint> = Vec::new();
            let mut k: usize = 0;
            while k < pts.len()
                invariant
                    k <= pts@.len(),
                    i < pts@.len(),
                    n == pts@.len(),
                    pv == points_view(pts@),
                    labels_exact(e, n, l@),
                    points_view(conns@) == members(e, n, i as int, k as nat).map_values(|j: int| pv[j]),
                decreases pts@.len() - k,
            {
                let ghost before = conns@;
                if l[k] == l[i] {
                    let c = dup_point(&pts[k]);
                    conns.push(c);
                    assert(pv[k as int] == pts@[k as int]@);
                    assert(points_view(conns@) =~= points_view(before).push(pv[k as int]));
                }
                assert(connected(e, n, i as int, k as int) == (l@[k as int] == l@[i as int]));
                assert(members(e, n, i as int, (k + 1) as nat).map_values(|j: int| pv[j]) =~= points_view(conns@));
                k = k + 1;
            }
            let net = match explicit_name_exec(&conns) {
                Some(nm) => Net { name: nm, named: true, connections: conns },
                None => {
                    let num = usize_text(unnamed + 1);
                    let nm = text2("Net", num.as_str());
                    unnamed = unnamed + 1;
                    Net { name: nm, named: false, connections: conns }
                },
            };
            proof {
                lemma_unnamed_push(unsorted, net@);
                lemma_unnamed_bound(unsorted);
                assert(net@ == make_net(pv, e, i as int, unnamed_in(unsorted) + 1));
            }
            // insert after every net whose name sorts at or before it
            let mut pos: usize = 0;
            while pos < sorted.len() && bytes_le_exec(sorted[pos].name.as_str().as_bytes(), net.name.as_str().as_bytes())
                invariant
                    pos <= sorted@.len(),
                    forall|q: int| 0 <= q < pos ==> bytes_le(name_key(#[trigger] nets_view(sorted@)[q]), name_key(net@)),
                decreases sorted@.len() - pos,
            {
                assert(nets_view(sorted@)[pos as int] == sorted@[pos as int]@);
                pos = pos + 1;
            }
            proof {
                if pos < sorted@.len() {
                    assert(nets_view(sorted@)[pos as int] == sorted@[pos as int]@);
                }
                lemma_insert_sorted(nets_view(sorted@), pos as int, net@);
                lemma_insert_pos_scan(nets_view(sorted@), net@, pos as int);
            }
            let ghost before = sorted@;
            let ghost nv = net@;
            sorted.insert(pos, net);
            proof {
                assert(nets_view(sorted@) =~= nets_view(before).insert(pos as int, nv));
                vstd::seq_lib::to_multiset_insert(nets_view(before), pos as int, nv);
                vstd::seq_lib::to_multiset_build(unsorted, nv);
                assert(unsorted.push(nv).drop_last() =~= unsorted);
                unsorted = unsorted.push(nv);
            }
        }
        i = i + 1;
    }
    sorted
}

// ---------------------------------------------------------------------------
// Building and querying netlists
// ---------------------------------------------------------------------------

/// The `(component, pin)` designators of the pin points, in order.
pub open spec fn pin_pairs(cs: Seq<PointView>) -> Seq<(Seq<char>, Seq<char>)>
    decreases cs.len(),
{
    if cs.len() == 0 {
        Seq::empty()
    } else {
        pin_pairs(cs.drop_last()) + match cs.last().kind {
            KindView::Pin(c, p) => seq![(c, p)],
            _ => Seq::empty(),
        }
    }
}

/// Whether a kind is a pin of the component.
pub open spec fn is_pin_of(k: KindView, component: Seq<char>) -> bool {
    match k {
        KindView::Pin(c, _) => c == component,
        _ => false,
    }
}

/// Whether a pin point of the component is among the points.
pub open spec fn touches(cs: Seq<PointView>, component: Seq<char>) -> bool {
    exists|k: int| 0 <= k < cs.len() && is_pin_of((#[trigger] cs[k]).kind, component)
}

/// Index of the first net with the name, or the number of nets.
pub open spec fn first_net_named(s: Seq<NetView>, name: Seq<char>) -> int
    decreases s.len(),
{
    if s.len() == 0 {
        0
    } else {
        let i = first_net_named(s.drop_last(), name);
        if i < s.len() - 1 {
            i
        } else if s.last().name == name {
            s.len() - 1
        } else {
            s.len() as int
        }
    }
}

/// The nets with a pin of the component, in order.
pub open spec fn nets_touching(s: Seq<NetView>, component: Seq<char>) -> Seq<NetView>
    decreases s.len(),
{
    if s.len() == 0 {
        Seq::empty()
    } else {
        nets_touching(s.drop_last(), component) + if touches(s.last().connections, component) {
            seq![s.last()]
        } else {
            Seq::empty()
        }
    }
}

/// Whether a point of the net lies exactly at `loc`.
pub open spec fn has_point_at(cs: Seq<PointView>, loc: (int, int)) -> bool {
    exists|k: int| 0 <= k < cs.len() && (#[trigger] cs[k]).loc == loc
}

/// Index of the last net with a point at `loc`, or -1.
pub open spec fn last_net_at(s: Seq<NetView>, loc: (int, int)) -> int
    decreases s.len(),
{
    if s.len() == 0 {
        -1
    } else if has_point_at(s.last().connections, loc) {
        s.len() - 1
    } else {
        last_net_at(s.drop_last(), loc)
    }
}

impl Net {
    /// The `(component, pin)` designators of the net's pins.
    pub fn pins(&self) -> (r: Vec<(&str, &str)>)
        ensures
            r@.map_values(|p: (&str, &str)| (p.0@, p.1@)) == pin_pairs(self@.connections),
    {
        let mut out: Vec<(&str, &str)> = Vec::new();
        let mut i: usize = 0;
        while i < self.connections.len()
            invariant
                i <= self.connections@.len(),
                out@.map_values(|p: (&str, &str)| (p.0@, p.1@)) == pin_pairs(self@.connections.take(i as int)),
            decreases self.connections@.len() - i,
        {
            assert(self@.connections.take(i + 1).drop_last() =~= self@.connections.take(i as int));
            let ghost before = out@;
            match &self.connections[i].kind {
                ConnectionKind::Pin { component, pin } => {
                    out.push((component.as_str(), pin.as_str()));
                    assert(out@.map_values(|p: (&str, &str)| (p.0@, p.1@)) =~= before.map_values(
                        |p: (&str, &str)| (p.0@, p.1@),
                    ).push((component@, pin@)));
                },
                _ => {
                    assert(pin_pairs(self@.connections.take(i + 1)) =~= pin_pairs(self@.connections.take(i as int)));
                },
            }
            i = i + 1;
        }
        assert(self@.connections.take(i as int) =~= self@.connections);
        out
    }

    /// Whether the net holds a pin of the component.
    pub fn connects_to(&self, component: &str) -> (r: bool)
        ensures
            r == touches(self@.connections, component@),
    {
        let mut i: usize = 0;
        while i < self.connections.len()
            invariant
                i <= self.connections@.len(),
                forall|k: int| 0 <= k < i ==> !is_pin_of((#[trigger] self@.connections[k]).kind, component@),
            decreases self.connections@.len() - i,
        {
            assert(self@.connections[i as int] == self.connections@[i as int]@);
            match &self.connections[i].kind {
                ConnectionKind::Pin { component: c, pin: _ } => {
                    if same_text(c.as_str(), component) {
                        return true;
                    }
                },
                _ => {},
            }
            i = i + 1;
        }
        false
    }
}

impl Netlist {
    /// The first net with the name.
    pub fn get_by_name(&self, name: &str) -> (r: Option<&Net>)
        ensures
            ({
                let i = first_net_named(nets_view(self.nets@), name@);
                if i < self.nets@.len() {
                    r matches Some(n) && n@ == self.nets@[i]@
                } else {
                    r is None
                }
            }),
    {
        let mut i: usize = 0;
        while i < self.nets.len()
            invariant
                i <= self.nets@.len(),
                first_net_named(nets_view(self.nets@).take(i as int), name@) == i,
            decreases self.nets@.len() - i,
        {
            assert(nets_view(self.nets@).take(i + 1).drop_last() =~= nets_view(self.nets@).take(i as int));
            if same_text(self.nets[i].name.as_str(), name) {
                proof {
                    lemma_first_net_named_prefix(nets_view(self.nets@), name@, i as int);
                }
                return Some(&self.nets[i]);
            }
            i = i + 1;
        }
        assert(nets_view(self.nets@).take(i as int) =~= nets_view(self.nets@));
        None
    }

    /// The nets with a pin of the component, in order.
    pub fn nets_for_component(&self, designator: &str) -> (r: Vec<&Net>)
        ensures
            r@.map_values(|n: &Net| n@) == nets_touching(nets_view(self.nets@), designator@),
    {
        let mut out: Vec<&Net> = Vec::new();
        let mut i: usize = 0;
        while i < self.nets.len()
            invariant
                i <= self.nets@.len(),
                out@.map_values(|n: &Net| n@) == nets_touching(nets_view(self.nets@).take(i as int), designator@),
            decreases self.nets@.len() - i,
        {
            assert(nets_view(self.nets@).take(i + 1).drop_last() =~= nets_view(self.nets@).take(i as int));
            let ghost before = out@;
            if self.nets[i].connects_to(designator) {
                out.push(&self.nets[i]);
                assert(out@.map_values(|n: &Net| n@) =~= before.map_values(|n: &Net| n@).push(self.nets@[i as int]@));
            }
            i = i + 1;
        }
        assert(nets_view(self.nets@).take(i as int) =~= nets_view(self.nets@));
        out
    }

    /// The last net with a point exactly at `(x, y)`.
    pub fn net_at(&self, x: i32, y: i32) -> (r: Option<&Net>)
        ensures
            ({
                let i = last_net_at(nets_view(self.nets@), (x as int, y as int));
                if i >= 0 {
                    r matches Some(n) && n@ == self.nets@[i]@
                } else {
                    r is None
                }
            }),
    {
        let mut i: usize = self.nets.len();
        assert(nets_view(self.nets@).take(i as int) =~= nets_view(self.nets@));
        while i > 0
            invariant
                i <= self.nets@.len(),
                last_net_at(nets_view(self.nets@), (x as int, y as int)) == last_net_at(
                    nets_view(self.nets@).take(i as int),
                    (x as int, y as int),
                ),
            decreases i,
        {
            let ghost pre = nets_view(self.nets@).take(i as int);
            assert(pre.drop_last() =~= nets_view(self.nets@).take(i - 1));
            let net = &self.nets[i - 1];
            let mut k: usize = 0;
            let mut found = false;
            while k < net.connections.len()
                invariant
                    k <= net.connections@.len(),
                    found == exists|q: int| 0 <= q < k && (#[trigger] net@.connections[q]).loc == (x as int, y as int),
                decreases net.connections@.len() - k,
            {
                assert(net@.connections[k as int] == net.connections@[k as int]@);
                if net.connections[k].location.0 == x && net.connections[k].location.1 == y {
                    found = true;
                }
                k = k + 1;
            }
            assert(pre.last() == net@);
            if found {
                return Some(net);
            }
            i = i - 1;
        }
        None
    }
}

/// A name found in a prefix is the first name.
proof fn lemma_first_net_named_prefix(s: Seq<NetView>, name: Seq<char>, i: int)
    requires
        0 <= i < s.len(),
        first_net_named(s.take(i), name) == i,
        s[i].name == name,
    ensures
        first_net_named(s, name) == i,
    decreases s.len(),
{
    if s.len() > i + 1 {
        assert(s.drop_last().take(i) =~= s.take(i));
        lemma_first_net_named_prefix(s.drop_last(), name, i);
    } else {
        assert(s.drop_last() =~= s.take(i));
    }
}

/// The pin points of a net.
pub open spec fn pin_points(cs: Seq<PointView>) -> Seq<PointView>
    decreases cs.len(),
{
    if cs.len() == 0 {
        Seq::empty()
    } else {
        pin_points(cs.drop_last()) + if cs.last().kind is Pin {
            seq![cs.last()]
        } else {
            Seq::empty()
        }
    }
}

proof fn lemma_pin_points_len(cs: Seq<PointView>)
    ensures
        pin_points(cs).len() <= cs.len(),
    decreases cs.len(),
{
    if cs.len() > 0 {
        lemma_pin_points_len(cs.drop_last());
    }
}

/// Whether a wire end is among the points.
pub open spec fn has_wire_end(cs: Seq<PointView>) -> bool {
    exists|k: int| 0 <= k < cs.len() && (#[trigger] cs[k]).kind is WireEnd
}

/// The component, pin and location of a net's only pin, when the net has
/// exactly one pin and no wire end.
pub open spec fn lone_pin(v: NetView) -> Seq<(Seq<char>, Seq<char>, (int, int))> {
    let ps = pin_points(v.connections);
    if ps.len() == 1 && !has_wire_end(v.connections) {
        match ps[0].kind {
            KindView::Pin(c, p) => seq![(c, p, ps[0].loc)],
            _ => Seq::empty(),
        }
    } else {
        Seq::empty()
    }
}

/// The lone pins of the nets, in net order.
pub open spec fn unconnected_of(s: Seq<NetView>) -> Seq<(Seq<char>, Seq<char>, (int, int))>
    decreases s.len(),
{
    if s.len() == 0 {
        Seq::empty()
    } else {
        unconnected_of(s.drop_last()) + lone_pin(s.last())
    }
}

/// The value of an unconnected-pin report.
pub open spec fn report_view(t: (String, String, (i32, i32))) -> (Seq<char>, Seq<char>, (int, int)) {
    (t.0@, t.1@, (t.2.0 as int, t.2.1 as int))
}

impl NetlistBuilder {
    /// The matching tolerance in internal units.
    pub closed spec fn spec_tolerance(&self) -> int {
        self.tolerance as int
    }

    /// A builder with a tolerance of 1 mil.
    pub fn new() -> (r: Self)
        ensures
            r.spec_tolerance() == 10000,
    {
        NetlistBuilder { tolerance: crate::types::Coord::from_mils(1).to_raw() }
    }

    /// The builder with a tolerance in internal units.
    pub fn with_tolerance_raw(self, raw: i32) -> (r: Self)
        ensures
            r.spec_tolerance() == raw,
    {
        NetlistBuilder { tolerance: raw }
    }

    /// The nets of the primitives, sorted by name (nets of equal names in
    /// the order of their first point).
    pub fn build(&self, primitives: &[SchRecord]) -> (r: Netlist)
        requires
            endpoints_fit(primitives@),
        ensures
            nets_view(r.nets@) == sort_names(schematic_nets(primitives@, self.spec_tolerance())),
            nets_view(r.nets@).to_multiset() == schematic_nets(primitives@, self.spec_tolerance()).to_multiset(),
            names_sorted(nets_view(r.nets@)),
    {
        let pts = collect_points(primitives);
        let segs = collect_segments(primitives);
        let t = if self.tolerance < 1 {
            1
        } else {
            self.tolerance
        };
        let l = component_labels(&pts, &segs, t, self.tolerance);
        proof {
            let e = joins(primitives@, self.tolerance as int);
            assert(e =~= |x: int, y: int| linked(points_view(pts@), segs_view(segs@), t as int, self.tolerance as int, x, y));
        }
        let nets = group_nets(&pts, &l, Ghost(joins(primitives@, self.tolerance as int)));
        Netlist { nets }
    }

    /// The pins alone in their nets: nets with exactly one pin and no wire
    /// end, in net order.
    pub fn find_unconnected_pins(&self, primitives: &[SchRecord]) -> (r: Vec<(String, String, (i32, i32))>)
        requires
            endpoints_fit(primitives@),
        ensures
            r@.map_values(|t: (String, String, (i32, i32))| report_view(t)) == unconnected_of(
                sort_names(schematic_nets(primitives@, self.spec_tolerance())),
            ),
    {
        let netlist = self.build(primitives);
        let nets = &netlist.nets;
        let mut out: Vec<(String, String, (i32, i32))> = Vec::new();
        let mut i: usize = 0;
        while i < nets.len()
            invariant
                i <= nets@.len(),
                out@.map_values(|t: (String, String, (i32, i32))| report_view(t)) == unconnected_of(
                    nets_view(nets@).take(i as int),
                ),
            decreases nets@.len() - i,
        {
            assert(nets_view(nets@).take(i + 1).drop_last() =~= nets_view(nets@).take(i as int));
            let net = &nets[i];
            let ghost cs = net@.connections;
            let mut pins = 0usize;
            let mut first: usize = 0;
            let mut wires = false;
            let mut k: usize = 0;
            while k < net.connections.len()
                invariant
                    k <= net.connections@.len(),
                    cs == net@.connections,
                    pins == pin_points(cs.take(k as int)).len(),
                    pins > 0 ==> first < k && cs[first as int].kind is Pin && pin_points(cs.take(k as int))[0]
                        == cs[first as int],
                    wires == exists|q: int| 0 <= q < k && (#[trigger] cs[q]).kind is WireEnd,
                decreases net.connections@.len() - k,
            {
                assert(cs.take(k + 1).drop_last() =~= cs.take(k as int));
                assert(cs[k as int] == net.connections@[k as int]@);
                proof {
                    lemma_pin_points_len(cs.take(k as int));
                }
                match &net.connections[k].kind {
                    ConnectionKind::Pin { .. } => {
                        if pins == 0 {
                            first = k;
                        }
                        pins = pins + 1;
                    },
                    ConnectionKind::WireEnd { .. } => {
                        wires = true;
                    },
                    _ => {},
                }
                k = k + 1;
            }
            assert(cs.take(k as int) =~= cs);
            let ghost before = out@;
            if pins == 1 && !wires {
                assert(cs[first as int] == net.connections@[first as int]@);
                match &net.connections[first].kind {
                    ConnectionKind::Pin { component, pin } => {
                        out.push((dup_text(component), dup_text(pin), net.connections[first].location));
                        assert(out@.map_values(|t: (String, String, (i32, i32))| report_view(t)) =~= before.map_values(
                            |t: (String, String, (i32, i32))| report_view(t),
                        ) + lone_pin(nets_view(nets@)[i as int]));
                    },
                    _ => {},
                }
            } else {
                assert(lone_pin(nets_view(nets@)[i as int]) =~= Seq::empty());
                assert(out@.map_values(|t: (String, String, (i32, i32))| report_view(t)) =~= before.map_values(
                    |t: (String, String, (i32, i32))| report_view(t),
                ) + lone_pin(nets_view(nets@)[i as int]));
            }
            i = i + 1;
        }
        assert(nets_view(nets@).take(i as int) =~= nets_view(nets@));
        out
    }
}

impl Default for NetlistBuilder {
    fn default() -> (r: Self)
        ensures
            r.spec_tolerance() == 10000,
    {
        NetlistBuilder::new()
    }
}

// ---------------------------------------------------------------------------
// Missing junctions
// ---------------------------------------------------------------------------

/// The segment ends, start then end of each segment.
pub open spec fn seg_ends(segs: Seq<((int, int), (int, int))>) -> Seq<(int, int)>
    decreases segs.len(),
{
    if segs.len() == 0 {
        Seq::empty()
    } else {
        seg_ends(segs.drop_last()) + seq![segs.last().0, segs.last().1]
    }
}

/// How often `x` occurs.
pub open spec fn count_eq(s: Seq<(int, int)>, x: (int, int)) -> nat
    decreases s.len(),
{
    if s.len() == 0 {
        0
    } else {
        count_eq(s.drop_last(), x) + if s.last() == x {
            1nat
        } else {
            0nat
        }
    }
}

/// Whether `loc` lies on the segment without being one of its ends.
pub open spec fn strictly_on(loc: (int, int), s: ((int, int), (int, int)), tol: int) -> bool {
    on_segment(loc, s, tol) && loc != s.0 && loc != s.1
}

/// How many segments `loc` lies on without being an end of.
pub open spec fn tee_count(segs: Seq<((int, int), (int, int))>, loc: (int, int), tol: int) -> nat
    decreases segs.len(),
{
    if segs.len() == 0 {
        0
    } else {
        tee_count(segs.drop_last(), loc, tol) + if strictly_on(loc, segs.last(), tol) {
            1nat
        } else {
            0nat
        }
    }
}

/// The wire connections counted at a segment end: each time it ends a
/// segment, one, plus one for each segment it lies inside.
pub open spec fn wire_count(segs: Seq<((int, int), (int, int))>, loc: (int, int), tol: int) -> nat {
    count_eq(seg_ends(segs), loc) * (1 + tee_count(segs, loc, tol))
}

/// The values in order of first occurrence.
pub open spec fn firsts(s: Seq<(int, int)>) -> Seq<(int, int)>
    decreases s.len(),
{
    if s.len() == 0 {
        Seq::empty()
    } else if s.drop_last().contains(s.last()) {
        firsts(s.drop_last())
    } else {
        firsts(s.drop_last()).push(s.last())
    }
}

/// Whether a junction record lies at `loc`.
pub open spec fn junction_at(prims: Seq<SchRecord>, loc: (int, int)) -> bool {
    exists|i: int|
        0 <= i < prims.len() && (#[trigger] prims[i] matches SchRecord::Junction(j) && (j.location_x as int,
        j.location_y as int) == loc)
}

/// The locations among `ls` with three or more wire connections and no
/// junction.
pub open spec fn needing_junction(ls: Seq<(int, int)>, prims: Seq<SchRecord>, tol: int) -> Seq<(int, int)>
    decreases ls.len(),
{
    if ls.len() == 0 {
        Seq::empty()
    } else {
        let loc = ls.last();
        needing_junction(ls.drop_last(), prims, tol) + if wire_count(all_segments(prims), loc, tol) >= 3
            && !junction_at(prims, loc) {
            seq![loc]
        } else {
            Seq::empty()
        }
    }
}

/// Segment ends where three or more wire connections meet without a
/// junction, in order of first occurrence.
pub open spec fn missing_junctions(prims: Seq<SchRecord>, tol: int) -> Seq<(int, int)> {
    needing_junction(firsts(seg_ends(all_segments(prims))), prims, tol)
}

/// The segment ends, start then end of each segment.
fn seg_ends_exec(segs: &Vec<((i32, i32), (i32, i32))>) -> (r: Vec<(i32, i32)>)
    ensures
        r@.map_values(|p: (i32, i32)| (p.0 as int, p.1 as int)) == seg_ends(segs_view(segs@)),
{
    let mut out: Vec<(i32, i32)> = Vec::new();
    let mut i: usize = 0;
    while i < segs.len()
        invariant
            i <= segs@.len(),
            out@.map_values(|p: (i32, i32)| (p.0 as int, p.1 as int)) == seg_ends(segs_view(segs@).take(i as int)),
        decreases segs@.len() - i,
    {
        assert(segs_view(segs@).take(i + 1).drop_last() =~= segs_view(segs@).take(i as int));
        let ghost before = out@;
        out.push(segs[i].0);
        out.push(segs[i].1);
        assert(out@.map_values(|p: (i32, i32)| (p.0 as int, p.1 as int)) =~= before.map_values(
            |p: (i32, i32)| (p.0 as int, p.1 as int),
        ) + seq![seg_view(segs@[i as int]).0, seg_view(segs@[i as int]).1]);
        i = i + 1;
    }
    assert(segs_view(segs@).take(i as int) =~= segs_view(segs@));
    out
}

/// The value of a location.
pub open spec fn loc_view(p: (i32, i32)) -> (int, int) {
    (p.0 as int, p.1 as int)
}

impl NetlistBuilder {
    /// Segment ends where three or more wire connections meet and no
    /// junction stands, in order of first occurrence.
    pub fn find_missing_junctions(&self, primitives: &[SchRecord]) -> (r: Vec<(i32, i32)>)
        ensures
            r@.map_values(|p: (i32, i32)| loc_view(p)) == missing_junctions(primitives@, self.spec_tolerance()),
    {
        let segs = collect_segments(primitives);
        let ends = seg_ends_exec(&segs);
        let ghost ev = ends@.map_values(|p: (i32, i32)| loc_view(p));
        let ghost sv = all_segments(primitives@);
        let ghost tol = self.tolerance as int;
        let mut out: Vec<(i32, i32)> = Vec::new();
        let mut i: usize = 0;
        while i < ends.len()
            invariant
                i <= ends@.len(),
                ev == ends@.map_values(|p: (i32, i32)| loc_view(p)),
                ev == seg_ends(sv),
                sv == all_segments(primitives@),
                sv == segs_view(segs@),
                tol == self.tolerance as int,
                out@.map_values(|p: (i32, i32)| loc_view(p)) == needing_junction(firsts(ev.take(i as int)), primitives@, tol),
            decreases ends@.len() - i,
        {
            let loc = ends[i];
            let ghost l = loc_view(loc);
            assert(ev.take(i + 1).drop_last() =~= ev.take(i as int));
            assert(ev.take(i + 1).last() == l);
            // seen before?
            let mut q: usize = 0;
            let mut seen = false;
            while q < i
                invariant
                    q <= i < ends@.len(),
                    ev == ends@.map_values(|p: (i32, i32)| loc_view(p)),
                    l == loc_view(loc),
                    seen == exists|k: int| 0 <= k < q && ev[k] == l,
                decreases i - q,
            {
                assert(ev[q as int] == loc_view(ends@[q as int]));
                if ends[q].0 == loc.0 && ends[q].1 == loc.1 {
                    seen = true;
                }
                q = q + 1;
            }
            proof {
                if seen {
                    let k = choose|k: int| 0 <= k < i && ev[k] == l;
                    assert(ev.take(i as int)[k] == l);
                } else {
                    assert forall|k: int| 0 <= k < i implies ev.take(i as int)[k] != l by {}
                }
                assert(seen == ev.take(i as int).contains(l));
            }
            if !seen {
                // count the ends at loc
                let mut ecount: usize = 0;
                let mut k: usize = 0;
                while k < ends.len()
                    invariant
                        k <= ends@.len(),
                        ev == ends@.map_values(|p: (i32, i32)| loc_view(p)),
                        l == loc_view(loc),
                        ecount == count_eq(ev.take(k as int), l),
                        ecount <= k,
                    decreases ends@.len() - k,
                {
                    assert(ev.take(k + 1).drop_last() =~= ev.take(k as int));
                    if ends[k].0 == loc.0 && ends[k].1 == loc.1 {
                        ecount = ecount + 1;
                    }
                    k = k + 1;
                }
                assert(ev.take(k as int) =~= ev);
                // count the segments loc lies strictly inside
                let mut tcount: usize = 0;
                let mut m: usize = 0;
                while m < segs.len()
                    invariant
                        m <= segs@.len(),
                        sv == segs_view(segs@),
                        l == loc_view(loc),
                        tcount == tee_count(sv.take(m as int), l, tol),
                        tcount <= m,
                        tol == self.tolerance as int,
                    decreases segs@.len() - m,
                {
                    assert(sv.take(m + 1).drop_last() =~= sv.take(m as int));
                    let s = segs[m];
                    assert(sv.take(m + 1).last() == seg_view(s));
                    let on = on_segment_exec(loc.0 as i64, loc.1 as i64, s, self.tolerance);
                    let is_end = (loc.0 == s.0.0 && loc.1 == s.0.1) || (loc.0 == s.1.0 && loc.1 == s.1.1);
                    if on && !is_end {
                        tcount = tcount + 1;
                    }
                    m = m + 1;
                }
                assert(sv.take(m as int) =~= sv);
                let e = ecount as u128;
                let t = tcount as u128 + 1;
                assert(e * t < 0x1_0000_0000_0000_0000_0000_0000_0000_0000) by (nonlinear_arith)
                    requires
                        e < 0x1_0000_0000_0000_0000,
                        t <= 0x1_0000_0000_0000_0000,
                ;
                let many = e * t >= 3;
                // a junction at loc?
                let mut j: usize = 0;
                let mut has_junction = false;
                while j < primitives.len()
                    invariant
                        j <= primitives@.len(),
                        l == loc_view(loc),
                        has_junction == exists|w: int|
                            0 <= w < j && (#[trigger] primitives@[w] matches SchRecord::Junction(jn) && (
                            jn.location_x as int,
                            jn.location_y as int,
                        ) == l),
                    decreases primitives@.len() - j,
                {
                    match &primitives[j] {
                        SchRecord::Junction(jn) => {
                            if jn.location_x == loc.0 && jn.location_y == loc.1 {
                                has_junction = true;
                            }
                        },
                        _ => {},
                    }
                    j = j + 1;
                }
                assert(wire_count(sv, l, tol) == ecount * (1 + tcount));
                let ghost before = out@;
                if many && !has_junction {
                    out.push(loc);
                    assert(out@.map_values(|p: (i32, i32)| loc_view(p)) =~= before.map_values(
                        |p: (i32, i32)| loc_view(p),
                    ).push(l));
                }
                assert(firsts(ev.take(i + 1)) == firsts(ev.take(i as int)).push(l));
                assert(firsts(ev.take(i as int)).push(l).drop_last() =~= firsts(ev.take(i as int)));
                assert(has_junction == junction_at(primitives@, l));
            } else {
                assert(firsts(ev.take(i + 1)) == firsts(ev.take(i as int)));
            }
            i = i + 1;
        }
        assert(ev.take(i as int) =~= ev);
        out
    }
}

} // verus!
