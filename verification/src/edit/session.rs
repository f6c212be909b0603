//! Editing sessions on a schematic sheet.
//!
//! A session holds the sheet's records together with the engines that edit
//! it: placement on a grid, wire routing, the component libraries and the
//! netlist. Each edit is recorded in the session's history; a new edit
//! clears what could be redone.
use vstd::prelude::*;

use crate::edit::layout::{
    anchors, anchors_exec, anchors_fit, component_at, component_box, component_indices, designator_text, expand,
    expanded_fit, owned_pins, owner_of, rect_view, squares_fit, LayoutEngine,
};
use crate::edit::library::{can_instantiate, instantiated, LibraryManager};
use crate::edit::geometry::pt;
use crate::edit::layout::{pin_direction, pin_reported, placed_ok};
use crate::edit::netlist::{
    all_segments, endpoints_fit, loc_view, missing_junctions, nets_view, pin_endpoint, report_view, schematic_nets,
    sort_names, unconnected_of, Netlist, NetlistBuilder,
};
use crate::import::parse::same_text;
use crate::edit::routing::{
    is_junction, kept_obstacles, rects_intersect, rects_intersect_exec, route_ok, snapped, strictly_sorted, wire_view,
    RoutingEngine, OBSTACLE_MARGIN,
};
use crate::edit::sch_records::{
    SchArc, SchBus, SchBusEntry, SchDesignator, SchEllipse, SchJunction, SchLabel, SchLine, SchNetLabel, SchParameter,
    SchPin, SchPolyline, SchPort, SchPowerObject, SchRecord, SchWire,
};
use crate::edit::types::Direction;
use crate::edit::types::{
    path_vertices, EditOperation, Grid, Orientation, PlacedComponent, RoutingPath, ValidationError, ValidationErrorKind,
};
use crate::error::{
    decimal_text, i32_text, signed_decimal_text, text, text2, text3, usize_text, AltiumError, Result,
};
use crate::types::{abs_int, fits_i32, max_int, min_int, trunc_div, Coord, CoordPoint, CoordRect};

verus! {

/// The records of the sheet being edited.
pub struct SchSheet {
    pub primitives: Vec<SchRecord>,
}

/// An editing session on a schematic sheet.
pub struct EditSession {
    doc: SchSheet,
    layout: LayoutEngine,
    routing: RoutingEngine,
    library: LibraryManager,
    netlist_builder: NetlistBuilder,
    history: Vec<EditOperation>,
    redo_stack: Vec<EditOperation>,
    source_path: Option<String>,
    modified: bool,
}

/// Whether the sheet's coordinates leave room for the placement and routing
/// arithmetic: every record's anchor points, every component's default
/// square, and every component's bounds shrunk by the obstacle margin fit
/// an `i32`.
pub open spec fn sheet_fits(prims: Seq<SchRecord>) -> bool {
    anchors_fit(prims) && squares_fit(prims) && expanded_fit(prims, -OBSTACLE_MARGIN)
}

/// Whether a routing engine's obstacles and wires are those of the sheet.
pub open spec fn routing_synced(r: RoutingEngine, prims: Seq<SchRecord>) -> bool {
    let cis = component_indices(prims, prims.len());
    &&& r.spec_obstacles().len() == cis.len()
    &&& forall|k: int|
        0 <= k < r.spec_obstacles().len() ==> rect_view(#[trigger] r.spec_obstacles()[k]) == expand(
            component_box(prims, cis[k], component_at(prims, cis[k])),
            -OBSTACLE_MARGIN,
        )
    &&& r.spec_wires().map_values(|w: crate::edit::types::WireSegment| wire_view(w)) == all_segments(prims)
}

/// Whether `new` is `old` brought up to date with the sheet: synced when the
/// sheet fits, else left as it was.
pub open spec fn routing_refreshed(old: RoutingEngine, new: RoutingEngine, prims: Seq<SchRecord>) -> bool {
    &&& new.spec_grid() == old.spec_grid()
    &&& new.spec_max_iterations() == old.spec_max_iterations()
    &&& sheet_fits(prims) ==> routing_synced(new, prims)
    &&& !sheet_fits(prims) ==> new == old
}

/// The vertices snapped to the grid, as coordinate pairs.
pub open spec fn snapped_pairs(g: Grid, vs: Seq<CoordPoint>) -> Seq<(i32, i32)> {
    vs.map_values(|p: CoordPoint| (snapped(g, p).x.raw, snapped(g, p).y.raw))
}

/// Whether every point can be snapped to the grid.
pub open spec fn all_snappable(g: Grid, vs: Seq<CoordPoint>) -> bool {
    forall|i: int|
        0 <= i < vs.len() ==> g.can_snap_raw((#[trigger] vs[i]).x.raw as int) && g.can_snap_raw(vs[i].y.raw as int)
}

/// Whether a point can be snapped to the grid.
pub open spec fn snappable(g: Grid, p: CoordPoint) -> bool {
    g.can_snap_raw(p.x.raw as int) && g.can_snap_raw(p.y.raw as int)
}

/// The index of the first designator owned by record `c` among the first
/// `n` records, or `n` when there is none.
pub open spec fn first_designator(prims: Seq<SchRecord>, c: int, n: nat) -> int
    decreases n,
{
    if n == 0 {
        0
    } else {
        let i = first_designator(prims, c, (n - 1) as nat);
        if i < n - 1 {
            i
        } else if prims[n - 1] matches SchRecord::Designator(d) && d.owner_index == c as i32 {
            n - 1
        } else {
            n as int
        }
    }
}

/// The designator text of component `c`, when it has one.
pub open spec fn designator_of_component(prims: Seq<SchRecord>, c: int) -> Option<Seq<char>> {
    let i = first_designator(prims, c, prims.len());
    if i < prims.len() {
        match prims[i] {
            SchRecord::Designator(d) => Some(d.text@),
            _ => None,
        }
    } else {
        None
    }
}

impl EditSession {
    /// The records of the sheet being edited.
    pub closed spec fn spec_prims(&self) -> Seq<SchRecord> {
        self.doc.primitives@
    }

    /// The placement engine.
    pub closed spec fn spec_layout(&self) -> LayoutEngine {
        self.layout
    }

    /// The routing engine.
    pub closed spec fn spec_routing(&self) -> RoutingEngine {
        self.routing
    }

    /// The library manager.
    pub closed spec fn spec_library(&self) -> LibraryManager {
        self.library
    }

    /// The netlist builder.
    pub closed spec fn spec_netlist_builder(&self) -> NetlistBuilder {
        self.netlist_builder
    }

    /// The edits made, oldest first.
    pub closed spec fn spec_history(&self) -> Seq<EditOperation> {
        self.history@
    }

    /// How many edits could be redone.
    pub closed spec fn spec_redo_len(&self) -> nat {
        self.redo_stack@.len()
    }

    /// The file the sheet came from or was last saved to.
    pub closed spec fn spec_source_path(&self) -> Option<Seq<char>> {
        match self.source_path {
            Some(p) => Some(p@),
            None => None,
        }
    }

    /// Whether the sheet changed since it was opened or saved.
    pub closed spec fn spec_modified(&self) -> bool {
        self.modified
    }

    /// The state an edit that records itself leaves behind: one more entry in
    /// the history, nothing to redo, the sheet modified, the routing brought
    /// up to date, and the other engines and the path untouched.
    pub open spec fn recorded_edit(old: EditSession, new: EditSession) -> bool {
        &&& new.spec_history().len() == old.spec_history().len() + 1
        &&& new.spec_history().take(old.spec_history().len() as int) == old.spec_history()
        &&& new.spec_redo_len() == 0
        &&& new.spec_modified()
        &&& new.spec_layout() == old.spec_layout()
        &&& new.spec_library() == old.spec_library()
        &&& new.spec_netlist_builder() == old.spec_netlist_builder()
        &&& new.spec_source_path() == old.spec_source_path()
    }

    /// The state an edit that does not record itself leaves behind.
    pub open spec fn unrecorded_edit(old: EditSession, new: EditSession) -> bool {
        &&& new.spec_history() == old.spec_history()
        &&& new.spec_redo_len() == old.spec_redo_len()
        &&& new.spec_modified()
        &&& new.spec_layout() == old.spec_layout()
        &&& new.spec_library() == old.spec_library()
        &&& new.spec_netlist_builder() == old.spec_netlist_builder()
        &&& new.spec_source_path() == old.spec_source_path()
    }

    /// An empty, unmodified session with default engines and no history.
    pub fn new() -> (r: Self)
        ensures
            r.spec_prims().len() == 0,
            r.spec_history().len() == 0,
            r.spec_redo_len() == 0,
            !r.spec_modified(),
            r.spec_source_path() is None,
            r.spec_layout().spec_grid().spacing.raw == 100000 && r.spec_layout().spec_grid().snap_enabled,
            r.spec_layout().spec_spacing().raw == 1000000,
            rect_view(r.spec_layout().spec_sheet()) == (0int, 0int, 110000000int, 85000000int),
            r.spec_routing().spec_grid().spacing.raw == 100000 && r.spec_routing().spec_grid().snap_enabled,
            r.spec_routing().spec_max_iterations() == 10000,
            r.spec_routing().spec_obstacles().len() == 0,
            r.spec_routing().spec_wires().len() == 0,
            r.spec_library().spec_libraries().len() == 0,
            forall|p: Seq<u8>| r.spec_library().spec_counter(p) == 0,
            r.spec_netlist_builder().spec_tolerance() == 10000,
    {
        EditSession {
            doc: SchSheet { primitives: Vec::new() },
            layout: LayoutEngine::new(),
            routing: RoutingEngine::new(),
            library: LibraryManager::new(),
            netlist_builder: NetlistBuilder::new(),
            history: Vec::new(),
            redo_stack: Vec::new(),
            source_path: None,
            modified: false,
        }
    }

    /// Whether the sheet changed since it was opened or saved.
    pub fn is_modified(&self) -> (r: bool)
        ensures
            r == self.spec_modified(),
    {
        self.modified
    }

    /// The file the sheet came from or was last saved to.
    pub fn source_path(&self) -> (r: Option<&str>)
        ensures
            match r {
                Some(p) => self.spec_source_path() == Some(p@),
                None => self.spec_source_path() is None,
            },
    {
        match &self.source_path {
            Some(p) => Some(p.as_str()),
            None => None,
        }
    }

    /// Records that the sheet was saved to `path`: the path is kept and the
    /// sheet counts as unmodified.
    pub fn mark_saved(&mut self, path: &str)
        ensures
            final(self).spec_source_path() == Some(path@),
            !final(self).spec_modified(),
            final(self).spec_prims() == old(self).spec_prims(),
            final(self).spec_history() == old(self).spec_history(),
            final(self).spec_redo_len() == old(self).spec_redo_len(),
    {
        self.source_path = Some(text(path));
        self.modified = false;
    }

    /// The sheet being edited.
    pub fn doc(&self) -> (r: &SchSheet)
        ensures
            r.primitives@ == self.spec_prims(),
    {
        &self.doc
    }

    /// The placement engine.
    pub fn layout(&self) -> (r: &LayoutEngine)
        ensures
            *r == self.spec_layout(),
    {
        &self.layout
    }

    /// The library manager.
    pub fn library(&self) -> (r: &LibraryManager)
        ensures
            *r == self.spec_library(),
    {
        &self.library
    }

    /// How many edits are in the history.
    pub fn history_count(&self) -> (r: usize)
        ensures
            r == self.spec_history().len(),
    {
        self.history.len()
    }

    /// Whether there is an edit to undo.
    pub fn can_undo(&self) -> (r: bool)
        ensures
            r == (self.spec_history().len() > 0),
    {
        self.history.len() > 0
    }

    /// Whether there is an edit to redo.
    pub fn can_redo(&self) -> (r: bool)
        ensures
            r == (self.spec_redo_len() > 0),
    {
        self.redo_stack.len() > 0
    }

    /// Sets the grid of placement and of routing.
    pub fn set_grid(&mut self, grid: Grid)
        ensures
            final(self).spec_layout().spec_grid() == grid,
            final(self).spec_routing().spec_grid() == grid,
            final(self).spec_layout().spec_spacing() == old(self).spec_layout().spec_spacing(),
            final(self).spec_layout().spec_sheet() == old(self).spec_layout().spec_sheet(),
            final(self).spec_prims() == old(self).spec_prims(),
            final(self).spec_history() == old(self).spec_history(),
    {
        self.layout.set_grid(grid);
        self.routing.set_grid(grid);
    }
}

/// Whether every anchor point of a record fits an `i32`.
pub open spec fn record_anchors_fit(r: SchRecord) -> bool {
    forall|k: int| 0 <= k < anchors(r).len() ==> fits_i32(#[trigger] anchors(r)[k].0) && fits_i32(anchors(r)[k].1)
}

/// Whether every anchor point of a record fits an `i32`.
#[verifier::spinoff_prover]
fn record_anchors_fit_exec(r: &SchRecord) -> (ok: bool)
    ensures
        ok == record_anchors_fit(*r),
{
    let v = anchors_exec(r);
    let ghost av = anchors(*r);
    let mut k: usize = 0;
    while k < v.len()
        invariant
            av == anchors(*r),
            av == v@.map_values(|p: (i64, i64)| (p.0 as int, p.1 as int)),
            k <= v@.len(),
            forall|m: int| 0 <= m < k ==> fits_i32(#[trigger] av[m].0) && fits_i32(av[m].1),
        decreases v@.len() - k,
    {
        let (x, y) = v[k];
        assert(av[k as int] == (x as int, y as int));
        if x < i32::MIN as i64 || x > i32::MAX as i64 || y < i32::MIN as i64 || y > i32::MAX as i64 {
            return false;
        }
        k = k + 1;
    }
    true
}

/// Whether the sheet's coordinates leave room for placement and routing.
#[verifier::spinoff_prover]
fn sheet_fits_exec(prims: &[SchRecord], layout: &LayoutEngine) -> (r: bool)
    ensures
        r == sheet_fits(prims@),
{
    let mut i: usize = 0;
    while i < prims.len()
        invariant
            i <= prims@.len(),
            forall|j: int| 0 <= j < i ==> record_anchors_fit(#[trigger] prims@[j]),
            forall|c: int|
                0 <= c < i ==> (#[trigger] prims@[c] matches SchRecord::Component(comp) ==> fits_i32(
                    comp.location_x + 1000000,
                ) && fits_i32(comp.location_y + 1000000)),
        decreases prims@.len() - i,
    {
        if !record_anchors_fit_exec(&prims[i]) {
            proof {
                let k = choose|k: int|
                    0 <= k < anchors(prims@[i as int]).len() && !(fits_i32(anchors(prims@[i as int])[k].0) && fits_i32(
                        anchors(prims@[i as int])[k].1,
                    ));
                assert(!anchors_fit(prims@));
            }
            return false;
        }
        match &prims[i] {
            SchRecord::Component(comp) => {
                if comp.location_x as i64 + 1000000 > i32::MAX as i64 || comp.location_y as i64 + 1000000 > i32::MAX as i64 {
                    proof {
                        assert(prims@[i as int] matches SchRecord::Component(c) && c == *comp);
                    }
                    return false;
                }
            },
            _ => {},
        }
        i = i + 1;
    }
    assert forall|j: int, k: int|
        0 <= j < prims@.len() && 0 <= k < anchors(prims@[j]).len() implies fits_i32(#[trigger] anchors(prims@[j])[k].0)
            && fits_i32(anchors(prims@[j])[k].1) by {
        assert(record_anchors_fit(prims@[j]));
    }
    let placed = layout.get_placed_components(prims);
    let ghost cis = component_indices(prims@, prims@.len());
    let mut k: usize = 0;
    while k < placed.len()
        invariant
            anchors_fit(prims@),
            squares_fit(prims@),
            placed@.len() == cis.len(),
            cis == component_indices(prims@, prims@.len()),
            forall|m: int|
                0 <= m < placed@.len() ==> rect_view((#[trigger] placed@[m]).bounds) == component_box(
                    prims@,
                    cis[m],
                    component_at(prims@, cis[m]),
                ),
            k <= placed@.len(),
            forall|m: int|
                0 <= m < k ==> {
                    let e = expand(component_box(prims@, #[trigger] cis[m], component_at(prims@, cis[m])), -OBSTACLE_MARGIN);
                    fits_i32(e.0) && fits_i32(e.1) && fits_i32(e.2) && fits_i32(e.3)
                },
        decreases placed@.len() - k,
    {
        let b = placed[k].bounds;
        let x1: i64 = b.location1.x.raw as i64 + OBSTACLE_MARGIN as i64;
        let y1: i64 = b.location1.y.raw as i64 + OBSTACLE_MARGIN as i64;
        let x2: i64 = b.location2.x.raw as i64 - OBSTACLE_MARGIN as i64;
        let y2: i64 = b.location2.y.raw as i64 - OBSTACLE_MARGIN as i64;
        assert(rect_view(placed@[k as int].bounds) == component_box(prims@, cis[k as int], component_at(prims@, cis[k as int])));
        if x1 > i32::MAX as i64 || y1 > i32::MAX as i64 || x2 < i32::MIN as i64 || y2 < i32::MIN as i64 {
            return false;
        }
        k = k + 1;
    }
    true
}

impl EditSession {
    /// Brings the routing engine's obstacles and wires up to date with the
    /// sheet, when its coordinates leave room for that.
    fn update_routing_obstacles(&mut self)
        ensures
            routing_refreshed(old(self).routing, final(self).routing, old(self).doc.primitives@),
            final(self).doc.primitives@ == old(self).doc.primitives@,
            final(self).layout == old(self).layout,
            final(self).library == old(self).library,
            final(self).netlist_builder == old(self).netlist_builder,
            final(self).history@ == old(self).history@,
            final(self).redo_stack@ == old(self).redo_stack@,
            final(self).source_path == old(self).source_path,
            final(self).modified == old(self).modified,
    {
        if sheet_fits_exec(self.doc.primitives.as_slice(), &self.layout) {
            self.routing.update_obstacles(self.doc.primitives.as_slice(), &self.layout);
        }
    }

    /// A session on the given records, as opened from `source_path`: the
    /// designator counters start from the records' designators and the
    /// routing knows their obstacles and wires.
    pub fn with_document(primitives: Vec<SchRecord>, source_path: Option<String>) -> (r: Self)
        ensures
            r.spec_prims() == primitives@,
            r.spec_history().len() == 0,
            r.spec_redo_len() == 0,
            !r.spec_modified(),
            r.spec_source_path() == match source_path {
                Some(p) => Some(p@),
                None => None::<Seq<char>>,
            },
            r.spec_layout().spec_grid().spacing.raw == 100000 && r.spec_layout().spec_grid().snap_enabled,
            r.spec_routing().spec_grid().spacing.raw == 100000 && r.spec_routing().spec_grid().snap_enabled,
            r.spec_routing().spec_max_iterations() == 10000,
            sheet_fits(primitives@) ==> routing_synced(r.spec_routing(), primitives@),
            r.spec_library().spec_libraries().len() == 0,
            forall|p: Seq<u8>| #[trigger] r.spec_library().spec_counter(p) == crate::edit::library::designator_max(primitives@, p),
            r.spec_netlist_builder().spec_tolerance() == 10000,
    {
        let mut session = EditSession::new();
        session.doc = SchSheet { primitives };
        session.source_path = source_path;
        session.library.init_designators_from(session.doc.primitives.as_slice());
        session.update_routing_obstacles();
        session
    }
}


/// The record with its owner set to `o`; records without an owner stay as
/// they are.
pub open spec fn with_owner(r: SchRecord, o: i32) -> SchRecord {
    match r {
        SchRecord::Pin(p) => SchRecord::Pin(SchPin { owner_index: o, ..p }),
        SchRecord::Line(l) => SchRecord::Line(SchLine { owner_index: o, ..l }),
        SchRecord::Rectangle(l) => SchRecord::Rectangle(SchLine { owner_index: o, ..l }),
        SchRecord::Polygon(p) => SchRecord::Polygon(SchPolyline { owner_index: o, ..p }),
        SchRecord::Polyline(p) => SchRecord::Polyline(SchPolyline { owner_index: o, ..p }),
        SchRecord::Arc(a) => SchRecord::Arc(SchArc { owner_index: o, ..a }),
        SchRecord::Ellipse(e) => SchRecord::Ellipse(SchEllipse { owner_index: o, ..e }),
        SchRecord::Label(l) => SchRecord::Label(SchLabel { owner_index: o, ..l }),
        SchRecord::Designator(d) => SchRecord::Designator(SchDesignator { owner_index: o, ..d }),
        SchRecord::Parameter(p) => SchRecord::Parameter(SchParameter { owner_index: o, ..p }),
        _ => r,
    }
}

/// The record with its owner set to `o`.
fn with_owner_exec(r: SchRecord, o: i32) -> (out: SchRecord)
    ensures
        out == with_owner(r, o),
{
    match r {
        SchRecord::Pin(p) => SchRecord::Pin(SchPin { owner_index: o, ..p }),
        SchRecord::Line(l) => SchRecord::Line(SchLine { owner_index: o, ..l }),
        SchRecord::Rectangle(l) => SchRecord::Rectangle(SchLine { owner_index: o, ..l }),
        SchRecord::Polygon(p) => SchRecord::Polygon(SchPolyline { owner_index: o, ..p }),
        SchRecord::Polyline(p) => SchRecord::Polyline(SchPolyline { owner_index: o, ..p }),
        SchRecord::Arc(a) => SchRecord::Arc(SchArc { owner_index: o, ..a }),
        SchRecord::Ellipse(e) => SchRecord::Ellipse(SchEllipse { owner_index: o, ..e }),
        SchRecord::Label(l) => SchRecord::Label(SchLabel { owner_index: o, ..l }),
        SchRecord::Designator(d) => SchRecord::Designator(SchDesignator { owner_index: o, ..d }),
        SchRecord::Parameter(p) => SchRecord::Parameter(SchParameter { owner_index: o, ..p }),
        _ => r,
    }
}

/// How many removed indices lie below `o`.
pub open spec fn count_below(rm: Seq<usize>, o: int) -> nat
    decreases rm.len(),
{
    if rm.len() == 0 {
        0
    } else {
        count_below(rm.drop_last(), o) + if (rm.last() as int) < o {
            1nat
        } else {
            0nat
        }
    }
}

/// The record with its owner index moved down past the removed records.
pub open spec fn remapped(r: SchRecord, rm: Seq<usize>) -> SchRecord {
    let o = owner_of(r) as int;
    if o >= 0 {
        with_owner(r, (o - count_below(rm, o)) as i32)
    } else {
        r
    }
}

/// The first `n` records without the removed ones, the others' owners
/// remapped.
pub open spec fn without_upto(prims: Seq<SchRecord>, rm: Seq<usize>, n: nat) -> Seq<SchRecord>
    decreases n,
{
    if n == 0 {
        Seq::empty()
    } else {
        without_upto(prims, rm, (n - 1) as nat) + if rm.contains((n - 1) as usize) {
            Seq::<SchRecord>::empty()
        } else {
            seq![remapped(prims[n - 1], rm)]
        }
    }
}

/// The records without the removed ones, the others' owners remapped.
pub open spec fn without(prims: Seq<SchRecord>, rm: Seq<usize>) -> Seq<SchRecord> {
    without_upto(prims, rm, prims.len())
}

/// Whether indices are strictly increasing and below `n`.
pub open spec fn ascending_below(rm: Seq<usize>, n: int) -> bool {
    &&& forall|a: int, b: int| 0 <= a < b < rm.len() ==> rm[a] < rm[b]
    &&& forall|a: int| 0 <= a < rm.len() ==> (#[trigger] rm[a] as int) < n
}

/// The owner index of a record, -1 when it has none.
fn owner_exec(r: &SchRecord) -> (o: i32)
    ensures
        o == owner_of(*r),
{
    match r {
        SchRecord::Pin(p) => p.owner_index,
        SchRecord::Line(l) => l.owner_index,
        SchRecord::Rectangle(l) => l.owner_index,
        SchRecord::Polygon(p) => p.owner_index,
        SchRecord::Polyline(p) => p.owner_index,
        SchRecord::Arc(a) => a.owner_index,
        SchRecord::Ellipse(e) => e.owner_index,
        SchRecord::Label(l) => l.owner_index,
        SchRecord::Designator(d) => d.owner_index,
        SchRecord::Parameter(p) => p.owner_index,
        _ => -1,
    }
}

/// The record with its owner index moved down past the removed records.
fn remap_exec(r: SchRecord, removed: &Vec<usize>) -> (out: SchRecord)
    requires
        removed@.len() <= i32::MAX,
    ensures
        out == remapped(r, removed@),
{
    let o = owner_exec(&r);
    if o < 0 {
        return r;
    }
    let mut count: i64 = 0;
    let mut k: usize = 0;
    while k < removed.len()
        invariant
            k <= removed@.len(),
            o >= 0,
            removed@.len() <= i32::MAX,
            count == count_below(removed@.take(k as int), o as int),
            0 <= count <= k,
        decreases removed@.len() - k,
    {
        assert(removed@.take(k + 1).drop_last() =~= removed@.take(k as int));
        if removed[k] < o as usize {
            count = count + 1;
        }
        k = k + 1;
    }
    assert(removed@.take(k as int) =~= removed@);
    with_owner_exec(r, (o as i64 - count) as i32)
}

impl EditSession {
    /// Removes the records at the given indices, moving the remaining
    /// records' owner indices down past them.
    #[verifier::rlimit(40)]
    fn remove_records(&mut self, removed: &Vec<usize>)
        requires
            ascending_below(removed@, old(self).doc.primitives@.len() as int),
            old(self).doc.primitives@.len() <= i32::MAX,
            removed@.len() <= i32::MAX,
        ensures
            final(self).doc.primitives@ == without(old(self).doc.primitives@, removed@),
            final(self).layout == old(self).layout,
            final(self).routing == old(self).routing,
            final(self).library == old(self).library,
            final(self).netlist_builder == old(self).netlist_builder,
            final(self).history@ == old(self).history@,
            final(self).redo_stack@ == old(self).redo_stack@,
            final(self).source_path == old(self).source_path,
            final(self).modified == old(self).modified,
    {
        let ghost old_prims = self.doc.primitives@;
        let n = self.doc.primitives.len();
        let mut rev: Vec<SchRecord> = Vec::new();
        while self.doc.primitives.len() > 0
            invariant
                n == old_prims.len(),
                self.doc.primitives@ == old_prims.take(self.doc.primitives@.len() as int),
                rev@.len() + self.doc.primitives@.len() == n,
                forall|k: int| 0 <= k < rev@.len() ==> #[trigger] rev@[k] == old_prims[n - 1 - k],
                self.layout == old(self).layout,
                self.routing == old(self).routing,
                self.library == old(self).library,
                self.netlist_builder == old(self).netlist_builder,
                self.history@ == old(self).history@,
                self.redo_stack@ == old(self).redo_stack@,
                self.source_path == old(self).source_path,
                self.modified == old(self).modified,
            decreases self.doc.primitives@.len(),
        {
            let ghost before = self.doc.primitives@;
            let r = self.doc.primitives.pop().unwrap();
            assert(r == old_prims[before.len() - 1]);
            assert(self.doc.primitives@ =~= old_prims.take(self.doc.primitives@.len() as int));
            rev.push(r);
        }
        let mut out: Vec<SchRecord> = Vec::new();
        let mut i: usize = 0;
        let mut ri: usize = 0;
        while rev.len() > 0
            invariant
                n == old_prims.len(),
                n <= i32::MAX,
                removed@.len() <= i32::MAX,
                ascending_below(removed@, n as int),
                i + rev@.len() == n,
                forall|k: int| 0 <= k < rev@.len() ==> #[trigger] rev@[k] == old_prims[n - 1 - k],
                ri <= removed@.len(),
                forall|k: int| 0 <= k < ri ==> (#[trigger] removed@[k] as int) < i,
                forall|k: int| ri <= k < removed@.len() ==> (#[trigger] removed@[k] as int) >= i,
                out@ == without_upto(old_prims, removed@, i as nat),
            decreases rev@.len(),
        {
            let r = rev.pop().unwrap();
            assert(r == old_prims[i as int]);
            let is_removed = ri < removed.len() && removed[ri] == i;
            proof {
                if removed@.contains(i) {
                    let k = choose|k: int| 0 <= k < removed@.len() && removed@[k] == i;
                    assert(k >= ri);
                    if k > ri {
                        assert(removed@[ri as int] < removed@[k]);
                    }
                }
                if is_removed {
                    assert(removed@[ri as int] == i);
                }
            }
            if is_removed {
                ri = ri + 1;
            } else {
                out.push(remap_exec(r, removed));
            }
            proof {
                assert forall|k: int| ri <= k < removed@.len() implies (#[trigger] removed@[k] as int) >= i + 1 by {
                    if !is_removed && k >= ri {
                        assert(removed@[k] as int >= i);
                        assert(removed@[k] != i);
                    }
                    if is_removed {
                        assert(removed@[ri - 1] == i);
                        assert(removed@[ri - 1] < removed@[k]);
                    }
                }
            }
            i = i + 1;
        }
        self.doc.primitives = out;
    }

    /// The designator text of a component, from the first designator record
    /// it owns.
    pub fn find_designator(&self, component_index: usize) -> (r: Option<String>)
        ensures
            match r {
                Some(t) => designator_of_component(self.spec_prims(), component_index as int) == Some(t@),
                None => designator_of_component(self.spec_prims(), component_index as int) is None,
            },
    {
        let prims = &self.doc.primitives;
        let ghost ps = prims@;
        let mut i: usize = 0;
        while i < prims.len()
            invariant
                i <= ps.len(),
                ps == prims@,
                ps == self.doc.primitives@,
                first_designator(ps, component_index as int, i as nat) == i,
            decreases ps.len() - i,
        {
            match &prims[i] {
                SchRecord::Designator(d) => {
                    if d.owner_index == #[verifier::truncate] (component_index as i32) {
                        proof {
                            assert(ps[i as int] matches SchRecord::Designator(dd) && dd == *d);
                            assert(d.owner_index == (component_index as int) as i32);
                            assert(first_designator(ps, component_index as int, (i + 1) as nat) == i);
                            lemma_first_designator_stays(ps, component_index as int, (i + 1) as nat, ps.len());
                            assert(designator_of_component(ps, component_index as int) == Some(d.text@));
                        }
                        let t = d.text.clone();
                        assert(t@ == d.text@);
                        return Some(t);
                    }
                },
                _ => {},
            }
            i = i + 1;
        }
        None
    }
}

/// Once found among the first `m` records, the first designator stays the
/// first among more.
proof fn lemma_first_designator_stays(prims: Seq<SchRecord>, c: int, m: nat, n: nat)
    requires
        m <= n <= prims.len(),
        first_designator(prims, c, m) < m,
    ensures
        first_designator(prims, c, n) == first_designator(prims, c, m),
    decreases n - m,
{
    if n > m {
        lemma_first_designator_stays(prims, c, m, (n - 1) as nat);
    }
}

impl EditSession {
    /// Snaps points to the placement grid, as coordinate pairs.
    fn snap_all(&self, vertices: &[CoordPoint]) -> (r: Vec<(i32, i32)>)
        requires
            all_snappable(self.layout.spec_grid(), vertices@),
        ensures
            r@ == snapped_pairs(self.layout.spec_grid(), vertices@),
    {
        let mut out: Vec<(i32, i32)> = Vec::new();
        let mut i: usize = 0;
        while i < vertices.len()
            invariant
                i <= vertices@.len(),
                all_snappable(self.layout.spec_grid(), vertices@),
                out@ == snapped_pairs(self.layout.spec_grid(), vertices@.take(i as int)),
            decreases vertices@.len() - i,
        {
            let s = self.layout.snap_to_grid(vertices[i]);
            proof {
                assert(self.layout.spec_grid().can_snap_raw(vertices@[i as int].x.raw as int));
            }
            out.push((s.x.raw, s.y.raw));
            assert(snapped_pairs(self.layout.spec_grid(), vertices@.take(i + 1)) =~= snapped_pairs(
                self.layout.spec_grid(),
                vertices@.take(i as int),
            ).push((s.x.raw, s.y.raw)));
            i = i + 1;
        }
        assert(vertices@.take(i as int) =~= vertices@);
        out
    }

    /// Adds a wire through the given points, each snapped to the grid.
    pub fn add_wire(&mut self, vertices: &[CoordPoint]) -> (r: Result<usize>)
        requires
            all_snappable(old(self).spec_layout().spec_grid(), vertices@),
        ensures
            vertices@.len() < 2 ==> (r matches Err(AltiumError::Parse(m)) && m@ == "Wire must have at least 2 vertices"@
                && *final(self) == *old(self)),
            vertices@.len() >= 2 ==> {
                let n = old(self).spec_prims().len();
                &&& r == Ok::<usize, AltiumError>(n as usize)
                &&& final(self).spec_prims().len() == n + 1
                &&& final(self).spec_prims().take(n as int) == old(self).spec_prims()
                &&& final(self).spec_prims()[n as int] matches SchRecord::Wire(w) && w.vertices@ == snapped_pairs(
                    old(self).spec_layout().spec_grid(),
                    vertices@,
                )
                &&& EditSession::recorded_edit(*old(self), *final(self))
                &&& final(self).spec_history().last() == (EditOperation::AddWire { index: n as usize })
                &&& routing_refreshed(old(self).spec_routing(), final(self).spec_routing(), final(self).spec_prims())
            },
    {
        if vertices.len() < 2 {
            return Err(AltiumError::Parse(text("Wire must have at least 2 vertices")));
        }
        let snapped = self.snap_all(vertices);
        let index = self.doc.primitives.len();
        self.doc.primitives.push(SchRecord::Wire(SchWire { vertices: snapped }));
        self.history.push(EditOperation::AddWire { index });
        self.redo_stack = Vec::new();
        self.modified = true;
        self.update_routing_obstacles();
        assert(self.doc.primitives@.take(index as int) =~= old(self).doc.primitives@);
        assert(self.history@.take(old(self).history@.len() as int) =~= old(self).history@);
        Ok(index)
    }

    /// Adds a bus through the given points, each snapped to the grid.
    pub fn add_bus(&mut self, vertices: &[CoordPoint]) -> (r: Result<usize>)
        requires
            all_snappable(old(self).spec_layout().spec_grid(), vertices@),
        ensures
            vertices@.len() < 2 ==> (r matches Err(AltiumError::Parse(m)) && m@ == "Bus must have at least 2 vertices"@
                && *final(self) == *old(self)),
            vertices@.len() >= 2 ==> {
                let n = old(self).spec_prims().len();
                &&& r == Ok::<usize, AltiumError>(n as usize)
                &&& final(self).spec_prims().len() == n + 1
                &&& final(self).spec_prims().take(n as int) == old(self).spec_prims()
                &&& final(self).spec_prims()[n as int] matches SchRecord::Bus(b) && b.vertices@ == snapped_pairs(
                    old(self).spec_layout().spec_grid(),
                    vertices@,
                )
                &&& EditSession::unrecorded_edit(*old(self), *final(self))
                &&& routing_refreshed(old(self).spec_routing(), final(self).spec_routing(), final(self).spec_prims())
            },
    {
        if vertices.len() < 2 {
            return Err(AltiumError::Parse(text("Bus must have at least 2 vertices")));
        }
        let snapped = self.snap_all(vertices);
        let index = self.doc.primitives.len();
        self.doc.primitives.push(SchRecord::Bus(SchBus { vertices: snapped }));
        self.modified = true;
        self.update_routing_obstacles();
        assert(self.doc.primitives@.take(index as int) =~= old(self).doc.primitives@);
        Ok(index)
    }

    /// Adds a bus entry from a point on a bus to a wire's point, both
    /// snapped to the grid.
    pub fn add_bus_entry(&mut self, bus_point: CoordPoint, wire_point: CoordPoint) -> (r: Result<usize>)
        requires
            snappable(old(self).spec_layout().spec_grid(), bus_point),
            snappable(old(self).spec_layout().spec_grid(), wire_point),
        ensures
            ({
                let n = old(self).spec_prims().len();
                let g = old(self).spec_layout().spec_grid();
                &&& r == Ok::<usize, AltiumError>(n as usize)
                &&& final(self).spec_prims() == old(self).spec_prims().push(
                    SchRecord::BusEntry(
                        SchBusEntry {
                            location_x: snapped(g, bus_point).x.raw,
                            location_y: snapped(g, bus_point).y.raw,
                            corner_x: snapped(g, wire_point).x.raw,
                            corner_y: snapped(g, wire_point).y.raw,
                        },
                    ),
                )
                &&& EditSession::unrecorded_edit(*old(self), *final(self))
                &&& routing_refreshed(old(self).spec_routing(), final(self).spec_routing(), final(self).spec_prims())
            }),
    {
        let b = self.layout.snap_to_grid(bus_point);
        let w = self.layout.snap_to_grid(wire_point);
        let index = self.doc.primitives.len();
        self.doc.primitives.push(
            SchRecord::BusEntry(SchBusEntry { location_x: b.x.raw, location_y: b.y.raw, corner_x: w.x.raw, corner_y: w.y.raw }),
        );
        self.modified = true;
        self.update_routing_obstacles();
        Ok(index)
    }

    /// Adds a net label, snapped to the grid.
    pub fn add_net_label(&mut self, name: &str, location: CoordPoint) -> (r: Result<usize>)
        requires
            snappable(old(self).spec_layout().spec_grid(), location),
        ensures
            ({
                let n = old(self).spec_prims().len();
                let g = old(self).spec_layout().spec_grid();
                &&& r == Ok::<usize, AltiumError>(n as usize)
                &&& final(self).spec_prims().len() == n + 1
                &&& final(self).spec_prims().take(n as int) == old(self).spec_prims()
                &&& final(self).spec_prims()[n as int] matches SchRecord::NetLabel(l) && l.location_x == snapped(g, location).x.raw
                    && l.location_y == snapped(g, location).y.raw && l.text@ == name@
                &&& EditSession::recorded_edit(*old(self), *final(self))
                &&& final(self).spec_history().last() matches EditOperation::AddNetLabel { index, net_name } && index == n
                    && net_name@ == name@
                &&& final(self).spec_routing() == old(self).spec_routing()
            }),
    {
        let s = self.layout.snap_to_grid(location);
        let index = self.doc.primitives.len();
        self.doc.primitives.push(SchRecord::NetLabel(SchNetLabel { location_x: s.x.raw, location_y: s.y.raw, text: text(name) }));
        self.history.push(EditOperation::AddNetLabel { index, net_name: text(name) });
        self.redo_stack = Vec::new();
        self.modified = true;
        assert(self.doc.primitives@.take(index as int) =~= old(self).doc.primitives@);
        assert(self.history@.take(old(self).history@.len() as int) =~= old(self).history@);
        Ok(index)
    }

    /// Adds a power port with a style and text orientation bits, snapped to
    /// the grid.
    pub fn add_power_port(&mut self, net_name: &str, location: CoordPoint, style: u8, orientation: u8) -> (r: Result<usize>)
        requires
            snappable(old(self).spec_layout().spec_grid(), location),
        ensures
            ({
                let n = old(self).spec_prims().len();
                let g = old(self).spec_layout().spec_grid();
                &&& r == Ok::<usize, AltiumError>(n as usize)
                &&& final(self).spec_prims().len() == n + 1
                &&& final(self).spec_prims().take(n as int) == old(self).spec_prims()
                &&& final(self).spec_prims()[n as int] matches SchRecord::PowerObject(p) && p.location_x == snapped(
                    g,
                    location,
                ).x.raw && p.location_y == snapped(g, location).y.raw && p.text@ == net_name@ && p.style == style
                    && p.orientation == orientation
                &&& EditSession::recorded_edit(*old(self), *final(self))
                &&& final(self).spec_history().last() matches EditOperation::AddPowerPort { index, net_name: t } && index
                    == n && t@ == net_name@
                &&& final(self).spec_routing() == old(self).spec_routing()
            }),
    {
        let s = self.layout.snap_to_grid(location);
        let index = self.doc.primitives.len();
        self.doc.primitives.push(
            SchRecord::PowerObject(
                SchPowerObject { location_x: s.x.raw, location_y: s.y.raw, text: text(net_name), style, orientation },
            ),
        );
        self.history.push(EditOperation::AddPowerPort { index, net_name: text(net_name) });
        self.redo_stack = Vec::new();
        self.modified = true;
        assert(self.doc.primitives@.take(index as int) =~= old(self).doc.primitives@);
        assert(self.history@.take(old(self).history@.len() as int) =~= old(self).history@);
        Ok(index)
    }

    /// Adds a junction, snapped to the grid.
    pub fn add_junction(&mut self, location: CoordPoint) -> (r: Result<usize>)
        requires
            snappable(old(self).spec_layout().spec_grid(), location),
        ensures
            ({
                let n = old(self).spec_prims().len();
                let s = snapped(old(self).spec_layout().spec_grid(), location);
                &&& r == Ok::<usize, AltiumError>(n as usize)
                &&& final(self).spec_prims() == old(self).spec_prims().push(
                    SchRecord::Junction(SchJunction { location_x: s.x.raw, location_y: s.y.raw }),
                )
                &&& EditSession::recorded_edit(*old(self), *final(self))
                &&& final(self).spec_history().last() == (EditOperation::AddJunction { index: n as usize, location: s })
                &&& final(self).spec_routing() == old(self).spec_routing()
            }),
    {
        let s = self.layout.snap_to_grid(location);
        let index = self.doc.primitives.len();
        self.doc.primitives.push(SchRecord::Junction(SchJunction { location_x: s.x.raw, location_y: s.y.raw }));
        self.history.push(EditOperation::AddJunction { index, location: s });
        self.redo_stack = Vec::new();
        self.modified = true;
        assert(self.history@.take(old(self).history@.len() as int) =~= old(self).history@);
        Ok(index)
    }

    /// Adds a sheet port with an I/O type, snapped to the grid.
    pub fn add_port(&mut self, name: &str, location: CoordPoint, io_type: u8) -> (r: Result<usize>)
        requires
            snappable(old(self).spec_layout().spec_grid(), location),
        ensures
            ({
                let n = old(self).spec_prims().len();
                let g = old(self).spec_layout().spec_grid();
                &&& r == Ok::<usize, AltiumError>(n as usize)
                &&& final(self).spec_prims().len() == n + 1
                &&& final(self).spec_prims().take(n as int) == old(self).spec_prims()
                &&& final(self).spec_prims()[n as int] matches SchRecord::Port(p) && p.location_x == snapped(g, location).x.raw
                    && p.location_y == snapped(g, location).y.raw && p.name@ == name@ && p.io_type == io_type
                &&& EditSession::unrecorded_edit(*old(self), *final(self))
                &&& final(self).spec_routing() == old(self).spec_routing()
            }),
    {
        let s = self.layout.snap_to_grid(location);
        let index = self.doc.primitives.len();
        self.doc.primitives.push(SchRecord::Port(SchPort { location_x: s.x.raw, location_y: s.y.raw, name: text(name), io_type }));
        self.modified = true;
        assert(self.doc.primitives@.take(index as int) =~= old(self).doc.primitives@);
        Ok(index)
    }

    /// Deletes the wire at an index; later records' owner indices move down.
    pub fn delete_wire(&mut self, index: usize) -> (r: Result<()>)
        requires
            old(self).spec_prims().len() <= i32::MAX,
        ensures
            !(index < old(self).spec_prims().len() && old(self).spec_prims()[index as int] is Wire) ==> (r matches Err(
                AltiumError::Parse(m),
            ) && m@ == "Not a wire"@ && *final(self) == *old(self)),
            (index < old(self).spec_prims().len() && old(self).spec_prims()[index as int] is Wire) ==> {
                &&& r is Ok
                &&& final(self).spec_prims() == without(old(self).spec_prims(), seq![index])
                &&& EditSession::recorded_edit(*old(self), *final(self))
                &&& final(self).spec_history().last() == (EditOperation::RemoveWire { index })
                &&& routing_refreshed(old(self).spec_routing(), final(self).spec_routing(), final(self).spec_prims())
            },
    {
        let is_wire = index < self.doc.primitives.len() && match &self.doc.primitives[index] {
            SchRecord::Wire(_) => true,
            _ => false,
        };
        if !is_wire {
            return Err(AltiumError::Parse(text("Not a wire")));
        }
        let mut removed: Vec<usize> = Vec::new();
        removed.push(index);
        self.remove_records(&removed);
        self.history.push(EditOperation::RemoveWire { index });
        self.redo_stack = Vec::new();
        self.modified = true;
        self.update_routing_obstacles();
        assert(self.history@.take(old(self).history@.len() as int) =~= old(self).history@);
        assert(removed@ =~= seq![index]);
        Ok(())
    }
}

/// Whether vertices are the old ones moved by `(dx, dy)`.
pub open spec fn vertices_moved(old: Seq<(i32, i32)>, new: Seq<(i32, i32)>, dx: int, dy: int) -> bool {
    new.len() == old.len() && forall|k: int|
        0 <= k < old.len() ==> (#[trigger] new[k]).0 == old[k].0 + dx && new[k].1 == old[k].1 + dy
}

/// Whether every vertex moved by `(dx, dy)` fits an `i32`.
pub open spec fn vertices_move_fit(vs: Seq<(i32, i32)>, dx: int, dy: int) -> bool {
    forall|k: int| 0 <= k < vs.len() ==> fits_i32((#[trigger] vs[k]).0 + dx) && fits_i32(vs[k].1 + dy)
}

/// Whether a record's coordinates, moved by `(dx, dy)`, fit an `i32`.
pub open spec fn move_fits(r: SchRecord, dx: int, dy: int) -> bool {
    match r {
        SchRecord::Pin(p) => fits_i32(p.location_x + dx) && fits_i32(p.location_y + dy),
        SchRecord::Line(l) => fits_i32(l.location_x + dx) && fits_i32(l.location_y + dy) && fits_i32(l.corner_x + dx)
            && fits_i32(l.corner_y + dy),
        SchRecord::Rectangle(l) => fits_i32(l.location_x + dx) && fits_i32(l.location_y + dy) && fits_i32(
            l.corner_x + dx,
        ) && fits_i32(l.corner_y + dy),
        SchRecord::Polygon(p) => fits_i32(p.location_x + dx) && fits_i32(p.location_y + dy) && vertices_move_fit(
            p.vertices@,
            dx,
            dy,
        ),
        SchRecord::Polyline(p) => fits_i32(p.location_x + dx) && fits_i32(p.location_y + dy) && vertices_move_fit(
            p.vertices@,
            dx,
            dy,
        ),
        SchRecord::Arc(a) => fits_i32(a.location_x + dx) && fits_i32(a.location_y + dy),
        SchRecord::Ellipse(e) => fits_i32(e.location_x + dx) && fits_i32(e.location_y + dy),
        SchRecord::Label(l) => fits_i32(l.location_x + dx) && fits_i32(l.location_y + dy),
        SchRecord::Designator(d) => fits_i32(d.location_x + dx) && fits_i32(d.location_y + dy),
        SchRecord::Parameter(p) => fits_i32(p.location_x + dx) && fits_i32(p.location_y + dy),
        _ => true,
    }
}

/// Whether `new` is `old` moved by `(dx, dy)`: a pin, a graphic, a text
/// or a parameter moves its location, a line or rectangle its corner too,
/// a polygon or polyline its vertices too; other records stay.
pub open spec fn moved_record(old: SchRecord, new: SchRecord, dx: int, dy: int) -> bool {
    match old {
        SchRecord::Pin(p) => new == SchRecord::Pin(
            SchPin { location_x: (p.location_x + dx) as i32, location_y: (p.location_y + dy) as i32, ..p },
        ),
        SchRecord::Line(l) => new == SchRecord::Line(
            SchLine {
                location_x: (l.location_x + dx) as i32,
                location_y: (l.location_y + dy) as i32,
                corner_x: (l.corner_x + dx) as i32,
                corner_y: (l.corner_y + dy) as i32,
                ..l
            },
        ),
        SchRecord::Rectangle(l) => new == SchRecord::Rectangle(
            SchLine {
                location_x: (l.location_x + dx) as i32,
                location_y: (l.location_y + dy) as i32,
                corner_x: (l.corner_x + dx) as i32,
                corner_y: (l.corner_y + dy) as i32,
                ..l
            },
        ),
        SchRecord::Polygon(p) => new matches SchRecord::Polygon(q) && q.owner_index == p.owner_index && q.location_x
            == p.location_x + dx && q.location_y == p.location_y + dy && vertices_moved(p.vertices@, q.vertices@, dx, dy),
        SchRecord::Polyline(p) => new matches SchRecord::Polyline(q) && q.owner_index == p.owner_index && q.location_x
            == p.location_x + dx && q.location_y == p.location_y + dy && vertices_moved(p.vertices@, q.vertices@, dx, dy),
        SchRecord::Arc(a) => new == SchRecord::Arc(
            SchArc { location_x: (a.location_x + dx) as i32, location_y: (a.location_y + dy) as i32, ..a },
        ),
        SchRecord::Ellipse(e) => new == SchRecord::Ellipse(
            SchEllipse { location_x: (e.location_x + dx) as i32, location_y: (e.location_y + dy) as i32, ..e },
        ),
        SchRecord::Label(l) => new == SchRecord::Label(
            SchLabel { location_x: (l.location_x + dx) as i32, location_y: (l.location_y + dy) as i32, ..l },
        ),
        SchRecord::Designator(d) => new == SchRecord::Designator(
            SchDesignator { location_x: (d.location_x + dx) as i32, location_y: (d.location_y + dy) as i32, ..d },
        ),
        SchRecord::Parameter(p) => new == SchRecord::Parameter(
            SchParameter { location_x: (p.location_x + dx) as i32, location_y: (p.location_y + dy) as i32, ..p },
        ),
        _ => new == old,
    }
}

/// Vertices moved by `(dx, dy)`.
fn move_vertices(vs: &Vec<(i32, i32)>, dx: i32, dy: i32) -> (r: Vec<(i32, i32)>)
    requires
        vertices_move_fit(vs@, dx as int, dy as int),
    ensures
        vertices_moved(vs@, r@, dx as int, dy as int),
{
    let mut out: Vec<(i32, i32)> = Vec::new();
    let mut k: usize = 0;
    while k < vs.len()
        invariant
            k <= vs@.len(),
            vertices_move_fit(vs@, dx as int, dy as int),
            out@.len() == k,
            forall|m: int| 0 <= m < k ==> (#[trigger] out@[m]).0 == vs@[m].0 + dx && out@[m].1 == vs@[m].1 + dy,
        decreases vs@.len() - k,
    {
        let (x, y) = vs[k];
        assert(fits_i32(vs@[k as int].0 + dx) && fits_i32(vs@[k as int].1 + dy));
        out.push((x + dx, y + dy));
        k = k + 1;
    }
    out
}

/// A record moved by `(dx, dy)`.
fn translate_primitive(record: &SchRecord, dx: i32, dy: i32) -> (r: SchRecord)
    requires
        owner_of(*record) >= 0,
        move_fits(*record, dx as int, dy as int),
    ensures
        moved_record(*record, r, dx as int, dy as int),
{
    match record {
        SchRecord::Pin(p) => SchRecord::Pin(
            SchPin {
                owner_index: p.owner_index,
                location_x: p.location_x + dx,
                location_y: p.location_y + dy,
                pin_length: p.pin_length,
                rotated: p.rotated,
                flipped: p.flipped,
                designator: p.designator.clone(),
                name: p.name.clone(),
            },
        ),
        SchRecord::Line(l) => SchRecord::Line(
            SchLine {
                owner_index: l.owner_index,
                location_x: l.location_x + dx,
                location_y: l.location_y + dy,
                corner_x: l.corner_x + dx,
                corner_y: l.corner_y + dy,
            },
        ),
        SchRecord::Rectangle(l) => SchRecord::Rectangle(
            SchLine {
                owner_index: l.owner_index,
                location_x: l.location_x + dx,
                location_y: l.location_y + dy,
                corner_x: l.corner_x + dx,
                corner_y: l.corner_y + dy,
            },
        ),
        SchRecord::Polygon(p) => SchRecord::Polygon(
            SchPolyline {
                owner_index: p.owner_index,
                location_x: p.location_x + dx,
                location_y: p.location_y + dy,
                vertices: move_vertices(&p.vertices, dx, dy),
            },
        ),
        SchRecord::Polyline(p) => SchRecord::Polyline(
            SchPolyline {
                owner_index: p.owner_index,
                location_x: p.location_x + dx,
                location_y: p.location_y + dy,
                vertices: move_vertices(&p.vertices, dx, dy),
            },
        ),
        SchRecord::Arc(a) => SchRecord::Arc(
            SchArc {
                owner_index: a.owner_index,
                location_x: a.location_x + dx,
                location_y: a.location_y + dy,
                radius: a.radius,
                start_angle: a.start_angle,
                end_angle: a.end_angle,
            },
        ),
        SchRecord::Ellipse(e) => SchRecord::Ellipse(
            SchEllipse {
                owner_index: e.owner_index,
                location_x: e.location_x + dx,
                location_y: e.location_y + dy,
                radius_x: e.radius_x,
                radius_y: e.radius_y,
            },
        ),
        SchRecord::Label(l) => SchRecord::Label(
            SchLabel { owner_index: l.owner_index, location_x: l.location_x + dx, location_y: l.location_y + dy, text: l.text.clone() },
        ),
        SchRecord::Designator(d) => SchRecord::Designator(
            SchDesignator {
                owner_index: d.owner_index,
                location_x: d.location_x + dx,
                location_y: d.location_y + dy,
                text: d.text.clone(),
            },
        ),
        SchRecord::Parameter(p) => SchRecord::Parameter(
            SchParameter {
                owner_index: p.owner_index,
                location_x: p.location_x + dx,
                location_y: p.location_y + dy,
                name: p.name.clone(),
                text: p.text.clone(),
            },
        ),
        _ => {
            proof {
                assert(owner_of(*record) == -1);
            }
            SchRecord::Other(0)
        },
    }
}

/// Whether moving component `index` to `to` keeps the component's offset
/// and every owned record's coordinates within `i32`.
pub open spec fn component_move_fits(prims: Seq<SchRecord>, index: int, to: CoordPoint) -> bool {
    prims[index] matches SchRecord::Component(c) ==> {
        let dx = to.x.raw - c.location_x;
        let dy = to.y.raw - c.location_y;
        &&& fits_i32(dx)
        &&& fits_i32(dy)
        &&& forall|i: int|
            0 <= i < prims.len() && i != index && owner_of(#[trigger] prims[i]) == index as i32 ==> move_fits(
                prims[i],
                dx,
                dy,
            )
    }
}

/// A copy of a component record at another location.
fn component_at_location(c: &crate::edit::sch_records::SchComponent, x: i32, y: i32) -> (r: crate::edit::sch_records::SchComponent)
    ensures
        r == (crate::edit::sch_records::SchComponent { location_x: x, location_y: y, ..*c }),
{
    crate::edit::sch_records::SchComponent {
        lib_reference: c.lib_reference.clone(),
        description: c.description.clone(),
        owner_index: c.owner_index,
        location_x: x,
        location_y: y,
        orientation: c.orientation,
        library_path: c.library_path.clone(),
        source_library_name: c.source_library_name.clone(),
        unique_id: c.unique_id.clone(),
    }
}

impl EditSession {
    /// Moves a component to a location snapped to the grid, moving every
    /// record it owns by the same offset.
    pub fn move_component(&mut self, index: usize, new_location: CoordPoint) -> (r: Result<()>)
        requires
            old(self).spec_prims().len() <= i32::MAX,
            index < old(self).spec_prims().len() && old(self).spec_prims()[index as int] is Component ==> snappable(
                old(self).spec_layout().spec_grid(),
                new_location,
            ) && component_move_fits(
                old(self).spec_prims(),
                index as int,
                snapped(old(self).spec_layout().spec_grid(), new_location),
            ),
        ensures
            index >= old(self).spec_prims().len() ==> (r matches Err(AltiumError::Parse(m)) && m@ == "Component not found"@
                && *final(self) == *old(self)),
            index < old(self).spec_prims().len() && !(old(self).spec_prims()[index as int] is Component) ==> (r matches Err(
                AltiumError::Parse(m),
            ) && m@ == "Not a component"@ && *final(self) == *old(self)),
            index < old(self).spec_prims().len() ==> (old(self).spec_prims()[index as int] matches SchRecord::Component(c)
                ==> {
                let prims = old(self).spec_prims();
                let s = snapped(old(self).spec_layout().spec_grid(), new_location);
                let dx = s.x.raw - c.location_x;
                let dy = s.y.raw - c.location_y;
                &&& r is Ok
                &&& final(self).spec_prims().len() == prims.len()
                &&& final(self).spec_prims()[index as int] == SchRecord::Component(
                    crate::edit::sch_records::SchComponent { location_x: s.x.raw, location_y: s.y.raw, ..c },
                )
                &&& forall|i: int|
                    0 <= i < prims.len() && i != index ==> if owner_of(#[trigger] prims[i]) == index as i32 {
                        moved_record(prims[i], final(self).spec_prims()[i], dx, dy)
                    } else {
                        final(self).spec_prims()[i] == prims[i]
                    }
                &&& EditSession::recorded_edit(*old(self), *final(self))
                &&& final(self).spec_history().last() == (EditOperation::MoveComponent {
                    index,
                    from: CoordPoint { x: Coord { raw: c.location_x }, y: Coord { raw: c.location_y } },
                    to: s,
                })
                &&& routing_refreshed(old(self).spec_routing(), final(self).spec_routing(), final(self).spec_prims())
            }),
    {
        if index >= self.doc.primitives.len() {
            return Err(AltiumError::Parse(text("Component not found")));
        }
        let comp = match &self.doc.primitives[index] {
            SchRecord::Component(c) => component_at_location(c, c.location_x, c.location_y),
            _ => {
                return Err(AltiumError::Parse(text("Not a component")));
            },
        };
        let ghost prims = self.doc.primitives@;
        assert(prims[index as int] == SchRecord::Component(comp));
        let old_location = CoordPoint { x: Coord { raw: comp.location_x }, y: Coord { raw: comp.location_y } };
        let s = self.layout.snap_to_grid(new_location);
        let dx = s.x.raw - comp.location_x;
        let dy = s.y.raw - comp.location_y;
        let owner = index as i32;
        let n = self.doc.primitives.len();
        let mut i: usize = 0;
        while i < n
            invariant
                n == prims.len(),
                n <= i32::MAX,
                index < n,
                owner == index as i32,
                owner >= 0,
                prims[index as int] == SchRecord::Component(comp),
                component_move_fits(prims, index as int, s),
                dx == s.x.raw - comp.location_x,
                dy == s.y.raw - comp.location_y,
                self.doc.primitives@.len() == n,
                forall|j: int|
                    i <= j < n ==> #[trigger] self.doc.primitives@[j] == prims[j],
                forall|j: int|
                    0 <= j < i && j != index ==> if owner_of(#[trigger] prims[j]) == index as i32 {
                        moved_record(prims[j], self.doc.primitives@[j], dx as int, dy as int)
                    } else {
                        self.doc.primitives@[j] == prims[j]
                    },
                self.doc.primitives@[index as int] == prims[index as int],
                self.layout == old(self).layout,
                self.routing == old(self).routing,
                self.library == old(self).library,
                self.netlist_builder == old(self).netlist_builder,
                self.history@ == old(self).history@,
                self.redo_stack@ == old(self).redo_stack@,
                self.source_path == old(self).source_path,
                self.modified == old(self).modified,
            decreases n - i,
        {
            if i != index {
                let o = owner_exec(&self.doc.primitives[i]);
                if o == owner {
                    assert(move_fits(prims[i as int], dx as int, dy as int));
                    let t = translate_primitive(&self.doc.primitives[i], dx, dy);
                    self.doc.primitives.set(i, t);
                }
            }
            i = i + 1;
        }
        self.doc.primitives.set(index, SchRecord::Component(component_at_location(&comp, s.x.raw, s.y.raw)));
        self.history.push(EditOperation::MoveComponent { index, from: old_location, to: s });
        self.redo_stack = Vec::new();
        self.modified = true;
        self.update_routing_obstacles();
        assert(self.history@.take(old(self).history@.len() as int) =~= old(self).history@);
        Ok(())
    }
}

/// The indices among the first `n` of record `c` and of the records it
/// owns, in order.
pub open spec fn owned_indices(prims: Seq<SchRecord>, c: int, n: nat) -> Seq<usize>
    decreases n,
{
    if n == 0 {
        Seq::empty()
    } else {
        owned_indices(prims, c, (n - 1) as nat) + if n - 1 == c || owner_of(prims[n - 1]) == c as i32 {
            seq![(n - 1) as usize]
        } else {
            Seq::<usize>::empty()
        }
    }
}

/// Whether record `k` goes with component `c`: the component itself or a
/// record it owns.
pub open spec fn goes_with(prims: Seq<SchRecord>, c: int, k: int) -> bool {
    k == c || owner_of(prims[k]) == c as i32
}

/// The number of indices below `n` that `rm` holds.
pub open spec fn removed_below(rm: Seq<usize>, n: nat) -> nat
    decreases n,
{
    if n == 0 {
        0
    } else {
        removed_below(rm, (n - 1) as nat) + if rm.contains((n - 1) as usize) {
            1nat
        } else {
            0nat
        }
    }
}

/// The indices of the records that go with a component are exactly those
/// below `n` that go with it.
pub proof fn lemma_owned_indices_members(prims: Seq<SchRecord>, c: int, n: nat)
    requires
        n <= prims.len() <= usize::MAX,
    ensures
        forall|k: usize| #[trigger]
            owned_indices(prims, c, n).contains(k) <==> (k < n && goes_with(prims, c, k as int)),
    decreases n,
{
    if n > 0 {
        lemma_owned_indices_members(prims, c, (n - 1) as nat);
        let pre = owned_indices(prims, c, (n - 1) as nat);
        let tail = if n - 1 == c || owner_of(prims[n - 1]) == c as i32 {
            seq![(n - 1) as usize]
        } else {
            Seq::<usize>::empty()
        };
        assert forall|k: usize| #[trigger] owned_indices(prims, c, n).contains(k) <==> (k < n && goes_with(
            prims,
            c,
            k as int,
        )) by {
            if owned_indices(prims, c, n).contains(k) {
                let j = choose|j: int| 0 <= j < owned_indices(prims, c, n).len() && owned_indices(prims, c, n)[j] == k;
                if j < pre.len() {
                    assert(pre[j] == k);
                    assert(pre.contains(k));
                } else {
                    assert(tail[j - pre.len()] == k);
                }
            }
            if k < n && goes_with(prims, c, k as int) {
                if k < n - 1 {
                    assert(pre.contains(k));
                    let j = choose|j: int| 0 <= j < pre.len() && pre[j] == k;
                    assert(owned_indices(prims, c, n)[j] == k);
                } else {
                    assert(owned_indices(prims, c, n)[pre.len() as int] == k);
                }
            }
        }
    }
}

/// Removing records keeps the others: the records below `n` that are not
/// removed are left.
pub proof fn lemma_without_upto_len(prims: Seq<SchRecord>, rm: Seq<usize>, n: nat)
    requires
        n <= prims.len(),
    ensures
        without_upto(prims, rm, n).len() == n - removed_below(rm, n),
        removed_below(rm, n) <= n,
    decreases n,
{
    if n > 0 {
        lemma_without_upto_len(prims, rm, (n - 1) as nat);
    }
}

/// The number of indices of `owned_indices` below `n` is its length.
proof fn lemma_owned_count(prims: Seq<SchRecord>, c: int, n: nat)
    requires
        n <= prims.len() <= usize::MAX,
    ensures
        removed_below(owned_indices(prims, c, prims.len()), n) == owned_indices(prims, c, n).len(),
    decreases n,
{
    lemma_owned_indices_members(prims, c, prims.len());
    if n > 0 {
        lemma_owned_count(prims, c, (n - 1) as nat);
        let k = (n - 1) as usize;
        assert(owned_indices(prims, c, prims.len()).contains(k) <==> goes_with(prims, c, k as int));
    }
}

/// Deleting a component removes it and exactly the records it owns: the
/// records left number the old count less one and less the records it
/// owned.
pub proof fn lemma_delete_component_count(prims: Seq<SchRecord>, c: int)
    requires
        0 <= c < prims.len() <= usize::MAX,
    ensures
        without(prims, owned_indices(prims, c, prims.len())).len() == prims.len() - owned_indices(
            prims,
            c,
            prims.len(),
        ).len(),
        owned_indices(prims, c, prims.len()).contains(c as usize),
        forall|k: usize| #[trigger]
            owned_indices(prims, c, prims.len()).contains(k) <==> (k < prims.len() && goes_with(prims, c, k as int)),
{
    lemma_owned_indices_members(prims, c, prims.len());
    lemma_without_upto_len(prims, owned_indices(prims, c, prims.len()), prims.len());
    lemma_owned_count(prims, c, prims.len());
    assert(goes_with(prims, c, c));
}

impl EditSession {
    /// Deletes a component with every record it owns; the remaining
    /// records' owner indices move down past the removed ones.
    pub fn delete_component(&mut self, index: usize) -> (r: Result<()>)
        requires
            old(self).spec_prims().len() <= i32::MAX,
        ensures
            !(index < old(self).spec_prims().len() && old(self).spec_prims()[index as int] is Component) ==> (r matches Err(
                AltiumError::Parse(m),
            ) && m@ == "Not a component"@ && *final(self) == *old(self)),
            (index < old(self).spec_prims().len() && old(self).spec_prims()[index as int] is Component) ==> {
                let prims = old(self).spec_prims();
                &&& r is Ok
                &&& final(self).spec_prims() == without(prims, owned_indices(prims, index as int, prims.len()))
                &&& EditSession::recorded_edit(*old(self), *final(self))
                &&& final(self).spec_history().last() matches EditOperation::RemoveComponent { index: i, designator: d }
                    && i == index && d@ == match designator_of_component(prims, index as int) {
                    Some(t) => t,
                    None => Seq::<char>::empty(),
                }
                &&& routing_refreshed(old(self).spec_routing(), final(self).spec_routing(), final(self).spec_prims())
            },
    {
        let is_component = index < self.doc.primitives.len() && match &self.doc.primitives[index] {
            SchRecord::Component(_) => true,
            _ => false,
        };
        if !is_component {
            return Err(AltiumError::Parse(text("Not a component")));
        }
        let designator = match self.find_designator(index) {
            Some(d) => d,
            None => String::new(),
        };
        let ghost prims = self.doc.primitives@;
        let n = self.doc.primitives.len();
        let owner = index as i32;
        let mut removed: Vec<usize> = Vec::new();
        let mut i: usize = 0;
        while i < n
            invariant
                n == prims.len(),
                n <= i32::MAX,
                prims == self.doc.primitives@,
                owner == index as i32,
                i <= n,
                removed@ == owned_indices(prims, index as int, i as nat),
                removed@.len() <= i,
                ascending_below(removed@, i as int),
            decreases n - i,
        {
            let o = owner_exec(&self.doc.primitives[i]);
            if i == index || o == owner {
                removed.push(i);
            }
            proof {
                assert forall|a: int, b: int| 0 <= a < b < removed@.len() implies removed@[a] < removed@[b] by {
                    if b == removed@.len() - 1 && removed@[b] == i {
                        assert(removed@[a] < i);
                    }
                }
            }
            i = i + 1;
        }
        self.remove_records(&removed);
        self.history.push(EditOperation::RemoveComponent { index, designator });
        self.redo_stack = Vec::new();
        self.modified = true;
        self.update_routing_obstacles();
        assert(self.history@.take(old(self).history@.len() as int) =~= old(self).history@);
        Ok(())
    }
}

/// The index of the first `true`, or the length when there is none.
pub open spec fn first_true(s: Seq<bool>) -> int
    decreases s.len(),
{
    if s.len() == 0 {
        0
    } else {
        let i = first_true(s.drop_last());
        if i < s.len() - 1 {
            i
        } else if s.last() {
            s.len() - 1
        } else {
            s.len() as int
        }
    }
}

/// One more element decides the first `true` when none came before.
proof fn lemma_first_true_step(s: Seq<bool>, k: int)
    requires
        0 <= k < s.len(),
        first_true(s.take(k)) == k,
    ensures
        first_true(s.take(k + 1)) == if s[k] {
            k
        } else {
            k + 1
        },
{
    assert(s.take(k + 1).drop_last() =~= s.take(k));
}

/// A first `true` found in a prefix stays the first.
proof fn lemma_first_true_found(s: Seq<bool>, m: int, n: int)
    requires
        0 <= m <= n <= s.len(),
        first_true(s.take(m)) < m,
    ensures
        first_true(s.take(n)) == first_true(s.take(m)),
    decreases n - m,
{
    if n > m {
        lemma_first_true_found(s, m, n - 1);
        assert(s.take(n).drop_last() =~= s.take(n - 1));
    }
}

/// The first `true` lies between zero and the length.
proof fn lemma_first_true_range(s: Seq<bool>)
    ensures
        0 <= first_true(s) <= s.len(),
    decreases s.len(),
{
    if s.len() > 0 {
        lemma_first_true_range(s.drop_last());
    }
}

/// The first `true`, when there is one, is `true`.
proof fn lemma_first_true_holds(s: Seq<bool>)
    requires
        first_true(s) < s.len(),
    ensures
        s[first_true(s)],
    decreases s.len(),
{
    if s.len() > 0 {
        let i = first_true(s.drop_last());
        if i < s.len() - 1 {
            lemma_first_true_holds(s.drop_last());
            lemma_first_true_range(s.drop_last());
            assert(s.drop_last()[i] == s[i]);
        }
    }
}

/// For each placed component, whether its designator is `d`.
pub open spec fn named_flags(prims: Seq<SchRecord>, d: Seq<char>) -> Seq<bool> {
    let cis = component_indices(prims, prims.len());
    Seq::new(cis.len(), |k: int| designator_text(prims, cis[k]) == d)
}

/// For each pin of component `c`, whether its designator or name is `pin`.
pub open spec fn pin_flags(prims: Seq<SchRecord>, c: int, pin: Seq<char>) -> Seq<bool> {
    let pins = owned_pins(prims, c, prims.len());
    Seq::new(pins.len(), |k: int| pins[k].designator@ == pin || pins[k].name@ == pin)
}

/// The indices of the bus records among the first `n`.
pub open spec fn bus_indices(prims: Seq<SchRecord>, n: nat) -> Seq<usize>
    decreases n,
{
    if n == 0 {
        Seq::empty()
    } else {
        bus_indices(prims, (n - 1) as nat) + if prims[n - 1] is Bus {
            seq![(n - 1) as usize]
        } else {
            Seq::<usize>::empty()
        }
    }
}

/// How close a point must come to a bus segment, 10 mils.
pub const BUS_TOLERANCE: i32 = 100000;

/// Whether a point lies on the segment from `a` to `b`.
pub open spec fn on_window(a: (i32, i32), b: (i32, i32), x: int, y: int) -> bool {
    &&& min_int(a.0 as int, b.0 as int) <= x <= max_int(a.0 as int, b.0 as int)
    &&& min_int(a.1 as int, b.1 as int) <= y <= max_int(a.1 as int, b.1 as int)
    &&& (x - a.0) * (b.1 - a.1) == (y - a.1) * (b.0 - a.0)
}

/// Whether a point lies on the segment from `a` to `b`, or within the
/// tolerance of it when the segment is vertical or horizontal.
pub open spec fn near_window(a: (i32, i32), b: (i32, i32), x: int, y: int) -> bool {
    ||| on_window(a, b, x, y)
    ||| a.0 == b.0 && abs_int(x - a.0) < BUS_TOLERANCE && min_int(a.1 as int, b.1 as int) - BUS_TOLERANCE <= y
        <= max_int(a.1 as int, b.1 as int) + BUS_TOLERANCE
    ||| a.1 == b.1 && abs_int(y - a.1) < BUS_TOLERANCE && min_int(a.0 as int, b.0 as int) - BUS_TOLERANCE <= x
        <= max_int(a.0 as int, b.0 as int) + BUS_TOLERANCE
}

/// Whether a point lies on or near one of a bus's segments.
pub open spec fn near_bus(vs: Seq<(i32, i32)>, x: int, y: int) -> bool {
    exists|k: int| 0 <= k < vs.len() - 1 && near_window(#[trigger] vs[k], vs[k + 1], x, y)
}

/// For each record, whether it is a bus near the point.
pub open spec fn bus_flags(prims: Seq<SchRecord>, x: int, y: int) -> Seq<bool> {
    Seq::new(prims.len(), |i: int| prims[i] matches SchRecord::Bus(b) && near_bus(b.vertices@, x, y))
}

/// Whether a point lies on or near the segment from `a` to `b`.
fn near_window_exec(a: (i32, i32), b: (i32, i32), x: i32, y: i32) -> (r: bool)
    ensures
        r == near_window(a, b, x as int, y as int),
{
    let (x1, y1) = (a.0 as i64, a.1 as i64);
    let (x2, y2) = (b.0 as i64, b.1 as i64);
    let (px, py) = (x as i64, y as i64);
    let (lo_x, hi_x) = if x1 <= x2 { (x1, x2) } else { (x2, x1) };
    let (lo_y, hi_y) = if y1 <= y2 { (y1, y2) } else { (y2, y1) };
    let t = BUS_TOLERANCE as i64;
    let in_box = lo_x <= px && px <= hi_x && lo_y <= py && py <= hi_y;
    let ax: i128 = (px - x1) as i128;
    let ay: i128 = (py - y1) as i128;
    let bx: i128 = (x2 - x1) as i128;
    let by: i128 = (y2 - y1) as i128;
    assert(-0x1_0000_0000_0000_0000 <= ax * by <= 0x1_0000_0000_0000_0000) by (nonlinear_arith)
        requires
            -0x1_0000_0000 <= ax <= 0x1_0000_0000,
            -0x1_0000_0000 <= by <= 0x1_0000_0000,
    ;
    assert(-0x1_0000_0000_0000_0000 <= ay * bx <= 0x1_0000_0000_0000_0000) by (nonlinear_arith)
        requires
            -0x1_0000_0000 <= ay <= 0x1_0000_0000,
            -0x1_0000_0000 <= bx <= 0x1_0000_0000,
    ;
    let on = in_box && ax * by == ay * bx;
    if on {
        return true;
    }
    let dxa = if px - x1 < 0 { x1 - px } else { px - x1 };
    let dya = if py - y1 < 0 { y1 - py } else { py - y1 };
    if x1 == x2 && dxa < t && lo_y - t <= py && py <= hi_y + t {
        return true;
    }
    if y1 == y2 && dya < t && lo_x - t <= px && px <= hi_x + t {
        return true;
    }
    false
}

/// Whether a point lies on or near one of a bus's segments.
fn near_bus_exec(vs: &Vec<(i32, i32)>, x: i32, y: i32) -> (r: bool)
    ensures
        r == near_bus(vs@, x as int, y as int),
{
    if vs.len() < 2 {
        return false;
    }
    let mut k: usize = 0;
    let last = vs.len() - 1;
    while k < last
        invariant
            vs@.len() >= 2,
            last == vs@.len() - 1,
            k <= vs@.len() - 1,
            forall|m: int| 0 <= m < k ==> !near_window(#[trigger] vs@[m], vs@[m + 1], x as int, y as int),
        decreases vs@.len() - k,
    {
        if near_window_exec(vs[k], vs[k + 1], x, y) {
            return true;
        }
        k = k + 1;
    }
    false
}

impl EditSession {
    /// The bus records with their indices, in order.
    pub fn find_buses(&self) -> (r: Vec<(usize, &SchBus)>)
        ensures
            r@.len() == bus_indices(self.spec_prims(), self.spec_prims().len()).len(),
            forall|k: int|
                0 <= k < r@.len() ==> (#[trigger] r@[k]).0 == bus_indices(self.spec_prims(), self.spec_prims().len())[k]
                    && self.spec_prims()[r@[k].0 as int] == SchRecord::Bus(*r@[k].1),
    {
        let prims = &self.doc.primitives;
        let mut out: Vec<(usize, &SchBus)> = Vec::new();
        let mut i: usize = 0;
        while i < prims.len()
            invariant
                i <= prims@.len(),
                prims@ == self.doc.primitives@,
                out@.len() == bus_indices(prims@, i as nat).len(),
                forall|k: int|
                    0 <= k < out@.len() ==> (#[trigger] out@[k]).0 == bus_indices(prims@, i as nat)[k] && prims@[out@[k].0 as int]
                        == SchRecord::Bus(*out@[k].1),
            decreases prims@.len() - i,
        {
            match &prims[i] {
                SchRecord::Bus(b) => {
                    out.push((i, b));
                },
                _ => {},
            }
            i = i + 1;
        }
        out
    }

    /// The first bus a point lies on or near, with its index.
    pub fn find_bus_at(&self, point: CoordPoint) -> (r: Option<(usize, &SchBus)>)
        ensures
            ({
                let flags = bus_flags(self.spec_prims(), point.x.raw as int, point.y.raw as int);
                let i = first_true(flags);
                match r {
                    Some((idx, b)) => idx == i && i < flags.len() && self.spec_prims()[i] == SchRecord::Bus(*b),
                    None => i == flags.len(),
                }
            }),
    {
        let prims = &self.doc.primitives;
        let ghost flags = bus_flags(prims@, point.x.raw as int, point.y.raw as int);
        let mut i: usize = 0;
        while i < prims.len()
            invariant
                i <= prims@.len(),
                prims@ == self.doc.primitives@,
                flags == bus_flags(prims@, point.x.raw as int, point.y.raw as int),
                first_true(flags.take(i as int)) == i,
            decreases prims@.len() - i,
        {
            proof {
                lemma_first_true_step(flags, i as int);
            }
            match &prims[i] {
                SchRecord::Bus(b) => {
                    if near_bus_exec(&b.vertices, point.x.raw, point.y.raw) {
                        proof {
                            lemma_first_true_found(flags, i + 1, flags.len() as int);
                            assert(flags.take(flags.len() as int) =~= flags);
                        }
                        return Some((i, b));
                    }
                },
                _ => {},
            }
            i = i + 1;
        }
        assert(flags.take(i as int) =~= flags);
        None
    }
}

/// The rectangle with the given corners.
pub open spec fn rect_of(b: (int, int, int, int)) -> CoordRect {
    CoordRect {
        location1: CoordPoint { x: Coord { raw: b.0 as i32 }, y: Coord { raw: b.1 as i32 } },
        location2: CoordPoint { x: Coord { raw: b.2 as i32 }, y: Coord { raw: b.3 as i32 } },
    }
}

/// The bounds of the first placed component with the designator, when
/// there is one.
pub open spec fn component_bounds_of(prims: Seq<SchRecord>, d: Seq<char>) -> Option<CoordRect> {
    let cis = component_indices(prims, prims.len());
    let k = first_true(named_flags(prims, d));
    if k < cis.len() {
        Some(rect_of(component_box(prims, cis[k], component_at(prims, cis[k]))))
    } else {
        None
    }
}

/// The first pin, by designator or name, of the first placed component
/// with the designator. `Err(true)` when there is no such component,
/// `Err(false)` when it has no such pin.
pub open spec fn found_pin(prims: Seq<SchRecord>, component: Seq<char>, pin: Seq<char>) -> core::result::Result<SchPin, bool> {
    let cis = component_indices(prims, prims.len());
    let k = first_true(named_flags(prims, component));
    if k >= cis.len() {
        Err(true)
    } else {
        let pins = owned_pins(prims, cis[k], prims.len());
        let m = first_true(pin_flags(prims, cis[k], pin));
        if m >= pins.len() {
            Err(false)
        } else {
            Ok(pins[m])
        }
    }
}

/// Where the hot end of that pin lies.
pub open spec fn pin_location_of(prims: Seq<SchRecord>, component: Seq<char>, pin: Seq<char>) -> core::result::Result<(int, int), bool> {
    match found_pin(prims, component, pin) {
        Ok(p) => Ok(pin_endpoint(p)),
        Err(b) => Err(b),
    }
}

/// The junction record for a point snapped to the grid.
pub open spec fn junction_record(g: Grid, p: (int, int)) -> SchRecord {
    let s = snapped(g, CoordPoint { x: Coord { raw: p.0 as i32 }, y: Coord { raw: p.1 as i32 } });
    SchRecord::Junction(SchJunction { location_x: s.x.raw, location_y: s.y.raw })
}

impl EditSession {
    /// The position, among the placed components, of the first with the
    /// designator.
    fn find_named(&self, placed: &Vec<PlacedComponent>, designator: &str) -> (k: usize)
        requires
            placed@.len() == component_indices(self.doc.primitives@, self.doc.primitives@.len()).len(),
            forall|m: int|
                0 <= m < placed@.len() ==> placed_ok(
                    #[trigger] placed@[m],
                    self.doc.primitives@,
                    component_indices(self.doc.primitives@, self.doc.primitives@.len())[m],
                ),
        ensures
            k == first_true(named_flags(self.doc.primitives@, designator@)),
    {
        let ghost flags = named_flags(self.doc.primitives@, designator@);
        let mut k: usize = 0;
        while k < placed.len()
            invariant
                k <= placed@.len(),
                flags == named_flags(self.doc.primitives@, designator@),
                flags.len() == placed@.len(),
                forall|m: int|
                    0 <= m < placed@.len() ==> placed_ok(
                        #[trigger] placed@[m],
                        self.doc.primitives@,
                        component_indices(self.doc.primitives@, self.doc.primitives@.len())[m],
                    ),
                first_true(flags.take(k as int)) == k,
            decreases placed@.len() - k,
        {
            proof {
                lemma_first_true_step(flags, k as int);
                assert(placed_ok(placed@[k as int], self.doc.primitives@, component_indices(self.doc.primitives@, self.doc.primitives@.len())[k as int]));
            }
            if same_text(placed[k].designator.as_str(), designator) {
                proof {
                    lemma_first_true_found(flags, k + 1, flags.len() as int);
                    assert(flags.take(flags.len() as int) =~= flags);
                }
                return k;
            }
            k = k + 1;
        }
        assert(flags.take(k as int) =~= flags);
        k
    }

    /// The bounds of the first placed component with the designator.
    fn find_component_bounds(&self, designator: &str) -> (r: Option<CoordRect>)
        requires
            anchors_fit(self.doc.primitives@),
            squares_fit(self.doc.primitives@),
        ensures
            r == component_bounds_of(self.doc.primitives@, designator@),
    {
        let placed = self.layout.get_placed_components(self.doc.primitives.as_slice());
        let k = self.find_named(&placed, designator);
        if k < placed.len() {
            let b = placed[k].bounds;
            assert(b == rect_of(rect_view(b)));
            Some(b)
        } else {
            None
        }
    }

    /// Where a pin's hot end lies, and which way the pin faces: the first pin,
    /// by designator or name, of the first placed component with the
    /// designator.
    fn find_pin_location(&self, component: &str, pin: &str) -> (r: Result<(CoordPoint, Direction)>)
        requires
            anchors_fit(self.doc.primitives@),
            squares_fit(self.doc.primitives@),
        ensures
            match found_pin(self.doc.primitives@, component@, pin@) {
                Ok(sp) => r matches Ok((p, dir)) && pt(p) == pin_endpoint(sp) && dir == pin_direction(sp),
                Err(true) => r matches Err(AltiumError::Parse(m)) && m@ == "Component not found: "@ + component@,
                Err(false) => r matches Err(AltiumError::Parse(m)) && m@ == "Pin not found: "@ + component@ + "."@ + pin@,
            },
    {
        let placed = self.layout.get_placed_components(self.doc.primitives.as_slice());
        let k = self.find_named(&placed, component);
        if k >= placed.len() {
            return Err(AltiumError::Parse(text2("Component not found: ", component)));
        }
        let ghost prims = self.doc.primitives@;
        let ghost c = component_indices(prims, prims.len())[k as int];
        let ghost pins = owned_pins(prims, c, prims.len());
        let ghost flags = pin_flags(prims, c, pin@);
        assert(placed_ok(placed@[k as int], prims, c));
        let locs = &placed[k].pin_locations;
        let mut m: usize = 0;
        while m < locs.len()
            invariant
                prims == self.doc.primitives@,
                k == first_true(named_flags(prims, component@)),
                k < component_indices(prims, prims.len()).len(),
                c == component_indices(prims, prims.len())[k as int],
                locs@.len() == pins.len(),
                flags == pin_flags(prims, c, pin@),
                pins == owned_pins(prims, c, prims.len()),
                forall|j: int| 0 <= j < locs@.len() ==> pin_reported(#[trigger] locs@[j], pins[j]),
                m <= locs@.len(),
                first_true(flags.take(m as int)) == m,
            decreases locs@.len() - m,
        {
            proof {
                lemma_first_true_step(flags, m as int);
                assert(pin_reported(locs@[m as int], pins[m as int]));
            }
            if same_text(locs[m].designator.as_str(), pin) || same_text(locs[m].name.as_str(), pin) {
                proof {
                    lemma_first_true_found(flags, m + 1, flags.len() as int);
                    assert(flags.take(flags.len() as int) =~= flags);
                }
                return Ok((locs[m].location, locs[m].direction));
            }
            m = m + 1;
        }
        assert(flags.take(m as int) =~= flags);
        let head = text3("Pin not found: ", component, ".");
        Err(AltiumError::Parse(text2(head.as_str(), pin)))
    }

    /// Adds a library, parsed from the file at `path`, unless one from that
    /// path is loaded.
    pub fn load_library(&mut self, path: &str, lib: crate::edit::library::SchLib) -> (r: Result<()>)
        ensures
            r is Ok,
            final(self).spec_prims() == old(self).spec_prims(),
            final(self).spec_history() == old(self).spec_history(),
            final(self).spec_routing() == old(self).spec_routing(),
            crate::edit::library::library_index(old(self).spec_library().spec_libraries(), path@)
                < old(self).spec_library().spec_libraries().len() ==> final(self).spec_library().spec_libraries()
                == old(self).spec_library().spec_libraries(),
            crate::edit::library::library_index(old(self).spec_library().spec_libraries(), path@)
                == old(self).spec_library().spec_libraries().len() ==> final(self).spec_library().spec_libraries()
                == old(self).spec_library().spec_libraries().push(final(self).spec_library().spec_libraries().last())
                && final(self).spec_library().spec_libraries().last().0@ == path@
                && final(self).spec_library().spec_libraries().last().1 == lib,
    {
        let r = self.library.load_library(path, lib);
        proof {
            let old_libs = old(self).library.spec_libraries();
            let new_libs = self.library.spec_libraries();
            if crate::edit::library::library_index(old_libs, path@) == old_libs.len() {
                assert(new_libs =~= old_libs.push(new_libs.last()));
            }
        }
        r
    }

    /// The sheet's netlist.
    pub fn build_netlist(&self) -> (r: Netlist)
        requires
            endpoints_fit(self.spec_prims()),
        ensures
            nets_view(r.nets@) == sort_names(schematic_nets(self.spec_prims(), self.spec_netlist_builder().spec_tolerance())),
    {
        self.netlist_builder.build(self.doc.primitives.as_slice())
    }

    /// The pins no other point connects to, as (designator, pin, location).
    pub fn find_unconnected_pins(&self) -> (r: Vec<(String, String, (i32, i32))>)
        requires
            endpoints_fit(self.spec_prims()),
        ensures
            r@.map_values(|t: (String, String, (i32, i32))| report_view(t)) == unconnected_of(
                sort_names(schematic_nets(self.spec_prims(), self.spec_netlist_builder().spec_tolerance())),
            ),
    {
        self.netlist_builder.find_unconnected_pins(self.doc.primitives.as_slice())
    }

    /// The wire ends where three or more wire connections meet without a
    /// junction.
    pub fn find_missing_junctions(&self) -> (r: Vec<(i32, i32)>)
        ensures
            r@.map_values(|p: (i32, i32)| loc_view(p)) == missing_junctions(
                self.spec_prims(),
                self.spec_netlist_builder().spec_tolerance(),
            ),
    {
        self.netlist_builder.find_missing_junctions(self.doc.primitives.as_slice())
    }

    /// Adds a junction at every missing junction point, giving how many.
    pub fn add_missing_junctions(&mut self) -> (r: Result<usize>)
        requires
            forall|k: int|
                0 <= k < missing_junctions(old(self).spec_prims(), old(self).spec_netlist_builder().spec_tolerance()).len()
                    ==> {
                    let p = #[trigger] missing_junctions(
                        old(self).spec_prims(),
                        old(self).spec_netlist_builder().spec_tolerance(),
                    )[k];
                    old(self).spec_layout().spec_grid().can_snap_raw(p.0) && old(self).spec_layout().spec_grid().can_snap_raw(
                        p.1,
                    )
                },
        ensures
            ({
                let ms = missing_junctions(old(self).spec_prims(), old(self).spec_netlist_builder().spec_tolerance());
                let g = old(self).spec_layout().spec_grid();
                &&& r == Ok::<usize, AltiumError>(ms.len() as usize)
                &&& final(self).spec_prims() == old(self).spec_prims() + ms.map_values(
                    |p: (int, int)| junction_record(g, p),
                )
                &&& final(self).spec_history().len() == old(self).spec_history().len() + ms.len()
                &&& final(self).spec_history().take(old(self).spec_history().len() as int) == old(self).spec_history()
                &&& ms.len() > 0 ==> final(self).spec_redo_len() == 0 && final(self).spec_modified()
                &&& ms.len() == 0 ==> *final(self) == *old(self)
                &&& final(self).spec_routing() == old(self).spec_routing()
                &&& final(self).spec_layout() == old(self).spec_layout()
                &&& final(self).spec_netlist_builder() == old(self).spec_netlist_builder()
            }),
    {
        let missing = self.find_missing_junctions();
        let ghost ms = missing_junctions(self.doc.primitives@, self.netlist_builder.spec_tolerance());
        let ghost g = self.layout.spec_grid();
        let ghost old_prims = self.doc.primitives@;
        let ghost old_hist = self.history@;
        let mut k: usize = 0;
        while k < missing.len()
            invariant
                missing@.map_values(|p: (i32, i32)| loc_view(p)) == ms,
                g == self.layout.spec_grid(),
                g == old(self).layout.spec_grid(),
                forall|j: int| 0 <= j < ms.len() ==> g.can_snap_raw((#[trigger] ms[j]).0) && g.can_snap_raw(ms[j].1),
                k <= missing@.len(),
                self.doc.primitives@ == old_prims + ms.take(k as int).map_values(|p: (int, int)| junction_record(g, p)),
                self.history@.len() == old_hist.len() + k,
                self.history@.take(old_hist.len() as int) == old_hist,
                old_hist == old(self).history@,
                old_prims == old(self).doc.primitives@,
                k > 0 ==> self.redo_stack@.len() == 0 && self.modified,
                k == 0 ==> *self == *old(self),
                self.routing == old(self).routing,
                self.layout == old(self).layout,
                self.netlist_builder == old(self).netlist_builder,
            decreases missing@.len() - k,
        {
            let (x, y) = missing[k];
            assert(ms[k as int] == (x as int, y as int));
            let ghost before = self.doc.primitives@;
            let ghost hist_before = self.history@;
            let _ = self.add_junction(CoordPoint { x: Coord { raw: x }, y: Coord { raw: y } });
            proof {
                assert(ms.take(k + 1).map_values(|p: (int, int)| junction_record(g, p)) =~= ms.take(k as int).map_values(
                    |p: (int, int)| junction_record(g, p),
                ).push(junction_record(g, ms[k as int])));
                assert(self.history@.take(old_hist.len() as int) =~= hist_before.take(old_hist.len() as int));
            }
            k = k + 1;
        }
        assert(ms.take(k as int) =~= ms);
        Ok(k)
    }
}

/// The obstacles a routing engine brought up to date with the sheet has:
/// each component's bounds shrunk by the margin, in record order.
pub open spec fn sheet_obstacles(prims: Seq<SchRecord>) -> Seq<CoordRect> {
    let cis = component_indices(prims, prims.len());
    Seq::new(
        cis.len(),
        |k: int| rect_of(expand(component_box(prims, cis[k], component_at(prims, cis[k])), -OBSTACLE_MARGIN)),
    )
}

/// A routing engine brought up to date with the sheet has the sheet's
/// obstacles.
proof fn lemma_synced_obstacles(r: RoutingEngine, prims: Seq<SchRecord>)
    requires
        routing_synced(r, prims),
    ensures
        r.spec_obstacles() == sheet_obstacles(prims),
{
    let o = r.spec_obstacles();
    let so = sheet_obstacles(prims);
    assert forall|k: int| 0 <= k < o.len() implies o[k] == so[k] by {
        assert(o[k] == rect_of(rect_view(o[k])));
    }
    assert(o =~= so);
}

/// The junction records for points, in order, of those that can be
/// snapped to the grid.
pub open spec fn junction_records(g: Grid, js: Seq<CoordPoint>) -> Seq<SchRecord>
    decreases js.len(),
{
    if js.len() == 0 {
        Seq::empty()
    } else {
        junction_records(g, js.drop_last()) + if snappable(g, js.last()) {
            seq![
                SchRecord::Junction(
                    SchJunction { location_x: snapped(g, js.last()).x.raw, location_y: snapped(g, js.last()).y.raw },
                ),
            ]
        } else {
            Seq::<SchRecord>::empty()
        }
    }
}

/// Whether an edit left the sheet, history and engines as they were, but
/// for the routing engine.
pub open spec fn only_routing_changed(old: EditSession, new: EditSession) -> bool {
    &&& new.spec_prims() == old.spec_prims()
    &&& new.spec_history() == old.spec_history()
    &&& new.spec_redo_len() == old.spec_redo_len()
    &&& new.spec_modified() == old.spec_modified()
    &&& new.spec_layout() == old.spec_layout()
    &&& new.spec_library() == old.spec_library()
    &&& new.spec_netlist_builder() == old.spec_netlist_builder()
    &&& new.spec_source_path() == old.spec_source_path()
}

/// What routing a wire from `start` to `end` does: the routing engine is
/// brought up to date with the sheet, a route is sought around its
/// obstacles other than the excluded ones, and a found route becomes a
/// wire, followed by a junction at each point where it meets the wires
/// (in order of x, then y; points that cannot be snapped are left out).
pub open spec fn wire_routed(
    old: EditSession,
    new: EditSession,
    start: CoordPoint,
    end: CoordPoint,
    ex: Seq<CoordRect>,
    r: Result<usize>,
) -> bool {
    let prims = old.spec_prims();
    let g = old.spec_routing().spec_grid();
    let lg = old.spec_layout().spec_grid();
    let obs = kept_obstacles(sheet_obstacles(prims), ex, sheet_obstacles(prims).len());
    let n = prims.len() as int;
    exists|res: Option<RoutingPath>|
        route_ok(g.spacing.raw as int, obs, snapped(g, start), snapped(g, end), res) && match res {
            None => r matches Err(AltiumError::Parse(m)) && m@ == "No route found"@ && only_routing_changed(old, new)
                && routing_synced(new.spec_routing(), prims),
            Some(p) => if p.segments@.len() == 0 {
                r matches Err(AltiumError::Parse(m)) && m@ == "Empty route"@ && only_routing_changed(old, new)
                    && routing_synced(new.spec_routing(), prims)
            } else if !all_snappable(lg, path_vertices(p.segments@)) {
                r matches Err(AltiumError::Parse(m)) && m@ == "Route leaves the coordinate range"@ && only_routing_changed(
                    old,
                    new,
                ) && routing_synced(new.spec_routing(), prims)
            } else {
                &&& r == Ok::<usize, AltiumError>(n as usize)
                &&& new.spec_prims().len() > n
                &&& new.spec_prims().take(n as int) == prims
                &&& new.spec_prims()[n as int] matches SchRecord::Wire(w) && w.vertices@ == snapped_pairs(
                    lg,
                    path_vertices(p.segments@),
                )
                &&& exists|js: Seq<CoordPoint>|
                    strictly_sorted(js) && (forall|q: CoordPoint|
                        js.contains(q) <==> is_junction(p.segments@, new.spec_routing().spec_wires(), q))
                        && new.spec_prims().skip(n + 1int) == junction_records(lg, js)
                &&& new.spec_history().len() > old.spec_history().len()
                &&& new.spec_history().take(old.spec_history().len() as int) == old.spec_history()
                &&& new.spec_history()[old.spec_history().len() as int] == (EditOperation::AddWire { index: n as usize })
                &&& new.spec_redo_len() == 0
                &&& new.spec_modified()
                &&& new.spec_layout() == old.spec_layout()
                &&& new.spec_library() == old.spec_library()
                &&& new.spec_netlist_builder() == old.spec_netlist_builder()
                &&& new.spec_source_path() == old.spec_source_path()
                &&& new.spec_routing().spec_grid() == g
                &&& sheet_fits(new.spec_prims().take(n + 1int)) ==> routing_synced(new.spec_routing(), new.spec_prims().take(n + 1int))
                &&& !sheet_fits(new.spec_prims().take(n + 1int)) ==> routing_synced(new.spec_routing(), prims)
            },
        }
}

/// The excluded bounds of two components: those of each that is placed.
pub open spec fn bounds_pair(prims: Seq<SchRecord>, c1: Seq<char>, c2: Seq<char>) -> Seq<CoordRect> {
    (match component_bounds_of(prims, c1) {
        Some(b) => seq![b],
        None => Seq::<CoordRect>::empty(),
    }) + match component_bounds_of(prims, c2) {
        Some(b) => seq![b],
        None => Seq::<CoordRect>::empty(),
    }
}

/// A point from integer coordinates.
pub open spec fn point_of(l: (int, int)) -> CoordPoint {
    CoordPoint { x: Coord { raw: l.0 as i32 }, y: Coord { raw: l.1 as i32 } }
}

impl EditSession {
    /// Whether every point can be snapped to the placement grid.
    fn all_snappable_exec(&self, vs: &Vec<CoordPoint>) -> (r: bool)
        ensures
            r == all_snappable(self.layout.spec_grid(), vs@),
    {
        let g = self.layout.grid();
        let mut i: usize = 0;
        while i < vs.len()
            invariant
                *g == self.layout.spec_grid(),
                i <= vs@.len(),
                forall|k: int| 0 <= k < i ==> snappable(*g, #[trigger] vs@[k]),
            decreases vs@.len() - i,
        {
            if !g.can_snap_value(vs[i].x.raw) || !g.can_snap_value(vs[i].y.raw) {
                return false;
            }
            i = i + 1;
        }
        true
    }

    /// Routes a wire from `start` to `end` around the obstacles other than
    /// the excluded rectangles, adding junctions where it meets wires.
    #[verifier::rlimit(60)]
    pub fn route_wire_excluding(&mut self, start: CoordPoint, end: CoordPoint, exclude_rects: &[CoordRect]) -> (r: Result<usize>)
        requires
            sheet_fits(old(self).spec_prims()),
            snappable(old(self).spec_routing().spec_grid(), start),
            snappable(old(self).spec_routing().spec_grid(), end),
        ensures
            wire_routed(*old(self), *final(self), start, end, exclude_rects@, r),
    {
        let ghost prims = self.doc.primitives@;
        let ghost g = self.routing.spec_grid();
        let ghost lg = self.layout.spec_grid();
        let ghost n = prims.len() as int;
        self.routing.update_obstacles(self.doc.primitives.as_slice(), &self.layout);
        proof {
            lemma_synced_obstacles(self.routing, prims);
        }
        let found = self.routing.route_excluding(start, end, exclude_rects);
        let ghost obs = kept_obstacles(sheet_obstacles(prims), exclude_rects@, sheet_obstacles(prims).len());
        let path = match found {
            Some(p) => p,
            None => {
                assert(route_ok(g.spacing.raw as int, obs, snapped(g, start), snapped(g, end), found));
                return Err(AltiumError::Parse(text("No route found")));
            },
        };
        assert(route_ok(g.spacing.raw as int, obs, snapped(g, start), snapped(g, end), Some(path)));
        let vertices = path.vertices();
        if vertices.len() == 0 {
            return Err(AltiumError::Parse(text("Empty route")));
        }
        if !self.all_snappable_exec(&vertices) {
            return Err(AltiumError::Parse(text("Route leaves the coordinate range")));
        }
        let ghost hist0 = self.history@;
        let index = match self.add_wire(vertices.as_slice()) {
            Ok(i) => i,
            Err(e) => {
                return Err(e);
            },
        };
        let ghost prims1 = self.doc.primitives@;
        let ghost hist1 = self.history@;
        let ghost routing2 = self.routing;
        let junctions = self.routing.find_junctions(&path);
        let ghost js = junctions@;
        let mut k: usize = 0;
        while k < junctions.len()
            invariant
                js == junctions@,
                lg == self.layout.spec_grid(),
                k <= js.len(),
                prims1.len() == n + 1,
                self.doc.primitives@ == prims1 + junction_records(lg, js.take(k as int)),
                self.history@.len() >= hist1.len(),
                self.history@.take(hist1.len() as int) == hist1,
                self.redo_stack@.len() == 0,
                self.modified,
                self.routing == routing2,
                self.layout == old(self).layout,
                self.library == old(self).library,
                self.netlist_builder == old(self).netlist_builder,
                self.spec_source_path() == old(self).spec_source_path(),
            decreases js.len() - k,
        {
            let q = junctions[k];
            let ghost before = self.doc.primitives@;
            let ghost hb = self.history@;
            assert(js.take(k + 1).drop_last() =~= js.take(k as int));
            if self.layout.grid().can_snap_value(q.x.raw) && self.layout.grid().can_snap_value(q.y.raw) {
                let _ = self.add_junction(q);
                assert(self.history@.take(hist1.len() as int) =~= hb.take(hist1.len() as int));
            }
            k = k + 1;
        }
        proof {
            assert(js.take(k as int) =~= js);
            assert(self.doc.primitives@.take(n as int) =~= prims);
            assert(self.doc.primitives@.take(n + 1int) =~= prims1);
            assert(self.doc.primitives@.skip(n + 1int) =~= junction_records(lg, js));
            assert(self.history@.take(hist0.len() as int) =~= hist0);
            assert(self.history@[hist0.len() as int] == hist1[hist0.len() as int]);
            assert(strictly_sorted(js));
            assert(forall|q: CoordPoint| js.contains(q) <==> is_junction(path.segments@, self.spec_routing().spec_wires(), q));
            assert(self.spec_prims().skip(n + 1int) == junction_records(lg, js));
        }
        Ok(index)
    }
}

impl EditSession {
    /// Routes a wire from `start` to `end` around all obstacles, adding
    /// junctions where it meets wires.
    pub fn route_wire(&mut self, start: CoordPoint, end: CoordPoint) -> (r: Result<usize>)
        requires
            sheet_fits(old(self).spec_prims()),
            snappable(old(self).spec_routing().spec_grid(), start),
            snappable(old(self).spec_routing().spec_grid(), end),
        ensures
            wire_routed(*old(self), *final(self), start, end, Seq::empty(), r),
    {
        let none: Vec<CoordRect> = Vec::new();
        self.route_wire_excluding(start, end, none.as_slice())
    }

    /// Connects two pins, each named by component designator and pin
    /// designator or name, with a routed wire; the two components' bodies
    /// do not count as obstacles.
    pub fn connect_pins(&mut self, component1: &str, pin1: &str, component2: &str, pin2: &str) -> (r: Result<usize>)
        requires
            sheet_fits(old(self).spec_prims()),
            pin_location_of(old(self).spec_prims(), component1@, pin1@) matches Ok(l) ==> snappable(
                old(self).spec_routing().spec_grid(),
                point_of(l),
            ),
            pin_location_of(old(self).spec_prims(), component2@, pin2@) matches Ok(l) ==> snappable(
                old(self).spec_routing().spec_grid(),
                point_of(l),
            ),
        ensures
            ({
                let prims = old(self).spec_prims();
                match (pin_location_of(prims, component1@, pin1@), pin_location_of(prims, component2@, pin2@)) {
                    (Err(true), _) => r matches Err(AltiumError::Parse(m)) && m@ == "Component not found: "@ + component1@
                        && *final(self) == *old(self),
                    (Err(false), _) => r matches Err(AltiumError::Parse(m)) && m@ == "Pin not found: "@ + component1@ + "."@
                        + pin1@ && *final(self) == *old(self),
                    (Ok(_), Err(true)) => r matches Err(AltiumError::Parse(m)) && m@ == "Component not found: "@ + component2@
                        && *final(self) == *old(self),
                    (Ok(_), Err(false)) => r matches Err(AltiumError::Parse(m)) && m@ == "Pin not found: "@ + component2@
                        + "."@ + pin2@ && *final(self) == *old(self),
                    (Ok(l1), Ok(l2)) => wire_routed(
                        *old(self),
                        *final(self),
                        point_of(l1),
                        point_of(l2),
                        bounds_pair(prims, component1@, component2@),
                        r,
                    ),
                }
            }),
    {
        let loc1 = match self.find_pin_location(component1, pin1) {
            Ok(l) => l.0,
            Err(e) => {
                return Err(e);
            },
        };
        let loc2 = match self.find_pin_location(component2, pin2) {
            Ok(l) => l.0,
            Err(e) => {
                return Err(e);
            },
        };
        let mut exclude_rects: Vec<CoordRect> = Vec::new();
        let b1 = self.find_component_bounds(component1);
        match b1 {
            Some(b) => exclude_rects.push(b),
            None => {},
        }
        let b2 = self.find_component_bounds(component2);
        match b2 {
            Some(b) => exclude_rects.push(b),
            None => {},
        }
        assert(exclude_rects@ =~= bounds_pair(self.doc.primitives@, component1@, component2@));
        assert(loc1 == point_of(pt(loc1)));
        assert(loc2 == point_of(pt(loc2)));
        self.route_wire_excluding(loc1, loc2, exclude_rects.as_slice())
    }
}

/// A one-line description of an edit.
pub open spec fn op_text(op: EditOperation) -> Seq<char> {
    match op {
        EditOperation::AddComponent { designator, .. } => "Add component "@ + designator@,
        EditOperation::RemoveComponent { designator, .. } => "Remove component "@ + designator@,
        EditOperation::MoveComponent { index, .. } => "Move component at index "@ + decimal_text(index as nat),
        EditOperation::AddWire { .. } => "Add wire"@,
        EditOperation::RemoveWire { .. } => "Remove wire"@,
        EditOperation::AddJunction { .. } => "Add junction"@,
        EditOperation::AddNetLabel { net_name, .. } => "Add net label "@ + net_name@,
        EditOperation::AddPowerPort { net_name, .. } => "Add power port "@ + net_name@,
        EditOperation::Batch { operations } => "Batch ("@ + decimal_text(operations@.len()) + " operations)"@,
    }
}

/// A one-line description of an edit.
fn op_text_exec(op: &EditOperation) -> (r: String)
    ensures
        r@ == op_text(*op),
{
    match op {
        EditOperation::AddComponent { designator, .. } => text2("Add component ", designator.as_str()),
        EditOperation::RemoveComponent { designator, .. } => text2("Remove component ", designator.as_str()),
        EditOperation::MoveComponent { index, .. } => {
            let n = usize_text(*index);
            text2("Move component at index ", n.as_str())
        },
        EditOperation::AddWire { .. } => text("Add wire"),
        EditOperation::RemoveWire { .. } => text("Remove wire"),
        EditOperation::AddJunction { .. } => text("Add junction"),
        EditOperation::AddNetLabel { net_name, .. } => text2("Add net label ", net_name.as_str()),
        EditOperation::AddPowerPort { net_name, .. } => text2("Add power port ", net_name.as_str()),
        EditOperation::Batch { operations } => {
            let n = usize_text(operations.len());
            text3("Batch (", n.as_str(), " operations)")
        },
    }
}

impl EditSession {
    /// Places a library component at a location with an orientation and a
    /// designator (the next free one with the component's prefix when none
    /// is given), recording the edit under its designator.
    pub fn add_component(
        &mut self,
        lib_reference: &str,
        location: CoordPoint,
        orientation: Orientation,
        designator: Option<&str>,
    ) -> (r: Result<usize>)
        requires
            can_instantiate(old(self).spec_library(), lib_reference@, location, orientation, designator),
        ensures
            final(self).spec_library().spec_libraries() == old(self).spec_library().spec_libraries(),
            instantiated(
                old(self).spec_library(),
                lib_reference@,
                location,
                orientation,
                designator,
                old(self).spec_prims(),
                final(self).spec_prims(),
                r,
            ),
            r is Err ==> {
                &&& final(self).spec_history() == old(self).spec_history()
                &&& final(self).spec_redo_len() == old(self).spec_redo_len()
                &&& final(self).spec_modified() == old(self).spec_modified()
                &&& final(self).spec_routing() == old(self).spec_routing()
                &&& final(self).spec_layout() == old(self).spec_layout()
            },
            r matches Ok(index) ==> {
                &&& final(self).spec_history().len() == old(self).spec_history().len() + 1
                &&& final(self).spec_history().take(old(self).spec_history().len() as int) == old(self).spec_history()
                &&& final(self).spec_history().last() matches EditOperation::AddComponent { index: i, designator: d } && i
                    == index && d@ == match designator {
                    Some(x) => x@,
                    None => match designator_of_component(final(self).spec_prims(), index as int) {
                        Some(t) => t,
                        None => Seq::<char>::empty(),
                    },
                }
                &&& final(self).spec_redo_len() == 0
                &&& final(self).spec_modified()
                &&& final(self).spec_layout() == old(self).spec_layout()
                &&& routing_refreshed(old(self).spec_routing(), final(self).spec_routing(), final(self).spec_prims())
            },
    {
        let index = match self.library.instantiate_component(
            lib_reference,
            location,
            orientation,
            designator,
            &mut self.doc.primitives,
        ) {
            Ok(i) => i,
            Err(e) => {
                return Err(e);
            },
        };
        let designator_str = match designator {
            Some(d) => text(d),
            None => match self.find_designator(index) {
                Some(t) => t,
                None => String::new(),
            },
        };
        self.history.push(EditOperation::AddComponent { index, designator: designator_str });
        self.redo_stack = Vec::new();
        self.modified = true;
        self.update_routing_obstacles();
        assert(self.history@.take(old(self).history@.len() as int) =~= old(self).history@);
        Ok(index)
    }

    /// Descriptions of the latest edits, newest first, at most `count`.
    pub fn recent_operations(&self, count: usize) -> (r: Vec<String>)
        ensures
            r@.len() == if count < self.spec_history().len() {
                count as int
            } else {
                self.spec_history().len() as int
            },
            forall|k: int|
                0 <= k < r@.len() ==> (#[trigger] r@[k])@ == op_text(
                    self.spec_history()[self.spec_history().len() - 1 - k],
                ),
    {
        let n = self.history.len();
        let mut out: Vec<String> = Vec::new();
        let mut k: usize = 0;
        while k < n && k < count
            invariant
                n == self.history@.len(),
                k <= n,
                k <= count,
                out@.len() == k,
                forall|m: int| 0 <= m < k ==> (#[trigger] out@[m])@ == op_text(self.history@[n - 1 - m]),
            decreases n - k,
        {
            out.push(op_text_exec(&self.history[n - 1 - k]));
            k = k + 1;
        }
        out
    }
}

/// What a validation error holds: kind, message, location, components.
pub open spec fn error_view(e: ValidationError) -> (ValidationErrorKind, Seq<char>, Option<CoordPoint>, Seq<Seq<char>>) {
    (e.kind, e.message@, e.location, e.components@.map_values(|c: String| c@))
}

/// The bounds of the placed components, in order.
pub open spec fn placed_bounds(prims: Seq<SchRecord>) -> Seq<CoordRect> {
    let cis = component_indices(prims, prims.len());
    Seq::new(cis.len(), |k: int| rect_of(component_box(prims, cis[k], component_at(prims, cis[k]))))
}

/// The designators of the placed components, in order.
pub open spec fn placed_designators(prims: Seq<SchRecord>) -> Seq<Seq<char>> {
    let cis = component_indices(prims, prims.len());
    Seq::new(cis.len(), |k: int| designator_text(prims, cis[k]))
}

/// The centre of a rectangle, halved sums rounded toward zero.
pub open spec fn rect_center(b: CoordRect) -> CoordPoint {
    CoordPoint {
        x: Coord { raw: trunc_div(b.location1.x.raw + b.location2.x.raw, 2) as i32 },
        y: Coord { raw: trunc_div(b.location1.y.raw + b.location2.y.raw, 2) as i32 },
    }
}

/// The error for two overlapping components.
pub open spec fn overlap_error(b: Seq<CoordRect>, d: Seq<Seq<char>>, i: int, j: int) -> (ValidationErrorKind, Seq<char>, Option<CoordPoint>, Seq<Seq<char>>) {
    (
        ValidationErrorKind::ComponentOverlap,
        "Components "@ + d[i] + " and "@ + d[j] + " overlap"@,
        Some(rect_center(b[i])),
        seq![d[i], d[j]],
    )
}

/// The overlap errors of component `i` with the components after it and
/// before `m`.
pub open spec fn overlap_row(b: Seq<CoordRect>, d: Seq<Seq<char>>, i: int, m: int) -> Seq<(ValidationErrorKind, Seq<char>, Option<CoordPoint>, Seq<Seq<char>>)>
    decreases m - i,
{
    if m <= i + 1 {
        Seq::empty()
    } else {
        overlap_row(b, d, i, m - 1) + if rects_intersect(b[i], b[m - 1]) {
            seq![overlap_error(b, d, i, m - 1)]
        } else {
            Seq::empty()
        }
    }
}

/// The overlap errors of the first `m` components with those after them.
pub open spec fn overlap_rows(b: Seq<CoordRect>, d: Seq<Seq<char>>, m: nat) -> Seq<(ValidationErrorKind, Seq<char>, Option<CoordPoint>, Seq<Seq<char>>)>
    decreases m,
{
    if m == 0 {
        Seq::empty()
    } else {
        overlap_rows(b, d, (m - 1) as nat) + overlap_row(b, d, m - 1, b.len() as int)
    }
}

/// How often `x` occurs.
pub open spec fn occurrences(d: Seq<Seq<char>>, x: Seq<char>) -> nat
    decreases d.len(),
{
    if d.len() == 0 {
        0
    } else {
        occurrences(d.drop_last(), x) + if d.last() == x {
            1nat
        } else {
            0nat
        }
    }
}

/// The errors for designators that occur more than once, each at its
/// first occurrence among the first `n`.
pub open spec fn duplicate_errors(d: Seq<Seq<char>>, n: nat) -> Seq<(ValidationErrorKind, Seq<char>, Option<CoordPoint>, Seq<Seq<char>>)>
    decreases n,
{
    if n == 0 {
        Seq::empty()
    } else {
        let x = d[n - 1];
        duplicate_errors(d, (n - 1) as nat) + if x.len() > 0 && !d.take(n - 1).contains(x) && occurrences(d, x) > 1 {
            seq![
                (
                    ValidationErrorKind::DuplicateDesignator,
                    "Duplicate designator: "@ + x + " (appears "@ + decimal_text(occurrences(d, x)) + " times)"@,
                    None::<CoordPoint>,
                    seq![x],
                ),
            ]
        } else {
            Seq::empty()
        }
    }
}

/// The error for an unconnected pin.
pub open spec fn unconnected_error(u: (Seq<char>, Seq<char>, (int, int))) -> (ValidationErrorKind, Seq<char>, Option<CoordPoint>, Seq<Seq<char>>) {
    (ValidationErrorKind::UnconnectedPin, "Unconnected pin: "@ + u.0 + "."@ + u.1, Some(point_of(u.2)), seq![u.0])
}

/// The error for a missing junction.
pub open spec fn junction_error(p: (int, int)) -> (ValidationErrorKind, Seq<char>, Option<CoordPoint>, Seq<Seq<char>>) {
    (
        ValidationErrorKind::MissingJunction,
        "Missing junction at ("@ + signed_decimal_text(trunc_div(p.0, 10000)) + ", "@ + signed_decimal_text(
            trunc_div(p.1, 10000),
        ) + ")"@,
        Some(point_of(p)),
        Seq::empty(),
    )
}

/// A coordinate divided by 10000 fits an `i32`.
proof fn lemma_tenthousandth_fits(a: int)
    requires
        fits_i32(a),
    ensures
        fits_i32(trunc_div(a, 10000)),
{
    let q = abs_int(a) / 10000;
    assert(0 <= q <= abs_int(a)) by (nonlinear_arith)
        requires
            q == abs_int(a) / 10000,
            abs_int(a) >= 0,
    ;
}

/// A sequence with one more element contains what it contained and the
/// new element.
proof fn lemma_contains_push(s: Seq<Seq<char>>, x: Seq<char>, y: Seq<char>)
    ensures
        s.push(y).contains(x) <==> (s.contains(x) || x == y),
{
    if s.push(y).contains(x) {
        let w = choose|w: int| 0 <= w < s.push(y).len() && s.push(y)[w] == x;
        if w < s.len() {
            assert(s[w] == x);
        }
    }
    if s.contains(x) {
        let w = choose|w: int| 0 <= w < s.len() && s[w] == x;
        assert(s.push(y)[w] == x);
    }
    if x == y {
        assert(s.push(y)[s.len() as int] == x);
    }
}

/// A list of two texts.
fn two_texts(a: &String, b: &String) -> (r: Vec<String>)
    ensures
        r@.map_values(|c: String| c@) == seq![a@, b@],
{
    let mut v: Vec<String> = Vec::new();
    v.push(a.clone());
    v.push(b.clone());
    assert(v@.map_values(|c: String| c@) =~= seq![a@, b@]);
    v
}

/// A list of one text.
fn one_text(a: &String) -> (r: Vec<String>)
    ensures
        r@.map_values(|c: String| c@) == seq![a@],
{
    let mut v: Vec<String> = Vec::new();
    v.push(a.clone());
    assert(v@.map_values(|c: String| c@) =~= seq![a@]);
    v
}

impl EditSession {
    /// The overlap errors among the placed components.
    #[verifier::rlimit(40)]
    fn overlap_errors(&self, placed: &Vec<PlacedComponent>) -> (r: Vec<ValidationError>)
        requires
            placed@.len() == component_indices(self.doc.primitives@, self.doc.primitives@.len()).len(),
            forall|m: int|
                0 <= m < placed@.len() ==> placed_ok(
                    #[trigger] placed@[m],
                    self.doc.primitives@,
                    component_indices(self.doc.primitives@, self.doc.primitives@.len())[m],
                ),
        ensures
            r@.map_values(|e: ValidationError| error_view(e)) == overlap_rows(
                placed_bounds(self.doc.primitives@),
                placed_designators(self.doc.primitives@),
                placed@.len() as nat,
            ),
    {
        let ghost prims = self.doc.primitives@;
        let ghost b = placed_bounds(prims);
        let ghost d = placed_designators(prims);
        let n = placed.len();
        assert forall|m: int| 0 <= m < n implies placed@[m].bounds == #[trigger] b[m] && placed@[m].designator@ == d[m] by {
            assert(placed_ok(placed@[m], prims, component_indices(prims, prims.len())[m]));
            assert(placed@[m].bounds == rect_of(rect_view(placed@[m].bounds)));
        }
        let mut out: Vec<ValidationError> = Vec::new();
        let mut i: usize = 0;
        while i < n
            invariant
                n == placed@.len(),
                b.len() == n,
                d.len() == n,
                forall|m: int| 0 <= m < n ==> placed@[m].bounds == #[trigger] b[m] && placed@[m].designator@ == d[m],
                i <= n,
                out@.map_values(|e: ValidationError| error_view(e)) == overlap_rows(b, d, i as nat),
            decreases n - i,
        {
            let mut j: usize = i + 1;
            assert(overlap_rows(b, d, i as nat) + overlap_row(b, d, i as int, (i + 1) as int) =~= overlap_rows(b, d, i as nat));
            while j < n
                invariant
                    n == placed@.len(),
                    b.len() == n,
                    d.len() == n,
                    forall|m: int| 0 <= m < n ==> placed@[m].bounds == #[trigger] b[m] && placed@[m].designator@ == d[m],
                    i < n,
                    i + 1 <= j <= n,
                    out@.map_values(|e: ValidationError| error_view(e)) == overlap_rows(b, d, i as nat) + overlap_row(
                        b,
                        d,
                        i as int,
                        j as int,
                    ),
                decreases n - j,
            {
                let ghost before = out@;
                assert(placed@[i as int].bounds == b[i as int] && placed@[j as int].bounds == b[j as int]);
                if rects_intersect_exec(&placed[i].bounds, &placed[j].bounds) {
                    let head = text3("Components ", placed[i].designator.as_str(), " and ");
                    let message = text3(head.as_str(), placed[j].designator.as_str(), " overlap");
                    let center = placed[i].bounds.center();
                    let e = ValidationError {
                        kind: ValidationErrorKind::ComponentOverlap,
                        message,
                        location: Some(center),
                        components: two_texts(&placed[i].designator, &placed[j].designator),
                    };
                    assert(error_view(e) == overlap_error(b, d, i as int, j as int));
                    out.push(e);
                    assert(out@.map_values(|e: ValidationError| error_view(e)) =~= before.map_values(
                        |e: ValidationError| error_view(e),
                    ).push(overlap_error(b, d, i as int, j as int)));
                }
                j = j + 1;
            }
            i = i + 1;
        }
        out
    }

    /// The duplicate-designator errors among the placed components.
    #[verifier::rlimit(40)]
    fn duplicate_designator_errors(&self, placed: &Vec<PlacedComponent>) -> (r: Vec<ValidationError>)
        requires
            placed@.len() == component_indices(self.doc.primitives@, self.doc.primitives@.len()).len(),
            forall|m: int|
                0 <= m < placed@.len() ==> placed_ok(
                    #[trigger] placed@[m],
                    self.doc.primitives@,
                    component_indices(self.doc.primitives@, self.doc.primitives@.len())[m],
                ),
        ensures
            r@.map_values(|e: ValidationError| error_view(e)) == duplicate_errors(
                placed_designators(self.doc.primitives@),
                placed@.len() as nat,
            ),
    {
        let ghost prims = self.doc.primitives@;
        let ghost d = placed_designators(prims);
        let n = placed.len();
        assert forall|m: int| 0 <= m < n implies placed@[m].designator@ == #[trigger] d[m] by {
            assert(placed_ok(placed@[m], prims, component_indices(prims, prims.len())[m]));
        }
        let mut out: Vec<ValidationError> = Vec::new();
        let mut k: usize = 0;
        while k < n
            invariant
                n == placed@.len(),
                d.len() == n,
                forall|m: int| 0 <= m < n ==> placed@[m].designator@ == #[trigger] d[m],
                k <= n,
                out@.map_values(|e: ValidationError| error_view(e)) == duplicate_errors(d, k as nat),
            decreases n - k,
        {
            let x = &placed[k].designator;
            let mut seen = false;
            let mut j: usize = 0;
            while j < k
                invariant
                    n == placed@.len(),
                    d.len() == n,
                    forall|m: int| 0 <= m < n ==> placed@[m].designator@ == #[trigger] d[m],
                    k < n,
                    x@ == d[k as int],
                    j <= k,
                    seen == d.take(j as int).contains(d[k as int]),
                decreases k - j,
            {
                assert(d.take(j + 1) =~= d.take(j as int).push(d[j as int]));
                proof {
                    lemma_contains_push(d.take(j as int), d[k as int], d[j as int]);
                }
                if same_text(placed[j].designator.as_str(), x.as_str()) {
                    seen = true;
                }
                j = j + 1;
            }
            let mut count: usize = 0;
            let mut t: usize = 0;
            while t < n
                invariant
                    n == placed@.len(),
                    d.len() == n,
                    forall|m: int| 0 <= m < n ==> placed@[m].designator@ == #[trigger] d[m],
                    k < n,
                    x@ == d[k as int],
                    t <= n,
                    count == occurrences(d.take(t as int), d[k as int]),
                    count <= t,
                decreases n - t,
            {
                assert(d.take(t + 1).drop_last() =~= d.take(t as int));
                if same_text(placed[t].designator.as_str(), x.as_str()) {
                    count = count + 1;
                }
                t = t + 1;
            }
            assert(d.take(t as int) =~= d);
            let ghost before = out@;
            let nonempty = !same_text(x.as_str(), "");
            proof {
                reveal_strlit("");
                if x@.len() == 0 {
                    assert(x@ =~= ""@);
                }
                assert(nonempty == (x@.len() > 0));
            }
            if nonempty && !seen && count > 1 {
                let head = text3("Duplicate designator: ", x.as_str(), " (appears ");
                let times = usize_text(count);
                let message = text3(head.as_str(), times.as_str(), " times)");
                let e = ValidationError {
                    kind: ValidationErrorKind::DuplicateDesignator,
                    message,
                    location: None,
                    components: one_text(x),
                };
                out.push(e);
                assert(out@.map_values(|e: ValidationError| error_view(e)) =~= before.map_values(
                    |e: ValidationError| error_view(e),
                ).push(error_view(e)));
            }
            k = k + 1;
        }
        out
    }

    /// Checks the sheet: components whose bounds overlap (each pair once),
    /// designators used more than once (each once, at its first use), pins
    /// nothing connects to, and wire ends that need a junction.
    pub fn validate(&self) -> (r: Vec<ValidationError>)
        requires
            anchors_fit(self.spec_prims()),
            squares_fit(self.spec_prims()),
            endpoints_fit(self.spec_prims()),
        ensures
            ({
                let prims = self.spec_prims();
                let b = placed_bounds(prims);
                let d = placed_designators(prims);
                let tol = self.spec_netlist_builder().spec_tolerance();
                r@.map_values(|e: ValidationError| error_view(e)) == overlap_rows(b, d, b.len()) + duplicate_errors(d, d.len())
                    + unconnected_of(sort_names(schematic_nets(prims, tol))).map_values(
                    |u: (Seq<char>, Seq<char>, (int, int))| unconnected_error(u),
                ) + missing_junctions(prims, tol).map_values(|p: (int, int)| junction_error(p))
            }),
    {
        let placed = self.layout.get_placed_components(self.doc.primitives.as_slice());
        let mut errors = self.overlap_errors(&placed);
        let mut dups = self.duplicate_designator_errors(&placed);
        let ghost e1 = errors@;
        let ghost e2 = dups@;
        errors.append(&mut dups);
        assert(errors@.map_values(|e: ValidationError| error_view(e)) =~= e1.map_values(|e: ValidationError| error_view(e))
            + e2.map_values(|e: ValidationError| error_view(e)));
        let unconnected = self.find_unconnected_pins();
        let ghost us = unconnected@.map_values(|t: (String, String, (i32, i32))| report_view(t));
        let ghost base = errors@.map_values(|e: ValidationError| error_view(e));
        let mut k: usize = 0;
        while k < unconnected.len()
            invariant
                us == unconnected@.map_values(|t: (String, String, (i32, i32))| report_view(t)),
                k <= unconnected@.len(),
                errors@.map_values(|e: ValidationError| error_view(e)) == base + us.take(k as int).map_values(
                    |u: (Seq<char>, Seq<char>, (int, int))| unconnected_error(u),
                ),
            decreases unconnected@.len() - k,
        {
            let (c, p, loc) = &unconnected[k];
            let head = text3("Unconnected pin: ", c.as_str(), ".");
            let message = text2(head.as_str(), p.as_str());
            let e = ValidationError {
                kind: ValidationErrorKind::UnconnectedPin,
                message,
                location: Some(CoordPoint { x: Coord { raw: loc.0 }, y: Coord { raw: loc.1 } }),
                components: one_text(c),
            };
            let ghost before = errors@;
            assert(us[k as int] == (c@, p@, (loc.0 as int, loc.1 as int)));
            assert(error_view(e) == unconnected_error(us[k as int]));
            errors.push(e);
            assert(us.take(k + 1).map_values(|u: (Seq<char>, Seq<char>, (int, int))| unconnected_error(u)) =~= us.take(
                k as int,
            ).map_values(|u: (Seq<char>, Seq<char>, (int, int))| unconnected_error(u)).push(unconnected_error(us[k as int])));
            assert(errors@.map_values(|e: ValidationError| error_view(e)) =~= before.map_values(
                |e: ValidationError| error_view(e),
            ).push(error_view(e)));
            k = k + 1;
        }
        assert(us.take(k as int) =~= us);
        let missing = self.find_missing_junctions();
        let ghost ms = missing@.map_values(|p: (i32, i32)| loc_view(p));
        let ghost base2 = errors@.map_values(|e: ValidationError| error_view(e));
        let mut t: usize = 0;
        while t < missing.len()
            invariant
                ms == missing@.map_values(|p: (i32, i32)| loc_view(p)),
                t <= missing@.len(),
                errors@.map_values(|e: ValidationError| error_view(e)) == base2 + ms.take(t as int).map_values(
                    |p: (int, int)| junction_error(p),
                ),
            decreases missing@.len() - t,
        {
            let (x, y) = missing[t];
            let qx = crate::types::div_trunc_i64(x as i64, 10000);
            let qy = crate::types::div_trunc_i64(y as i64, 10000);
            proof {
                lemma_tenthousandth_fits(x as int);
                lemma_tenthousandth_fits(y as int);
            }
            let xs = i32_text(qx as i32);
            let ys = i32_text(qy as i32);
            let head = text3("Missing junction at (", xs.as_str(), ", ");
            let message = text3(head.as_str(), ys.as_str(), ")");
            let e = ValidationError {
                kind: ValidationErrorKind::MissingJunction,
                message,
                location: Some(CoordPoint { x: Coord { raw: x }, y: Coord { raw: y } }),
                components: Vec::new(),
            };
            let ghost before = errors@;
            assert(ms[t as int] == (x as int, y as int));
            assert(e.components@.map_values(|c: String| c@) =~= Seq::<Seq<char>>::empty());
            assert(error_view(e) == junction_error(ms[t as int]));
            errors.push(e);
            assert(ms.take(t + 1).map_values(|p: (int, int)| junction_error(p)) =~= ms.take(t as int).map_values(
                |p: (int, int)| junction_error(p),
            ).push(junction_error(ms[t as int])));
            assert(errors@.map_values(|e: ValidationError| error_view(e)) =~= before.map_values(
                |e: ValidationError| error_view(e),
            ).push(error_view(e)));
            t = t + 1;
        }
        assert(ms.take(t as int) =~= ms);
        errors
    }
}

/// The text orientation bits that turn a power symbol away from a wire
/// leaving a pin in the direction: none up, flipped down, rotated left,
/// rotated and flipped right.
pub open spec fn power_orientation(d: Direction) -> u8 {
    match d {
        Direction::Up => 0,
        Direction::Down => 2,
        Direction::Left => 1,
        Direction::Right => 3,
    }
}

/// The end of a stub of length `len` from the pin's hot end along its
/// facing.
pub open spec fn stub_end(p: SchPin, len: int) -> (int, int) {
    let e = pin_endpoint(p);
    let u = pin_direction(p).spec_unit();
    (e.0 + u.0 * len, e.1 + u.1 * len)
}

impl EditSession {
    /// Draws a wire stub of the given length from a pin's hot end along the
    /// way the pin faces, and puts a power port of the given style (turned
    /// away from the wire) or else a net label at its end.
    pub fn smart_wire_pin(
        &mut self,
        component: &str,
        pin: &str,
        net_name: &str,
        power_style: Option<u8>,
        wire_length: i32,
    ) -> (r: Result<(usize, usize)>)
        requires
            anchors_fit(old(self).spec_prims()),
            squares_fit(old(self).spec_prims()),
            found_pin(old(self).spec_prims(), component@, pin@) matches Ok(p) ==> {
                let g = old(self).spec_layout().spec_grid();
                &&& fits_i32(stub_end(p, wire_length as int).0)
                &&& fits_i32(stub_end(p, wire_length as int).1)
                &&& snappable(g, point_of(pin_endpoint(p)))
                &&& snappable(g, point_of(stub_end(p, wire_length as int)))
            },
        ensures
            ({
                let prims = old(self).spec_prims();
                let g = old(self).spec_layout().spec_grid();
                let n = prims.len();
                match found_pin(prims, component@, pin@) {
                    Err(true) => r matches Err(AltiumError::Parse(m)) && m@ == "Component not found: "@ + component@
                        && *final(self) == *old(self),
                    Err(false) => r matches Err(AltiumError::Parse(m)) && m@ == "Pin not found: "@ + component@ + "."@
                        + pin@ && *final(self) == *old(self),
                    Ok(p) => {
                        let start = point_of(pin_endpoint(p));
                        let end = point_of(stub_end(p, wire_length as int));
                        let s = snapped(g, end);
                        &&& r == Ok::<(usize, usize), AltiumError>((n as usize, (n + 1) as usize))
                        &&& final(self).spec_prims().len() == n + 2
                        &&& final(self).spec_prims().take(n as int) == prims
                        &&& final(self).spec_prims()[n as int] matches SchRecord::Wire(w) && w.vertices@ == snapped_pairs(
                            g,
                            seq![start, end],
                        )
                        &&& match power_style {
                            Some(st) => final(self).spec_prims()[n + 1int] matches SchRecord::PowerObject(q) && q.location_x
                                == s.x.raw && q.location_y == s.y.raw && q.text@ == net_name@ && q.style == st
                                && q.orientation == power_orientation(pin_direction(p)),
                            None => final(self).spec_prims()[n + 1int] matches SchRecord::NetLabel(l) && l.location_x
                                == s.x.raw && l.location_y == s.y.raw && l.text@ == net_name@,
                        }
                        &&& final(self).spec_history().len() == old(self).spec_history().len() + 2
                        &&& final(self).spec_history().take(old(self).spec_history().len() as int) == old(self).spec_history()
                        &&& final(self).spec_history()[old(self).spec_history().len() as int] == (EditOperation::AddWire {
                            index: n as usize,
                        })
                        &&& final(self).spec_redo_len() == 0
                        &&& final(self).spec_modified()
                        &&& final(self).spec_layout() == old(self).spec_layout()
                        &&& final(self).spec_library() == old(self).spec_library()
                        &&& routing_refreshed(
                            old(self).spec_routing(),
                            final(self).spec_routing(),
                            final(self).spec_prims().take(n + 1int),
                        )
                    },
                }
            }),
    {
        let (endpoint, direction) = match self.find_pin_location(component, pin) {
            Ok(l) => l,
            Err(e) => {
                return Err(e);
            },
        };
        let ghost sp = found_pin(self.doc.primitives@, component@, pin@)->Ok_0;
        let (ux, uy) = direction.unit_vector();
        let ex: i64 = endpoint.x.raw as i64 + ux as i64 * wire_length as i64;
        let ey: i64 = endpoint.y.raw as i64 + uy as i64 * wire_length as i64;
        assert(ex == stub_end(sp, wire_length as int).0 && ey == stub_end(sp, wire_length as int).1) by (nonlinear_arith)
            requires
                ex == endpoint.x.raw + ux * wire_length,
                ey == endpoint.y.raw + uy * wire_length,
                (endpoint.x.raw as int, endpoint.y.raw as int) == pin_endpoint(sp),
                (ux as int, uy as int) == pin_direction(sp).spec_unit(),
        ;
        let wire_end = CoordPoint { x: Coord { raw: ex as i32 }, y: Coord { raw: ey as i32 } };
        let mut stub: Vec<CoordPoint> = Vec::new();
        stub.push(endpoint);
        stub.push(wire_end);
        assert(endpoint == point_of(pin_endpoint(sp)));
        assert(stub@ =~= seq![point_of(pin_endpoint(sp)), point_of(stub_end(sp, wire_length as int))]);
        let ghost hist0 = self.history@;
        let wire_idx = match self.add_wire(stub.as_slice()) {
            Ok(i) => i,
            Err(e) => {
                return Err(e);
            },
        };
        let ghost prims1 = self.doc.primitives@;
        let ghost hist1 = self.history@;
        let label_idx = match power_style {
            Some(style) => {
                let orient: u8 = match direction {
                    Direction::Up => 0,
                    Direction::Down => 2,
                    Direction::Left => 1,
                    Direction::Right => 3,
                };
                match self.add_power_port(net_name, wire_end, style, orient) {
                    Ok(i) => i,
                    Err(e) => {
                        return Err(e);
                    },
                }
            },
            None => match self.add_net_label(net_name, wire_end) {
                Ok(i) => i,
                Err(e) => {
                    return Err(e);
                },
            },
        };
        proof {
            assert(self.doc.primitives@.take(prims1.len() as int) =~= prims1);
            assert(self.doc.primitives@.take(old(self).doc.primitives@.len() as int) =~= old(self).doc.primitives@);
            assert(self.history@.take(hist0.len() as int) =~= hist0);
            assert(self.history@[hist0.len() as int] == hist1[hist0.len() as int]);
        }
        Ok((wire_idx, label_idx))
    }
}

/// `v` clamped to `[lo, hi]`, as `v.max(lo).min(hi)`.
pub open spec fn clamp(v: int, lo: int, hi: int) -> int {
    min_int(max_int(v, lo), hi)
}

/// The point of the segment from `a` to `b` taken as nearest to the
/// target: the target clamped onto a vertical or horizontal segment, the
/// segment's start for a diagonal one.
pub open spec fn projection(a: (i32, i32), b: (i32, i32), tx: int, ty: int) -> (int, int) {
    if a.0 == b.0 {
        (a.0 as int, clamp(ty, min_int(a.1 as int, b.1 as int), max_int(a.1 as int, b.1 as int)))
    } else if a.1 == b.1 {
        (clamp(tx, min_int(a.0 as int, b.0 as int), max_int(a.0 as int, b.0 as int)), a.1 as int)
    } else {
        (a.0 as int, a.1 as int)
    }
}

/// The squared distance of a point from the target.
pub open spec fn sq_dist(p: (int, int), tx: int, ty: int) -> int {
    (p.0 - tx) * (p.0 - tx) + (p.1 - ty) * (p.1 - ty)
}

/// The nearest projection over the first `n` segments of a bus, with its
/// squared distance: the bus's first vertex at distance `i64::MAX` to start
/// with, replaced by each projection strictly nearer.
pub open spec fn nearest_upto(vs: Seq<(i32, i32)>, tx: int, ty: int, n: nat) -> ((int, int), int)
    decreases n,
{
    if n == 0 {
        ((vs[0].0 as int, vs[0].1 as int), i64::MAX as int)
    } else {
        let (bp, bd) = nearest_upto(vs, tx, ty, (n - 1) as nat);
        let p = projection(vs[n - 1], vs[n as int], tx, ty);
        if sq_dist(p, tx, ty) < bd {
            (p, sq_dist(p, tx, ty))
        } else {
            (bp, bd)
        }
    }
}

/// The wire index of a pair of indices.
pub open spec fn wire_part(r: Result<(usize, usize)>) -> Result<usize> {
    match r {
        Ok((w, _)) => Ok(w),
        Err(e) => Err(e),
    }
}

/// The bus entry's offset from the bus: 10 mils toward the wire's side in
/// x, and the same in y.
pub const BUS_ENTRY_OFFSET: i32 = 100000;

/// The nearest point on a bus to a target, as the search takes it.
fn nearest_on_bus(vs: &Vec<(i32, i32)>, tx: i32, ty: i32) -> (r: (i32, i32))
    requires
        vs@.len() >= 2,
    ensures
        (r.0 as int, r.1 as int) == nearest_upto(vs@, tx as int, ty as int, (vs@.len() - 1) as nat).0,
{
    let mut best: (i32, i32) = vs[0];
    let mut best_dist: i128 = i64::MAX as i128;
    let last = vs.len() - 1;
    let mut k: usize = 0;
    while k < last
        invariant
            vs@.len() >= 2,
            last == vs@.len() - 1,
            k <= last,
            ((best.0 as int, best.1 as int), best_dist as int) == nearest_upto(vs@, tx as int, ty as int, k as nat),
            0 <= best_dist <= i64::MAX,
        decreases last - k,
    {
        let (x1, y1) = vs[k];
        let (x2, y2) = vs[k + 1];
        let (px, py): (i32, i32) = if x1 == x2 {
            let lo = if y1 < y2 { y1 } else { y2 };
            let hi = if y1 > y2 { y1 } else { y2 };
            let c = if ty > lo { ty } else { lo };
            (x1, if c < hi { c } else { hi })
        } else if y1 == y2 {
            let lo = if x1 < x2 { x1 } else { x2 };
            let hi = if x1 > x2 { x1 } else { x2 };
            let c = if tx > lo { tx } else { lo };
            (if c < hi { c } else { hi }, y1)
        } else {
            (x1, y1)
        };
        assert((px as int, py as int) == projection(vs@[k as int], vs@[k + 1], tx as int, ty as int));
        let ddx: i128 = px as i128 - tx as i128;
        let ddy: i128 = py as i128 - ty as i128;
        assert(0 <= ddx * ddx <= 0x1_0000_0000_0000_0000 && 0 <= ddy * ddy <= 0x1_0000_0000_0000_0000) by (nonlinear_arith)
            requires
                -0x1_0000_0000 <= ddx <= 0x1_0000_0000,
                -0x1_0000_0000 <= ddy <= 0x1_0000_0000,
        ;
        let dist: i128 = ddx * ddx + ddy * ddy;
        if dist < best_dist {
            best = (px, py);
            best_dist = dist;
        }
        k = k + 1;
    }
    best
}

impl EditSession {
    /// Connects a wire to the bus at or near a point: a bus entry from the
    /// nearest point on the bus, 10 mils diagonally toward the wire's side,
    /// and a wire routed from `wire_start` to the entry's end. Gives the
    /// wire's and the entry's indices.
    #[verifier::rlimit(40)]
    pub fn route_to_bus(&mut self, wire_start: CoordPoint, bus_point: CoordPoint) -> (r: Result<(usize, usize)>)
        ensures
            ({
                let prims = old(self).spec_prims();
                let flags = bus_flags(prims, bus_point.x.raw as int, bus_point.y.raw as int);
                let i = first_true(flags);
                let lg = old(self).spec_layout().spec_grid();
                let rg = old(self).spec_routing().spec_grid();
                if i >= flags.len() {
                    r matches Err(AltiumError::Parse(m)) && m@ == "No bus found at specified point"@ && *final(self)
                        == *old(self)
                } else {
                    prims[i] matches SchRecord::Bus(b) && {
                        let best = nearest_upto(b.vertices@, bus_point.x.raw as int, bus_point.y.raw as int, (
                        b.vertices@.len() - 1) as nat).0;
                        let off: int = if wire_start.x.raw < best.0 {
                            -BUS_ENTRY_OFFSET
                        } else {
                            BUS_ENTRY_OFFSET as int
                        };
                        let we = (best.0 + off, best.1 + off);
                        if !(fits_i32(we.0) && fits_i32(we.1) && snappable(lg, point_of(best)) && snappable(lg, point_of(we))) {
                            r matches Err(AltiumError::Parse(m)) && m@ == "Route leaves the coordinate range"@ && *final(self)
                                == *old(self)
                        } else {
                            exists|mid: EditSession|
                                mid.spec_prims() == prims.push(
                                    SchRecord::BusEntry(
                                        SchBusEntry {
                                            location_x: snapped(lg, point_of(best)).x.raw,
                                            location_y: snapped(lg, point_of(best)).y.raw,
                                            corner_x: snapped(lg, point_of(we)).x.raw,
                                            corner_y: snapped(lg, point_of(we)).y.raw,
                                        },
                                    ),
                                ) && EditSession::unrecorded_edit(*old(self), mid) && routing_refreshed(
                                    old(self).spec_routing(),
                                    mid.spec_routing(),
                                    mid.spec_prims(),
                                ) && if !(sheet_fits(mid.spec_prims()) && snappable(rg, wire_start) && snappable(
                                    rg,
                                    point_of(we),
                                )) {
                                    r matches Err(AltiumError::Parse(m)) && m@ == "Route leaves the coordinate range"@
                                        && *final(self) == mid
                                } else {
                                    wire_routed(mid, *final(self), wire_start, point_of(we), Seq::empty(), wire_part(r)) && (
                                    r is Ok ==> r->Ok_0.1 == prims.len())
                                }
                        }
                    }
                }
            }),
    {
        let found = self.find_bus_at(bus_point);
        let (bus_idx, bus) = match found {
            Some(f) => f,
            None => {
                return Err(AltiumError::Parse(text("No bus found at specified point")));
            },
        };
        proof {
            let flags = bus_flags(self.doc.primitives@, bus_point.x.raw as int, bus_point.y.raw as int);
            lemma_first_true_holds(flags);
            assert(flags[bus_idx as int]);
            let k = choose|k: int|
                0 <= k < bus.vertices@.len() - 1 && near_window(
                    #[trigger] bus.vertices@[k],
                    bus.vertices@[k + 1],
                    bus_point.x.raw as int,
                    bus_point.y.raw as int,
                );
        }
        let best = nearest_on_bus(&bus.vertices, bus_point.x.raw, bus_point.y.raw);
        let off: i64 = if wire_start.x.raw < best.0 {
            -(BUS_ENTRY_OFFSET as i64)
        } else {
            BUS_ENTRY_OFFSET as i64
        };
        let wx: i64 = best.0 as i64 + off;
        let wy: i64 = best.1 as i64 + off;
        if wx < i32::MIN as i64 || wx > i32::MAX as i64 || wy < i32::MIN as i64 || wy > i32::MAX as i64 {
            return Err(AltiumError::Parse(text("Route leaves the coordinate range")));
        }
        let entry_point = CoordPoint { x: Coord { raw: best.0 }, y: Coord { raw: best.1 } };
        let wire_entry = CoordPoint { x: Coord { raw: wx as i32 }, y: Coord { raw: wy as i32 } };
        let g = self.layout.grid();
        if !(g.can_snap_value(best.0) && g.can_snap_value(best.1) && g.can_snap_value(wire_entry.x.raw)
            && g.can_snap_value(wire_entry.y.raw)) {
            return Err(AltiumError::Parse(text("Route leaves the coordinate range")));
        }
        let ghost prims0 = self.doc.primitives@;
        let n0 = self.doc.primitives.len();
        let ghost lg = self.layout.spec_grid();
        let ghost sb = nearest_upto(bus.vertices@, bus_point.x.raw as int, bus_point.y.raw as int, (bus.vertices@.len() - 1) as nat).0;
        let ghost swe = (sb.0 + off, sb.1 + off);
        assert(entry_point == point_of(sb));
        assert(wire_entry == point_of(swe));
        let ghost entry_rec = SchRecord::BusEntry(
            SchBusEntry {
                location_x: snapped(lg, point_of(sb)).x.raw,
                location_y: snapped(lg, point_of(sb)).y.raw,
                corner_x: snapped(lg, point_of(swe)).x.raw,
                corner_y: snapped(lg, point_of(swe)).y.raw,
            },
        );
        let entry_idx = match self.add_bus_entry(entry_point, wire_entry) {
            Ok(i) => i,
            Err(e) => {
                return Err(e);
            },
        };
        let ghost mid = *self;
        assert(entry_idx == n0);
        assert(mid.spec_prims() == prims0.push(entry_rec));
        let rg = self.routing.grid_ref();
        if !(sheet_fits_exec(self.doc.primitives.as_slice(), &self.layout) && rg.can_snap_value(wire_start.x.raw)
            && rg.can_snap_value(wire_start.y.raw) && rg.can_snap_value(wire_entry.x.raw) && rg.can_snap_value(
            wire_entry.y.raw,
        )) {
            let r = Err(AltiumError::Parse(text("Route leaves the coordinate range")));
            assert(mid.spec_prims() == prims0.push(entry_rec) && EditSession::unrecorded_edit(*old(self), mid)
                && routing_refreshed(old(self).spec_routing(), mid.spec_routing(), mid.spec_prims()));
            return r;
        }
        let routed = self.route_wire(wire_start, wire_entry);
        let r = match routed {
            Ok(i) => Ok((i, entry_idx)),
            Err(e) => Err(e),
        };
        assert(mid.spec_prims() == prims0.push(entry_rec) && EditSession::unrecorded_edit(*old(self), mid)
            && routing_refreshed(old(self).spec_routing(), mid.spec_routing(), mid.spec_prims()));
        proof {
            let flags = bus_flags(prims0, bus_point.x.raw as int, bus_point.y.raw as int);
            assert(first_true(flags) == bus_idx);
            assert(prims0[bus_idx as int] == SchRecord::Bus(*bus));
            assert(prims0 == old(self).spec_prims());
            assert(wire_routed(mid, *self, wire_start, point_of(swe), Seq::empty(), wire_part(r)));
            assert(r is Ok ==> r->Ok_0.1 == prims0.len());
            assert(fits_i32(swe.0) && fits_i32(swe.1) && snappable(lg, point_of(sb)) && snappable(lg, point_of(swe)));
            assert(sheet_fits(mid.spec_prims()) && snappable(mid.spec_routing().spec_grid(), wire_start));
            assert(mid.spec_routing().spec_grid() == old(self).spec_routing().spec_grid());
        }
        assert(wire_part(r) == routed);
        r
    }
}

impl Default for EditSession {
    /// An empty session, as `EditSession::new` gives.
    fn default() -> (r: Self)
        ensures
            r.spec_prims().len() == 0,
            r.spec_history().len() == 0,
            r.spec_redo_len() == 0,
            !r.spec_modified(),
            r.spec_source_path() is None,
    {
        EditSession::new()
    }
}

/// Setting a record's owner to the owner it has changes nothing.
proof fn lemma_with_own_owner(r: SchRecord)
    ensures
        owner_of(r) >= 0 ==> with_owner(r, owner_of(r)) == r,
{
}

/// No removed index lies below `o` when all are at least `n >= o`.
proof fn lemma_count_below_none(rm: Seq<usize>, o: int, n: int)
    requires
        o <= n,
        forall|j: int| 0 <= j < rm.len() ==> (#[trigger] rm[j] as int) >= n,
    ensures
        count_below(rm, o) == 0,
    decreases rm.len(),
{
    if rm.len() > 0 {
        lemma_count_below_none(rm.drop_last(), o, n);
        assert(rm.last() == rm[rm.len() - 1]);
    }
}

/// Deleting a wire just added gives back the sheet, when every record's
/// owner lies among the records before it.
pub proof fn lemma_delete_added_wire(prims: Seq<SchRecord>, w: SchWire)
    requires
        prims.len() < usize::MAX,
        forall|i: int| 0 <= i < prims.len() ==> owner_of(#[trigger] prims[i]) < prims.len(),
    ensures
        without(prims.push(SchRecord::Wire(w)), seq![prims.len() as usize]) == prims,
{
    let p2 = prims.push(SchRecord::Wire(w));
    let rm = seq![prims.len() as usize];
    assert forall|i: int| 0 <= i < p2.len() implies owner_of(#[trigger] p2[i]) < p2.len() by {
        if i < prims.len() {
            assert(p2[i] == prims[i]);
        }
    }
    assert forall|j: int| 0 <= j < rm.len() implies (#[trigger] rm[j] as int) >= prims.len() by {
        assert(rm[j] == prims.len() as usize);
    }
    lemma_without_prefix_general(p2, rm, prims.len(), prims.len());
    assert(rm.contains(prims.len() as usize)) by {
        assert(rm[0] == prims.len() as usize);
    }
    assert(p2.take(prims.len() as int) =~= prims);
    assert(without(p2, rm) == without_upto(p2, rm, prims.len()));
}

/// With every removed index at or above `n`, and every owner at most `n`,
/// the first `k <= n` records stay as they are.
proof fn lemma_without_prefix_general(prims: Seq<SchRecord>, rm: Seq<usize>, n: nat, k: nat)
    requires
        k <= n <= prims.len(),
        forall|i: int| 0 <= i < prims.len() ==> owner_of(#[trigger] prims[i]) < n + 1,
        forall|j: int| 0 <= j < rm.len() ==> (#[trigger] rm[j] as int) >= n,
    ensures
        without_upto(prims, rm, k) == prims.take(k as int),
    decreases k,
{
    if k > 0 {
        lemma_without_prefix_general(prims, rm, n, (k - 1) as nat);
        let r = prims[k - 1];
        assert(!rm.contains((k - 1) as usize)) by {
            if rm.contains((k - 1) as usize) {
                let j = choose|j: int| 0 <= j < rm.len() && rm[j] == (k - 1) as usize;
                assert(rm[j] as int >= n);
            }
        }
        if owner_of(r) >= 0 {
            lemma_count_below_none(rm, owner_of(r) as int, n as int);
            lemma_with_own_owner(r);
        }
        assert(prims.take(k as int) =~= prims.take(k - 1).push(r));
    }
}

} // verus!
