use altium_format::edit::layout::LayoutEngine;
use altium_format::edit::routing::RoutingEngine;
use altium_format::edit::sch_records::{SchComponent, SchRecord, SchWire};
use altium_format::edit::types::{RoutingPath, WireSegment};
use altium_format::types::{Coord, CoordPoint, CoordRect};

fn p(x: i32, y: i32) -> CoordPoint {
    CoordPoint { x: Coord { raw: x }, y: Coord { raw: y } }
}

fn component(x: i32, y: i32) -> SchRecord {
    SchRecord::Component(SchComponent {
        lib_reference: "RES".to_string(),
        description: String::new(),
        owner_index: -1,
        location_x: x,
        location_y: y,
        orientation: 0,
        library_path: String::new(),
        source_library_name: String::new(),
        unique_id: String::new(),
    })
}

fn wire(vs: &[(i32, i32)]) -> SchRecord {
    SchRecord::Wire(SchWire { vertices: vs.to_vec() })
}

fn ends(s: &WireSegment) -> ((i32, i32), (i32, i32)) {
    ((s.start.x.raw, s.start.y.raw), (s.end.x.raw, s.end.y.raw))
}

/// Checks that a path runs horizontally and vertically from `a` to `b`.
fn assert_rectilinear(path: &RoutingPath, a: CoordPoint, b: CoordPoint) {
    assert!(!path.segments.is_empty());
    assert_eq!(path.segments[0].start, a);
    assert_eq!(path.segments[path.segments.len() - 1].end, b);
    for w in path.segments.windows(2) {
        assert_eq!(w[0].end, w[1].start);
    }
    for s in &path.segments {
        assert!(s.start.x == s.end.x || s.start.y == s.end.y);
    }
}

/// An engine whose only obstacle is a default component body at (400000, -500000):
/// the square (400000, -500000)..(1400000, 500000) shrunk to
/// (450000, -450000)..(1350000, 450000).
fn blocked_engine() -> RoutingEngine {
    let mut engine = RoutingEngine::new();
    engine.update_obstacles(&[component(400_000, -500_000)], &LayoutEngine::new());
    engine
}

#[test]
fn routing_straight_path_when_free() {
    let engine = RoutingEngine::new();
    let path = engine.route(p(0, 0), p(1_000_000, 0)).unwrap();
    assert_eq!(path.segments.len(), 1);
    assert_eq!(ends(&path.segments[0]), ((0, 0), (1_000_000, 0)));
    assert!(path.junctions.is_empty());
}

#[test]
fn routing_snaps_ends_to_grid() {
    let engine = RoutingEngine::new();
    let path = engine.route(p(40_000, 60_000), p(960_000, 140_000)).unwrap();
    // (40000, 60000) snaps to (0, 100000); (960000, 140000) to (1000000, 100000).
    assert_eq!(path.segments.len(), 1);
    assert_eq!(ends(&path.segments[0]), ((0, 100_000), (1_000_000, 100_000)));
}

#[test]
fn routing_l_path_goes_horizontal_first() {
    let engine = RoutingEngine::new();
    let path = engine.route(p(0, 0), p(1_000_000, 500_000)).unwrap();
    assert_eq!(path.segments.len(), 2);
    assert_eq!(ends(&path.segments[0]), ((0, 0), (1_000_000, 0)));
    assert_eq!(ends(&path.segments[1]), ((1_000_000, 0), (1_000_000, 500_000)));
}

#[test]
fn routing_l_path_goes_vertical_first_when_horizontal_blocked() {
    let engine = blocked_engine();
    // Horizontal first along y = 0 meets the body; vertical first along x = 0
    // and then y = 600000 passes above it.
    let path = engine.route(p(0, 0), p(2_000_000, 600_000)).unwrap();
    assert_eq!(path.segments.len(), 2);
    assert_eq!(ends(&path.segments[0]), ((0, 0), (0, 600_000)));
    assert_eq!(ends(&path.segments[1]), ((0, 600_000), (2_000_000, 600_000)));
}

#[test]
fn routing_searches_around_obstacle() {
    let engine = blocked_engine();
    let path = engine.route(p(0, 0), p(2_000_000, 0)).unwrap();
    assert_rectilinear(&path, p(0, 0), p(2_000_000, 0));
    assert!(path.segments.len() >= 3);
    // No grid point of the path lies inside the shrunk body.
    for s in &path.segments {
        let (x1, x2) = (s.start.x.raw.min(s.end.x.raw), s.start.x.raw.max(s.end.x.raw));
        let (y1, y2) = (s.start.y.raw.min(s.end.y.raw), s.start.y.raw.max(s.end.y.raw));
        let mut x = x1;
        while x <= x2 {
            let mut y = y1;
            while y <= y2 {
                assert!(!(450_000 <= x && x <= 1_350_000 && -450_000 <= y && y <= 450_000));
                y += 100_000;
            }
            x += 100_000;
        }
    }
}

#[test]
fn routing_gives_up_at_iteration_limit() {
    let mut engine = blocked_engine();
    engine.set_max_iterations(0);
    assert!(engine.route(p(0, 0), p(2_000_000, 0)).is_none());
}

#[test]
fn routing_excluding_body_allows_straight_path() {
    let engine = blocked_engine();
    let body = CoordRect {
        location1: p(450_000, -450_000),
        location2: p(1_350_000, 450_000),
    };
    let path = engine.route_excluding(p(0, 0), p(2_000_000, 0), &[body]).unwrap();
    assert_eq!(path.segments.len(), 1);
    assert_eq!(ends(&path.segments[0]), ((0, 0), (2_000_000, 0)));
}

#[test]
fn routing_finds_junctions_with_existing_wires() {
    let mut engine = RoutingEngine::new();
    engine.update_obstacles(
        &[wire(&[(500_000, -1_000_000), (500_000, 1_000_000)]), wire(&[(0, -500_000), (0, 500_000)])],
        &LayoutEngine::new(),
    );
    let path = engine.route(p(0, 0), p(1_000_000, 0)).unwrap();
    // The wire at x = 500000 crosses mid-segment; the one at x = 0 meets the
    // segment's start, which is no junction.
    assert_eq!(engine.find_junctions(&path), vec![p(500_000, 0)]);
}

#[test]
fn routing_junctions_sorted_and_unique() {
    let mut engine = RoutingEngine::new();
    engine.update_obstacles(
        &[
            wire(&[(700_000, -1_000_000), (700_000, 1_000_000)]),
            wire(&[(300_000, -1_000_000), (300_000, 1_000_000)]),
            wire(&[(300_000, 1_000_000), (300_000, -1_000_000)]),
        ],
        &LayoutEngine::new(),
    );
    let path = engine.route(p(0, 0), p(1_000_000, 0)).unwrap();
    assert_eq!(engine.find_junctions(&path), vec![p(300_000, 0), p(700_000, 0)]);
}

#[test]
fn routing_auto_route_shortest_first() {
    let mut engine = RoutingEngine::new();
    let results = engine.auto_route_all(&[(p(0, 0), p(2_000_000, 0)), (p(0, 500_000), p(300_000, 500_000))]);
    assert_eq!(results.len(), 2);
    // The shorter connection is routed, and reported, first.
    let first = results[0].as_ref().unwrap();
    assert_eq!(ends(&first.segments[0]), ((0, 500_000), (300_000, 500_000)));
    let second = results[1].as_ref().unwrap();
    assert_eq!(ends(&second.segments[0]), ((0, 0), (2_000_000, 0)));
    // Both routes now count as existing wires: a vertical path crossing them
    // meets them at two junctions.
    let cross = engine.route(p(100_000, -500_000), p(100_000, 1_000_000)).unwrap();
    assert_eq!(engine.find_junctions(&cross), vec![p(100_000, 0), p(100_000, 500_000)]);
}

#[test]
fn routing_same_point_is_single_point_segment() {
    let engine = RoutingEngine::new();
    let path = engine.route(p(0, 0), p(0, 0)).unwrap();
    assert_eq!(path.segments.len(), 1);
    assert_eq!(ends(&path.segments[0]), ((0, 0), (0, 0)));
}

#[test]
fn routing_default_matches_new() {
    let engine = RoutingEngine::default();
    assert!(engine.route(p(0, 0), p(100_000, 0)).is_some());
}
