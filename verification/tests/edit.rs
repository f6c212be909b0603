use altium_format::edit::pcb_placement::{parse_coord, parse_offset, parse_position, BoardEdge};
use altium_format::edit::pcb_records::{HatchStyle, PcbPadShape, PcbRecord};
use altium_format::edit::pcb_session::{PcbEditSession, Position, TrackPath};
use altium_format::edit::types::{Direction, Grid, Orientation, RoutingPath, WireSegment};
use altium_format::footprint::builder::PadRowDirection;
use altium_format::types::{Coord, CoordPoint, Layer};

fn to_mils(c: Coord) -> f64 {
    c.to_raw() as f64 / 10000.0
}

fn to_mms(c: Coord) -> f64 {
    c.to_raw() as f64 * 254.0 / 100_000_000.0
}

fn pt_mils(x: i32, y: i32) -> CoordPoint {
    CoordPoint::new(Coord::from_mils(x), Coord::from_mils(y))
}

#[test]
fn test_parse_coord() {
    assert!((to_mms(parse_coord("10mm").unwrap()) - 10.0).abs() < 0.001);
    assert!((to_mils(parse_coord("100mil").unwrap()) - 100.0).abs() < 0.001);
    assert!((to_mils(parse_coord("1in").unwrap()) - 1000.0).abs() < 0.001);
    assert!((to_mils(parse_coord("50").unwrap()) - 50.0).abs() < 0.001);
}

#[test]
fn test_parse_position() {
    let pos = parse_position("10mm,20mm").unwrap();
    assert!((to_mms(pos.x) - 10.0).abs() < 0.001);
    assert!((to_mms(pos.y) - 20.0).abs() < 0.001);
}

#[test]
fn test_board_edge_parse() {
    assert_eq!(BoardEdge::try_parse("left"), Some(BoardEdge::Left));
    assert_eq!(BoardEdge::try_parse("left-edge"), Some(BoardEdge::Left));
    assert_eq!(BoardEdge::try_parse("TOP"), Some(BoardEdge::Top));
    assert_eq!(BoardEdge::try_parse("invalid"), None);
}

#[test]
fn parse_coord_exact_values() {
    assert_eq!(parse_coord("10mm").unwrap().to_raw(), 3_937_008);
    assert_eq!(parse_coord(" 2.5MIL ").unwrap().to_raw(), 25_000);
    assert_eq!(parse_coord("-0.5in").unwrap().to_raw(), -5_000_000);
    assert_eq!(parse_coord("5mmmm").unwrap().to_raw(), parse_coord("5mm").unwrap().to_raw());
    assert_eq!(parse_coord(".5").unwrap().to_raw(), 5_000);
    assert_eq!(parse_coord("1e9").err().unwrap(), "Invalid coordinate: 1e9 (use '10mm', '100mil', etc.)");
    assert_eq!(parse_coord(" 12XMM ").err().unwrap(), "Invalid coordinate: 12xmm");
    assert!(parse_coord("abc").is_err());
    assert!(parse_coord(".").is_err());
    assert_eq!(parse_coord("999999999999999999mil").unwrap().to_raw(), i32::MAX);
    assert_eq!(parse_coord("-999999999999999999mil").unwrap().to_raw(), i32::MIN);
}

#[test]
fn parse_position_and_offset_forms() {
    assert!(parse_position("10mm").is_err());
    assert!(parse_position("1,2,3").unwrap_err().starts_with("Invalid position format"));
    let p = parse_position("100mil, 200mil").unwrap();
    assert_eq!((p.x.to_raw(), p.y.to_raw()), (1_000_000, 2_000_000));
    let o = parse_offset("5mil").unwrap();
    assert_eq!((o.x.to_raw(), o.y.to_raw()), (50_000, 0));
    let o = parse_offset("5mil,-5mil").unwrap();
    assert_eq!((o.x.to_raw(), o.y.to_raw()), (50_000, -50_000));
}

#[test]
fn test_position_resolution() {
    let session = PcbEditSession::new();
    let pos = Position::absolute(Coord::from_mils(100), Coord::from_mils(200));
    let point = session.resolve_position(&pos).unwrap();
    assert!((to_mils(point.x) - 100.0).abs() < 0.1);
    assert!((to_mils(point.y) - 200.0).abs() < 0.1);
}

#[test]
fn test_add_track() {
    let mut session = PcbEditSession::new();
    let idx = session.add_track(pt_mils(0, 0), pt_mils(100, 100), None, None, None).unwrap();
    assert_eq!(idx, 0);
    assert_eq!(session.count_primitives().tracks, 1);
}

#[test]
fn test_add_via() {
    let mut session = PcbEditSession::new();
    let idx = session.add_via(pt_mils(50, 50), None, None, None, None, None).unwrap();
    assert_eq!(idx, 0);
    assert_eq!(session.count_primitives().vias, 1);
}

#[test]
fn test_primitive_count() {
    let mut session = PcbEditSession::new();
    session.add_track(pt_mils(0, 0), pt_mils(100, 0), None, None, None).unwrap();
    session.add_via(pt_mils(50, 50), None, None, None, None, None).unwrap();
    let count = session.count_primitives();
    assert_eq!(count.tracks, 1);
    assert_eq!(count.vias, 1);
    assert_eq!(count.total(), 2);
}

#[test]
fn snapping_rounds_to_grid() {
    let mut session = PcbEditSession::new();
    let idx = session.add_track(pt_mils(3, 7), pt_mils(14, 16), None, None, Some("GND")).unwrap();
    let tracks = session.tracks();
    assert_eq!(tracks.len(), 1);
    assert_eq!(tracks[0].0, idx);
    assert_eq!(tracks[0].1.start, pt_mils(0, 10));
    assert_eq!(tracks[0].1.end, pt_mils(10, 20));
    assert_eq!(tracks[0].1.width.to_raw(), 100_000);
    assert_eq!(session.nets(), &["GND".to_string()]);
    session.ensure_net_exists("gnd");
    assert_eq!(session.nets().len(), 1);
    assert!(session.add_net("Gnd").is_err());
    session.add_net("VCC").unwrap();
    assert_eq!(session.nets().len(), 2);
}

#[test]
fn undo_restores_and_redo_of_add_fails() {
    let mut session = PcbEditSession::new();
    session.add_track(pt_mils(0, 0), pt_mils(100, 0), None, None, None).unwrap();
    session.add_via(pt_mils(50, 50), None, None, None, None, None).unwrap();
    session.undo().unwrap();
    assert_eq!(session.count_primitives().total(), 1);
    assert_eq!(session.redo().unwrap_err().message(), "Parse error: Cannot redo add operation");
    session.undo().unwrap();
    assert_eq!(session.count_primitives().total(), 0);
    assert!(session.undo().is_err());
}

#[test]
fn delete_then_undo_then_redo() {
    let mut session = PcbEditSession::new();
    session.add_track(pt_mils(0, 0), pt_mils(100, 0), None, None, None).unwrap();
    session.add_via(pt_mils(50, 50), None, None, None, None, None).unwrap();
    session.add_track(pt_mils(0, 0), pt_mils(0, 100), None, Some(Layer::bottom_layer()), None).unwrap();
    assert!(session.delete_primitive(7).is_err());
    session.delete_primitive(1).unwrap();
    assert_eq!(session.count_primitives().vias, 0);
    session.undo().unwrap();
    assert_eq!(session.vias().len(), 1);
    assert_eq!(session.vias()[0].0, 1);
    session.redo().unwrap();
    assert_eq!(session.vias().len(), 0);
    assert_eq!(session.delete_tracks_on_layer(Layer::bottom_layer()).unwrap(), 1);
    assert_eq!(session.tracks().len(), 1);
    assert_eq!(session.delete_all_vias().unwrap(), 0);
}

#[test]
fn track_paths_and_routes() {
    let mut session = PcbEditSession::new();
    assert!(session.add_track_path(&[pt_mils(0, 0)], None, None, None).is_err());
    let ids = session.add_track_path(&[pt_mils(0, 0), pt_mils(10, 0), pt_mils(10, 10)], None, None, None).unwrap();
    assert_eq!(ids, vec![0, 1]);
    let route = TrackPath::Manhattan {
        start: Position::absolute(Coord::from_mils(0), Coord::from_mils(0)),
        end: Position::absolute(Coord::from_mils(100), Coord::from_mils(50)),
        prefer_horizontal_first: true,
    };
    let ids = session.add_track_routed(&route, None, None, None).unwrap();
    assert_eq!(ids, vec![2, 3]);
    let tracks = session.tracks();
    assert_eq!(tracks[2].1.end, pt_mils(100, 0));
    let diag = TrackPath::Diagonal45 {
        start: Position::absolute(Coord::from_mils(0), Coord::from_mils(0)),
        end: Position::absolute(Coord::from_mils(100), Coord::from_mils(30)),
    };
    session.add_track_routed(&diag, None, None, None).unwrap();
    assert_eq!(session.tracks()[4].1.end, pt_mils(30, 30));
}

#[test]
fn pads_regions_polygons() {
    let mut session = PcbEditSession::new();
    session
        .add_through_hole_pad(pt_mils(0, 0), "1", Coord::from_mils(30), pt_mils(60, 60), PcbPadShape::Round, None)
        .unwrap();
    session
        .add_smd_pad(pt_mils(100, 0), "2", pt_mils(20, 40), PcbPadShape::Rectangular, Layer::top_layer(), None)
        .unwrap();
    assert!(session.add_region(&[pt_mils(0, 0), pt_mils(10, 0)], Layer::top_layer(), false, None).is_err());
    session.add_rectangular_region(pt_mils(0, 0), pt_mils(100, 100), Layer::top_layer(), true, None).unwrap();
    session
        .add_rectangular_polygon(pt_mils(0, 0), pt_mils(200, 200), Layer::bottom_layer(), "GND", HatchStyle::Solid)
        .unwrap();
    let pads = session.pads();
    assert_eq!(pads.len(), 2);
    assert_eq!(pads[1].1.size_layers[0], pt_mils(20, 40));
    assert!(!pads[1].1.is_plated);
    assert_eq!(session.regions()[0].1.outline.len(), 4);
    assert_eq!(session.polygons()[0].1.net_name, "GND");
    assert_eq!(session.nets().len(), 1);
    let c = session.count_primitives();
    assert_eq!((c.pads, c.regions, c.polygons), (2, 1, 1));
    let b = session.get_board_bounds();
    assert_eq!(b.location2, pt_mils(100, 100));
}

#[test]
fn relative_positions() {
    let mut session = PcbEditSession::new();
    session.add_track(pt_mils(0, 0), pt_mils(100, 0), None, None, None).unwrap();
    let p = session
        .resolve_position(&Position::RelativeTo { reference_index: 0, offset: pt_mils(0, 20) })
        .unwrap();
    assert_eq!(p, pt_mils(50, 20));
    let err = session
        .resolve_position(&Position::RelativeTo { reference_index: 9, offset: pt_mils(0, 0) })
        .unwrap_err();
    assert_eq!(err.message(), "Parse error: Invalid primitive index: 9");
    assert!(session.resolve_position(&Position::relative_to_component("U1", Coord::zero(), Coord::zero())).is_err());
    assert!(session.resolve_position(&Position::from_edge(BoardEdge::Left, Coord::zero(), Coord::zero())).is_err());
    let c = session.resolve_position(&Position::BoardCenter { offset: pt_mils(0, 0) }).unwrap();
    assert_eq!(c, pt_mils(50, 0));
}

#[test]
fn grid_snap_and_directions() {
    let g = Grid::default_grid();
    assert_eq!(g.snap_coord(Coord::from_raw(149_999)).to_raw(), 100_000);
    assert_eq!(g.snap_coord(Coord::from_raw(150_000)).to_raw(), 200_000);
    assert_eq!(g.snap_coord(Coord::from_raw(-20_000)).to_raw(), 0);
    let off = Grid { spacing: Coord::from_raw(100), snap_enabled: false };
    assert_eq!(off.snap_coord(Coord::from_raw(7)).to_raw(), 7);
    assert_eq!(Direction::Up.unit_vector(), (0, 1));
    assert_eq!(Direction::Left.opposite(), Direction::Right);
    assert_eq!(Direction::Up.perpendicular(), [Direction::Left, Direction::Right]);
    assert_eq!(Orientation::MirroredXRotated90.to_altium(), 1);
    assert!(Orientation::MirroredY.is_mirrored());
    assert!(!Orientation::Rotated180.is_mirrored());
}

#[test]
fn wire_segments_and_paths() {
    let s = WireSegment::new(pt_mils(0, 0), pt_mils(10, 0));
    assert!(s.is_horizontal());
    assert!(!s.is_vertical());
    assert!(s.contains_point(pt_mils(5, 0)));
    assert!(!s.contains_point(pt_mils(5, 1)));
    let d = WireSegment::new(pt_mils(0, 0), pt_mils(10, 10));
    assert!(d.contains_point(pt_mils(5, 5)));
    assert!(!d.contains_point(pt_mils(5, 6)));
    let mut path = RoutingPath::new();
    path.add_segment(s);
    path.add_segment(WireSegment::new(pt_mils(10, 0), pt_mils(10, -20)));
    assert_eq!(path.vertices(), vec![pt_mils(0, 0), pt_mils(10, 0), pt_mils(10, -20)]);
    assert_eq!(path.total_length().to_raw(), 300_000);
}

#[test]
fn test_pad_row_direction_parse() {
    assert_eq!(PadRowDirection::try_parse("horizontal"), Some(PadRowDirection::Horizontal));
    assert_eq!(PadRowDirection::try_parse("h"), Some(PadRowDirection::Horizontal));
    assert_eq!(PadRowDirection::try_parse("x"), Some(PadRowDirection::Horizontal));
    assert_eq!(PadRowDirection::try_parse("vertical"), Some(PadRowDirection::Vertical));
    assert_eq!(PadRowDirection::try_parse("v"), Some(PadRowDirection::Vertical));
    assert_eq!(PadRowDirection::try_parse("y"), Some(PadRowDirection::Vertical));
    assert_eq!(PadRowDirection::try_parse("invalid"), None);
}

#[test]
fn pad_row_direction_ignores_case() {
    assert_eq!(PadRowDirection::try_parse("HORIZ"), Some(PadRowDirection::Horizontal));
    assert_eq!(PadRowDirection::try_parse("Vert"), Some(PadRowDirection::Vertical));
}

#[test]
fn other_records_counted() {
    let mut session = PcbEditSession::new();
    session.doc.primitives.push(PcbRecord::Other(12));
    assert_eq!(session.count_primitives().other, 1);
    assert_eq!(session.count_primitives().total(), 1);
}

#[test]
fn snapping_negative_values_goes_to_nearest_line() {
    let g = Grid { spacing: Coord::from_raw(100_000), snap_enabled: true };
    assert_eq!(g.snap_coord(Coord::from_raw(-160_000)).to_raw(), -200_000);
    assert_eq!(g.snap_coord(Coord::from_raw(-140_000)).to_raw(), -100_000);
    assert_eq!(g.snap_coord(Coord::from_raw(-150_000)).to_raw(), -100_000);
    let p = g.snap(CoordPoint { x: Coord::from_raw(-160_000), y: Coord::from_raw(-40_000) });
    assert_eq!((p.x.to_raw(), p.y.to_raw()), (-200_000, 0));
    let q = g.snap(p);
    assert_eq!((q.x.to_raw(), q.y.to_raw()), (-200_000, 0));
}

#[test]
fn board_bounds_hold_track_ends() {
    let mut session = PcbEditSession::new();
    session.add_track(pt_mils(-30, 20), pt_mils(110, -40), None, None, None).unwrap();
    session.add_track(pt_mils(50, 70), pt_mils(60, 80), None, None, None).unwrap();
    let b = session.get_board_bounds();
    for p in [pt_mils(-30, 20), pt_mils(110, -40), pt_mils(50, 70), pt_mils(60, 80)] {
        assert!(b.location1.x.to_raw() <= p.x.to_raw() && p.x.to_raw() <= b.location2.x.to_raw());
        assert!(b.location1.y.to_raw() <= p.y.to_raw() && p.y.to_raw() <= b.location2.y.to_raw());
    }
}
