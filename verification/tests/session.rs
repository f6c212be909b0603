use altium_format::edit::library::{SchLib, SchLibComponent};
use altium_format::edit::sch_records::{
    SchComponent, SchDesignator, SchJunction, SchLine, SchPin, SchRecord, SchWire,
};
use altium_format::edit::session::EditSession;
use altium_format::edit::types::{Orientation, ValidationErrorKind};
use altium_format::error::AltiumError;
use altium_format::types::{Coord, CoordPoint};

fn pt(x: i32, y: i32) -> CoordPoint {
    CoordPoint { x: Coord { raw: x }, y: Coord { raw: y } }
}

fn component_record(name: &str) -> SchComponent {
    SchComponent {
        lib_reference: name.to_string(),
        description: String::new(),
        owner_index: -1,
        location_x: 0,
        location_y: 0,
        orientation: 0,
        library_path: String::new(),
        source_library_name: String::new(),
        unique_id: String::new(),
    }
}

/// A resistor whose one pin sits at (100000, 0) with its hot end at
/// (200000, 0), and a body line.
fn resistor_lib() -> SchLib {
    let comp = component_record("RES");
    let pin = SchRecord::Pin(SchPin {
        owner_index: 0,
        location_x: 100_000,
        location_y: 0,
        pin_length: 100_000,
        rotated: false,
        flipped: false,
        designator: "1".to_string(),
        name: "A".to_string(),
    });
    let line = SchRecord::Line(SchLine { owner_index: 0, location_x: 0, location_y: 0, corner_x: 100_000, corner_y: 50_000 });
    SchLib {
        components: vec![SchLibComponent {
            name: "RES".to_string(),
            description: "Resistor".to_string(),
            component: comp.clone(),
            primitives: vec![SchRecord::Component(comp), pin, line],
        }],
    }
}

fn message(e: AltiumError) -> String {
    match e {
        AltiumError::Parse(m) => m,
        _ => panic!("unexpected error kind"),
    }
}

fn session_with_resistors() -> EditSession {
    let mut s = EditSession::new();
    s.load_library("lib/passives.SchLib", resistor_lib()).unwrap();
    assert_eq!(s.add_component("RES", pt(0, 0), Orientation::Normal, None).unwrap(), 0);
    assert_eq!(s.add_component("RES", pt(2_000_000, 0), Orientation::Normal, None).unwrap(), 4);
    s
}

#[test]
fn session_starts_empty() {
    let s = EditSession::new();
    assert!(s.doc().primitives.is_empty());
    assert!(!s.is_modified());
    assert_eq!(s.history_count(), 0);
    assert!(!s.can_undo());
    assert!(!s.can_redo());
    assert!(s.source_path().is_none());
}

#[test]
fn session_add_wire_snaps_and_records() {
    let mut s = EditSession::new();
    let err = s.add_wire(&[pt(0, 0)]).unwrap_err();
    assert_eq!(message(err), "Wire must have at least 2 vertices");
    assert!(!s.is_modified());
    let i = s.add_wire(&[pt(12_000, 49_000), pt(1_040_000, 51_000)]).unwrap();
    assert_eq!(i, 0);
    match &s.doc().primitives[0] {
        SchRecord::Wire(w) => assert_eq!(w.vertices, vec![(0, 0), (1_000_000, 100_000)]),
        _ => panic!("expected a wire"),
    }
    assert!(s.is_modified());
    assert_eq!(s.history_count(), 1);
    assert_eq!(s.recent_operations(5), vec!["Add wire".to_string()]);
}

#[test]
fn session_components_get_designators_and_history() {
    let s = session_with_resistors();
    assert_eq!(s.doc().primitives.len(), 8);
    assert_eq!(s.find_designator(0), Some("R1".to_string()));
    assert_eq!(s.find_designator(4), Some("R2".to_string()));
    assert_eq!(
        s.recent_operations(10),
        vec!["Add component R2".to_string(), "Add component R1".to_string()]
    );
    assert_eq!(s.recent_operations(1), vec!["Add component R2".to_string()]);
}

#[test]
fn session_unknown_component_is_error() {
    let mut s = EditSession::new();
    s.load_library("lib/passives.SchLib", resistor_lib()).unwrap();
    let err = s.add_component("CAP", pt(0, 0), Orientation::Normal, None).unwrap_err();
    assert_eq!(message(err), "Component not found: CAP");
    assert!(s.doc().primitives.is_empty());
}

#[test]
fn session_move_component_moves_owned_records() {
    let mut s = session_with_resistors();
    s.move_component(0, pt(510_000, 290_000)).unwrap();
    let prims = &s.doc().primitives;
    match &prims[0] {
        SchRecord::Component(c) => assert_eq!((c.location_x, c.location_y), (500_000, 300_000)),
        _ => panic!("expected a component"),
    }
    match &prims[1] {
        SchRecord::Pin(p) => assert_eq!((p.location_x, p.location_y), (600_000, 300_000)),
        _ => panic!("expected a pin"),
    }
    match &prims[2] {
        SchRecord::Line(l) => assert_eq!((l.location_x, l.location_y, l.corner_x, l.corner_y), (500_000, 300_000, 600_000, 350_000)),
        _ => panic!("expected a line"),
    }
    // The second component's pin does not move.
    match &prims[5] {
        SchRecord::Pin(p) => assert_eq!((p.location_x, p.location_y), (2_100_000, 0)),
        _ => panic!("expected a pin"),
    }
    assert_eq!(s.recent_operations(1), vec!["Move component at index 0".to_string()]);
    assert_eq!(message(s.move_component(1, pt(0, 0)).unwrap_err()), "Not a component");
    assert_eq!(message(s.move_component(99, pt(0, 0)).unwrap_err()), "Component not found");
}

#[test]
fn session_delete_component_remaps_owners() {
    let mut s = session_with_resistors();
    s.delete_component(0).unwrap();
    let prims = &s.doc().primitives;
    assert_eq!(prims.len(), 4);
    assert!(matches!(prims[0], SchRecord::Component(_)));
    match &prims[1] {
        SchRecord::Pin(p) => assert_eq!(p.owner_index, 0),
        _ => panic!("expected a pin"),
    }
    match &prims[3] {
        SchRecord::Designator(d) => {
            assert_eq!(d.owner_index, 0);
            assert_eq!(d.text, "R2");
        },
        _ => panic!("expected a designator"),
    }
    assert_eq!(s.recent_operations(1), vec!["Remove component R1".to_string()]);
    assert_eq!(message(s.delete_component(1).unwrap_err()), "Not a component");
}

#[test]
fn session_delete_wire() {
    let mut s = EditSession::new();
    s.add_wire(&[pt(0, 0), pt(100_000, 0)]).unwrap();
    assert_eq!(message(s.delete_wire(1).unwrap_err()), "Not a wire");
    s.delete_wire(0).unwrap();
    assert!(s.doc().primitives.is_empty());
    assert_eq!(s.recent_operations(2), vec!["Remove wire".to_string(), "Add wire".to_string()]);
}

#[test]
fn session_labels_ports_and_junctions() {
    let mut s = EditSession::new();
    assert_eq!(s.add_net_label("CLK", pt(101_000, 0)).unwrap(), 0);
    assert_eq!(s.add_power_port("VCC", pt(0, 199_000), 2, 0).unwrap(), 1);
    assert_eq!(s.add_junction(pt(49_999, 50_000)).unwrap(), 2);
    assert_eq!(s.add_port("DATA", pt(0, 0), 3).unwrap(), 3);
    let prims = &s.doc().primitives;
    match &prims[0] {
        SchRecord::NetLabel(l) => assert_eq!((l.location_x, l.location_y, l.text.as_str()), (100_000, 0, "CLK")),
        _ => panic!("expected a net label"),
    }
    match &prims[1] {
        SchRecord::PowerObject(p) => assert_eq!((p.location_x, p.location_y, p.style), (0, 200_000, 2)),
        _ => panic!("expected a power port"),
    }
    match &prims[2] {
        SchRecord::Junction(j) => assert_eq!((j.location_x, j.location_y), (0, 100_000)),
        _ => panic!("expected a junction"),
    }
    // Ports are not recorded in the history.
    assert_eq!(
        s.recent_operations(10),
        vec!["Add junction".to_string(), "Add power port VCC".to_string(), "Add net label CLK".to_string()]
    );
}

#[test]
fn session_connect_pins_routes_between_pins() {
    let mut s = session_with_resistors();
    // R1's pin end is at (200000, 0), R2's at (2200000, 0).
    let i = s.connect_pins("R1", "1", "R2", "A").unwrap();
    assert_eq!(i, 8);
    match &s.doc().primitives[8] {
        SchRecord::Wire(w) => {
            assert_eq!(w.vertices.first(), Some(&(200_000, 0)));
            assert_eq!(w.vertices.last(), Some(&(2_200_000, 0)));
        },
        _ => panic!("expected a wire"),
    }
    assert_eq!(message(s.connect_pins("R9", "1", "R2", "1").unwrap_err()), "Component not found: R9");
    assert_eq!(message(s.connect_pins("R1", "7", "R2", "1").unwrap_err()), "Pin not found: R1.7");
}

#[test]
fn session_route_wire_adds_junction_where_it_crosses() {
    let mut s = EditSession::new();
    s.add_wire(&[pt(500_000, -1_000_000), pt(500_000, 1_000_000)]).unwrap();
    let i = s.route_wire(pt(0, 0), pt(1_000_000, 0)).unwrap();
    assert_eq!(i, 1);
    assert_eq!(s.doc().primitives.len(), 3);
    match &s.doc().primitives[2] {
        SchRecord::Junction(j) => assert_eq!((j.location_x, j.location_y), (500_000, 0)),
        _ => panic!("expected a junction"),
    }
}

#[test]
fn session_smart_wire_pin_adds_stub_and_label() {
    let mut s = session_with_resistors();
    let (w, l) = s.smart_wire_pin("R1", "1", "GND", Some(4), 200_000).unwrap();
    assert_eq!((w, l), (8, 9));
    match &s.doc().primitives[8] {
        SchRecord::Wire(wire) => assert_eq!(wire.vertices, vec![(200_000, 0), (400_000, 0)]),
        _ => panic!("expected a wire"),
    }
    match &s.doc().primitives[9] {
        // The pin faces right, so the symbol is rotated and flipped.
        SchRecord::PowerObject(p) => assert_eq!((p.location_x, p.style, p.orientation), (400_000, 4, 3)),
        _ => panic!("expected a power port"),
    }
    let (_, l2) = s.smart_wire_pin("R2", "A", "OUT", None, 100_000).unwrap();
    match &s.doc().primitives[l2] {
        SchRecord::NetLabel(n) => assert_eq!((n.location_x, n.text.as_str()), (2_300_000, "OUT")),
        _ => panic!("expected a net label"),
    }
}

#[test]
fn session_buses_and_bus_entries() {
    let mut s = EditSession::new();
    assert_eq!(message(s.add_bus(&[pt(0, 0)]).unwrap_err()), "Bus must have at least 2 vertices");
    let b = s.add_bus(&[pt(1_000_000, 0), pt(1_000_000, 2_000_000)]).unwrap();
    assert_eq!(s.find_buses().len(), 1);
    assert_eq!(s.find_bus_at(pt(1_050_000, 500_000)).map(|f| f.0), Some(b));
    assert!(s.find_bus_at(pt(1_200_000, 500_000)).is_none());
    assert_eq!(message(s.route_to_bus(pt(0, 0), pt(3_000_000, 0)).unwrap_err()), "No bus found at specified point");
    let (wire, entry) = s.route_to_bus(pt(0, 500_000), pt(1_050_000, 500_000)).unwrap();
    assert_eq!(entry, 1);
    match &s.doc().primitives[entry] {
        SchRecord::BusEntry(e) => assert_eq!(
            (e.location_x, e.location_y, e.corner_x, e.corner_y),
            (1_000_000, 500_000, 900_000, 400_000)
        ),
        _ => panic!("expected a bus entry"),
    }
    match &s.doc().primitives[wire] {
        SchRecord::Wire(w) => {
            assert_eq!(w.vertices.first(), Some(&(0, 500_000)));
            assert_eq!(w.vertices.last(), Some(&(900_000, 400_000)));
        },
        _ => panic!("expected a wire"),
    }
}

#[test]
fn session_validate_reports_problems() {
    let mut s = session_with_resistors();
    // A third resistor overlapping the first, with a duplicate designator.
    s.add_component("RES", pt(0, 0), Orientation::Normal, Some("R1")).unwrap();
    let errors = s.validate();
    let overlaps: Vec<_> = errors.iter().filter(|e| e.kind == ValidationErrorKind::ComponentOverlap).collect();
    assert_eq!(overlaps.len(), 1);
    assert_eq!(overlaps[0].message, "Components R1 and R1 overlap");
    assert_eq!(overlaps[0].components, vec!["R1".to_string(), "R1".to_string()]);
    let dups: Vec<_> = errors.iter().filter(|e| e.kind == ValidationErrorKind::DuplicateDesignator).collect();
    assert_eq!(dups.len(), 1);
    assert_eq!(dups[0].message, "Duplicate designator: R1 (appears 2 times)");
    // The two resistors at the origin share their pin end; only R2's pin is
    // left unconnected.
    let unconnected: Vec<_> = errors.iter().filter(|e| e.kind == ValidationErrorKind::UnconnectedPin).collect();
    assert_eq!(unconnected.len(), 1);
    assert_eq!(unconnected[0].message, "Unconnected pin: R2.1");
    assert_eq!(unconnected[0].location, Some(pt(2_200_000, 0)));
}

#[test]
fn session_missing_junctions_found_and_added() {
    let mut s = EditSession::new();
    s.add_wire(&[pt(0, 0), pt(1_000_000, 0)]).unwrap();
    s.add_wire(&[pt(1_000_000, 0), pt(2_000_000, 0)]).unwrap();
    s.add_wire(&[pt(1_000_000, 0), pt(1_000_000, 1_000_000)]).unwrap();
    assert_eq!(s.find_missing_junctions(), vec![(1_000_000, 0)]);
    let errors = s.validate();
    let missing: Vec<_> = errors.iter().filter(|e| e.kind == ValidationErrorKind::MissingJunction).collect();
    assert_eq!(missing.len(), 1);
    assert_eq!(missing[0].message, "Missing junction at (100, 0)");
    assert_eq!(s.add_missing_junctions().unwrap(), 1);
    assert!(matches!(s.doc().primitives[3], SchRecord::Junction(SchJunction { location_x: 1_000_000, location_y: 0 })));
    assert!(s.find_missing_junctions().is_empty());
}

#[test]
fn session_with_document_keeps_records_and_counters() {
    let prims = vec![
        SchRecord::Component(component_record("RES")),
        SchRecord::Designator(SchDesignator { owner_index: 0, location_x: 0, location_y: 0, text: "R4".to_string() }),
        SchRecord::Wire(SchWire { vertices: vec![(0, 0), (100_000, 0)] }),
    ];
    let mut s = EditSession::with_document(prims, Some("sheet.SchDoc".to_string()));
    assert_eq!(s.source_path(), Some("sheet.SchDoc"));
    assert!(!s.is_modified());
    s.load_library("lib/passives.SchLib", resistor_lib()).unwrap();
    let i = s.add_component("RES", pt(3_000_000, 0), Orientation::Normal, None).unwrap();
    assert_eq!(s.find_designator(i), Some("R5".to_string()));
    s.mark_saved("copy.SchDoc");
    assert!(!s.is_modified());
    assert_eq!(s.source_path(), Some("copy.SchDoc"));
}

#[test]
fn session_delete_added_wire_restores_sheet() {
    let mut s = session_with_resistors();
    let before: Vec<String> = s.doc().primitives.iter().map(|r| format!("{:?}", r)).collect();
    let i = s.add_wire(&[pt(0, 1_000_000), pt(500_000, 1_000_000)]).unwrap();
    s.delete_wire(i).unwrap();
    let after: Vec<String> = s.doc().primitives.iter().map(|r| format!("{:?}", r)).collect();
    assert_eq!(before, after);
}
