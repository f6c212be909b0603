use altium_format::edit::library::{parse_designator, LibraryManager, SchLib, SchLibComponent};
use altium_format::edit::sch_records::{
    SchArc, SchComponent, SchDesignator, SchLine, SchPin, SchRecord,
};
use altium_format::edit::types::Orientation;
use altium_format::types::{Coord, CoordPoint};

fn component_record(name: &str) -> SchComponent {
    SchComponent {
        lib_reference: name.to_string(),
        description: String::new(),
        owner_index: -1,
        location_x: 0,
        location_y: 0,
        orientation: 0,
        library_path: String::new(),
        source_library_name: String::new(),
        unique_id: String::new(),
    }
}

fn resistor_lib() -> SchLib {
    let comp = component_record("RES");
    let pin = SchRecord::Pin(SchPin {
        owner_index: 0,
        location_x: 100_000,
        location_y: 0,
        pin_length: 100_000,
        rotated: false,
        flipped: false,
        designator: "1".to_string(),
        name: "A".to_string(),
    });
    let line = SchRecord::Line(SchLine { owner_index: 0, location_x: 0, location_y: 0, corner_x: 100_000, corner_y: 50_000 });
    SchLib {
        components: vec![SchLibComponent {
            name: "RES".to_string(),
            description: "Resistor 0603".to_string(),
            component: comp.clone(),
            primitives: vec![SchRecord::Component(comp), pin, line],
        }],
    }
}

fn pt(x: i32, y: i32) -> CoordPoint {
    CoordPoint { x: Coord { raw: x }, y: Coord { raw: y } }
}

#[test]
fn designator_parsing() {
    assert_eq!(parse_designator("R12"), Some((b"R".to_vec(), 12)));
    assert_eq!(parse_designator("SW3"), Some((b"SW".to_vec(), 3)));
    assert_eq!(parse_designator("12"), None);
    assert_eq!(parse_designator("R"), None);
    assert_eq!(parse_designator("R1A"), None);
    assert_eq!(parse_designator("R99999999999"), None);
}

#[test]
fn next_designator_counts_from_existing() {
    let mut m = LibraryManager::new();
    let prims = vec![
        SchRecord::Designator(SchDesignator { owner_index: 0, location_x: 0, location_y: 0, text: "R3".to_string() }),
        SchRecord::Designator(SchDesignator { owner_index: 1, location_x: 0, location_y: 0, text: "R7".to_string() }),
        SchRecord::Designator(SchDesignator { owner_index: 2, location_x: 0, location_y: 0, text: "C2".to_string() }),
    ];
    m.init_designators_from(&prims);
    assert_eq!(m.next_designator("R"), "R8");
    assert_eq!(m.next_designator("R"), "R9");
    assert_eq!(m.next_designator("C"), "C3");
    assert_eq!(m.next_designator("U"), "U1");
}

#[test]
fn suggest_prefix_by_name() {
    let m = LibraryManager::new();
    assert_eq!(m.suggest_designator_prefix("Resistor_0603"), "R");
    assert_eq!(m.suggest_designator_prefix("cap"), "C");
    assert_eq!(m.suggest_designator_prefix("MOSFET-N"), "Q");
    assert_eq!(m.suggest_designator_prefix("Green LED"), "D");
    assert_eq!(m.suggest_designator_prefix("Header 2x5"), "J");
    assert_eq!(m.suggest_designator_prefix("ATmega328"), "U");
    assert_eq!(m.suggest_designator_prefix("Tactile Switch"), "SW");
}

#[test]
fn library_lookup_and_search() {
    let mut m = LibraryManager::new();
    m.load_library("lib/passives.SchLib", resistor_lib()).unwrap();
    m.load_library("lib/passives.SchLib", SchLib { components: Vec::new() }).unwrap();
    assert_eq!(m.list_libraries(), vec!["lib/passives.SchLib"]);
    let (path, c) = m.find_component("RES").unwrap();
    assert_eq!(path, "lib/passives.SchLib");
    assert_eq!(c.description, "Resistor 0603");
    assert!(m.find_component("CAP").is_none());
    assert_eq!(m.search_components("0603").len(), 1);
    assert_eq!(m.search_components("res").len(), 1);
    assert!(m.search_components("xyz").is_empty());
    assert!(m.get_library("other").is_none());
}

#[test]
fn instantiate_places_and_rotates() {
    let mut m = LibraryManager::new();
    m.load_library("lib/passives.SchLib", resistor_lib()).unwrap();
    let mut prims: Vec<SchRecord> = vec![SchRecord::Other(31)];
    let idx = m
        .instantiate_component("RES", pt(1_000_000, 2_000_000), Orientation::Rotated90, None, &mut prims)
        .unwrap();
    assert_eq!(idx, 1);
    assert_eq!(prims.len(), 5);
    match &prims[1] {
        SchRecord::Component(c) => {
            assert_eq!(c.location_x, 1_000_000);
            assert_eq!(c.orientation, 1);
            assert!(c.unique_id.starts_with("R1_"));
            assert_eq!(c.library_path, "lib/passives.SchLib");
        }
        _ => panic!("expected the component record"),
    }
    match &prims[2] {
        SchRecord::Pin(p) => {
            assert_eq!((p.location_x, p.location_y), (1_000_000, 2_100_000));
            assert!(p.rotated);
            assert_eq!(p.owner_index, 1);
        }
        _ => panic!("expected a pin"),
    }
    match &prims[3] {
        SchRecord::Line(l) => assert_eq!((l.corner_x, l.corner_y), (950_000, 2_100_000)),
        _ => panic!("expected a line"),
    }
    match &prims[4] {
        SchRecord::Designator(d) => {
            assert_eq!(d.text, "R1");
            assert_eq!((d.location_x, d.location_y), (1_100_000, 2_300_000));
        }
        _ => panic!("expected a designator"),
    }
    let err = m.instantiate_component("NOPE", pt(0, 0), Orientation::Normal, Some("U1"), &mut prims).err().unwrap();
    assert_eq!(err.message(), "Parse error: Component not found: NOPE");
}

#[test]
fn transform_turns_arc_angles() {
    let m = LibraryManager::new();
    let arc = SchRecord::Arc(SchArc { owner_index: 0, location_x: 0, location_y: 0, radius: 5, start_angle: 300, end_angle: 10 });
    match m.transform_primitive(&arc, pt(0, 0), Orientation::Rotated180, 4, "U1") {
        SchRecord::Arc(a) => {
            assert_eq!((a.start_angle, a.end_angle), (120, 190));
            assert_eq!(a.owner_index, 4);
        }
        _ => panic!("expected an arc"),
    }
}

#[test]
fn mirrored_quarter_turn_keeps_pin_rotation_flag() {
    let mut m = LibraryManager::new();
    m.load_library("lib/passives.SchLib", resistor_lib()).unwrap();
    let mut prims: Vec<SchRecord> = Vec::new();
    m.instantiate_component("RES", pt(0, 0), Orientation::MirroredXRotated90, None, &mut prims).unwrap();
    let pins: Vec<bool> = prims
        .iter()
        .filter_map(|r| match r {
            SchRecord::Pin(p) => Some(p.rotated),
            _ => None,
        })
        .collect();
    assert!(!pins.is_empty());
    assert!(pins.iter().all(|r| !r));
}

#[test]
fn instantiated_component_id_is_designator_and_uuid() {
    let mut m = LibraryManager::new();
    m.load_library("lib/passives.SchLib", resistor_lib()).unwrap();
    let mut prims: Vec<SchRecord> = Vec::new();
    let idx = m.instantiate_component("RES", pt(0, 0), Orientation::Normal, Some("R7"), &mut prims).unwrap();
    match &prims[idx] {
        SchRecord::Component(c) => {
            assert_eq!(c.unique_id.len(), 3 + 32);
            assert!(c.unique_id.starts_with("R7_"));
            let tail = &c.unique_id.as_bytes()[3..];
            assert!(tail.iter().all(|ch| ch.is_ascii_digit() || (b'a'..=b'f').contains(ch)));
            assert_eq!(tail[12], b'4');
        }
        _ => panic!("expected the component record"),
    }
}
