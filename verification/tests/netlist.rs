use altium_format::edit::netlist::{ConnectionKind, NetlistBuilder};
use altium_format::edit::sch_records::{
    SchDesignator, SchJunction, SchNetLabel, SchPin, SchPowerObject, SchRecord, SchWire,
};

fn pin(owner: i32, x: i32, y: i32, len: i32, rotated: bool, flipped: bool, des: &str) -> SchRecord {
    SchRecord::Pin(SchPin {
        owner_index: owner,
        location_x: x,
        location_y: y,
        pin_length: len,
        rotated,
        flipped,
        designator: des.to_string(),
        name: String::new(),
    })
}

fn designator(owner: i32, text: &str) -> SchRecord {
    SchRecord::Designator(SchDesignator { owner_index: owner, location_x: 0, location_y: 0, text: text.to_string() })
}

fn wire(vs: &[(i32, i32)]) -> SchRecord {
    SchRecord::Wire(SchWire { vertices: vs.to_vec() })
}

fn sample() -> Vec<SchRecord> {
    vec![
        designator(0, "U1"),
        designator(1, "R1"),
        pin(0, 0, 0, 100_000, false, false, "1"),
        pin(1, 500_000, 0, 100_000, false, true, "2"),
        wire(&[(100_000, 0), (400_000, 0)]),
        SchRecord::NetLabel(SchNetLabel { location_x: 200_000, location_y: 0, text: "SIG".to_string() }),
        pin(0, 0, 900_000, 100_000, true, false, "3"),
    ]
}

#[test]
fn netlist_joins_pins_through_wire_and_label() {
    let nl = NetlistBuilder::new().build(&sample());
    assert_eq!(nl.nets.len(), 2);
    let sig = nl.get_by_name("SIG").unwrap();
    assert!(sig.named);
    assert_eq!(sig.connections.len(), 5);
    assert_eq!(sig.pins(), vec![("U1", "1"), ("R1", "2")]);
    assert!(sig.connects_to("R1"));
    let lone = nl.get_by_name("Net1").unwrap();
    assert!(!lone.named);
    assert_eq!(lone.pins(), vec![("U1", "3")]);
    assert_eq!(nl.nets_for_component("U1").len(), 2);
    assert_eq!(nl.nets_for_component("R1").len(), 1);
    assert_eq!(nl.net_at(0, 1_000_000).unwrap().name, "Net1");
    assert!(nl.net_at(1, 1).is_none());
}

#[test]
fn netlist_nets_sorted_by_name() {
    let mut prims = sample();
    prims.push(SchRecord::PowerObject(SchPowerObject { location_x: 0, location_y: 1_000_000, text: "AVCC".to_string(), style: 0, orientation: 0 }));
    let nl = NetlistBuilder::new().build(&prims);
    let names: Vec<&str> = nl.nets.iter().map(|n| n.name.as_str()).collect();
    assert_eq!(names, vec!["AVCC", "SIG"]);
}

#[test]
fn unconnected_pins_are_reported() {
    let nl = NetlistBuilder::new();
    let lone = nl.find_unconnected_pins(&sample());
    assert_eq!(lone, vec![("U1".to_string(), "3".to_string(), (0, 1_000_000))]);
}

#[test]
fn pin_endpoint_follows_rotation_and_flip() {
    let prims = vec![designator(0, "U9"), pin(0, 10, 20, 100_000, true, true, "1")];
    let nl = NetlistBuilder::new().build(&prims);
    let c = &nl.nets[0].connections[0];
    assert_eq!(c.location, (10, 20 - 100_000));
    match &c.kind {
        ConnectionKind::Pin { component, pin } => {
            assert_eq!(component, "U9");
            assert_eq!(pin, "1");
        }
        _ => panic!("expected a pin"),
    }
}

#[test]
fn missing_junction_at_tee() {
    let prims = vec![
        wire(&[(0, 0), (200_000, 0)]),
        wire(&[(100_000, 0), (100_000, 100_000)]),
        wire(&[(100_000, 0), (100_000, -100_000)]),
    ];
    let b = NetlistBuilder::new();
    assert_eq!(b.find_missing_junctions(&prims), vec![(100_000, 0)]);
    let mut with_junction = prims.clone();
    with_junction.push(SchRecord::Junction(SchJunction { location_x: 100_000, location_y: 0 }));
    assert!(b.find_missing_junctions(&with_junction).is_empty());
}

#[test]
fn tolerance_joins_nearby_points() {
    let prims = vec![
        SchRecord::NetLabel(SchNetLabel { location_x: 100_005, location_y: 0, text: "A".to_string() }),
        SchRecord::Junction(SchJunction { location_x: 100_001, location_y: 0 }),
    ];
    assert_eq!(NetlistBuilder::new().build(&prims).nets.len(), 1);
    assert_eq!(NetlistBuilder::new().with_tolerance_raw(1).build(&prims).nets.len(), 2);
}

#[test]
fn net_takes_first_label_and_unnamed_nets_are_numbered() {
    let prims = vec![
        wire(&[(0, 0), (1_000_000, 0)]),
        SchRecord::NetLabel(SchNetLabel { location_x: 0, location_y: 0, text: "FIRST".to_string() }),
        SchRecord::NetLabel(SchNetLabel { location_x: 1_000_000, location_y: 0, text: "SECOND".to_string() }),
        SchRecord::Junction(SchJunction { location_x: 5_000_000, location_y: 5_000_000 }),
        SchRecord::Junction(SchJunction { location_x: 9_000_000, location_y: 9_000_000 }),
    ];
    let nl = NetlistBuilder::new().build(&prims);
    let names: Vec<String> = nl.nets.iter().map(|n| n.name.clone()).collect();
    assert_eq!(names, vec!["FIRST".to_string(), "Net1".to_string(), "Net2".to_string()]);
    assert!(nl.nets[0].named);
    assert!(!nl.nets[1].named && !nl.nets[2].named);
    assert_eq!(nl.nets[0].connections.len(), 4);
}
