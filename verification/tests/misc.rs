use altium_format::dump::{fmt_bool, DumpOptions, DumpTree, TreeBuilder};
use altium_format::footprint::builder::{FootprintBuilder, PcbComponent};
use altium_format::import::parse::{detect_format, ImportFormat};
use altium_format::import::types::{PinElectrical, PinSide};
use altium_format::params::ParameterCollection;

#[test]
fn tree_builder_layout() {
    let mut t = TreeBuilder::new();
    t.root("Root");
    t.push(true);
    t.begin_node("first");
    t.push(false);
    t.add_leaf("leaf", &[("a", "1".to_string())]);
    t.pop();
    t.pop();
    t.push(false);
    t.add_leaf("last", &[]);
    t.pop();
    let out = t.finish();
    assert_eq!(out, "Root\n├── first\n│   └── leaf\n│           a = 1\n└── last\n");
}

#[test]
fn tree_builder_show_keys() {
    let mut params = ParameterCollection::new();
    params.add("K", "V");
    let mut t = TreeBuilder::with_options(DumpOptions { show_keys: true });
    assert!(t.show_keys());
    t.add_leaf_with_params("n", &[], Some(&params));
    assert_eq!(t.finish(), "n\n    [all keys]\n        K = V\n");
    let mut t = TreeBuilder::new();
    t.add_leaf_with_params("n", &[], Some(&params));
    assert_eq!(t.finish(), "n\n");
}

struct Thing;

impl DumpTree for Thing {
    fn dump(&self, tree: &mut TreeBuilder) {
        tree.root("thing");
    }
}

#[test]
fn dump_tree_default_methods() {
    assert_eq!(Thing.dump_to_string(), "thing\n");
    assert_eq!(Thing.dump_to_string_with_options(DumpOptions { show_keys: true }), "thing\n");
    assert_eq!(fmt_bool(true), "yes");
    assert_eq!(fmt_bool(false), "no");
}

#[test]
fn import_format_detection() {
    assert_eq!(detect_format(Some("yml")).unwrap(), ImportFormat::Yaml);
    assert_eq!(detect_format(Some("yaml")).unwrap(), ImportFormat::Yaml);
    assert_eq!(detect_format(Some("json")).unwrap(), ImportFormat::Json);
    assert_eq!(detect_format(Some("toml")).unwrap(), ImportFormat::Toml);
    assert_eq!(
        detect_format(Some("txt")).unwrap_err(),
        "Unknown import file extension '.txt'. Use .yml, .yaml, .json, or .toml"
    );
    assert!(detect_format(None).unwrap_err().starts_with("Import file must have an extension"));
}

#[test]
fn pin_names() {
    assert_eq!(PinElectrical::Hiz.to_str(), "hiz");
    assert_eq!(PinElectrical::Passive.to_str(), "passive");
    assert_eq!(PinSide::Bottom.to_str(), "bottom");
}

#[test]
fn footprint_builder_and_component() {
    let b = FootprintBuilder::new("TEST").description("Test footprint");
    let _ = b;
    let mut c = PcbComponent::new_deterministic("SOIC-8");
    c.set_description("eight pins");
    assert_eq!(c.pattern, "SOIC-8");
    assert_eq!(c.description, "eight pins");
    assert_eq!(c.item_guid.len(), 36);
    assert!(c.remove_primitive(0).is_none());
    assert!(c.find_pad("1").is_none());
}

#[test]
fn component_guids_are_hyphenated_v4_text() {
    let c = PcbComponent::new_deterministic("SOIC8");
    for g in [&c.item_guid, &c.revision_guid] {
        let b = g.as_bytes();
        assert_eq!(b.len(), 36);
        for (i, ch) in b.iter().enumerate() {
            if i == 8 || i == 13 || i == 18 || i == 23 {
                assert_eq!(*ch, b'-');
            } else {
                assert!(ch.is_ascii_digit() || (b'a'..=b'f').contains(ch));
            }
        }
        assert_eq!(b[14], b'4');
    }
    assert_ne!(c.item_guid, c.revision_guid);
}

#[test]
fn windows_1252_values_decode_by_table() {
    let p = ParameterCollection::from_bytes(b"|A=\x80\x81\x9f\xe9");
    assert_eq!(p.get("A").unwrap().as_str(), "\u{20ac}\u{81}\u{178}\u{e9}");
}
