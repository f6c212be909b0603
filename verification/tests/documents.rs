use altium_format::documents::pcbdoc::PcbDoc;
use altium_format::documents::pcbdoc_streams::{PcbDocPrimitiveSectionMeta, PcbDocSection, PcbDocSectionMeta};
use altium_format::documents::pcblib_streams::{
    parse_file_header_stream, parse_param_table_stream, parse_primitive_guids_stream, parse_wide_strings_stream,
    serialize_param_table_stream, PcbLibFileHeaderStreamMeta,
    serialize_primitive_guids_stream, serialize_wide_strings_stream, PcbLibParamTableStreamMeta,
    PcbLibPrimitiveGuidEntry, PcbLibPrimitiveGuidsStreamMeta, PcbLibWideStringsStreamMeta,
};
use altium_format::documents::schdoc::{
    RecordNode, RecordOrigin, SchDoc, SchDocFileHeaderStreamMeta, SchDocStorageStreamMeta, SchDocStream,
};
use altium_format::documents::schdoc_io::{
    collect_schdoc_root_stream_paths, parse_file_header_meta_and_blocks, parse_record_blocks,
};
use altium_format::documents::schlib_streams::{
    parse_component_embedded_stream, serialize_component_embedded_stream, SchLibEmbeddedObjectEntry,
    SchLibEmbeddedObjectStreamMeta, STREAM_PIN_FRAC,
};
use altium_format::params::ParameterCollection;

fn tracks_section(header_count: u32) -> PcbDocSection {
    PcbDocSection {
        name: b"Tracks6".to_vec(),
        meta: PcbDocSectionMeta::Primitive(PcbDocPrimitiveSectionMeta {
            object_id: 4,
            header_count,
            record_ids: Vec::new(),
        }),
    }
}

#[test]
fn add_primitive_record_and_query_roundtrip() {
    let mut doc = PcbDoc::new_empty();
    let mut meta = doc.streams_meta();
    meta.sections.push(tracks_section(1));
    doc.set_streams_meta(meta).expect("set_streams_meta");

    doc.add_primitive_record("Tracks6", 4, RecordOrigin::Binary(vec![4, 0, 0, 0, 1, 2, 3]))
        .expect("add track primitive");

    let tracks = doc.primitive_records("Tracks6");
    assert_eq!(tracks.len(), 1);
    assert_eq!(tracks[0].0, 4);

    let bytes = doc.to_cfb_bytes().expect("save pcbdoc");
    let reopened = PcbDoc::from_cfb_bytes(&bytes).expect("reopen pcbdoc");
    assert_eq!(reopened.primitive_records("Tracks6").len(), 1);
}

#[test]
fn add_primitive_record_rejects_mismatched_section_type() {
    let mut doc = PcbDoc::new_empty();
    let mut meta = doc.streams_meta();
    meta.sections.push(tracks_section(0));
    doc.set_streams_meta(meta).expect("set_streams_meta");

    let err = doc
        .add_primitive_record("Tracks6", 1, RecordOrigin::Binary(vec![1, 0, 0, 0]))
        .err()
        .expect("expected mismatched object_id error");
    assert!(err.message().contains("expects object_id"), "unexpected error: {:?}", err);
}

#[test]
fn new_pcbdoc_file_header() {
    let doc = PcbDoc::new_empty();
    let meta = doc.streams_meta();
    let mut expected = 19u32.to_le_bytes().to_vec();
    for ch in "PCB 5.0 Binary File".encode_utf16() {
        expected.extend_from_slice(&ch.to_le_bytes());
    }
    assert_eq!(meta.file_header, expected);
    assert!(meta.sections.is_empty());
}

#[test]
fn add_primitive_record_rejects_param_and_missing_section() {
    let mut doc = PcbDoc::new_empty();
    let err = doc.add_primitive_record("Tracks6", 4, RecordOrigin::Binary(vec![4, 0, 0, 0])).err().unwrap();
    assert!(err.message().contains("does not exist"));
    let mut meta = doc.streams_meta();
    meta.sections.push(tracks_section(0));
    doc.set_streams_meta(meta).unwrap();
    let err = doc
        .add_primitive_record("Tracks6", 4, RecordOrigin::Param(ParameterCollection::new()))
        .err()
        .unwrap();
    assert!(err.message().contains("requires binary primitive records (got param record_id=4)"));
    assert!(doc.primitive_records("Tracks6").is_empty());
}

#[test]
fn wide_strings_roundtrip() {
    let mut p0 = ParameterCollection::new();
    p0.add("ENCODEDTEXT0", "65,66,67");
    let meta = PcbLibWideStringsStreamMeta { entries: vec![p0] };
    let data = serialize_wide_strings_stream(&meta, "U1/WideStrings").unwrap();
    let parsed = parse_wide_strings_stream(&data, "U1/WideStrings").unwrap();
    assert_eq!(parsed.entries.len(), 1);
    assert_eq!(
        parsed.entries[0].get("ENCODEDTEXT0").map(|v| v.as_str().to_string()),
        Some("65,66,67".to_string())
    );
}

#[test]
fn primitive_guids_roundtrip() {
    let meta = PcbLibPrimitiveGuidsStreamMeta {
        entries: vec![
            PcbLibPrimitiveGuidEntry { tag: 2, index: 0, guid: vec![1u8; 16] },
            PcbLibPrimitiveGuidEntry { tag: 4, index: 1, guid: vec![2u8; 16] },
        ],
    };
    let (header, data) = serialize_primitive_guids_stream(&meta).unwrap();
    let parsed = parse_primitive_guids_stream(&header, &data, "U1/PrimitiveGuids").unwrap();
    assert_eq!(parsed.entries.len(), 2);
    assert_eq!(parsed.entries[0].tag, 2);
    assert_eq!(parsed.entries[1].index, 1);
    assert_eq!(parsed.entries[1].guid, vec![2u8; 16]);
}

#[test]
fn param_table_count_mismatch_is_error() {
    let mut p0 = ParameterCollection::new();
    p0.add("PRIMITIVEINDEX", "0");
    let meta = PcbLibParamTableStreamMeta { entries: vec![p0] };
    let (_header, data) = serialize_param_table_stream(&meta, "U1/UniqueIDPrimitiveInformation").unwrap();
    let bad_header = 2u32.to_le_bytes().to_vec();
    let err = parse_param_table_stream(&bad_header, &data, "U1/UniqueIDPrimitiveInformation").err().unwrap();
    assert!(err.message().contains("header count"));
    assert!(err
        .message()
        .contains("pcblib stream 'U1/UniqueIDPrimitiveInformation/Data' has 1 blocks but header count is 2"));
}

#[test]
fn pcblib_stream_errors_name_the_stream() {
    let err = parse_primitive_guids_stream(&[1, 0, 0], &[], "U1/PrimitiveGuids").err().unwrap();
    assert!(err.message().contains("pcblib stream 'U1/PrimitiveGuids/Header' expected 4-byte header, got 3 bytes"));
    let err = parse_primitive_guids_stream(&1u32.to_le_bytes(), &[0u8; 10], "U1/PrimitiveGuids").err().unwrap();
    assert!(err
        .message()
        .contains("pcblib stream 'U1/PrimitiveGuids/Data' expected 24 bytes for 1 entries, got 10"));
    let err = parse_wide_strings_stream(&[2, 0, 0, 1, 0, 0], "U1/WideStrings").err().unwrap();
    assert!(err.message().contains("pcblib stream 'U1/WideStrings' block 0 has unsupported flags 1"));
}

#[test]
fn component_sidecar_roundtrip() {
    let mut params = ParameterCollection::new();
    params.add("HEADER", STREAM_PIN_FRAC);
    params.add("Weight", "1");

    let meta = SchLibEmbeddedObjectStreamMeta {
        header: STREAM_PIN_FRAC.as_bytes().to_vec(),
        weight: Some(1),
        params,
        entries: vec![SchLibEmbeddedObjectEntry {
            id: b"0".to_vec(),
            compressed_flags: 0,
            compressed_data: vec![1, 2, 3, 4],
        }],
    };

    let data = serialize_component_embedded_stream(&meta, "U1/PinFrac", STREAM_PIN_FRAC).unwrap();
    let parsed = parse_component_embedded_stream(&data, "U1/PinFrac", STREAM_PIN_FRAC).unwrap();
    assert_eq!(parsed.header, STREAM_PIN_FRAC.as_bytes().to_vec());
    assert_eq!(parsed.entries.len(), 1);
    assert_eq!(parsed.entries[0].id, b"0".to_vec());
    assert_eq!(parsed.entries[0].compressed_data, vec![1, 2, 3, 4]);
}

#[test]
fn component_sidecar_rejects_wrong_header() {
    let mut params = ParameterCollection::new();
    params.add("HEADER", "Other");
    params.add("Weight", "0");
    let meta = SchLibEmbeddedObjectStreamMeta {
        header: b"Other".to_vec(),
        weight: Some(0),
        params,
        entries: Vec::new(),
    };

    let data = serialize_component_embedded_stream(&meta, "U1/PinFrac", "Other").unwrap();
    let err = parse_component_embedded_stream(&data, "U1/PinFrac", STREAM_PIN_FRAC).err().unwrap();
    assert!(err.message().contains("unexpected HEADER"));
}

fn node(key: u8, text: &str) -> RecordNode {
    RecordNode::from_text(key, text)
}

fn doc_from(records: Vec<(usize, RecordNode)>) -> SchDoc {
    SchDoc::from_records(records, SchDocFileHeaderStreamMeta::new(), None, SchDocStorageStreamMeta::new())
}

#[test]
fn owner_index_grouping() {
    let records = vec![
        (0, node(1, "|RECORD=1|DESIGNATOR=U1|")),
        (1, node(2, "|RECORD=2|OWNERINDEX=0|NAME=VCC|")),
        (2, node(2, "|RECORD=2|OWNERINDEX=0|NAME=GND|")),
        (3, node(1, "|RECORD=1|DESIGNATOR=R1|")),
        (4, node(2, "|RECORD=2|OWNERINDEX=1|NAME=1|")),
    ];
    let doc = doc_from(records);
    assert_eq!(doc.component_count(), 2);
    assert_eq!(doc.children(0).len(), 2);
    assert_eq!(doc.children(1).len(), 1);
}

#[test]
fn orphan_records_collected() {
    let records = vec![(0, node(1, "|RECORD=1|DESIGNATOR=U1|")), (1, node(34, "|RECORD=34|"))];
    let doc = doc_from(records);
    assert_eq!(doc.component_count(), 1);
    let orphans = doc.orphan_records();
    assert_eq!(orphans.len(), 1);
    assert_eq!(doc.record(orphans[0].1).unwrap().key, 34);
}

#[test]
fn empty_stream_produces_empty_doc() {
    let doc = doc_from(Vec::new());
    assert_eq!(doc.component_count(), 0);
    assert!(doc.orphan_records().is_empty());
}

#[test]
fn component_count_and_orphan_count() {
    let records = vec![(0, node(1, "|RECORD=1|DESIGNATOR=U1|")), (1, node(31, "|RECORD=31|"))];
    let doc = doc_from(records);
    assert_eq!(doc.component_count(), 1);
    assert_eq!(doc.orphan_count(), 1);
}

#[test]
fn count_record_type_across_groups_and_orphans() {
    let records = vec![
        (0, node(1, "|RECORD=1|DESIGNATOR=U1|")),
        (1, node(2, "|RECORD=2|OWNERINDEX=0|NAME=VCC|")),
        (2, node(2, "|RECORD=2|OWNERINDEX=0|NAME=GND|")),
        (3, node(31, "|RECORD=31|")),
    ];
    let doc = doc_from(records);
    assert_eq!(doc.count_record_type(1), 1);
    assert_eq!(doc.count_record_type(2), 2);
    assert_eq!(doc.count_record_type(31), 1);
}

#[test]
fn new_empty_build_component_and_orphan() {
    let mut doc = SchDoc::new_empty();
    let group = doc.build_component(node(1, "|RECORD=1|DESIGNATOR=U1|"), vec![node(2, "|RECORD=2|DESIGNATOR=1|")]);
    assert_eq!(doc.component_count(), 1);
    assert_eq!(doc.children(group).len(), 1);

    doc.add_orphan_record(node(27, "|RECORD=27|"));
    assert_eq!(doc.orphan_count(), 1);

    let orphan_types: Vec<u8> = doc.orphan_records().into_iter().map(|(t, _)| t).collect();
    assert_eq!(orphan_types, vec![27]);
}

#[test]
fn out_of_range_owner_index_makes_orphan() {
    let records = vec![(0, node(1, "|RECORD=1|")), (1, node(2, "|RECORD=2|OWNERINDEX=5|"))];
    let doc = doc_from(records);
    assert_eq!(doc.component_count(), 1);
    assert_eq!(doc.orphan_count(), 1);
    assert!(doc.children(0).is_empty());
}

#[test]
fn sheet_record_is_first_orphan_sheet() {
    let records = vec![(0, node(31, "|RECORD=31|A=1|")), (1, node(31, "|RECORD=31|A=2|"))];
    let doc = doc_from(records);
    let sheet = doc.sheet_record().unwrap();
    match &sheet.origin {
        RecordOrigin::Param(p) => assert_eq!(p.get("A").unwrap().as_str(), "1"),
        _ => panic!("expected a text record"),
    }
}

#[test]
fn flatten_preserves_parent_child_orphan_interleaving() {
    let records = vec![
        (10, node(1, "|RECORD=1|DESIGNATOR=U1|")),
        (20, node(31, "|RECORD=31|")),
        (30, node(2, "|RECORD=2|OWNERINDEX=0|NAME=VCC|DESIGNATOR=1|")),
    ];
    let doc = doc_from(records);

    let streams = doc.flatten_to_streams().unwrap();
    let (_, blocks) = parse_file_header_meta_and_blocks(&streams.file_header).unwrap();
    let parsed = parse_record_blocks(&blocks, SchDocStream::FileHeader, "FileHeader").unwrap();
    let keys: Vec<u8> = parsed.into_iter().map(|(_, node)| node.key).collect();
    assert_eq!(keys, vec![1, 31, 2]);
}

fn empty_schdoc_streams() -> (Vec<u8>, Vec<u8>) {
    let streams = doc_from(Vec::new()).flatten_to_streams().unwrap();
    (streams.file_header, streams.storage)
}

#[test]
fn open_rejects_unimplemented_root_streams() {
    let (file_header, storage) = empty_schdoc_streams();
    let bytes = build_test_cfb(&[("FileHeader", &file_header), ("Storage", &storage), ("Unknown", b"x")]);
    let err = SchDoc::from_cfb_bytes(&bytes).err().unwrap();
    assert!(err.message().contains("unimplemented stream"));
}

#[test]
fn schdoc_cfb_save_and_reopen() {
    let records = vec![
        (0, node(1, "|RECORD=1|DESIGNATOR=U1|")),
        (1, node(2, "|RECORD=2|OWNERINDEX=0|NAME=VCC|")),
        (2, node(31, "|RECORD=31|")),
    ];
    let doc = doc_from(records);
    let bytes = doc.to_cfb_bytes().unwrap();
    let reopened = SchDoc::from_cfb_bytes(&bytes).unwrap();
    assert_eq!(reopened.component_count(), 1);
    assert_eq!(reopened.children(0).len(), 1);
    assert_eq!(reopened.orphan_count(), 1);
    let flat = doc.flatten_to_streams().unwrap();
    let mut f = cfb::CompoundFile::open(std::io::Cursor::new(bytes)).unwrap();
    assert!(!f.exists("/Additional"));
    let mut v = Vec::new();
    std::io::Read::read_to_end(&mut f.open_stream("/FileHeader").unwrap(), &mut v).unwrap();
    assert_eq!(v, flat.file_header);
}

#[test]
fn flatten_writes_weight_and_reopens() {
    let records = vec![
        (0, node(1, "|RECORD=1|DESIGNATOR=U1|")),
        (1, node(2, "|RECORD=2|OWNERINDEX=0|NAME=VCC|")),
        (2, node(31, "|RECORD=31|")),
    ];
    let doc = doc_from(records);
    let streams = doc.flatten_to_streams().unwrap();
    assert!(streams.additional.is_empty());
    let (meta, _) = parse_file_header_meta_and_blocks(&streams.file_header).unwrap();
    assert_eq!(meta.params.get("WEIGHT").unwrap().as_str(), "3");

    let reopened = SchDoc::from_streams(&streams.file_header, None, &streams.storage).unwrap();
    assert_eq!(reopened.component_count(), 1);
    assert_eq!(reopened.children(0).len(), 1);
    assert_eq!(reopened.orphan_count(), 1);
    assert_eq!(reopened.count_record_type(31), 1);
}

#[test]
fn from_streams_rejects_stream_without_header() {
    let err = SchDoc::from_streams(&[], None, &[]);
    assert!(err.is_err());
}

use altium_format::documents::pcbdoc::PcbDocSectionStreams;
use altium_format::documents::pcbdoc_io::{
    build_primitive_section_data, collect_pcbdoc_stream_paths, parse_primitive_section_data,
};

fn pcb_file_header() -> Vec<u8> {
    [19u32.to_le_bytes().as_slice(), b"P\0C\0B\0"].concat()
}

fn paths(list: &[&str]) -> Vec<String> {
    list.iter().map(|s| s.to_string()).collect()
}

fn build_test_cfb(streams: &[(&str, &[u8])]) -> Vec<u8> {
    let cursor = std::io::Cursor::new(Vec::<u8>::new());
    let mut cfb = cfb::CompoundFile::create_with_version(cfb::Version::V3, cursor).expect("create cfb");
    for (path, data) in streams {
        if let Some((storage, _)) = path.rsplit_once('/') {
            if !storage.is_empty() {
                let _ = cfb.create_storage(format!("/{}", storage));
            }
        }
        let mut stream = cfb.create_stream(format!("/{}", path)).expect("create stream");
        std::io::Write::write_all(&mut stream, data).expect("write stream");
    }
    cfb.flush().expect("flush cfb");
    cfb.into_inner().into_inner()
}

#[test]
fn open_rejects_unknown_root_streams() {
    let file_header = pcb_file_header();
    let bytes = build_test_cfb(&[("FileHeader", &file_header), ("Unknown", b"x")]);
    let err = PcbDoc::from_cfb_bytes(&bytes).err().expect("expected open error");
    assert!(err.message().contains("unimplemented stream"));
}

#[test]
fn open_save_roundtrip_single_track_section() {
    let payload: Vec<u8> = (0u8..45).collect();
    let mut tracks_data = Vec::new();
    tracks_data.push(4u8);
    tracks_data.extend_from_slice(&(payload.len() as u32).to_le_bytes());
    tracks_data.extend_from_slice(&payload);

    let file_header = pcb_file_header();
    let bytes = build_test_cfb(&[
        ("FileHeader", &file_header),
        ("Tracks6/Header", &1u32.to_le_bytes()),
        ("Tracks6/Data", &tracks_data),
    ]);

    let doc = PcbDoc::from_cfb_bytes(&bytes).expect("open pcbdoc");
    let section_records = doc.primitive_records("Tracks6");
    assert_eq!(section_records.len(), 1);
    assert_eq!(section_records[0].0, 4);

    let out = doc.to_cfb_bytes().expect("save pcbdoc");
    let reopened = PcbDoc::from_cfb_bytes(&out).expect("reopen pcbdoc");
    assert_eq!(reopened.primitive_records("Tracks6").len(), 1);
}

#[test]
fn pcbdoc_cfb_save_keeps_streams() {
    let payload: Vec<u8> = (0u8..45).collect();
    let mut tracks_data = vec![4u8];
    tracks_data.extend_from_slice(&(payload.len() as u32).to_le_bytes());
    tracks_data.extend_from_slice(&payload);
    let file_header = pcb_file_header();
    let bytes = build_test_cfb(&[
        ("FileHeader", &file_header),
        ("Models/Header", &2u32.to_le_bytes()),
        ("Models/Data", b"md"),
        ("Models/0", b"zero"),
        ("Models/3", b"three"),
        ("Tracks6/Header", &1u32.to_le_bytes()),
        ("Tracks6/Data", &tracks_data),
    ]);
    let doc = PcbDoc::from_cfb_bytes(&bytes).expect("open pcbdoc");
    let out = doc.to_cfb_bytes().expect("save pcbdoc");
    let mut f = cfb::CompoundFile::open(std::io::Cursor::new(out)).unwrap();
    let mut read = |p: &str| {
        let mut v = Vec::new();
        std::io::Read::read_to_end(&mut f.open_stream(p).unwrap(), &mut v).unwrap();
        v
    };
    assert_eq!(read("/FileHeader"), file_header);
    assert_eq!(read("/Models/Header"), 2u32.to_le_bytes().to_vec());
    assert_eq!(read("/Models/Data"), b"md".to_vec());
    assert_eq!(read("/Models/0"), b"zero".to_vec());
    assert_eq!(read("/Models/3"), b"three".to_vec());
    assert_eq!(read("/Tracks6/Header"), 1u32.to_le_bytes().to_vec());
    assert_eq!(read("/Tracks6/Data"), tracks_data);
}

#[test]
fn cfb_open_rejects_garbage_bytes() {
    let err = PcbDoc::from_cfb_bytes(b"not a compound file").err().expect("expected error");
    assert!(err.message().contains("Failed to open CFB"));
    let err = SchDoc::from_cfb_bytes(b"not a compound file").err().expect("expected error");
    assert!(err.message().contains("Failed to open CFB"));
}

#[test]
fn stream_paths_group_sections_in_name_order() {
    let sp = collect_pcbdoc_stream_paths(&paths(&[
        "/Tracks6/Data",
        "/FileHeader",
        "/Models/2",
        "/Board6/Header",
        "/Models/Header",
        "/Tracks6/Header",
        "/Models/0",
        "/Models/Data",
        "/Board6/Data",
    ]))
    .unwrap();
    assert_eq!(sp.file_header, "/FileHeader");
    assert!(sp.file_header_six.is_none());
    let names: Vec<&[u8]> = sp.sections.iter().map(|s| s.name.as_slice()).collect();
    assert_eq!(names, vec![b"Board6".as_slice(), b"Models".as_slice(), b"Tracks6".as_slice()]);
    let models = &sp.sections[1];
    assert_eq!(models.header.as_deref(), Some("/Models/Header"));
    let idx: Vec<u32> = models.numbered_entries.iter().map(|e| e.0).collect();
    assert_eq!(idx, vec![0, 2]);
    assert_eq!(sp.sections[2].data.as_deref(), Some("/Tracks6/Data"));
}

#[test]
fn stream_paths_reject_duplicates_and_bad_entries() {
    let dup = collect_pcbdoc_stream_paths(&paths(&["/FileHeader", "/fileheader"])).err().unwrap();
    assert!(dup.message().contains("duplicate 'FileHeader'"));
    let bad = collect_pcbdoc_stream_paths(&paths(&["/FileHeader", "/Models/x1"])).err().unwrap();
    assert!(bad.message().contains("not a numeric entry"));
    let nested = collect_pcbdoc_stream_paths(&paths(&["/FileHeader", "/Board6/A/B"])).err().unwrap();
    assert!(nested.message().contains("nested stream"));
    let missing = collect_pcbdoc_stream_paths(&paths(&["/Board6/Header"])).err().unwrap();
    assert!(missing.message().contains("missing required 'FileHeader'"));
}

#[test]
fn pad_objects_keep_their_six_subrecords() {
    let mut data = vec![2u8];
    for k in 0..6u32 {
        data.extend_from_slice(&k.to_le_bytes());
        data.extend(std::iter::repeat(7u8).take(k as usize));
    }
    let recs = parse_primitive_section_data(&data, b"Pads6", 2).unwrap();
    assert_eq!(recs.len(), 1);
    let ids = vec![altium_format::documents::pcbdoc_streams::RecordId(0)];
    assert_eq!(build_primitive_section_data(&recs, &ids, 2).unwrap(), data);
    assert!(parse_primitive_section_data(&data[..data.len() - 1], b"Pads6", 2).is_err());
    assert!(parse_primitive_section_data(&data, b"Pads6", 4).is_err());
}

#[test]
fn from_streams_requires_header_and_data() {
    let sections = vec![PcbDocSectionStreams {
        name: b"Board6".to_vec(),
        header: None,
        data: Some(Vec::new()),
        entries: Vec::new(),
    }];
    let err = PcbDoc::from_streams(&pcb_file_header(), &None, &sections).err().unwrap();
    assert!(err.message().contains("missing Header stream"));
}

fn parse_error(data: &[u8]) -> String {
    match parse_file_header_stream(data) {
        Err(altium_format::error::AltiumError::Parse(m)) => m,
        _ => panic!("expected a parse error"),
    }
}

#[test]
fn pcblib_file_header_roundtrip_default() {
    let m = PcbLibFileHeaderStreamMeta::new_default();
    let b = m.to_stream_bytes().unwrap();
    assert_eq!(b.len(), 53);
    assert_eq!(&b[0..5], &[27, 0, 0, 0, 27]);
    // The version 5.01 starts with the byte 0x0A.
    assert_eq!(&b[32..40], &5.01f64.to_le_bytes());
    assert_eq!(b[32], 0x0A);
    let p = parse_file_header_stream(&b).unwrap();
    assert_eq!(p.header_text, "PCB 6.0 Binary Library File");
    assert_eq!(f64::from_bits(p.file_version_bits), 5.01);
    assert_eq!(p.key, "AAAAAAAA");
}

#[test]
fn pcblib_file_header_accepts_newline_after_header() {
    let m = PcbLibFileHeaderStreamMeta::new_default();
    let b = m.to_stream_bytes().unwrap();
    let mut older = b[..32].to_vec();
    older.push(0x0A);
    older.extend_from_slice(&b[32..]);
    let p = parse_file_header_stream(&older).unwrap();
    assert_eq!(p.header_text, "PCB 6.0 Binary Library File");
    assert_eq!(p.file_version_bits, 5.01f64.to_bits());
    assert_eq!(p.key, "AAAAAAAA");
}

#[test]
fn pcblib_file_header_rejects_bad_streams() {
    assert_eq!(parse_error(&[0u8; 10]), "pcblib FileHeader stream is truncated");
    let mut bad = vec![3u8, 0, 0, 0, 4];
    bad.extend_from_slice(&[0u8; 20]);
    assert_eq!(parse_error(&bad), "pcblib FileHeader has invalid header length block=3 len=4");
    let mut long = vec![200u8, 0, 0, 0, 200];
    long.extend_from_slice(&[0u8; 20]);
    assert_eq!(parse_error(&long), "pcblib FileHeader overflows while reading header text");
    let mut trailing = PcbLibFileHeaderStreamMeta::new_default().to_stream_bytes().unwrap();
    trailing.push(0);
    assert_eq!(parse_error(&trailing), "pcblib FileHeader has unexpected trailing bytes");
    let mut empty_key = PcbLibFileHeaderStreamMeta::new_default().to_stream_bytes().unwrap();
    empty_key.truncate(40);
    empty_key.extend_from_slice(&[0, 0, 0, 0, 0]);
    assert_eq!(parse_error(&empty_key), "pcblib FileHeader has invalid key length block=0 len=0");
}

#[test]
fn pcblib_file_header_rejects_long_text() {
    let m = PcbLibFileHeaderStreamMeta { header_text: "x".repeat(256), file_version_bits: 0, key: "K".to_string() };
    match m.to_stream_bytes() {
        Err(altium_format::error::AltiumError::Parse(e)) => assert_eq!(e, "pcblib FileHeader header text too long: 256 bytes"),
        _ => panic!("expected an error"),
    }
}

#[test]
fn schlib_sidecar_entry_id_too_long_is_error() {
    let meta = SchLibEmbeddedObjectStreamMeta {
        header: STREAM_PIN_FRAC.as_bytes().to_vec(),
        weight: None,
        params: ParameterCollection::new(),
        entries: vec![
            SchLibEmbeddedObjectEntry { id: b"0".to_vec(), compressed_flags: 0, compressed_data: vec![1] },
            SchLibEmbeddedObjectEntry { id: vec![b'x'; 256], compressed_flags: 0, compressed_data: vec![2] },
        ],
    };
    let err = serialize_component_embedded_stream(&meta, "U1/PinFrac", STREAM_PIN_FRAC).err().unwrap();
    assert_eq!(err.message(), "Parse error: schlib stream 'U1/PinFrac' entry id too long: 256 bytes");
}

#[test]
fn schlib_sidecar_wrong_header_message_names_stream_and_headers() {
    let meta = SchLibEmbeddedObjectStreamMeta {
        header: b"Other".to_vec(),
        weight: None,
        params: ParameterCollection::new(),
        entries: Vec::new(),
    };
    let data = serialize_component_embedded_stream(&meta, "U1/PinFrac", "Other").unwrap();
    let err = parse_component_embedded_stream(&data, "U1/PinFrac", STREAM_PIN_FRAC).err().unwrap();
    assert_eq!(
        err.message(),
        "Parse error: schlib stream 'U1/PinFrac' has unexpected HEADER='Other' (expected 'PinFrac')"
    );
    let err = parse_component_embedded_stream(&[], "U1/PinFrac", STREAM_PIN_FRAC).err().unwrap();
    assert_eq!(err.message(), "Parse error: schlib stream 'U1/PinFrac' has no blocks");
}

#[test]
fn pcbdoc_save_rejects_out_of_range_record_ids() {
    let mut doc = PcbDoc::new_empty();
    let mut meta = doc.streams_meta();
    meta.sections.push(PcbDocSection {
        name: b"Tracks6".to_vec(),
        meta: PcbDocSectionMeta::Primitive(PcbDocPrimitiveSectionMeta {
            object_id: 4,
            header_count: 1,
            record_ids: vec![altium_format::documents::pcbdoc_streams::RecordId(5)],
        }),
    });
    doc.set_streams_meta(meta).unwrap();
    assert!(!doc.ids_in_range());
    let err = doc.to_cfb_bytes().err().unwrap();
    assert!(err.message().contains("record id out of range"));
}
