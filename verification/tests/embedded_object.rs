use altium_format::documents::blocks::{parse_block_stream, RawBlock};
use altium_format::embedded_object::{
    parse_embedded_object, parse_embedded_object_stream, serialize_embedded_object,
    serialize_embedded_object_stream, zlib_compress,
};
use altium_format::error::AltiumError;
use altium_format::params::ParameterCollection;

const TAG: u8 = 0xD0;

fn envelope_with_id_bytes(id_bytes: &[u8], inner_data: &[u8]) -> Vec<u8> {
    let compressed = zlib_compress(inner_data).unwrap();
    let mut w = vec![TAG, id_bytes.len() as u8];
    w.extend_from_slice(id_bytes);
    w.extend_from_slice(&(compressed.len() as i32).to_le_bytes());
    w.extend_from_slice(&compressed);
    w
}

fn make_envelope(id: &str, inner_data: &[u8]) -> Vec<u8> {
    envelope_with_id_bytes(id.as_bytes(), inner_data)
}

fn text_block(data: &[u8]) -> RawBlock {
    RawBlock { flags: 0, payload: data.to_vec() }
}

fn binary_block(data: Vec<u8>) -> RawBlock {
    RawBlock { flags: 1, payload: data }
}

#[test]
fn parse_single_envelope_decompresses() {
    let inner = b"hello world";
    let data = make_envelope("comp1", inner);
    let obj = parse_embedded_object(&data).unwrap();
    assert_eq!(obj.id, "comp1");
    assert_eq!(obj.inner_data, inner);
}

#[test]
fn parse_binary_inner_decompresses() {
    let inner = b"\x01\x02\x03";
    let data = make_envelope("item", inner);
    let obj = parse_embedded_object(&data).unwrap();
    assert_eq!(obj.id, "item");
    assert_eq!(obj.inner_data, inner);
}

#[test]
fn wrong_tag_returns_error() {
    let mut data = make_envelope("x", b"");
    data[0] = 0x01;
    let err = parse_embedded_object(&data).err().unwrap();
    assert!(matches!(err, AltiumError::InvalidEmbeddedObject(_)));
    assert!(err.message().contains("expected 0xd0 tag, got 0x01"));
}

#[test]
fn truncated_data_returns_error() {
    let err = parse_embedded_object(&[TAG]).err().unwrap();
    assert!(matches!(err, AltiumError::BinaryReadPastEnd(1, 1)));
}

#[test]
fn truncated_zlib_data_returns_read_past_end() {
    let mut data = make_envelope("id", b"payload");
    data.truncate(data.len() - 1);
    let err = parse_embedded_object(&data).err().unwrap();
    assert!(matches!(err, AltiumError::BinaryReadPastEnd(8, _)));
}

#[test]
fn trailing_bytes_return_error() {
    let mut data = make_envelope("id", b"payload");
    data.push(0);
    let err = parse_embedded_object(&data).err().unwrap();
    assert!(matches!(err, AltiumError::InvalidEmbeddedObject(_)));
}

#[test]
fn bad_zlib_data_returns_error() {
    let data = vec![TAG, 1, b'a', 3, 0, 0, 0, 1, 2, 3];
    let err = parse_embedded_object(&data).err().unwrap();
    assert!(err.message().contains("zlib decompress failed"));
}

#[test]
fn parse_stream_with_weight() {
    let blocks = vec![
        text_block(b"|RECORD=0|Weight=2|\0"),
        binary_block(make_envelope("e1", b"abc")),
        binary_block(make_envelope("e2", b"\x01\x02")),
    ];
    let entries = parse_embedded_object_stream(&blocks).unwrap();
    assert_eq!(entries.len(), 2);
    assert_eq!(entries[0].id, "e1");
    assert_eq!(entries[0].inner_data, b"abc");
    assert_eq!(entries[1].id, "e2");
    assert_eq!(entries[1].inner_data, b"\x01\x02");
}

#[test]
fn weight_mismatch_returns_error() {
    let blocks = vec![text_block(b"|Weight=3|\0"), binary_block(make_envelope("e1", b"x"))];
    let err = parse_embedded_object_stream(&blocks).err().unwrap();
    assert!(matches!(err, AltiumError::RecordCountMismatch(_, 3, 1)));
}

#[test]
fn parse_stream_without_weight_uses_block_count() {
    let blocks = vec![text_block(b"|HEADER=Icon storage|\0")];
    let entries = parse_embedded_object_stream(&blocks).unwrap();
    assert!(entries.is_empty());
}

#[test]
fn empty_blocks_returns_error() {
    let err = parse_embedded_object_stream(&[]).err().unwrap();
    assert!(matches!(err, AltiumError::InvalidEmbeddedObject(_)));
}

#[test]
fn stream_header_rejects_binary_first_block_and_extra_keys() {
    let err = parse_embedded_object_stream(&[binary_block(b"|Weight=0|".to_vec())]).err().unwrap();
    assert!(err.message().contains("must be text format"));
    let err = parse_embedded_object_stream(&[text_block(b"|Weight=0|OTHER=1|\0")]).err().unwrap();
    assert!(matches!(err, AltiumError::InvalidParameter(_)));
    let err = parse_embedded_object_stream(&[text_block(b"|Weight=-1|\0")]).err().unwrap();
    assert!(matches!(err, AltiumError::InvalidParameter(_)));
}

#[test]
fn parse_windows_1252_id() {
    let id_w1252: &[u8] = &[0x63, 0x61, 0x66, 0xE9, 0x80];
    let inner = b"data";
    let data = envelope_with_id_bytes(id_w1252, inner);
    let obj = parse_embedded_object(&data).unwrap();
    assert_eq!(obj.id, "caf\u{00E9}\u{20AC}");
    assert_eq!(obj.inner_data, inner);
}

#[test]
fn serialize_embedded_object_roundtrips() {
    let inner = b"test data payload";
    let envelope = serialize_embedded_object("myid", inner).unwrap();
    let obj = parse_embedded_object(&envelope).unwrap();
    assert_eq!(obj.id, "myid");
    assert_eq!(obj.inner_data, inner);
}

#[test]
fn serialize_embedded_object_layout() {
    let envelope = serialize_embedded_object("ab", b"xyz").unwrap();
    let compressed = zlib_compress(b"xyz").unwrap();
    assert_eq!(&envelope[..4], &[TAG, 2, b'a', b'b']);
    assert_eq!(&envelope[4..8], &(compressed.len() as u32).to_le_bytes());
    assert_eq!(&envelope[8..], compressed.as_slice());
}

#[test]
fn serialize_embedded_object_stream_roundtrips() {
    let entries = vec![("e1".to_owned(), b"abc".to_vec()), ("e2".to_owned(), b"\x01\x02\x03".to_vec())];
    let stream_bytes = serialize_embedded_object_stream("TestStream", &entries).unwrap();
    let blocks = parse_block_stream(&stream_bytes).unwrap();
    let parsed = parse_embedded_object_stream(&blocks).unwrap();
    assert_eq!(parsed.len(), 2);
    assert_eq!(parsed[0].id, "e1");
    assert_eq!(parsed[0].inner_data, b"abc");
    assert_eq!(parsed[1].id, "e2");
    assert_eq!(parsed[1].inner_data, b"\x01\x02\x03");
}

#[test]
fn zlib_compress_decompress_roundtrip() {
    let data = b"Hello, world! This is test data for zlib compression.";
    let compressed = zlib_compress(data).unwrap();
    assert!(compressed.len() > 0);
    let mut decoder = flate2::read::ZlibDecoder::new(&compressed[..]);
    let mut decompressed = Vec::new();
    std::io::Read::read_to_end(&mut decoder, &mut decompressed).unwrap();
    assert_eq!(decompressed, data);
}

#[test]
fn serialize_empty_stream() {
    let entries: Vec<(String, Vec<u8>)> = vec![];
    let stream_bytes = serialize_embedded_object_stream("Empty", &entries).unwrap();
    let blocks = parse_block_stream(&stream_bytes).unwrap();
    assert_eq!(blocks.len(), 1);
    let params = ParameterCollection::from_bytes(&blocks[0].payload);
    assert_eq!(params.get("Weight").unwrap().as_str(), "0");
    assert_eq!(params.get("HEADER").unwrap().as_str(), "Empty");
}
