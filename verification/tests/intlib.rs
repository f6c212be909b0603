use altium_format::documents::intlib::{hex_byte, inflated_or_error, intlib_decompress};
use altium_format::error::AltiumError;
use std::io::Write;

fn compressed(payload: &[u8]) -> Vec<u8> {
    let mut enc = flate2::write::ZlibEncoder::new(Vec::new(), flate2::Compression::default());
    enc.write_all(payload).unwrap();
    let mut out = vec![0x02u8];
    out.extend(enc.finish().unwrap());
    out
}

fn decompression_message(r: Result<Vec<u8>, AltiumError>) -> String {
    match r {
        Err(AltiumError::Decompression(m)) => m,
        other => panic!("expected a decompression error, got {other:?}"),
    }
}

#[test]
fn intlib_stream_roundtrip() {
    let payload = b"Schematic library payload, repeated payload, repeated payload.";
    let data = compressed(payload);
    assert_ne!(&data[1..], &payload[..]);
    let out = intlib_decompress(&data).unwrap();
    assert_eq!(out, payload.to_vec());
}

#[test]
fn intlib_empty_payload_roundtrip() {
    let data = compressed(b"");
    assert_eq!(intlib_decompress(&data).unwrap(), Vec::<u8>::new());
}

#[test]
fn intlib_empty_stream_is_error() {
    assert_eq!(decompression_message(intlib_decompress(&[])), "empty IntLib stream");
}

#[test]
fn intlib_wrong_prefix_is_error() {
    let mut data = compressed(b"abc");
    data[0] = 0xab;
    assert_eq!(decompression_message(intlib_decompress(&data)), "expected 0x02 prefix byte, got 0xab");
    data[0] = 0x05;
    assert_eq!(decompression_message(intlib_decompress(&data)), "expected 0x02 prefix byte, got 0x05");
}

#[test]
fn intlib_corrupt_zlib_is_error() {
    let m = decompression_message(intlib_decompress(&[0x02, 0xff, 0xff, 0xff]));
    assert!(m.starts_with("zlib decompression failed: "), "{m}");
}

#[test]
fn hex_byte_digits() {
    assert_eq!(hex_byte(0x00), "00");
    assert_eq!(hex_byte(0x0f), "0f");
    assert_eq!(hex_byte(0xa0), "a0");
    assert_eq!(hex_byte(0xff), "ff");
}

#[test]
fn inflated_or_error_maps_failure() {
    assert_eq!(inflated_or_error(Ok(vec![1, 2])).unwrap(), vec![1, 2]);
    assert_eq!(
        decompression_message(inflated_or_error(Err("bad".to_string()))),
        "zlib decompression failed: bad"
    );
}

fn intlib_stream(data: &[u8]) -> Vec<u8> {
    let mut enc = flate2::write::ZlibEncoder::new(Vec::new(), flate2::Compression::default());
    std::io::Write::write_all(&mut enc, data).unwrap();
    let mut out = vec![0x02u8];
    out.extend_from_slice(&enc.finish().unwrap());
    out
}

fn intlib_cfb(streams: &[(&str, Vec<u8>)]) -> Vec<u8> {
    let mut cfb = cfb::CompoundFile::create_with_version(cfb::Version::V3, std::io::Cursor::new(Vec::new())).unwrap();
    let _ = cfb.create_storage("/SchLib");
    let _ = cfb.create_storage("/PCBLib");
    for (path, data) in streams {
        let mut s = cfb.create_stream(path).unwrap();
        std::io::Write::write_all(&mut s, data).unwrap();
    }
    cfb.flush().unwrap();
    cfb.into_inner().into_inner()
}

#[test]
fn intlib_from_cfb_bytes_inflates_libraries() {
    let bytes = intlib_cfb(&[
        ("/SchLib/sym.SchLib", intlib_stream(b"schematic library")),
        ("/PCBLib/fp.PcbLib", intlib_stream(b"footprint library")),
        ("/Version.Txt", b"1".to_vec()),
    ]);
    let lib = altium_format::documents::intlib::IntLib::from_cfb_bytes(&bytes).unwrap();
    assert_eq!(lib.schlibs().len(), 1);
    assert_eq!(lib.schlibs()[0], b"schematic library".to_vec());
    assert_eq!(lib.pcblibs().len(), 1);
    assert_eq!(lib.pcblibs()[0], b"footprint library".to_vec());
}

#[test]
fn intlib_from_cfb_bytes_rejects_bad_prefix() {
    let bytes = intlib_cfb(&[("/SchLib/sym.SchLib", b"\x01abc".to_vec())]);
    let err = altium_format::documents::intlib::IntLib::from_cfb_bytes(&bytes).err().unwrap();
    assert!(err.message().contains("expected 0x02 prefix byte, got 0x01"));
}
