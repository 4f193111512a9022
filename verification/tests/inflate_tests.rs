use std::io::Write;
use thoenix::inflate::EntryData;

fn zlib_compress(data: &[u8]) -> Vec<u8> {
    let mut encoder =
        flate2::write::ZlibEncoder::new(Vec::new(), flate2::Compression::default());
    encoder.write_all(data).unwrap();
    encoder.finish().unwrap()
}

#[test]
fn test_try_decode_inflates() {
    let original = b"the quick brown fox jumps over the lazy dog".to_vec();
    let compressed = zlib_compress(&original);
    let entry = EntryData::try_decode(&compressed).unwrap();
    assert_eq!(entry.uncompressed, original);
    assert_eq!(entry.compressed, compressed);
    // The decoder really ran: output differs from input.
    assert_ne!(entry.uncompressed, entry.compressed);
}

#[test]
fn test_try_decode_rejects_truncated_stream() {
    let compressed = zlib_compress(b"some data worth compressing, repeated and repeated");
    let truncated = &compressed[..compressed.len() - 3];
    assert!(EntryData::try_decode(truncated).is_none());
}

#[test]
fn test_bruteforce_finds_minimal_prefix() {
    let original = b"object payload".to_vec();
    let compressed = zlib_compress(&original);
    let mut window = compressed.clone();
    window.extend_from_slice(b"NEXT OBJECT BYTES");
    let entry = EntryData::bruteforce_decode(&window).unwrap();
    assert_eq!(entry.uncompressed, original);
    assert_eq!(entry.compressed, compressed);
}

#[test]
fn test_bruteforce_none_on_garbage() {
    let window = [0xFFu8; 8];
    assert!(EntryData::bruteforce_decode(&window).is_none());
}

#[test]
fn test_bruteforce_none_on_empty_window() {
    assert!(EntryData::bruteforce_decode(&[]).is_none());
}

#[test]
fn test_bruteforce_none_on_incomplete_stream() {
    let compressed = zlib_compress(b"a rather long stretch of text so truncation hurts");
    let truncated = &compressed[..compressed.len() - 1];
    assert!(EntryData::bruteforce_decode(truncated).is_none());
}
