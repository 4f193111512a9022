use thoenix::pack::{parse_entry_header, PackFile, PackHunk};

#[test]
fn test_header_varint_reconstruction() {
    // Continuation set, type 0, low bits 0101; then continuation clear,
    // seven bits 0000011: size 0b0000011_0101 = 53, two bytes consumed.
    let header = [0b1000_0101u8, 0b0000_0011u8];
    let entry = parse_entry_header(&header);
    assert_eq!(entry.type_id, 0);
    assert_eq!(entry.size, 53);
    assert_eq!(entry.header_len, 2);
}

#[test]
fn test_single_byte_header() {
    // Continuation clear, type 1, size bits 0101.
    let header = [0b0001_0101u8];
    let entry = parse_entry_header(&header);
    assert_eq!(entry.type_id, 1);
    assert_eq!(entry.size, 5);
    assert_eq!(entry.header_len, 1);
}

#[test]
fn test_three_byte_header() {
    // Low bits 1111; group 0000000; group 0000001 at offset 11:
    // size = 15 + 0 + 2048 = 2063.
    let header = [0b1000_1111u8, 0b1000_0000u8, 0b0000_0001u8];
    let entry = parse_entry_header(&header);
    assert_eq!(entry.type_id, 0);
    assert_eq!(entry.size, 2063);
    assert_eq!(entry.header_len, 3);
}

#[test]
fn test_header_ignores_trailing_bytes() {
    let header = [0b0111_1111u8, 0xAA, 0xBB];
    let entry = parse_entry_header(&header);
    assert_eq!(entry.type_id, 7);
    assert_eq!(entry.size, 15);
    assert_eq!(entry.header_len, 1);
}

#[test]
fn test_hunk_with_type() {
    let hunk = PackHunk::decode_with_type(&[0b1011_0101u8]);
    assert!(hunk.cont);
    assert_eq!(hunk.type_id, Some(3));
    assert_eq!(hunk.size, 5);
}

#[test]
fn test_hunk_without_type() {
    let hunk = PackHunk::decode_without_type(&[0b0101_0101u8]);
    assert!(!hunk.cont);
    assert_eq!(hunk.type_id, None);
    assert_eq!(hunk.size, 0b101_0101);
}

#[test]
fn test_pack_file_keeps_entries() {
    let entries = vec![parse_entry_header(&[0b0001_0101u8])];
    let pack = PackFile::new(entries);
    assert_eq!(pack.entries.len(), 1);
    assert_eq!(pack.entries[0].size, 5);
}
