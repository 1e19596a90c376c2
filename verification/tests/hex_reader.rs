use a2ldeser::hex_reader::{HexError, HexMemory};

fn simple_hex() -> &'static str {
    ":02000004800476\n:0400000001020304F2\n:0400040005060708DE\n:00000001FF\n"
}

#[test]
fn parse_simple_hex() {
    let mem = HexMemory::from_string(simple_hex()).unwrap();
    assert_eq!(mem.segment_count(), 1); // contiguous data
    assert_eq!(mem.total_bytes(), 8);
}

#[test]
fn read_bytes_at_address() {
    let mem = HexMemory::from_string(simple_hex()).unwrap();
    let bytes = mem.read_bytes(0x8004_0000, 4).unwrap();
    assert_eq!(bytes, &[0x01, 0x02, 0x03, 0x04]);
}

#[test]
fn read_bytes_contiguous() {
    let mem = HexMemory::from_string(simple_hex()).unwrap();
    // Read across the two original records (they should be merged)
    let bytes = mem.read_bytes(0x8004_0000, 8).unwrap();
    assert_eq!(bytes, &[0x01, 0x02, 0x03, 0x04, 0x05, 0x06, 0x07, 0x08]);
}

#[test]
fn read_u8() {
    let mem = HexMemory::from_string(simple_hex()).unwrap();
    assert_eq!(mem.read_u8(0x8004_0000).unwrap(), 0x01);
    assert_eq!(mem.read_u8(0x8004_0007).unwrap(), 0x08);
}

#[test]
fn read_u16_le() {
    let mem = HexMemory::from_string(simple_hex()).unwrap();
    assert_eq!(mem.read_u16_le(0x8004_0000).unwrap(), 0x0201);
}

#[test]
fn read_u32_le() {
    let mem = HexMemory::from_string(simple_hex()).unwrap();
    assert_eq!(mem.read_u32_le(0x8004_0000).unwrap(), 0x04030201);
}

#[test]
fn read_f32_le() {
    let mem = HexMemory::from_string(simple_hex()).unwrap();
    let val = f32::from_bits(mem.read_u32_le(0x8004_0000).unwrap());
    assert_eq!(val, f32::from_bits(0x04030201));
}

#[test]
fn address_not_found() {
    let mem = HexMemory::from_string(simple_hex()).unwrap();
    let result = mem.read_bytes(0x9000_0000, 1);
    assert!(matches!(result, Err(HexError::AddressNotFound { .. })));
}

#[test]
fn read_past_segment_end() {
    let mem = HexMemory::from_string(simple_hex()).unwrap();
    // Try to read 1 byte past the end of the segment
    let result = mem.read_bytes(0x8004_0000, 9);
    assert!(matches!(result, Err(HexError::AddressNotFound { .. })));
}

#[test]
fn empty_hex() {
    let mem = HexMemory::from_string(":00000001FF\n").unwrap();
    assert_eq!(mem.total_bytes(), 0);
    assert_eq!(mem.segment_count(), 0);
    assert!(mem.min_address().is_none());
}

#[test]
fn min_max_address() {
    let mem = HexMemory::from_string(simple_hex()).unwrap();
    assert_eq!(mem.min_address(), Some(0x8004_0000));
    assert_eq!(mem.max_address(), Some(0x8004_0008));
}

#[test]
fn contains_check() {
    let mem = HexMemory::from_string(simple_hex()).unwrap();
    assert!(mem.contains(0x8004_0000, 8));
    assert!(!mem.contains(0x8004_0000, 9));
    assert!(!mem.contains(0x9000_0000, 1));
}

#[test]
fn zero_length_read() {
    let mem = HexMemory::from_string(simple_hex()).unwrap();
    assert_eq!(mem.read_bytes(0x8004_0000, 0).unwrap(), &[] as &[u8]);
}

#[test]
fn non_contiguous_segments() {
    let hex = ":02000004800476\n:020000001122CB\n:02001000334477\n:00000001FF\n";
    let mem = HexMemory::from_string(hex).unwrap();
    assert_eq!(mem.segment_count(), 2);
    assert_eq!(mem.read_bytes(0x8004_0000, 2).unwrap(), &[0x11, 0x22]);
    assert_eq!(mem.read_bytes(0x8004_0010, 2).unwrap(), &[0x33, 0x44]);
    // Gap should not be readable
    assert!(mem.read_bytes(0x8004_0002, 1).is_err());
}

#[test]
fn extended_segment_address() {
    let hex = ":020000021000EC\n:0200000055AAFF\n:00000001FF\n";
    let mem = HexMemory::from_string(hex).unwrap();
    assert_eq!(mem.read_bytes(0x0001_0000, 2).unwrap(), &[0x55, 0xAA]);
}

#[test]
fn parse_error_bad_checksum() {
    let hex = ":0400000001020304FF\n:00000001FF\n"; // bad checksum
    let result = HexMemory::from_string(hex);
    assert!(matches!(result, Err(HexError::Parse { .. })));
}

#[test]
fn hex_error_display() {
    let e = HexError::AddressNotFound { address: 0x1234, length: 4 };
    assert_eq!(e.to_display_string(), "address 0x00001234..+4 not found in HEX data");
}

// ------------------------------------------------------------------------

#[test]
fn hex_error_display_parse_and_io() {
    let e = HexError::Parse { line: 12, detail: "bad checksum".to_string() };
    assert_eq!(e.to_display_string(), "HEX parse error at line 12: bad checksum");
    let e = HexError::Io("gone".to_string());
    assert_eq!(e.to_display_string(), "HEX I/O error: gone");
}

#[test]
fn parse_error_reports_line_of_bad_record() {
    let hex = ":0400000001020304F2\n:0400040005060708FF\n:00000001FF\n";
    match HexMemory::from_string(hex) {
        Err(HexError::Parse { line, .. }) => assert_eq!(line, 2),
        other => panic!("expected a parse error, got {other:?}"),
    }
}

#[test]
fn overlapping_record_overwrites_bytes() {
    let hex = ":0400000001020304F2\n:02000100AABB98\n:00000001FF\n";
    let mem = HexMemory::from_string(hex).unwrap();
    assert_eq!(mem.segment_count(), 1);
    assert_eq!(mem.read_bytes(0, 4).unwrap(), &[0x01, 0xAA, 0xBB, 0x04]);
}

#[test]
fn overlapping_record_grows_segment() {
    let hex = ":0400000001020304F2\n:03000300AABBCCC9\n:00000001FF\n";
    let mem = HexMemory::from_string(hex).unwrap();
    assert_eq!(mem.total_bytes(), 6);
    assert_eq!(mem.read_bytes(0, 6).unwrap(), &[0x01, 0x02, 0x03, 0xAA, 0xBB, 0xCC]);
}

#[test]
fn record_before_segment_joins_it() {
    let hex = ":02000200AABB97\n:020000001122CB\n:00000001FF\n";
    let mem = HexMemory::from_string(hex).unwrap();
    assert_eq!(mem.segment_count(), 1);
    assert_eq!(mem.min_address(), Some(0));
    assert_eq!(mem.read_bytes(0, 4).unwrap(), &[0x11, 0x22, 0xAA, 0xBB]);
}

#[test]
fn records_after_end_of_file_are_ignored() {
    let hex = ":020000001122CB\n:00000001FF\n:02001000334477\n";
    let mem = HexMemory::from_string(hex).unwrap();
    assert_eq!(mem.total_bytes(), 2);
}

#[test]
fn segments_lists_start_and_bytes() {
    let hex = ":020000001122CB\n:02001000334477\n:00000001FF\n";
    let mem = HexMemory::from_string(hex).unwrap();
    let segs = mem.segments();
    assert_eq!(segs.len(), 2);
    assert_eq!(segs[0], (0x0000, &[0x11u8, 0x22][..]));
    assert_eq!(segs[1], (0x0010, &[0x33u8, 0x44][..]));
}

#[test]
fn try_from_string_checks_address_space() {
    let ok = HexMemory::try_from_string(simple_hex());
    assert!(matches!(ok, Some(Ok(_))));
    // Upper address 0xFFFF and a record that runs past 0xFFFF_FFFF.
    let hex = ":02000004FFFFFC\n:04FFFE0001020304F5\n:00000001FF\n";
    assert!(HexMemory::try_from_string(hex).is_none());
}

#[test]
fn read_u16_and_u32_outside_data_fail() {
    let mem = HexMemory::from_string(simple_hex()).unwrap();
    assert!(matches!(mem.read_u16_le(0x8004_0007), Err(HexError::AddressNotFound { length: 2, .. })));
    assert!(matches!(mem.read_u32_le(0x8004_0005), Err(HexError::AddressNotFound { length: 4, .. })));
}

#[test]
fn overlapping_record_joins_adjacent_segment() {
    let hex = ":020000000102FB\n:020004000506EF\n:03000100090909E1\n:00000001FF\n";
    let mem = HexMemory::from_string(hex).unwrap();
    assert_eq!(mem.segment_count(), 1);
    assert!(mem.contains(0, 6));
    assert_eq!(mem.read_bytes(0, 6).unwrap(), &[0x01, 0x09, 0x09, 0x09, 0x05, 0x06]);
}

#[test]
fn write_over_later_segment_replaces_its_bytes() {
    let hex = ":020000000102FB\n:03000400050607E7\n:04000100AABBCCDDED\n:00000001FF\n";
    let mem = HexMemory::from_string(hex).unwrap();
    assert_eq!(mem.segment_count(), 1);
    assert_eq!(mem.total_bytes(), 7);
    assert_eq!(mem.read_bytes(0, 7).unwrap(), &[0x01, 0xAA, 0xBB, 0xCC, 0xDD, 0x06, 0x07]);
    assert_eq!(mem.read_u8(4).unwrap(), 0xDD);
}

#[test]
fn merge_data_joins_the_segment_the_write_reaches() {
    let mut segments: Vec<(u32, Vec<u8>)> = vec![(0, vec![1, 2]), (4, vec![5, 6])];
    HexMemory::merge_data(&mut segments, 1, &[9, 9, 9]);
    assert_eq!(segments, vec![(0u32, vec![1u8, 9, 9, 9, 5, 6])]);
    HexMemory::merge_data(&mut segments, 20, &[]);
    assert_eq!(segments, vec![(0u32, vec![1u8, 9, 9, 9, 5, 6])]);
    HexMemory::merge_data(&mut segments, 10, &[7]);
    assert_eq!(segments, vec![(0u32, vec![1u8, 9, 9, 9, 5, 6]), (10, vec![7])]);
}
