use orexis::scan::{find_table_instruction, first_match_offset, rip_relative_target, TableScanError};

const PATTERN: [u8; 16] = [0x48, 0x8B, 0x05, 1, 2, 3, 4, 0x48, 0x8D, 0x0D, 5, 6, 7, 8, 0xFF, 0xD0];

#[test]
fn finds_first_table_instruction() {
    let mut image = vec![0x90u8; 5];
    image.extend_from_slice(&PATTERN);
    image.extend_from_slice(&[0xCC; 3]);
    image.extend_from_slice(&PATTERN);
    assert_eq!(find_table_instruction(image), Ok(5));
}

#[test]
fn reports_missing_instruction() {
    assert_eq!(find_table_instruction(vec![0x90u8; 64]), Err(TableScanError::NotFound));
}

#[test]
fn first_match_of_scan_outcome() {
    assert_eq!(first_match_offset(None), Err(TableScanError::ScanFailed));
    assert_eq!(first_match_offset(Some(vec![])), Err(TableScanError::NotFound));
    assert_eq!(first_match_offset(Some(vec![9, 2])), Ok(9));
}

#[test]
fn rip_relative_addresses() {
    assert_eq!(rip_relative_target(0x1000, 0x20), 0x1027);
    assert_eq!(rip_relative_target(0x1000, -0x10), 0xff7);
    assert_eq!(rip_relative_target(3, -10), 0);
}
