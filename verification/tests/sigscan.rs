use poggers::errors::ScanError;
use poggers::sigscan::Pattern;

#[test]
fn exact_byte_scan_finds_lowest_offset() {
    let p = Pattern::compile("90 90 90").unwrap();
    let hay = [0x00u8, 0x90, 0x90, 0x90, 0xCC];
    assert_eq!(p.find(&hay), Some(1));
}

#[test]
fn wildcard_scan_matches_any_byte() {
    let p = Pattern::compile("90 ?? 90").unwrap();
    assert_eq!(p.find(&[0x90u8, 0xAA, 0x90, 0x00]), Some(0));
    assert_eq!(p.find(&[0x90u8, 0xAA, 0x91, 0x00]), None);
}

#[test]
fn first_match_tie_break() {
    let p = Pattern::compile("AA").unwrap();
    let hay = [0x00u8, 0x11, 0xAA, 0x33, 0x44, 0xAA, 0x66];
    assert_eq!(p.find(&hay), Some(2));
}

#[test]
fn malformed_pattern_fails_compilation() {
    assert_eq!(Pattern::compile("9 0 ??").unwrap_err(), ScanError::InvalidPattern);
    assert_eq!(Pattern::compile("").unwrap_err(), ScanError::InvalidPattern);
    assert_eq!(Pattern::compile("90 9").unwrap_err(), ScanError::InvalidPattern);
    assert_eq!(Pattern::compile("90  90").unwrap_err(), ScanError::InvalidPattern);
    assert_eq!(Pattern::compile("9G").unwrap_err(), ScanError::InvalidPattern);
    assert_eq!(Pattern::compile("90 ?A").unwrap_err(), ScanError::InvalidPattern);
}

#[test]
fn compile_accepts_both_hex_cases() {
    let p = Pattern::compile("aB Cd").unwrap();
    assert_eq!(p.len(), 2);
    assert_eq!(p.find(&[0xABu8, 0xCD]), Some(0));
}

#[test]
fn pattern_is_reusable_across_scans() {
    let p = Pattern::compile("01 02").unwrap();
    assert_eq!(p.find(&[0x01u8, 0x02]), Some(0));
    assert_eq!(p.find(&[0x00u8, 0x01, 0x02]), Some(1));
    assert_eq!(p.find(&[0x02u8, 0x01]), None);
}

#[test]
fn find_all_lists_every_match_ascending() {
    let p = Pattern::compile("AA ??").unwrap();
    let hay = [0xAAu8, 0x01, 0xAA, 0x02, 0x00, 0xAA];
    assert_eq!(p.find_all(&hay), vec![0, 2]);
    let q = Pattern::compile("00").unwrap();
    assert_eq!(q.find_all(&[0x00u8, 0x00, 0x00]), vec![0, 1, 2]);
}

#[test]
fn pattern_longer_than_haystack_never_matches() {
    let p = Pattern::compile("01 02 03").unwrap();
    assert_eq!(p.find(&[0x01u8, 0x02]), None);
    assert_eq!(p.find_all(&[0x01u8, 0x02]), Vec::<usize>::new());
}
