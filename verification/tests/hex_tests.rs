use relay_core::{hex_range, is_hex, is_lower_hex, HexSearch};

fn event_hash(prefix: &str) -> String {
    // a 64-character lowercase hex id starting with the given prefix
    let mut s = String::from(prefix);
    while s.len() < 64 {
        s.push('0');
    }
    s
}

#[test]
fn hex_validation() {
    assert!(is_hex(""));
    assert!(is_hex("0123456789abcdefABCDEF"));
    assert!(!is_hex("0x12"));
    assert!(!is_hex("ghij"));
    assert!(is_lower_hex("0123456789abcdef"));
    assert!(!is_lower_hex("ABCD"));
    assert!(!is_lower_hex("12 34"));
}

#[test]
fn range_even_prefix() {
    match hex_range("aa") {
        Some(HexSearch::Range(lo, hi)) => {
            assert_eq!(lo, vec![0xaa]);
            assert_eq!(hi, vec![0xab]);
        }
        other => panic!("unexpected search: {:?}", search_name(&other)),
    }
}

#[test]
fn range_odd_prefix() {
    match hex_range("ab1") {
        Some(HexSearch::Range(lo, hi)) => {
            assert_eq!(lo, vec![0xab, 0x10]);
            assert_eq!(hi, vec![0xab, 0x20]);
        }
        other => panic!("unexpected search: {:?}", search_name(&other)),
    }
}

#[test]
fn range_with_carry() {
    match hex_range("10ff") {
        Some(HexSearch::Range(lo, hi)) => {
            assert_eq!(lo, vec![0x10, 0xff]);
            assert_eq!(hi, vec![0x11, 0x00]);
        }
        other => panic!("unexpected search: {:?}", search_name(&other)),
    }
}

#[test]
fn lower_only_all_f() {
    match hex_range("ff") {
        Some(HexSearch::LowerOnly(lo)) => {
            assert_eq!(lo, vec![0xff]);
        }
        other => panic!("unexpected search: {:?}", search_name(&other)),
    }
    match hex_range("fff") {
        Some(HexSearch::LowerOnly(lo)) => {
            assert_eq!(lo, vec![0xff, 0xf0]);
        }
        other => panic!("unexpected search: {:?}", search_name(&other)),
    }
}

#[test]
fn exact_full_length() {
    let id = event_hash("ab");
    match hex_range(&id) {
        Some(HexSearch::Exact(bytes)) => {
            assert_eq!(bytes.len(), 32);
            assert_eq!(bytes[0], 0xab);
            assert_eq!(bytes[1], 0x00);
        }
        other => panic!("unexpected search: {:?}", search_name(&other)),
    }
}

#[test]
fn rejects_non_hex_and_overlong() {
    assert!(hex_range("xyz").is_none());
    let mut long = event_hash("aa");
    long.push('0');
    assert!(hex_range(&long).is_none());
}

fn search_name(s: &Option<HexSearch>) -> &'static str {
    match s {
        None => "none",
        Some(HexSearch::Exact(_)) => "exact",
        Some(HexSearch::Range(_, _)) => "range",
        Some(HexSearch::LowerOnly(_)) => "lower-only",
    }
}
