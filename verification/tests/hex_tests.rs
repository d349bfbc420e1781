use mand_cluster::hex::{parse_hex_i128, parse_hex_u64, to_hex_u64};

#[test]
fn parse_unsigned_with_and_without_prefix() {
    assert_eq!(parse_hex_u64(b"0x3e8"), Some(0x3E8));
    assert_eq!(parse_hex_u64(b"3e8"), Some(0x3E8));
    assert_eq!(parse_hex_u64(b"3E8"), Some(0x3E8));
    assert_eq!(parse_hex_u64(b"0"), Some(0));
    assert_eq!(parse_hex_u64(b"0x0"), Some(0));
    assert_eq!(parse_hex_u64(b"ffffffffffffffff"), Some(u64::MAX));
}

#[test]
fn parse_unsigned_rejects_bad_input() {
    assert_eq!(parse_hex_u64(b""), None);
    assert_eq!(parse_hex_u64(b"0x"), None);
    assert_eq!(parse_hex_u64(b"xyz"), None);
    assert_eq!(parse_hex_u64(b"12g4"), None);
    assert_eq!(parse_hex_u64(b"-1"), None);
    // One past the 64-bit range.
    assert_eq!(parse_hex_u64(b"10000000000000000"), None);
}

#[test]
fn emit_is_lower_case_without_leading_zeros() {
    assert_eq!(to_hex_u64(0), b"0".to_vec());
    assert_eq!(to_hex_u64(0x3E8), b"3e8".to_vec());
    assert_eq!(to_hex_u64(0xDEADBEEF), b"deadbeef".to_vec());
    assert_eq!(to_hex_u64(u64::MAX), b"ffffffffffffffff".to_vec());
}

#[test]
fn value_round_trip_through_hex() {
    for v in [0u64, 1, 15, 16, 255, 0x3E8, 0xDEADBEEF, u64::MAX] {
        assert_eq!(parse_hex_u64(&to_hex_u64(v)), Some(v));
    }
}

#[test]
fn canonical_string_round_trip_through_hex() {
    for s in [&b"0"[..], b"1", b"f", b"10", b"3e8", b"deadbeef", b"ffffffffffffffff"] {
        let v = parse_hex_u64(s).unwrap();
        assert_eq!(to_hex_u64(v), s.to_vec());
    }
}

#[test]
fn parse_signed_values() {
    assert_eq!(parse_hex_i128(b"0"), Some(0));
    assert_eq!(parse_hex_i128(b"0x1a"), Some(26));
    assert_eq!(parse_hex_i128(b"-1a"), Some(-26));
    assert_eq!(parse_hex_i128(b"0x-1a"), Some(-26));
    assert_eq!(
        parse_hex_i128(b"7fffffffffffffffffffffffffffffff"),
        Some(i128::MAX)
    );
    assert_eq!(
        parse_hex_i128(b"-80000000000000000000000000000000"),
        Some(i128::MIN)
    );
}

#[test]
fn parse_signed_rejects_out_of_range_and_bad_input() {
    assert_eq!(parse_hex_i128(b""), None);
    assert_eq!(parse_hex_i128(b"-"), None);
    assert_eq!(parse_hex_i128(b"-0x1a"), None);
    // One past each end of the 128-bit signed range.
    assert_eq!(parse_hex_i128(b"80000000000000000000000000000000"), None);
    assert_eq!(parse_hex_i128(b"-80000000000000000000000000000001"), None);
}
