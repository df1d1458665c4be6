//! Tests of the value deriver: configuration parsing and patch values.

use dfpatch::values::{client_num_from_text, parse_u32};
use dfpatch::values;

#[test]
fn parse_plain_number() {
    assert_eq!(parse_u32(&b"10".to_vec()), Some(10));
    assert_eq!(parse_u32(&b"0".to_vec()), Some(0));
    assert_eq!(parse_u32(&b"3".to_vec()), Some(3));
    assert_eq!(parse_u32(&b"007".to_vec()), Some(7));
}

#[test]
fn parse_leading_plus() {
    assert_eq!(parse_u32(&b"+10".to_vec()), Some(10));
    assert_eq!(parse_u32(&b"+".to_vec()), None);
}

#[test]
fn parse_rejects_non_numbers() {
    assert_eq!(parse_u32(&b"".to_vec()), None);
    assert_eq!(parse_u32(&b"abc".to_vec()), None);
    assert_eq!(parse_u32(&b"10x".to_vec()), None);
    assert_eq!(parse_u32(&b"-1".to_vec()), None);
    assert_eq!(parse_u32(&b" 10".to_vec()), None);
}

#[test]
fn parse_u32_bounds() {
    assert_eq!(parse_u32(&b"4294967295".to_vec()), Some(u32::MAX));
    assert_eq!(parse_u32(&b"4294967296".to_vec()), None);
    assert_eq!(parse_u32(&b"99999999999999999999".to_vec()), None);
}

#[test]
fn client_num_absent_is_unconfigured() {
    assert_eq!(client_num_from_text(None), None);
}

#[test]
fn client_num_floor_is_unconfigured() {
    assert_eq!(client_num_from_text(Some(&b"0".to_vec())), None);
    assert_eq!(client_num_from_text(Some(&b"1".to_vec())), None);
    assert_eq!(client_num_from_text(Some(&b"2".to_vec())), None);
}

#[test]
fn client_num_above_floor() {
    assert_eq!(client_num_from_text(Some(&b"3".to_vec())), Some(3));
    assert_eq!(client_num_from_text(Some(&b"10".to_vec())), Some(10));
}

#[test]
fn client_num_large_counts_configure() {
    assert_eq!(client_num_from_text(Some(&b"1000".to_vec())), Some(1000));
    assert_eq!(client_num_from_text(Some(&b"3276".to_vec())), Some(3276));
}

#[test]
fn client_num_garbage_is_unconfigured() {
    assert_eq!(client_num_from_text(Some(&b"ten".to_vec())), None);
    assert_eq!(client_num_from_text(Some(&b"".to_vec())), None);
}

#[test]
fn derive_formulas() {
    let v = values::derive(10);
    assert_eq!(v.raw_count, 10);
    assert_eq!(v.raw_count_minus_one, 9);
    assert_eq!(v.scaled_limit, 4 + 0x140060 * 10);
    assert_eq!(v.scaled_limit, 13108164);
}

#[test]
fn derive_just_above_floor() {
    let v = values::derive(3);
    assert_eq!(v.raw_count, 3);
    assert_eq!(v.raw_count_minus_one, 2);
    assert_eq!(v.scaled_limit, 4 + 0x140060 * 3);
}

#[test]
fn derive_wraps_past_32_bits() {
    // 4 + 0x140060 * n no longer fits in 32 bits here; the 4-byte patch
    // slot holds the low 32 bits.
    let n: u32 = 5000;
    let v = values::derive(n);
    let wide = 4u64 + 0x140060u64 * n as u64;
    assert_eq!(v.scaled_limit, (wide % (1u64 << 32)) as u32);
    assert_eq!(v.raw_count, n);
    assert_eq!(v.raw_count_minus_one, n - 1);
}
