use doppler_keygen::text::{decimal_text, push_decimal, push_hex, push_signed_decimal};

fn hex(n: u64, width: u8) -> String {
    let mut s = String::new();
    push_hex(&mut s, n, width);
    s
}

fn signed(v: i64) -> String {
    let mut s = String::new();
    push_signed_decimal(&mut s, v);
    s
}

#[test]
fn decimal_has_no_leading_zeros() {
    assert_eq!(decimal_text(0), "0");
    assert_eq!(decimal_text(7), "7");
    assert_eq!(decimal_text(10), "10");
    assert_eq!(decimal_text(255), "255");
    assert_eq!(decimal_text(1_000_000), "1000000");
    assert_eq!(decimal_text(u64::MAX), "18446744073709551615");
}

#[test]
fn decimal_is_appended() {
    let mut s = String::from("n=");
    push_decimal(&mut s, 42);
    push_decimal(&mut s, 0);
    assert_eq!(s, "n=420");
}

#[test]
fn signed_decimal_has_a_minus_sign() {
    assert_eq!(signed(0), "0");
    assert_eq!(signed(15), "15");
    assert_eq!(signed(-1), "-1");
    assert_eq!(signed(-2147483648), "-2147483648");
    assert_eq!(signed(i64::MAX), "9223372036854775807");
    assert_eq!(signed(i64::MIN), "-9223372036854775808");
}

#[test]
fn hex_is_lower_case_and_padded() {
    assert_eq!(hex(0, 8), "00000000");
    assert_eq!(hex(0xABCDEF, 8), "00abcdef");
    assert_eq!(hex(0xffff_ffff, 8), "ffffffff");
    assert_eq!(hex(0x0123_4567_89ab_cdef, 16), "0123456789abcdef");
    assert_eq!(hex(0x9, 2), "09");
    assert_eq!(hex(0xa0, 2), "a0");
    assert_eq!(hex(5, 0), "");
}

#[test]
fn hex_keeps_the_low_digits() {
    assert_eq!(hex(0x1234, 2), "34");
    assert_eq!(hex(u64::MAX, 16), "ffffffffffffffff");
    assert_eq!(hex(1, 20), "00000000000000000001");
}

#[test]
fn rendering_agrees_with_std() {
    for n in [0u64, 1, 9, 10, 99, 100, 12345, 4294967295, 4294967296, u64::MAX - 1] {
        assert_eq!(decimal_text(n), n.to_string());
        assert_eq!(hex(n, 16), format!("{:016x}", n));
        assert_eq!(signed(n as i64), (n as i64).to_string());
        assert_eq!(signed((n as i64).wrapping_neg()), (n as i64).wrapping_neg().to_string());
    }
}
