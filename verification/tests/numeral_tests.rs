use display_presets::{dec_to_i64, i64_to_dec};

#[test]
fn formats_integers_in_decimal() {
    assert_eq!("0", i64_to_dec(0));
    assert_eq!("7", i64_to_dec(7));
    assert_eq!("12345", i64_to_dec(12345));
    assert_eq!("-123", i64_to_dec(-123));
    assert_eq!("9223372036854775807", i64_to_dec(i64::MAX));
    assert_eq!("-9223372036854775808", i64_to_dec(i64::MIN));
}

#[test]
fn reads_canonical_decimals_back() {
    assert_eq!(Some(0), dec_to_i64("0"));
    assert_eq!(Some(42), dec_to_i64("42"));
    assert_eq!(Some(-7), dec_to_i64("-7"));
    assert_eq!(Some(i64::MAX), dec_to_i64("9223372036854775807"));
    assert_eq!(Some(i64::MIN), dec_to_i64("-9223372036854775808"));
}

#[test]
fn rejects_what_no_integer_produces() {
    assert_eq!(None, dec_to_i64(""));
    assert_eq!(None, dec_to_i64("-"));
    assert_eq!(None, dec_to_i64("12a"));
    assert_eq!(None, dec_to_i64("9223372036854775809"));
    assert_eq!(None, dec_to_i64("99999999999999999999"));
}
