use thorn_svg_core::number::is_canonical;

#[test]
fn canonical_is_a_fixed_point_of_fmt() {
    assert!(is_canonical("10"));
    assert!(is_canonical("10.125"));
    assert!(!is_canonical("10.0"));
    assert!(!is_canonical("10.1254"));
    assert!(!is_canonical("+10"));
    assert!(!is_canonical("ten"));
}

#[test]
fn a_negative_zero_and_a_leading_zero_are_not_canonical() {
    assert!(!is_canonical("-0"));
    assert!(!is_canonical("007"));
    assert!(!is_canonical("1."));
    assert!(!is_canonical(".5"));
    assert!(is_canonical("0.5"));
    assert!(is_canonical("-0.5"));
    assert!(is_canonical("-12.34"));
    assert!(!is_canonical(""));
}

#[test]
fn a_plain_decimal_of_any_length_is_canonical_and_nothing_else_is() {
    assert!(is_canonical("1234567890123"));
    assert!(is_canonical("100000000000000"));
    assert!(is_canonical("-9999999999999"));
    assert!(is_canonical("123456789012345.5"));
    assert!(is_canonical("-0.5"));
    assert!(!is_canonical("inf"));
    assert!(!is_canonical("-inf"));
    assert!(!is_canonical("NaN"));
    assert!(!is_canonical("-0"));
    assert!(!is_canonical("1."));
    assert!(!is_canonical(".5"));
    assert!(!is_canonical("1e5"));
    assert!(!is_canonical("007"));
}
