use cloudevents::number::{decimal_of, integer_of};

#[test]
fn plain_integers_are_read() {
    assert_eq!(integer_of("10"), Some(10));
    assert_eq!(integer_of("0"), Some(0));
    assert_eq!(integer_of("-0"), Some(0));
    assert_eq!(integer_of("-17"), Some(-17));
}

#[test]
fn zero_fraction_is_an_integer() {
    assert_eq!(integer_of("10.0"), Some(10));
    assert_eq!(integer_of("10.000"), Some(10));
    assert_eq!(integer_of("0.000"), Some(0));
    assert_eq!(integer_of("-3.0"), Some(-3));
}

#[test]
fn nonzero_fraction_is_no_integer() {
    assert_eq!(integer_of("1.5"), None);
    assert_eq!(integer_of("0.001"), None);
    assert_eq!(integer_of("-2.50"), None);
}

#[test]
fn exponent_moves_the_point() {
    assert_eq!(integer_of("1e2"), Some(100));
    assert_eq!(integer_of("1E2"), Some(100));
    assert_eq!(integer_of("1e+2"), Some(100));
    assert_eq!(integer_of("1.50e1"), Some(15));
    assert_eq!(integer_of("1.5e0"), None);
    assert_eq!(integer_of("100e-2"), Some(1));
    assert_eq!(integer_of("1e-2"), None);
    assert_eq!(integer_of("1.2345e4"), Some(12345));
    assert_eq!(integer_of("1.2345e3"), None);
    assert_eq!(integer_of("-1.2e1"), Some(-12));
    assert_eq!(integer_of("1e18"), Some(1_000_000_000_000_000_000));
    assert_eq!(integer_of("1e19"), None);
}

#[test]
fn range_of_sixty_four_bits() {
    assert_eq!(integer_of("9223372036854775807"), Some(i64::MAX));
    assert_eq!(integer_of("9223372036854775808"), None);
    assert_eq!(integer_of("-9223372036854775808"), Some(i64::MIN));
    assert_eq!(integer_of("-9223372036854775809"), None);
    assert_eq!(integer_of("9.223372036854775807e18"), Some(i64::MAX));
    assert_eq!(integer_of("92233720368547758070e-1"), Some(i64::MAX));
    assert_eq!(integer_of("123456789012345678901234567890"), None);
}

#[test]
fn huge_exponents_are_decided() {
    assert_eq!(integer_of("1e99999999999999999999999999999999999999999"), None);
    assert_eq!(integer_of("0e99999999999999999999999999999999999999999"), Some(0));
    assert_eq!(integer_of("0.0e-99999999999999999999999999999999999999999"), Some(0));
    assert_eq!(integer_of("5e-99999999999999999999999999999999999999999"), None);
    assert_eq!(integer_of("1e340282366920938463463374607431768211456"), None);
}

#[test]
fn texts_that_are_no_numbers() {
    assert_eq!(integer_of(""), None);
    assert_eq!(integer_of("-"), None);
    assert_eq!(integer_of("+1"), None);
    assert_eq!(integer_of("01"), None);
    assert_eq!(integer_of("-01"), None);
    assert_eq!(integer_of("1."), None);
    assert_eq!(integer_of(".5"), None);
    assert_eq!(integer_of("1e"), None);
    assert_eq!(integer_of("1e+"), None);
    assert_eq!(integer_of("12a"), None);
    assert_eq!(integer_of("1 "), None);
    assert_eq!(integer_of("١٢"), None);
    assert_eq!(integer_of("1e2.0"), None);
}

#[test]
fn decimal_text_of_integers() {
    assert_eq!(decimal_of(0), "0");
    assert_eq!(decimal_of(7), "7");
    assert_eq!(decimal_of(10), "10");
    assert_eq!(decimal_of(-1), "-1");
    assert_eq!(decimal_of(1234567890), "1234567890");
    assert_eq!(decimal_of(i64::MAX), "9223372036854775807");
    assert_eq!(decimal_of(i64::MIN), "-9223372036854775808");
}

#[test]
fn decimal_text_reads_back() {
    let samples: Vec<i64> = vec![0, 1, -1, 9, 10, 99, 100, -100, 4711, i64::MAX, i64::MIN, i64::MIN + 1];
    for i in samples {
        assert_eq!(integer_of(&decimal_of(i)), Some(i));
    }
}
