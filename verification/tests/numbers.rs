use json_instance::float64::Float64;
use json_instance::integer::{BigInteger, Sign};
use json_instance::number::{
    bigint_equals_serde, number_equals_f64, number_equals_i64, NumberRef,
};
use json_instance::value::OwnedNumber;

fn float(value: f64) -> Float64 {
    Float64 { bits: value.to_bits() }
}

fn big(text: &str) -> BigInteger {
    BigInteger::parse(text).unwrap()
}

#[test]
fn integers_convert_to_the_nearest_float() {
    for n in [
        0i64,
        1,
        -1,
        2,
        3,
        1 << 52,
        (1 << 53) - 1,
        1 << 53,
        (1 << 53) + 1,
        (1 << 53) + 2,
        (1 << 53) + 3,
        -((1 << 53) + 1),
        (1 << 54) + 2,
        (1 << 54) + 6,
        i64::MAX,
        i64::MIN,
        i64::MIN + 1,
        123456789012345678,
    ] {
        assert_eq!(Float64::from_i64(n), float(n as f64), "{n}");
        assert_eq!(BigInteger::from_i64(n).to_float(), Some(float(n as f64)), "{n}");
    }
    for n in [u64::MAX, u64::MAX - 1023, u64::MAX - 1024, (1 << 63) + 1] {
        assert_eq!(Float64::from_integer(false, n), float(n as f64), "{n}");
        assert_eq!(BigInteger::from_u64(n).to_float(), Some(float(n as f64)), "{n}");
    }
}

#[test]
fn no_neighbour_is_nearer_than_the_nearest_float() {
    let n = 9007199254740993u64;
    let found = Float64::from_integer(false, n);
    assert_eq!(found, float(9007199254740992.0));
    let above = Float64 { bits: found.bits + 1 };
    assert!(above.equals_integer(false, 9007199254740994));
}

#[test]
fn big_integers_beyond_all_floats_are_infinite() {
    let huge = big(&format!("1{}", "0".repeat(309)));
    assert_eq!(huge.to_float(), Some(float(f64::INFINITY)));
    let negative = big(&format!("-1{}", "0".repeat(309)));
    assert_eq!(negative.to_float(), Some(float(f64::NEG_INFINITY)));
    let large = big(&format!("1{}", "0".repeat(308)));
    assert_eq!(large.to_float(), Some(float(1e308)));
}

#[test]
fn big_integers_round_to_the_nearest_float() {
    for (text, expected) in [
        ("0", 0.0),
        ("-5", -5.0),
        ("18446744073709551615", 18446744073709551616.0),
        ("18446744073709551616", 18446744073709551616.0),
        ("-36893488147419103232", -36893488147419103232.0),
        ("340282366920938463463374607431768211455", 340282366920938463463374607431768211456.0),
    ] {
        assert_eq!(big(text).to_nearest(), float(expected), "{text}");
    }
    // Just above the middle between two floats, by a digit far below.
    let above = big("340282366920938501251529842425784696832");
    assert_eq!(above.to_nearest().bits, 0x47f0_0000_0000_0001);
    // In the middle: the even one.
    let middle = big("340282366920938501242306470388929921024");
    assert_eq!(middle.to_nearest().bits, 0x47f0_0000_0000_0000);
    let huge = big(&format!("1{}", "0".repeat(309)));
    assert_eq!(huge.to_nearest(), float(f64::INFINITY));
    let huge = big(&format!("-1{}", "0".repeat(5000)));
    assert_eq!(huge.to_nearest(), float(f64::NEG_INFINITY));
    let largest = BigInteger::from_float(float(f64::MAX)).unwrap();
    assert_eq!(largest.to_nearest(), float(f64::MAX));
    assert_eq!(big(&format!("1{}", "0".repeat(300))).to_nearest(), float(1e300));
    let padded = BigInteger { sign: Sign::Minus, magnitude: vec![7, 0, 0, 0] };
    assert_eq!(padded.to_nearest(), float(-7.0));
}

#[test]
fn big_integers_that_are_floats_convert_exactly() {
    for value in [1e30, -1e30, 1e300, 18446744073709551616.0, f64::MAX] {
        let integer = BigInteger::from_float(float(value)).unwrap();
        assert_eq!(integer.to_float(), Some(float(value)), "{value}");
        assert_eq!(integer.to_nearest(), float(value), "{value}");
    }
    // Just above the middle between two floats: one of the two that surround it.
    let above = big("340282366920938501251529842425784696832").to_float().unwrap();
    assert!(above.bits == 0x47f0_0000_0000_0000 || above.bits == 0x47f0_0000_0000_0001);
}

#[test]
fn integers_of_up_to_96_digits_convert_to_the_nearest_float() {
    // Just above the middle between two floats, in the middle, and the longest of all.
    for (text, bits) in [
        ("39614081257132173194818486273", 0x45e0_0000_0000_0001),
        ("-39614081257132173194818486273", 0xc5e0_0000_0000_0001),
        ("39614081257132173194818486272", 0x45e0_0000_0000_0000),
        ("79228162514264337593543950335", 0x45f0_0000_0000_0000),
        ("18446744073709553665", 0x43f0_0000_0000_0001),
    ] {
        assert_eq!(big(text).to_float().unwrap().bits, bits, "{text}");
        assert_eq!(big(text).to_nearest().bits, bits, "{text}");
    }
}

#[test]
fn big_integers_have_a_decimal_text() {
    for text in [
        "0",
        "7",
        "-7",
        "4294967296",
        "-18446744073709551616",
        "340282366920938463463374607431768211456",
    ] {
        assert_eq!(big(text).to_decimal(), text);
    }
    assert_eq!(BigInteger { sign: Sign::Minus, magnitude: vec![0, 1] }.to_decimal(), "-4294967296");
    assert!(BigInteger::parse("").is_none());
    assert!(BigInteger::parse("x").is_none());
    assert!(BigInteger::parse("1.5").is_none());
}

#[test]
fn big_integers_compare_by_value() {
    assert!(big("18446744073709551616").equals(&BigInteger {
        sign: Sign::Plus,
        magnitude: vec![0, 0, 1, 0],
    }));
    assert!(!big("5").equals(&big("-5")));
    assert!(BigInteger::from_i64(0).equals(&BigInteger { sign: Sign::Minus, magnitude: vec![] }));
    assert!(!big("18446744073709551616").equals(&BigInteger::from_u64(0)));
}

#[test]
fn big_integers_narrow_where_they_fit() {
    assert_eq!(big("-9223372036854775808").to_i64(), Some(i64::MIN));
    assert_eq!(big("9223372036854775807").to_i64(), Some(i64::MAX));
    assert_eq!(big("9223372036854775808").to_i64(), None);
    assert_eq!(big("-9223372036854775809").to_i64(), None);
    assert_eq!(big("18446744073709551615").to_u64(), Some(u64::MAX));
    assert_eq!(big("18446744073709551616").to_u64(), None);
    assert_eq!(big("-1").to_u64(), None);
    assert_eq!(big("0").to_u64(), Some(0));
}

#[test]
fn floats_without_a_fraction_are_integers() {
    assert_eq!(BigInteger::from_float(float(1e20)).unwrap().to_decimal(), "100000000000000000000");
    assert_eq!(BigInteger::from_float(float(-3.0)).unwrap().to_decimal(), "-3");
    assert_eq!(BigInteger::from_float(float(-0.0)).unwrap().to_decimal(), "0");
    assert!(BigInteger::from_float(float(0.5)).is_none());
    assert!(BigInteger::from_float(float(f64::NAN)).is_none());
    assert!(BigInteger::from_float(float(f64::INFINITY)).is_none());
    assert_eq!(
        BigInteger::from_float(float(f64::MAX)).unwrap().to_float(),
        Some(float(f64::MAX))
    );
}

#[test]
fn numbers_tell_whether_they_are_integers() {
    let whole = OwnedNumber::from_f64(float(2.0)).unwrap();
    let half = OwnedNumber::from_f64(float(2.5)).unwrap();
    assert!(NumberRef::Serde(&whole).is_integer());
    assert!(!NumberRef::Serde(&half).is_integer());
    assert!(NumberRef::Integer(-4).is_integer());
    assert!(NumberRef::BigInteger(&big("123456789012345678901234567890")).is_integer());
    assert!(NumberRef::Float(float(1e300)).is_integer());
    assert!(!NumberRef::Float(float(1e-300)).is_integer());
    assert!(!NumberRef::Float(float(f64::INFINITY)).is_integer());
    assert!(!NumberRef::Float(float(f64::NAN)).is_integer());
}

#[test]
fn numbers_narrow_by_how_they_are_held() {
    let max = OwnedNumber::from_u64(u64::MAX);
    assert_eq!(NumberRef::Serde(&max).as_u64(), Some(u64::MAX));
    assert_eq!(NumberRef::Serde(&max).as_i64(), None);
    let low = OwnedNumber::from_i64(-5);
    assert_eq!(NumberRef::Serde(&low).as_i64(), Some(-5));
    assert_eq!(NumberRef::Serde(&low).as_u64(), None);
    assert_eq!(NumberRef::Integer(7).as_u64(), Some(7));
    assert_eq!(NumberRef::Integer(-7).as_u64(), None);
    let five = big("5");
    assert_eq!(NumberRef::BigInteger(&five).as_i64(), None);
    assert_eq!(NumberRef::BigInteger(&five).as_u64(), None);
    assert_eq!(NumberRef::BigInteger(&five).as_f64(), Some(float(5.0)));
    assert_eq!(NumberRef::Float(float(5.0)).as_i64(), None);
    assert_eq!(NumberRef::Float(float(5.0)).as_u64(), None);
    assert_eq!(NumberRef::Float(float(5.0)).as_f64(), Some(float(5.0)));
    assert_eq!(NumberRef::Serde(&max).as_f64(), Some(float(18446744073709551616.0)));
}

#[test]
fn numbers_compare_across_representations() {
    let max = OwnedNumber::from_u64(u64::MAX);
    assert!(!number_equals_i64(&max, -1));
    assert!(number_equals_i64(&OwnedNumber::from_i64(-1), -1));
    assert!(number_equals_i64(&OwnedNumber::from_f64(float(-1.0)).unwrap(), -1));
    assert!(!number_equals_i64(&OwnedNumber::from_f64(float(-1.5)).unwrap(), -1));
    assert!(number_equals_f64(&OwnedNumber::from_i64(i64::MIN), float(-9223372036854775808.0)));
    assert!(!number_equals_f64(&OwnedNumber::from_i64(i64::MAX), float(9223372036854775808.0)));
    assert!(!number_equals_f64(&max, float(18446744073709551616.0)));
    assert!(!number_equals_f64(&max, float(f64::NAN)));
    assert!(number_equals_f64(&OwnedNumber::from_f64(float(0.0)).unwrap(), float(-0.0)));
    assert!(bigint_equals_serde(&big("18446744073709551615"), &max));
    assert!(bigint_equals_serde(&big("-3"), &OwnedNumber::from_i64(-3)));
    let power = OwnedNumber::from_f64(float(1267650600228229401496703205376.0)).unwrap();
    assert!(bigint_equals_serde(&big("1267650600228229401496703205376"), &power));
    assert!(!bigint_equals_serde(&big("1"), &OwnedNumber::from_f64(float(1.5)).unwrap()));
}

#[test]
fn floats_compare_by_value() {
    assert!(float(0.0).equals(float(-0.0)));
    assert!(!float(f64::NAN).equals(float(f64::NAN)));
    assert!(float(f64::INFINITY).equals(float(f64::INFINITY)));
    assert!(!float(f64::INFINITY).equals(float(f64::NEG_INFINITY)));
    assert!(float(1.5).equals(float(1.5)));
    assert!(!float(1.5).equals(float(-1.5)));
    assert!(OwnedNumber::from_f64(float(f64::NAN)).is_none());
    assert!(OwnedNumber::from_f64(float(f64::INFINITY)).is_none());
}

#[test]
fn texts_are_read_as_numbers() {
    assert!(matches!(OwnedNumber::parse("42"), Some(OwnedNumber::PosInt(42))));
    assert!(matches!(OwnedNumber::parse("-42"), Some(OwnedNumber::NegInt(-42))));
    let large = float(18446744073709551616.0);
    let parsed = OwnedNumber::parse("18446744073709551616");
    assert!(matches!(parsed, Some(OwnedNumber::Float(f)) if f == large));
    assert!(OwnedNumber::parse("x").is_none());
}

#[test]
fn long_integers_are_read_as_the_nearest_float() {
    for (text, bits) in [
        ("18446744073709551616", 0x43f0_0000_0000_0000),
        ("-9223372036854775809", 0xc3e0_0000_0000_0000),
        ("-18446744073709551615", 0xc3f0_0000_0000_0000),
        ("39614081257132173194818486273", 0x45e0_0000_0000_0001),
        ("39614081257132173194818486272", 0x45e0_0000_0000_0000),
        ("340282366920938501251529842425784696832", 0x47f0_0000_0000_0001),
        ("340282366920938501242306470388929921024", 0x47f0_0000_0000_0000),
        ("179769313486231580793728971405303415079934132710037826936173778980444968292764750946649017977587207096330286416692887910946555547851940402630657488671505820681908902000708383676273854845817711531764475730270069855571366959622842914819860834936475292719074168444365510704342711559699508093042880177904174497791", 0x7fef_ffff_ffff_ffff),
        ("-179769313486231580793728971405303415079934132710037826936173778980444968292764750946649017977587207096330286416692887910946555547851940402630657488671505820681908902000708383676273854845817711531764475730270069855571366959622842914819860834936475292719074168444365510704342711559699508093042880177904174497791", 0xffef_ffff_ffff_ffff),
    ] {
        match OwnedNumber::parse(text) {
            Some(OwnedNumber::Float(found)) => assert_eq!(found.bits, bits, "{text}"),
            other => panic!("{text}: {other:?}"),
        }
        assert_eq!(big(text).to_nearest().bits, bits, "{text}");
    }
    // In the middle between the greatest finite float and what would follow it.
    let huge = "179769313486231580793728971405303415079934132710037826936173778980444968292764750946649017977587207096330286416692887910946555547851940402630657488671505820681908902000708383676273854845817711531764475730270069855571366959622842914819860834936475292719074168444365510704342711559699508093042880177904174497792";
    assert!(OwnedNumber::parse(huge).is_none());
    assert_eq!(big(huge).to_nearest(), float(f64::INFINITY));
}
