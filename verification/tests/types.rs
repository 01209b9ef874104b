use runi::cli::FromArg;
use std::path::PathBuf;

#[test]
fn parses_strings_and_paths() {
    assert_eq!(String::from_arg("hello").unwrap(), "hello".to_string());
    assert_eq!(
        PathBuf::from_arg("/tmp/x").unwrap(),
        PathBuf::from("/tmp/x")
    );
}

#[test]
fn parses_numbers() {
    assert_eq!(i32::from_arg("-7").unwrap(), -7);
    assert_eq!(u64::from_arg("42").unwrap(), 42u64);
    // Floating-point conversion is not part of the library; std reads it.
    assert!(("2.5".parse::<f64>().unwrap() - 2.5).abs() < 1e-9);
}

#[test]
fn parses_booleans() {
    assert!(bool::from_arg("true").unwrap());
    assert!(!bool::from_arg("false").unwrap());
}

#[test]
fn reports_error_for_invalid_input() {
    let err = i32::from_arg("not-a-number").unwrap_err();
    assert!(!err.is_empty());
}

#[test]
fn integer_rules_match_std() {
    assert_eq!(u8::from_arg("+255").unwrap(), 255);
    assert_eq!(u8::from_arg("256").unwrap_err(), "number too large to fit in target type");
    assert_eq!(i8::from_arg("-128").unwrap(), -128);
    assert_eq!(i8::from_arg("-129").unwrap_err(), "number too small to fit in target type");
    assert_eq!(u32::from_arg("").unwrap_err(), "cannot parse integer from empty string");
    assert_eq!(u32::from_arg("-1").unwrap_err(), "invalid digit found in string");
    assert_eq!(i64::from_arg("-").unwrap_err(), "invalid digit found in string");
    assert_eq!(u16::from_arg("99999x").unwrap_err(), "number too large to fit in target type");
    for s in ["0", "+7", "-0", "12345", "-9223372036854775808", "9223372036854775808", "x", "1_0"] {
        assert_eq!(i64::from_arg(s).ok(), s.parse::<i64>().ok(), "input {s}");
    }
}

#[test]
fn chars_and_bad_booleans() {
    assert_eq!(char::from_arg("x").unwrap(), 'x');
    assert!(char::from_arg("xy").is_err());
    assert!(char::from_arg("").is_err());
    assert_eq!(
        bool::from_arg("yes").unwrap_err(),
        "provided string was not `true` or `false`"
    );
}

#[test]
fn parses_128_bit_integers_like_from_str() {
    for raw in [
        "0",
        "+7",
        "340282366920938463463374607431768211455",
        "340282366920938463463374607431768211456",
        "-1",
        "",
        "12a",
    ] {
        assert_eq!(u128::from_arg(raw).ok(), raw.parse::<u128>().ok(), "u128 {raw:?}");
    }
    for raw in [
        "-170141183460469231731687303715884105728",
        "-170141183460469231731687303715884105729",
        "170141183460469231731687303715884105727",
        "170141183460469231731687303715884105728",
        "-0",
        "+",
        "-",
    ] {
        assert_eq!(i128::from_arg(raw).ok(), raw.parse::<i128>().ok(), "i128 {raw:?}");
    }
    assert_eq!(
        u128::from_arg("340282366920938463463374607431768211456").unwrap_err(),
        "number too large to fit in target type"
    );
    assert_eq!(
        i128::from_arg("-170141183460469231731687303715884105729").unwrap_err(),
        "number too small to fit in target type"
    );
}
