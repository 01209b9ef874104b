use runi::str_util::{is_blank, to_camel_case, to_snake_case, truncate};

#[test]
fn test_truncate() {
    for (input, max, expected) in [
        ("hello", 10, "hello"),
        ("hello", 5, "hello"),
        ("hello world", 5, "hello"),
        ("こんにちは", 6, "こん"),
    ] {
        assert_eq!(truncate(input, max), expected);
    }
}

#[test]
fn truncate_backs_off_to_a_char_boundary() {
    assert_eq!(truncate("こんにちは", 7), "こん");
    assert_eq!(truncate("こんにちは", 2), "");
    assert_eq!(truncate("", 0), "");
}

#[test]
fn test_is_blank() {
    for (input, expected) in [("", true), ("   ", true), (" \t\n ", true), ("a", false)] {
        assert_eq!(is_blank(input), expected);
    }
    assert!(is_blank("\u{3000}"));
    assert!(!is_blank(" x "));
}

#[test]
fn test_to_snake_case() {
    for (input, expected) in [
        ("HelloWorld", "hello_world"),
        ("helloWorld", "hello_world"),
        ("hello", "hello"),
    ] {
        assert_eq!(to_snake_case(input), expected);
    }
    assert_eq!(to_snake_case("ÉtéChaud"), "été_chaud");
}

#[test]
fn test_to_camel_case() {
    for (input, expected) in [
        ("hello_world", "helloWorld"),
        ("hello-world", "helloWorld"),
        ("hello", "hello"),
    ] {
        assert_eq!(to_camel_case(input), expected);
    }
    assert_eq!(to_camel_case("a__b-"), "aB");
    assert_eq!(to_camel_case("über_straße"), "überStraße");
}
