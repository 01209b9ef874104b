use runi::{Error, Result};

#[test]
fn result_with_error() {
    let r: Result<()> = Err(Error::msg("fail"));
    assert!(r.is_err());
}

#[test]
fn error_from_string() {
    for msg in ["something went wrong", "another error"] {
        let e = Error::msg(msg);
        assert_eq!(e.message(), msg);
    }
}

#[test]
fn io_error_converts_and_keeps_its_text() {
    let io = std::io::Error::new(std::io::ErrorKind::Other, "disk on fire");
    let e: Error = Error::from(io);
    assert!(matches!(e, Error::Io(_)));
    assert_eq!(e.message(), "disk on fire");
}
