//! The library-wide error type: a plain message, or an I/O failure passed
//! through unchanged.

use vstd::prelude::*;
use crate::text::owned;

verus! {

#[verifier::external_type_specification]
#[verifier::external_body]
pub struct ExIoError(std::io::Error);

/// An error: a message of the caller's own, or an I/O error.
#[derive(Debug)]
pub enum Error {
    Message(String),
    Io(std::io::Error),
}

/// `Result` with this crate's [`Error`].
pub type Result<T> = core::result::Result<T, Error>;

/// `<std::io::Error as Display>::fmt`, through `to_string`: the I/O error's
/// own description. For an OS error it carries the system's message, which
/// depends on the platform and locale, so nothing is stated of it.
#[verifier::external_body]
fn io_error_text(e: &std::io::Error) -> String {
    e.to_string()
}

impl Error {
    /// An error carrying `s` as its message.
    pub fn msg(s: &str) -> (r: Self)
        ensures
            r matches Error::Message(m) && m@ == s@,
    {
        Error::Message(owned(s))
    }

    /// The error's display text: the message itself, or the I/O error's own
    /// description.
    pub fn message(&self) -> (r: String)
        ensures
            self matches Error::Message(m) ==> r@ == m@,
    {
        match self {
            Error::Message(m) => m.clone(),
            Error::Io(e) => io_error_text(e),
        }
    }
}

impl From<std::io::Error> for Error {
    fn from(e: std::io::Error) -> (r: Self) {
        Error::Io(e)
    }
}

impl vstd::std_specs::convert::FromSpecImpl<std::io::Error> for Error {
    open spec fn obeys_from_spec() -> bool {
        true
    }

    open spec fn from_spec(e: std::io::Error) -> Self {
        Error::Io(e)
    }
}

} // verus!
