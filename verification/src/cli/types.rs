//! Conversion of raw command-line argument strings into typed values.

use vstd::prelude::*;
use crate::text::{owned, chars_of};
use crate::num::{parse_int, parse_int_spec, parse_u128, parse_i128, int_error_text, int_error_message};

verus! {

/// Convert a raw command-line argument string into a typed value.
///
/// The library implements it for `String`, `bool`, `char`, `PathBuf` and the
/// integer types, with the rules of their `FromStr`
/// implementations; implement it for your own types to parse custom syntax.
pub trait FromArg: Sized {
    fn from_arg(raw: &str) -> core::result::Result<Self, String>;
}

/// What converting `raw` to an integer of range `min..=max` gives: the value,
/// or the message of std's `ParseIntError`.
pub open spec fn int_arg(raw: Seq<char>, min: int, max: int) -> core::result::Result<int, Seq<char>> {
    match parse_int_spec(raw, min, max) {
        Ok(v) => Ok(v),
        Err(e) => Err(int_error_message(e)),
    }
}

fn int_from_arg(raw: &str, min: i128, max: i128) -> (r: core::result::Result<i128, String>)
    requires
        -0x1_0000_0000_0000_0000 <= min <= 0,
        0 <= max <= 0x1_0000_0000_0000_0000,
    ensures
        match int_arg(raw@, min as int, max as int) {
            Ok(v) => r matches Ok(x) && x as int == v && min <= x <= max,
            Err(m) => r matches Err(s) && s@ == m,
        },
{
    match parse_int(raw, min, max) {
        Ok(v) => {
            proof { lemma_parse_int_range(raw@, min as int, max as int); }
            Ok(v)
        },
        Err(e) => Err(int_error_text(e)),
    }
}

proof fn lemma_scan_range(d: Seq<char>, bound: int)
    requires
        bound >= 0,
    ensures
        crate::num::scan_digits(d, bound) matches Ok(v) ==> 0 <= v <= bound,
    decreases d.len(),
{
    if d.len() > 0 {
        lemma_scan_range(d.drop_last(), bound);
    }
}

proof fn lemma_parse_int_range(s: Seq<char>, min: int, max: int)
    requires
        min <= 0 <= max,
    ensures
        parse_int_spec(s, min, max) matches Ok(v) ==> min <= v <= max,
{
    if s.len() > 0 {
        lemma_scan_range(s.drop_first(), -min);
        lemma_scan_range(s.drop_first(), max);
        lemma_scan_range(s, max);
    }
}

impl FromArg for String {
    fn from_arg(raw: &str) -> (r: core::result::Result<String, String>)
        ensures
            r matches Ok(s) && s@ == raw@,
    {
        Ok(owned(raw))
    }
}

impl FromArg for bool {
    /// `"true"` or `"false"`, exactly.
    fn from_arg(raw: &str) -> (r: core::result::Result<bool, String>)
        ensures
            raw@ == "true"@ ==> r == Ok::<bool, String>(true),
            raw@ == "false"@ ==> r == Ok::<bool, String>(false),
            raw@ != "true"@ && raw@ != "false"@ ==> (r matches Err(m)
                && m@ == "provided string was not `true` or `false`"@),
    {
        proof {
            reveal_strlit("true");
            reveal_strlit("false");
            assert("true"@.len() != "false"@.len());
        }
        if crate::text::str_eq(raw, "true") {
            Ok(true)
        } else if crate::text::str_eq(raw, "false") {
            Ok(false)
        } else {
            Err(owned("provided string was not `true` or `false`"))
        }
    }
}

impl FromArg for char {
    /// Exactly one character.
    fn from_arg(raw: &str) -> (r: core::result::Result<char, String>)
        ensures
            raw@.len() == 1 ==> r == Ok::<char, String>(raw@[0]),
            raw@.len() == 0 ==> (r matches Err(m) && m@ == "cannot parse char from empty string"@),
            raw@.len() > 1 ==> (r matches Err(m) && m@ == "too many characters in string"@),
    {
        let v = chars_of(raw);
        if v.len() == 1 {
            Ok(v[0])
        } else if v.len() == 0 {
            Err(owned("cannot parse char from empty string"))
        } else {
            Err(owned("too many characters in string"))
        }
    }
}

#[verifier::external_type_specification]
#[verifier::external_body]
pub struct ExPathBuf(std::path::PathBuf);

/// `PathBuf::from` on a string slice: the path whose text is `raw`. Building
/// a path from a string never fails. Left unsaid here: that the path's text
/// is `raw` (a `PathBuf` is opaque to the contracts, and a name for its text
/// would take the outside type as its argument).
#[verifier::external_body]
fn path_from_str(raw: &str) -> std::path::PathBuf {
    std::path::PathBuf::from(raw)
}

impl FromArg for std::path::PathBuf {
    /// Any string is a path.
    fn from_arg(raw: &str) -> (r: core::result::Result<std::path::PathBuf, String>)
        ensures
            r is Ok,
    {
        Ok(path_from_str(raw))
    }
}

impl FromArg for u8 {
    fn from_arg(raw: &str) -> (r: core::result::Result<u8, String>)
        ensures
            match int_arg(raw@, 0, u8::MAX as int) {
                Ok(v) => r matches Ok(x) && x as int == v,
                Err(m) => r matches Err(s) && s@ == m,
            },
    {
        match int_from_arg(raw, 0, u8::MAX as i128) {
            Ok(v) => Ok(v as u8),
            Err(m) => Err(m),
        }
    }
}

impl FromArg for u16 {
    fn from_arg(raw: &str) -> (r: core::result::Result<u16, String>)
        ensures
            match int_arg(raw@, 0, u16::MAX as int) {
                Ok(v) => r matches Ok(x) && x as int == v,
                Err(m) => r matches Err(s) && s@ == m,
            },
    {
        match int_from_arg(raw, 0, u16::MAX as i128) {
            Ok(v) => Ok(v as u16),
            Err(m) => Err(m),
        }
    }
}

impl FromArg for u32 {
    fn from_arg(raw: &str) -> (r: core::result::Result<u32, String>)
        ensures
            match int_arg(raw@, 0, u32::MAX as int) {
                Ok(v) => r matches Ok(x) && x as int == v,
                Err(m) => r matches Err(s) && s@ == m,
            },
    {
        match int_from_arg(raw, 0, u32::MAX as i128) {
            Ok(v) => Ok(v as u32),
            Err(m) => Err(m),
        }
    }
}

impl FromArg for u64 {
    fn from_arg(raw: &str) -> (r: core::result::Result<u64, String>)
        ensures
            match int_arg(raw@, 0, u64::MAX as int) {
                Ok(v) => r matches Ok(x) && x as int == v,
                Err(m) => r matches Err(s) && s@ == m,
            },
    {
        match int_from_arg(raw, 0, u64::MAX as i128) {
            Ok(v) => Ok(v as u64),
            Err(m) => Err(m),
        }
    }
}

impl FromArg for usize {
    fn from_arg(raw: &str) -> (r: core::result::Result<usize, String>)
        ensures
            match int_arg(raw@, 0, usize::MAX as int) {
                Ok(v) => r matches Ok(x) && x as int == v,
                Err(m) => r matches Err(s) && s@ == m,
            },
    {
        match int_from_arg(raw, 0, usize::MAX as i128) {
            Ok(v) => Ok(v as usize),
            Err(m) => Err(m),
        }
    }
}

impl FromArg for i8 {
    fn from_arg(raw: &str) -> (r: core::result::Result<i8, String>)
        ensures
            match int_arg(raw@, i8::MIN as int, i8::MAX as int) {
                Ok(v) => r matches Ok(x) && x as int == v,
                Err(m) => r matches Err(s) && s@ == m,
            },
    {
        match int_from_arg(raw, i8::MIN as i128, i8::MAX as i128) {
            Ok(v) => Ok(v as i8),
            Err(m) => Err(m),
        }
    }
}

impl FromArg for i16 {
    fn from_arg(raw: &str) -> (r: core::result::Result<i16, String>)
        ensures
            match int_arg(raw@, i16::MIN as int, i16::MAX as int) {
                Ok(v) => r matches Ok(x) && x as int == v,
                Err(m) => r matches Err(s) && s@ == m,
            },
    {
        match int_from_arg(raw, i16::MIN as i128, i16::MAX as i128) {
            Ok(v) => Ok(v as i16),
            Err(m) => Err(m),
        }
    }
}

impl FromArg for i32 {
    fn from_arg(raw: &str) -> (r: core::result::Result<i32, String>)
        ensures
            match int_arg(raw@, i32::MIN as int, i32::MAX as int) {
                Ok(v) => r matches Ok(x) && x as int == v,
                Err(m) => r matches Err(s) && s@ == m,
            },
    {
        match int_from_arg(raw, i32::MIN as i128, i32::MAX as i128) {
            Ok(v) => Ok(v as i32),
            Err(m) => Err(m),
        }
    }
}

impl FromArg for i64 {
    fn from_arg(raw: &str) -> (r: core::result::Result<i64, String>)
        ensures
            match int_arg(raw@, i64::MIN as int, i64::MAX as int) {
                Ok(v) => r matches Ok(x) && x as int == v,
                Err(m) => r matches Err(s) && s@ == m,
            },
    {
        match int_from_arg(raw, i64::MIN as i128, i64::MAX as i128) {
            Ok(v) => Ok(v as i64),
            Err(m) => Err(m),
        }
    }
}

impl FromArg for u128 {
    fn from_arg(raw: &str) -> (r: core::result::Result<u128, String>)
        ensures
            match int_arg(raw@, 0, u128::MAX as int) {
                Ok(v) => r matches Ok(x) && x as int == v,
                Err(m) => r matches Err(s) && s@ == m,
            },
    {
        match parse_u128(raw) {
            Ok(v) => Ok(v),
            Err(e) => Err(int_error_text(e)),
        }
    }
}

impl FromArg for i128 {
    fn from_arg(raw: &str) -> (r: core::result::Result<i128, String>)
        ensures
            match int_arg(raw@, i128::MIN as int, i128::MAX as int) {
                Ok(v) => r matches Ok(x) && x as int == v,
                Err(m) => r matches Err(s) && s@ == m,
            },
    {
        match parse_i128(raw) {
            Ok(v) => Ok(v),
            Err(e) => Err(int_error_text(e)),
        }
    }
}

impl FromArg for isize {
    fn from_arg(raw: &str) -> (r: core::result::Result<isize, String>)
        ensures
            match int_arg(raw@, isize::MIN as int, isize::MAX as int) {
                Ok(v) => r matches Ok(x) && x as int == v,
                Err(m) => r matches Err(s) && s@ == m,
            },
    {
        match int_from_arg(raw, isize::MIN as i128, isize::MAX as i128) {
            Ok(v) => Ok(v as isize),
            Err(m) => Err(m),
        }
    }
}

} // verus!
