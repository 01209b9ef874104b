//! Decimal integers: the parsing rules of std's `FromStr` for the integer
//! types, and decimal rendering.

use vstd::prelude::*;
use crate::text::{chars_of, push_char};

verus! {

/// Why a decimal integer could not be read; the variants of std's `IntErrorKind`
/// that decimal parsing can produce.
#[derive(PartialEq, Eq, Structural, Clone, Copy, Debug)]
pub enum IntErrorKind {
    Empty,
    InvalidDigit,
    PosOverflow,
    NegOverflow,
}

pub open spec fn is_digit(c: char) -> bool {
    '0' <= c && c <= '9'
}

pub open spec fn digit_value(c: char) -> int {
    c as int - '0' as int
}

/// Value of a string of decimal digits.
pub open spec fn digits_value(d: Seq<char>) -> int
    decreases d.len(),
{
    if d.len() == 0 {
        0
    } else {
        digits_value(d.drop_last()) * 10 + digit_value(d.last())
    }
}

/// Scanning digits left to right: the first character that is not a digit, or
/// the first digit after which the value exceeds `bound`, ends the scan with
/// an error; `true` in the error means overflow.
pub open spec fn scan_digits(d: Seq<char>, bound: int) -> Result<int, bool>
    decreases d.len(),
{
    if d.len() == 0 {
        Ok(0)
    } else {
        match scan_digits(d.drop_last(), bound) {
            Err(e) => Err(e),
            Ok(v) => if !is_digit(d.last()) {
                Err(false)
            } else if v * 10 + digit_value(d.last()) > bound {
                Err(true)
            } else {
                Ok(v * 10 + digit_value(d.last()))
            },
        }
    }
}

/// What std's `FromStr` gives for an integer type whose range is `min..=max`:
/// an optional sign (`-` only for signed types) followed by decimal digits.
pub open spec fn parse_int_spec(s: Seq<char>, min: int, max: int) -> Result<int, IntErrorKind> {
    if s.len() == 0 {
        Err(IntErrorKind::Empty)
    } else if (s[0] == '+' || s[0] == '-') && s.len() == 1 {
        Err(IntErrorKind::InvalidDigit)
    } else if s[0] == '-' && min < 0 {
        match scan_digits(s.drop_first(), -min) {
            Ok(v) => Ok(-v),
            Err(overflow) => Err(
                if overflow {
                    IntErrorKind::NegOverflow
                } else {
                    IntErrorKind::InvalidDigit
                },
            ),
        }
    } else {
        let d = if s[0] == '+' {
            s.drop_first()
        } else {
            s
        };
        match scan_digits(d, max) {
            Ok(v) => Ok(v),
            Err(overflow) => Err(
                if overflow {
                    IntErrorKind::PosOverflow
                } else {
                    IntErrorKind::InvalidDigit
                },
            ),
        }
    }
}

proof fn lemma_scan_bounds(d: Seq<char>, bound: int)
    requires
        bound >= 0,
    ensures
        scan_digits(d, bound) matches Ok(v) ==> 0 <= v <= bound,
    decreases d.len(),
{
    if d.len() > 0 {
        lemma_scan_bounds(d.drop_last(), bound);
    }
}

fn scan_exec(v: &Vec<char>, start: usize, bound: i128) -> (r: Result<i128, bool>)
    requires
        start <= v.len(),
        0 <= bound <= 0x1_0000_0000_0000_0000,
    ensures
        r is Ok <==> scan_digits(v@.skip(start as int), bound as int) is Ok,
        r matches Ok(x) ==> scan_digits(v@.skip(start as int), bound as int) == Ok::<int, bool>(x as int),
        r matches Err(e) ==> scan_digits(v@.skip(start as int), bound as int) == Err::<int, bool>(e),
{
    let ghost d = v@.skip(start as int);
    let mut acc: i128 = 0;
    let mut i = start;
    while i < v.len()
        invariant
            start <= i <= v.len(),
            d == v@.skip(start as int),
            0 <= bound <= 0x1_0000_0000_0000_0000,
            scan_digits(d.take(i - start), bound as int) == Ok::<int, bool>(acc as int),
            0 <= acc <= bound,
        decreases v.len() - i,
    {
        let c = v[i];
        assert(d.take(i - start + 1).drop_last() =~= d.take(i - start));
        assert(d.take(i - start + 1).last() == c);
        if !('0' <= c && c <= '9') {
            proof { lemma_scan_prefix_err(d, (i - start + 1) as int, bound as int); }
            return Err(false);
        }
        let dv = (c as u32 - '0' as u32) as i128;
        let next = acc * 10 + dv;
        if next > bound {
            proof { lemma_scan_prefix_err(d, (i - start + 1) as int, bound as int); }
            return Err(true);
        }
        acc = next;
        i = i + 1;
    }
    assert(d.take(v.len() - start) =~= d);
    Ok(acc)
}

fn scan_exec_wide(v: &Vec<char>, start: usize, bound: u128) -> (r: Result<u128, bool>)
    requires
        start <= v.len(),
    ensures
        r is Ok <==> scan_digits(v@.skip(start as int), bound as int) is Ok,
        r matches Ok(x) ==> scan_digits(v@.skip(start as int), bound as int) == Ok::<int, bool>(x as int),
        r matches Err(e) ==> scan_digits(v@.skip(start as int), bound as int) == Err::<int, bool>(e),
{
    let ghost d = v@.skip(start as int);
    let mut acc: u128 = 0;
    let mut i = start;
    while i < v.len()
        invariant
            start <= i <= v.len(),
            d == v@.skip(start as int),
            scan_digits(d.take(i - start), bound as int) == Ok::<int, bool>(acc as int),
            acc <= bound,
        decreases v.len() - i,
    {
        let c = v[i];
        assert(d.take(i - start + 1).drop_last() =~= d.take(i - start));
        assert(d.take(i - start + 1).last() == c);
        if !('0' <= c && c <= '9') {
            proof { lemma_scan_prefix_err(d, (i - start + 1) as int, bound as int); }
            return Err(false);
        }
        let dv = (c as u32 - '0' as u32) as u128;
        if acc > bound / 10 {
            assert(acc * 10 + dv > bound) by (nonlinear_arith)
                requires
                    acc > bound / 10,
                    dv >= 0,
            ;
            proof { lemma_scan_prefix_err(d, (i - start + 1) as int, bound as int); }
            return Err(true);
        }
        assert(acc * 10 <= bound) by (nonlinear_arith)
            requires
                acc <= bound / 10,
        ;
        let tens = acc * 10;
        if dv > bound - tens {
            proof { lemma_scan_prefix_err(d, (i - start + 1) as int, bound as int); }
            return Err(true);
        }
        acc = tens + dv;
        i = i + 1;
    }
    assert(d.take(v.len() - start) =~= d);
    Ok(acc)
}

/// Once a prefix of the digits fails to scan, the whole string fails the same way.
proof fn lemma_scan_prefix_err(d: Seq<char>, n: int, bound: int)
    requires
        0 <= n <= d.len(),
        scan_digits(d.take(n), bound) is Err,
    ensures
        scan_digits(d, bound) == scan_digits(d.take(n), bound),
    decreases d.len() - n,
{
    if n < d.len() {
        assert(d.take(n + 1).drop_last() =~= d.take(n));
        lemma_scan_prefix_err(d, n + 1, bound);
    } else {
        assert(d.take(n) =~= d);
    }
}

/// Reads a decimal integer the way std's `FromStr` does for an integer type
/// whose range is `min..=max`.
pub fn parse_int(s: &str, min: i128, max: i128) -> (r: Result<i128, IntErrorKind>)
    requires
        -0x1_0000_0000_0000_0000 <= min <= 0,
        0 <= max <= 0x1_0000_0000_0000_0000,
    ensures
        r is Ok <==> parse_int_spec(s@, min as int, max as int) is Ok,
        r matches Ok(x) ==> parse_int_spec(s@, min as int, max as int) == Ok::<int, IntErrorKind>(x as int),
        r matches Err(e) ==> parse_int_spec(s@, min as int, max as int) == Err::<int, IntErrorKind>(e),
{
    let v = chars_of(s);
    if v.len() == 0 {
        return Err(IntErrorKind::Empty);
    }
    if (v[0] == '+' || v[0] == '-') && v.len() == 1 {
        return Err(IntErrorKind::InvalidDigit);
    }
    assert(v@.skip(1) =~= v@.drop_first());
    assert(v@.skip(0) =~= v@);
    if v[0] == '-' && min < 0 {
        match scan_exec(&v, 1, -min) {
            Ok(x) => {
                proof { lemma_scan_bounds(v@.drop_first(), -min as int); }
                Ok(-x)
            },
            Err(overflow) => Err(
                if overflow {
                    IntErrorKind::NegOverflow
                } else {
                    IntErrorKind::InvalidDigit
                },
            ),
        }
    } else {
        let start: usize = if v[0] == '+' { 1 } else { 0 };
        match scan_exec(&v, start, max) {
            Ok(x) => Ok(x),
            Err(overflow) => Err(
                if overflow {
                    IntErrorKind::PosOverflow
                } else {
                    IntErrorKind::InvalidDigit
                },
            ),
        }
    }
}

/// The message std's `ParseIntError` displays for each kind.
pub open spec fn int_error_message(e: IntErrorKind) -> Seq<char> {
    match e {
        IntErrorKind::Empty => "cannot parse integer from empty string"@,
        IntErrorKind::InvalidDigit => "invalid digit found in string"@,
        IntErrorKind::PosOverflow => "number too large to fit in target type"@,
        IntErrorKind::NegOverflow => "number too small to fit in target type"@,
    }
}

pub fn int_error_text(e: IntErrorKind) -> (r: String)
    ensures
        r@ == int_error_message(e),
{
    match e {
        IntErrorKind::Empty => "cannot parse integer from empty string".to_owned(),
        IntErrorKind::InvalidDigit => "invalid digit found in string".to_owned(),
        IntErrorKind::PosOverflow => "number too large to fit in target type".to_owned(),
        IntErrorKind::NegOverflow => "number too small to fit in target type".to_owned(),
    }
}

// ---------------------------------------------------------------------------
// Rendering
// ---------------------------------------------------------------------------

/// Reads a decimal `u128` the way std's `FromStr` does.
pub fn parse_u128(s: &str) -> (r: Result<u128, IntErrorKind>)
    ensures
        r is Ok <==> parse_int_spec(s@, 0, u128::MAX as int) is Ok,
        r matches Ok(x) ==> parse_int_spec(s@, 0, u128::MAX as int) == Ok::<int, IntErrorKind>(x as int),
        r matches Err(e) ==> parse_int_spec(s@, 0, u128::MAX as int) == Err::<int, IntErrorKind>(e),
{
    let v = chars_of(s);
    if v.len() == 0 {
        return Err(IntErrorKind::Empty);
    }
    if (v[0] == '+' || v[0] == '-') && v.len() == 1 {
        return Err(IntErrorKind::InvalidDigit);
    }
    assert(v@.skip(1) =~= v@.drop_first());
    assert(v@.skip(0) =~= v@);
    let start: usize = if v[0] == '+' { 1 } else { 0 };
    match scan_exec_wide(&v, start, u128::MAX) {
        Ok(x) => Ok(x),
        Err(overflow) => Err(
            if overflow {
                IntErrorKind::PosOverflow
            } else {
                IntErrorKind::InvalidDigit
            },
        ),
    }
}

/// Reads a decimal `i128` the way std's `FromStr` does.
pub fn parse_i128(s: &str) -> (r: Result<i128, IntErrorKind>)
    ensures
        r is Ok <==> parse_int_spec(s@, i128::MIN as int, i128::MAX as int) is Ok,
        r matches Ok(x) ==> parse_int_spec(s@, i128::MIN as int, i128::MAX as int) == Ok::<
            int,
            IntErrorKind,
        >(x as int),
        r matches Err(e) ==> parse_int_spec(s@, i128::MIN as int, i128::MAX as int) == Err::<
            int,
            IntErrorKind,
        >(e),
{
    let v = chars_of(s);
    if v.len() == 0 {
        return Err(IntErrorKind::Empty);
    }
    if (v[0] == '+' || v[0] == '-') && v.len() == 1 {
        return Err(IntErrorKind::InvalidDigit);
    }
    assert(v@.skip(1) =~= v@.drop_first());
    assert(v@.skip(0) =~= v@);
    if v[0] == '-' {
        let neg_bound: u128 = 0x8000_0000_0000_0000_0000_0000_0000_0000;
        assert(neg_bound as int == -(i128::MIN as int));
        match scan_exec_wide(&v, 1, neg_bound) {
            Ok(x) => {
                proof { lemma_scan_bounds(v@.drop_first(), neg_bound as int); }
                if x == neg_bound {
                    Ok(i128::MIN)
                } else {
                    let m = x as i128;
                    Ok(-m)
                }
            },
            Err(overflow) => Err(
                if overflow {
                    IntErrorKind::NegOverflow
                } else {
                    IntErrorKind::InvalidDigit
                },
            ),
        }
    } else {
        let start: usize = if v[0] == '+' { 1 } else { 0 };
        match scan_exec_wide(&v, start, i128::MAX as u128) {
            Ok(x) => {
                proof {
                    lemma_scan_bounds(v@.skip(start as int), i128::MAX as int);
                }
                Ok(x as i128)
            },
            Err(overflow) => Err(
                if overflow {
                    IntErrorKind::PosOverflow
                } else {
                    IntErrorKind::InvalidDigit
                },
            ),
        }
    }
}

pub open spec fn digit_char(d: int) -> char {
    ('0' as int + d) as char
}

/// Decimal digits of `n`, most significant first, no leading zeros.
pub open spec fn decimal(n: nat) -> Seq<char>
    decreases n,
{
    if n < 10 {
        seq![digit_char(n as int)]
    } else {
        decimal(n / 10).push(digit_char((n % 10) as int))
    }
}

/// Decimal rendering of a signed number, with `-` for negatives.
pub open spec fn signed_decimal(n: int) -> Seq<char> {
    if n < 0 {
        seq!['-'] + decimal((-n) as nat)
    } else {
        decimal(n as nat)
    }
}

/// Writes `n` in decimal.
pub fn u128_to_decimal(n: u128) -> (r: String)
    ensures
        r@ == decimal(n as nat),
    decreases n,
{
    if n < 10 {
        let mut r = String::new();
        push_char(&mut r, digit_to_char(n as u32));
        r
    } else {
        let mut r = u128_to_decimal(n / 10);
        push_char(&mut r, digit_to_char((n % 10) as u32));
        r
    }
}

fn digit_to_char(d: u32) -> (c: char)
    requires
        d < 10,
    ensures
        c == digit_char(d as int),
{
    match d {
        0 => '0',
        1 => '1',
        2 => '2',
        3 => '3',
        4 => '4',
        5 => '5',
        6 => '6',
        7 => '7',
        8 => '8',
        _ => '9',
    }
}

/// Writes `n` in decimal, with a leading `-` when negative.
pub fn i128_to_decimal(n: i128) -> (r: String)
    ensures
        r@ == signed_decimal(n as int),
{
    if n < 0 {
        let mut r = String::new();
        push_char(&mut r, '-');
        let magnitude: u128 = (-(n + 1)) as u128 + 1;
        assert(magnitude == -(n as int));
        let digits = u128_to_decimal(magnitude);
        r.append(digits.as_str());
        r
    } else {
        u128_to_decimal(n as u128)
    }
}

} // verus!
