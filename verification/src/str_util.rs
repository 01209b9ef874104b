//! Convenience string helpers: byte-bounded truncation, blank detection and
//! case conversion between `camelCase`/`PascalCase` and `snake_case`.

use vstd::prelude::*;
use vstd::utf8::*;
use vstd::string::StringSliceAdditionalSpecFns;
use crate::text::{chars_of, push_char};

verus! {

// ---------------------------------------------------------------------------
// Character classes that std defines through Unicode tables.
// ---------------------------------------------------------------------------

/// `char::is_whitespace`: the Unicode `White_Space` property, which holds
/// of exactly these 25 code points: U+0009 to U+000D, U+0020, U+0085,
/// U+00A0, U+1680, U+2000 to U+200A, U+2028, U+2029, U+202F, U+205F and
/// U+3000.
pub open spec fn is_ws(c: char) -> bool {
    let n = c as u32;
    ||| 0x09 <= n <= 0x0D
    ||| n == 0x20
    ||| n == 0x85
    ||| n == 0xA0
    ||| n == 0x1680
    ||| 0x2000 <= n <= 0x200A
    ||| n == 0x2028
    ||| n == 0x2029
    ||| n == 0x202F
    ||| n == 0x205F
    ||| n == 0x3000
}

/// `char::is_uppercase`: the Unicode `Uppercase` property.
pub uninterp spec fn is_upper(c: char) -> bool;

/// The first character of `char::to_lowercase`.
pub uninterp spec fn lower_first(c: char) -> char;

/// The first character of `char::to_uppercase`.
pub uninterp spec fn upper_first(c: char) -> char;

/// What `str::to_uppercase` gives for `s`: the Unicode uppercase mapping of
/// each character, in order.
pub uninterp spec fn uppercase(s: Seq<char>) -> Seq<char>;

/// What `str::to_lowercase` gives for `s`: the Unicode lowercase mapping of
/// each character, in order.
pub uninterp spec fn lowercase(s: Seq<char>) -> Seq<char>;

/// `str::to_uppercase`. Its result is named, not spelled out: it is the
/// Unicode case mapping, a function of `s` alone.
#[verifier::external_body]
pub(crate) fn str_to_uppercase(s: &str) -> (r: String)
    ensures
        r@ == uppercase(s@),
{
    s.to_uppercase()
}

/// `str::to_lowercase`. Its result is named, not spelled out: it is the
/// Unicode case mapping, a function of `s` alone.
#[verifier::external_body]
pub(crate) fn str_to_lowercase(s: &str) -> (r: String)
    ensures
        r@ == lowercase(s@),
{
    s.to_lowercase()
}

/// Leading whitespace removed.
pub open spec fn trim_start_ws(s: Seq<char>) -> Seq<char>
    decreases s.len(),
{
    if s.len() > 0 && is_ws(s[0]) {
        trim_start_ws(s.drop_first())
    } else {
        s
    }
}

/// Trailing whitespace removed.
pub open spec fn trim_end_ws(s: Seq<char>) -> Seq<char>
    decreases s.len(),
{
    if s.len() > 0 && is_ws(s.last()) {
        trim_end_ws(s.drop_last())
    } else {
        s
    }
}

/// Leading and trailing whitespace removed.
pub open spec fn trimmed(s: Seq<char>) -> Seq<char> {
    trim_end_ws(trim_start_ws(s))
}

/// `str::trim` from std: the slice with leading and trailing characters of
/// the `White_Space` property removed (the same property `char::is_whitespace`
/// tests, spelled out as `is_ws`).
#[verifier::external_body]
pub(crate) fn str_trim(s: &str) -> (r: &str)
    ensures
        r@ == trimmed(s@),
        r@.len() > 0 ==> !is_ws(r@[0]) && !is_ws(r@.last()),
{
    s.trim()
}

/// `char::is_uppercase` from std. Besides naming the result, the contract
/// records what the std documentation shows for ASCII: capital letters are
/// uppercase; small letters, digits, `_`, `-` and space are not.
#[verifier::external_body]
fn char_is_uppercase(c: char) -> (r: bool)
    ensures
        r == is_upper(c),
        ('A' <= c && c <= 'Z') ==> r,
        (('a' <= c && c <= 'z') || ('0' <= c && c <= '9') || c == '_' || c == '-' || c == ' ')
            ==> !r,
{
    c.is_uppercase()
}

/// The first character that `char::to_lowercase` yields (the iterator always
/// yields at least one). For an ASCII capital the std documentation gives the
/// matching small letter.
#[verifier::external_body]
fn char_lower_first(c: char) -> (r: char)
    ensures
        r == lower_first(c),
        ('A' <= c && c <= 'Z') ==> r as u32 == c as u32 + 32,
{
    c.to_lowercase().next().unwrap()
}

/// The first character that `char::to_uppercase` yields (the iterator always
/// yields at least one). For an ASCII small letter the std documentation gives
/// the matching capital.
#[verifier::external_body]
fn char_upper_first(c: char) -> (r: char)
    ensures
        r == upper_first(c),
        ('a' <= c && c <= 'z') ==> r as u32 + 32 == c as u32,
{
    c.to_uppercase().next().unwrap()
}

// ---------------------------------------------------------------------------
// truncate
// ---------------------------------------------------------------------------

/// The largest character boundary of `b` that is at most `e`.
pub open spec fn boundary_at_most(b: Seq<u8>, e: int) -> int
    decreases e,
{
    if e <= 0 {
        0
    } else if is_char_boundary(b, e) {
        e
    } else {
        boundary_at_most(b, e - 1)
    }
}

/// Byte length kept by `truncate(s, max_len)` for a string whose UTF-8 bytes are `b`.
pub open spec fn truncated_len(b: Seq<u8>, max_len: int) -> int {
    if b.len() <= max_len {
        b.len() as int
    } else {
        boundary_at_most(b, max_len)
    }
}

proof fn lemma_boundary_at_most(b: Seq<u8>, e: int)
    requires
        valid_utf8(b),
        e <= b.len(),
    ensures
        0 <= boundary_at_most(b, e) <= (if e < 0 { 0 } else { e }),
        is_char_boundary(b, boundary_at_most(b, e)),
    decreases e,
{
    broadcast use is_char_boundary_start_end_of_seq;

    if e > 0 && !is_char_boundary(b, e) {
        lemma_boundary_at_most(b, e - 1);
    }
}

/// Cuts `s` to at most `max_len` bytes, backing off to the nearest character
/// boundary so the result is always valid UTF-8.
pub fn truncate(s: &str, max_len: usize) -> (r: &str)
    ensures
        r.spec_bytes() == s.spec_bytes().subrange(
            0,
            truncated_len(s.spec_bytes(), max_len as int),
        ),
        s.spec_bytes().len() <= max_len ==> r@ == s@,
        r.spec_bytes().len() <= max_len,
        // The result is a prefix of `s`, character by character.
        r@ == s@.subrange(0, r@.len() as int),
{
    broadcast use encode_utf8_valid_utf8, encode_utf8_decode_utf8;

    let ghost b = s.spec_bytes();
    assert(valid_utf8(b));
    let byte_len = s.as_bytes().len();
    assert(byte_len == b.len());
    if byte_len <= max_len {
        assert(b.subrange(0, b.len() as int) =~= b);
        assert(s@.subrange(0, s@.len() as int) =~= s@);
        s
    } else {
        let mut end = max_len;
        while end > 0 && !s.is_char_boundary(end)
            invariant
                end <= max_len < b.len(),
                b == s.spec_bytes(),
                boundary_at_most(b, end as int) == boundary_at_most(b, max_len as int),
            decreases end,
        {
            end = end - 1;
        }
        proof {
            lemma_boundary_at_most(b, max_len as int);
            assert(boundary_at_most(b, end as int) == end as int);
        }
        let (r, _rest) = s.split_at(end);
        proof {
            decode_utf8_split(b, end as int);
            assert(decode_utf8(r.spec_bytes()) == r@);
            assert(s@ == r@ + decode_utf8(b.subrange(end as int, b.len() as int)));
            assert(s@.subrange(0, r@.len() as int) =~= r@);
        }
        r
    }
}

// ---------------------------------------------------------------------------
// is_blank
// ---------------------------------------------------------------------------

proof fn lemma_trim_start_empty(s: Seq<char>)
    ensures
        trim_start_ws(s).len() == 0 <==> (forall|i: int| 0 <= i < s.len() ==> is_ws(s[i])),
        trim_start_ws(s).len() > 0 ==> !is_ws(trim_start_ws(s)[0]),
    decreases s.len(),
{
    if s.len() > 0 && is_ws(s[0]) {
        lemma_trim_start_empty(s.drop_first());
        if trim_start_ws(s).len() == 0 {
            assert forall|i: int| 0 <= i < s.len() implies is_ws(s[i]) by {
                if i > 0 {
                    assert(s[i] == s.drop_first()[i - 1]);
                }
            }
        }
    }
}

proof fn lemma_trim_end_keeps_first(s: Seq<char>)
    requires
        s.len() > 0,
        !is_ws(s[0]),
    ensures
        trim_end_ws(s).len() > 0,
    decreases s.len(),
{
    if is_ws(s.last()) {
        lemma_trim_end_keeps_first(s.drop_last());
    }
}

/// `true` when `s` is empty or holds only whitespace.
pub fn is_blank(s: &str) -> (r: bool)
    ensures
        r == (trimmed(s@).len() == 0),
        r <==> (forall|i: int| 0 <= i < s@.len() ==> is_ws(s@[i])),
{
    proof {
        lemma_trim_start_empty(s@);
        if trim_start_ws(s@).len() > 0 {
            lemma_trim_end_keeps_first(trim_start_ws(s@));
        }
    }
    str_trim(s).is_empty()
}

// ---------------------------------------------------------------------------
// Case conversion
// ---------------------------------------------------------------------------

/// What `to_snake_case` writes for the character `c`; `at_start` tells
/// whether `c` is the first character of the input.
pub open spec fn snake_piece(c: char, at_start: bool) -> Seq<char> {
    if is_upper(c) {
        if at_start {
            seq![lower_first(c)]
        } else {
            seq!['_', lower_first(c)]
        }
    } else {
        seq![c]
    }
}

/// `s` in snake_case: every uppercase character is lowered and, unless it
/// opens the string, preceded by `_`.
pub open spec fn snake_case(s: Seq<char>) -> Seq<char>
    decreases s.len(),
{
    if s.len() == 0 {
        seq![]
    } else {
        snake_case(s.drop_last()) + snake_piece(s.last(), s.len() == 1)
    }
}

/// Separator characters that `to_camel_case` drops.
pub open spec fn is_case_sep(c: char) -> bool {
    c == '_' || c == '-'
}

/// `s` in camelCase: separators are dropped and the character after a
/// separator is raised.
pub open spec fn camel_case(s: Seq<char>) -> Seq<char>
    decreases s.len(),
{
    if s.len() == 0 {
        seq![]
    } else {
        let p = s.drop_last();
        let c = s.last();
        camel_case(p) + if is_case_sep(c) {
            seq![]
        } else if p.len() > 0 && is_case_sep(p.last()) {
            seq![upper_first(c)]
        } else {
            seq![c]
        }
    }
}

/// Converts `PascalCase`/`camelCase` to `snake_case`.
pub fn to_snake_case(s: &str) -> (r: String)
    ensures
        r@ == snake_case(s@),
{
    let v = chars_of(s);
    let mut result = String::new();
    let mut i: usize = 0;
    while i < v.len()
        invariant
            v@ == s@,
            i <= v.len(),
            result@ == snake_case(v@.take(i as int)),
        decreases v.len() - i,
    {
        let ch = v[i];
        assert(v@.take(i + 1).drop_last() =~= v@.take(i as int));
        if char_is_uppercase(ch) {
            if i > 0 {
                push_char(&mut result, '_');
            }
            push_char(&mut result, char_lower_first(ch));
        } else {
            push_char(&mut result, ch);
        }
        i = i + 1;
    }
    assert(v@.take(v.len() as int) =~= v@);
    result
}

/// Converts `snake_case` or `kebab-case` to `camelCase`.
pub fn to_camel_case(s: &str) -> (r: String)
    ensures
        r@ == camel_case(s@),
{
    let v = chars_of(s);
    let mut result = String::new();
    let mut capitalize_next = false;
    let mut i: usize = 0;
    while i < v.len()
        invariant
            v@ == s@,
            i <= v.len(),
            result@ == camel_case(v@.take(i as int)),
            capitalize_next == (i > 0 && is_case_sep(v@[i - 1])),
        decreases v.len() - i,
    {
        let ch = v[i];
        assert(v@.take(i + 1).drop_last() =~= v@.take(i as int));
        if ch == '_' || ch == '-' {
            capitalize_next = true;
        } else if capitalize_next {
            push_char(&mut result, char_upper_first(ch));
            capitalize_next = false;
        } else {
            push_char(&mut result, ch);
        }
        i = i + 1;
    }
    assert(v@.take(v.len() as int) =~= v@);
    result
}

/// Law: text without uppercase characters is already in snake_case.
pub proof fn lemma_snake_case_fixes_lowercase(s: Seq<char>)
    requires
        forall|i: int| 0 <= i < s.len() ==> !is_upper(#[trigger] s[i]),
    ensures
        snake_case(s) == s,
    decreases s.len(),
{
    if s.len() > 0 {
        lemma_snake_case_fixes_lowercase(s.drop_last());
        assert(!is_upper(s[s.len() - 1]));
        assert(s.drop_last().push(s.last()) =~= s);
    }
}

/// Law: text without `_` or `-` is already in camelCase.
pub proof fn lemma_camel_case_fixes_unseparated(s: Seq<char>)
    requires
        forall|i: int| 0 <= i < s.len() ==> !is_case_sep(#[trigger] s[i]),
    ensures
        camel_case(s) == s,
    decreases s.len(),
{
    if s.len() > 0 {
        lemma_camel_case_fixes_unseparated(s.drop_last());
        assert(!is_case_sep(s[s.len() - 1]));
        if s.len() > 1 {
            assert(!is_case_sep(s[s.len() - 2]));
        }
        assert(s.drop_last().push(s.last()) =~= s);
    }
}

/// Law: truncating to at least the string's byte length leaves it whole.
pub proof fn lemma_truncate_long_enough(b: Seq<u8>, max_len: int)
    requires
        b.len() <= max_len,
    ensures
        b.subrange(0, truncated_len(b, max_len)) == b,
{
    assert(b.subrange(0, b.len() as int) =~= b);
}

/// Law: appending a character to the input appends to the snake_case
/// output: an uppercase character after the first position adds `_` and its
/// lowercase form, whatever comes before it (a digit too); an uppercase
/// first character adds its lowercase form alone; any other character is
/// kept as it is.
pub proof fn lemma_snake_case_append(p: Seq<char>, c: char)
    ensures
        is_upper(c) && p.len() > 0 ==> snake_case(p.push(c)) == snake_case(p) + seq!['_', lower_first(c)],
        is_upper(c) && p.len() == 0 ==> snake_case(p.push(c)) == seq![lower_first(c)],
        !is_upper(c) ==> snake_case(p.push(c)) == snake_case(p).push(c),
{
    let s = p.push(c);
    assert(s.drop_last() =~= p);
    assert(s.last() == c);
    if p.len() == 0 {
        assert(snake_case(p) =~= Seq::<char>::empty());
    }
}

/// Law: every uppercase character of the input after the first position
/// turns into `_` and its lowercase form, in place: snake_case of
/// `p + [c] + q` is snake_case of `p`, then `_` and the lowered `c`, then
/// the rest as it would follow.
pub proof fn lemma_snake_case_splits_at_upper(p: Seq<char>, c: char)
    requires
        p.len() > 0,
        is_upper(c),
    ensures
        snake_case(p.push(c)).len() == snake_case(p).len() + 2,
        snake_case(p.push(c))[snake_case(p).len() as int] == '_',
        snake_case(p.push(c))[snake_case(p).len() + 1int] == lower_first(c),
        snake_case(p.push(c)).subrange(0, snake_case(p).len() as int) == snake_case(p),
{
    lemma_snake_case_append(p, c);
    assert((snake_case(p) + seq!['_', lower_first(c)]).subrange(0, snake_case(p).len() as int)
        =~= snake_case(p));
}

/// Law: appending a character to the input appends to the camelCase output:
/// a separator (`_` or `-`) adds nothing; a character right after a
/// separator adds its uppercase form, wherever it stands; any other
/// character is kept as it is.
pub proof fn lemma_camel_case_append(p: Seq<char>, c: char)
    ensures
        is_case_sep(c) ==> camel_case(p.push(c)) == camel_case(p),
        !is_case_sep(c) && p.len() > 0 && is_case_sep(p.last()) ==> camel_case(p.push(c)) == camel_case(
            p,
        ).push(upper_first(c)),
        !is_case_sep(c) && (p.len() == 0 || !is_case_sep(p.last())) ==> camel_case(p.push(c))
            == camel_case(p).push(c),
{
    let s = p.push(c);
    assert(s.drop_last() =~= p);
    assert(s.last() == c);
    if is_case_sep(c) {
        assert(camel_case(p) + Seq::<char>::empty() =~= camel_case(p));
    }
}

/// Law: every word after a separator is raised, however many came before:
/// for any `p`, a separator followed by a non-separator `c` adds exactly the
/// uppercase form of `c` to camelCase of `p`.
pub proof fn lemma_camel_case_raises_after_separator(p: Seq<char>, sep: char, c: char)
    requires
        is_case_sep(sep),
        !is_case_sep(c),
    ensures
        camel_case(p.push(sep).push(c)) == camel_case(p).push(upper_first(c)),
{
    lemma_camel_case_append(p, sep);
    lemma_camel_case_append(p.push(sep), c);
    assert(p.push(sep).last() == sep);
}

} // verus!
