//! The option parser: turns a flat argument list into a [`ParseResult`]
//! guided by a [`CommandSchema`].

use vstd::prelude::*;
use crate::text::{owned, chars_of, string_from_range, str_eq, is_ascii_alpha, is_ascii_alpha_exec};
use super::error::{Error, ErrorView, strings_view};
use super::schema::{
    CLArgument, CLOption, CommandSchema, first_index, lemma_first_index, lemma_first_index_found,
    long_named, short_named,
    sub_named, strip_dashes, strip_dashes_exec,
};
use super::types::FromArg;

verus! {

// ---------------------------------------------------------------------------
// The mathematical model of a parse result
// ---------------------------------------------------------------------------

/// What a [`ParseResult`] holds.
pub struct ParseView {
    /// `(canonical option name, value)` for every value-taking option, in
    /// the order given.
    pub values: Seq<(Seq<char>, Seq<char>)>,
    /// Canonical names of the flags given, in order.
    pub flags: Seq<Seq<char>>,
    /// `(argument name, value)` for every positional bound, in order.
    pub args: Seq<(Seq<char>, Seq<char>)>,
    /// `(short name, long name)` without dashes, for the options that have both.
    pub short_map: Seq<(Seq<char>, Seq<char>)>,
    /// The matched subcommand and its own result.
    pub subcommand: Option<(Seq<char>, Box<ParseView>)>,
}

pub open spec fn pairs_view(s: Seq<(String, String)>) -> Seq<(Seq<char>, Seq<char>)> {
    s.map_values(|e: (String, String)| (e.0@, e.1@))
}

/// The value of the last pair keyed `k`.
pub open spec fn lookup_last(s: Seq<(Seq<char>, Seq<char>)>, k: Seq<char>) -> Option<Seq<char>>
    decreases s.len(),
{
    if s.len() == 0 {
        None
    } else if s.last().0 == k {
        Some(s.last().1)
    } else {
        lookup_last(s.drop_last(), k)
    }
}

/// The values of all pairs keyed `k`, in order.
pub open spec fn values_for(s: Seq<(Seq<char>, Seq<char>)>, k: Seq<char>) -> Seq<Seq<char>>
    decreases s.len(),
{
    if s.len() == 0 {
        seq![]
    } else {
        values_for(s.drop_last(), k) + if s.last().0 == k {
            seq![s.last().1]
        } else {
            seq![]
        }
    }
}

/// `(short, long)` names without dashes of the options that declare both.
pub open spec fn short_map_of(opts: Seq<CLOption>) -> Seq<(Seq<char>, Seq<char>)>
    decreases opts.len(),
{
    if opts.len() == 0 {
        seq![]
    } else {
        short_map_of(opts.drop_last()) + match (opts.last().short, opts.last().long) {
            (Some(s), Some(l)) => seq![(strip_dashes(s@), strip_dashes(l@))],
            _ => seq![],
        }
    }
}

/// The key under which an option named `name` (with or without dashes, short
/// or long) is stored.
pub open spec fn canonical_key(short_map: Seq<(Seq<char>, Seq<char>)>, name: Seq<char>) -> Seq<char> {
    match lookup_last(short_map, strip_dashes(name)) {
        Some(c) => c,
        None => strip_dashes(name),
    }
}

impl ParseView {
    /// Whether the flag `name` was given.
    pub open spec fn flag(self, name: Seq<char>) -> bool {
        self.flags.contains(canonical_key(self.short_map, name))
    }

    /// The raw text for `name`: the last value given for the option, else the
    /// positional argument of that name.
    pub open spec fn raw(self, name: Seq<char>) -> Option<Seq<char>> {
        let key = canonical_key(self.short_map, name);
        match lookup_last(self.values, key) {
            Some(v) => Some(v),
            None => lookup_last(self.args, key),
        }
    }

    /// Every value given for the option `name`, in order.
    pub open spec fn all_raw(self, name: Seq<char>) -> Seq<Seq<char>> {
        values_for(self.values, canonical_key(self.short_map, name))
    }
}

// ---------------------------------------------------------------------------
// The parsing rules
// ---------------------------------------------------------------------------

/// A dash-prefixed token is an option when it starts with a letter (`-x`) or
/// a word (`--name`); `-1`, `-.5` or `-/path` are values.
pub open spec fn looks_like_option(a: Seq<char>) -> bool {
    &&& a.len() >= 2
    &&& a[0] == '-'
    &&& a != "--"@
    &&& if a[1] == '-' {
        a.len() > 2 && is_ascii_alpha(a[2])
    } else {
        is_ascii_alpha(a[1])
    }
}

pub open spec fn eq_sign() -> spec_fn(char) -> bool {
    |c: char| c == '='
}

/// `name=value` split at the first `=`.
pub open spec fn split_eq(s: Seq<char>) -> (Seq<char>, Option<Seq<char>>) {
    match first_index(s, eq_sign()) {
        Some(k) => (s.take(k), Some(s.skip(k + 1))),
        None => (s, None),
    }
}

pub open spec fn names_of(subs: Seq<CommandSchema>) -> Seq<Seq<char>> {
    subs.map_values(|s: CommandSchema| s.name@)
}

/// Matches a required positional argument that `args` does not bind.
pub open spec fn unbound_required(args: Seq<(Seq<char>, Seq<char>)>) -> spec_fn(CLArgument) -> bool {
    |a: CLArgument| a.required && lookup_last(args, a.name@) is None
}

/// The empty result for `schema`.
pub open spec fn initial_view(schema: CommandSchema) -> ParseView {
    ParseView {
        values: seq![],
        flags: seq![],
        args: seq![],
        short_map: short_map_of(schema.options@),
        subcommand: None,
    }
}

/// Checks made once the arguments run out.
pub open spec fn finalize_spec(st: ParseView, schema: CommandSchema) -> Result<ParseView, ErrorView> {
    if st.subcommand is Some {
        Ok(st)
    } else {
        match first_index(schema.arguments@, unbound_required(st.args)) {
            Some(k) => Err(ErrorView::MissingArgument(schema.arguments@[k].name@)),
            None => if schema.subcommands@.len() > 0 {
                Err(ErrorView::MissingSubcommand { available: names_of(schema.subcommands@) })
            } else {
                Ok(st)
            },
        }
    }
}

/// Binds `arg` to the positional argument number `pos`.
pub open spec fn bind_positional(st: ParseView, schema: CommandSchema, pos: int, arg: Seq<char>) -> Result<
    ParseView,
    ErrorView,
> {
    if 0 <= pos < schema.arguments@.len() {
        Ok(ParseView { args: st.args.push((schema.arguments@[pos].name@, arg)), ..st })
    } else {
        Err(ErrorView::ExtraArgument(arg))
    }
}

/// Records the option `opt` written as `args[i]`; `inline` is the text after
/// `=`, if any. On success also tells whether the next argument was taken
/// as the value.
pub open spec fn take_option(
    opt: CLOption,
    args: Seq<Seq<char>>,
    i: int,
    inline: Option<Seq<char>>,
    st: ParseView,
) -> Result<(ParseView, bool), ErrorView> {
    let key = opt.canonical_spec();
    if opt.takes_value {
        match inline {
            Some(v) => Ok((ParseView { values: st.values.push((key, v)), ..st }, false)),
            None => if i + 1 < args.len() {
                Ok((ParseView { values: st.values.push((key, args[i + 1])), ..st }, true))
            } else {
                Err(ErrorView::MissingValue(args[i]))
            },
        }
    } else if inline is Some {
        Err(ErrorView::UnexpectedValue(args[i]))
    } else {
        Ok((ParseView { flags: st.flags.push(key), ..st }, false))
    }
}

/// An error from inside the subcommand `name`, given the context of its path.
pub open spec fn in_subcommand(name: Seq<char>, e: ErrorView) -> ErrorView {
    match e {
        ErrorView::InSubcommand { path, source } => ErrorView::InSubcommand {
            path: seq![name] + path,
            source,
        },
        other => ErrorView::InSubcommand { path: seq![name], source: Box::new(other) },
    }
}

/// Parsing `args[start..]` against `schema`.
pub open spec fn parse_from(schema: CommandSchema, args: Seq<Seq<char>>, start: int) -> Result<
    ParseView,
    ErrorView,
>
    decreases args.len() - start, 1int,
{
    parse_loop(schema, args, start, initial_view(schema), 0, false)
}

/// Parsing `args`, from position `i` on, in the state `st`: `pos` positional
/// arguments are bound, and `dd` tells whether `--` was seen.
pub open spec fn parse_loop(
    schema: CommandSchema,
    args: Seq<Seq<char>>,
    i: int,
    st: ParseView,
    pos: int,
    dd: bool,
) -> Result<ParseView, ErrorView>
    decreases args.len() - i, 0int,
{
    if i < 0 || i >= args.len() {
        finalize_spec(st, schema)
    } else {
        let arg = args[i];
        if dd {
            match bind_positional(st, schema, pos, arg) {
                Ok(st2) => parse_loop(schema, args, i + 1, st2, pos + 1, dd),
                Err(e) => Err(e),
            }
        } else if arg == "--"@ {
            parse_loop(schema, args, i + 1, st, pos, true)
        } else if arg == "-h"@ || arg == "--help"@ {
            Err(ErrorView::HelpRequested)
        } else if looks_like_option(arg) {
            let long = arg[1] == '-';
            let (name, inline) = if long {
                split_eq(arg.skip(2))
            } else {
                (arg.skip(1), None)
            };
            let found = if long {
                first_index(schema.options@, long_named(name))
            } else {
                first_index(schema.options@, short_named(name))
            };
            match found {
                None => Err(ErrorView::UnknownOption(arg)),
                Some(k) => match take_option(schema.options@[k], args, i, inline, st) {
                    Err(e) => Err(e),
                    Ok((st2, took_next)) => parse_loop(
                        schema,
                        args,
                        if took_next {
                            i + 2
                        } else {
                            i + 1
                        },
                        st2,
                        pos,
                        dd,
                    ),
                },
            }
        } else {
            let has_next = 0 <= pos < schema.arguments@.len();
            if has_next && schema.arguments@[pos].required {
                match bind_positional(st, schema, pos, arg) {
                    Ok(st2) => parse_loop(schema, args, i + 1, st2, pos + 1, dd),
                    Err(e) => Err(e),
                }
            } else if first_index(schema.subcommands@, sub_named(arg)) is Some {
                let sub = schema.subcommands@[first_index(schema.subcommands@, sub_named(arg))->0];
                match parse_from(sub, args, i + 1) {
                    Ok(r) => finalize_spec(
                        ParseView { subcommand: Some((sub.name@, Box::new(r))), ..st },
                        schema,
                    ),
                    Err(e) => Err(in_subcommand(sub.name@, e)),
                }
            } else if has_next {
                match bind_positional(st, schema, pos, arg) {
                    Ok(st2) => parse_loop(schema, args, i + 1, st2, pos + 1, dd),
                    Err(e) => Err(e),
                }
            } else if schema.subcommands@.len() > 0 {
                Err(
                    ErrorView::UnknownSubcommand {
                        name: arg,
                        available: names_of(schema.subcommands@),
                    },
                )
            } else {
                Err(ErrorView::ExtraArgument(arg))
            }
        }
    }
}

/// The result of parsing `args` against `schema`.
pub open spec fn parse_spec(schema: CommandSchema, args: Seq<Seq<char>>) -> Result<ParseView, ErrorView> {
    parse_from(schema, args, 0)
}

// ---------------------------------------------------------------------------
// Parse results
// ---------------------------------------------------------------------------

/// Outcome of parsing a raw argv slice against a [`CommandSchema`].
///
/// Holds the raw text of every value; callers pull values out via
/// [`ParseResult::flag`], [`ParseResult::get`], etc. Conversion happens at
/// extraction time, so one result can be probed with different target types.
#[derive(Debug)]
pub struct ParseResult {
    /// `(canonical name, value)` for each value-taking option given.
    values: Vec<(String, String)>,
    /// Canonical names of the flags given.
    flags: Vec<String>,
    /// `(argument name, value)` for each positional bound.
    args: Vec<(String, String)>,
    /// `(short, long)` names without dashes, so callers can ask for `-v` or
    /// `--verbose` interchangeably.
    short_to_canonical: Vec<(String, String)>,
    /// Matched subcommand, if any.
    subcommand: Option<(String, Box<ParseResult>)>,
}

/// `raw` converted by `T::from_arg` may give `c`.
pub open spec fn converts_to<T: FromArg>(raw: Seq<char>, c: core::result::Result<T, String>) -> bool {
    exists|s: &str| s@ == raw && #[trigger] call_ensures(T::from_arg, (s,), c)
}

/// What `get` may give for `name` on a result `v`: `None` when nothing was
/// given; else the value `raw` converts to, or an invalid-value error that
/// names `name`, the raw text and the conversion's message.
pub open spec fn get_outcome<T: FromArg>(
    v: ParseView,
    name: Seq<char>,
    r: super::Result<Option<T>>,
) -> bool {
    match v.raw(name) {
        None => r matches Ok(None),
        Some(raw) => exists|c: core::result::Result<T, String>| converts_to::<T>(raw, c) && match c {
            Ok(x) => r == Ok::<Option<T>, Error>(Some(x)),
            Err(m) => r matches Err(e) && e.view() == (ErrorView::InvalidValue {
                name: name,
                value: raw,
                message: m@,
            }),
        },
    }
}

/// What `require` may give for `name` on a result `v`: the missing-name
/// error when nothing was given; else as `get`.
pub open spec fn require_outcome<T: FromArg>(v: ParseView, name: Seq<char>, r: super::Result<T>) -> bool {
    match v.raw(name) {
        None => r matches Err(e) && e.view() == missing_error(name),
        Some(raw) => exists|c: core::result::Result<T, String>| converts_to::<T>(raw, c) && match c {
            Ok(x) => r == Ok::<T, Error>(x),
            Err(m) => r matches Err(e) && e.view() == (ErrorView::InvalidValue {
                name: name,
                value: raw,
                message: m@,
            }),
        },
    }
}

/// `r` is what `require` gives when `get` gave `g`: `get`'s error, the
/// value, or the missing-name error when `get` found nothing.
pub open spec fn require_from_get<T>(g: super::Result<Option<T>>, name: Seq<char>, r: super::Result<T>) -> bool {
    match g {
        Err(e) => r matches Err(x) && x.view() == e.view(),
        Ok(Some(x)) => r == Ok::<T, Error>(x),
        Ok(None) => r matches Err(x) && x.view() == missing_error(name),
    }
}

/// Law: `require` is `get` with a missing value reported as the
/// missing-name error: every outcome of `require` is an outcome of `get`
/// carried over, and every outcome of `get` carried over is one of
/// `require`.
pub proof fn lemma_require_is_get<T: FromArg>(v: ParseView, name: Seq<char>, r: super::Result<T>)
    ensures
        require_outcome::<T>(v, name, r) <==> exists|g: super::Result<Option<T>>|
            get_outcome::<T>(v, name, g) && #[trigger] require_from_get::<T>(g, name, r),
{
    match v.raw(name) {
        None => {
            if require_outcome::<T>(v, name, r) {
                let g: super::Result<Option<T>> = Ok(None);
                assert(get_outcome::<T>(v, name, g) && require_from_get::<T>(g, name, r));
            }
        },
        Some(raw) => {
            if require_outcome::<T>(v, name, r) {
                let c = choose|c: core::result::Result<T, String>| converts_to::<T>(raw, c) && match c {
                    Ok(x) => r == Ok::<T, Error>(x),
                    Err(m) => r matches Err(e) && e.view() == (ErrorView::InvalidValue {
                        name: name,
                        value: raw,
                        message: m@,
                    }),
                };
                match c {
                    Ok(x) => {
                        let g: super::Result<Option<T>> = Ok(Some(x));
                        assert(get_outcome::<T>(v, name, g) && require_from_get::<T>(g, name, r));
                    },
                    Err(m) => {
                        let e = r->Err_0;
                        let g: super::Result<Option<T>> = Err(e);
                        assert(get_outcome::<T>(v, name, g) && require_from_get::<T>(g, name, r));
                    },
                }
            }
            if exists|g: super::Result<Option<T>>|
                get_outcome::<T>(v, name, g) && #[trigger] require_from_get::<T>(g, name, r) {
                let g = choose|g: super::Result<Option<T>>|
                    get_outcome::<T>(v, name, g) && #[trigger] require_from_get::<T>(g, name, r);
                let c = choose|c: core::result::Result<T, String>| converts_to::<T>(raw, c) && match c {
                    Ok(x) => g == Ok::<Option<T>, Error>(Some(x)),
                    Err(m) => g matches Err(e) && e.view() == (ErrorView::InvalidValue {
                        name: name,
                        value: raw,
                        message: m@,
                    }),
                };
                assert(converts_to::<T>(raw, c));
            }
        },
    }
}

/// `raw` converts to some `T`.
pub open spec fn converts_ok<T: FromArg>(raw: Seq<char>) -> bool {
    exists|x: T| converts_to::<T>(raw, Ok(x))
}

/// The error `require` reports for a missing `name`: dash-prefixed names are
/// options, other names positional arguments.
pub open spec fn missing_error(name: Seq<char>) -> ErrorView {
    if name.len() > 0 && name[0] == '-' {
        ErrorView::MissingOption(name)
    } else {
        ErrorView::MissingArgument(name)
    }
}

impl ParseResult {
    pub closed spec fn view(&self) -> ParseView
        decreases self,
    {
        ParseView {
            values: pairs_view(self.values@),
            flags: strings_view(self.flags@),
            args: pairs_view(self.args@),
            short_map: pairs_view(self.short_to_canonical@),
            subcommand: match &self.subcommand {
                Some(sub) => Some((sub.0@, Box::new((*sub.1).view()))),
                None => None,
            },
        }
    }

    /// The stored key for a user-supplied option token.
    fn canonical_key(&self, name: &str) -> (r: String)
        ensures
            r@ == canonical_key(self.view().short_map, name@),
    {
        let stripped = strip_dashes_exec(name);
        match lookup_last_exec(&self.short_to_canonical, stripped.as_str()) {
            Some(c) => c.clone(),
            None => stripped,
        }
    }

    /// Whether a boolean flag was provided (by its short or long name).
    pub fn flag(&self, name: &str) -> (r: bool)
        ensures
            r == self.view().flag(name@),
    {
        let key = self.canonical_key(name);
        let mut i: usize = 0;
        while i < self.flags.len()
            invariant
                i <= self.flags@.len(),
                key@ == canonical_key(self.view().short_map, name@),
                forall|j: int| 0 <= j < i ==> self.flags@[j]@ != key@,
            decreases self.flags.len() - i,
        {
            if str_eq(self.flags[i].as_str(), key.as_str()) {
                assert(strings_view(self.flags@)[i as int] == key@);
                return true;
            }
            i = i + 1;
        }
        assert(!strings_view(self.flags@).contains(key@)) by {
            if strings_view(self.flags@).contains(key@) {
                let j = choose|j: int| 0 <= j < self.flags@.len() && strings_view(self.flags@)[j] == key@;
                assert(self.flags@[j]@ == key@);
            }
        }
        false
    }

    /// The raw text for `name`.
    fn raw_string(&self, name: &str) -> (r: Option<&String>)
        ensures
            match self.view().raw(name@) {
                Some(v) => r matches Some(x) && x@ == v,
                None => r is None,
            },
    {
        let key = self.canonical_key(name);
        match lookup_last_exec(&self.values, key.as_str()) {
            Some(v) => Some(v),
            None => lookup_last_exec(&self.args, key.as_str()),
        }
    }

    /// Get the last value supplied for an option (or, failing that, the
    /// positional argument of that name), converted via [`FromArg`].
    /// Returns `Ok(None)` when absent.
    pub fn get<T: FromArg>(&self, name: &str) -> (r: super::Result<Option<T>>)
        ensures
            get_outcome::<T>(self.view(), name@, r),
    {
        match self.raw_string(name) {
            Some(raw) => {
                let rs: &str = raw.as_str();
                let c = T::from_arg(rs);
                proof {
                    assert(call_ensures(T::from_arg, (rs,), c));
                    assert(converts_to::<T>(raw@, c));
                }
                match c {
                    Ok(v) => Ok(Some(v)),
                    Err(m) => Err(Error::invalid_value(name, raw.as_str(), m.as_str())),
                }
            },
            None => Ok(None),
        }
    }

    /// Like [`ParseResult::get`] but errors if the value is missing: with
    /// `MissingOption` for dash-prefixed names and `MissingArgument` otherwise.
    pub fn require<T: FromArg>(&self, name: &str) -> (r: super::Result<T>)
        ensures
            require_outcome::<T>(self.view(), name@, r),
    {
        match self.get::<T>(name) {
            Ok(Some(v)) => Ok(v),
            Ok(None) => {
                let v = chars_of(name);
                if v.len() > 0 && v[0] == '-' {
                    Err(Error::MissingOption(owned(name)))
                } else {
                    Err(Error::MissingArgument(owned(name)))
                }
            },
            Err(e) => Err(e),
        }
    }

    /// Get all values supplied for a repeatable option, in order; the first
    /// value that does not convert is reported.
    pub fn all<T: FromArg>(&self, name: &str) -> (r: super::Result<Vec<T>>)
        ensures
            match r {
                Ok(out) => out@.len() == self.view().all_raw(name@).len() && forall|i: int|
                    0 <= i < out@.len() ==> converts_to::<T>(
                        #[trigger] self.view().all_raw(name@)[i],
                        Ok(out@[i]),
                    ),
                Err(e) => exists|j: int, m: String|
                    0 <= j < self.view().all_raw(name@).len() && #[trigger] converts_to::<T>(
                        self.view().all_raw(name@)[j],
                        Err(m),
                    ) && e.view() == (ErrorView::InvalidValue {
                        name: name@,
                        value: self.view().all_raw(name@)[j],
                        message: m@,
                    }) && forall|k: int|
                        0 <= k < j ==> converts_ok::<T>(#[trigger] self.view().all_raw(name@)[k]),
            },
    {
        let key = self.canonical_key(name);
        let ghost pv = pairs_view(self.values@);
        let ghost vs = self.view().all_raw(name@);
        let mut out: Vec<T> = Vec::new();
        let mut i: usize = 0;
        assert(pv.take(0) =~= Seq::<(Seq<char>, Seq<char>)>::empty());
        while i < self.values.len()
            invariant
                i <= self.values@.len(),
                pv == pairs_view(self.values@),
                vs == values_for(pv, key@),
                vs == self.view().all_raw(name@),
                key@ == canonical_key(self.view().short_map, name@),
                out@.len() == values_for(pv.take(i as int), key@).len(),
                forall|k: int| 0 <= k < out@.len() ==> converts_to::<T>(
                    #[trigger] values_for(pv.take(i as int), key@)[k],
                    Ok(out@[k]),
                ),
            decreases self.values.len() - i,
        {
            let ghost before = values_for(pv.take(i as int), key@);
            assert(pv.take(i + 1).drop_last() =~= pv.take(i as int));
            assert(pv.take(i + 1).last() == (self.values@[i as int].0@, self.values@[i as int].1@));
            proof { lemma_values_for_prefix(pv, key@, i + 1); }
            if str_eq(self.values[i].0.as_str(), key.as_str()) {
                let raw = &self.values[i].1;
                let rs: &str = raw.as_str();
                let c = T::from_arg(rs);
                proof {
                    assert(call_ensures(T::from_arg, (rs,), c));
                    assert(converts_to::<T>(raw@, c));
                    assert(values_for(pv.take(i + 1), key@) == before.push(raw@));
                }
                match c {
                    Ok(v) => {
                        out.push(v);
                        proof {
                            assert forall|k: int| 0 <= k < out@.len() implies converts_to::<T>(
                                #[trigger] values_for(pv.take(i + 1), key@)[k],
                                Ok(out@[k]),
                            ) by {
                                if k < before.len() {
                                    assert(values_for(pv.take(i + 1), key@)[k] == before[k]);
                                }
                            }
                        }
                    },
                    Err(m) => {
                        let e = Error::invalid_value(name, raw.as_str(), m.as_str());
                        proof {
                            let j = before.len() as int;
                            assert(values_for(pv.take(i + 1), key@)[j] == raw@);
                            assert(vs[j] == raw@);
                            assert(converts_to::<T>(vs[j], Err(m)));
                            assert forall|k: int| 0 <= k < j implies converts_ok::<T>(#[trigger] vs[k]) by {
                                assert(values_for(pv.take(i + 1), key@)[k] == before[k]);
                                assert(vs[k] == before[k]);
                                assert(converts_to::<T>(vs[k], Ok(out@[k])));
                            }
                            assert(e.view() == (ErrorView::InvalidValue { name: name@, value: vs[j], message: m@ }));
                        }
                        return Err(e);
                    },
                }
            } else {
                proof {
                    assert(values_for(pv.take(i + 1), key@) =~= before);
                }
            }
            i = i + 1;
        }
        assert(pv.take(self.values@.len() as int) =~= pv);
        Ok(out)
    }

    /// The matched subcommand name and its parse result, if any.
    pub fn subcommand(&self) -> (r: Option<(&str, &ParseResult)>)
        ensures
            r is Some <==> self.view().subcommand is Some,
            r matches Some((n, p)) ==> self.view().subcommand == Some((n@, Box::new(p.view()))),
    {
        match &self.subcommand {
            Some(sub) => Some((sub.0.as_str(), &*sub.1)),
            None => None,
        }
    }

    /// The raw text of the last value for an option, else of the positional
    /// argument of that name.
    pub fn raw_value(&self, name: &str) -> (r: Option<&str>)
        ensures
            match self.view().raw(name@) {
                Some(v) => r matches Some(x) && x@ == v,
                None => r is None,
            },
    {
        match self.raw_string(name) {
            Some(v) => Some(v.as_str()),
            None => None,
        }
    }
}

proof fn lemma_values_for_prefix(pv: Seq<(Seq<char>, Seq<char>)>, k: Seq<char>, n: int)
    requires
        0 <= n <= pv.len(),
    ensures
        values_for(pv, k).len() >= values_for(pv.take(n), k).len(),
        forall|j: int| 0 <= j < values_for(pv.take(n), k).len() ==> values_for(pv, k)[j]
            == #[trigger] values_for(pv.take(n), k)[j],
    decreases pv.len() - n,
{
    if n < pv.len() {
        lemma_values_for_prefix(pv, k, n + 1);
        assert(pv.take(n + 1).drop_last() =~= pv.take(n));
        let a = values_for(pv.take(n), k);
        let b = values_for(pv.take(n + 1), k);
        assert forall|j: int| 0 <= j < a.len() implies values_for(pv, k)[j] == #[trigger] a[j] by {
            assert(b[j] == a[j]);
        }
    } else {
        assert(pv.take(n) =~= pv);
    }
}

/// The value of the last pair of `s` keyed `k`.
fn lookup_last_exec<'a>(s: &'a Vec<(String, String)>, k: &str) -> (r: Option<&'a String>)
    ensures
        match lookup_last(pairs_view(s@), k@) {
            Some(v) => r matches Some(x) && x@ == v,
            None => r is None,
        },
{
    let ghost pv = pairs_view(s@);
    let mut i = s.len();
    assert(pv.take(pv.len() as int) =~= pv);
    while i > 0
        invariant
            i <= s@.len(),
            pv == pairs_view(s@),
            lookup_last(pv, k@) == lookup_last(pv.take(i as int), k@),
        decreases i,
    {
        assert(pv.take(i as int).drop_last() =~= pv.take(i - 1));
        assert(pv.take(i as int).last() == (s@[i - 1].0@, s@[i - 1].1@));
        if str_eq(s[i - 1].0.as_str(), k) {
            return Some(&s[i - 1].1);
        }
        i = i - 1;
    }
    None
}

/// Short → long lookup table for the options of `schema`.
fn populate_short_map(schema: &CommandSchema) -> (r: Vec<(String, String)>)
    ensures
        pairs_view(r@) == short_map_of(schema.options@),
{
    let mut r: Vec<(String, String)> = Vec::new();
    let mut i: usize = 0;
    assert(schema.options@.take(0) =~= Seq::<CLOption>::empty());
    assert(pairs_view(r@) =~= Seq::<(Seq<char>, Seq<char>)>::empty());
    while i < schema.options.len()
        invariant
            i <= schema.options@.len(),
            pairs_view(r@) == short_map_of(schema.options@.take(i as int)),
        decreases schema.options.len() - i,
    {
        let opt = &schema.options[i];
        assert(schema.options@.take(i + 1).drop_last() =~= schema.options@.take(i as int));
        assert(schema.options@.take(i + 1).last() == *opt);
        let ghost before = r@;
        match (&opt.short, &opt.long) {
            (Some(short), Some(long)) => {
                let s = strip_dashes_exec(short.as_str());
                let l = strip_dashes_exec(long.as_str());
                r.push((s, l));
                assert(pairs_view(r@) =~= pairs_view(before).push((strip_dashes(short@), strip_dashes(long@))));
            },
            _ => {
                assert(pairs_view(r@) =~= pairs_view(before) + Seq::<(Seq<char>, Seq<char>)>::empty());
            },
        }
        i = i + 1;
    }
    assert(schema.options@.take(schema.options@.len() as int) =~= schema.options@);
    r
}

// ---------------------------------------------------------------------------
// The parser
// ---------------------------------------------------------------------------

fn looks_like_option_exec(v: &Vec<char>) -> (r: bool)
    ensures
        r == looks_like_option(v@),
{
    proof {
        reveal_strlit("--");
    }
    if v.len() < 2 || v[0] != '-' {
        return false;
    }
    if v.len() == 2 && v[1] == '-' {
        assert(v@ =~= "--"@);
        return false;
    }
    assert(v@ != "--"@) by {
        if v@ == "--"@ {
            assert(v@.len() == 2 && v@[1] == '-');
        }
    }
    if v[1] == '-' {
        v.len() > 2 && is_ascii_alpha_exec(v[2])
    } else {
        is_ascii_alpha_exec(v[1])
    }
}

/// Splits `v[from..]` at its first `=`.
fn split_eq_exec(v: &Vec<char>, from: usize) -> (r: (String, Option<String>))
    requires
        from <= v.len(),
    ensures
        r.0@ == split_eq(v@.skip(from as int)).0,
        super::schema::opt_view(r.1) == split_eq(v@.skip(from as int)).1,
{
    let ghost sv = v@.skip(from as int);
    let mut j = from;
    while j < v.len()
        invariant
            from <= j <= v.len(),
            sv == v@.skip(from as int),
            forall|m: int| 0 <= m < j - from ==> !eq_sign()(#[trigger] sv[m]),
        decreases v.len() - j,
    {
        if v[j] == '=' {
            proof {
                assert(eq_sign()(sv[j - from]));
                lemma_first_index(sv, eq_sign(), j - from);
                assert(sv.take(j - from) =~= v@.subrange(from as int, j as int));
                assert(sv.skip(j - from + 1) =~= v@.subrange(j + 1, v.len() as int));
            }
            return (string_from_range(v, from, j), Some(string_from_range(v, j + 1, v.len())));
        }
        j = j + 1;
    }
    proof {
        lemma_first_index(sv, eq_sign(), j - from);
        assert(sv =~= v@.subrange(from as int, v.len() as int));
    }
    (string_from_range(v, from, v.len()), None)
}

/// Records the option `opt` written as `args[i]`; returns the index of the
/// next argument to look at.
fn consume_option(
    opt: &CLOption,
    args: &[String],
    i: usize,
    inline: Option<String>,
    result: &mut ParseResult,
) -> (r: super::Result<usize>)
    requires
        i < args@.len(),
        old(result).subcommand is None,
    ensures
        final(result).subcommand is None,
        match take_option(*opt, strings_view(args@), i as int, super::schema::opt_view(inline), old(result).view()) {
            Ok((st2, took_next)) => r matches Ok(j) && j == (if took_next { i + 2 } else { i + 1 })
                && final(result).view() == st2,
            Err(e) => r matches Err(x) && x.view() == e,
        },
{
    let key = opt.canonical();
    let token = &args[i];
    let ghost a = strings_view(args@);
    assert(a[i as int] == token@);
    if opt.takes_value {
        let (value, next) = match inline {
            Some(v) => (v, i + 1),
            None => {
                if i + 1 < args.len() {
                    assert(a[i + 1] == args@[i + 1]@);
                    (args[i + 1].clone(), i + 2)
                } else {
                    return Err(Error::MissingValue(token.clone()));
                }
            },
        };
        let ghost before = result.values@;
        result.values.push((key, value));
        assert(pairs_view(result.values@) =~= pairs_view(before).push((key@, value@)));
        Ok(next)
    } else {
        if inline.is_some() {
            return Err(Error::UnexpectedValue(token.clone()));
        }
        let ghost before = result.flags@;
        result.flags.push(key);
        assert(strings_view(result.flags@) =~= strings_view(before).push(key@));
        Ok(i + 1)
    }
}

/// Binds `value` to the positional argument number `pos`.
fn consume_positional(
    result: &mut ParseResult,
    schema: &CommandSchema,
    pos: usize,
    value: &String,
) -> (r: super::Result<()>)
    requires
        old(result).subcommand is None,
    ensures
        final(result).subcommand is None,
        match bind_positional(old(result).view(), *schema, pos as int, value@) {
            Ok(st2) => r is Ok && final(result).view() == st2,
            Err(e) => r matches Err(x) && x.view() == e,
        },
{
    if pos >= schema.arguments.len() {
        return Err(Error::ExtraArgument(value.clone()));
    }
    let ghost before = result.args@;
    result.args.push((schema.arguments[pos].name.clone(), value.clone()));
    assert(pairs_view(result.args@) =~= pairs_view(before).push((schema.arguments@[pos as int].name@, value@)));
    Ok(())
}

/// The names of `subs`.
fn names_exec(subs: &Vec<CommandSchema>) -> (r: Vec<String>)
    ensures
        strings_view(r@) == names_of(subs@),
{
    let mut r: Vec<String> = Vec::new();
    let mut i: usize = 0;
    while i < subs.len()
        invariant
            i <= subs@.len(),
            r@.len() == i,
            forall|k: int| 0 <= k < i ==> #[trigger] r@[k]@ == subs@[k].name@,
        decreases subs.len() - i,
    {
        r.push(subs[i].name.clone());
        i = i + 1;
    }
    assert(strings_view(r@) =~= names_of(subs@));
    r
}

/// Checks made once the arguments run out.
fn finalize(result: ParseResult, schema: &CommandSchema) -> (r: super::Result<ParseResult>)
    ensures
        match finalize_spec(result.view(), *schema) {
            Ok(v) => r matches Ok(p) && p.view() == v,
            Err(e) => r matches Err(x) && x.view() == e,
        },
{
    // When a subcommand took over, positional arguments belong to it.
    if result.subcommand.is_some() {
        return Ok(result);
    }
    let ghost p = unbound_required(result.view().args);
    let mut i: usize = 0;
    while i < schema.arguments.len()
        invariant
            i <= schema.arguments@.len(),
            p == unbound_required(result.view().args),
            result.subcommand is None,
            forall|j: int| 0 <= j < i ==> !p(#[trigger] schema.arguments@[j]),
        decreases schema.arguments.len() - i,
    {
        let arg = &schema.arguments[i];
        if arg.required && lookup_last_exec(&result.args, arg.name.as_str()).is_none() {
            proof {
                assert(p(schema.arguments@[i as int]));
                lemma_first_index(schema.arguments@, p, i as int);
            }
            return Err(Error::MissingArgument(arg.name.clone()));
        }
        i = i + 1;
    }
    proof { lemma_first_index(schema.arguments@, p, i as int); }
    if schema.subcommands.len() > 0 {
        return Err(Error::MissingSubcommand { available: names_exec(&schema.subcommands) });
    }
    Ok(result)
}

/// Gives an error raised inside the subcommand `name` the context of its path.
fn wrap_in_subcommand(name: String, e: Error) -> (r: Error)
    ensures
        r.view() == in_subcommand(name@, e.view()),
{
    match e {
        Error::InSubcommand { path, source } => {
            let mut path = path;
            let ghost before = path@;
            path.insert(0, name);
            assert(strings_view(path@) =~= seq![name@] + strings_view(before));
            Error::InSubcommand { path, source }
        },
        other => {
            let mut path: Vec<String> = Vec::new();
            path.push(name);
            assert(strings_view(path@) =~= seq![name@]);
            Error::InSubcommand { path, source: Box::new(other) }
        },
    }
}

/// Hand-rolled tokenizer. Turns a flat argv slice into a [`ParseResult`]
/// guided by the schema.
pub struct OptionParser;

impl OptionParser {
    /// Parses `args` against `schema`, producing a [`ParseResult`] or an error.
    pub fn parse(schema: &CommandSchema, args: &[String]) -> (r: super::Result<ParseResult>)
        ensures
            match parse_spec(*schema, strings_view(args@)) {
                Ok(v) => r matches Ok(p) && p.view() == v,
                Err(e) => r matches Err(x) && x.view() == e,
            },
    {
        parse_at(schema, args, 0)
    }
}

/// Parses `args[start..]` against `schema`.
fn parse_at(schema: &CommandSchema, args: &[String], start: usize) -> (r: super::Result<ParseResult>)
    requires
        start <= args@.len(),
    ensures
        match parse_from(*schema, strings_view(args@), start as int) {
            Ok(v) => r matches Ok(p) && p.view() == v,
            Err(e) => r matches Err(x) && x.view() == e,
        },
    decreases args@.len() - start,
{
    let ghost a = strings_view(args@);
    let mut result = ParseResult {
        values: Vec::new(),
        flags: Vec::new(),
        args: Vec::new(),
        short_to_canonical: populate_short_map(schema),
        subcommand: None,
    };
    proof {
        assert(pairs_view(result.values@) =~= Seq::<(Seq<char>, Seq<char>)>::empty());
        assert(pairs_view(result.args@) =~= Seq::<(Seq<char>, Seq<char>)>::empty());
        assert(strings_view(result.flags@) =~= Seq::<Seq<char>>::empty());
        assert(result.view() == initial_view(*schema));
    }
    let mut i = start;
    let mut pos: usize = 0;
    let mut dash_dash = false;
    while i < args.len()
        invariant
            start <= i <= args@.len(),
            pos <= i,
            a == strings_view(args@),
            result.subcommand is None,
            parse_from(*schema, a, start as int) == parse_loop(*schema, a, i as int, result.view(), pos as int, dash_dash),
        decreases args@.len() - i,
    {
        let arg = &args[i];
        assert(a[i as int] == arg@);
        if dash_dash {
            match consume_positional(&mut result, schema, pos, arg) {
                Ok(()) => {},
                Err(e) => return Err(e),
            }
            pos = pos + 1;
            i = i + 1;
        } else if str_eq(arg.as_str(), "--") {
            dash_dash = true;
            i = i + 1;
        } else if str_eq(arg.as_str(), "-h") || str_eq(arg.as_str(), "--help") {
            return Err(Error::HelpRequested);
        } else {
            let v = chars_of(arg.as_str());
            if looks_like_option_exec(&v) {
                // Tokens like `-1`, `-.5` or `-/path` did not get here: an
                // option starts with a letter (`-x`) or a word (`--name`).
                if v[1] == '-' {
                    let (name, inline) = split_eq_exec(&v, 2);
                    match schema.find_option_long(name.as_str()) {
                        None => return Err(Error::UnknownOption(arg.clone())),
                        Some(opt) => match consume_option(opt, args, i, inline, &mut result) {
                            Ok(j) => {
                                i = j;
                            },
                            Err(e) => return Err(e),
                        },
                    }
                } else {
                    let name = string_from_range(&v, 1, v.len());
                    assert(v@.skip(1) =~= v@.subrange(1, v@.len() as int));
                    match schema.find_option_short(name.as_str()) {
                        None => return Err(Error::UnknownOption(arg.clone())),
                        Some(opt) => match consume_option(opt, args, i, None, &mut result) {
                            Ok(j) => {
                                i = j;
                            },
                            Err(e) => return Err(e),
                        },
                    }
                }
            } else {
                // Required positionals bind before subcommand dispatch, so
                // `app <workspace> <sub>` binds the workspace first even when
                // its value names a subcommand.
                let has_next = pos < schema.arguments.len();
                if has_next && schema.arguments[pos].required {
                    match consume_positional(&mut result, schema, pos, arg) {
                        Ok(()) => {},
                        Err(e) => return Err(e),
                    }
                    pos = pos + 1;
                    i = i + 1;
                } else {
                    // For optional positionals, a token naming a subcommand
                    // dispatches first; `--` forces it into the positional slot.
                    match schema.find_subcommand(arg.as_str()) {
                        Some(sub) => {
                            match parse_at(sub, args, i + 1) {
                                Ok(sub_result) => {
                                    result.subcommand = Some((sub.name.clone(), Box::new(sub_result)));
                                    return finalize(result, schema);
                                },
                                Err(e) => {
                                    return Err(wrap_in_subcommand(sub.name.clone(), e));
                                },
                            }
                        },
                        None => {
                            if has_next {
                                match consume_positional(&mut result, schema, pos, arg) {
                                    Ok(()) => {},
                                    Err(e) => return Err(e),
                                }
                                pos = pos + 1;
                                i = i + 1;
                            } else if schema.subcommands.len() > 0 {
                                return Err(Error::UnknownSubcommand {
                                    name: arg.clone(),
                                    available: names_exec(&schema.subcommands),
                                });
                            } else {
                                return Err(Error::ExtraArgument(arg.clone()));
                            }
                        },
                    }
                }
            }
        }
    }
    finalize(result, schema)
}

// ---------------------------------------------------------------------------
// What every successful parse satisfies
// ---------------------------------------------------------------------------

/// The positional values `args` are bound to the first declared arguments,
/// in order.
pub open spec fn binds_in_order(schema: CommandSchema, args: Seq<(Seq<char>, Seq<char>)>) -> bool {
    &&& args.len() <= schema.arguments@.len()
    &&& forall|k: int| 0 <= k < args.len() ==> #[trigger] args[k].0 == schema.arguments@[k].name@
}

/// A successful result for `schema`: it carries the schema's short names;
/// its positional values are bound to a prefix of the declared arguments, in
/// order; it names a subcommand whenever the schema has any, and then one of
/// the schema's own (the first of that name), whose result is in turn
/// complete for it; and, when it names none, it binds every required
/// positional argument.
pub open spec fn complete(schema: CommandSchema, v: ParseView) -> bool
    decreases v,
{
    &&& match v.subcommand {
        Some((n, r)) => first_index(schema.subcommands@, sub_named(n)) matches Some(k) && 0 <= k
            < schema.subcommands@.len() && schema.subcommands@[k].name@ == n && complete(
            schema.subcommands@[k],
            *r,
        ),
        None => true,
    }
    &&& v.short_map == short_map_of(schema.options@)
    &&& binds_in_order(schema, v.args)
    &&& schema.subcommands@.len() > 0 ==> v.subcommand is Some
    &&& v.subcommand is None ==> forall|k: int|
        0 <= k < schema.arguments@.len() && #[trigger] schema.arguments@[k].required ==> lookup_last(
            v.args,
            schema.arguments@[k].name@,
        ) is Some
}

proof fn lemma_finalize_complete(st: ParseView, schema: CommandSchema)
    requires
        st.short_map == short_map_of(schema.options@),
        binds_in_order(schema, st.args),
        st.subcommand matches Some((n, r)) ==> first_index(schema.subcommands@, sub_named(n)) matches Some(k)
            && 0 <= k < schema.subcommands@.len() && schema.subcommands@[k].name@ == n && complete(
            schema.subcommands@[k],
            *r,
        ),
    ensures
        finalize_spec(st, schema) matches Ok(v) ==> complete(schema, v),
{
    if st.subcommand is None {
        if first_index(schema.arguments@, unbound_required(st.args)) is None {
            assert forall|k: int|
                0 <= k < schema.arguments@.len() && #[trigger] schema.arguments@[k].required implies lookup_last(
                st.args,
                schema.arguments@[k].name@,
            ) is Some by {
                assert(!unbound_required(st.args)(schema.arguments@[k]));
            }
        }
    }
}

proof fn lemma_loop_complete(
    schema: CommandSchema,
    args: Seq<Seq<char>>,
    i: int,
    st: ParseView,
    pos: int,
    dd: bool,
)
    requires
        st.short_map == short_map_of(schema.options@),
        st.subcommand is None,
        st.args.len() == pos,
        binds_in_order(schema, st.args),
    ensures
        parse_loop(schema, args, i, st, pos, dd) matches Ok(v) ==> complete(schema, v),
    decreases args.len() - i, 0int,
{
    if i < 0 || i >= args.len() {
        lemma_finalize_complete(st, schema);
    } else {
        let arg = args[i];
        if dd {
            if let Ok(st2) = bind_positional(st, schema, pos, arg) {
                lemma_loop_complete(schema, args, i + 1, st2, pos + 1, dd);
            }
        } else if arg == "--"@ {
            lemma_loop_complete(schema, args, i + 1, st, pos, true);
        } else if arg == "-h"@ || arg == "--help"@ {
        } else if looks_like_option(arg) {
            let long = arg[1] == '-';
            let (name, inline) = if long {
                split_eq(arg.skip(2))
            } else {
                (arg.skip(1), None)
            };
            let found = if long {
                first_index(schema.options@, long_named(name))
            } else {
                first_index(schema.options@, short_named(name))
            };
            if let Some(k) = found {
                if let Ok((st2, took_next)) = take_option(schema.options@[k], args, i, inline, st) {
                    if took_next {
                        lemma_loop_complete(schema, args, i + 2, st2, pos, dd);
                    } else {
                        lemma_loop_complete(schema, args, i + 1, st2, pos, dd);
                    }
                }
            }
        } else {
            let has_next = 0 <= pos < schema.arguments@.len();
            if has_next && schema.arguments@[pos].required {
                if let Ok(st2) = bind_positional(st, schema, pos, arg) {
                    lemma_loop_complete(schema, args, i + 1, st2, pos + 1, dd);
                }
            } else if first_index(schema.subcommands@, sub_named(arg)) is Some {
                let k = first_index(schema.subcommands@, sub_named(arg))->0;
                let sub = schema.subcommands@[k];
                lemma_first_index_found(schema.subcommands@, sub_named(arg));
                lemma_from_complete(sub, args, i + 1);
                if let Ok(r) = parse_from(sub, args, i + 1) {
                    assert(sub_named(arg)(sub));
                    assert(sub_named(sub.name@) == sub_named(arg));
                    lemma_finalize_complete(ParseView { subcommand: Some((sub.name@, Box::new(r))), ..st }, schema);
                }
            } else if has_next {
                if let Ok(st2) = bind_positional(st, schema, pos, arg) {
                    lemma_loop_complete(schema, args, i + 1, st2, pos + 1, dd);
                }
            }
        }
    }
}

proof fn lemma_from_complete(schema: CommandSchema, args: Seq<Seq<char>>, start: int)
    ensures
        parse_from(schema, args, start) matches Ok(v) ==> complete(schema, v),
    decreases args.len() - start, 1int,
{
    lemma_loop_complete(schema, args, start, initial_view(schema), 0, false);
}

/// Law: a successful parse names a subcommand whenever the schema has
/// subcommands, and then one of the schema's own whose result is complete
/// in turn; binds every required positional argument when it names none;
/// binds positional values to a prefix of the declared arguments in order;
/// and keeps the schema's short names.
pub proof fn lemma_parse_complete(schema: CommandSchema, args: Seq<Seq<char>>)
    ensures
        parse_spec(schema, args) matches Ok(v) ==> complete(schema, v),
{
    lemma_loop_complete(schema, args, 0, initial_view(schema), 0, false);
}

// ---------------------------------------------------------------------------
// Short and long names
// ---------------------------------------------------------------------------

/// `(short, long)` without dashes, for an option that declares both.
pub open spec fn name_pair(o: CLOption) -> Option<(Seq<char>, Seq<char>)> {
    match (o.short, o.long) {
        (Some(s), Some(l)) => Some((strip_dashes(s@), strip_dashes(l@))),
        _ => None,
    }
}

/// The short name, without dashes, of an option that declares both names.
pub open spec fn short_key(o: CLOption) -> Seq<char> {
    match name_pair(o) {
        Some(pr) => pr.0,
        None => seq![],
    }
}

/// The long name, without dashes, of an option that declares both names.
pub open spec fn long_key(o: CLOption) -> Seq<char> {
    match name_pair(o) {
        Some(pr) => pr.1,
        None => seq![],
    }
}

proof fn lemma_lookup_push(p: Seq<(Seq<char>, Seq<char>)>, x: (Seq<char>, Seq<char>), key: Seq<char>)
    ensures
        lookup_last(p.push(x), key) == if x.0 == key {
            Some(x.1)
        } else {
            lookup_last(p, key)
        },
{
    assert(p.push(x).drop_last() =~= p);
}

proof fn lemma_short_map_step(opts: Seq<CLOption>, key: Seq<char>)
    requires
        opts.len() > 0,
    ensures
        lookup_last(short_map_of(opts), key) == match name_pair(opts.last()) {
            Some(pr) => if pr.0 == key {
                Some(pr.1)
            } else {
                lookup_last(short_map_of(opts.drop_last()), key)
            },
            None => lookup_last(short_map_of(opts.drop_last()), key),
        },
{
    let p = short_map_of(opts.drop_last());
    match name_pair(opts.last()) {
        Some(pr) => {
            assert(short_map_of(opts) =~= p.push(pr));
            lemma_lookup_push(p, pr, key);
        },
        None => {
            assert(short_map_of(opts) =~= p);
        },
    }
}

proof fn lemma_short_found(opts: Seq<CLOption>, k: int)
    requires
        0 <= k < opts.len(),
        name_pair(opts[k]) is Some,
        forall|j: int|
            k < j < opts.len() ==> (#[trigger] name_pair(opts[j]) matches Some(pr) ==> pr.0
                != short_key(opts[k])),
    ensures
        lookup_last(short_map_of(opts), short_key(opts[k])) == Some(long_key(opts[k])),
    decreases opts.len(),
{
    let key = short_key(opts[k]);
    lemma_short_map_step(opts, key);
    if k < opts.len() - 1 {
        let d = opts.drop_last();
        assert(d[k] == opts[k]);
        assert forall|j: int| k < j < d.len() implies (#[trigger] name_pair(d[j]) matches Some(pr) ==> pr.0
            != short_key(d[k])) by {
            assert(d[j] == opts[j]);
        }
        assert(name_pair(opts.last()) == name_pair(opts[opts.len() - 1]));
        lemma_short_found(d, k);
    }
}

proof fn lemma_short_absent(opts: Seq<CLOption>, key: Seq<char>)
    requires
        forall|j: int| 0 <= j < opts.len() ==> (#[trigger] name_pair(opts[j]) matches Some(pr) ==> pr.0 != key),
    ensures
        lookup_last(short_map_of(opts), key) is None,
    decreases opts.len(),
{
    if opts.len() > 0 {
        lemma_short_map_step(opts, key);
        let d = opts.drop_last();
        assert forall|j: int| 0 <= j < d.len() implies (#[trigger] name_pair(d[j]) matches Some(pr) ==> pr.0
            != key) by {
            assert(d[j] == opts[j]);
        }
        assert(name_pair(opts.last()) == name_pair(opts[opts.len() - 1]));
        lemma_short_absent(d, key);
    }
}

/// Law: for an option that declares both a short and a long name, a
/// successful parse answers the same for either name: whether the flag was
/// given, its value, and all its values. This holds when no later option
/// declares the same short name and no option's short name is this
/// option's long name (each without dashes).
pub proof fn lemma_short_long_interchangeable(schema: CommandSchema, args: Seq<Seq<char>>, k: int)
    requires
        0 <= k < schema.options@.len(),
        name_pair(schema.options@[k]) is Some,
        forall|j: int|
            k < j < schema.options@.len() ==> (#[trigger] name_pair(schema.options@[j]) matches Some(pr)
                ==> pr.0 != short_key(schema.options@[k])),
        forall|j: int|
            0 <= j < schema.options@.len() ==> (#[trigger] name_pair(schema.options@[j]) matches Some(pr)
                ==> pr.0 != long_key(schema.options@[k])),
    ensures
        parse_spec(schema, args) matches Ok(v) ==> {
            let o = schema.options@[k];
            let s = o.short->0@;
            let l = o.long->0@;
            &&& v.flag(s) == v.flag(l)
            &&& v.raw(s) == v.raw(l)
            &&& v.all_raw(s) == v.all_raw(l)
        },
{
    lemma_parse_complete(schema, args);
    let opts = schema.options@;
    lemma_short_found(opts, k);
    lemma_short_absent(opts, long_key(opts[k]));
}

// ---------------------------------------------------------------------------
// Subcommands parse the rest of the line
// ---------------------------------------------------------------------------

#[verifier::spinoff_prover]
#[verifier::rlimit(40)]
proof fn lemma_loop_shift(
    schema: CommandSchema,
    args: Seq<Seq<char>>,
    d: int,
    i: int,
    st: ParseView,
    pos: int,
    dd: bool,
)
    requires
        0 <= d <= i,
        d <= args.len(),
    ensures
        parse_loop(schema, args, i, st, pos, dd) == parse_loop(schema, args.skip(d), i - d, st, pos, dd),
    decreases args.len() - i, 0int,
{
    let t = args.skip(d);
    if i < args.len() {
        let arg = args[i];
        assert(t[i - d] == arg);
        if dd {
            if let Ok(st2) = bind_positional(st, schema, pos, arg) {
                lemma_loop_shift(schema, args, d, i + 1, st2, pos + 1, dd);
            }
        } else if arg == "--"@ {
            lemma_loop_shift(schema, args, d, i + 1, st, pos, true);
        } else if arg == "-h"@ || arg == "--help"@ {
        } else if looks_like_option(arg) {
            let long = arg[1] == '-';
            let (name, inline) = if long {
                split_eq(arg.skip(2))
            } else {
                (arg.skip(1), None)
            };
            let found = if long {
                first_index(schema.options@, long_named(name))
            } else {
                first_index(schema.options@, short_named(name))
            };
            if let Some(k) = found {
                if i + 1 < args.len() {
                    assert(t[i + 1 - d] == args[i + 1]);
                }
                assert(take_option(schema.options@[k], args, i, inline, st) == take_option(
                    schema.options@[k],
                    t,
                    i - d,
                    inline,
                    st,
                ));
                if let Ok((st2, took_next)) = take_option(schema.options@[k], args, i, inline, st) {
                    if took_next {
                        lemma_loop_shift(schema, args, d, i + 2, st2, pos, dd);
                    } else {
                        lemma_loop_shift(schema, args, d, i + 1, st2, pos, dd);
                    }
                }
            }
        } else {
            let has_next = 0 <= pos < schema.arguments@.len();
            if has_next && schema.arguments@[pos].required {
                if let Ok(st2) = bind_positional(st, schema, pos, arg) {
                    lemma_loop_shift(schema, args, d, i + 1, st2, pos + 1, dd);
                }
            } else if first_index(schema.subcommands@, sub_named(arg)) is Some {
                let sub = schema.subcommands@[first_index(schema.subcommands@, sub_named(arg))->0];
                lemma_from_shift(sub, args, d, i + 1);
            } else if has_next {
                if let Ok(st2) = bind_positional(st, schema, pos, arg) {
                    lemma_loop_shift(schema, args, d, i + 1, st2, pos + 1, dd);
                }
            }
        }
    }
}

proof fn lemma_from_shift(schema: CommandSchema, args: Seq<Seq<char>>, d: int, start: int)
    requires
        0 <= d <= start,
        d <= args.len(),
    ensures
        parse_from(schema, args, start) == parse_from(schema, args.skip(d), start - d),
    decreases args.len() - start, 1int,
{
    lemma_loop_shift(schema, args, d, start, initial_view(schema), 0, false);
}

/// Law: a command line that starts with the name of a subcommand (when no
/// required positional argument comes first) parses as that subcommand
/// parses the rest of the line: its result is recorded as the subcommand's,
/// and its errors are reported from inside the subcommand, the path
/// prefixed with the subcommand's name.
pub proof fn lemma_leading_subcommand(schema: CommandSchema, n: Seq<char>, rest: Seq<Seq<char>>)
    requires
        first_index(schema.subcommands@, sub_named(n)) is Some,
        n.len() == 0 || n[0] != '-',
        schema.arguments@.len() == 0 || !schema.arguments@[0].required,
    ensures
        ({
            let sub = schema.subcommands@[first_index(schema.subcommands@, sub_named(n))->0];
            parse_spec(schema, seq![n] + rest) == match parse_spec(sub, rest) {
                Ok(r) => Ok(
                    ParseView { subcommand: Some((sub.name@, Box::new(r))), ..initial_view(schema) },
                ),
                Err(e) => Err(in_subcommand(sub.name@, e)),
            }
        }),
{
    let args = seq![n] + rest;
    let sub = schema.subcommands@[first_index(schema.subcommands@, sub_named(n))->0];
    assert(args[0] == n);
    assert(args.skip(1) =~= rest);
    reveal_strlit("--");
    reveal_strlit("-h");
    reveal_strlit("--help");
    assert(n != "--"@ && n != "-h"@ && n != "--help"@);
    lemma_from_shift(sub, args, 1, 1);
    assert(rest.skip(0) =~= rest);
}

// ---------------------------------------------------------------------------
// Values in command-line order
// ---------------------------------------------------------------------------

/// The command line `--l1 x1 --l2 x2 ...` for the pairs `(l, x)`.
pub open spec fn pairs_line(pairs: Seq<(Seq<char>, Seq<char>)>) -> Seq<Seq<char>> {
    Seq::new(
        2 * pairs.len(),
        |i: int| if i % 2 == 0 {
            "--"@ + pairs[i / 2].0
        } else {
            pairs[i / 2].1
        },
    )
}

/// `l` is the long name (without dashes) of a value-taking option of
/// `schema` that is written `--l` and is no other token the parser knows.
pub open spec fn value_option_name(schema: CommandSchema, l: Seq<char>) -> bool {
    &&& l.len() > 0
    &&& is_ascii_alpha(l[0])
    &&& forall|j: int| 0 <= j < l.len() ==> #[trigger] l[j] != '='
    &&& l != "help"@
    &&& first_index(schema.options@, long_named(l)) matches Some(k) && 0 <= k < schema.options@.len()
        && schema.options@[k].takes_value
}

/// What parsing records for the pairs: each value under its option's
/// lookup key, in command-line order.
pub open spec fn recorded_pairs(schema: CommandSchema, pairs: Seq<(Seq<char>, Seq<char>)>) -> Seq<
    (Seq<char>, Seq<char>),
> {
    pairs.map_values(
        |p: (Seq<char>, Seq<char>)|
            (schema.options@[first_index(schema.options@, long_named(p.0))->0].canonical_spec(), p.1),
    )
}

proof fn lemma_pairs_loop(schema: CommandSchema, pairs: Seq<(Seq<char>, Seq<char>)>, t: int)
    requires
        0 <= t <= pairs.len(),
        schema.subcommands@.len() == 0,
        forall|k: int| 0 <= k < schema.arguments@.len() ==> !(#[trigger] schema.arguments@[k]).required,
        forall|q: int| 0 <= q < pairs.len() ==> value_option_name(schema, #[trigger] pairs[q].0),
    ensures
        parse_loop(
            schema,
            pairs_line(pairs),
            2 * t,
            ParseView { values: recorded_pairs(schema, pairs.take(t)), ..initial_view(schema) },
            0,
            false,
        ) == Ok::<ParseView, ErrorView>(
            ParseView { values: recorded_pairs(schema, pairs), ..initial_view(schema) },
        ),
    decreases pairs.len() - t,
{
    let args = pairs_line(pairs);
    let st = ParseView { values: recorded_pairs(schema, pairs.take(t)), ..initial_view(schema) };
    let i = 2 * t;
    if t == pairs.len() {
        assert(pairs.take(t) =~= pairs);
        assert forall|k: int| 0 <= k < schema.arguments@.len() implies !unbound_required(st.args)(
            #[trigger] schema.arguments@[k],
        ) by {}
        assert(first_index(schema.arguments@, unbound_required(st.args)) is None);
    } else {
        let l = pairs[t].0;
        let x = pairs[t].1;
        assert(i % 2 == 0 && i / 2 == t);
        assert((i + 1) % 2 == 1 && (i + 1) / 2 == t);
        let arg = args[i];
        assert(arg == "--"@ + l);
        assert(args[i + 1] == x);
        reveal_strlit("--");
        reveal_strlit("-h");
        reveal_strlit("--help");
        reveal_strlit("help");
        assert(value_option_name(schema, l));
        assert(arg.len() == l.len() + 2);
        assert(arg[0] == '-' && arg[1] == '-' && arg[2] == l[0]);
        assert(arg != "--"@);
        assert(arg != "-h"@);
        if arg == "--help"@ {
            assert(arg.skip(2) =~= l);
            assert("--help"@.skip(2) =~= "help"@);
        }
        assert(looks_like_option(arg));
        assert(arg.skip(2) =~= l);
        assert forall|j: int| 0 <= j < l.len() implies !eq_sign()(#[trigger] l[j]) by {}
        lemma_first_index(l, eq_sign(), l.len() as int);
        assert(split_eq(l) == (l, None::<Seq<char>>));
        let k = first_index(schema.options@, long_named(l))->0;
        let key = schema.options@[k].canonical_spec();
        let st2 = ParseView { values: st.values.push((key, x)), ..st };
        assert(take_option(schema.options@[k], args, i, None, st) == Ok::<(ParseView, bool), ErrorView>(
            (st2, true),
        ));
        assert(recorded_pairs(schema, pairs.take(t + 1)) =~= recorded_pairs(schema, pairs.take(t)).push(
            (key, x),
        ));
        lemma_pairs_loop(schema, pairs, t + 1);
        assert(2 * (t + 1) == i + 2);
    }
}

/// Law: on a line made of option/value pairs `--l x` for value-taking
/// options (in a schema with no subcommands and no required argument),
/// parsing succeeds and records every value under its option's key, in
/// command-line order. So `raw` (and `get`, `require`, `raw_value`) gives the
/// last value given for an option, and `all_raw` (and `all`) every value in
/// the order given.
pub proof fn lemma_values_in_line_order(schema: CommandSchema, pairs: Seq<(Seq<char>, Seq<char>)>)
    requires
        schema.subcommands@.len() == 0,
        forall|k: int| 0 <= k < schema.arguments@.len() ==> !(#[trigger] schema.arguments@[k]).required,
        forall|q: int| 0 <= q < pairs.len() ==> value_option_name(schema, #[trigger] pairs[q].0),
    ensures
        parse_spec(schema, pairs_line(pairs)) == Ok::<ParseView, ErrorView>(
            ParseView { values: recorded_pairs(schema, pairs), ..initial_view(schema) },
        ),
{
    assert(pairs.take(0) =~= Seq::<(Seq<char>, Seq<char>)>::empty());
    assert(recorded_pairs(schema, pairs.take(0)) =~= Seq::<(Seq<char>, Seq<char>)>::empty());
    assert(ParseView { values: recorded_pairs(schema, pairs.take(0)), ..initial_view(schema) }
        == initial_view(schema));
    lemma_pairs_loop(schema, pairs, 0);
}

} // verus!
