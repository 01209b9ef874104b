//! Schemas describing the options, positional arguments and subcommands a
//! command accepts.

use vstd::prelude::*;
use crate::text::{owned, chars_of, string_from_range, str_eq, starts_with, starts_with_exec};
use crate::str_util::{trimmed, str_trim};

verus! {

// ---------------------------------------------------------------------------
// Prefix syntax: "-v,--verbose"
// ---------------------------------------------------------------------------

/// The pieces of `s` between commas, as `str::split(',')` yields them.
pub open spec fn split_commas(s: Seq<char>) -> Seq<Seq<char>>
    decreases s.len(),
{
    if s.len() == 0 {
        seq![seq![]]
    } else {
        let p = split_commas(s.drop_last());
        if s.last() == ',' {
            p.push(seq![])
        } else {
            p.update(p.len() - 1, p.last().push(s.last()))
        }
    }
}

/// The (short, long) names that a list of trimmed prefix parts declares: a
/// part starting with `--` is the long name, one starting with a single `-`
/// the short name; later parts win and other parts are ignored.
pub open spec fn classify_parts(parts: Seq<Seq<char>>) -> (Option<Seq<char>>, Option<Seq<char>>)
    decreases parts.len(),
{
    if parts.len() == 0 {
        (None, None)
    } else {
        let (short, long) = classify_parts(parts.drop_last());
        let t = trimmed(parts.last());
        if t.len() == 0 {
            (short, long)
        } else if starts_with(t, "--"@) {
            (short, Some(t))
        } else if starts_with(t, "-"@) {
            (Some(t), long)
        } else {
            (short, long)
        }
    }
}

/// A trimmed part that declares a long name.
pub open spec fn is_long_part(t: Seq<char>) -> bool {
    t.len() > 0 && starts_with(t, "--"@)
}

/// A trimmed part that declares a short name.
pub open spec fn is_short_part(t: Seq<char>) -> bool {
    t.len() > 0 && !starts_with(t, "--"@) && starts_with(t, "-"@)
}

/// Law: the long name a list of parts declares is the last part, trimmed,
/// that starts with `--`, and there is none when no part does; likewise the
/// short name is the last trimmed part that starts with a single `-`.
pub proof fn lemma_classify_parts_last(parts: Seq<Seq<char>>)
    ensures
        classify_parts(parts).1 matches Some(l) ==> exists|i: int|
            0 <= i < parts.len() && is_long_part(#[trigger] trimmed(parts[i])) && l == trimmed(parts[i])
                && forall|j: int| i < j < parts.len() ==> !is_long_part(#[trigger] trimmed(parts[j])),
        classify_parts(parts).1 is None ==> forall|i: int|
            0 <= i < parts.len() ==> !is_long_part(#[trigger] trimmed(parts[i])),
        classify_parts(parts).0 matches Some(sh) ==> exists|i: int|
            0 <= i < parts.len() && is_short_part(#[trigger] trimmed(parts[i])) && sh == trimmed(parts[i])
                && forall|j: int| i < j < parts.len() ==> !is_short_part(#[trigger] trimmed(parts[j])),
        classify_parts(parts).0 is None ==> forall|i: int|
            0 <= i < parts.len() ==> !is_short_part(#[trigger] trimmed(parts[i])),
    decreases parts.len(),
{
    if parts.len() > 0 {
        let d = parts.drop_last();
        lemma_classify_parts_last(d);
        let n = parts.len() - 1;
        assert forall|j: int| 0 <= j < n implies #[trigger] trimmed(parts[j]) == trimmed(d[j]) by {
            assert(parts[j] == d[j]);
        }
        let t = trimmed(parts.last());
        assert(parts[n] == parts.last());
        if classify_parts(d).1 is Some {
            let l = classify_parts(d).1->0;
            let i = choose|i: int|
                0 <= i < d.len() && is_long_part(#[trigger] trimmed(d[i])) && l == trimmed(d[i])
                    && forall|j: int| i < j < d.len() ==> !is_long_part(#[trigger] trimmed(d[j]));
            assert(trimmed(parts[i]) == trimmed(d[i]));
            if !is_long_part(t) {
                assert forall|j: int| i < j < parts.len() implies !is_long_part(#[trigger] trimmed(parts[j])) by {
                    if j < n {
                        assert(trimmed(parts[j]) == trimmed(d[j]));
                    }
                }
            }
        }
        if classify_parts(d).0 is Some {
            let sh = classify_parts(d).0->0;
            let i = choose|i: int|
                0 <= i < d.len() && is_short_part(#[trigger] trimmed(d[i])) && sh == trimmed(d[i])
                    && forall|j: int| i < j < d.len() ==> !is_short_part(#[trigger] trimmed(d[j]));
            assert(trimmed(parts[i]) == trimmed(d[i]));
            if !is_short_part(t) {
                assert forall|j: int| i < j < parts.len() implies !is_short_part(#[trigger] trimmed(parts[j])) by {
                    if j < n {
                        assert(trimmed(parts[j]) == trimmed(d[j]));
                    }
                }
            }
        }
        if classify_parts(parts).1 is None {
            assert forall|i: int| 0 <= i < parts.len() implies !is_long_part(#[trigger] trimmed(parts[i])) by {
                if i < n {
                    assert(trimmed(parts[i]) == trimmed(d[i]));
                }
            }
        }
        if classify_parts(parts).0 is None {
            assert forall|i: int| 0 <= i < parts.len() implies !is_short_part(#[trigger] trimmed(parts[i])) by {
                if i < n {
                    assert(trimmed(parts[i]) == trimmed(d[i]));
                }
            }
        }
    }
}

/// The (short, long) names declared by a prefix such as `"-v,--verbose"`.
pub open spec fn prefix_names(prefix: Seq<char>) -> (Option<Seq<char>>, Option<Seq<char>>) {
    classify_parts(split_commas(prefix))
}

proof fn lemma_split_nonempty(s: Seq<char>)
    ensures
        split_commas(s).len() >= 1,
    decreases s.len(),
{
    if s.len() > 0 {
        lemma_split_nonempty(s.drop_last());
    }
}

/// Splits a prefix like `"-v,--verbose"` into its short and long names.
pub fn split_prefix(prefix: &str) -> (r: (Option<String>, Option<String>))
    ensures
        opt_view(r.0) == prefix_names(prefix@).0,
        opt_view(r.1) == prefix_names(prefix@).1,
{
    let v = chars_of(prefix);
    let mut short: Option<String> = None;
    let mut long: Option<String> = None;
    let mut start: usize = 0;
    let mut i: usize = 0;
    let ghost mut done: Seq<Seq<char>> = seq![];
    assert(v@.take(0) =~= Seq::<char>::empty());
    assert(v@.subrange(0, 0) =~= Seq::<char>::empty());
    // `done` holds the complete parts before position `start`; the open part
    // is v[start..i].
    while i < v.len()
        invariant
            v@ == prefix@,
            start <= i <= v.len(),
            split_commas(v@.take(i as int)) == done.push(v@.subrange(start as int, i as int)),
            (opt_view(short), opt_view(long)) == classify_parts(done),
        decreases v.len() - i,
    {
        proof {
            assert(v@.take(i + 1).drop_last() =~= v@.take(i as int));
            assert(v@.take(i + 1).last() == v@[i as int]);
        }
        if v[i] == ',' {
            let ghost cur = v@.subrange(start as int, i as int);
            classify_part(&v, start, i, &mut short, &mut long, Ghost(done));
            proof {
                assert(done.push(cur).drop_last() =~= done);
                done = done.push(cur);
                assert(v@.subrange(i + 1, i + 1) =~= Seq::<char>::empty());
            }
            start = i + 1;
        } else {
            proof {
                let cur = v@.subrange(start as int, i as int);
                assert(v@.subrange(start as int, i + 1) =~= cur.push(v@[i as int]));
                assert(done.push(cur).update(done.len() as int, cur.push(v@[i as int]))
                    =~= done.push(cur.push(v@[i as int])));
            }
        }
        i = i + 1;
    }
    proof {
        assert(v@.take(v.len() as int) =~= v@);
        let cur = v@.subrange(start as int, i as int);
        assert(done.push(cur).drop_last() =~= done);
    }
    classify_part(&v, start, i, &mut short, &mut long, Ghost(done));
    (short, long)
}

/// Classifies the part `v[start..end]` of a prefix, updating the names found so far.
fn classify_part(
    v: &Vec<char>,
    start: usize,
    end: usize,
    short: &mut Option<String>,
    long: &mut Option<String>,
    Ghost(done): Ghost<Seq<Seq<char>>>,
)
    requires
        start <= end <= v.len(),
        (opt_view(*old(short)), opt_view(*old(long))) == classify_parts(done),
    ensures
        (opt_view(*final(short)), opt_view(*final(long))) == classify_parts(
            done.push(v@.subrange(start as int, end as int)),
        ),
{
    let ghost parts = done.push(v@.subrange(start as int, end as int));
    assert(parts.drop_last() =~= done);
    let part = string_from_range(v, start, end);
    let t = str_trim(part.as_str());
    if !t.is_empty() {
        let tv = chars_of(t);
        if starts_with_exec(&tv, "--") {
            *long = Some(owned(t));
        } else if starts_with_exec(&tv, "-") {
            *short = Some(owned(t));
        }
    }
}

/// Leading dashes removed.
pub open spec fn strip_dashes(s: Seq<char>) -> Seq<char>
    decreases s.len(),
{
    if s.len() > 0 && s[0] == '-' {
        strip_dashes(s.drop_first())
    } else {
        s
    }
}

/// `s` with its leading dashes removed.
pub fn strip_dashes_exec(s: &str) -> (r: String)
    ensures
        r@ == strip_dashes(s@),
{
    let v = chars_of(s);
    let mut i: usize = 0;
    assert(v@.skip(0) =~= v@);
    while i < v.len() && v[i] == '-'
        invariant
            v@ == s@,
            i <= v.len(),
            strip_dashes(s@) == strip_dashes(v@.skip(i as int)),
        decreases v.len() - i,
    {
        assert(v@.skip(i as int).drop_first() =~= v@.skip(i + 1));
        i = i + 1;
    }
    assert(v@.skip(i as int) =~= v@.subrange(i as int, v.len() as int));
    string_from_range(&v, i, v.len())
}

pub open spec fn opt_view(o: Option<String>) -> Option<Seq<char>> {
    match o {
        Some(s) => Some(s@),
        None => None,
    }
}

// ---------------------------------------------------------------------------
// Options
// ---------------------------------------------------------------------------

/// A single named option (`-v,--verbose`, `--count`, ...).
///
/// Options are described with a comma-separated prefix string such as
/// `"-v,--verbose"`.
#[derive(Debug)]
pub struct CLOption {
    pub short: Option<String>,
    pub long: Option<String>,
    pub description: String,
    /// `true` when the option consumes the next argument as its value,
    /// `false` for boolean flags.
    pub takes_value: bool,
    /// Placeholder shown in help output (e.g. `<val>`). Ignored for flags.
    pub value_name: String,
}

impl Clone for CLOption {
    fn clone(&self) -> (r: Self)
        ensures
            r == *self,
    {
        CLOption {
            short: self.short.clone(),
            long: self.long.clone(),
            description: self.description.clone(),
            takes_value: self.takes_value,
            value_name: self.value_name.clone(),
        }
    }
}

/// A prefix names an option: one of its comma-separated parts starts with
/// `-`, so the option built from it has a short or a long name. Other
/// prefixes are refused when the schema is built.
pub open spec fn names_an_option(prefix: Seq<char>) -> bool {
    prefix_names(prefix).0 is Some || prefix_names(prefix).1 is Some
}

/// `after` is `before` with one more option, declared by `prefix`.
pub open spec fn option_added(
    before: CommandSchema,
    after: CommandSchema,
    prefix: Seq<char>,
    description: Seq<char>,
    takes_value: bool,
    value_name: Seq<char>,
) -> bool {
    let o = after.options@.last();
    &&& after.name == before.name
    &&& after.description == before.description
    &&& after.arguments == before.arguments
    &&& after.subcommands == before.subcommands
    &&& after.options@.len() == before.options@.len() + 1
    &&& after.options@.drop_last() == before.options@
    &&& opt_view(o.short) == prefix_names(prefix).0
    &&& opt_view(o.long) == prefix_names(prefix).1
    &&& o.description@ == description
    &&& o.takes_value == takes_value
    &&& o.value_name@ == value_name
}

/// Whether `prefix` names an option (see `names_an_option`).
pub fn is_option_prefix(prefix: &str) -> (r: bool)
    ensures
        r == names_an_option(prefix@),
{
    let (short, long) = split_prefix(prefix);
    short.is_some() || long.is_some()
}

impl CLOption {
    /// The lookup key of the option: its long name without dashes if it has
    /// one, else its short name without dashes, else empty.
    pub open spec fn canonical_spec(&self) -> Seq<char> {
        match self.long {
            Some(l) => strip_dashes(l@),
            None => match self.short {
                Some(s) => strip_dashes(s@),
                None => seq![],
            },
        }
    }

    pub open spec fn matches_long_spec(&self, name: Seq<char>) -> bool {
        match self.long {
            Some(l) => strip_dashes(l@) == name,
            None => false,
        }
    }

    pub open spec fn matches_short_spec(&self, name: Seq<char>) -> bool {
        match self.short {
            Some(s) => strip_dashes(s@) == name,
            None => false,
        }
    }

    /// Parses a prefix like `"-v,--verbose"` into a boolean flag. A prefix
    /// with no part starting with `-` is refused.
    pub fn parse_flag(prefix: &str, description: &str) -> (r: Self)
        requires
            names_an_option(prefix@),
        ensures
            r.short is Some || r.long is Some,
            opt_view(r.short) == prefix_names(prefix@).0,
            opt_view(r.long) == prefix_names(prefix@).1,
            r.description@ == description@,
            !r.takes_value,
            r.value_name@ == Seq::<char>::empty(),
    {
        let (short, long) = split_prefix(prefix);
        CLOption {
            short,
            long,
            description: owned(description),
            takes_value: false,
            value_name: String::new(),
        }
    }

    /// Like [`CLOption::parse_flag`] but the option consumes the next argument.
    pub fn parse_option(prefix: &str, description: &str) -> (r: Self)
        requires
            names_an_option(prefix@),
        ensures
            r.short is Some || r.long is Some,
            opt_view(r.short) == prefix_names(prefix@).0,
            opt_view(r.long) == prefix_names(prefix@).1,
            r.description@ == description@,
            r.takes_value,
            r.value_name@ == "val"@,
    {
        let (short, long) = split_prefix(prefix);
        CLOption {
            short,
            long,
            description: owned(description),
            takes_value: true,
            value_name: owned("val"),
        }
    }

    /// Canonical lookup key — the long name without dashes if present,
    /// otherwise the short name without dashes.
    pub fn canonical(&self) -> (r: String)
        ensures
            r@ == self.canonical_spec(),
    {
        if let Some(long) = &self.long {
            strip_dashes_exec(long.as_str())
        } else if let Some(short) = &self.short {
            strip_dashes_exec(short.as_str())
        } else {
            String::new()
        }
    }

    /// `true` when the long name, without dashes, is `name`.
    pub fn matches_long(&self, name: &str) -> (r: bool)
        ensures
            r == self.matches_long_spec(name@),
    {
        match &self.long {
            Some(l) => {
                let stripped = strip_dashes_exec(l.as_str());
                str_eq(stripped.as_str(), name)
            },
            None => false,
        }
    }

    /// `true` when the short name, without dashes, is `name`.
    pub fn matches_short(&self, name: &str) -> (r: bool)
        ensures
            r == self.matches_short_spec(name@),
    {
        match &self.short {
            Some(s) => {
                let stripped = strip_dashes_exec(s.as_str());
                str_eq(stripped.as_str(), name)
            },
            None => false,
        }
    }
}

// ---------------------------------------------------------------------------
// Positional arguments
// ---------------------------------------------------------------------------

/// A positional argument (required or optional).
#[derive(Debug)]
pub struct CLArgument {
    pub name: String,
    pub description: String,
    pub required: bool,
}

impl Clone for CLArgument {
    fn clone(&self) -> (r: Self)
        ensures
            r == *self,
    {
        CLArgument {
            name: self.name.clone(),
            description: self.description.clone(),
            required: self.required,
        }
    }
}

impl CLArgument {
    pub fn new(name: &str, description: &str, required: bool) -> (r: Self)
        ensures
            r.name@ == name@,
            r.description@ == description@,
            r.required == required,
    {
        CLArgument { name: owned(name), description: owned(description), required }
    }
}

// ---------------------------------------------------------------------------
// Command schemas
// ---------------------------------------------------------------------------

/// Index of the first element of `s` that satisfies `p`.
pub open spec fn first_index<A>(s: Seq<A>, p: spec_fn(A) -> bool) -> Option<int> {
    if exists|i: int| 0 <= i < s.len() && p(s[i]) {
        Some(
            choose|i: int|
                0 <= i < s.len() && p(s[i]) && forall|j: int| 0 <= j < i ==> !p(#[trigger] s[j]),
        )
    } else {
        None
    }
}

/// What `first_index` finds satisfies the predicate, and no element before it does.
pub proof fn lemma_first_index_found<A>(s: Seq<A>, p: spec_fn(A) -> bool)
    ensures
        first_index(s, p) matches Some(k) ==> 0 <= k < s.len() && p(s[k]) && forall|j: int|
            0 <= j < k ==> !p(#[trigger] s[j]),
{
    if exists|i: int| 0 <= i < s.len() && p(s[i]) {
        let k = choose|i: int|
            0 <= i < s.len() && p(s[i]) && forall|j: int| 0 <= j < i ==> !p(#[trigger] s[j]);
        let w = choose|i: int| 0 <= i < s.len() && p(s[i]);
        lemma_least_witness(s, p, w);
    }
}

/// Some element up to `w` is the first to satisfy `p`, when `s[w]` does.
proof fn lemma_least_witness<A>(s: Seq<A>, p: spec_fn(A) -> bool, w: int)
    requires
        0 <= w < s.len(),
        p(s[w]),
    ensures
        exists|i: int| 0 <= i < s.len() && p(s[i]) && forall|j: int| 0 <= j < i ==> !p(#[trigger] s[j]),
    decreases w,
{
    if exists|j: int| 0 <= j < w && p(s[j]) {
        let j = choose|j: int| 0 <= j < w && p(s[j]);
        lemma_least_witness(s, p, j);
    } else {
        assert(forall|j: int| 0 <= j < w ==> !p(#[trigger] s[j]));
    }
}

/// Characterises `first_index` by the position found.
pub proof fn lemma_first_index<A>(s: Seq<A>, p: spec_fn(A) -> bool, i: int)
    requires
        0 <= i <= s.len(),
        forall|j: int| 0 <= j < i ==> !p(#[trigger] s[j]),
    ensures
        i < s.len() && p(s[i]) ==> first_index(s, p) == Some(i),
        i == s.len() ==> first_index(s, p) is None,
{
    if i < s.len() && p(s[i]) {
        let k = choose|k: int|
            0 <= k < s.len() && p(s[k]) && forall|j: int| 0 <= j < k ==> !p(#[trigger] s[j]);
        assert(0 <= k < s.len() && p(s[k]) && forall|j: int| 0 <= j < k ==> !p(#[trigger] s[j]));
        if k < i {
            assert(!p(s[k]));
        }
        if k > i {
            assert(!p(s[i]));
        }
    }
}

/// Matches an option whose long name, without dashes, is `name`.
pub open spec fn long_named(name: Seq<char>) -> spec_fn(CLOption) -> bool {
    |o: CLOption| o.matches_long_spec(name)
}

/// Matches an option whose short name, without dashes, is `name`.
pub open spec fn short_named(name: Seq<char>) -> spec_fn(CLOption) -> bool {
    |o: CLOption| o.matches_short_spec(name)
}

/// Matches a subcommand schema called `name`.
pub open spec fn sub_named(name: Seq<char>) -> spec_fn(CommandSchema) -> bool {
    |s: CommandSchema| s.name@ == name
}

/// Schema for a command (root or subcommand). Build with the fluent API
/// or construct the struct literally.
#[derive(Debug)]
pub struct CommandSchema {
    pub name: String,
    pub description: String,
    pub options: Vec<CLOption>,
    pub arguments: Vec<CLArgument>,
    pub subcommands: Vec<CommandSchema>,
}

/// `a` and `b` hold the same schema: the same name, description, options
/// and arguments, and subcommands that hold the same schemas in order.
pub open spec fn same_schema(a: CommandSchema, b: CommandSchema) -> bool
    decreases a,
{
    &&& a.name == b.name
    &&& a.description == b.description
    &&& a.options@ == b.options@
    &&& a.arguments@ == b.arguments@
    &&& a.subcommands@.len() == b.subcommands@.len()
    &&& forall|i: int|
        0 <= i < a.subcommands@.len() ==> {
            proof {
                broadcast use vstd::std_specs::vec::axiom_vec_index_decreases;
                assert(decreases_to!(a => a.subcommands@[i]));
            }
            same_schema(#[trigger] a.subcommands@[i], b.subcommands@[i])
        }
}

impl Clone for CommandSchema {
    /// A copy that holds the same schema.
    fn clone(&self) -> (r: Self)
        ensures
            same_schema(*self, r),
            r.name == self.name,
            r.description == self.description,
            r.options@ == self.options@,
            r.arguments@ == self.arguments@,
            r.subcommands@.len() == self.subcommands@.len(),
            forall|i: int| 0 <= i < r.subcommands@.len() ==> #[trigger] r.subcommands@[i].name
                == self.subcommands@[i].name,
        decreases self,
    {
        let mut subcommands: Vec<CommandSchema> = Vec::new();
        let mut i: usize = 0;
        while i < self.subcommands.len()
            invariant
                i <= self.subcommands@.len(),
                subcommands@.len() == i,
                forall|j: int| 0 <= j < i ==> #[trigger] subcommands@[j].name
                    == self.subcommands@[j].name,
                forall|j: int| 0 <= j < i ==> same_schema(self.subcommands@[j], #[trigger] subcommands@[j]),
            decreases self.subcommands.len() - i,
        {
            proof {
                broadcast use vstd::std_specs::vec::axiom_vec_index_decreases;
                assert(decreases_to!(self => self.subcommands@[i as int]));
            }
            let sub = self.subcommands[i].clone();
            subcommands.push(sub);
            i = i + 1;
        }
        let options = self.options.clone();
        let arguments = self.arguments.clone();
        assert(options@ =~= self.options@);
        assert(arguments@ =~= self.arguments@);
        CommandSchema {
            name: self.name.clone(),
            description: self.description.clone(),
            options,
            arguments,
            subcommands,
        }
    }
}

impl CommandSchema {
    pub fn new(name: &str, description: &str) -> (r: Self)
        ensures
            r.name@ == name@,
            r.description@ == description@,
            r.options@.len() == 0,
            r.arguments@.len() == 0,
            r.subcommands@.len() == 0,
    {
        CommandSchema {
            name: owned(name),
            description: owned(description),
            options: Vec::new(),
            arguments: Vec::new(),
            subcommands: Vec::new(),
        }
    }

    /// Adds a boolean flag.
    pub fn flag(self, prefix: &str, description: &str) -> (r: Self)
        requires
            names_an_option(prefix@),
        ensures
            r.options@.last().short is Some || r.options@.last().long is Some,
            r.name == self.name,
            r.description == self.description,
            r.arguments == self.arguments,
            r.subcommands == self.subcommands,
            r.options@.len() == self.options@.len() + 1,
            r.options@.drop_last() == self.options@,
            opt_view(r.options@.last().short) == prefix_names(prefix@).0,
            opt_view(r.options@.last().long) == prefix_names(prefix@).1,
            r.options@.last().description@ == description@,
            !r.options@.last().takes_value,
            r.options@.last().value_name@ == Seq::<char>::empty(),
    {
        let mut s = self;
        s.options.push(CLOption::parse_flag(prefix, description));
        assert(s.options@.drop_last() =~= self.options@);
        s
    }

    /// Adds a value-consuming option.
    pub fn option(self, prefix: &str, description: &str) -> (r: Self)
        requires
            names_an_option(prefix@),
        ensures
            r.options@.last().short is Some || r.options@.last().long is Some,
            r.name == self.name,
            r.description == self.description,
            r.arguments == self.arguments,
            r.subcommands == self.subcommands,
            r.options@.len() == self.options@.len() + 1,
            r.options@.drop_last() == self.options@,
            opt_view(r.options@.last().short) == prefix_names(prefix@).0,
            opt_view(r.options@.last().long) == prefix_names(prefix@).1,
            r.options@.last().description@ == description@,
            r.options@.last().takes_value,
            r.options@.last().value_name@ == "val"@,
    {
        let mut s = self;
        s.options.push(CLOption::parse_option(prefix, description));
        assert(s.options@.drop_last() =~= self.options@);
        s
    }

    /// Adds a value-consuming option with a custom placeholder shown in help.
    pub fn option_named(self, prefix: &str, value_name: &str, description: &str) -> (r: Self)
        requires
            names_an_option(prefix@),
        ensures
            r.options@.last().short is Some || r.options@.last().long is Some,
            r.name == self.name,
            r.description == self.description,
            r.arguments == self.arguments,
            r.subcommands == self.subcommands,
            r.options@.len() == self.options@.len() + 1,
            r.options@.drop_last() == self.options@,
            opt_view(r.options@.last().short) == prefix_names(prefix@).0,
            opt_view(r.options@.last().long) == prefix_names(prefix@).1,
            r.options@.last().description@ == description@,
            r.options@.last().takes_value,
            r.options@.last().value_name@ == value_name@,
    {
        let mut s = self;
        let mut opt = CLOption::parse_option(prefix, description);
        opt.value_name = owned(value_name);
        s.options.push(opt);
        assert(s.options@.drop_last() =~= self.options@);
        s
    }

    /// Adds a boolean flag when `prefix` names an option; `None` when it
    /// does not.
    pub fn try_flag(self, prefix: &str, description: &str) -> (r: Option<Self>)
        ensures
            !names_an_option(prefix@) ==> r is None,
            names_an_option(prefix@) ==> (r matches Some(x) && option_added(
                self,
                x,
                prefix@,
                description@,
                false,
                Seq::<char>::empty(),
            )),
    {
        if is_option_prefix(prefix) {
            Some(self.flag(prefix, description))
        } else {
            None
        }
    }

    /// Adds a value-consuming option when `prefix` names an option; `None`
    /// when it does not.
    pub fn try_option(self, prefix: &str, description: &str) -> (r: Option<Self>)
        ensures
            !names_an_option(prefix@) ==> r is None,
            names_an_option(prefix@) ==> (r matches Some(x) && option_added(
                self,
                x,
                prefix@,
                description@,
                true,
                "val"@,
            )),
    {
        if is_option_prefix(prefix) {
            Some(self.option(prefix, description))
        } else {
            None
        }
    }

    /// Adds a value-consuming option with a custom placeholder when `prefix`
    /// names an option; `None` when it does not.
    pub fn try_option_named(self, prefix: &str, value_name: &str, description: &str) -> (r: Option<
        Self,
    >)
        ensures
            !names_an_option(prefix@) ==> r is None,
            names_an_option(prefix@) ==> (r matches Some(x) && option_added(
                self,
                x,
                prefix@,
                description@,
                true,
                value_name@,
            )),
    {
        if is_option_prefix(prefix) {
            Some(self.option_named(prefix, value_name, description))
        } else {
            None
        }
    }

    /// Adds a required positional argument.
    pub fn argument(self, name: &str, description: &str) -> (r: Self)
        ensures
            r.name == self.name,
            r.description == self.description,
            r.options == self.options,
            r.subcommands == self.subcommands,
            r.arguments@.len() == self.arguments@.len() + 1,
            r.arguments@.drop_last() == self.arguments@,
            r.arguments@.last().name@ == name@,
            r.arguments@.last().description@ == description@,
            r.arguments@.last().required,
    {
        let mut s = self;
        s.arguments.push(CLArgument::new(name, description, true));
        assert(s.arguments@.drop_last() =~= self.arguments@);
        s
    }

    /// Adds an optional positional argument.
    pub fn optional_argument(self, name: &str, description: &str) -> (r: Self)
        ensures
            r.name == self.name,
            r.description == self.description,
            r.options == self.options,
            r.subcommands == self.subcommands,
            r.arguments@.len() == self.arguments@.len() + 1,
            r.arguments@.drop_last() == self.arguments@,
            r.arguments@.last().name@ == name@,
            r.arguments@.last().description@ == description@,
            !r.arguments@.last().required,
    {
        let mut s = self;
        s.arguments.push(CLArgument::new(name, description, false));
        assert(s.arguments@.drop_last() =~= self.arguments@);
        s
    }

    /// Registers a subcommand schema.
    pub fn subcommand(self, schema: CommandSchema) -> (r: Self)
        ensures
            r.name == self.name,
            r.description == self.description,
            r.options == self.options,
            r.arguments == self.arguments,
            r.subcommands@ == self.subcommands@.push(schema),
    {
        let mut s = self;
        s.subcommands.push(schema);
        s
    }

    /// The first option whose long name, without dashes, is `name`.
    pub fn find_option_long(&self, name: &str) -> (r: Option<&CLOption>)
        ensures
            r matches Some(o) ==> first_index(self.options@, long_named(name@))
                matches Some(i) && *o == self.options@[i],
            r is None ==> first_index(self.options@, long_named(name@)) is None,
    {
                let mut i: usize = 0;
        while i < self.options.len()
            invariant
                i <= self.options@.len(),
                forall|j: int| 0 <= j < i ==> !long_named(name@)(#[trigger] self.options@[j]),
            decreases self.options.len() - i,
        {
            if self.options[i].matches_long(name) {
                proof { lemma_first_index(self.options@, long_named(name@), i as int); }
                return Some(&self.options[i]);
            }
            i = i + 1;
        }
        proof { lemma_first_index(self.options@, long_named(name@), i as int); }
        None
    }

    /// The first option whose short name, without dashes, is `name`.
    pub fn find_option_short(&self, name: &str) -> (r: Option<&CLOption>)
        ensures
            r matches Some(o) ==> first_index(self.options@, short_named(name@))
                matches Some(i) && *o == self.options@[i],
            r is None ==> first_index(self.options@, short_named(name@)) is None,
    {
                let mut i: usize = 0;
        while i < self.options.len()
            invariant
                i <= self.options@.len(),
                forall|j: int| 0 <= j < i ==> !short_named(name@)(#[trigger] self.options@[j]),
            decreases self.options.len() - i,
        {
            if self.options[i].matches_short(name) {
                proof { lemma_first_index(self.options@, short_named(name@), i as int); }
                return Some(&self.options[i]);
            }
            i = i + 1;
        }
        proof { lemma_first_index(self.options@, short_named(name@), i as int); }
        None
    }

    /// The first subcommand named `name`.
    pub fn find_subcommand(&self, name: &str) -> (r: Option<&CommandSchema>)
        ensures
            r matches Some(s) ==> first_index(self.subcommands@, sub_named(name@))
                matches Some(i) && *s == self.subcommands@[i],
            r is None ==> first_index(self.subcommands@, sub_named(name@)) is None,
    {
                let mut i: usize = 0;
        while i < self.subcommands.len()
            invariant
                i <= self.subcommands@.len(),
                forall|j: int| 0 <= j < i ==> !sub_named(name@)(#[trigger] self.subcommands@[j]),
            decreases self.subcommands.len() - i,
        {
            if str_eq(self.subcommands[i].name.as_str(), name) {
                proof { lemma_first_index(self.subcommands@, sub_named(name@), i as int); }
                return Some(&self.subcommands[i]);
            }
            i = i + 1;
        }
        proof { lemma_first_index(self.subcommands@, sub_named(name@), i as int); }
        None
    }
}

} // verus!
