//! Launchers: parse the command line against a command's schema, build the
//! command, and dispatch to subcommands.

use std::marker::PhantomData;
use vstd::prelude::*;
use crate::text::{owned, str_eq};
use super::error::{Error, ErrorView, Result, strings_view};
use super::parser::{
    names_of, finalize_spec, initial_view, unbound_required,
    OptionParser, ParseResult, ParseView, parse_spec, parse_from, parse_loop, bind_positional,
    take_option, looks_like_option, split_eq, in_subcommand,
};
use super::schema::{
    CommandSchema, first_index, lemma_first_index, lemma_first_index_found, sub_named, long_named,
    short_named,
};

verus! {

/// A command (root or subcommand) that knows how to produce its argument
/// schema and how to construct itself from a [`ParseResult`].
pub trait Command: Sized {
    fn schema() -> CommandSchema;

    fn from_parsed(parsed: &ParseResult) -> Result<Self>;
}

/// A root command that can be run standalone.
pub trait Runnable {
    fn run(&self) -> Result<()>;
}

/// A subcommand run in the context of its parent's (global options) `G`.
pub trait SubCommandOf<G>: Sized {
    fn run(&self, global: &G) -> Result<()>;
}

/// What running the subcommand `S` on its parse result `parsed` with the
/// globals `global` may give: `S` is built by `S::from_parsed(parsed)`; its
/// error is handed back as it is, else the result is what running it with
/// `global` gives.
pub open spec fn sub_outcome<G, S: Command + SubCommandOf<G>>(
    global: G,
    parsed: ParseResult,
    r: Result<()>,
) -> bool {
    exists|built: Result<S>|
        call_ensures(S::from_parsed, (&parsed,), built) && match built {
            Err(e) => r == Err::<(), Error>(e),
            Ok(sub) => call_ensures(<S as SubCommandOf<G>>::run, (&sub, &global), r),
        }
}

/// Builds a registered subcommand from its own parse result and runs it with
/// the parent's globals.
trait SubRunner<G> {
    /// What `run_sub` may give for `global` and `parsed`.
    spec fn runs(&self, global: G, parsed: ParseResult, r: Result<()>) -> bool;

    fn run_sub(&self, global: &G, parsed: &ParseResult) -> (r: Result<()>)
        ensures
            self.runs(*global, *parsed, r),
    ;
}

struct Dispatch<S> {
    marker: PhantomData<S>,
}

impl<G, S: Command + SubCommandOf<G>> SubRunner<G> for Dispatch<S> {
    spec fn runs(&self, global: G, parsed: ParseResult, r: Result<()>) -> bool {
        sub_outcome::<G, S>(global, parsed, r)
    }

    /// Builds `S` from `parsed`: its error is handed back as it is, else the
    /// result is what running `S` with `global` gives.
    fn run_sub(&self, global: &G, parsed: &ParseResult) -> (r: Result<()>) {
        match S::from_parsed(parsed) {
            Ok(sub) => sub.run(global),
            Err(e) => Err(e),
        }
    }
}

#[verifier::reject_recursive_types(G)]
struct Entry<G> {
    name: String,
    runner: Box<dyn SubRunner<G>>,
}

/// The entry that runs `S` under `name`.
fn make_entry<G: 'static, S: Command + SubCommandOf<G> + 'static>(name: &str) -> (e: Entry<G>)
    ensures
        e.name@ == name@,
        forall|g: G, p: ParseResult, res: Result<()>|
            #[trigger] e.runner.runs(g, p, res) == sub_outcome::<G, S>(g, p, res),
{
    Entry { name: owned(name), runner: Box::new(Dispatch::<S> { marker: PhantomData }) }
}

spec fn entry_names<G>(subs: Seq<Entry<G>>) -> Seq<Seq<char>> {
    subs.map_values(|e: Entry<G>| e.name@)
}

// ---------------------------------------------------------------------------
// What a launcher decides
// ---------------------------------------------------------------------------

/// `parse_spec` of `args` against `schema`, then the command built from the
/// result: a parse error is handed back as it is, else the result is what
/// `G::from_parsed` gives for the parse result.
pub open spec fn parsed_as<G: Command>(schema: CommandSchema, args: Seq<Seq<char>>, r: Result<G>) -> bool {
    match parse_spec(schema, args) {
        Err(e) => r matches Err(x) && x.view() == e,
        Ok(v) => exists|p: ParseResult| p.view() == v && call_ensures(G::from_parsed, (&p,), r),
    }
}

pub open spec fn name_is(n: Seq<char>) -> spec_fn(Seq<char>) -> bool {
    |m: Seq<char>| m == n
}

/// Which registered subcommand (by position in `names`) a parse result
/// selects, or the error reported when it selects none.
pub open spec fn dispatch_spec(names: Seq<Seq<char>>, v: ParseView) -> core::result::Result<int, ErrorView> {
    match v.subcommand {
        None => Err(ErrorView::MissingSubcommand { available: names }),
        Some((n, _)) => match first_index(names, name_is(n)) {
            Some(i) => Ok(i),
            None => Err(ErrorView::UnknownSubcommand { name: n, available: names }),
        },
    }
}

/// The schema reached from `root` by following the subcommand names of
/// `path`, each matched against the first subcommand of that name.
pub open spec fn resolve_spec(root: CommandSchema, path: Seq<Seq<char>>) -> Option<CommandSchema>
    decreases path.len(),
{
    if path.len() == 0 {
        Some(root)
    } else {
        match first_index(root.subcommands@, sub_named(path[0])) {
            Some(k) => resolve_spec(root.subcommands@[k], path.skip(1)),
            None => None,
        }
    }
}

/// What a launcher's caller is to do once the arguments are handled.
pub struct ExitView {
    pub code: int,
    pub message: Option<Seq<char>>,
    pub help: Option<CommandSchema>,
}

/// The exit for a parse error against `root`: help (`-h`, `--help`) exits 0
/// with the help of the command it was asked of; any other error is printed
/// with that command's help and exits 2. An error inside a subcommand shows
/// the subcommand's help (the root's, if its path leads nowhere).
pub open spec fn report_spec(e: ErrorView, root: CommandSchema) -> ExitView {
    match e {
        ErrorView::HelpRequested => ExitView { code: 0, message: None, help: Some(root) },
        ErrorView::InSubcommand { path, source } => {
            let target = match resolve_spec(root, path) {
                Some(s) => s,
                None => root,
            };
            if *source == ErrorView::HelpRequested {
                ExitView { code: 0, message: None, help: Some(target) }
            } else {
                ExitView { code: 2, message: Some(source.message()), help: Some(target) }
            }
        },
        other => ExitView { code: 2, message: Some(other.message()), help: Some(root) },
    }
}

/// The exit for a command that failed to build or to run: the error is
/// printed, without help, and the exit code is 1.
pub open spec fn failure_exit(e: ErrorView) -> ExitView {
    ExitView { code: 1, message: Some(e.message()), help: None }
}

/// The exit for what running a command gave: 0 on success.
pub open spec fn run_exit(res: Result<()>) -> ExitView {
    match res {
        Ok(()) => ExitView { code: 0, message: None, help: None },
        Err(e) => failure_exit(e.view()),
    }
}

/// What to do on exit: the process exit code, the error line to print (after
/// `error: `) and the help to show.
pub struct Exit<'a> {
    pub code: i32,
    pub message: Option<String>,
    pub help: Option<&'a CommandSchema>,
}

impl<'a> Exit<'a> {
    pub open spec fn view(&self) -> ExitView {
        ExitView {
            code: self.code as int,
            message: match &self.message {
                Some(m) => Some(m@),
                None => None,
            },
            help: match self.help {
                Some(h) => Some(*h),
                None => None,
            },
        }
    }
}

/// The schema reached from `root` by following the subcommand names `path`.
pub fn resolve_schema<'a>(root: &'a CommandSchema, path: &[String]) -> (r: Option<&'a CommandSchema>)
    ensures
        match resolve_spec(*root, strings_view(path@)) {
            Some(s) => r matches Some(x) && *x == s,
            None => r is None,
        },
{
    let ghost pv = strings_view(path@);
    let mut schema = root;
    let mut i: usize = 0;
    assert(pv.skip(0) =~= pv);
    while i < path.len()
        invariant
            i <= path@.len(),
            pv == strings_view(path@),
            resolve_spec(*root, pv) == resolve_spec(*schema, pv.skip(i as int)),
        decreases path.len() - i,
    {
        assert(pv.skip(i as int)[0] == path@[i as int]@);
        assert(pv.skip(i as int).skip(1) =~= pv.skip(i + 1));
        match schema.find_subcommand(path[i].as_str()) {
            Some(s) => {
                schema = s;
            },
            None => {
                return None;
            },
        }
        i = i + 1;
    }
    assert(pv.skip(path@.len() as int) =~= Seq::<Seq<char>>::empty());
    Some(schema)
}

/// The exit for the parse error `err` against `root`.
pub fn report_error<'a>(err: &Error, root: &'a CommandSchema) -> (r: Exit<'a>)
    ensures
        r.view() == report_spec(err.view(), *root),
{
    match err {
        Error::HelpRequested => Exit { code: 0, message: None, help: Some(root) },
        Error::InSubcommand { path, source } => {
            let target = match resolve_schema(root, path.as_slice()) {
                Some(s) => s,
                None => root,
            };
            match &**source {
                Error::HelpRequested => Exit { code: 0, message: None, help: Some(target) },
                inner => {
                    let r = Exit { code: 2, message: Some(inner.message()), help: Some(target) };
                    assert(r.view() == report_spec(err.view(), *root));
                    r
                },
            }
        },
        other => {
            let r = Exit { code: 2, message: Some(other.message()), help: Some(root) };
            assert(r.view() == report_spec(err.view(), *root));
            r
        },
    }
}

// ---------------------------------------------------------------------------
// Launchers
// ---------------------------------------------------------------------------

/// `after` is `before` with one more subcommand: `sub` registered under
/// `name`, with `description` in place of its own when one is given.
pub open spec fn registered(
    before: CommandSchema,
    after: CommandSchema,
    name: Seq<char>,
    description: Option<Seq<char>>,
    sub: CommandSchema,
) -> bool {
    let added = after.subcommands@.last();
    &&& after.name == before.name
    &&& after.description == before.description
    &&& after.options == before.options
    &&& after.arguments == before.arguments
    &&& after.subcommands@.len() == before.subcommands@.len() + 1
    &&& after.subcommands@.drop_last() == before.subcommands@
    &&& added.name@ == name
    &&& match description {
        Some(d) => added.description@ == d,
        None => added.description == sub.description,
    }
    &&& added.options == sub.options
    &&& added.arguments == sub.arguments
    &&& added.subcommands == sub.subcommands
}

/// Launcher before any subcommand has been registered. Registering one with
/// [`Launcher::command`] turns it into a [`LauncherWithSubs`].
pub struct Launcher<G: Command> {
    marker: PhantomData<G>,
}

impl<G: Command + 'static> Launcher<G> {
    pub fn of() -> Self {
        Launcher { marker: PhantomData }
    }

    /// Registers the first subcommand, under `name`.
    pub fn command<S: Command + SubCommandOf<G> + 'static>(self, name: &str) -> (r: LauncherWithSubs<G>)
        ensures
            r.names() == seq![name@],
            forall|g: G, p: ParseResult, res: Result<()>|
                #[trigger] r.runs_entry(0, g, p, res) == sub_outcome::<G, S>(g, p, res),
            lists_names(r.combined(), r.names()),
            exists|root: CommandSchema, sub: CommandSchema|
                call_ensures(G::schema, (), root) && call_ensures(S::schema, (), sub) && registered(
                    root,
                    r.combined(),
                    name@,
                    None,
                    sub,
                ),
    {
        LauncherWithSubs::<G>::new().command::<S>(name)
    }

    /// Registers the first subcommand, under `name`, shown with
    /// `description` in place of its own.
    pub fn command_with_description<S: Command + SubCommandOf<G> + 'static>(
        self,
        name: &str,
        description: &str,
    ) -> (r: LauncherWithSubs<G>)
        ensures
            r.names() == seq![name@],
            forall|g: G, p: ParseResult, res: Result<()>|
                #[trigger] r.runs_entry(0, g, p, res) == sub_outcome::<G, S>(g, p, res),
            lists_names(r.combined(), r.names()),
            exists|root: CommandSchema, sub: CommandSchema|
                call_ensures(G::schema, (), root) && call_ensures(S::schema, (), sub) && registered(
                    root,
                    r.combined(),
                    name@,
                    Some(description@),
                    sub,
                ),
    {
        LauncherWithSubs::<G>::new().command_with_description::<S>(name, description)
    }

    /// Parses `args` into a `G` without running it.
    pub fn parse(&self, args: &[String]) -> (r: Result<G>)
        ensures
            exists|schema: CommandSchema|
                call_ensures(G::schema, (), schema) && parsed_as::<G>(schema, strings_view(args@), r),
    {
        let schema = G::schema();
        Self::parse_against(&schema, args)
    }

    /// Parses `args` against `schema` and builds a `G` from the result.
    pub fn parse_against(schema: &CommandSchema, args: &[String]) -> (r: Result<G>)
        ensures
            parsed_as::<G>(*schema, strings_view(args@), r),
    {
        match OptionParser::parse(schema, args) {
            Ok(parsed) => G::from_parsed(&parsed),
            Err(e) => Err(e),
        }
    }

    /// What running the root command on `args` comes to: a parse error is
    /// reported against `schema`; otherwise `G` is built and run, and a
    /// failure of either is printed and exits 1.
    pub fn run_with<'a>(&self, schema: &'a CommandSchema, args: &[String]) -> (r: Exit<'a>)
        where G: Runnable,
        ensures
            match parse_spec(*schema, strings_view(args@)) {
                Err(e) => r.view() == report_spec(e, *schema),
                Ok(v) => exists|p: ParseResult, g: Result<G>|
                    p.view() == v && call_ensures(G::from_parsed, (&p,), g) && match g {
                        Err(e) => r.view() == failure_exit(e.view()),
                        Ok(x) => exists|res: Result<()>|
                            call_ensures(<G as Runnable>::run, (&x,), res) && r.view() == run_exit(res),
                    },
            },
    {
        match OptionParser::parse(schema, args) {
            Err(e) => report_error(&e, schema),
            Ok(parsed) => {
                let built = G::from_parsed(&parsed);
                match built {
                    Ok(g) => {
                        let res = g.run();
                        let r = match res {
                            Ok(()) => Exit { code: 0, message: None, help: None },
                            Err(e) => Exit { code: 1, message: Some(e.message()), help: None },
                        };
                        assert(r.view() == run_exit(res));
                        r
                    },
                    Err(e) => {
                        let r = Exit { code: 1, message: Some(e.message()), help: None };
                        assert(r.view() == failure_exit(e.view()));
                        r
                    },
                }
            },
        }
    }
}

/// `names` are the names of the last subcommands of `schema`, in order.
pub open spec fn lists_names(schema: CommandSchema, names: Seq<Seq<char>>) -> bool {
    let subs = schema.subcommands@;
    &&& names.len() <= subs.len()
    &&& forall|j: int|
        0 <= j < names.len() ==> #[trigger] subs[subs.len() - names.len() + j].name@ == names[j]
}

/// Launcher that already has at least one subcommand registered.
#[verifier::reject_recursive_types(G)]
pub struct LauncherWithSubs<G: Command> {
    schema: CommandSchema,
    subs: Vec<Entry<G>>,
}

impl<G: Command + 'static> LauncherWithSubs<G> {
    /// The registered subcommands are the last subcommands of the combined
    /// schema, in order and under their registered names.
    #[verifier::type_invariant]
    spec fn names_listed(self) -> bool {
        lists_names(self.schema, entry_names(self.subs@))
    }

    /// The root schema with the registered subcommands appended.
    pub closed spec fn combined(&self) -> CommandSchema {
        self.schema
    }

    /// The names of the registered subcommands, in registration order.
    pub closed spec fn names(&self) -> Seq<Seq<char>> {
        entry_names(self.subs@)
    }

    /// What running the `i`-th registered subcommand on its parse result
    /// `parsed` with the globals `global` may give.
    pub closed spec fn runs_entry(&self, i: int, global: G, parsed: ParseResult, r: Result<()>) -> bool {
        self.subs@[i].runner.runs(global, parsed, r)
    }

    /// `self` runs the subcommands of `before` as `before` does, and runs `S`
    /// as the one registered after them.
    pub open spec fn runs_after<S: Command + SubCommandOf<G>>(&self, before: Self) -> bool {
        &&& forall|j: int, g: G, p: ParseResult, res: Result<()>|
            0 <= j < before.names().len() ==> #[trigger] self.runs_entry(j, g, p, res)
                == before.runs_entry(j, g, p, res)
        &&& forall|g: G, p: ParseResult, res: Result<()>|
            #[trigger] self.runs_entry(before.names().len() as int, g, p, res) == sub_outcome::<G, S>(
                g,
                p,
                res,
            )
    }

    /// What `run_args` may return for `args`: a parse error as it is; else
    /// the error of building `G`; else the error of selecting the
    /// subcommand; else what the selected subcommand's run gives on its own
    /// parse result and the globals.
    pub open spec fn run_outcome(&self, args: Seq<Seq<char>>, r: Result<()>) -> bool {
        match parse_spec(self.combined(), args) {
            Err(e) => r matches Err(x) && x.view() == e,
            Ok(v) => exists|p: ParseResult, g: Result<G>|
                p.view() == v && call_ensures(G::from_parsed, (&p,), g) && match g {
                    Err(e) => r == Err::<(), Error>(e),
                    Ok(global) => match dispatch_spec(self.names(), v) {
                        Err(e) => r matches Err(x) && x.view() == e,
                        Ok(i) => exists|sp: ParseResult|
                            v.subcommand == Some((self.names()[i], Box::new(sp.view())))
                                && #[trigger] self.runs_entry(i, global, sp, r),
                    },
                },
        }
    }

    /// A launcher with no subcommand yet, over `G`'s own schema.
    pub fn new() -> (r: Self)
        ensures
            r.names() == Seq::<Seq<char>>::empty(),
            call_ensures(G::schema, (), r.combined()),
    {
        let r = LauncherWithSubs { schema: G::schema(), subs: Vec::new() };
        assert(r.names() =~= Seq::<Seq<char>>::empty());
        r
    }

    fn register<S: Command + SubCommandOf<G> + 'static>(
        self,
        name: &str,
        description: Option<&str>,
    ) -> (r: Self)
        ensures
            r.names() == self.names().push(name@),
            r.runs_after::<S>(self),
            lists_names(r.combined(), r.names()),
            exists|sub: CommandSchema|
                call_ensures(S::schema, (), sub) && registered(
                    self.combined(),
                    r.combined(),
                    name@,
                    match description {
                        Some(d) => Some(d@),
                        None => None,
                    },
                    sub,
                ),
    {
        proof {
            use_type_invariant(&self);
        }
        let LauncherWithSubs { mut schema, mut subs } = self;
        let ghost before = schema;
        let ghost old_subs = subs@;
        let sub = S::schema();
        let ghost sub0 = sub;
        let mut sub = sub;
        sub.name = owned(name);
        match description {
            Some(d) => {
                sub.description = owned(d);
            },
            None => {},
        }
        schema.subcommands.push(sub);
        assert(schema.subcommands@.drop_last() =~= before.subcommands@);
        let e = make_entry::<G, S>(name);
        subs.push(e);
        assert(entry_names(subs@) =~= entry_names(old_subs).push(name@));
        proof {
            let n = entry_names(subs@);
            let ss = schema.subcommands@;
            assert forall|j: int| 0 <= j < n.len() implies #[trigger] ss[ss.len() - n.len() + j].name@
                == n[j] by {
                if j < n.len() - 1 {
                    assert(ss[ss.len() - n.len() + j] == before.subcommands@[before.subcommands@.len()
                        - entry_names(old_subs).len() + j]);
                }
            }
        }
        let r = LauncherWithSubs { schema, subs };
        proof {
            use_type_invariant(&r);
        }
        r
    }

    /// Registers a subcommand under `name`. `S` parses its own arguments
    /// and runs with the parsed globals.
    pub fn command<S: Command + SubCommandOf<G> + 'static>(self, name: &str) -> (r: Self)
        ensures
            r.names() == self.names().push(name@),
            r.runs_after::<S>(self),
            lists_names(r.combined(), r.names()),
            exists|sub: CommandSchema|
                call_ensures(S::schema, (), sub) && registered(self.combined(), r.combined(), name@, None, sub),
    {
        self.register::<S>(name, None)
    }

    /// Registers a subcommand under `name`, shown with `description` in place
    /// of its own.
    pub fn command_with_description<S: Command + SubCommandOf<G> + 'static>(
        self,
        name: &str,
        description: &str,
    ) -> (r: Self)
        ensures
            r.names() == self.names().push(name@),
            r.runs_after::<S>(self),
            lists_names(r.combined(), r.names()),
            exists|sub: CommandSchema|
                call_ensures(S::schema, (), sub) && registered(
                    self.combined(),
                    r.combined(),
                    name@,
                    Some(description@),
                    sub,
                ),
    {
        self.register::<S>(name, Some(description))
    }

    /// The root schema with every registered subcommand.
    pub fn schema(&self) -> (r: &CommandSchema)
        ensures
            *r == self.combined(),
            lists_names(*r, self.names()),
    {
        proof {
            use_type_invariant(self);
        }
        &self.schema
    }

    /// The names of the registered subcommands.
    fn available(&self) -> (r: Vec<String>)
        ensures
            strings_view(r@) == self.names(),
    {
        let mut available: Vec<String> = Vec::new();
        let mut i: usize = 0;
        while i < self.subs.len()
            invariant
                i <= self.subs@.len(),
                strings_view(available@) == entry_names(self.subs@).take(i as int),
            decreases self.subs.len() - i,
        {
            let ghost before = available@;
            let n = self.subs[i].name.clone();
            available.push(n);
            assert(strings_view(available@) =~= strings_view(before).push(n@));
            assert(entry_names(self.subs@).take(i + 1) =~= entry_names(self.subs@).take(i as int).push(
                self.subs@[i as int].name@,
            ));
            i = i + 1;
        }
        assert(entry_names(self.subs@).take(i as int) =~= entry_names(self.subs@));
        available
    }

    /// Position of the first registered subcommand called `name`.
    fn position(&self, name: &str) -> (r: Option<usize>)
        ensures
            match first_index(self.names(), name_is(name@)) {
                Some(i) => r matches Some(k) && k == i && i < self.subs@.len() && self.names()[i] == name@,
                None => r is None,
            },
    {
        let ghost names = entry_names(self.subs@);
        let mut k: usize = 0;
        while k < self.subs.len()
            invariant
                k <= self.subs@.len(),
                names == entry_names(self.subs@),
                forall|j: int| 0 <= j < k ==> names[j] != name@,
            decreases self.subs.len() - k,
        {
            if str_eq(self.subs[k].name.as_str(), name) {
                proof {
                    assert forall|j: int| 0 <= j < k implies !name_is(name@)(#[trigger] names[j]) by {}
                    lemma_first_index(names, name_is(name@), k as int);
                }
                return Some(k);
            }
            k = k + 1;
        }
        proof {
            assert forall|j: int| 0 <= j < k implies !name_is(name@)(#[trigger] names[j]) by {}
            lemma_first_index(names, name_is(name@), k as int);
        }
        None
    }

    /// The registered subcommand that a parse result selects, with the
    /// subcommand's own parse result.
    #[verifier::rlimit(40)]
    fn select<'p>(&self, parsed: &'p ParseResult) -> (r: Result<(usize, &'p ParseResult)>)
        ensures
            match dispatch_spec(self.names(), parsed.view()) {
                Ok(i) => r matches Ok((j, p)) && j == i && i < self.subs@.len()
                    && parsed.view().subcommand == Some((self.names()[i], Box::new(p.view()))),
                Err(e) => r matches Err(x) && x.view() == e,
            },
    {
        match parsed.subcommand() {
            None => Err(Error::MissingSubcommand { available: self.available() }),
            Some((name, sub)) => {
                assert(parsed.view().subcommand == Some((name@, Box::new(sub.view()))));
                match self.position(name) {
                    Some(k) => {
                        let r: Result<(usize, &'p ParseResult)> = Ok((k, sub));
                        assert(dispatch_spec(self.names(), parsed.view()) == Ok::<int, ErrorView>(k as int));
                        r
                    },
                    None => {
                        let r: Result<(usize, &'p ParseResult)> = Err(
                            Error::UnknownSubcommand { name: owned(name), available: self.available() },
                        );
                        assert(dispatch_spec(self.names(), parsed.view()) == Err::<int, ErrorView>(
                            ErrorView::UnknownSubcommand { name: name@, available: self.names() },
                        ));
                        r
                    },
                }
            },
        }
    }

    /// Parses `args` against the combined schema, builds the globals `G`,
    /// and runs the selected subcommand with them.
    pub fn run_args(&self, args: &[String]) -> (r: Result<()>)
        ensures
            self.run_outcome(strings_view(args@), r),
    {
        let parsed = match OptionParser::parse(&self.schema, args) {
            Ok(p) => p,
            Err(e) => {
                return Err(e);
            },
        };
        let built = G::from_parsed(&parsed);
        let ghost v = parsed.view();
        let global = match built {
            Ok(g) => g,
            Err(e) => {
                return Err(e);
            },
        };
        match self.select(&parsed) {
            Ok((i, sub)) => {
                let r = self.subs[i].runner.run_sub(&global, sub);
                assert(self.runs_entry(i as int, global, *sub, r));
                assert(v.subcommand == Some((self.names()[i as int], Box::new(sub.view()))));
                r
            },
            Err(e) => Err(e),
        }
    }

    /// What running `args` comes to: exit 0 on success, else the report of
    /// the error against the combined schema.
    pub fn run_with(&self, args: &[String]) -> (r: Exit<'_>)
        ensures
            exists|res: Result<()>|
                self.run_outcome(strings_view(args@), res) && match res {
                    Ok(()) => r.view() == (ExitView { code: 0, message: None, help: None }),
                    Err(e) => r.view() == report_spec(e.view(), self.combined()),
                },
    {
        match self.run_args(args) {
            Ok(()) => Exit { code: 0, message: None, help: None },
            Err(e) => report_error(&e, &self.schema),
        }
    }
}

// ---------------------------------------------------------------------------
// Error paths
// ---------------------------------------------------------------------------

/// An error inside a subcommand names a path that leads from `schema` to
/// that subcommand.
pub open spec fn path_resolves(schema: CommandSchema, e: ErrorView) -> bool {
    e matches ErrorView::InSubcommand { path, .. } ==> resolve_spec(schema, path) is Some
}

#[verifier::spinoff_prover]
proof fn lemma_nested_path(schema: CommandSchema, k: int, e: ErrorView)
    requires
        0 <= k < schema.subcommands@.len(),
        first_index(schema.subcommands@, sub_named(schema.subcommands@[k].name@)) == Some(k),
        path_resolves(schema.subcommands@[k], e),
    ensures
        path_resolves(schema, in_subcommand(schema.subcommands@[k].name@, e)),
{
    let sub = schema.subcommands@[k];
    match e {
        ErrorView::InSubcommand { path, source } => {
            let full = seq![sub.name@] + path;
            assert(full[0] == sub.name@);
            assert(full.skip(1) =~= path);
            assert(resolve_spec(schema, full) == resolve_spec(sub, path));
            assert(in_subcommand(sub.name@, e) == ErrorView::InSubcommand { path: full, source });
        },
        _ => {
            let full = seq![sub.name@];
            assert(full.skip(1) =~= Seq::<Seq<char>>::empty());
            assert(resolve_spec(sub, Seq::<Seq<char>>::empty()) == Some(sub));
            assert(resolve_spec(schema, full) == resolve_spec(sub, full.skip(1)));
        },
    }
}

proof fn lemma_loop_paths(
    schema: CommandSchema,
    args: Seq<Seq<char>>,
    i: int,
    st: ParseView,
    pos: int,
    dd: bool,
)
    ensures
        parse_loop(schema, args, i, st, pos, dd) matches Err(e) ==> path_resolves(schema, e),
    decreases args.len() - i, 0int,
{
    if 0 <= i < args.len() {
        let arg = args[i];
        if dd {
            if let Ok(st2) = bind_positional(st, schema, pos, arg) {
                lemma_loop_paths(schema, args, i + 1, st2, pos + 1, dd);
            }
        } else if arg == "--"@ {
            lemma_loop_paths(schema, args, i + 1, st, pos, true);
        } else if arg == "-h"@ || arg == "--help"@ {
        } else if looks_like_option(arg) {
            let long = arg[1] == '-';
            let (name, inline) = if long {
                split_eq(arg.skip(2))
            } else {
                (arg.skip(1), None)
            };
            let found = if long {
                first_index(schema.options@, long_named(name))
            } else {
                first_index(schema.options@, short_named(name))
            };
            if let Some(k) = found {
                if let Ok((st2, took_next)) = take_option(schema.options@[k], args, i, inline, st) {
                    if took_next {
                        lemma_loop_paths(schema, args, i + 2, st2, pos, dd);
                    } else {
                        lemma_loop_paths(schema, args, i + 1, st2, pos, dd);
                    }
                }
            }
        } else {
            let has_next = 0 <= pos < schema.arguments@.len();
            if has_next && schema.arguments@[pos].required {
                if let Ok(st2) = bind_positional(st, schema, pos, arg) {
                    lemma_loop_paths(schema, args, i + 1, st2, pos + 1, dd);
                }
            } else if first_index(schema.subcommands@, sub_named(arg)) is Some {
                let k = first_index(schema.subcommands@, sub_named(arg))->0;
                let sub = schema.subcommands@[k];
                lemma_first_index_found(schema.subcommands@, sub_named(arg));
                lemma_from_paths(sub, args, i + 1);
                if let Err(e) = parse_from(sub, args, i + 1) {
                    assert(sub_named(arg)(sub));
                    assert(sub_named(sub.name@) == sub_named(arg));
                    lemma_nested_path(schema, k, e);
                }
            } else if has_next {
                if let Ok(st2) = bind_positional(st, schema, pos, arg) {
                    lemma_loop_paths(schema, args, i + 1, st2, pos + 1, dd);
                }
            }
        }
    }
}

proof fn lemma_from_paths(schema: CommandSchema, args: Seq<Seq<char>>, start: int)
    ensures
        parse_from(schema, args, start) matches Err(e) ==> path_resolves(schema, e),
    decreases args.len() - start, 1int,
{
    lemma_loop_paths(schema, args, start, super::parser::initial_view(schema), 0, false);
}

/// Law: an error that parsing reports from inside a subcommand names a path
/// of subcommands that exists in the schema, so the help shown for it is
/// that subcommand's.
pub proof fn lemma_error_paths_resolve(schema: CommandSchema, args: Seq<Seq<char>>)
    ensures
        parse_spec(schema, args) matches Err(e) ==> path_resolves(schema, e),
{
    lemma_from_paths(schema, args, 0);
}

/// Law: when parsing fails inside a subcommand, the exit shows that
/// subcommand's help, never the root's in its place; asking for help inside
/// a subcommand exits 0, any other error there exits 2 with its message.
pub proof fn lemma_subcommand_errors_show_subcommand_help(root: CommandSchema, args: Seq<Seq<char>>)
    ensures
        parse_spec(root, args) matches Err(ErrorView::InSubcommand { path, source }) ==> {
            let exit = report_spec(ErrorView::InSubcommand { path, source }, root);
            &&& resolve_spec(root, path) is Some
            &&& exit.help == resolve_spec(root, path)
            &&& exit.code == if *source == ErrorView::HelpRequested {
                0int
            } else {
                2int
            }
        },
{
    lemma_error_paths_resolve(root, args);
}

// ---------------------------------------------------------------------------
// Launchers over their registrations
// ---------------------------------------------------------------------------

proof fn lemma_listed_names<G: Command + 'static>(l: LauncherWithSubs<G>)
    requires
        lists_names(l.combined(), l.names()),
        l.combined().subcommands@.len() == l.names().len(),
    ensures
        names_of(l.combined().subcommands@) == l.names(),
{
    let subs = l.combined().subcommands@;
    assert forall|j: int| 0 <= j < subs.len() implies #[trigger] names_of(subs)[j] == l.names()[j] by {
        assert(subs[subs.len() - l.names().len() + j].name@ == l.names()[j]);
    }
    assert(names_of(subs) =~= l.names());
}

/// Law: when the root command declares no subcommand and no required
/// argument of its own, running the launcher with no arguments reports
/// that a subcommand is missing, listing every registered name in
/// registration order.
pub proof fn lemma_run_without_arguments<G: Command + 'static>(l: LauncherWithSubs<G>, r: Result<()>)
    requires
        lists_names(l.combined(), l.names()),
        l.combined().subcommands@.len() == l.names().len(),
        l.names().len() > 0,
        forall|k: int| 0 <= k < l.combined().arguments@.len() ==> !(#[trigger] l.combined().arguments@[k]).required,
        l.run_outcome(Seq::<Seq<char>>::empty(), r),
    ensures
        r matches Err(e) && e.view() == (ErrorView::MissingSubcommand { available: l.names() }),
{
    let c = l.combined();
    lemma_listed_names(l);
    let st = initial_view(c);
    assert forall|k: int| 0 <= k < c.arguments@.len() implies !unbound_required(st.args)(
        #[trigger] c.arguments@[k],
    ) by {}
    assert(first_index(c.arguments@, unbound_required(st.args)) is None);
    assert(finalize_spec(st, c) == Err::<ParseView, ErrorView>(
        ErrorView::MissingSubcommand { available: names_of(c.subcommands@) },
    ));
    assert(parse_spec(c, Seq::<Seq<char>>::empty()) == finalize_spec(st, c));
}

/// Law: when the root command declares no subcommand and no argument of its
/// own, running the launcher on a single word that is not a registered name
/// (and does not start with `-`) reports it as an unknown subcommand,
/// listing every registered name in registration order.
pub proof fn lemma_run_unknown_name<G: Command + 'static>(l: LauncherWithSubs<G>, m: Seq<char>, r: Result<()>)
    requires
        lists_names(l.combined(), l.names()),
        l.combined().subcommands@.len() == l.names().len(),
        l.names().len() > 0,
        l.combined().arguments@.len() == 0,
        m.len() == 0 || m[0] != '-',
        !l.names().contains(m),
        l.run_outcome(seq![m], r),
    ensures
        r matches Err(e) && e.view() == (ErrorView::UnknownSubcommand { name: m, available: l.names() }),
{
    let c = l.combined();
    lemma_listed_names(l);
    reveal_strlit("--");
    reveal_strlit("-h");
    reveal_strlit("--help");
    let args = seq![m];
    assert(args[0] == m);
    assert(m != "--"@ && m != "-h"@ && m != "--help"@);
    assert forall|k: int| 0 <= k < c.subcommands@.len() implies !sub_named(m)(#[trigger] c.subcommands@[k]) by {
        assert(names_of(c.subcommands@)[k] == c.subcommands@[k].name@);
        if c.subcommands@[k].name@ == m {
            assert(l.names()[k] == m);
        }
    }
    assert(first_index(c.subcommands@, sub_named(m)) is None);
}

} // verus!
