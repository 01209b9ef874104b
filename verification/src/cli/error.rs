//! Errors produced while parsing command-line arguments.

use vstd::prelude::*;
use crate::text::{owned, append_str};

verus! {

/// Errors produced by the launcher when parsing command-line arguments.
#[derive(Debug)]
pub enum Error {
    UnknownOption(String),
    UnknownSubcommand { name: String, available: Vec<String> },
    MissingValue(String),
    UnexpectedValue(String),
    /// A value that the command marked as required was not given; the name
    /// is dash-prefixed.
    MissingOption(String),
    MissingArgument(String),
    MissingSubcommand { available: Vec<String> },
    ExtraArgument(String),
    InvalidValue { name: String, value: String, message: String },
    /// Sentinel used internally when the user passes `-h`/`--help`.
    HelpRequested,
    /// An error raised while parsing the arguments of a subcommand; `path`
    /// names the subcommands from the outermost one down.
    InSubcommand { path: Vec<String>, source: Box<Error> },
    Custom(String),
}

/// The mathematical content of an [`Error`].
pub enum ErrorView {
    UnknownOption(Seq<char>),
    UnknownSubcommand { name: Seq<char>, available: Seq<Seq<char>> },
    MissingValue(Seq<char>),
    UnexpectedValue(Seq<char>),
    MissingOption(Seq<char>),
    MissingArgument(Seq<char>),
    MissingSubcommand { available: Seq<Seq<char>> },
    ExtraArgument(Seq<char>),
    InvalidValue { name: Seq<char>, value: Seq<char>, message: Seq<char> },
    HelpRequested,
    InSubcommand { path: Seq<Seq<char>>, source: Box<ErrorView> },
    Custom(Seq<char>),
}

/// The characters of each string of `v`.
pub open spec fn strings_view(v: Seq<String>) -> Seq<Seq<char>> {
    v.map_values(|s: String| s@)
}

/// `parts` joined with `sep` between neighbours.
pub open spec fn join(parts: Seq<Seq<char>>, sep: Seq<char>) -> Seq<char>
    decreases parts.len(),
{
    if parts.len() == 0 {
        seq![]
    } else if parts.len() == 1 {
        parts[0]
    } else {
        join(parts.drop_last(), sep) + sep + parts.last()
    }
}

/// The ` (available: a, b)` suffix, empty when nothing is available.
pub open spec fn available_suffix(available: Seq<Seq<char>>) -> Seq<char> {
    if available.len() == 0 {
        seq![]
    } else {
        " (available: "@ + join(available, ", "@) + ")"@
    }
}

impl ErrorView {
    /// The message the error displays.
    pub open spec fn message(self) -> Seq<char>
        decreases self,
    {
        match self {
            ErrorView::UnknownOption(opt) => "unknown option: "@ + opt,
            ErrorView::UnknownSubcommand { name, available } => "unknown subcommand: "@ + name
                + available_suffix(available),
            ErrorView::MissingValue(opt) => "missing value for option: "@ + opt,
            ErrorView::UnexpectedValue(opt) => "option "@ + opt + " does not take a value"@,
            ErrorView::MissingOption(name) => "missing required option: "@ + name,
            ErrorView::MissingArgument(name) => "missing required argument: <"@ + name + ">"@,
            ErrorView::MissingSubcommand { available } => "a subcommand is required"@
                + available_suffix(available),
            ErrorView::ExtraArgument(arg) => "unexpected argument: "@ + arg,
            ErrorView::InvalidValue { name, value, message } => "invalid value '"@ + value
                + "' for "@ + name + ": "@ + message,
            ErrorView::HelpRequested => "help requested"@,
            ErrorView::InSubcommand { path, source } => source.message(),
            ErrorView::Custom(msg) => msg,
        }
    }
}

impl Error {
    pub open spec fn view(&self) -> ErrorView
        decreases self,
    {
        match self {
            Error::UnknownOption(s) => ErrorView::UnknownOption(s@),
            Error::UnknownSubcommand { name, available } => ErrorView::UnknownSubcommand {
                name: name@,
                available: strings_view(available@),
            },
            Error::MissingValue(s) => ErrorView::MissingValue(s@),
            Error::UnexpectedValue(s) => ErrorView::UnexpectedValue(s@),
            Error::MissingOption(s) => ErrorView::MissingOption(s@),
            Error::MissingArgument(s) => ErrorView::MissingArgument(s@),
            Error::MissingSubcommand { available } => ErrorView::MissingSubcommand {
                available: strings_view(available@),
            },
            Error::ExtraArgument(s) => ErrorView::ExtraArgument(s@),
            Error::InvalidValue { name, value, message } => ErrorView::InvalidValue {
                name: name@,
                value: value@,
                message: message@,
            },
            Error::HelpRequested => ErrorView::HelpRequested,
            Error::InSubcommand { path, source } => ErrorView::InSubcommand {
                path: strings_view(path@),
                source: Box::new((**source).view()),
            },
            Error::Custom(s) => ErrorView::Custom(s@),
        }
    }

    /// An `InvalidValue` error.
    pub fn invalid_value(name: &str, value: &str, message: &str) -> (r: Self)
        ensures
            r.view() == (ErrorView::InvalidValue {
                name: name@,
                value: value@,
                message: message@,
            }),
    {
        Error::InvalidValue { name: owned(name), value: owned(value), message: owned(message) }
    }

    /// A `Custom` error carrying `message`.
    pub fn custom(message: &str) -> (r: Self)
        ensures
            r.view() == ErrorView::Custom(message@),
    {
        Error::Custom(owned(message))
    }

    /// The message the error displays (what `Display` prints).
    pub fn message(&self) -> (r: String)
        ensures
            r@ == self.view().message(),
        decreases self,
    {
        match self {
            Error::UnknownOption(opt) => concat2("unknown option: ", opt.as_str()),
            Error::UnknownSubcommand { name, available } => {
                let mut s = concat2("unknown subcommand: ", name.as_str());
                push_available(&mut s, available);
                s
            },
            Error::MissingValue(opt) => concat2("missing value for option: ", opt.as_str()),
            Error::UnexpectedValue(opt) => {
                let mut s = concat2("option ", opt.as_str());
                append_str(&mut s, " does not take a value");
                s
            },
            Error::MissingOption(name) => concat2("missing required option: ", name.as_str()),
            Error::MissingArgument(name) => {
                let mut s = concat2("missing required argument: <", name.as_str());
                append_str(&mut s, ">");
                s
            },
            Error::MissingSubcommand { available } => {
                let mut s = owned("a subcommand is required");
                push_available(&mut s, available);
                s
            },
            Error::ExtraArgument(arg) => concat2("unexpected argument: ", arg.as_str()),
            Error::InvalidValue { name, value, message } => {
                let mut s = concat2("invalid value '", value.as_str());
                append_str(&mut s, "' for ");
                append_str(&mut s, name.as_str());
                append_str(&mut s, ": ");
                append_str(&mut s, message.as_str());
                s
            },
            Error::HelpRequested => owned("help requested"),
            Error::InSubcommand { path, source } => source.message(),
            Error::Custom(msg) => owned(msg.as_str()),
        }
    }
}

fn concat2(a: &str, b: &str) -> (r: String)
    ensures
        r@ == a@ + b@,
{
    let mut s = owned(a);
    append_str(&mut s, b);
    s
}

/// Joins the strings of `parts` with `sep`.
pub fn join_strings(parts: &Vec<String>, sep: &str) -> (r: String)
    ensures
        r@ == join(strings_view(parts@), sep@),
{
    let mut r = String::new();
    let mut i: usize = 0;
    let ghost all = strings_view(parts@);
    while i < parts.len()
        invariant
            i <= parts@.len(),
            all == strings_view(parts@),
            r@ == join(all.take(i as int), sep@),
        decreases parts.len() - i,
    {
        assert(all.take(i + 1).drop_last() =~= all.take(i as int));
        if i > 0 {
            append_str(&mut r, sep);
        }
        append_str(&mut r, parts[i].as_str());
        proof {
            if i == 0 {
                assert(all.take(1) =~= seq![parts@[0]@]);
            }
        }
        i = i + 1;
    }
    assert(all.take(parts@.len() as int) =~= all);
    r
}

fn push_available(s: &mut String, available: &Vec<String>)
    ensures
        final(s)@ == old(s)@ + available_suffix(strings_view(available@)),
{
    if available.len() > 0 {
        append_str(s, " (available: ");
        let joined = join_strings(available, ", ");
        append_str(s, joined.as_str());
        append_str(s, ")");
    } else {
        assert(old(s)@ + seq![] =~= old(s)@);
    }
}

/// Result type of the launcher.
pub type Result<T> = core::result::Result<T, Error>;

} // verus!
