//! Command structs and enums with `Command` impls written by hand, field by
//! field, as the layout in `runi::cli::layout` prescribes: the schema from
//! each field's option or argument and its doc comment, `from_parsed`
//! reading each field by its long (else short) option name or its argument
//! name. No derive macro is involved; these tests exercise the launcher,
//! the parser and the schema builders through such impls.
#![allow(dead_code)]

use runi::cli::{
    Command, CommandSchema, Error, Launcher, LauncherWithSubs, OptionParser, ParseResult, Result,
    Runnable, SubCommandOf,
};

fn args(v: &[&str]) -> Vec<String> {
    v.iter().map(|s| s.to_string()).collect()
}

// ---------------------------------------------------------------------------
// Struct — flag, required positional.
// ---------------------------------------------------------------------------

/// Say hello.
#[derive(Debug)]
struct Greeter {
    /// Shout instead of whisper.
    loud: bool,
    /// Who to greet.
    target: String,
}

impl Command for Greeter {
    fn schema() -> CommandSchema {
        let schema = CommandSchema::new("greet", "Say hello.");
        let schema = schema.flag("-l,--loud", "Shout instead of whisper.");
        let schema = schema.argument("target", "Who to greet.");
        schema
    }

    fn from_parsed(p: &ParseResult) -> Result<Self> {
        Ok(Self {
            loud: p.flag("--loud"),
            target: p.require::<String>("target")?,
        })
    }
}

impl Runnable for Greeter {
    fn run(&self) -> Result<()> {
        Ok(())
    }
}

#[test]
fn struct_derive_basic() {
    let schema = <Greeter as Command>::schema();
    assert_eq!(schema.name, "greet");
    assert_eq!(schema.description, "Say hello.");
    let r = OptionParser::parse(&schema, &args(&["--loud", "world"])).unwrap();
    let g = <Greeter as Command>::from_parsed(&r).unwrap();
    assert!(g.loud);
    assert_eq!(g.target, "world");
}

// ---------------------------------------------------------------------------
// Struct — optional and repeatable options.
// ---------------------------------------------------------------------------

struct BuildCmd {
    /// Number of parallel jobs.
    jobs: Option<u32>,
    /// Extra features to enable.
    features: Vec<String>,
    /// Target triple.
    target: String,
}

impl Command for BuildCmd {
    fn schema() -> CommandSchema {
        let schema = CommandSchema::new("build", "Build the project");
        let schema = schema.option("-j,--jobs", "Number of parallel jobs.");
        let schema = schema.option("-F,--feature", "Extra features to enable.");
        let schema = schema.option("--target", "Target triple.");
        schema
    }

    fn from_parsed(p: &ParseResult) -> Result<Self> {
        Ok(Self {
            jobs: p.get::<u32>("--jobs")?,
            features: p.all::<String>("--feature")?,
            target: p.require::<String>("--target")?,
        })
    }
}

impl Runnable for BuildCmd {
    fn run(&self) -> Result<()> {
        Ok(())
    }
}

#[test]
fn struct_derive_optional_and_repeatable() {
    let schema = <BuildCmd as Command>::schema();
    let r = OptionParser::parse(
        &schema,
        &args(&[
            "--jobs",
            "4",
            "-F",
            "alpha",
            "--feature",
            "beta",
            "--target",
            "x86_64-unknown-linux-gnu",
        ]),
    )
    .unwrap();
    let b = <BuildCmd as Command>::from_parsed(&r).unwrap();
    assert_eq!(b.jobs, Some(4));
    assert_eq!(b.features, vec!["alpha".to_string(), "beta".to_string()]);
    assert_eq!(b.target, "x86_64-unknown-linux-gnu");
}

#[test]
fn struct_derive_optional_absent_is_none() {
    let schema = <BuildCmd as Command>::schema();
    let r = OptionParser::parse(&schema, &args(&["--target", "aarch64-apple-darwin"])).unwrap();
    let b = <BuildCmd as Command>::from_parsed(&r).unwrap();
    assert!(b.jobs.is_none());
    assert!(b.features.is_empty());
}

// ---------------------------------------------------------------------------
// Struct — optional positional + typed parsing.
// ---------------------------------------------------------------------------

struct CountCmd {
    /// Starting offset (may be negative).
    offset: i32,
    /// Output path.
    out: Option<std::path::PathBuf>,
}

impl Command for CountCmd {
    fn schema() -> CommandSchema {
        let schema = CommandSchema::new("count", "");
        let schema = schema.argument("offset", "Starting offset (may be negative).");
        let schema = schema.optional_argument("out", "Output path.");
        schema
    }

    fn from_parsed(p: &ParseResult) -> Result<Self> {
        Ok(Self {
            offset: p.require::<i32>("offset")?,
            out: p.get::<std::path::PathBuf>("out")?,
        })
    }
}

#[test]
fn struct_derive_typed_required_and_optional_positional() {
    let schema = <CountCmd as Command>::schema();
    let r = OptionParser::parse(&schema, &args(&["-5", "/tmp/x"])).unwrap();
    let c = <CountCmd as Command>::from_parsed(&r).unwrap();
    assert_eq!(c.offset, -5);
    assert_eq!(c.out.as_deref(), Some(std::path::Path::new("/tmp/x")));

    let r = OptionParser::parse(&schema, &args(&["42"])).unwrap();
    let c = <CountCmd as Command>::from_parsed(&r).unwrap();
    assert_eq!(c.offset, 42);
    assert!(c.out.is_none());
}

// ---------------------------------------------------------------------------
// Struct — inline descriptions on options and arguments.
// ---------------------------------------------------------------------------

struct InlineDesc {
    verbose: bool,
    path: String,
}

impl Command for InlineDesc {
    fn schema() -> CommandSchema {
        let schema = CommandSchema::new("inline", "");
        let schema = schema.flag("-v,--verbose", "inline option description");
        let schema = schema.argument("path", "inline argument description");
        schema
    }

    fn from_parsed(p: &ParseResult) -> Result<Self> {
        Ok(Self {
            verbose: p.flag("--verbose"),
            path: p.require::<String>("path")?,
        })
    }
}

#[test]
fn inline_descriptions_parse() {
    let schema = <InlineDesc as Command>::schema();
    let opt = schema
        .options
        .iter()
        .find(|o| o.matches_long("verbose"))
        .unwrap();
    assert_eq!(opt.description, "inline option description");
    assert_eq!(
        schema.arguments[0].description,
        "inline argument description"
    );
}

// ---------------------------------------------------------------------------
// Struct — description precedence: explicit over doc comment.
// ---------------------------------------------------------------------------

/// Struct-level doc.
struct Described {
    /// field doc — should become description.
    verbose: bool,
}

impl Command for Described {
    fn schema() -> CommandSchema {
        let schema = CommandSchema::new("described", "explicit description wins");
        let schema = schema.flag("-v,--verbose", "field doc — should become description.");
        schema
    }

    fn from_parsed(p: &ParseResult) -> Result<Self> {
        Ok(Self {
            verbose: p.flag("--verbose"),
        })
    }
}

#[test]
fn explicit_description_beats_doc_comment() {
    let schema = <Described as Command>::schema();
    assert_eq!(schema.description, "explicit description wins");
    let opt = schema
        .options
        .iter()
        .find(|o| o.matches_long("verbose"))
        .unwrap();
    assert!(opt.description.contains("field doc"));
}

// ---------------------------------------------------------------------------
// Enum — variant → subcommand registration.
// ---------------------------------------------------------------------------

struct GitApp {
    verbose: bool,
}

impl Command for GitApp {
    fn schema() -> CommandSchema {
        CommandSchema::new("git", "VCS").flag("-v,--verbose", "Verbose")
    }
    fn from_parsed(p: &ParseResult) -> Result<Self> {
        Ok(Self {
            verbose: p.flag("--verbose"),
        })
    }
}

#[derive(Clone)]
struct InitCmd {
    /// Where to initialize.
    dir: Option<String>,
}

impl Command for InitCmd {
    fn schema() -> CommandSchema {
        let schema = CommandSchema::new("InitCmd", "Initialize a repository");
        let schema = schema.optional_argument("dir", "Where to initialize.");
        schema
    }

    fn from_parsed(p: &ParseResult) -> Result<Self> {
        Ok(Self {
            dir: p.get::<String>("dir")?,
        })
    }
}

impl SubCommandOf<GitApp> for InitCmd {
    fn run(&self, _g: &GitApp) -> Result<()> {
        Ok(())
    }
}

#[derive(Clone)]
struct CloneCmd {
    /// Repository URL.
    url: String,
    /// Clone depth.
    depth: Option<u32>,
}

impl Command for CloneCmd {
    fn schema() -> CommandSchema {
        let schema = CommandSchema::new("CloneCmd", "Clone a repository");
        let schema = schema.argument("url", "Repository URL.");
        let schema = schema.option("--depth", "Clone depth.");
        schema
    }

    fn from_parsed(p: &ParseResult) -> Result<Self> {
        Ok(Self {
            url: p.require::<String>("url")?,
            depth: p.get::<u32>("--depth")?,
        })
    }
}

impl SubCommandOf<GitApp> for CloneCmd {
    fn run(&self, _g: &GitApp) -> Result<()> {
        Ok(())
    }
}

enum GitSub {
    /// Initialize a repository.
    Init(InitCmd),
    /// Clone a repository.
    Clone(CloneCmd),
}

impl GitSub {
    /// Registers each variant as a subcommand, named by the lowercased
    /// variant and described by the variant's doc comment.
    pub fn register_on<G>(launcher: Launcher<G>) -> LauncherWithSubs<G>
    where
        G: Command + 'static,
        InitCmd: Command + SubCommandOf<G> + 'static,
        CloneCmd: Command + SubCommandOf<G> + 'static,
    {
        launcher
            .command_with_description::<InitCmd>("init", "Initialize a repository.")
            .command_with_description::<CloneCmd>("clone", "Clone a repository.")
    }
}

#[test]
fn enum_derive_register_on_launcher() {
    let launcher = GitSub::register_on(Launcher::<GitApp>::of());
    launcher
        .run_args(&args(&["-v", "clone", "--depth", "1", "https://x"]))
        .unwrap();
}

#[test]
fn enum_variant_doc_becomes_subcommand_description() {
    let launcher = GitSub::register_on(Launcher::<GitApp>::of());
    let schema = launcher.schema();
    let init = schema
        .subcommands
        .iter()
        .find(|s| s.name == "init")
        .unwrap();
    let clone = schema
        .subcommands
        .iter()
        .find(|s| s.name == "clone")
        .unwrap();
    assert_eq!(init.description, "Initialize a repository.");
    assert_eq!(clone.description, "Clone a repository.");
}

#[test]
fn command_with_description_overrides_inner_schema_description() {
    let launcher =
        Launcher::<GitApp>::of().command_with_description::<CloneCmd>("clone", "override!");
    let schema = launcher.schema();
    let clone = schema
        .subcommands
        .iter()
        .find(|s| s.name == "clone")
        .unwrap();
    assert_eq!(clone.description, "override!");
}

#[test]
fn enum_derive_default_name_is_lowercase_variant() {
    let launcher = GitSub::register_on(Launcher::<GitApp>::of());
    launcher.run_args(&args(&["init"])).unwrap();
}

// ---------------------------------------------------------------------------
// Parity: a field-by-field impl matches a chained one.
// ---------------------------------------------------------------------------

struct GreeterManual {
    loud: bool,
    target: String,
}

impl Command for GreeterManual {
    fn schema() -> CommandSchema {
        CommandSchema::new("greet", "Say hello.")
            .flag("-l,--loud", "Shout instead of whisper.")
            .argument("target", "Who to greet.")
    }
    fn from_parsed(p: &ParseResult) -> Result<Self> {
        Ok(Self {
            loud: p.flag("--loud"),
            target: p.require::<String>("target")?,
        })
    }
}

#[test]
fn derive_and_manual_schemas_match() {
    let derived = <Greeter as Command>::schema();
    let manual = <GreeterManual as Command>::schema();
    assert_eq!(derived.name, manual.name);
    assert_eq!(derived.description, manual.description);
    assert_eq!(derived.options.len(), manual.options.len());
    assert_eq!(derived.arguments.len(), manual.arguments.len());
    for (a, b) in derived.options.iter().zip(manual.options.iter()) {
        assert_eq!(a.short, b.short);
        assert_eq!(a.long, b.long);
        assert_eq!(a.description, b.description);
        assert_eq!(a.takes_value, b.takes_value);
    }
    for (a, b) in derived.arguments.iter().zip(manual.arguments.iter()) {
        assert_eq!(a.name, b.name);
        assert_eq!(a.description, b.description);
        assert_eq!(a.required, b.required);
    }
}

// ---------------------------------------------------------------------------
// Error paths through the field-by-field impls.
// ---------------------------------------------------------------------------

#[test]
fn derived_missing_required_reports_error() {
    let launcher = Launcher::<Greeter>::of();
    let err = launcher.parse(&args(&["--loud"])).unwrap_err();
    assert!(matches!(err, Error::MissingArgument(ref n) if n == "target"));
}

// ---------------------------------------------------------------------------
// Unit struct: schema with no options/arguments.
// ---------------------------------------------------------------------------

/// Just respond that the server is alive.
struct Ping;

impl Command for Ping {
    fn schema() -> CommandSchema {
        CommandSchema::new("ping", "Just respond that the server is alive.")
    }

    fn from_parsed(_p: &ParseResult) -> Result<Self> {
        Ok(Self {})
    }
}

impl Runnable for Ping {
    fn run(&self) -> Result<()> {
        Ok(())
    }
}

#[test]
fn unit_struct_derive() {
    let schema = <Ping as Command>::schema();
    assert_eq!(schema.name, "ping");
    assert!(schema.options.is_empty());
    assert!(schema.arguments.is_empty());
    let parsed = OptionParser::parse(&schema, &args(&[])).unwrap();
    let _: Ping = <Ping as Command>::from_parsed(&parsed).unwrap();
}
