use runi::cli::dispatch::{report_error, resolve_schema};
use runi::cli::{
    Command, CommandSchema, Error, Launcher, OptionParser, ParseResult, Result, Runnable, SubCommandOf,
};
use std::sync::Mutex;

// ----- Root-only command ---------------------------------------------

struct Greeter {
    loud: bool,
    target: String,
}

impl Command for Greeter {
    fn schema() -> CommandSchema {
        CommandSchema::new("greet", "Say hello")
            .flag("-l,--loud", "Shout")
            .argument("target", "Who to greet")
    }

    fn from_parsed(p: &ParseResult) -> Result<Self> {
        Ok(Self {
            loud: p.flag("--loud"),
            target: p.require::<String>("target")?,
        })
    }
}

impl Runnable for Greeter {
    fn run(&self) -> Result<()> {
        Ok(())
    }
}

#[test]
fn root_command_parse() {
    let launcher = Launcher::<Greeter>::of();
    let g = launcher.parse(&["-l".into(), "world".into()]).unwrap();
    assert!(g.loud);
    assert_eq!(g.target, "world");
}

// ----- Subcommand mode -----------------------------------------------

struct GitApp {
    verbose: bool,
}

impl Command for GitApp {
    fn schema() -> CommandSchema {
        CommandSchema::new("git", "VCS").flag("-v,--verbose", "Verbose")
    }

    fn from_parsed(p: &ParseResult) -> Result<Self> {
        Ok(Self {
            verbose: p.flag("--verbose"),
        })
    }
}

#[derive(Clone)]
struct CloneCmd {
    url: String,
    depth: Option<u32>,
}

impl Command for CloneCmd {
    fn schema() -> CommandSchema {
        CommandSchema::new("clone", "Clone a repo")
            .option("--depth", "Clone depth")
            .argument("url", "Repository URL")
    }

    fn from_parsed(p: &ParseResult) -> Result<Self> {
        Ok(Self {
            url: p.require::<String>("url")?,
            depth: p.get::<u32>("--depth")?,
        })
    }
}

static CAPTURE: Mutex<Vec<String>> = Mutex::new(Vec::new());

impl SubCommandOf<GitApp> for CloneCmd {
    fn run(&self, global: &GitApp) -> Result<()> {
        CAPTURE.lock().unwrap().push(format!(
            "clone verbose={} url={} depth={:?}",
            global.verbose, self.url, self.depth
        ));
        Ok(())
    }
}

#[test]
fn dispatch_subcommand_with_globals() {
    CAPTURE.lock().unwrap().clear();
    let launcher = Launcher::<GitApp>::of().command::<CloneCmd>("clone");
    launcher
        .run_args(&[
            "-v".into(),
            "clone".into(),
            "--depth".into(),
            "1".into(),
            "https://example.com".into(),
        ])
        .unwrap();
    let captured = CAPTURE.lock().unwrap();
    assert_eq!(captured.len(), 1);
    assert_eq!(
        captured[0],
        "clone verbose=true url=https://example.com depth=Some(1)"
    );
}

#[test]
fn missing_subcommand_error() {
    let launcher = Launcher::<GitApp>::of().command::<CloneCmd>("clone");
    let err = launcher.run_args(&[]).unwrap_err();
    assert!(matches!(err, Error::MissingSubcommand { .. }));
}

#[test]
fn help_requested_error_propagates() {
    let launcher = Launcher::<GitApp>::of().command::<CloneCmd>("clone");
    let err = launcher.run_args(&["--help".into()]).unwrap_err();
    assert!(matches!(err, Error::HelpRequested));
}

#[test]
fn subcommand_rejects_unknown_name() {
    let launcher = Launcher::<GitApp>::of().command::<CloneCmd>("clone");
    let err = launcher.run_args(&["nope".into()]).unwrap_err();
    match err {
        Error::UnknownSubcommand { name, .. } => assert_eq!(name, "nope"),
        other => panic!("unexpected: {other:?}"),
    }
}

#[derive(Debug, Clone)]
struct NeedsInt {
    n: u32,
}

impl Command for NeedsInt {
    fn schema() -> CommandSchema {
        CommandSchema::new("n", "").option("-n,--num", "a number")
    }

    fn from_parsed(p: &ParseResult) -> Result<Self> {
        Ok(Self {
            n: p.require::<u32>("--num")?,
        })
    }
}

impl Runnable for NeedsInt {
    fn run(&self) -> Result<()> {
        let _ = self.n;
        Ok(())
    }
}

#[test]
fn invalid_value_error_is_informative() {
    let launcher = Launcher::<NeedsInt>::of();
    let err = launcher.parse(&["--num".into(), "abc".into()]).unwrap_err();
    match err {
        Error::InvalidValue { name, value, .. } => {
            assert_eq!(name, "--num");
            assert_eq!(value, "abc");
        }
        other => panic!("unexpected: {other:?}"),
    }
}

// ----- Exits and help selection ---------------------------------------

fn strings(v: &[&str]) -> Vec<String> {
    v.iter().map(|s| s.to_string()).collect()
}

#[test]
fn root_help_exits_zero_with_root_help() {
    let schema = Greeter::schema();
    let exit = Launcher::<Greeter>::of().run_with(&schema, &strings(&["--help"]));
    assert_eq!(exit.code, 0);
    assert!(exit.message.is_none());
    assert_eq!(exit.help.unwrap().name, "greet");
}

#[test]
fn root_parse_error_exits_two_with_message() {
    let schema = Greeter::schema();
    let exit = Launcher::<Greeter>::of().run_with(&schema, &strings(&["--nope"]));
    assert_eq!(exit.code, 2);
    assert_eq!(exit.message.as_deref(), Some("unknown option: --nope"));
    assert_eq!(exit.help.unwrap().name, "greet");
}

#[test]
fn root_success_exits_zero_without_help() {
    let schema = Greeter::schema();
    let exit = Launcher::<Greeter>::of().run_with(&schema, &strings(&["world"]));
    assert_eq!(exit.code, 0);
    assert!(exit.message.is_none());
    assert!(exit.help.is_none());
}

struct Failing;

impl Command for Failing {
    fn schema() -> CommandSchema {
        CommandSchema::new("fail", "")
    }
    fn from_parsed(_p: &ParseResult) -> Result<Self> {
        Ok(Failing)
    }
}

impl Runnable for Failing {
    fn run(&self) -> Result<()> {
        Err(Error::custom("it broke"))
    }
}

#[test]
fn root_run_failure_exits_one() {
    let schema = Failing::schema();
    let exit = Launcher::<Failing>::of().run_with(&schema, &strings(&[]));
    assert_eq!(exit.code, 1);
    assert_eq!(exit.message.as_deref(), Some("it broke"));
    assert!(exit.help.is_none());
}

#[test]
fn subcommand_error_shows_subcommand_help() {
    let launcher = Launcher::<GitApp>::of().command::<CloneCmd>("clone");
    let exit = launcher.run_with(&strings(&["clone"]));
    assert_eq!(exit.code, 2);
    assert_eq!(exit.message.as_deref(), Some("missing required argument: <url>"));
    assert_eq!(exit.help.unwrap().name, "clone");
}

#[test]
fn subcommand_help_exits_zero_with_subcommand_help() {
    let launcher = Launcher::<GitApp>::of().command::<CloneCmd>("clone");
    let exit = launcher.run_with(&strings(&["clone", "-h"]));
    assert_eq!(exit.code, 0);
    assert!(exit.message.is_none());
    assert_eq!(exit.help.unwrap().name, "clone");
}

#[test]
fn combined_schema_lists_registered_subcommands() {
    let launcher = Launcher::<GitApp>::of()
        .command::<CloneCmd>("clone")
        .command_with_description::<NeedsSub>("init", "Make one");
    let schema = launcher.schema();
    assert_eq!(schema.name, "git");
    let names: Vec<&str> = schema.subcommands.iter().map(|s| s.name.as_str()).collect();
    assert_eq!(names, vec!["clone", "init"]);
    assert_eq!(schema.subcommands[1].description, "Make one");
    assert_eq!(schema.subcommands[0].description, "Clone a repo");
}

struct NeedsSub;

impl Command for NeedsSub {
    fn schema() -> CommandSchema {
        CommandSchema::new("whatever", "Own description")
    }
    fn from_parsed(_p: &ParseResult) -> Result<Self> {
        Ok(NeedsSub)
    }
}

impl SubCommandOf<GitApp> for NeedsSub {
    fn run(&self, _g: &GitApp) -> Result<()> {
        Err(Error::custom("init ran"))
    }
}

#[test]
fn second_subcommand_is_dispatched_by_name() {
    let launcher = Launcher::<GitApp>::of()
        .command::<CloneCmd>("clone")
        .command::<NeedsSub>("init");
    let err = launcher.run_args(&strings(&["init"])).unwrap_err();
    assert!(matches!(err, Error::Custom(ref m) if m == "init ran"));
}

#[test]
fn resolve_schema_walks_nested_names() {
    let root = CommandSchema::new("app", "")
        .subcommand(CommandSchema::new("db", "").subcommand(CommandSchema::new("migrate", "")));
    let found = resolve_schema(&root, &strings(&["db", "migrate"])).unwrap();
    assert_eq!(found.name, "migrate");
    assert!(resolve_schema(&root, &strings(&["db", "nope"])).is_none());
    assert_eq!(resolve_schema(&root, &[]).unwrap().name, "app");
}

#[test]
fn report_error_for_unresolvable_path_falls_back_to_root() {
    let root = CommandSchema::new("app", "");
    let err = Error::InSubcommand {
        path: strings(&["ghost"]),
        source: Box::new(Error::MissingArgument("x".to_string())),
    };
    let exit = report_error(&err, &root);
    assert_eq!(exit.code, 2);
    assert_eq!(exit.help.unwrap().name, "app");
    let parsed = OptionParser::parse(&root, &strings(&["-h"])).unwrap_err();
    assert_eq!(report_error(&parsed, &root).code, 0);
}
