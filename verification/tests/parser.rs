use runi::cli::{CommandSchema, Error, OptionParser};

fn args(items: &[&str]) -> Vec<String> {
    items.iter().map(|s| s.to_string()).collect()
}

#[test]
fn parses_flag_and_value_option() {
    let schema = CommandSchema::new("app", "")
        .flag("-v,--verbose", "v")
        .option("-n,--count", "n");
    let r = OptionParser::parse(&schema, &args(&["-v", "--count", "3"])).unwrap();
    assert!(r.flag("--verbose"));
    assert!(r.flag("-v"));
    assert_eq!(r.get::<u32>("--count").unwrap(), Some(3));
    assert_eq!(r.get::<u32>("-n").unwrap(), Some(3));
}

#[test]
fn parses_equals_form() {
    let schema = CommandSchema::new("app", "").option("--count", "");
    let r = OptionParser::parse(&schema, &args(&["--count=7"])).unwrap();
    assert_eq!(r.get::<u32>("--count").unwrap(), Some(7));
}

#[test]
fn required_argument_reported_when_missing() {
    let schema = CommandSchema::new("app", "").argument("file", "input");
    let err = OptionParser::parse(&schema, &args(&[])).unwrap_err();
    assert!(matches!(err, Error::MissingArgument(ref n) if n == "file"));
}

#[test]
fn require_on_missing_option_reports_missing_option() {
    let schema = CommandSchema::new("app", "").option("--num", "");
    let r = OptionParser::parse(&schema, &args(&[])).unwrap();
    let err = r.require::<u32>("--num").unwrap_err();
    assert!(matches!(err, Error::MissingOption(ref n) if n == "--num"));
}

#[test]
fn require_on_missing_positional_reports_missing_argument() {
    let schema = CommandSchema::new("app", "").optional_argument("file", "");
    let r = OptionParser::parse(&schema, &args(&[])).unwrap();
    let err = r.require::<String>("file").unwrap_err();
    assert!(matches!(err, Error::MissingArgument(ref n) if n == "file"));
}

#[test]
fn optional_argument_absent_is_ok() {
    let schema = CommandSchema::new("app", "").optional_argument("out", "output");
    let r = OptionParser::parse(&schema, &args(&[])).unwrap();
    assert!(r.get::<String>("out").unwrap().is_none());
}

#[test]
fn repeated_option_captures_all() {
    let schema = CommandSchema::new("app", "").option("-f,--file", "file");
    let r = OptionParser::parse(&schema, &args(&["-f", "a", "--file", "b"])).unwrap();
    assert_eq!(
        r.all::<String>("--file").unwrap(),
        vec!["a".to_string(), "b".to_string()]
    );
}

#[test]
fn dash_dash_treats_remainder_as_positional() {
    let schema = CommandSchema::new("app", "")
        .flag("-v,--verbose", "")
        .argument("first", "")
        .argument("second", "");
    let r = OptionParser::parse(&schema, &args(&["-v", "--", "-x", "-y"])).unwrap();
    assert!(r.flag("-v"));
    assert_eq!(r.require::<String>("first").unwrap(), "-x");
    assert_eq!(r.require::<String>("second").unwrap(), "-y");
}

#[test]
fn help_requested_returns_sentinel() {
    let schema = CommandSchema::new("app", "");
    let err = OptionParser::parse(&schema, &args(&["--help"])).unwrap_err();
    assert!(matches!(err, Error::HelpRequested));
}

#[test]
fn subcommand_dispatch() {
    let sub = CommandSchema::new("clone", "")
        .argument("url", "")
        .option("--depth", "");
    let schema = CommandSchema::new("git", "")
        .flag("-v,--verbose", "")
        .subcommand(sub);
    let r = OptionParser::parse(
        &schema,
        &args(&["-v", "clone", "--depth", "1", "https://x"]),
    )
    .unwrap();
    assert!(r.flag("-v"));
    let (name, sub_r) = r.subcommand().unwrap();
    assert_eq!(name, "clone");
    assert_eq!(sub_r.require::<u32>("--depth").unwrap(), 1);
    assert_eq!(sub_r.require::<String>("url").unwrap(), "https://x");
}

#[test]
fn subcommand_error_carries_context() {
    let sub = CommandSchema::new("clone", "").option("--depth", "");
    let schema = CommandSchema::new("git", "").subcommand(sub);
    // Unknown option inside the subcommand surfaces with path info so the
    // launcher can print the subcommand's help rather than the root's.
    let err = OptionParser::parse(&schema, &args(&["clone", "--bad"])).unwrap_err();
    match err {
        Error::InSubcommand { path, source } => {
            assert_eq!(path, vec!["clone".to_string()]);
            assert!(matches!(*source, Error::UnknownOption(_)));
        }
        other => panic!("unexpected: {other:?}"),
    }
}

#[test]
fn subcommand_help_carries_context() {
    let sub = CommandSchema::new("clone", "").option("--depth", "");
    let schema = CommandSchema::new("git", "").subcommand(sub);
    let err = OptionParser::parse(&schema, &args(&["clone", "--help"])).unwrap_err();
    match err {
        Error::InSubcommand { path, source } => {
            assert_eq!(path, vec!["clone".to_string()]);
            assert!(matches!(*source, Error::HelpRequested));
        }
        other => panic!("unexpected: {other:?}"),
    }
}

#[test]
fn positional_consumed_before_subcommand() {
    let sub = CommandSchema::new("run", "");
    let schema = CommandSchema::new("app", "")
        .argument("workspace", "workspace name")
        .subcommand(sub);
    let r = OptionParser::parse(&schema, &args(&["myws", "run"])).unwrap();
    assert_eq!(r.require::<String>("workspace").unwrap(), "myws");
    let (name, _) = r.subcommand().unwrap();
    assert_eq!(name, "run");
}

#[test]
fn subcommand_wins_over_optional_positional() {
    let sub = CommandSchema::new("run", "");
    let schema = CommandSchema::new("app", "")
        .optional_argument("out", "output")
        .subcommand(sub);
    let r = OptionParser::parse(&schema, &args(&["run"])).unwrap();
    assert!(r.get::<String>("out").unwrap().is_none());
    let (name, _) = r.subcommand().unwrap();
    assert_eq!(name, "run");
}

#[test]
fn optional_positional_consumed_when_not_a_subcommand_name() {
    let sub = CommandSchema::new("run", "");
    let schema = CommandSchema::new("app", "")
        .optional_argument("out", "output")
        .subcommand(sub);
    let r = OptionParser::parse(&schema, &args(&["out.txt", "run"])).unwrap();
    assert_eq!(r.get::<String>("out").unwrap().as_deref(), Some("out.txt"));
    let (name, _) = r.subcommand().unwrap();
    assert_eq!(name, "run");
}

#[test]
fn dash_prefixed_numeric_positional_parses() {
    let schema = CommandSchema::new("app", "").argument("offset", "signed offset");
    let r = OptionParser::parse(&schema, &args(&["-1"])).unwrap();
    assert_eq!(r.require::<i32>("offset").unwrap(), -1);
}

#[test]
fn dash_prefixed_decimal_positional_parses() {
    // The library converts no floating-point values; the positional is bound
    // as raw text, which std then reads as an f64.
    let schema = CommandSchema::new("app", "").argument("n", "number");
    let r = OptionParser::parse(&schema, &args(&["-.5"])).unwrap();
    let raw = r.raw_value("n").unwrap();
    assert!((raw.parse::<f64>().unwrap() + 0.5).abs() < 1e-9);
}

#[test]
fn dash_prefixed_word_still_parsed_as_option() {
    let schema = CommandSchema::new("app", "").argument("x", "");
    let err = OptionParser::parse(&schema, &args(&["--bad"])).unwrap_err();
    assert!(matches!(err, Error::UnknownOption(_)));
}

#[test]
fn dash_dash_forces_positional_even_if_name_matches_subcommand() {
    let sub = CommandSchema::new("run", "");
    let schema = CommandSchema::new("app", "")
        .optional_argument("out", "output")
        .subcommand(sub);
    // After `--`, the token `run` binds to the positional slot rather than
    // dispatching to the `run` subcommand, so a subcommand is still missing.
    let err = OptionParser::parse(&schema, &args(&["--", "run"])).unwrap_err();
    assert!(matches!(err, Error::MissingSubcommand { .. }));
}

#[test]
fn missing_subcommand_reported() {
    let schema = CommandSchema::new("git", "").subcommand(CommandSchema::new("init", ""));
    let err = OptionParser::parse(&schema, &args(&[])).unwrap_err();
    assert!(matches!(err, Error::MissingSubcommand { .. }));
}

#[test]
fn unknown_subcommand_reports_alternatives() {
    let schema = CommandSchema::new("git", "").subcommand(CommandSchema::new("init", ""));
    let err = OptionParser::parse(&schema, &args(&["clone"])).unwrap_err();
    match err {
        Error::UnknownSubcommand { name, available } => {
            assert_eq!(name, "clone");
            assert_eq!(available, vec!["init".to_string()]);
        }
        other => panic!("unexpected error: {other:?}"),
    }
}

#[test]
fn unknown_option_rejected() {
    let schema = CommandSchema::new("app", "");
    let err = OptionParser::parse(&schema, &args(&["--nope"])).unwrap_err();
    assert!(matches!(err, Error::UnknownOption(ref s) if s == "--nope"));
}

#[test]
fn flag_with_inline_value_rejected() {
    let schema = CommandSchema::new("app", "").flag("--verbose", "");
    let err = OptionParser::parse(&schema, &args(&["--verbose=1"])).unwrap_err();
    assert!(matches!(err, Error::UnexpectedValue(_)));
}

#[test]
fn extra_positional_rejected() {
    let schema = CommandSchema::new("app", "").argument("file", "");
    let err = OptionParser::parse(&schema, &args(&["a", "b"])).unwrap_err();
    assert!(matches!(err, Error::ExtraArgument(ref s) if s == "b"));
}

#[test]
fn missing_value_reported_for_trailing_option() {
    let schema = CommandSchema::new("app", "").option("-n,--count", "");
    let err = OptionParser::parse(&schema, &args(&["-n"])).unwrap_err();
    assert!(matches!(err, Error::MissingValue(ref s) if s == "-n"));
}

#[test]
fn invalid_value_names_option_and_text() {
    let schema = CommandSchema::new("app", "").option("-n,--count", "");
    let r = OptionParser::parse(&schema, &args(&["-n", "x7"])).unwrap();
    match r.get::<u32>("--count").unwrap_err() {
        Error::InvalidValue { name, value, message } => {
            assert_eq!(name, "--count");
            assert_eq!(value, "x7");
            assert_eq!(message, "invalid digit found in string");
        }
        other => panic!("unexpected: {other:?}"),
    }
}

#[test]
fn get_returns_last_value_of_repeated_option() {
    let schema = CommandSchema::new("app", "").option("-n,--count", "");
    let r = OptionParser::parse(&schema, &args(&["-n", "1", "--count=2"])).unwrap();
    assert_eq!(r.get::<u32>("-n").unwrap(), Some(2));
    assert_eq!(r.raw_value("count"), Some("2"));
}

#[test]
fn nested_subcommand_error_path_lists_each_level() {
    let leaf = CommandSchema::new("add", "").argument("url", "");
    let mid = CommandSchema::new("remote", "").subcommand(leaf);
    let schema = CommandSchema::new("git", "").subcommand(mid);
    let err = OptionParser::parse(&schema, &args(&["remote", "add"])).unwrap_err();
    match err {
        Error::InSubcommand { path, source } => {
            assert_eq!(path, vec!["remote".to_string(), "add".to_string()]);
            assert!(matches!(*source, Error::MissingArgument(ref n) if n == "url"));
        }
        other => panic!("unexpected: {other:?}"),
    }
}

#[test]
fn short_and_long_names_answer_alike() {
    let schema = CommandSchema::new("app", "")
        .flag("-v,--verbose", "")
        .option("-n,--count", "");
    let args: Vec<String> = ["-v", "-n", "3", "--count", "4"].iter().map(|s| s.to_string()).collect();
    let r = OptionParser::parse(&schema, &args).unwrap();
    assert!(r.flag("-v") && r.flag("--verbose") && r.flag("verbose"));
    assert_eq!(r.get::<u32>("-n").unwrap(), Some(4));
    assert_eq!(r.get::<u32>("--count").unwrap(), Some(4));
    assert_eq!(r.all::<u32>("-n").unwrap(), vec![3, 4]);
    assert_eq!(r.all::<u32>("--count").unwrap(), vec![3, 4]);
}

#[test]
fn last_value_wins_and_all_keeps_line_order() {
    let schema = CommandSchema::new("app", "").option("--count", "").option("--name", "");
    let r = OptionParser::parse(&schema, &args(&["--count", "1", "--name", "a", "--count", "2"])).unwrap();
    assert_eq!(r.raw_value("--count"), Some("2"));
    assert_eq!(r.raw_value("count"), Some("2"));
    assert_eq!(r.all::<u32>("--count").unwrap(), vec![1, 2]);
    assert_eq!(r.all::<String>("--name").unwrap(), vec!["a".to_string()]);
}
