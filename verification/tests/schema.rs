use runi::cli::schema::is_option_prefix;
use runi::cli::{CLOption, CommandSchema};

#[test]
fn splits_both_short_and_long() {
    let opt = CLOption::parse_flag("-v,--verbose", "desc");
    assert_eq!(opt.short.as_deref(), Some("-v"));
    assert_eq!(opt.long.as_deref(), Some("--verbose"));
    assert_eq!(opt.canonical(), "verbose");
}

#[test]
fn splits_long_only() {
    let opt = CLOption::parse_option("--count", "desc");
    assert_eq!(opt.short, None);
    assert_eq!(opt.long.as_deref(), Some("--count"));
    assert!(opt.takes_value);
}

#[test]
fn splits_short_only() {
    let opt = CLOption::parse_flag("-n", "desc");
    assert_eq!(opt.short.as_deref(), Some("-n"));
    assert_eq!(opt.long, None);
    assert_eq!(opt.canonical(), "n");
}

#[test]
fn matches_strip_dashes() {
    let opt = CLOption::parse_flag("-v,--verbose", "desc");
    assert!(opt.matches_long("verbose"));
    assert!(opt.matches_short("v"));
    assert!(!opt.matches_long("v"));
}

#[test]
fn builder_collects_options_and_args() {
    let s = CommandSchema::new("app", "desc")
        .flag("-v,--verbose", "verbose")
        .option("-n,--count", "count")
        .argument("file", "input file")
        .optional_argument("out", "output file");
    assert_eq!(s.options.len(), 2);
    assert_eq!(s.arguments.len(), 2);
    assert!(s.arguments[0].required);
    assert!(!s.arguments[1].required);
}

#[test]
fn prefix_parts_are_trimmed_and_empty_parts_skipped() {
    let opt = CLOption::parse_option(" -o , , --output ", "desc");
    assert_eq!(opt.short.as_deref(), Some("-o"));
    assert_eq!(opt.long.as_deref(), Some("--output"));
    assert_eq!(opt.value_name, "val");
    assert_eq!(opt.canonical(), "output");
}

#[test]
fn later_prefix_parts_win_and_words_are_ignored() {
    let opt = CLOption::parse_flag("-a,-b,word,--first,--second", "");
    assert_eq!(opt.short.as_deref(), Some("-b"));
    assert_eq!(opt.long.as_deref(), Some("--second"));
}

#[test]
fn option_named_sets_placeholder() {
    let s = CommandSchema::new("app", "").option_named("-o,--out", "path", "output");
    assert_eq!(s.options[0].value_name, "path");
    assert!(s.options[0].takes_value);
    assert_eq!(s.options[0].description, "output");
}

#[test]
fn clone_keeps_subcommands() {
    let s = CommandSchema::new("git", "vcs")
        .flag("-v", "")
        .subcommand(CommandSchema::new("init", "start").argument("dir", ""));
    let c = s.clone();
    assert_eq!(c.name, "git");
    assert_eq!(c.subcommands.len(), 1);
    assert_eq!(c.subcommands[0].name, "init");
    assert_eq!(c.subcommands[0].arguments.len(), 1);
}

#[test]
fn prefixes_without_a_dashed_name_are_not_options() {
    assert!(is_option_prefix("-v,--verbose"));
    assert!(is_option_prefix(" --count "));
    assert!(is_option_prefix("-n"));
    assert!(!is_option_prefix(""));
    assert!(!is_option_prefix("verbose"));
    assert!(is_option_prefix("--"));
    assert!(is_option_prefix("-"));
    assert!(!is_option_prefix(" , "));
}

#[test]
fn checked_builders_refuse_prefixes_naming_no_option() {
    assert!(CommandSchema::new("app", "").try_flag("verbose", "").is_none());
    assert!(CommandSchema::new("app", "").try_option("", "").is_none());
    assert!(CommandSchema::new("app", "").try_option_named("x", "N", "").is_none());
    let s = CommandSchema::new("app", "")
        .try_flag("-v,--verbose", "v")
        .and_then(|s| s.try_option_named("-n", "N", "count"))
        .unwrap();
    assert_eq!(s.options.len(), 2);
    assert_eq!(s.options[1].value_name, "N");
    assert!(s.options[1].takes_value);
}
