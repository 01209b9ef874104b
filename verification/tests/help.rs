use runi::cli::help::usage_line;
use runi::cli::{CommandSchema, HelpPrinter};

fn no_ansi(s: &str) -> String {
    // Strip simple CSI sequences for readable assertions.
    let bytes = s.as_bytes();
    let mut out = String::with_capacity(s.len());
    let mut i = 0;
    while i < bytes.len() {
        if bytes[i] == 0x1b && i + 1 < bytes.len() && bytes[i + 1] == b'[' {
            i += 2;
            while i < bytes.len() && bytes[i] != b'm' {
                i += 1;
            }
            if i < bytes.len() {
                i += 1;
            }
            continue;
        }
        out.push(bytes[i] as char);
        i += 1;
    }
    out
}

#[test]
fn usage_line_includes_arguments_and_subcommands() {
    let s = CommandSchema::new("app", "")
        .flag("-v,--verbose", "")
        .argument("file", "");
    assert_eq!(usage_line(&s), "app [OPTIONS] <file>");
}

#[test]
fn options_descriptions_are_column_aligned() {
    let s = CommandSchema::new("app", "")
        .flag("-v,--verbose", "Verbose output")
        .option("-n,--count", "Count");
    let out = no_ansi(&HelpPrinter::format(&s));
    let verbose_col = out.find("Verbose output").unwrap();
    let count_col = out.find("Count").unwrap();
    let verbose_line = out[..verbose_col].rfind('\n').map(|i| i + 1).unwrap_or(0);
    let count_line = out[..count_col].rfind('\n').map(|i| i + 1).unwrap_or(0);
    assert_eq!(
        verbose_col - verbose_line,
        count_col - count_line,
        "option descriptions must start in the same column"
    );
}

#[test]
fn usage_line_puts_positionals_before_subcommand() {
    let s = CommandSchema::new("app", "")
        .argument("workspace", "")
        .subcommand(CommandSchema::new("run", ""));
    assert_eq!(usage_line(&s), "app <workspace> <COMMAND>");
}

#[test]
fn help_format_contains_expected_sections() {
    let s = CommandSchema::new("app", "The app")
        .flag("-v,--verbose", "Verbose output")
        .option("-n,--count", "Count")
        .argument("file", "Input file")
        .subcommand(CommandSchema::new("run", "Run it"));
    let out = no_ansi(&HelpPrinter::format(&s));
    assert!(out.contains("The app"));
    assert!(out.contains("Usage:"));
    assert!(out.contains("<file>"));
    assert!(out.contains("Arguments:"));
    assert!(out.contains("Options:"));
    assert!(out.contains("--verbose"));
    assert!(out.contains("--count <val>"));
    assert!(out.contains("Subcommands:"));
    assert!(out.contains("run"));
    assert!(out.contains("-h, --help"));
}

#[test]
fn plain_help_text_is_exact() {
    let s = CommandSchema::new("app", "The app")
        .flag("-v,--verbose", "Verbose output")
        .option("-n,--count", "Count")
        .argument("file", "Input file")
        .optional_argument("out", "")
        .subcommand(CommandSchema::new("run", "Run it"));
    let out = HelpPrinter::format_with_color(&s, false);
    let expected = "The app\n\n\
Usage: app [OPTIONS] <file> [out] <COMMAND>\n\n\
Arguments:\n  <file>    Input file\n  [out]\n\n\
Options:\n  -v, --verbose        Verbose output\n  -n, --count <val>    Count\n  -h, --help           Show this help message\n\n\
Subcommands:\n  run    Run it\n";
    assert_eq!(out, expected);
}

#[test]
fn help_without_description_starts_with_usage() {
    let s = CommandSchema::new("tool", "");
    let out = HelpPrinter::format_with_color(&s, false);
    assert_eq!(out, "Usage: tool\n\nOptions:\n  -h, --help    Show this help message\n");
}

#[test]
fn long_only_option_is_indented_past_short_slot() {
    let s = CommandSchema::new("tool", "").flag("--dry-run", "Do nothing");
    let out = HelpPrinter::format_with_color(&s, false);
    assert!(out.contains("\n      --dry-run    Do nothing\n"));
}

#[test]
fn colored_help_styles_titles_and_strips_to_plain() {
    let s = CommandSchema::new("app", "d")
        .flag("-v,--verbose", "Verbose output")
        .argument("file", "Input file");
    let colored = HelpPrinter::format_with_color(&s, true);
    assert!(colored.contains('\u{1b}'));
    assert_eq!(no_ansi(&colored), HelpPrinter::format_with_color(&s, false));
}

#[test]
fn colored_row_without_description_is_unpadded() {
    let s = CommandSchema::new("app", "").flag("-v,--verbose", "");
    let out = HelpPrinter::format_with_color(&s, true);
    let expected_row = format!("\n  {}\n", runi::cli::Tint::cyan().paint("-v, --verbose"));
    assert!(out.contains(&expected_row));
}
