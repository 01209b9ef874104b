use runi::log::{Level, MessageVisitor, UniFormatter};

fn spans(v: &[(&str, &str)]) -> Vec<(String, String)> {
    v.iter().map(|(a, b)| (a.to_string(), b.to_string())).collect()
}

#[test]
fn plain_line_has_all_parts_in_order() {
    let f = UniFormatter::new(false);
    let line = f.format_line(
        "2024-01-02 03:04:05.678+0000",
        Level::Info,
        "my_crate::server::http",
        &spans(&[("request", "id=7"), ("handler", "")]),
        "server starting",
        "host=\"localhost\", port=8080",
        Some("src/server/http.rs"),
        Some(42),
    );
    assert_eq!(
        line,
        "2024-01-02 03:04:05.678+0000  INFO [http] request{id=7} handler server starting \
host=\"localhost\", port=8080 - (http.rs:42)\n"
    );
}

#[test]
fn levels_are_right_aligned_to_five_columns() {
    let f = UniFormatter::new(false);
    let labels: Vec<String> = [Level::Error, Level::Warn, Level::Info, Level::Debug, Level::Trace]
        .iter()
        .map(|l| f.format_line("t", *l, "x", &vec![], "m", "", None, None))
        .collect();
    assert_eq!(labels[0], "t ERROR [x] m\n");
    assert_eq!(labels[1], "t  WARN [x] m\n");
    assert_eq!(labels[2], "t  INFO [x] m\n");
    assert_eq!(labels[3], "t DEBUG [x] m\n");
    assert_eq!(labels[4], "t TRACE [x] m\n");
}

#[test]
fn source_is_hidden_when_unknown_or_turned_off() {
    let mut f = UniFormatter::new(false);
    assert_eq!(
        f.format_line("t", Level::Warn, "a", &vec![], "m", "", Some("f.rs"), None),
        "t  WARN [a] m\n"
    );
    f.show_source = false;
    assert_eq!(
        f.format_line("t", Level::Warn, "a", &vec![], "m", "", Some("f.rs"), Some(3)),
        "t  WARN [a] m\n"
    );
}

#[test]
fn colored_line_styles_level_and_timestamp() {
    let f = UniFormatter::new(true);
    let line = f.format_line("t", Level::Error, "a::b", &vec![], "boom", "", None, None);
    assert_eq!(
        line,
        "\u{1b}[34mt\u{1b}[0m \u{1b}[31mERROR\u{1b}[0m [\u{1b}[1;37mb\u{1b}[0m] \u{1b}[31mboom\u{1b}[0m\n"
    );
}

#[test]
fn formatter_new_shows_source() {
    let f = UniFormatter::new(true);
    assert!(f.show_source);
    assert!(f.use_color);
    assert!(f.dim().foreground.is_some());
    assert!(UniFormatter::new(false).dim().foreground.is_none());
}

#[test]
fn event_is_stamped_with_local_time() {
    let f = UniFormatter::new(false);
    let mut v = MessageVisitor::new();
    v.record_str("message", "hello");
    let line = f.format_event(Level::Info, "app", &vec![], &v, None, None);
    assert!(line.ends_with("  INFO [app] hello\n"));
    let stamp = &line[..line.len() - "  INFO [app] hello\n".len()];
    assert_eq!(stamp.len(), "2024-01-02 03:04:05.678+0000".len());
    assert_eq!(&stamp[4..5], "-");
    assert_eq!(&stamp[10..11], " ");
}

#[test]
fn visitor_collects_message_and_fields() {
    let mut v = MessageVisitor::new();
    v.record_debug("message", "\"server starting\"");
    v.record_str("host", "localhost");
    v.record_i64("port", -8080);
    v.record_u64("elapsed_ms", 42);
    v.record_bool("ok", true);
    v.record_debug("path", "\"/tmp\"");
    assert_eq!(v.message(), "server starting");
    assert_eq!(
        v.fields(),
        "host=\"localhost\", port=-8080, elapsed_ms=42, ok=true, path=\"/tmp\""
    );
}

#[test]
fn visitor_keeps_unquoted_debug_message() {
    let mut v = MessageVisitor::new();
    v.record_debug("message", "Some(3)");
    assert_eq!(v.message(), "Some(3)");
    v.record_debug("message", "\"\"");
    assert_eq!(v.message(), "");
    assert_eq!(v.fields(), "");
}

#[test]
fn numeric_message_field_is_a_field() {
    let mut v = MessageVisitor::new();
    v.record_u64("message", 5);
    assert_eq!(v.message(), "");
    assert_eq!(v.fields(), "message=5");
}
