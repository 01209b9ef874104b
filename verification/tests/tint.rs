use runi::cli::Tint;

#[test]
fn basic_colors() {
    let s = Tint::red().paint("error");
    assert!(s.contains("error"));

    let s = Tint::green().paint("success");
    assert!(s.contains("success"));
}

#[test]
fn chained_styles() {
    let s = Tint::red().bold().underline().paint("important");
    assert!(s.contains("important"));
}

#[test]
fn background_colors() {
    let s = Tint::white().bg_red().paint("alert");
    assert!(s.contains("alert"));
}

#[test]
fn ansi256_color() {
    let s = Tint::color(208).paint("orange");
    assert!(s.contains("orange"));
}

#[test]
fn rgb_color() {
    let s = Tint::rgb(255, 128, 0).paint("custom");
    assert!(s.contains("custom"));
}

#[test]
fn style_reuse() {
    let header = Tint::cyan().bold();
    let a = header.paint("Title A");
    let b = header.paint("Title B");
    assert!(a.contains("Title A"));
    assert!(b.contains("Title B"));
}

#[test]
fn red_paint_is_exact_escape_sequence() {
    assert_eq!(Tint::red().paint("x"), "\u{1b}[31mx\u{1b}[0m");
    assert_eq!(Tint::cyan().bold().paint("t"), "\u{1b}[1;36mt\u{1b}[0m");
}

#[test]
fn painted_text_differs_from_plain_text() {
    // A colored paint wraps the text; it never hands the text back unchanged.
    assert_ne!(Tint::green().paint("ok"), "ok");
    assert!(Tint::green().paint("ok").ends_with("\u{1b}[0m"));
}

#[test]
fn style_description_names_color_and_flags() {
    assert_eq!(Tint::red().bold().to_string(), "Style { fg(Red), bold }");
    assert_eq!(Tint::white().bg_blue().to_string(), "Style { fg(White), on(Blue) }");
}
