//! Chainable ANSI styling for terminal text, rendered by `nu_ansi_term`.

use vstd::prelude::*;
use nu_ansi_term::Color as A;

verus! {

/// A terminal color.
#[derive(Clone, Copy, Debug, PartialEq, Eq, Structural)]
pub enum TextColor {
    Black,
    Red,
    Green,
    Yellow,
    Blue,
    Purple,
    Cyan,
    White,
    LightRed,
    LightGreen,
    LightYellow,
    LightBlue,
    LightPurple,
    LightCyan,
    /// One of the 256 ANSI colors.
    Fixed(u8),
    /// A 24-bit color.
    Rgb(u8, u8, u8),
}

/// The properties of a text style.
#[derive(Clone, Copy, Debug, PartialEq, Eq, Structural)]
pub struct TextStyle {
    pub foreground: Option<TextColor>,
    pub background: Option<TextColor>,
    pub is_bold: bool,
    pub is_dimmed: bool,
    pub is_italic: bool,
    pub is_underline: bool,
    pub is_strikethrough: bool,
}

/// The style with no property set.
pub open spec fn plain_style() -> TextStyle {
    TextStyle {
        foreground: None,
        background: None,
        is_bold: false,
        is_dimmed: false,
        is_italic: false,
        is_underline: false,
        is_strikethrough: false,
    }
}

/// The style with foreground `c` and nothing else.
pub open spec fn fg_style(c: TextColor) -> TextStyle {
    TextStyle { foreground: Some(c), ..plain_style() }
}

/// The escape sequence that `nu_ansi_term` writes before text in `style`
/// (`TextStyle::prefix`), for a style that is not plain.
pub uninterp spec fn ansi_prefix(style: TextStyle) -> Seq<char>;

/// The escape sequence that ends styled text (`nu_ansi_term::ansi::RESET`).
pub open spec fn ansi_reset() -> Seq<char> {
    seq!['\x1b', '[', '0', 'm']
}

/// `text` painted in `style`: unchanged for the plain style, else wrapped in
/// the style's prefix and the reset sequence.
pub open spec fn painted(style: TextStyle, text: Seq<char>) -> Seq<char> {
    if style == plain_style() {
        text
    } else {
        ansi_prefix(style) + text + ansi_reset()
    }
}

#[verifier::external_type_specification]
#[verifier::external_body]
pub struct ExAnsiStyle(nu_ansi_term::Style);

#[verifier::external_type_specification]
#[verifier::external_body]
pub struct ExAnsiColor(nu_ansi_term::Color);

/// The `nu_ansi_term::Color` of the same name (or the same number, or the
/// same components). A conversion of variants only; the result is opaque here.
#[verifier::external_body]
fn to_ansi_color(c: TextColor) -> nu_ansi_term::Color {
    match c {
        TextColor::Black => A::Black, TextColor::Red => A::Red, TextColor::Green => A::Green,
        TextColor::Yellow => A::Yellow, TextColor::Blue => A::Blue, TextColor::Purple => A::Purple,
        TextColor::Cyan => A::Cyan, TextColor::White => A::White, TextColor::LightRed => A::LightRed,
        TextColor::LightGreen => A::LightGreen, TextColor::LightYellow => A::LightYellow,
        TextColor::LightBlue => A::LightBlue, TextColor::LightPurple => A::LightPurple,
        TextColor::LightCyan => A::LightCyan, TextColor::Fixed(n) => A::Fixed(n),
        TextColor::Rgb(r, g, b) => A::Rgb(r, g, b),
    }
}

/// The `nu_ansi_term::Style` with the properties of `style`: the same
/// colors and flags, with blink, reverse, hidden and reset-before unset.
/// A conversion of fields only; the result is opaque here.
#[verifier::external_body]
fn to_ansi_style(style: TextStyle) -> nu_ansi_term::Style {
    nu_ansi_term::Style {
        foreground: style.foreground.map(to_ansi_color),
        background: style.background.map(to_ansi_color),
        is_bold: style.is_bold,
        is_dimmed: style.is_dimmed,
        is_italic: style.is_italic,
        is_underline: style.is_underline,
        is_strikethrough: style.is_strikethrough,
        ..Default::default()
    }
}

/// `nu_ansi_term::Style::paint(text).to_string()` for the style with the
/// properties of `style`. Its `Display` writes the style's prefix, the text
/// and the style's suffix; both are empty when the style equals the default
/// style, and the suffix is otherwise `RESET`. The prefix itself is named
/// `ansi_prefix`.
#[verifier::external_body]
fn ansi_paint(style: TextStyle, text: &str) -> (r: String)
    ensures
        r@ == painted(style, text@),
        style != plain_style() ==> r@ == ansi_prefix(style) + text@ + ansi_reset(),
{
    to_ansi_style(style).paint(text).to_string()
}

/// What `<nu_ansi_term::Style as Debug>::fmt` writes (without `{:#?}`) for
/// the style with the properties of `style`: `Style {}` for the plain style,
/// else `Style { fg(..), on(..), bold, .. }`.
pub uninterp spec fn style_text(style: TextStyle) -> Seq<char>;

/// `format!("{:?}", ..)` of the `nu_ansi_term::Style` with the properties of
/// `style`; a function of `style` alone, named `style_text`.
#[verifier::external_body]
fn ansi_style_debug(style: TextStyle) -> (r: String)
    ensures
        r@ == style_text(style),
{
    format!("{:?}", to_ansi_style(style))
}

/// `std::io::IsTerminal::is_terminal` on stderr: whether stderr is a
/// terminal. Depends on the environment, so nothing is stated of it.
#[verifier::external_body]
pub fn supports_color() -> bool {
    std::io::IsTerminal::is_terminal(&std::io::stderr())
}

/// `std::io::IsTerminal::is_terminal` on stdout: whether stdout is a
/// terminal. Depends on the environment, so nothing is stated of it.
#[verifier::external_body]
pub fn supports_color_stdout() -> bool {
    std::io::IsTerminal::is_terminal(&std::io::stdout())
}

/// A chainable text style.
#[derive(Clone, Copy, Debug)]
pub struct Tint {
    style: TextStyle,
}

impl Tint {
    /// The style this tint applies.
    pub closed spec fn view(&self) -> TextStyle {
        self.style
    }

    fn new(style: TextStyle) -> (r: Self)
        ensures
            r.view() == style,
    {
        Tint { style }
    }

    fn fg(c: TextColor) -> (r: Self)
        ensures
            r.view() == fg_style(c),
    {
        Tint::new(TextStyle {
            foreground: Some(c),
            background: None,
            is_bold: false,
            is_dimmed: false,
            is_italic: false,
            is_underline: false,
            is_strikethrough: false,
        })
    }

    // Foreground colors
    pub fn red() -> (r: Self)
        ensures
            r.view() == fg_style(TextColor::Red),
    {
        Self::fg(TextColor::Red)
    }

    pub fn green() -> (r: Self)
        ensures
            r.view() == fg_style(TextColor::Green),
    {
        Self::fg(TextColor::Green)
    }

    pub fn yellow() -> (r: Self)
        ensures
            r.view() == fg_style(TextColor::Yellow),
    {
        Self::fg(TextColor::Yellow)
    }

    pub fn blue() -> (r: Self)
        ensures
            r.view() == fg_style(TextColor::Blue),
    {
        Self::fg(TextColor::Blue)
    }

    pub fn purple() -> (r: Self)
        ensures
            r.view() == fg_style(TextColor::Purple),
    {
        Self::fg(TextColor::Purple)
    }

    pub fn cyan() -> (r: Self)
        ensures
            r.view() == fg_style(TextColor::Cyan),
    {
        Self::fg(TextColor::Cyan)
    }

    pub fn white() -> (r: Self)
        ensures
            r.view() == fg_style(TextColor::White),
    {
        Self::fg(TextColor::White)
    }

    pub fn black() -> (r: Self)
        ensures
            r.view() == fg_style(TextColor::Black),
    {
        Self::fg(TextColor::Black)
    }

    // Bright foreground colors
    pub fn bright_red() -> (r: Self)
        ensures
            r.view() == fg_style(TextColor::LightRed),
    {
        Self::fg(TextColor::LightRed)
    }

    pub fn bright_green() -> (r: Self)
        ensures
            r.view() == fg_style(TextColor::LightGreen),
    {
        Self::fg(TextColor::LightGreen)
    }

    pub fn bright_yellow() -> (r: Self)
        ensures
            r.view() == fg_style(TextColor::LightYellow),
    {
        Self::fg(TextColor::LightYellow)
    }

    pub fn bright_blue() -> (r: Self)
        ensures
            r.view() == fg_style(TextColor::LightBlue),
    {
        Self::fg(TextColor::LightBlue)
    }

    pub fn bright_purple() -> (r: Self)
        ensures
            r.view() == fg_style(TextColor::LightPurple),
    {
        Self::fg(TextColor::LightPurple)
    }

    pub fn bright_cyan() -> (r: Self)
        ensures
            r.view() == fg_style(TextColor::LightCyan),
    {
        Self::fg(TextColor::LightCyan)
    }

    // TextStyle modifiers (chainable)
    pub fn bold(self) -> (r: Self)
        ensures
            r.view() == (TextStyle { is_bold: true, ..self.view() }),
    {
        let mut t = self;
        t.style.is_bold = true;
        t
    }

    pub fn dimmed(self) -> (r: Self)
        ensures
            r.view() == (TextStyle { is_dimmed: true, ..self.view() }),
    {
        let mut t = self;
        t.style.is_dimmed = true;
        t
    }

    pub fn italic(self) -> (r: Self)
        ensures
            r.view() == (TextStyle { is_italic: true, ..self.view() }),
    {
        let mut t = self;
        t.style.is_italic = true;
        t
    }

    pub fn underline(self) -> (r: Self)
        ensures
            r.view() == (TextStyle { is_underline: true, ..self.view() }),
    {
        let mut t = self;
        t.style.is_underline = true;
        t
    }

    pub fn strikethrough(self) -> (r: Self)
        ensures
            r.view() == (TextStyle { is_strikethrough: true, ..self.view() }),
    {
        let mut t = self;
        t.style.is_strikethrough = true;
        t
    }

    fn on(self, c: TextColor) -> (r: Self)
        ensures
            r.view() == (TextStyle { background: Some(c), ..self.view() }),
    {
        let mut t = self;
        t.style.background = Some(c);
        t
    }

    // Background colors (chainable)
    pub fn bg_red(self) -> (r: Self)
        ensures
            r.view() == (TextStyle { background: Some(TextColor::Red), ..self.view() }),
    {
        self.on(TextColor::Red)
    }

    pub fn bg_green(self) -> (r: Self)
        ensures
            r.view() == (TextStyle { background: Some(TextColor::Green), ..self.view() }),
    {
        self.on(TextColor::Green)
    }

    pub fn bg_yellow(self) -> (r: Self)
        ensures
            r.view() == (TextStyle { background: Some(TextColor::Yellow), ..self.view() }),
    {
        self.on(TextColor::Yellow)
    }

    pub fn bg_blue(self) -> (r: Self)
        ensures
            r.view() == (TextStyle { background: Some(TextColor::Blue), ..self.view() }),
    {
        self.on(TextColor::Blue)
    }

    pub fn bg_purple(self) -> (r: Self)
        ensures
            r.view() == (TextStyle { background: Some(TextColor::Purple), ..self.view() }),
    {
        self.on(TextColor::Purple)
    }

    pub fn bg_cyan(self) -> (r: Self)
        ensures
            r.view() == (TextStyle { background: Some(TextColor::Cyan), ..self.view() }),
    {
        self.on(TextColor::Cyan)
    }

    pub fn bg_white(self) -> (r: Self)
        ensures
            r.view() == (TextStyle { background: Some(TextColor::White), ..self.view() }),
    {
        self.on(TextColor::White)
    }

    pub fn bg_black(self) -> (r: Self)
        ensures
            r.view() == (TextStyle { background: Some(TextColor::Black), ..self.view() }),
    {
        self.on(TextColor::Black)
    }

    /// ANSI 256 color.
    pub fn color(n: u8) -> (r: Self)
        ensures
            r.view() == fg_style(TextColor::Fixed(n)),
    {
        Self::fg(TextColor::Fixed(n))
    }

    pub fn bg_color(self, n: u8) -> (r: Self)
        ensures
            r.view() == (TextStyle { background: Some(TextColor::Fixed(n)), ..self.view() }),
    {
        self.on(TextColor::Fixed(n))
    }

    /// 24-bit RGB color.
    pub fn rgb(r: u8, g: u8, b: u8) -> (t: Self)
        ensures
            t.view() == fg_style(TextColor::Rgb(r, g, b)),
    {
        Self::fg(TextColor::Rgb(r, g, b))
    }

    pub fn bg_rgb(self, r: u8, g: u8, b: u8) -> (t: Self)
        ensures
            t.view() == (TextStyle { background: Some(TextColor::Rgb(r, g, b)), ..self.view() }),
    {
        self.on(TextColor::Rgb(r, g, b))
    }

    /// The tint that applies `style`.
    pub(crate) fn of_style(style: TextStyle) -> (r: Self)
        ensures
            r.view() == style,
    {
        Tint { style }
    }

    /// Applies this style to a string and returns the styled output.
    pub fn paint(&self, text: &str) -> (r: String)
        ensures
            r@ == painted(self.view(), text@),
    {
        ansi_paint(self.style, text)
    }

    /// The style, written as `nu_ansi_term` shows it: `Style { fg(Red), bold }`.
    pub fn to_string(&self) -> (r: String)
        ensures
            r@ == style_text(self.view()),
    {
        ansi_style_debug(self.style)
    }
}

/// Law: painted text holds the text itself, between whatever the style adds.
pub proof fn lemma_painted_contains_text(style: TextStyle, text: Seq<char>)
    ensures
        exists|pre: Seq<char>, post: Seq<char>| painted(style, text) == pre + text + post,
{
    if style == plain_style() {
        assert(painted(style, text) == Seq::<char>::empty() + text + Seq::<char>::empty());
    } else {
        assert(painted(style, text) == ansi_prefix(style) + text + ansi_reset());
    }
}

} // verus!
