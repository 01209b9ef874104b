//! The line format of log events and the collection of an event's message
//! and fields.

use vstd::prelude::*;
use crate::text::{owned, append_str, push_char, str_eq, chars_of, string_from_range};
use crate::num::{decimal, signed_decimal, u128_to_decimal, i128_to_decimal};
use crate::cli::tint::{TextColor, TextStyle, fg_style, plain_style, painted, Tint};

verus! {

/// The severity of a log event, most verbose first.
#[derive(Clone, Copy, Debug, PartialEq, Eq, Structural)]
pub enum Level {
    Trace,
    Debug,
    Info,
    Warn,
    Error,
}

/// The level's name right-aligned in five columns.
pub open spec fn level_label(level: Level) -> Seq<char> {
    match level {
        Level::Trace => "TRACE"@,
        Level::Debug => "DEBUG"@,
        Level::Info => " INFO"@,
        Level::Warn => " WARN"@,
        Level::Error => "ERROR"@,
    }
}

/// `s` with the text before its last `sep` dropped (all of `s` when `sep`
/// does not occur).
pub open spec fn after_last(s: Seq<char>, sep: Seq<char>) -> Seq<char>
    decreases s.len(),
{
    if s.len() < sep.len() {
        s
    } else if sep.len() > 0 && s.subrange(s.len() - sep.len(), s.len() as int) == sep {
        seq![]
    } else if s.len() == 0 {
        s
    } else {
        after_last(s.drop_last(), sep).push(s.last())
    }
}

/// Where the text after the last `sep` in `s` starts (0 when there is none).
pub open spec fn leaf_start(s: Seq<char>, sep: Seq<char>) -> int
    decreases s.len(),
{
    if s.len() < sep.len() {
        0
    } else if sep.len() > 0 && s.subrange(s.len() - sep.len(), s.len() as int) == sep {
        s.len() as int
    } else if s.len() == 0 {
        0
    } else {
        leaf_start(s.drop_last(), sep)
    }
}

/// Law: the leaf of `s` (as the target and the file are shown) is the end
/// of `s` that follows its last `sep`: it starts at the beginning or right
/// after an occurrence of `sep`, and no occurrence of `sep` lies within it.
pub proof fn lemma_after_last_is_leaf(s: Seq<char>, sep: Seq<char>)
    requires
        sep.len() > 0,
    ensures
        0 <= leaf_start(s, sep) <= s.len(),
        after_last(s, sep) == s.subrange(leaf_start(s, sep), s.len() as int),
        leaf_start(s, sep) == 0 || (leaf_start(s, sep) >= sep.len() && s.subrange(
            leaf_start(s, sep) - sep.len(),
            leaf_start(s, sep),
        ) == sep),
        forall|j: int|
            leaf_start(s, sep) + sep.len() <= j <= s.len() ==> #[trigger] s.subrange(j - sep.len(), j)
                != sep,
    decreases s.len(),
{
    let k = sep.len() as int;
    if s.len() < k {
        assert(s.subrange(0, s.len() as int) =~= s);
    } else if s.subrange(s.len() - k, s.len() as int) == sep {
        assert(s.subrange(s.len() as int, s.len() as int) =~= Seq::<char>::empty());
    } else {
        let t = s.drop_last();
        lemma_after_last_is_leaf(t, sep);
        let ls = leaf_start(t, sep);
        assert(t.subrange(ls, t.len() as int).push(s.last()) =~= s.subrange(ls, s.len() as int));
        if ls > 0 {
            assert(s.subrange(ls - k, ls) =~= t.subrange(ls - k, ls));
        }
        assert forall|j: int| ls + k <= j <= s.len() implies #[trigger] s.subrange(j - k, j) != sep by {
            if j < s.len() {
                assert(s.subrange(j - k, j) =~= t.subrange(j - k, j));
            }
        }
    }
}

/// Law: every level is shown five columns wide.
pub proof fn lemma_level_label_width(level: Level)
    ensures
        level_label(level).len() == 5,
{
    reveal_strlit("TRACE");
    reveal_strlit("DEBUG");
    reveal_strlit(" INFO");
    reveal_strlit(" WARN");
    reveal_strlit("ERROR");
}

/// The message and the `key=value` fields of one event.
pub struct VisitorView {
    pub message: Seq<char>,
    pub fields: Seq<char>,
}

/// `fields` with one more `entry`, separated from earlier ones by `, `.
pub open spec fn with_field(fields: Seq<char>, entry: Seq<char>) -> Seq<char> {
    if fields.len() == 0 {
        entry
    } else {
        fields + ", "@ + entry
    }
}

/// A debug-formatted message with one pair of surrounding double quotes
/// removed.
pub open spec fn unquoted(text: Seq<char>) -> Seq<char> {
    if text.len() >= 2 && text[0] == '"' && text.last() == '"' {
        text.subrange(1, text.len() - 1)
    } else {
        text
    }
}

/// Collects the message and the fields of one event.
pub struct MessageVisitor {
    message: String,
    fields: String,
}

impl MessageVisitor {
    pub closed spec fn view(&self) -> VisitorView {
        VisitorView { message: self.message@, fields: self.fields@ }
    }

    /// A visitor with no message and no field.
    pub fn new() -> (r: Self)
        ensures
            r.view() == (VisitorView { message: seq![], fields: seq![] }),
    {
        MessageVisitor { message: String::new(), fields: String::new() }
    }

    /// The message recorded.
    pub fn message(&self) -> (r: &str)
        ensures
            r@ == self.view().message,
    {
        self.message.as_str()
    }

    /// The fields recorded, as `key=value` joined with `, `.
    pub fn fields(&self) -> (r: &str)
        ensures
            r@ == self.view().fields,
    {
        self.fields.as_str()
    }

    fn add_field(&mut self, name: &str, sep: &str, value: &str, close: &str)
        ensures
            final(self).view() == (VisitorView {
                message: old(self).view().message,
                fields: with_field(old(self).view().fields, name@ + sep@ + value@ + close@),
            }),
    {
        if !self.fields.as_str().is_empty() {
            append_str(&mut self.fields, ", ");
        }
        append_str(&mut self.fields, name);
        append_str(&mut self.fields, sep);
        append_str(&mut self.fields, value);
        append_str(&mut self.fields, close);
        proof {
            reveal_strlit(", ");
        }
        assert(self.view().fields =~= with_field(old(self).view().fields, name@ + sep@ + value@ + close@));
    }

    /// Records a field by its `Debug` text. The field `message` becomes the
    /// message, with surrounding double quotes removed.
    pub fn record_debug(&mut self, name: &str, text: &str)
        requires
            name@ == "message"@ ==> text@ != seq!['"'],
        ensures
            name@ == "message"@ ==> final(self).view() == (VisitorView {
                message: unquoted(text@),
                fields: old(self).view().fields,
            }),
            name@ != "message"@ ==> final(self).view() == (VisitorView {
                message: old(self).view().message,
                fields: with_field(old(self).view().fields, name@ + "="@ + text@),
            }),
    {
        if str_eq(name, "message") {
            let chars = chars_of(text);
            let n = chars.len();
            if n >= 1 && chars[0] == '"' && chars[n - 1] == '"' {
                if n == 1 {
                    assert(chars@ =~= seq!['"']);
                }
                assert(n >= 2);
                self.message = string_from_range(&chars, 1, n - 1);
            } else {
                self.message = owned(text);
            }
        } else {
            self.add_field(name, "=", text, "");
            proof {
                reveal_strlit("");
            }
            assert(name@ + "="@ + text@ + ""@ =~= name@ + "="@ + text@);
        }
    }

    /// Records a string field. The field `message` becomes the message;
    /// others are written `name="value"`.
    pub fn record_str(&mut self, name: &str, value: &str)
        ensures
            name@ == "message"@ ==> final(self).view() == (VisitorView {
                message: value@,
                fields: old(self).view().fields,
            }),
            name@ != "message"@ ==> final(self).view() == (VisitorView {
                message: old(self).view().message,
                fields: with_field(old(self).view().fields, name@ + "=\""@ + value@ + "\""@),
            }),
    {
        if str_eq(name, "message") {
            self.message = owned(value);
        } else {
            self.add_field(name, "=\"", value, "\"");
        }
    }

    /// Records a signed integer field as `name=value`.
    pub fn record_i64(&mut self, name: &str, value: i64)
        ensures
            final(self).view() == (VisitorView {
                message: old(self).view().message,
                fields: with_field(old(self).view().fields, name@ + "="@ + signed_decimal(value as int)),
            }),
    {
        let text = i128_to_decimal(value as i128);
        self.add_field(name, "=", text.as_str(), "");
        proof {
            reveal_strlit("");
        }
        assert(name@ + "="@ + text@ + ""@ =~= name@ + "="@ + signed_decimal(value as int));
    }

    /// Records an unsigned integer field as `name=value`.
    pub fn record_u64(&mut self, name: &str, value: u64)
        ensures
            final(self).view() == (VisitorView {
                message: old(self).view().message,
                fields: with_field(old(self).view().fields, name@ + "="@ + decimal(value as nat)),
            }),
    {
        let text = u128_to_decimal(value as u128);
        self.add_field(name, "=", text.as_str(), "");
        proof {
            reveal_strlit("");
        }
        assert(name@ + "="@ + text@ + ""@ =~= name@ + "="@ + decimal(value as nat));
    }

    /// Records a boolean field as `name=true` or `name=false`.
    pub fn record_bool(&mut self, name: &str, value: bool)
        ensures
            final(self).view() == (VisitorView {
                message: old(self).view().message,
                fields: with_field(
                    old(self).view().fields,
                    name@ + "="@ + if value {
                        "true"@
                    } else {
                        "false"@
                    },
                ),
            }),
    {
        let text = if value {
            "true"
        } else {
            "false"
        };
        self.add_field(name, "=", text, "");
        proof {
            reveal_strlit("");
        }
        assert(name@ + "="@ + text@ + ""@ =~= name@ + "="@ + text@);
    }
}

} // verus!

verus! {

/// The style of the level, the message and span names: red errors, yellow
/// warnings, cyan info, green debug, purple trace; none without color.
pub open spec fn level_style(use_color: bool, level: Level) -> TextStyle {
    if !use_color {
        plain_style()
    } else {
        match level {
            Level::Error => fg_style(TextColor::Red),
            Level::Warn => fg_style(TextColor::Yellow),
            Level::Info => fg_style(TextColor::Cyan),
            Level::Debug => fg_style(TextColor::Green),
            Level::Trace => fg_style(TextColor::Purple),
        }
    }
}

/// The style of the timestamp, the fields and the source location: blue.
pub open spec fn dim_style(use_color: bool) -> TextStyle {
    if use_color {
        fg_style(TextColor::Blue)
    } else {
        plain_style()
    }
}

/// The style of the target: bold white.
pub open spec fn white_style(use_color: bool) -> TextStyle {
    if use_color {
        TextStyle { is_bold: true, ..fg_style(TextColor::White) }
    } else {
        plain_style()
    }
}

/// The open spans, outermost first: each name in `style`, then `{fields} `
/// when it has fields, else a space.
pub open spec fn spans_text(style: TextStyle, spans: Seq<(Seq<char>, Seq<char>)>) -> Seq<char>
    decreases spans.len(),
{
    if spans.len() == 0 {
        seq![]
    } else {
        let (name, fields) = spans.last();
        spans_text(style, spans.drop_last()) + painted(style, name) + if fields.len() > 0 {
            "{"@ + fields + "} "@
        } else {
            " "@
        }
    }
}

/// ` - (file:line)`, the file shown by its last path component.
pub open spec fn source_text(dim: TextStyle, file: Seq<char>, line: u32) -> Seq<char> {
    " "@ + painted(dim, "-"@) + " "@ + painted(dim, "("@ + after_last(file, "/"@) + ":"@ + decimal(line as nat) + ")"@)
}

/// `timestamp LEVEL [target] `, the target shown by its last `::` component.
pub open spec fn head_text(f: UniFormatter, timestamp: Seq<char>, level: Level, target: Seq<char>) -> Seq<char> {
    painted(dim_style(f.use_color), timestamp) + " "@ + painted(level_style(f.use_color, level), level_label(level))
        + " "@ + "["@ + painted(white_style(f.use_color), after_last(target, "::"@)) + "] "@
}

/// `message fields - (file:line)` and the line end; the source only when
/// asked for and known.
pub open spec fn tail_text(
    f: UniFormatter,
    level: Level,
    message: Seq<char>,
    fields: Seq<char>,
    file: Option<Seq<char>>,
    line: Option<u32>,
) -> Seq<char> {
    let dim = dim_style(f.use_color);
    painted(level_style(f.use_color, level), message) + (if fields.len() > 0 {
        " "@ + painted(dim, fields)
    } else {
        seq![]
    }) + (match (file, line) {
        (Some(fl), Some(n)) => if f.show_source {
            source_text(dim, fl, n)
        } else {
            seq![]
        },
        _ => seq![],
    }) + "\n"@
}

/// One event as a line: `timestamp LEVEL [target] spans message fields -
/// (file:line)`.
pub open spec fn event_line(
    f: UniFormatter,
    timestamp: Seq<char>,
    level: Level,
    target: Seq<char>,
    spans: Seq<(Seq<char>, Seq<char>)>,
    message: Seq<char>,
    fields: Seq<char>,
    file: Option<Seq<char>>,
    line: Option<u32>,
) -> Seq<char> {
    head_text(f, timestamp, level, target) + spans_text(level_style(f.use_color, level), spans) + tail_text(
        f,
        level,
        message,
        fields,
        file,
        line,
    )
}

/// The text of `s` after the last `sep` in it (all of `s` when there is none).
fn after_last_exec(s: &str, sep: &str) -> (r: String)
    requires
        sep@.len() > 0,
    ensures
        r@ == after_last(s@, sep@),
{
    let cs = chars_of(s);
    let ps = chars_of(sep);
    let n = cs.len();
    let k = ps.len();
    let mut j = n;
    assert(cs@.take(n as int) =~= cs@);
    assert(cs@.subrange(n as int, n as int) =~= Seq::<char>::empty());
    loop
        invariant
            j <= n,
            n == cs@.len(),
            k == ps@.len(),
            k > 0,
            cs@ == s@,
            ps@ == sep@,
            after_last(s@, sep@) == after_last(cs@.take(j as int), sep@) + cs@.subrange(j as int, n as int),
        decreases j,
    {
        let ghost t = cs@.take(j as int);
        if j < k {
            assert(after_last(t, sep@) == t);
            assert(t + cs@.subrange(j as int, n as int) =~= cs@);
            return owned(s);
        }
        let mut m: usize = 0;
        let mut same = true;
        while m < k
            invariant
                m <= k,
                k <= j <= n,
                n == cs@.len(),
                k == ps@.len(),
                same <==> (forall|q: int| 0 <= q < m ==> cs@[j - k + q] == ps@[q]),
            decreases k - m,
        {
            if cs[j - k + m] != ps[m] {
                same = false;
            }
            m = m + 1;
        }
        if same {
            assert(t.subrange(t.len() - k, t.len() as int) =~= sep@);
            assert(after_last(t, sep@) == Seq::<char>::empty());
            assert(Seq::<char>::empty() + cs@.subrange(j as int, n as int) =~= cs@.subrange(j as int, n as int));
            return string_from_range(&cs, j, n);
        }
        assert(!(t.subrange(t.len() - k, t.len() as int) =~= sep@)) by {
            let q = choose|q: int| 0 <= q < k && cs@[j - k + q] != ps@[q];
            assert(t.subrange(t.len() - k, t.len() as int)[q] != sep@[q]);
        }
        assert(t.drop_last() =~= cs@.take(j - 1));
        assert(after_last(t, sep@) == after_last(cs@.take(j - 1), sep@).push(cs@[j - 1]));
        assert(after_last(cs@.take(j - 1), sep@).push(cs@[j - 1]) + cs@.subrange(j as int, n as int)
            =~= after_last(cs@.take(j - 1), sep@) + cs@.subrange(j - 1, n as int));
        j = j - 1;
    }
}

/// `t` has the shape of `pat`: the same length, a digit wherever `pat` has
/// `9`, a sign (`+` or `-`) wherever it has `s`, and `pat`'s character
/// elsewhere.
pub open spec fn fits_pattern(t: Seq<char>, pat: Seq<char>) -> bool {
    &&& t.len() == pat.len()
    &&& forall|i: int|
        0 <= i < pat.len() ==> if pat[i] == '9' {
            '0' <= #[trigger] t[i] <= '9'
        } else if pat[i] == 's' {
            t[i] == '+' || t[i] == '-'
        } else {
            t[i] == pat[i]
        }
}

/// A year as `%Y` writes it: four digits for years 0 to 9999, else a sign
/// and at least four digits.
pub open spec fn year_text(y: Seq<char>) -> bool {
    ||| y.len() == 4 && forall|i: int| 0 <= i < 4 ==> '0' <= #[trigger] y[i] <= '9'
    ||| y.len() >= 5 && (y[0] == '+' || y[0] == '-') && forall|i: int|
        1 <= i < y.len() ==> '0' <= #[trigger] y[i] <= '9'
}

/// The shape of a timestamp written as `%Y-%m-%d %H:%M:%S%.3f%z`: the year,
/// then `-MM-DD HH:MM:SS.mmm` and the UTC offset as a sign and `HHMM`.
pub open spec fn timestamp_shape(t: Seq<char>) -> bool {
    let pat = seq![
        '-', '9', '9', '-', '9', '9', ' ', '9', '9', ':', '9', '9', ':', '9', '9', '.', '9', '9', '9',
        's', '9', '9', '9', '9'
    ];
    &&& t.len() >= 28
    &&& year_text(t.take(t.len() - 24))
    &&& fits_pattern(t.skip(t.len() - 24), pat)
}

/// `chrono::Local::now().format(fmt).to_string()`: the local time, to the
/// millisecond, with its UTC offset. Which time it gives depends on the clock
/// and the time zone; its shape does not: chrono writes the year (four
/// digits, or a sign and more digits outside 0 to 9999), two-digit month,
/// day, hour, minute and second, three digits of milliseconds after `.`, and
/// the offset as a sign, two-digit hours and two-digit minutes. The one
/// format it is used with is valid, so the formatting does not fail.
#[verifier::external_body]
fn local_time_text(fmt: &str) -> (r: String)
    requires
        fmt@ == "%Y-%m-%d %H:%M:%S%.3f%z"@,
    ensures
        timestamp_shape(r@),
{
    chrono::Local::now().format(fmt).to_string()
}

fn plain() -> (r: TextStyle)
    ensures
        r == plain_style(),
{
    TextStyle {
        foreground: None,
        background: None,
        is_bold: false,
        is_dimmed: false,
        is_italic: false,
        is_underline: false,
        is_strikethrough: false,
    }
}

fn fg(c: TextColor) -> (r: TextStyle)
    ensures
        r == fg_style(c),
{
    TextStyle { foreground: Some(c), ..plain() }
}

/// Formats log events as `timestamp LEVEL [target] message - (file:line)`.
pub struct UniFormatter {
    pub show_source: bool,
    pub use_color: bool,
}

impl UniFormatter {
    /// A formatter that shows the source location, colored when `use_color`.
    pub fn new(use_color: bool) -> (r: Self)
        ensures
            r.show_source,
            r.use_color == use_color,
    {
        UniFormatter { show_source: true, use_color }
    }

    /// The style of the level, the message and span names.
    pub fn level_color(&self, level: Level) -> (r: TextStyle)
        ensures
            r == level_style(self.use_color, level),
    {
        if !self.use_color {
            return plain();
        }
        match level {
            Level::Error => fg(TextColor::Red),
            Level::Warn => fg(TextColor::Yellow),
            Level::Info => fg(TextColor::Cyan),
            Level::Debug => fg(TextColor::Green),
            Level::Trace => fg(TextColor::Purple),
        }
    }

    /// The style of the timestamp, fields and source location.
    pub fn dim(&self) -> (r: TextStyle)
        ensures
            r == dim_style(self.use_color),
    {
        if self.use_color {
            fg(TextColor::Blue)
        } else {
            plain()
        }
    }

    /// The style of the target.
    pub fn white(&self) -> (r: TextStyle)
        ensures
            r == white_style(self.use_color),
    {
        if self.use_color {
            TextStyle { is_bold: true, ..fg(TextColor::White) }
        } else {
            plain()
        }
    }

    fn write_head(&self, out: &mut String, timestamp: &str, level: Level, target: &str)
        ensures
            final(out)@ == old(out)@ + head_text(*self, timestamp@, level, target@),
    {
        proof {
            reveal_strlit(" ");
            reveal_strlit(" [");
            reveal_strlit("[");
            reveal_strlit("::");
        }
        let dim = Tint::of_style(self.dim());
        let ls = Tint::of_style(self.level_color(level));
        let white = Tint::of_style(self.white());
        let ts = dim.paint(timestamp);
        append_str(out, ts.as_str());
        append_str(out, " ");
        let label = match level {
            Level::Trace => "TRACE",
            Level::Debug => "DEBUG",
            Level::Info => " INFO",
            Level::Warn => " WARN",
            Level::Error => "ERROR",
        };
        let lv = ls.paint(label);
        append_str(out, lv.as_str());
        append_str(out, " [");
        let leaf = after_last_exec(target, "::");
        let t = white.paint(leaf.as_str());
        append_str(out, t.as_str());
        append_str(out, "] ");
        assert(final(out)@ =~= old(out)@ + head_text(*self, timestamp@, level, target@));
    }

    fn write_spans(&self, out: &mut String, level: Level, spans: &Vec<(String, String)>)
        ensures
            final(out)@ == old(out)@ + spans_text(level_style(self.use_color, level), spans_view(spans@)),
    {
        let ls = Tint::of_style(self.level_color(level));
        let ghost start = out@;
        let mut i: usize = 0;
        while i < spans.len()
            invariant
                i <= spans@.len(),
                ls.view() == level_style(self.use_color, level),
                out@ == start + spans_text(ls.view(), spans_view(spans@).take(i as int)),
            decreases spans.len() - i,
        {
            let name = ls.paint(spans[i].0.as_str());
            append_str(out, name.as_str());
            if !spans[i].1.as_str().is_empty() {
                append_str(out, "{");
                append_str(out, spans[i].1.as_str());
                append_str(out, "} ");
            } else {
                append_str(out, " ");
            }
            proof {
                let sv = spans_view(spans@);
                assert(sv.take(i + 1).drop_last() =~= sv.take(i as int));
                assert(sv[i as int] == (spans@[i as int].0@, spans@[i as int].1@));
                assert(out@ =~= start + spans_text(ls.view(), sv.take(i + 1)));
            }
            i = i + 1;
        }
        assert(spans_view(spans@).take(spans@.len() as int) =~= spans_view(spans@));
    }

    fn write_tail(
        &self,
        out: &mut String,
        level: Level,
        message: &str,
        fields: &str,
        file: Option<&str>,
        line: Option<u32>,
    )
        ensures
            final(out)@ == old(out)@ + tail_text(*self, level, message@, fields@, opt_text(file), line),
    {
        let dim = Tint::of_style(self.dim());
        let ls = Tint::of_style(self.level_color(level));
        let m = ls.paint(message);
        append_str(out, m.as_str());
        let ghost after_message = out@;
        if !fields.is_empty() {
            append_str(out, " ");
            let fd = dim.paint(fields);
            append_str(out, fd.as_str());
        }
        let ghost after_fields = out@;
        if self.show_source {
            match (file, line) {
                (Some(f), Some(n)) => {
                    proof {
                        reveal_strlit("/");
                    }
                    append_str(out, " ");
                    let dash = dim.paint("-");
                    append_str(out, dash.as_str());
                    append_str(out, " ");
                    let mut loc = owned("(");
                    let fname = after_last_exec(f, "/");
                    append_str(&mut loc, fname.as_str());
                    append_str(&mut loc, ":");
                    let num = u128_to_decimal(n as u128);
                    append_str(&mut loc, num.as_str());
                    append_str(&mut loc, ")");
                    let l = dim.paint(loc.as_str());
                    append_str(out, l.as_str());
                    assert(out@ =~= after_fields + source_text(dim.view(), f@, n));
                },
                _ => {},
            }
        }
        append_str(out, "\n");
        assert(final(out)@ =~= old(out)@ + tail_text(*self, level, message@, fields@, opt_text(file), line));
    }

    /// The line for one event, stamped with `timestamp`.
    pub fn format_line(
        &self,
        timestamp: &str,
        level: Level,
        target: &str,
        spans: &Vec<(String, String)>,
        message: &str,
        fields: &str,
        file: Option<&str>,
        line: Option<u32>,
    ) -> (r: String)
        ensures
            r@ == event_line(
                *self,
                timestamp@,
                level,
                target@,
                spans_view(spans@),
                message@,
                fields@,
                opt_text(file),
                line,
            ),
    {
        let mut out = String::new();
        self.write_head(&mut out, timestamp, level, target);
        self.write_spans(&mut out, level, spans);
        self.write_tail(&mut out, level, message, fields, file, line);
        assert(out@ =~= event_line(
            *self,
            timestamp@,
            level,
            target@,
            spans_view(spans@),
            message@,
            fields@,
            opt_text(file),
            line,
        ));
        out
    }

    /// The line for one event at the current local time (to the millisecond,
    /// with its UTC offset), with the message and fields that `visitor`
    /// collected.
    pub fn format_event(
        &self,
        level: Level,
        target: &str,
        spans: &Vec<(String, String)>,
        visitor: &MessageVisitor,
        file: Option<&str>,
        line: Option<u32>,
    ) -> (r: String)
        ensures
            exists|timestamp: Seq<char>|
                timestamp_shape(timestamp) && r@ == #[trigger] event_line(
                    *self,
                    timestamp,
                    level,
                    target@,
                    spans_view(spans@),
                    visitor.view().message,
                    visitor.view().fields,
                    opt_text(file),
                    line,
                ),
    {
        proof {
            reveal_strlit("%Y-%m-%d %H:%M:%S%.3f%z");
        }
        let ts = local_time_text("%Y-%m-%d %H:%M:%S%.3f%z");
        self.format_line(ts.as_str(), level, target, spans, visitor.message(), visitor.fields(), file, line)
    }
}

pub open spec fn opt_text(o: Option<&str>) -> Option<Seq<char>> {
    match o {
        Some(s) => Some(s@),
        None => None,
    }
}

/// The plain values of the spans' names and fields.
pub open spec fn spans_view(spans: Seq<(String, String)>) -> Seq<(Seq<char>, Seq<char>)> {
    spans.map_values(|s: (String, String)| (s.0@, s.1@))
}

} // verus!
