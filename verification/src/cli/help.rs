//! Help output for a command schema: description, usage line, and aligned
//! sections for arguments, options and subcommands.

use vstd::prelude::*;
use crate::text::{owned, chars_of, push_char, append_str};
use super::error::{join, join_strings, strings_view};
use super::schema::{CLArgument, CLOption, CommandSchema};
use super::tint::{TextColor, TextStyle, Tint, fg_style, painted, supports_color};

verus! {

// ---------------------------------------------------------------------------
// The text, as mathematics
// ---------------------------------------------------------------------------

/// One row of a help section: the left column (with and without styling)
/// and the description.
pub struct RowView {
    pub head_plain: Seq<char>,
    pub head: Seq<char>,
    pub description: Seq<char>,
    /// Whether the unstyled description is nonempty.
    pub has_description: bool,
}

pub open spec fn cyan(s: Seq<char>, color: bool) -> Seq<char> {
    if color {
        painted(fg_style(TextColor::Cyan), s)
    } else {
        s
    }
}

pub open spec fn green(s: Seq<char>, color: bool) -> Seq<char> {
    if color {
        painted(fg_style(TextColor::Green), s)
    } else {
        s
    }
}

/// Section titles: bold white when colored.
pub open spec fn bold_text(s: Seq<char>, color: bool) -> Seq<char> {
    if color {
        painted(TextStyle { is_bold: true, ..fg_style(TextColor::White) }, s)
    } else {
        s
    }
}

/// Descriptions: dimmed white when colored.
pub open spec fn dim_text(s: Seq<char>, color: bool) -> Seq<char> {
    if color {
        painted(TextStyle { is_dimmed: true, ..fg_style(TextColor::White) }, s)
    } else {
        s
    }
}

/// Left column of an option: `-s, --long`, `-s`, or `    --long`, then
/// ` <value>` for value-taking options.
pub open spec fn option_head(o: CLOption) -> Seq<char> {
    let names = match (o.short, o.long) {
        (Some(s), Some(l)) => s@ + ", "@ + l@,
        (Some(s), None) => s@,
        (None, Some(l)) => "    "@ + l@,
        (None, None) => seq![],
    };
    if o.takes_value {
        names + " <"@ + o.value_name@ + ">"@
    } else {
        names
    }
}

/// `<name>` for a required argument, `[name]` for an optional one.
pub open spec fn argument_head(a: CLArgument) -> Seq<char> {
    if a.required {
        "<"@ + a.name@ + ">"@
    } else {
        "["@ + a.name@ + "]"@
    }
}

pub open spec fn option_row_spec(o: CLOption, color: bool) -> RowView {
    RowView {
        head_plain: option_head(o),
        head: cyan(option_head(o), color),
        description: dim_text(o.description@, color),
        has_description: o.description@.len() > 0,
    }
}

pub open spec fn argument_row_spec(a: CLArgument, color: bool) -> RowView {
    RowView {
        head_plain: argument_head(a),
        head: green(argument_head(a), color),
        description: dim_text(a.description@, color),
        has_description: a.description@.len() > 0,
    }
}

pub open spec fn subcommand_row_spec(s: CommandSchema, color: bool) -> RowView {
    RowView {
        head_plain: s.name@,
        head: cyan(s.name@, color),
        description: dim_text(s.description@, color),
        has_description: s.description@.len() > 0,
    }
}

pub open spec fn help_row_spec(color: bool) -> RowView {
    RowView {
        head_plain: "-h, --help"@,
        head: cyan("-h, --help"@, color),
        description: dim_text("Show this help message"@, color),
        has_description: true,
    }
}

/// Width of the widest left column, in characters.
pub open spec fn max_head(rows: Seq<RowView>) -> nat
    decreases rows.len(),
{
    if rows.len() == 0 {
        0
    } else {
        let m = max_head(rows.drop_last());
        if rows.last().head_plain.len() > m {
            rows.last().head_plain.len()
        } else {
            m
        }
    }
}

pub open spec fn spaces(n: nat) -> Seq<char> {
    Seq::new(n, |i: int| ' ')
}

/// A row laid out for a section whose widest left column is `width`: the
/// description starts 4 columns after the widest left column; rows without
/// description (an empty one before styling) are not padded, colored or not.
pub open spec fn row_line(r: RowView, width: nat) -> Seq<char> {
    "  "@ + r.head + (if r.has_description {
        spaces(
            (if width >= r.head_plain.len() {
                width - r.head_plain.len()
            } else {
                0
            }) as nat + 4,
        ) + r.description
    } else {
        seq![]
    }) + "\n"@
}

pub open spec fn rows_text(rows: Seq<RowView>, width: nat) -> Seq<char>
    decreases rows.len(),
{
    if rows.len() == 0 {
        seq![]
    } else {
        rows_text(rows.drop_last(), width) + row_line(rows.last(), width)
    }
}

/// A section's rows, aligned.
pub open spec fn section(rows: Seq<RowView>) -> Seq<char> {
    rows_text(rows, max_head(rows))
}

pub open spec fn argument_heads(args: Seq<CLArgument>) -> Seq<Seq<char>> {
    args.map_values(|a: CLArgument| argument_head(a))
}

pub open spec fn argument_rows(args: Seq<CLArgument>, color: bool) -> Seq<RowView> {
    args.map_values(|a: CLArgument| argument_row_spec(a, color))
}

pub open spec fn option_rows(opts: Seq<CLOption>, color: bool) -> Seq<RowView> {
    opts.map_values(|o: CLOption| option_row_spec(o, color))
}

pub open spec fn subcommand_rows(subs: Seq<CommandSchema>, color: bool) -> Seq<RowView> {
    subs.map_values(|s: CommandSchema| subcommand_row_spec(s, color))
}

pub open spec fn usage_parts(schema: CommandSchema) -> Seq<Seq<char>> {
    seq![schema.name@] + (if schema.options@.len() > 0 {
        seq!["[OPTIONS]"@]
    } else {
        seq![]
    }) + argument_heads(schema.arguments@) + (if schema.subcommands@.len()
        > 0 {
        seq!["<COMMAND>"@]
    } else {
        seq![]
    })
}

/// `name [OPTIONS] <arg> [opt] <COMMAND>`: positionals come before the
/// subcommand, in the order the parser binds them.
pub open spec fn usage_line_spec(schema: CommandSchema) -> Seq<char> {
    join(usage_parts(schema), " "@)
}

pub open spec fn arguments_section(schema: CommandSchema, color: bool) -> Seq<char> {
    bold_text("Arguments:"@, color) + "\n"@ + section(argument_rows(schema.arguments@, color)) + "\n"@
}

/// The options section always ends with the `-h, --help` row.
pub open spec fn options_section(schema: CommandSchema, color: bool) -> Seq<char> {
    bold_text("Options:"@, color) + "\n"@ + section(
        option_rows(schema.options@, color).push(help_row_spec(color)),
    )
}

pub open spec fn subcommands_section(schema: CommandSchema, color: bool) -> Seq<char> {
    "\n"@ + bold_text("Subcommands:"@, color) + "\n"@ + section(
        subcommand_rows(schema.subcommands@, color),
    )
}

/// The full help text for `schema`, styled when `color` holds.
pub open spec fn help_text(schema: CommandSchema, color: bool) -> Seq<char> {
    (if schema.description@.len() > 0 {
        schema.description@ + "\n\n"@
    } else {
        seq![]
    }) + bold_text("Usage:"@, color) + " "@ + usage_line_spec(schema) + "\n\n"@ + (if schema.arguments@.len()
        > 0 {
        arguments_section(schema, color)
    } else {
        seq![]
    }) + options_section(schema, color) + (if schema.subcommands@.len() > 0 {
        subcommands_section(schema, color)
    } else {
        seq![]
    })
}

// ---------------------------------------------------------------------------
// Rendering
// ---------------------------------------------------------------------------

struct Row {
    head_plain: String,
    head: String,
    description: String,
    has_description: bool,
}

impl Row {
    spec fn view(&self) -> RowView {
        RowView {
            head_plain: self.head_plain@,
            head: self.head@,
            description: self.description@,
            has_description: self.has_description,
        }
    }
}

spec fn rows_view(rows: Seq<Row>) -> Seq<RowView> {
    rows.map_values(|r: Row| r.view())
}

fn cyan_exec(s: &str, color: bool) -> (r: String)
    ensures
        r@ == cyan(s@, color),
{
    if color {
        Tint::cyan().paint(s)
    } else {
        owned(s)
    }
}

fn green_exec(s: &str, color: bool) -> (r: String)
    ensures
        r@ == green(s@, color),
{
    if color {
        Tint::green().paint(s)
    } else {
        owned(s)
    }
}

fn bold(s: &str, color: bool) -> (r: String)
    ensures
        r@ == bold_text(s@, color),
{
    if color {
        Tint::white().bold().paint(s)
    } else {
        owned(s)
    }
}

fn dim(s: &str, color: bool) -> (r: String)
    ensures
        r@ == dim_text(s@, color),
{
    if color {
        Tint::white().dimmed().paint(s)
    } else {
        owned(s)
    }
}

fn option_row(opt: &CLOption, color: bool) -> (r: Row)
    ensures
        r.view() == option_row_spec(*opt, color),
{
    let mut head = String::new();
    match (&opt.short, &opt.long) {
        (Some(s), Some(l)) => {
            append_str(&mut head, s.as_str());
            append_str(&mut head, ", ");
            append_str(&mut head, l.as_str());
        },
        (Some(s), None) => append_str(&mut head, s.as_str()),
        (None, Some(l)) => {
            append_str(&mut head, "    ");
            append_str(&mut head, l.as_str());
        },
        (None, None) => {},
    }
    proof {
        assert(head@ =~= option_head(CLOption { takes_value: false, ..*opt }));
    }
    if opt.takes_value {
        append_str(&mut head, " <");
        append_str(&mut head, opt.value_name.as_str());
        append_str(&mut head, ">");
    }
    let styled = cyan_exec(head.as_str(), color);
    Row {
        head_plain: head,
        head: styled,
        description: dim(opt.description.as_str(), color),
        has_description: !opt.description.as_str().is_empty(),
    }
}

fn argument_row(arg: &CLArgument, color: bool) -> (r: Row)
    ensures
        r.view() == argument_row_spec(*arg, color),
{
    let mut head_plain = String::new();
    if arg.required {
        append_str(&mut head_plain, "<");
        append_str(&mut head_plain, arg.name.as_str());
        append_str(&mut head_plain, ">");
    } else {
        append_str(&mut head_plain, "[");
        append_str(&mut head_plain, arg.name.as_str());
        append_str(&mut head_plain, "]");
    }
    let head = green_exec(head_plain.as_str(), color);
    Row {
        head_plain,
        head,
        description: dim(arg.description.as_str(), color),
        has_description: !arg.description.as_str().is_empty(),
    }
}

fn subcommand_row(sub: &CommandSchema, color: bool) -> (r: Row)
    ensures
        r.view() == subcommand_row_spec(*sub, color),
{
    Row {
        head_plain: sub.name.clone(),
        head: cyan_exec(sub.name.as_str(), color),
        description: dim(sub.description.as_str(), color),
        has_description: !sub.description.as_str().is_empty(),
    }
}

fn help_row(color: bool) -> (r: Row)
    ensures
        r.view() == help_row_spec(color),
{
    let head_plain = owned("-h, --help");
    let head = cyan_exec("-h, --help", color);
    Row { head_plain, head, description: dim("Show this help message", color), has_description: true }
}

proof fn lemma_max_head(rows: Seq<RowView>)
    ensures
        forall|i: int| 0 <= i < rows.len() ==> #[trigger] rows[i].head_plain.len() <= max_head(rows),
    decreases rows.len(),
{
    if rows.len() > 0 {
        lemma_max_head(rows.drop_last());
        assert forall|i: int| 0 <= i < rows.len() implies #[trigger] rows[i].head_plain.len() <= max_head(
            rows,
        ) by {
            if i < rows.len() - 1 {
                assert(rows[i] == rows.drop_last()[i]);
            }
        }
    }
}

proof fn lemma_rows_view_push(rows: Seq<Row>, r: Row)
    ensures
        rows_view(rows.push(r)) == rows_view(rows).push(r.view()),
{
    assert(rows_view(rows.push(r)) =~= rows_view(rows).push(r.view()));
}

proof fn lemma_strings_view_push(parts: Seq<String>, p: String)
    ensures
        strings_view(parts.push(p)) == strings_view(parts).push(p@),
{
    assert(strings_view(parts.push(p)) =~= strings_view(parts).push(p@));
}

proof fn lemma_mapped_step(
    args: Seq<CLArgument>,
    opts: Seq<CLOption>,
    subs: Seq<CommandSchema>,
    i: int,
    color: bool,
)
    ensures
        0 <= i < args.len() ==> argument_heads(args.take(i + 1)) == argument_heads(args.take(i)).push(
            argument_head(args[i]),
        ),
        0 <= i < args.len() ==> argument_rows(args.take(i + 1), color) == argument_rows(
            args.take(i),
            color,
        ).push(argument_row_spec(args[i], color)),
        0 <= i < opts.len() ==> option_rows(opts.take(i + 1), color) == option_rows(
            opts.take(i),
            color,
        ).push(option_row_spec(opts[i], color)),
        0 <= i < subs.len() ==> subcommand_rows(subs.take(i + 1), color) == subcommand_rows(
            subs.take(i),
            color,
        ).push(subcommand_row_spec(subs[i], color)),
{
    if 0 <= i < args.len() {
        assert(argument_heads(args.take(i + 1)) =~= argument_heads(args.take(i)).push(
            argument_head(args[i]),
        ));
        assert(argument_rows(args.take(i + 1), color) =~= argument_rows(args.take(i), color).push(
            argument_row_spec(args[i], color),
        ));
    }
    if 0 <= i < opts.len() {
        assert(option_rows(opts.take(i + 1), color) =~= option_rows(opts.take(i), color).push(
            option_row_spec(opts[i], color),
        ));
    }
    if 0 <= i < subs.len() {
        assert(subcommand_rows(subs.take(i + 1), color) =~= subcommand_rows(subs.take(i), color).push(
            subcommand_row_spec(subs[i], color),
        ));
    }
}

/// Appends the rows, aligning descriptions by padding each left column to the
/// widest one in the section plus a 4-space gutter.
fn write_rows(out: &mut String, rows: &Vec<Row>)
    ensures
        final(out)@ == old(out)@ + section(rows_view(rows@)),
{
    let ghost rv = rows_view(rows@);
    let mut max: usize = 0;
    let mut i: usize = 0;
    let mut widths: Vec<usize> = Vec::new();
    while i < rows.len()
        invariant
            i <= rows@.len(),
            rv == rows_view(rows@),
            max == max_head(rv.take(i as int)),
            widths@.len() == i,
            forall|j: int| 0 <= j < i ==> #[trigger] widths@[j] == rv[j].head_plain.len(),
        decreases rows.len() - i,
    {
        assert(rv.take(i + 1).drop_last() =~= rv.take(i as int));
        let w = chars_of(rows[i].head_plain.as_str()).len();
        widths.push(w);
        if w > max {
            max = w;
        }
        i = i + 1;
    }
    assert(rv.take(rows@.len() as int) =~= rv);
    proof {
        lemma_max_head(rv);
    }
    let ghost start = out@;
    let mut i: usize = 0;
    while i < rows.len()
        invariant
            i <= rows@.len(),
            rv == rows_view(rows@),
            max == max_head(rv),
            widths@.len() == rows@.len(),
            forall|j: int| 0 <= j < rows@.len() ==> #[trigger] widths@[j] == rv[j].head_plain.len(),
            forall|j: int| 0 <= j < rv.len() ==> #[trigger] rv[j].head_plain.len() <= max_head(rv),
            out@ == start + rows_text(rv.take(i as int), max as nat),
        decreases rows.len() - i,
    {
        let ghost before = out@;
        let row = &rows[i];
        assert(rv[i as int] == row.view());
        assert(widths@[i as int] <= max);
        append_str(out, "  ");
        append_str(out, row.head.as_str());
        let ghost mid = out@;
        if row.has_description {
            let pad = max - widths[i];
            let mut k: usize = 0;
            while k < pad
                invariant
                    k <= pad,
                    out@ == mid + spaces(k as nat),
                decreases pad - k,
            {
                push_char(out, ' ');
                k = k + 1;
                assert(out@ =~= mid + spaces(k as nat));
            }
            append_str(out, "    ");
            proof {
                reveal_strlit("    ");
            }
            assert(out@ =~= mid + spaces((pad + 4) as nat));
            append_str(out, row.description.as_str());
        } else {
            assert(mid + Seq::<char>::empty() =~= mid);
        }
        append_str(out, "\n");
        proof {
            assert(rv.take(i + 1).drop_last() =~= rv.take(i as int));
            assert(out@ =~= before + row_line(rv[i as int], max as nat));
        }
        i = i + 1;
    }
    assert(rv.take(rows@.len() as int) =~= rv);
}

/// The usage line: `name [OPTIONS] <arg> [opt] <COMMAND>`, positionals
/// presented in the order the parser binds them, before the subcommand.
pub fn usage_line(schema: &CommandSchema) -> (r: String)
    ensures
        r@ == usage_line_spec(*schema),
{
    let mut parts: Vec<String> = Vec::new();
    let name = schema.name.clone();
    proof {
        lemma_strings_view_push(parts@, name);
    }
    parts.push(name);
    if schema.options.len() > 0 {
        let o = owned("[OPTIONS]");
        proof {
            lemma_strings_view_push(parts@, o);
        }
        parts.push(o);
    }
    let ghost base = strings_view(parts@);
    let mut i: usize = 0;
    while i < schema.arguments.len()
        invariant
            i <= schema.arguments@.len(),
            strings_view(parts@) == base + argument_heads(schema.arguments@.take(i as int)),
        decreases schema.arguments.len() - i,
    {
        let arg = &schema.arguments[i];
        let mut p = String::new();
        if arg.required {
            append_str(&mut p, "<");
            append_str(&mut p, arg.name.as_str());
            append_str(&mut p, ">");
        } else {
            append_str(&mut p, "[");
            append_str(&mut p, arg.name.as_str());
            append_str(&mut p, "]");
        }
        proof {
            lemma_strings_view_push(parts@, p);
            lemma_mapped_step(schema.arguments@, seq![], seq![], i as int, false);
            assert(p@ =~= argument_head(schema.arguments@[i as int]));
        }
        parts.push(p);
        i = i + 1;
    }
    assert(schema.arguments@.take(schema.arguments@.len() as int) =~= schema.arguments@);
    if schema.subcommands.len() > 0 {
        let c = owned("<COMMAND>");
        proof {
            lemma_strings_view_push(parts@, c);
        }
        parts.push(c);
    }
    assert(strings_view(parts@) =~= usage_parts(*schema));
    join_strings(&parts, " ")
}

fn write_arguments(out: &mut String, schema: &CommandSchema, color: bool)
    ensures
        final(out)@ == old(out)@ + arguments_section(*schema, color),
{
    let title = bold("Arguments:", color);
    append_str(out, title.as_str());
    append_str(out, "\n");
    let mut rows: Vec<Row> = Vec::new();
    let mut i: usize = 0;
    while i < schema.arguments.len()
        invariant
            i <= schema.arguments@.len(),
            rows_view(rows@) == argument_rows(schema.arguments@.take(i as int), color),
        decreases schema.arguments.len() - i,
    {
        let row = argument_row(&schema.arguments[i], color);
        proof {
            lemma_rows_view_push(rows@, row);
            lemma_mapped_step(schema.arguments@, seq![], seq![], i as int, color);
        }
        rows.push(row);
        i = i + 1;
    }
    assert(schema.arguments@.take(schema.arguments@.len() as int) =~= schema.arguments@);
    write_rows(out, &rows);
    append_str(out, "\n");
}

fn write_options(out: &mut String, schema: &CommandSchema, color: bool)
    ensures
        final(out)@ == old(out)@ + options_section(*schema, color),
{
    let title = bold("Options:", color);
    append_str(out, title.as_str());
    append_str(out, "\n");
    let mut rows: Vec<Row> = Vec::new();
    let mut i: usize = 0;
    while i < schema.options.len()
        invariant
            i <= schema.options@.len(),
            rows_view(rows@) == option_rows(schema.options@.take(i as int), color),
        decreases schema.options.len() - i,
    {
        let row = option_row(&schema.options[i], color);
        proof {
            lemma_rows_view_push(rows@, row);
            lemma_mapped_step(seq![], schema.options@, seq![], i as int, color);
        }
        rows.push(row);
        i = i + 1;
    }
    assert(schema.options@.take(schema.options@.len() as int) =~= schema.options@);
    let help = help_row(color);
    proof {
        lemma_rows_view_push(rows@, help);
    }
    rows.push(help);
    write_rows(out, &rows);
}

fn write_subcommands(out: &mut String, schema: &CommandSchema, color: bool)
    ensures
        final(out)@ == old(out)@ + subcommands_section(*schema, color),
{
    append_str(out, "\n");
    let title = bold("Subcommands:", color);
    append_str(out, title.as_str());
    append_str(out, "\n");
    let mut rows: Vec<Row> = Vec::new();
    let mut i: usize = 0;
    while i < schema.subcommands.len()
        invariant
            i <= schema.subcommands@.len(),
            rows_view(rows@) == subcommand_rows(schema.subcommands@.take(i as int), color),
        decreases schema.subcommands.len() - i,
    {
        let row = subcommand_row(&schema.subcommands[i], color);
        proof {
            lemma_rows_view_push(rows@, row);
            lemma_mapped_step(seq![], seq![], schema.subcommands@, i as int, color);
        }
        rows.push(row);
        i = i + 1;
    }
    assert(schema.subcommands@.take(schema.subcommands@.len() as int) =~= schema.subcommands@);
    write_rows(out, &rows);
}

/// Formats help output for a schema. The result is ANSI-styled when the
/// destination stream is a terminal and plain otherwise.
pub struct HelpPrinter;

impl HelpPrinter {
    /// Help text for stderr: colored exactly when stderr is a terminal.
    pub fn format(schema: &CommandSchema) -> (r: String)
        ensures
            r@ == help_text(*schema, true) || r@ == help_text(*schema, false),
    {
        Self::format_with_color(schema, supports_color())
    }

    /// Help text, styled when `color` holds.
    pub fn format_with_color(schema: &CommandSchema, color: bool) -> (r: String)
        ensures
            r@ == help_text(*schema, color),
    {
        let mut out = String::new();
        if !schema.description.as_str().is_empty() {
            append_str(&mut out, schema.description.as_str());
            append_str(&mut out, "\n\n");
        }
        let title = bold("Usage:", color);
        append_str(&mut out, title.as_str());
        append_str(&mut out, " ");
        let usage = usage_line(schema);
        append_str(&mut out, usage.as_str());
        append_str(&mut out, "\n\n");
        if schema.arguments.len() > 0 {
            write_arguments(&mut out, schema, color);
        }
        write_options(&mut out, schema, color);
        if schema.subcommands.len() > 0 {
            write_subcommands(&mut out, schema, color);
        }
        assert(out@ =~= help_text(*schema, color));
        out
    }
}

/// Law: in a plain (uncolored) section, every description starts in the same
/// column, two spaces plus the widest left column plus a 4-space gutter in,
/// and the line ends right after it.
pub proof fn lemma_descriptions_aligned(rows: Seq<RowView>, i: int)
    requires
        0 <= i < rows.len(),
        rows[i].head == rows[i].head_plain,
        rows[i].has_description,
    ensures
        row_line(rows[i], max_head(rows)).len() == max_head(rows) + 7 + rows[i].description.len(),
        row_line(rows[i], max_head(rows)).subrange(
            max_head(rows) + 6int,
            max_head(rows) + 6int + rows[i].description.len(),
        ) == rows[i].description,
{
    lemma_max_head(rows);
    reveal_strlit("  ");
    reveal_strlit("\n");
    let r = rows[i];
    let w = max_head(rows);
    assert(r.head_plain.len() <= w);
    let lead = "  "@ + r.head + spaces((w - r.head_plain.len()) as nat + 4);
    assert(row_line(r, w) =~= lead + r.description + "\n"@);
    assert(lead.len() == w + 6);
    assert((lead + r.description + "\n"@).subrange(w + 6int, w + 6int + r.description.len()) =~= r.description);
}

/// Law: the left column of a value-taking option ends with ` <`, the
/// option's own placeholder, and `>`; a flag's shows no placeholder. So
/// `option_named`'s placeholder is what help shows.
pub proof fn lemma_option_head_placeholder(o: CLOption)
    ensures
        o.takes_value ==> ({
            let h = option_head(o);
            let tail = " <"@ + o.value_name@ + ">"@;
            &&& h.len() >= tail.len()
            &&& h.subrange(h.len() - tail.len(), h.len() as int) == tail
        }),
        !o.takes_value ==> option_head(o) == match (o.short, o.long) {
            (Some(s), Some(l)) => s@ + ", "@ + l@,
            (Some(s), None) => s@,
            (None, Some(l)) => "    "@ + l@,
            (None, None) => seq![],
        },
{
    let names = match (o.short, o.long) {
        (Some(s), Some(l)) => s@ + ", "@ + l@,
        (Some(s), None) => s@,
        (None, Some(l)) => "    "@ + l@,
        (None, None) => seq![],
    };
    if o.takes_value {
        let tail = " <"@ + o.value_name@ + ">"@;
        assert(option_head(o) == names + tail);
        assert((names + tail).subrange(names.len() as int, (names + tail).len() as int) =~= tail);
    }
}

/// Law: in plain help, the row of each option starts with two spaces and
/// the option's left column, placeholder included.
pub proof fn lemma_option_row_shows_head(o: CLOption, width: nat)
    ensures
        row_line(option_row_spec(o, false), width).subrange(0, 2int + option_head(o).len()) == "  "@
            + option_head(o),
{
    reveal_strlit("  ");
    let r = option_row_spec(o, false);
    assert(r.head == option_head(o));
    let rest = (if r.has_description {
        spaces(
            (if width >= r.head_plain.len() {
                width - r.head_plain.len()
            } else {
                0
            }) as nat + 4,
        ) + r.description
    } else {
        seq![]
    }) + "\n"@;
    assert(row_line(r, width) =~= ("  "@ + option_head(o)) + rest);
    assert((("  "@ + option_head(o)) + rest).subrange(0, 2int + option_head(o).len()) =~= "  "@ + option_head(o));
}

} // verus!
