//! The layout of a command declared as a struct or an enum: which schema
//! call and which extraction each field of a command struct becomes, and
//! which subcommand each variant of a command enum registers.
//!
//! The declarations are described by plain values: a field's name, the
//! shape of its type (`bool`, `Option<T>`, `Vec<T>` or any other `T`), its
//! `option`/`argument` marks and its doc comment lines.

use vstd::prelude::*;
use crate::text::{owned, str_eq};
use crate::str_util::{trimmed, str_trim, lowercase, str_to_lowercase};
use super::error::{join, join_strings, strings_view};
use super::schema::{prefix_names, split_prefix, opt_view, names_an_option, is_option_prefix};

verus! {

/// The shape of a field's type.
#[derive(Clone, Copy, Debug, PartialEq, Eq, Structural)]
pub enum FieldShape {
    /// `bool`: always a flag.
    Flag,
    /// `Option<T>`: an optional value.
    Optional,
    /// `Vec<T>`: a repeatable value.
    Vec,
    /// Any other type: a required value.
    Required,
}

/// A field's type as far as its shape depends on it: for a path type, the
/// last segment's name and how many generic arguments it has in angle
/// brackets (none when it has no angle brackets), and whether the path is
/// qualified (`<T as Trait>::Name`). Other types (references, tuples,
/// arrays) are not paths.
#[derive(Debug)]
pub enum TypeDecl {
    Path { qualified: bool, last: String, angle_args: Option<usize> },
    Other,
}

/// `bool` is a flag; `Option<T>` optional; `Vec<T>` repeatable; any other
/// type required. Only an unqualified path whose last segment is the name
/// counts, with no generic arguments for `bool` and exactly one for the
/// others.
pub open spec fn shape_spec(t: TypeDecl) -> FieldShape {
    match t {
        TypeDecl::Path { qualified, last, angle_args } => if qualified {
            FieldShape::Required
        } else if last@ == "bool"@ && angle_args is None {
            FieldShape::Flag
        } else if last@ == "Option"@ && angle_args == Some(1usize) {
            FieldShape::Optional
        } else if last@ == "Vec"@ && angle_args == Some(1usize) {
            FieldShape::Vec
        } else {
            FieldShape::Required
        },
        TypeDecl::Other => FieldShape::Required,
    }
}

/// The shape of a field of type `t`.
pub fn classify_shape(t: &TypeDecl) -> (r: FieldShape)
    ensures
        r == shape_spec(*t),
{
    match t {
        TypeDecl::Path { qualified, last, angle_args } => {
            if *qualified {
                FieldShape::Required
            } else if str_eq(last.as_str(), "bool") && angle_args.is_none() {
                FieldShape::Flag
            } else if str_eq(last.as_str(), "Option") && *angle_args == Some(1usize) {
                FieldShape::Optional
            } else if str_eq(last.as_str(), "Vec") && *angle_args == Some(1usize) {
                FieldShape::Vec
            } else {
                FieldShape::Required
            }
        },
        TypeDecl::Other => FieldShape::Required,
    }
}

/// An `option("prefix", description = ..)` or `argument(description = ..)`
/// mark on a field.
#[derive(Debug)]
pub enum FieldMark {
    Option { prefix: String, description: Option<String> },
    Argument { description: Option<String> },
}

/// A field of a command struct.
#[derive(Debug)]
pub struct FieldDecl {
    pub ident: String,
    pub shape: FieldShape,
    /// The field's `option`/`argument` marks, in order.
    pub marks: Vec<FieldMark>,
    /// The field's doc comment lines.
    pub doc: Vec<String>,
}

/// Why a declaration has no layout.
#[derive(Clone, Copy, Debug, PartialEq, Eq, Structural)]
pub enum LayoutError {
    /// A field has neither an `option` nor an `argument` mark.
    NoMark,
    /// A field has more than one `option`/`argument` mark.
    MultipleMarks,
    /// An `option` mark's prefix has no part starting with `-`.
    BadPrefix,
    /// A `bool` field is marked as a positional argument.
    ArgumentOnFlag,
    /// A `Vec` field is marked as a positional argument.
    RepeatedPositional,
    /// The struct's fields have no names.
    UnnamedFields,
    /// The enum has no variant.
    NoVariants,
    /// A variant does not wrap exactly one command struct.
    VariantShape,
}

/// The schema call a field becomes.
pub enum StepView {
    Flag { prefix: Seq<char>, description: Seq<char> },
    Option { prefix: Seq<char>, description: Seq<char> },
    Argument { name: Seq<char>, description: Seq<char> },
    OptionalArgument { name: Seq<char>, description: Seq<char> },
}

/// How a field is read back from a parse result, by the name given.
pub enum ExtractView {
    Flag(Seq<char>),
    Get(Seq<char>),
    All(Seq<char>),
    Require(Seq<char>),
}

pub struct FieldLayoutView {
    pub ident: Seq<char>,
    pub step: StepView,
    pub extract: ExtractView,
}

/// The schema call a field becomes: `flag`, `option`, `argument` or
/// `optional_argument`, with its prefix or name and its description.
#[derive(Debug)]
pub enum SchemaStep {
    Flag { prefix: String, description: String },
    Option { prefix: String, description: String },
    Argument { name: String, description: String },
    OptionalArgument { name: String, description: String },
}

impl SchemaStep {
    pub open spec fn view(&self) -> StepView {
        match self {
            SchemaStep::Flag { prefix, description } => StepView::Flag {
                prefix: prefix@,
                description: description@,
            },
            SchemaStep::Option { prefix, description } => StepView::Option {
                prefix: prefix@,
                description: description@,
            },
            SchemaStep::Argument { name, description } => StepView::Argument {
                name: name@,
                description: description@,
            },
            SchemaStep::OptionalArgument { name, description } => StepView::OptionalArgument {
                name: name@,
                description: description@,
            },
        }
    }
}

/// How a field is read back: `flag`, `get`, `all` or `require`, by name.
#[derive(Debug)]
pub enum Extract {
    Flag(String),
    Get(String),
    All(String),
    Require(String),
}

impl Extract {
    pub open spec fn view(&self) -> ExtractView {
        match self {
            Extract::Flag(n) => ExtractView::Flag(n@),
            Extract::Get(n) => ExtractView::Get(n@),
            Extract::All(n) => ExtractView::All(n@),
            Extract::Require(n) => ExtractView::Require(n@),
        }
    }
}

/// What a field of a command struct becomes.
#[derive(Debug)]
pub struct FieldLayout {
    pub ident: String,
    pub step: SchemaStep,
    pub extract: Extract,
}

impl FieldLayout {
    pub open spec fn view(&self) -> FieldLayoutView {
        FieldLayoutView { ident: self.ident@, step: self.step.view(), extract: self.extract.view() }
    }
}

// ---------------------------------------------------------------------------
// The rules
// ---------------------------------------------------------------------------

pub open spec fn trimmed_lines(lines: Seq<String>) -> Seq<Seq<char>> {
    lines.map_values(|l: String| trimmed(l@))
}

/// A doc comment as one description: the lines trimmed, joined with single
/// spaces, trimmed again; none when that is empty.
pub open spec fn doc_spec(lines: Seq<String>) -> Option<Seq<char>> {
    let joined = trimmed(join(trimmed_lines(lines), " "@));
    if joined.len() == 0 {
        None
    } else {
        Some(joined)
    }
}

/// The name a field marked `option(prefix)` is read back by: the long name
/// when the prefix has one, else the short name (dashes included).
pub open spec fn lookup_spec(prefix: Seq<char>) -> Seq<char> {
    match prefix_names(prefix) {
        (_, Some(l)) => l,
        (Some(s), None) => s,
        (None, None) => seq![],
    }
}

pub open spec fn mark_description(m: FieldMark) -> Option<Seq<char>> {
    match m {
        FieldMark::Option { description, .. } => opt_view(description),
        FieldMark::Argument { description } => opt_view(description),
    }
}

/// The layout of one field. Its single mark decides between an option and
/// a positional argument, its shape between the calls; the description is
/// the mark's own, else the doc comment, else empty.
pub open spec fn field_layout_spec(f: FieldDecl) -> Result<FieldLayoutView, LayoutError> {
    if f.marks@.len() == 0 {
        Err(LayoutError::NoMark)
    } else if f.marks@.len() > 1 {
        Err(LayoutError::MultipleMarks)
    } else {
        let m = f.marks@[0];
        let desc = match mark_description(m) {
            Some(d) => d,
            None => match doc_spec(f.doc@) {
                Some(d) => d,
                None => seq![],
            },
        };
        match m {
            FieldMark::Option { prefix, .. } => if !names_an_option(prefix@) {
                Err(LayoutError::BadPrefix)
            } else {
                let key = lookup_spec(prefix@);
                Ok(
                    FieldLayoutView {
                        ident: f.ident@,
                        step: if f.shape == FieldShape::Flag {
                            StepView::Flag { prefix: prefix@, description: desc }
                        } else {
                            StepView::Option { prefix: prefix@, description: desc }
                        },
                        extract: match f.shape {
                            FieldShape::Flag => ExtractView::Flag(key),
                            FieldShape::Optional => ExtractView::Get(key),
                            FieldShape::Vec => ExtractView::All(key),
                            FieldShape::Required => ExtractView::Require(key),
                        },
                    },
                )
            },
            FieldMark::Argument { .. } => match f.shape {
                FieldShape::Flag => Err(LayoutError::ArgumentOnFlag),
                FieldShape::Vec => Err(LayoutError::RepeatedPositional),
                FieldShape::Optional => Ok(
                    FieldLayoutView {
                        ident: f.ident@,
                        step: StepView::OptionalArgument { name: f.ident@, description: desc },
                        extract: ExtractView::Get(f.ident@),
                    },
                ),
                FieldShape::Required => Ok(
                    FieldLayoutView {
                        ident: f.ident@,
                        step: StepView::Argument { name: f.ident@, description: desc },
                        extract: ExtractView::Require(f.ident@),
                    },
                ),
            },
        }
    }
}

/// The layouts of the fields in order; the first field without one decides
/// the error.
pub open spec fn fields_layout_spec(fs: Seq<FieldDecl>) -> Result<Seq<FieldLayoutView>, LayoutError>
    decreases fs.len(),
{
    if fs.len() == 0 {
        Ok(seq![])
    } else {
        match fields_layout_spec(fs.drop_last()) {
            Err(e) => Err(e),
            Ok(ls) => match field_layout_spec(fs.last()) {
                Err(e) => Err(e),
                Ok(l) => Ok(ls.push(l)),
            },
        }
    }
}

// ---------------------------------------------------------------------------
// Fields
// ---------------------------------------------------------------------------

/// A doc comment as one description (see `doc_spec`).
pub fn collect_doc(lines: &Vec<String>) -> (r: Option<String>)
    ensures
        opt_view(r) == doc_spec(lines@),
{
    let mut parts: Vec<String> = Vec::new();
    let mut i: usize = 0;
    while i < lines.len()
        invariant
            i <= lines@.len(),
            strings_view(parts@) == trimmed_lines(lines@.take(i as int)),
        decreases lines.len() - i,
    {
        let ghost before = parts@;
        let part = owned(str_trim(lines[i].as_str()));
        parts.push(part);
        assert(strings_view(parts@) =~= strings_view(before).push(part@));
        assert(trimmed_lines(lines@.take(i + 1)) =~= trimmed_lines(lines@.take(i as int)).push(
            trimmed(lines@[i as int]@),
        ));
        i = i + 1;
    }
    assert(lines@.take(lines@.len() as int) =~= lines@);
    let joined = join_strings(&parts, " ");
    let t = str_trim(joined.as_str());
    if t.is_empty() {
        None
    } else {
        Some(owned(t))
    }
}

/// The name a field marked `option(prefix)` is read back by.
pub fn lookup_name(prefix: &str) -> (r: String)
    ensures
        r@ == lookup_spec(prefix@),
{
    let (short, long) = split_prefix(prefix);
    match long {
        Some(l) => l,
        None => match short {
            Some(s) => s,
            None => String::new(),
        },
    }
}

/// The layout of one field of a command struct.
pub fn layout_field(f: &FieldDecl) -> (r: Result<FieldLayout, LayoutError>)
    ensures
        match field_layout_spec(*f) {
            Ok(v) => r matches Ok(l) && l.view() == v,
            Err(e) => r == Err::<FieldLayout, LayoutError>(e),
        },
{
    if f.marks.len() == 0 {
        return Err(LayoutError::NoMark);
    }
    if f.marks.len() > 1 {
        return Err(LayoutError::MultipleMarks);
    }
    let own = match &f.marks[0] {
        FieldMark::Option { description, .. } => description,
        FieldMark::Argument { description } => description,
    };
    let description = match own {
        Some(d) => d.clone(),
        None => match collect_doc(&f.doc) {
            Some(d) => d,
            None => String::new(),
        },
    };
    match &f.marks[0] {
        FieldMark::Option { prefix, .. } => {
            if !is_option_prefix(prefix.as_str()) {
                return Err(LayoutError::BadPrefix);
            }
            let key = lookup_name(prefix.as_str());
            let step = if f.shape == FieldShape::Flag {
                SchemaStep::Flag { prefix: prefix.clone(), description }
            } else {
                SchemaStep::Option { prefix: prefix.clone(), description }
            };
            let extract = match f.shape {
                FieldShape::Flag => Extract::Flag(key),
                FieldShape::Optional => Extract::Get(key),
                FieldShape::Vec => Extract::All(key),
                FieldShape::Required => Extract::Require(key),
            };
            Ok(FieldLayout { ident: f.ident.clone(), step, extract })
        },
        FieldMark::Argument { .. } => match f.shape {
            FieldShape::Flag => Err(LayoutError::ArgumentOnFlag),
            FieldShape::Vec => Err(LayoutError::RepeatedPositional),
            FieldShape::Optional => Ok(
                FieldLayout {
                    ident: f.ident.clone(),
                    step: SchemaStep::OptionalArgument { name: f.ident.clone(), description },
                    extract: Extract::Get(f.ident.clone()),
                },
            ),
            FieldShape::Required => Ok(
                FieldLayout {
                    ident: f.ident.clone(),
                    step: SchemaStep::Argument { name: f.ident.clone(), description },
                    extract: Extract::Require(f.ident.clone()),
                },
            ),
        },
    }
}

// ---------------------------------------------------------------------------
// Structs
// ---------------------------------------------------------------------------

/// The fields of a command struct.
#[derive(Debug)]
pub enum FieldsDecl {
    Named(Vec<FieldDecl>),
    Unit,
    Unnamed,
}

/// A command struct: its name, its `command(name = .., description = ..)`
/// values, its doc comment lines and its fields.
#[derive(Debug)]
pub struct StructDecl {
    pub ident: String,
    pub name: Option<String>,
    pub description: Option<String>,
    pub doc: Vec<String>,
    pub fields: FieldsDecl,
}

pub struct CommandLayoutView {
    pub name: Seq<char>,
    pub description: Seq<char>,
    pub fields: Seq<FieldLayoutView>,
}

/// What a command struct becomes: the schema's name and description and
/// each field's layout.
#[derive(Debug)]
pub struct CommandLayout {
    pub name: String,
    pub description: String,
    pub fields: Vec<FieldLayout>,
}

pub open spec fn layouts_view(ls: Seq<FieldLayout>) -> Seq<FieldLayoutView> {
    ls.map_values(|l: FieldLayout| l.view())
}

impl CommandLayout {
    pub open spec fn view(&self) -> CommandLayoutView {
        CommandLayoutView {
            name: self.name@,
            description: self.description@,
            fields: layouts_view(self.fields@),
        }
    }
}

/// The layout of a command struct: named after the struct unless a name is
/// given; described by the given description, else the doc comment, else
/// nothing.
pub open spec fn struct_layout_spec(d: StructDecl) -> Result<CommandLayoutView, LayoutError> {
    let name = match opt_view(d.name) {
        Some(n) => n,
        None => d.ident@,
    };
    let description = match opt_view(d.description) {
        Some(t) => t,
        None => match doc_spec(d.doc@) {
            Some(t) => t,
            None => seq![],
        },
    };
    match d.fields {
        FieldsDecl::Unit => Ok(CommandLayoutView { name, description, fields: seq![] }),
        FieldsDecl::Unnamed => Err(LayoutError::UnnamedFields),
        FieldsDecl::Named(fs) => match fields_layout_spec(fs@) {
            Err(e) => Err(e),
            Ok(ls) => Ok(CommandLayoutView { name, description, fields: ls }),
        },
    }
}

fn layout_fields(fs: &Vec<FieldDecl>) -> (r: Result<Vec<FieldLayout>, LayoutError>)
    ensures
        match fields_layout_spec(fs@) {
            Ok(v) => r matches Ok(ls) && layouts_view(ls@) == v,
            Err(e) => r == Err::<Vec<FieldLayout>, LayoutError>(e),
        },
{
    let mut out: Vec<FieldLayout> = Vec::new();
    let mut i: usize = 0;
    assert(fs@.take(0) =~= Seq::<FieldDecl>::empty());
    assert(layouts_view(out@) =~= Seq::<FieldLayoutView>::empty());
    while i < fs.len()
        invariant
            i <= fs@.len(),
            fields_layout_spec(fs@.take(i as int)) == Ok::<Seq<FieldLayoutView>, LayoutError>(
                layouts_view(out@),
            ),
        decreases fs.len() - i,
    {
        assert(fs@.take(i + 1).drop_last() =~= fs@.take(i as int));
        assert(fs@.take(i + 1).last() == fs@[i as int]);
        match layout_field(&fs[i]) {
            Ok(l) => {
                let ghost before = out@;
                out.push(l);
                assert(layouts_view(out@) =~= layouts_view(before).push(l.view()));
            },
            Err(e) => {
                proof {
                    lemma_fields_error_persists(fs@, i as int + 1);
                }
                return Err(e);
            },
        }
        i = i + 1;
    }
    assert(fs@.take(fs@.len() as int) =~= fs@);
    Ok(out)
}

/// Once a prefix of the fields has no layout, no longer prefix has one.
proof fn lemma_fields_error_persists(fs: Seq<FieldDecl>, n: int)
    requires
        0 <= n <= fs.len(),
        fields_layout_spec(fs.take(n)) is Err,
    ensures
        fields_layout_spec(fs) == fields_layout_spec(fs.take(n)),
    decreases fs.len() - n,
{
    if n < fs.len() {
        assert(fs.take(n + 1).drop_last() =~= fs.take(n));
        lemma_fields_error_persists(fs, n + 1);
    } else {
        assert(fs.take(n) =~= fs);
    }
}

/// The layout of a command struct.
pub fn layout_struct(d: &StructDecl) -> (r: Result<CommandLayout, LayoutError>)
    ensures
        match struct_layout_spec(*d) {
            Ok(v) => r matches Ok(l) && l.view() == v,
            Err(e) => r == Err::<CommandLayout, LayoutError>(e),
        },
{
    let name = match &d.name {
        Some(n) => n.clone(),
        None => d.ident.clone(),
    };
    let description = match &d.description {
        Some(t) => t.clone(),
        None => match collect_doc(&d.doc) {
            Some(t) => t,
            None => String::new(),
        },
    };
    match &d.fields {
        FieldsDecl::Unit => {
            let r = CommandLayout { name, description, fields: Vec::new() };
            assert(layouts_view(r.fields@) =~= Seq::<FieldLayoutView>::empty());
            Ok(r)
        },
        FieldsDecl::Unnamed => Err(LayoutError::UnnamedFields),
        FieldsDecl::Named(fs) => match layout_fields(fs) {
            Ok(fields) => Ok(CommandLayout { name, description, fields }),
            Err(e) => Err(e),
        },
    }
}

// ---------------------------------------------------------------------------
// Enums
// ---------------------------------------------------------------------------

/// A variant of a command enum: its name, whether it wraps exactly one
/// command struct, its `command(name = ..)` value and its doc comment.
#[derive(Debug)]
pub struct VariantDecl {
    pub ident: String,
    pub wraps_one: bool,
    pub name: Option<String>,
    pub doc: Vec<String>,
}

pub struct RegistrationView {
    pub name: Seq<char>,
    pub description: Option<Seq<char>>,
}

/// A subcommand to register: its name, and the description to show in
/// place of the struct's own, if any.
#[derive(Debug)]
pub struct Registration {
    pub name: String,
    pub description: Option<String>,
}

impl Registration {
    pub open spec fn view(&self) -> RegistrationView {
        RegistrationView { name: self.name@, description: opt_view(self.description) }
    }
}

pub open spec fn registrations_view(rs: Seq<Registration>) -> Seq<RegistrationView> {
    rs.map_values(|r: Registration| r.view())
}

/// A variant registers under the given name, else its own name lowercased,
/// described by its doc comment.
pub open spec fn variant_spec(v: VariantDecl) -> Result<RegistrationView, LayoutError> {
    if !v.wraps_one {
        Err(LayoutError::VariantShape)
    } else {
        Ok(
            RegistrationView {
                name: match opt_view(v.name) {
                    Some(n) => n,
                    None => lowercase(v.ident@),
                },
                description: doc_spec(v.doc@),
            },
        )
    }
}

pub open spec fn variants_spec(vs: Seq<VariantDecl>) -> Result<Seq<RegistrationView>, LayoutError>
    decreases vs.len(),
{
    if vs.len() == 0 {
        Ok(seq![])
    } else {
        match variants_spec(vs.drop_last()) {
            Err(e) => Err(e),
            Ok(rs) => match variant_spec(vs.last()) {
                Err(e) => Err(e),
                Ok(r) => Ok(rs.push(r)),
            },
        }
    }
}

/// The subcommands a command enum registers, one per variant in order.
pub open spec fn enum_layout_spec(vs: Seq<VariantDecl>) -> Result<Seq<RegistrationView>, LayoutError> {
    if vs.len() == 0 {
        Err(LayoutError::NoVariants)
    } else {
        variants_spec(vs)
    }
}

proof fn lemma_variants_error_persists(vs: Seq<VariantDecl>, n: int)
    requires
        0 <= n <= vs.len(),
        variants_spec(vs.take(n)) is Err,
    ensures
        variants_spec(vs) == variants_spec(vs.take(n)),
    decreases vs.len() - n,
{
    if n < vs.len() {
        assert(vs.take(n + 1).drop_last() =~= vs.take(n));
        lemma_variants_error_persists(vs, n + 1);
    } else {
        assert(vs.take(n) =~= vs);
    }
}

/// The subcommand one variant registers.
pub fn layout_variant(v: &VariantDecl) -> (r: Result<Registration, LayoutError>)
    ensures
        match variant_spec(*v) {
            Ok(x) => r matches Ok(g) && g.view() == x,
            Err(e) => r == Err::<Registration, LayoutError>(e),
        },
{
    if !v.wraps_one {
        return Err(LayoutError::VariantShape);
    }
    let name = match &v.name {
        Some(n) => n.clone(),
        None => str_to_lowercase(v.ident.as_str()),
    };
    Ok(Registration { name, description: collect_doc(&v.doc) })
}

/// The subcommands a command enum registers.
pub fn layout_enum(vs: &Vec<VariantDecl>) -> (r: Result<Vec<Registration>, LayoutError>)
    ensures
        match enum_layout_spec(vs@) {
            Ok(x) => r matches Ok(rs) && registrations_view(rs@) == x,
            Err(e) => r == Err::<Vec<Registration>, LayoutError>(e),
        },
{
    if vs.len() == 0 {
        return Err(LayoutError::NoVariants);
    }
    let mut out: Vec<Registration> = Vec::new();
    let mut i: usize = 0;
    assert(vs@.take(0) =~= Seq::<VariantDecl>::empty());
    assert(registrations_view(out@) =~= Seq::<RegistrationView>::empty());
    while i < vs.len()
        invariant
            i <= vs@.len(),
            variants_spec(vs@.take(i as int)) == Ok::<Seq<RegistrationView>, LayoutError>(
                registrations_view(out@),
            ),
        decreases vs.len() - i,
    {
        assert(vs@.take(i + 1).drop_last() =~= vs@.take(i as int));
        assert(vs@.take(i + 1).last() == vs@[i as int]);
        match layout_variant(&vs[i]) {
            Ok(g) => {
                let ghost before = out@;
                out.push(g);
                assert(registrations_view(out@) =~= registrations_view(before).push(g.view()));
            },
            Err(e) => {
                proof {
                    lemma_variants_error_persists(vs@, i as int + 1);
                }
                return Err(e);
            },
        }
        i = i + 1;
    }
    assert(vs@.take(vs@.len() as int) =~= vs@);
    Ok(out)
}

} // verus!
