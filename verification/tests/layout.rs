use runi::cli::layout::{
    classify_shape, TypeDecl, collect_doc, layout_enum, layout_field, layout_struct, lookup_name, Extract, FieldDecl,
    FieldMark, FieldShape, FieldsDecl, LayoutError, SchemaStep, StructDecl, VariantDecl,
};

fn s(v: &str) -> String {
    v.to_string()
}

fn doc(lines: &[&str]) -> Vec<String> {
    lines.iter().map(|l| l.to_string()).collect()
}

fn option(prefix: &str) -> FieldMark {
    FieldMark::Option { prefix: s(prefix), description: None }
}

fn argument() -> FieldMark {
    FieldMark::Argument { description: None }
}

fn field(ident: &str, shape: FieldShape, marks: Vec<FieldMark>, lines: &[&str]) -> FieldDecl {
    FieldDecl { ident: s(ident), shape, marks, doc: doc(lines) }
}

#[test]
fn doc_lines_are_trimmed_and_joined() {
    assert_eq!(collect_doc(&doc(&[" Say hello. ", "  Twice. "])), Some(s("Say hello. Twice.")));
    assert_eq!(collect_doc(&doc(&["   ", ""])), None);
    assert_eq!(collect_doc(&doc(&[])), None);
}

#[test]
fn lookup_prefers_long_name() {
    assert_eq!(lookup_name("-l,--loud"), "--loud");
    assert_eq!(lookup_name("-j"), "-j");
    assert_eq!(lookup_name("--target"), "--target");
}

#[test]
fn greeter_struct_layout() {
    let decl = StructDecl {
        ident: s("Greeter"),
        name: Some(s("greet")),
        description: None,
        doc: doc(&[" Say hello."]),
        fields: FieldsDecl::Named(vec![
            field("loud", FieldShape::Flag, vec![option("-l,--loud")], &[" Shout instead of whisper."]),
            field("target", FieldShape::Required, vec![argument()], &[" Who to greet."]),
        ]),
    };
    let layout = layout_struct(&decl).unwrap();
    assert_eq!(layout.name, "greet");
    assert_eq!(layout.description, "Say hello.");
    assert_eq!(layout.fields.len(), 2);
    match &layout.fields[0].step {
        SchemaStep::Flag { prefix, description } => {
            assert_eq!(prefix, "-l,--loud");
            assert_eq!(description, "Shout instead of whisper.");
        }
        other => panic!("unexpected {other:?}"),
    }
    assert!(matches!(&layout.fields[0].extract, Extract::Flag(n) if n == "--loud"));
    match &layout.fields[1].step {
        SchemaStep::Argument { name, description } => {
            assert_eq!(name, "target");
            assert_eq!(description, "Who to greet.");
        }
        other => panic!("unexpected {other:?}"),
    }
    assert!(matches!(&layout.fields[1].extract, Extract::Require(n) if n == "target"));
}

#[test]
fn option_shapes_choose_the_extraction() {
    let jobs = layout_field(&field("jobs", FieldShape::Optional, vec![option("-j,--jobs")], &[])).unwrap();
    assert!(matches!(jobs.step, SchemaStep::Option { .. }));
    assert!(matches!(&jobs.extract, Extract::Get(n) if n == "--jobs"));
    let features =
        layout_field(&field("features", FieldShape::Vec, vec![option("-F,--feature")], &[])).unwrap();
    assert!(matches!(&features.extract, Extract::All(n) if n == "--feature"));
    let target = layout_field(&field("target", FieldShape::Required, vec![option("--target")], &[])).unwrap();
    assert!(matches!(&target.extract, Extract::Require(n) if n == "--target"));
}

#[test]
fn optional_positional_is_an_optional_argument() {
    let out = layout_field(&field("out", FieldShape::Optional, vec![argument()], &["Output path."])).unwrap();
    match &out.step {
        SchemaStep::OptionalArgument { name, description } => {
            assert_eq!(name, "out");
            assert_eq!(description, "Output path.");
        }
        other => panic!("unexpected {other:?}"),
    }
    assert!(matches!(&out.extract, Extract::Get(n) if n == "out"));
}

#[test]
fn own_description_beats_doc_comment() {
    let f = field(
        "verbose",
        FieldShape::Flag,
        vec![FieldMark::Option { prefix: s("-v,--verbose"), description: Some(s("inline")) }],
        &["field doc"],
    );
    match layout_field(&f).unwrap().step {
        SchemaStep::Flag { description, .. } => assert_eq!(description, "inline"),
        other => panic!("unexpected {other:?}"),
    }
}

#[test]
fn field_errors() {
    let e = |f: FieldDecl| layout_field(&f).unwrap_err();
    assert_eq!(e(field("a", FieldShape::Flag, vec![], &[])), LayoutError::NoMark);
    assert_eq!(e(field("a", FieldShape::Flag, vec![option("verbose")], &[])), LayoutError::BadPrefix);
    assert_eq!(e(field("a", FieldShape::Flag, vec![option("")], &[])), LayoutError::BadPrefix);
    assert_eq!(
        e(field("a", FieldShape::Flag, vec![option("-a"), argument()], &[])),
        LayoutError::MultipleMarks
    );
    assert_eq!(e(field("a", FieldShape::Flag, vec![argument()], &[])), LayoutError::ArgumentOnFlag);
    assert_eq!(e(field("a", FieldShape::Vec, vec![argument()], &[])), LayoutError::RepeatedPositional);
}

#[test]
fn struct_defaults_and_errors() {
    let unit = StructDecl {
        ident: s("Ping"),
        name: None,
        description: None,
        doc: doc(&[]),
        fields: FieldsDecl::Unit,
    };
    let layout = layout_struct(&unit).unwrap();
    assert_eq!(layout.name, "Ping");
    assert_eq!(layout.description, "");
    assert!(layout.fields.is_empty());

    let tuple = StructDecl { fields: FieldsDecl::Unnamed, ..unit };
    assert_eq!(layout_struct(&tuple).unwrap_err(), LayoutError::UnnamedFields);

    let explicit = StructDecl {
        ident: s("Described"),
        name: None,
        description: Some(s("explicit description wins")),
        doc: doc(&["Struct-level doc."]),
        fields: FieldsDecl::Named(vec![
            field("ok", FieldShape::Flag, vec![option("-o")], &[]),
            field("bad", FieldShape::Flag, vec![], &[]),
            field("worse", FieldShape::Vec, vec![argument()], &[]),
        ]),
    };
    assert_eq!(layout_struct(&explicit).unwrap_err(), LayoutError::NoMark);
}

#[test]
fn enum_variants_register_lowercased_with_doc() {
    let vs = vec![
        VariantDecl { ident: s("Init"), wraps_one: true, name: None, doc: doc(&[" Initialize a repository."]) },
        VariantDecl { ident: s("Clone"), wraps_one: true, name: Some(s("cl")), doc: doc(&[]) },
    ];
    let regs = layout_enum(&vs).unwrap();
    assert_eq!(regs.len(), 2);
    assert_eq!(regs[0].name, "init");
    assert_eq!(regs[0].description.as_deref(), Some("Initialize a repository."));
    assert_eq!(regs[1].name, "cl");
    assert_eq!(regs[1].description, None);
}

#[test]
fn enum_errors() {
    assert_eq!(layout_enum(&vec![]).unwrap_err(), LayoutError::NoVariants);
    let vs = vec![VariantDecl { ident: s("Bad"), wraps_one: false, name: None, doc: doc(&[]) }];
    assert_eq!(layout_enum(&vs).unwrap_err(), LayoutError::VariantShape);
}

fn path(last: &str, args: Option<usize>) -> TypeDecl {
    TypeDecl::Path { qualified: false, last: s(last), angle_args: args }
}

#[test]
fn field_types_decide_the_shape() {
    assert_eq!(classify_shape(&path("bool", None)), FieldShape::Flag);
    assert_eq!(classify_shape(&path("Option", Some(1))), FieldShape::Optional);
    assert_eq!(classify_shape(&path("Vec", Some(1))), FieldShape::Vec);
    assert_eq!(classify_shape(&path("String", None)), FieldShape::Required);
    assert_eq!(classify_shape(&path("Vec", Some(2))), FieldShape::Required);
    assert_eq!(classify_shape(&path("bool", Some(0))), FieldShape::Required);
    assert_eq!(
        classify_shape(&TypeDecl::Path { qualified: true, last: s("bool"), angle_args: None }),
        FieldShape::Required
    );
    assert_eq!(classify_shape(&TypeDecl::Other), FieldShape::Required);
}
