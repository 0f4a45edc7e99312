use thiserror_core::ast::{Data, DeriveInput, FieldDecl, Fields, MemberUnraw, VariantDecl};
use thiserror_core::attr::{Attribute, Meta, Token, Trait, Wrap};
use thiserror_core::diag::ErrorKind;
use thiserror_core::expand::{Derived, DisplayBody, ErrorImpl, SourceArm};
use thiserror_core::generics::{Generics, Predicate};
use thiserror_core::ty::{GenericArg, PathArgs, Segment, Type, TypeKind};

fn path_ty(name: &str) -> Type {
    Type {
        kind: TypeKind::Path {
            qself: None,
            segments: vec![Segment { ident: name.to_string(), args: PathArgs::Bare }],
        },
        text: name.to_string(),
    }
}

fn option_of(inner: Type) -> Type {
    let text = format!("Option < {} >", inner.text);
    Type {
        kind: TypeKind::Path {
            qself: None,
            segments: vec![Segment {
                ident: "Option".to_string(),
                args: PathArgs::Angle(vec![GenericArg::Type(inner)]),
            }],
        },
        text,
    }
}

fn marker(name: &str, loc: usize) -> Attribute {
    Attribute { name: name.to_string(), meta: Meta::Path, loc }
}

fn template(fmt: &str, loc: usize) -> Attribute {
    Attribute {
        name: "error".to_string(),
        meta: Meta::List(vec![Token::Str(fmt.to_string())]),
        loc,
    }
}

fn transparent(loc: usize) -> Attribute {
    Attribute {
        name: "error".to_string(),
        meta: Meta::List(vec![Token::Ident("transparent".to_string())]),
        loc,
    }
}

fn named(name: &str, ty: Type, attrs: Vec<Attribute>) -> FieldDecl {
    FieldDecl { loc: 100, attrs, ident: Some(name.to_string()), ty, ty_loc: 101 }
}

fn unnamed(ty: Type, attrs: Vec<Attribute>) -> FieldDecl {
    FieldDecl { loc: 100, attrs, ident: None, ty, ty_loc: 101 }
}

fn generics(params: &[&str]) -> Generics {
    Generics { type_params: params.iter().map(|p| p.to_string()).collect(), where_clause: Vec::new() }
}

fn struct_input(name: &str, attrs: Vec<Attribute>, fields: Fields, params: &[&str]) -> DeriveInput {
    DeriveInput { loc: 1, attrs, ident: name.to_string(), generics: generics(params), data: Data::Struct(fields) }
}

fn enum_input(name: &str, attrs: Vec<Attribute>, variants: Vec<VariantDecl>) -> DeriveInput {
    DeriveInput { loc: 1, attrs, ident: name.to_string(), generics: generics(&[]), data: Data::Enum(variants) }
}

fn variant(name: &str, loc: usize, attrs: Vec<Attribute>, fields: Fields) -> VariantDecl {
    VariantDecl { loc, attrs, ident: name.to_string(), fields }
}

fn planned(input: DeriveInput) -> ErrorImpl {
    match thiserror_core::expand::derive(input) {
        Derived::Impl(plan) => plan,
        Derived::Fallback(f) => panic!("rejected at {}", f.error.loc),
    }
}

fn rejected(input: DeriveInput) -> (usize, ErrorKind) {
    match thiserror_core::expand::derive(input) {
        Derived::Impl(_) => panic!("accepted"),
        Derived::Fallback(f) => (f.error.loc, f.error.kind),
    }
}

fn is_named(m: &MemberUnraw, name: &str) -> bool {
    matches!(m, MemberUnraw::Named(n) if n == name)
}

fn struct_source(plan: &ErrorImpl) -> &SourceArm {
    &plan.source.as_ref().expect("a cause accessor")[0].1
}

#[test]
fn test_implicit_source() {
    let input = struct_input(
        "ImplicitSource",
        vec![template("implicit source", 1)],
        Fields::Named(vec![named("source", path_ty("io::Error"), vec![])]),
        &[],
    );
    let plan = planned(input);
    match struct_source(&plan) {
        SourceArm::Field { member, optional, .. } => {
            assert!(is_named(member, "source"));
            assert!(!optional);
        }
        _ => panic!("no cause"),
    }
}

#[test]
fn test_explicit_source() {
    let input = struct_input(
        "ExplicitSource",
        vec![template("explicit source", 1)],
        Fields::Named(vec![
            named("source", path_ty("String"), vec![]),
            named("io", path_ty("io::Error"), vec![marker("source", 7)]),
        ]),
        &[],
    );
    let plan = planned(input);
    match struct_source(&plan) {
        SourceArm::Field { member, loc, .. } => {
            assert!(is_named(member, "io"));
            assert_eq!(*loc, 7);
        }
        _ => panic!("no cause"),
    }
}

#[test]
fn test_option() {
    let anyhow = || path_ty("anyhow::Error");
    let bt = || path_ty("Backtrace");
    let shapes: Vec<Vec<FieldDecl>> = vec![
        vec![named("source", option_of(anyhow()), vec![marker("source", 2)])],
        vec![named("source", option_of(anyhow()), vec![marker("source", 2)]), named("backtrace", bt(), vec![])],
        vec![named("backtrace", option_of(bt()), vec![marker("backtrace", 3)])],
        vec![named("source", anyhow(), vec![]), named("backtrace", option_of(bt()), vec![marker("backtrace", 3)])],
        vec![
            named("source", option_of(anyhow()), vec![marker("source", 2)]),
            named("backtrace", option_of(bt()), vec![marker("backtrace", 3)]),
        ],
    ];
    for fields in shapes {
        let copy = fields.iter().map(|f| FieldDecl {
            loc: f.loc,
            attrs: f.attrs.iter().map(|a| marker(&a.name, a.loc)).collect(),
            ident: f.ident.clone(),
            ty: if f.ident.as_deref() == Some("source") {
                if matches!(&f.ty.kind, TypeKind::Path { segments, .. } if segments[0].ident == "Option") {
                    option_of(anyhow())
                } else {
                    anyhow()
                }
            } else if matches!(&f.ty.kind, TypeKind::Path { segments, .. } if segments[0].ident == "Option") {
                option_of(bt())
            } else {
                bt()
            },
            ty_loc: f.ty_loc,
        }).collect::<Vec<_>>();
        planned(struct_input("S", vec![template("...", 1)], Fields::Named(fields), &[]));
        planned(enum_input("E", vec![], vec![variant("Test", 5, vec![template("...", 6)], Fields::Named(copy))]));
    }
}

#[test]
fn test_backtrace_test_backtrace() {
    let plain = planned(struct_input(
        "PlainBacktrace",
        vec![template("...", 1)],
        Fields::Named(vec![named("backtrace", path_ty("Backtrace"), vec![])]),
        &[],
    ));
    let provide = plain.provide.as_ref().expect("a provider");
    assert!(provide[0].1.source.is_none());
    assert!(is_named(&provide[0].1.backtrace.as_ref().unwrap().0, "backtrace"));

    let opt = planned(struct_input(
        "OptBacktrace",
        vec![template("...", 1)],
        Fields::Named(vec![named("backtrace", option_of(path_ty("Backtrace")), vec![marker("backtrace", 2)])]),
        &[],
    ));
    let provide = opt.provide.as_ref().expect("a provider");
    assert!(provide[0].1.backtrace.as_ref().unwrap().1);

    let from = planned(struct_input(
        "OptBacktraceFrom",
        vec![template("...", 1)],
        Fields::Named(vec![
            named("source", path_ty("Inner"), vec![marker("from", 2)]),
            named("backtrace", option_of(path_ty("Backtrace")), vec![marker("backtrace", 3)]),
        ]),
        &[],
    ));
    assert_eq!(from.froms.len(), 1);
    let captured = from.froms[0].backtrace.as_ref().expect("captures the backtrace");
    assert!(is_named(&captured.0, "backtrace"));
    assert!(captured.1);
    assert_eq!(from.froms[0].from_ty, "Inner");

    let boxed = planned(struct_input(
        "BoxDynErrorBacktrace",
        vec![template("...", 1)],
        Fields::Named(vec![named("source", path_ty("Box"), vec![marker("backtrace", 2)])]),
        &[],
    ));
    let provide = boxed.provide.as_ref().expect("a provider");
    assert!(is_named(&provide[0].1.source.as_ref().unwrap().0, "source"));
    assert!(provide[0].1.backtrace.is_none());
}

#[test]
fn test_no_std() {
    let plan = planned(enum_input(
        "MyError",
        vec![],
        vec![
            variant("A", 5, vec![template("A", 6)], Fields::Unit),
            variant("B", 7, vec![template("B {0}", 8)], Fields::Unnamed(vec![unnamed(path_ty("IoError"), vec![marker("from", 9)])])),
        ],
    ));
    let arms = plan.source.as_ref().expect("a cause accessor");
    assert!(matches!(arms[0].1, SourceArm::Absent));
    assert!(matches!(&arms[1].1, SourceArm::Field { member: MemberUnraw::Unnamed(0), .. }));
    assert_eq!(plan.froms.len(), 1);
    assert_eq!(plan.froms[0].variant.as_deref(), Some("B"));
    assert_eq!(plan.froms[0].from_ty, "IoError");
}

#[test]
fn test() {
    let error = planned(enum_input(
        "Error",
        vec![],
        vec![variant("E", 5, vec![template("Error::E", 6)], Fields::Unnamed(vec![unnamed(path_ty("SourceError"), vec![marker("from", 9)])]))],
    ));
    assert_eq!(error.froms[0].from_ty, "SourceError");
    let display = error.display.as_ref().expect("a rendering");
    match &display.arms[0].body {
        DisplayBody::Template(d) => assert_eq!(d.fmt, "Error::E"),
        _ => panic!("not a template"),
    }

    let source = planned(struct_input(
        "SourceError",
        vec![template("SourceError {field}", 1)],
        Fields::Named(vec![named("field", path_ty("i32"), vec![])]),
        &[],
    ));
    let display = source.display.as_ref().expect("a rendering");
    match &display.arms[0].body {
        DisplayBody::Template(d) => {
            assert_eq!(d.fmt, "SourceError {__display_field}");
            assert_eq!(d.bindings.len(), 1);
            assert_eq!(d.bindings[0].local, "__display_field");
            assert_eq!(d.bindings[0].value, "field");
            assert_eq!(d.bindings[0].wrap, Wrap::AsDisplay);
        }
        _ => panic!("not a template"),
    }
    assert!(display.use_as_display);
}

#[test]
fn autobox() {
    let plan = planned(enum_input(
        "ErrorEnum",
        vec![],
        vec![
            variant("Any", 5, vec![template("bad", 6)], Fields::Unnamed(vec![unnamed(path_ty("anyhow::Error"), vec![marker("from", 7)])])),
            variant("Big", 8, vec![template("worse", 9)], Fields::Unnamed(vec![unnamed(path_ty("VeryLargeError"), vec![marker("from", 10)])])),
        ],
    ));
    let tys: Vec<&str> = plan.froms.iter().map(|f| f.from_ty.as_str()).collect();
    assert_eq!(tys, vec!["anyhow::Error", "VeryLargeError"]);
}

#[test]
fn source_field_with_extra_field_is_rejected() {
    let input = struct_input(
        "E",
        vec![],
        Fields::Named(vec![
            named("code", path_ty("u32"), vec![]),
            named("source", path_ty("io::Error"), vec![marker("from", 4)]),
        ]),
        &[],
    );
    assert_eq!(rejected(input), (4, ErrorKind::FromWithExtraFields));
    let alone = struct_input(
        "E",
        vec![],
        Fields::Named(vec![named("source", path_ty("io::Error"), vec![marker("from", 4)])]),
        &[],
    );
    let plan = planned(alone);
    assert!(matches!(struct_source(&plan), SourceArm::Field { member, .. } if is_named(member, "source")));
    assert_eq!(plan.froms.len(), 1);
    assert_eq!(plan.froms[0].from_ty, "io::Error");
    assert!(!plan.froms[0].optional);
}

#[test]
fn template_with_one_field_reference() {
    let plan = planned(struct_input(
        "E",
        vec![template("failed: {code}", 1)],
        Fields::Named(vec![named("code", path_ty("u32"), vec![])]),
        &[],
    ));
    let display = plan.display.as_ref().unwrap();
    match &display.arms[0].body {
        DisplayBody::Template(d) => {
            assert_eq!(d.fmt, "failed: {__display_code}");
            assert_eq!(d.bindings.len(), 1);
            assert_eq!(d.bindings[0].value, "code");
            assert_eq!(d.implied_bounds, vec![(0, Trait::Display)]);
        }
        _ => panic!("not a template"),
    }
    assert!(display.where_clause.predicates.is_empty());
}

#[test]
fn debug_reference_to_generic_field_bounds_the_parameter() {
    let plan = planned(struct_input(
        "E",
        vec![template("{0:?}", 1)],
        Fields::Unnamed(vec![unnamed(path_ty("T"), vec![])]),
        &["T"],
    ));
    let display = plan.display.as_ref().unwrap();
    match &display.arms[0].body {
        DisplayBody::Template(d) => {
            assert_eq!(d.fmt, "{__field0:?}");
            assert_eq!(d.implied_bounds, vec![(0, Trait::Debug)]);
        }
        _ => panic!("not a template"),
    }
    let preds = &display.where_clause.predicates;
    assert_eq!(preds.len(), 1);
    match &preds[0] {
        Predicate::Bound { ty, bounds } => {
            assert_eq!(ty, "T");
            assert_eq!(bounds, &vec!["::core::fmt::Debug".to_string()]);
        }
        _ => panic!("not a bound"),
    }
}

#[test]
fn variant_without_template_is_rejected() {
    let input = enum_input(
        "E",
        vec![],
        vec![
            variant("A", 5, vec![template("a", 6)], Fields::Unit),
            variant("B", 7, vec![], Fields::Unit),
        ],
    );
    assert_eq!(rejected(input), (7, ErrorKind::MissingDisplay));
    let sibling = enum_input("E", vec![], vec![variant("A", 5, vec![template("a", 6)], Fields::Unit)]);
    planned(sibling);
}

#[test]
fn enum_template_is_inherited() {
    let plan = planned(enum_input(
        "E",
        vec![template("all {0}", 2)],
        vec![variant("A", 5, vec![], Fields::Unnamed(vec![unnamed(path_ty("u8"), vec![])]))],
    ));
    match &plan.display.as_ref().unwrap().arms[0].body {
        DisplayBody::Template(d) => assert_eq!(d.fmt, "all {__display0}"),
        _ => panic!("not a template"),
    }
}

#[test]
fn transparent_needs_exactly_one_field() {
    let input = struct_input(
        "E",
        vec![transparent(3)],
        Fields::Named(vec![
            named("a", path_ty("A"), vec![]),
            named("b", path_ty("B"), vec![]),
        ]),
        &[],
    );
    assert_eq!(rejected(input), (3, ErrorKind::TransparentNeedsOneField));
    let plan = planned(struct_input(
        "E",
        vec![transparent(3)],
        Fields::Unnamed(vec![unnamed(path_ty("T"), vec![])]),
        &["T"],
    ));
    assert!(matches!(struct_source(&plan), SourceArm::Transparent { member: MemberUnraw::Unnamed(0) }));
    let preds = &plan.where_clause.predicates;
    assert_eq!(preds.len(), 2);
    match &preds[0] {
        Predicate::Bound { ty, bounds } => {
            assert_eq!(ty, "T");
            assert_eq!(bounds, &vec!["::thiserror::__private::Error".to_string()]);
        }
        _ => panic!("not a bound"),
    }
    match &preds[1] {
        Predicate::Bound { ty, bounds } => {
            assert_eq!(ty, "Self");
            assert_eq!(bounds.len(), 2);
        }
        _ => panic!("not a bound"),
    }
}

#[test]
fn union_is_rejected() {
    let input = DeriveInput { loc: 9, attrs: vec![], ident: "U".to_string(), generics: generics(&[]), data: Data::Union };
    assert_eq!(rejected(input), (9, ErrorKind::UnionNotSupported));
}

#[test]
fn attribute_form_adds_backtrace_and_default_templates() {
    let plain = struct_input("S", vec![template("s", 1)], Fields::Named(vec![named("code", path_ty("u32"), vec![])]), &[]);
    match thiserror_core::expand::try_expand_to_derive(plain) {
        Ok(thiserror_core::expand::Additions::Struct { add_backtrace }) => assert!(add_backtrace),
        _ => panic!("no struct additions"),
    }
    let caused = struct_input("S", vec![template("s", 1)], Fields::Named(vec![named("source", path_ty("io::Error"), vec![])]), &[]);
    match thiserror_core::expand::try_expand_to_derive(caused) {
        Ok(thiserror_core::expand::Additions::Struct { add_backtrace }) => assert!(!add_backtrace),
        _ => panic!("no struct additions"),
    }
    let e = enum_input(
        "E",
        vec![],
        vec![
            variant("A", 5, vec![template("a", 6)], Fields::Unit),
            variant("B", 7, vec![transparent(8)], Fields::Unnamed(vec![unnamed(path_ty("X"), vec![])])),
        ],
    );
    match thiserror_core::expand::try_expand_to_derive(e) {
        Ok(thiserror_core::expand::Additions::Enum { variants }) => assert_eq!(variants, vec![(true, false), (false, true)]),
        _ => panic!("no enum additions"),
    }
}

#[test]
fn enum_rendering_function_and_empty_enum() {
    let fmt_attr = Attribute {
        name: "error".to_string(),
        meta: Meta::List(vec![Token::Ident("fmt".to_string()), Token::Punct('=', false), Token::Ident("render".to_string())]),
        loc: 4,
    };
    let plan = planned(enum_input(
        "E",
        vec![],
        vec![variant("A", 5, vec![fmt_attr], Fields::Unnamed(vec![unnamed(path_ty("u8"), vec![]), unnamed(path_ty("u16"), vec![])]))],
    ));
    match &plan.display.as_ref().unwrap().arms[0].body {
        DisplayBody::Function { path, vars } => {
            assert_eq!(path.len(), 1);
            assert_eq!(vars, &vec!["_0".to_string(), "_1".to_string()]);
        }
        _ => panic!("not a function"),
    }
    let empty = planned(enum_input("Void", vec![], vec![]));
    let display = empty.display.as_ref().expect("a rendering");
    assert!(display.void_deref);
    assert!(display.arms.is_empty());
    assert!(empty.source.is_none());
    assert!(empty.provide.is_none());
}

#[test]
fn variant_provider_arms() {
    let plan = planned(enum_input(
        "E",
        vec![],
        vec![
            variant("A", 5, vec![template("a", 6)], Fields::Named(vec![
                named("source", path_ty("Inner"), vec![]),
                named("backtrace", path_ty("Backtrace"), vec![]),
            ])),
            variant("B", 7, vec![template("b", 8)], Fields::Named(vec![
                named("source", path_ty("Inner"), vec![marker("backtrace", 9)]),
            ])),
            variant("C", 10, vec![template("c", 11)], Fields::Unit),
        ],
    ));
    let arms = plan.provide.as_ref().expect("a provider");
    assert!(is_named(&arms[0].1.source.as_ref().unwrap().0, "source"));
    assert!(is_named(&arms[0].1.backtrace.as_ref().unwrap().0, "backtrace"));
    assert!(is_named(&arms[1].1.source.as_ref().unwrap().0, "source"));
    assert!(arms[1].1.backtrace.is_none());
    assert!(arms[2].1.source.is_none() && arms[2].1.backtrace.is_none());
    let marked = planned(enum_input(
        "F",
        vec![],
        vec![variant("A", 5, vec![template("a", 6)], Fields::Named(vec![
            named("source", path_ty("Inner"), vec![]),
            named("trace", path_ty("Trace"), vec![marker("backtrace", 9)]),
        ]))],
    ));
    let arms = marked.provide.as_ref().expect("a provider");
    assert!(is_named(&arms[0].1.source.as_ref().unwrap().0, "source"));
    assert!(is_named(&arms[0].1.backtrace.as_ref().unwrap().0, "trace"));
}
