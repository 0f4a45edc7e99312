use thiserror_core::ast::{ContainerKind, Data, DeriveInput, Field, FieldDecl, Fields, MemberUnraw, VariantDecl};
use thiserror_core::attr::{
    get, parse_token_expr, Attribute, Attrs, Delimiter, Display, Meta, Token, Trait, Wrap,
};
use thiserror_core::diag::{Error, ErrorKind};
use thiserror_core::expand::Derived;
use thiserror_core::fmt::{explicit_named_args, take_ident, take_int};
use thiserror_core::generics::{Generics, InferredBounds, ParamsInScope, Predicate};
use thiserror_core::ty::{
    contains_non_static_lifetime, type_is_backtrace, type_is_location, type_is_option,
    unoptional_type, GenericArg, PathArgs, Segment, Type, TypeKind,
};
use thiserror_core::unraw::to_local;

fn ty_path(name: &str, args: PathArgs) -> Type {
    Type {
        kind: TypeKind::Path { qself: None, segments: vec![Segment { ident: name.to_string(), args }] },
        text: name.to_string(),
    }
}

fn ty_ref(lifetime: Option<&str>, elem: Type) -> Type {
    Type { kind: TypeKind::Reference { lifetime: lifetime.map(|l| l.to_string()), elem: Box::new(elem) }, text: "&".to_string() }
}

fn no_attrs() -> Attrs {
    Attrs { display: None, source: None, backtrace: None, from: None, transparent: None, fmt: None }
}

fn field(member: MemberUnraw, generic: bool) -> Field {
    Field { loc: 0, attrs: no_attrs(), member, ty: ty_path("T", PathArgs::Bare), ty_loc: 0, contains_generic: generic }
}

fn named_field(name: &str) -> Field {
    field(MemberUnraw::Named(name.to_string()), false)
}

fn display(fmt: &str, args: Vec<Token>) -> Display {
    Display {
        loc: 3,
        fmt: fmt.to_string(),
        requires_fmt_machinery: !args.is_empty(),
        args,
        has_bonus_display: false,
        infinite_recursive: false,
        implied_bounds: Vec::new(),
        bindings: Vec::new(),
    }
}

fn comma() -> Token {
    Token::Punct(',', false)
}

fn eq() -> Token {
    Token::Punct('=', false)
}

fn ident(s: &str) -> Token {
    Token::Ident(s.to_string())
}

fn compiled(fmt: &str, args: Vec<Token>, fields: &Vec<Field>) -> Display {
    let mut d = display(fmt, args);
    d.expand_shorthand(fields, ContainerKind::Struct).unwrap();
    d
}

fn attr(name: &str, meta: Meta, loc: usize) -> Attribute {
    Attribute { name: name.to_string(), meta, loc }
}

fn error_attr(tokens: Vec<Token>, loc: usize) -> Attribute {
    attr("error", Meta::List(tokens), loc)
}

fn get_err(attrs: Vec<Attribute>) -> Error {
    match get(&attrs) {
        Ok(_) => panic!("accepted"),
        Err(e) => e,
    }
}

#[test]
fn escaped_braces_are_kept() {
    let fields = vec![named_field("a")];
    let d = compiled("fn main() {{}}", vec![], &fields);
    assert_eq!(d.fmt, "fn main() {{}}");
    assert!(d.implied_bounds.is_empty());
    assert!(d.bindings.is_empty());
    assert!(d.requires_fmt_machinery);
    let plain = compiled("braced error", vec![], &fields);
    assert_eq!(plain.fmt, "braced error");
    assert!(!plain.requires_fmt_machinery);
}

#[test]
fn references_that_name_no_field_pass_through() {
    let fields = vec![named_field("a")];
    assert_eq!(compiled("{x} {007}", vec![], &fields).fmt, "{x} {7}");
    let d = compiled("{self}", vec![], &fields);
    assert_eq!(d.fmt, "{self}");
    assert!(d.infinite_recursive);
    assert!(d.has_bonus_display);
    assert!(d.implied_bounds.is_empty());
}

#[test]
fn specifiers_pick_capabilities() {
    let fields = vec![field(MemberUnraw::Unnamed(0), true), field(MemberUnraw::Unnamed(1), false)];
    let d = compiled("{0:x} {1:p} {0:?} {0:E} {1:>8}", vec![], &fields);
    assert_eq!(d.fmt, "{__field0:x} {__pointer1:p} {__field0:?} {__field0:E} {__field1:>8}");
    assert_eq!(
        d.implied_bounds,
        vec![(0, Trait::LowerHex), (1, Trait::Pointer), (0, Trait::Debug), (0, Trait::UpperExp), (1, Trait::Display)]
    );
    let locals: Vec<&str> = d.bindings.iter().map(|b| b.local.as_str()).collect();
    assert_eq!(locals, vec!["__field0", "__pointer1", "__field1"]);
    assert_eq!(d.bindings[1].wrap, Wrap::Pointer);
    assert_eq!(d.bindings[1].value, "_1");
}

#[test]
fn repeated_reference_is_bound_once() {
    let fields = vec![named_field("code")];
    let d = compiled("{code} and {code}", vec![], &fields);
    assert_eq!(d.fmt, "{__display_code} and {__display_code}");
    assert_eq!(d.bindings.len(), 1);
    assert_eq!(d.implied_bounds, vec![(0, Trait::Display)]);
}

#[test]
fn user_arguments_are_not_fields() {
    let fields = vec![named_field("code")];
    let d = compiled("{code}", vec![comma(), ident("code"), eq(), Token::Int("5".to_string())], &fields);
    assert_eq!(d.fmt, "{code}");
    assert!(d.bindings.is_empty());
    let clash = vec![comma(), ident("__display_code"), eq(), Token::Int("1".to_string())];
    let d = compiled("{code}", clash, &fields);
    assert_eq!(d.fmt, "{___display_code}");
    assert_eq!(d.bindings[0].local, "___display_code");
}

#[test]
fn keyword_field_is_bound_raw() {
    let fields = vec![named_field("r#type")];
    let d = compiled("{type}", vec![], &fields);
    assert_eq!(d.fmt, "{__display_type}");
    assert_eq!(d.bindings[0].value, "r#type");
    assert_eq!(to_local(&"r#type".to_string()), "r#type");
    assert_eq!(to_local(&"r#self".to_string()), "self");
    assert_eq!(to_local(&"r#foo".to_string()), "foo");
}

#[test]
fn positional_reference_is_ambiguous_among_named_fields() {
    let fields = vec![named_field("a")];
    let mut d = display("{0}", vec![comma(), ident("x"), eq(), Token::Int("1".to_string())]);
    let r = d.expand_shorthand(&fields, ContainerKind::StructVariant);
    assert_eq!(r, Err(Error { loc: 3, kind: ErrorKind::AmbiguousPositional(ContainerKind::StructVariant) }));
    assert_eq!(ContainerKind::StructVariant.name(), "struct variant");
    let unnamed_only = compiled("{0}", vec![comma(), ident("a")], &fields);
    assert_eq!(unnamed_only.fmt, "{0}");
    let positional = vec![field(MemberUnraw::Unnamed(0), false)];
    let named_arg = compiled("{0}", vec![comma(), ident("x"), eq(), Token::Int("1".to_string())], &positional);
    assert_eq!(named_arg.fmt, "{__display0}");
}

#[test]
fn unterminated_reference_leaves_template() {
    let fields = vec![named_field("a")];
    let d = compiled("oops {a", vec![], &fields);
    assert_eq!(d.fmt, "oops {a");
    assert!(d.bindings.is_empty());
    assert!(d.requires_fmt_machinery);
}

#[test]
fn scanning_arguments() {
    let args = vec![comma(), ident("a"), eq(), Token::Int("1".to_string()), comma(), ident("b"), Token::Punct('=', true), Token::Punct('=', false), ident("c")];
    let parsed = explicit_named_args(&args);
    assert_eq!(parsed.named, vec!["a".to_string()]);
    assert!(parsed.has_unnamed);
    let odd = vec![ident("x"), comma(), ident("y"), eq(), ident("z")];
    let parsed = explicit_named_args(&odd);
    assert_eq!(parsed.named, vec!["y".to_string()]);
    assert!(!parsed.has_unnamed);
}

#[test]
fn take_runs() {
    let cs: Vec<char> = "12ab_3}".chars().collect();
    assert_eq!(take_int(&cs, 0), 2);
    assert_eq!(take_ident(&cs, 2), 6);
    assert_eq!(take_int(&cs, 2), 2);
}

#[test]
fn field_accesses_in_arguments_are_rewritten() {
    let dot = || Token::Punct('.', false);
    let tokens = vec![comma(), dot(), Token::Int("0".to_string()), comma(), dot(), ident("field"), comma(), dot(), Token::Float("1.2".to_string())];
    let out = parse_token_expr(&tokens, false).unwrap();
    let texts: Vec<String> = out.iter().map(|t| match t {
        Token::Ident(s) => s.clone(),
        Token::Punct(c, _) => c.to_string(),
        Token::Int(s) => s.clone(),
        _ => "?".to_string(),
    }).collect();
    assert_eq!(texts, vec![",", "_0", ",", "field", ",", "_1", ".", "2"]);
    let nested = vec![Token::Group(Delimiter::Paren, vec![dot(), Token::Int("3".to_string())])];
    match &parse_token_expr(&nested, false).unwrap()[0] {
        Token::Group(_, inner) => assert!(matches!(&inner[0], Token::Ident(s) if s == "_3")),
        _ => panic!("not a group"),
    }
    let too_big = vec![comma(), dot(), Token::Int("99999999999".to_string())];
    assert!(parse_token_expr(&too_big, false).is_none());
}

#[test]
fn attributes_are_parsed() {
    let attrs = vec![
        error_attr(vec![Token::Str("x {0}".to_string()), comma(), Token::Punct('.', false), ident("a")], 1),
        attr("source", Meta::Path, 2),
        attr("from", Meta::List(vec![]), 3),
        attr("doc", Meta::NameValue, 4),
    ];
    let a = get(&attrs).unwrap();
    let d = a.display.unwrap();
    assert_eq!(d.fmt, "x {0}");
    assert!(d.requires_fmt_machinery);
    assert_eq!(d.args.len(), 2);
    assert_eq!(a.source, Some(2));
    assert_eq!(a.from, None);
    let t = get(&vec![error_attr(vec![ident("transparent")], 5)]).unwrap();
    assert_eq!(t.transparent, Some(5));
    let f = get(&vec![error_attr(vec![ident("fmt"), eq(), ident("a"), Token::Punct(':', true), Token::Punct(':', false), ident("b")], 6)]).unwrap();
    assert_eq!(f.fmt.unwrap().path.len(), 4);
}

#[test]
fn attribute_errors() {
    let s = || Token::Str("x".to_string());
    assert_eq!(get_err(vec![error_attr(vec![s()], 1), error_attr(vec![s()], 2)]), Error { loc: 2, kind: ErrorKind::DuplicateDisplay });
    let mut attrs = Attrs { transparent: Some(9), ..no_attrs() };
    let r = thiserror_core::attr::parse_error_attribute(&mut attrs, &error_attr(vec![ident("transparent")], 10));
    assert_eq!(r, Err(Error { loc: 10, kind: ErrorKind::DuplicateTransparent }));
    assert_eq!(attrs.transparent, Some(9));
    assert!(attrs.display.is_none());
    assert_eq!(get_err(vec![attr("source", Meta::Path, 1), attr("source", Meta::Path, 2)]), Error { loc: 2, kind: ErrorKind::DuplicateSource });
    assert_eq!(get_err(vec![attr("backtrace", Meta::Path, 1), attr("backtrace", Meta::Path, 2)]), Error { loc: 2, kind: ErrorKind::DuplicateBacktrace });
    assert_eq!(get_err(vec![attr("from", Meta::Path, 1), attr("from", Meta::Path, 2)]), Error { loc: 2, kind: ErrorKind::DuplicateFrom });
    let tr = || error_attr(vec![ident("transparent")], 4);
    assert_eq!(get_err(vec![tr(), tr()]), Error { loc: 4, kind: ErrorKind::DuplicateTransparent });
    let fm = || error_attr(vec![ident("fmt"), eq(), ident("f")], 5);
    assert_eq!(get_err(vec![fm(), fm()]), Error { loc: 5, kind: ErrorKind::DuplicateFmt });
    assert_eq!(get_err(vec![error_attr(vec![Token::Int("1".to_string())], 6)]), Error { loc: 6, kind: ErrorKind::Malformed });
    assert_eq!(get_err(vec![attr("error", Meta::Path, 7)]), Error { loc: 7, kind: ErrorKind::Malformed });
    assert_eq!(get_err(vec![error_attr(vec![ident("transparent"), ident("x")], 8)]), Error { loc: 8, kind: ErrorKind::Malformed });
    assert_eq!(get_err(vec![attr("source", Meta::NameValue, 9)]), Error { loc: 9, kind: ErrorKind::Malformed });
}

#[test]
fn bounds_are_deduplicated_in_order() {
    let mut b = InferredBounds::new();
    b.insert("T".to_string(), "Debug".to_string());
    b.insert("U".to_string(), "Display".to_string());
    b.insert("T".to_string(), "Display".to_string());
    let g = Generics { type_params: vec!["T".to_string(), "U".to_string()], where_clause: vec![Predicate::Written("V : Clone".to_string())] };
    let once = b.augment_where_clause(&g);
    b.insert("T".to_string(), "Debug".to_string());
    let twice = b.augment_where_clause(&g);
    assert_eq!(once.predicates.len(), 3);
    assert_eq!(twice.predicates.len(), 3);
    assert!(matches!(&twice.predicates[0], Predicate::Written(t) if t == "V : Clone"));
    match &twice.predicates[1] {
        Predicate::Bound { ty, bounds } => {
            assert_eq!(ty, "T");
            assert_eq!(bounds, &vec!["Debug".to_string(), "Display".to_string()]);
        }
        _ => panic!("not a bound"),
    }
    assert!(matches!(&twice.predicates[2], Predicate::Bound { ty, .. } if ty == "U"));
}

#[test]
fn type_shapes() {
    let t = ty_path("T", PathArgs::Bare);
    let opt = Type { text: "Option < T >".to_string(), ..ty_path("Option", PathArgs::Angle(vec![GenericArg::Type(t)])) };
    assert!(type_is_option(&opt));
    assert_eq!(unoptional_type(&opt), "T");
    assert_eq!(unoptional_type(&ty_path("Vec", PathArgs::Bare)), "Vec");
    assert!(type_is_backtrace(&ty_path("Backtrace", PathArgs::Bare)));
    assert!(!type_is_backtrace(&ty_path("Backtrace", PathArgs::Paren)));
    let loc = ty_ref(Some("static"), ty_path("Location", PathArgs::Angle(vec![GenericArg::Lifetime("static".to_string())])));
    assert!(type_is_location(&loc));
    assert!(contains_non_static_lifetime(&ty_ref(Some("a"), ty_path("str", PathArgs::Bare))));
    assert!(!contains_non_static_lifetime(&ty_ref(Some("static"), ty_path("str", PathArgs::Bare))));
    let cow = ty_path("Cow", PathArgs::Angle(vec![GenericArg::Lifetime("a".to_string()), GenericArg::Other]));
    assert!(contains_non_static_lifetime(&cow));
    let scope = ParamsInScope::new(&Generics { type_params: vec!["T".to_string()], where_clause: vec![] });
    assert!(scope.intersects(&opt));
    assert!(!scope.intersects(&ty_path("U", PathArgs::Bare)));
}

fn reject(attrs: Vec<Attribute>, fields: Fields) -> Error {
    let input = DeriveInput { loc: 0, attrs, ident: "E".to_string(), generics: Generics { type_params: vec![], where_clause: vec![] }, data: Data::Struct(fields) };
    match thiserror_core::expand::derive(input) {
        Derived::Impl(_) => panic!("accepted"),
        Derived::Fallback(f) => f.error,
    }
}

fn decl(name: &str, ty: Type, attrs: Vec<Attribute>) -> FieldDecl {
    FieldDecl { loc: 50, attrs, ident: Some(name.to_string()), ty, ty_loc: 51 }
}

#[test]
fn validation_errors() {
    let s = || error_attr(vec![Token::Str("x".to_string())], 1);
    let t = || ty_path("E", PathArgs::Bare);
    let one = |attrs: Vec<Attribute>| Fields::Named(vec![decl("a", t(), attrs)]);
    assert_eq!(reject(vec![attr("from", Meta::Path, 2)], one(vec![])).kind, ErrorKind::FromNotOnField);
    assert_eq!(reject(vec![attr("source", Meta::Path, 2)], one(vec![])).kind, ErrorKind::SourceNotOnField);
    assert_eq!(reject(vec![attr("backtrace", Meta::Path, 2)], one(vec![])).kind, ErrorKind::BacktraceNotOnField);
    let tr = || error_attr(vec![ident("transparent")], 3);
    let fm = || error_attr(vec![ident("fmt"), eq(), ident("f")], 4);
    assert_eq!(reject(vec![tr(), s()], one(vec![])), Error { loc: 1, kind: ErrorKind::TransparentWithDisplay });
    assert_eq!(reject(vec![tr(), fm()], one(vec![])), Error { loc: 4, kind: ErrorKind::TransparentWithFmt });
    assert_eq!(reject(vec![s(), fm()], one(vec![])), Error { loc: 1, kind: ErrorKind::FmtWithDisplay });
    assert_eq!(reject(vec![fm()], one(vec![])), Error { loc: 4, kind: ErrorKind::FmtOnStruct });
    assert_eq!(reject(vec![tr()], one(vec![attr("source", Meta::Path, 5)])), Error { loc: 5, kind: ErrorKind::TransparentStructWithSource });
    assert_eq!(reject(vec![s()], one(vec![s()])).kind, ErrorKind::DisplayOnField);
    assert_eq!(reject(vec![s()], one(vec![tr()])).kind, ErrorKind::TransparentOnField);
    let two = Fields::Named(vec![decl("a", t(), vec![attr("from", Meta::Path, 6)]), decl("b", t(), vec![attr("source", Meta::Path, 7)])]);
    assert_eq!(reject(vec![s()], two), Error { loc: 6, kind: ErrorKind::FromNotOnSource });
    let dup = Fields::Named(vec![decl("a", t(), vec![attr("source", Meta::Path, 6)]), decl("b", t(), vec![attr("source", Meta::Path, 7)])]);
    assert_eq!(reject(vec![s()], dup), Error { loc: 7, kind: ErrorKind::DuplicateSource });
    let borrowed = Fields::Named(vec![decl("s", ty_ref(Some("a"), ty_path("str", PathArgs::Bare)), vec![attr("source", Meta::Path, 6)])]);
    assert_eq!(reject(vec![s()], borrowed), Error { loc: 51, kind: ErrorKind::NonStaticLifetimeSource });
    let implicit = Fields::Named(vec![decl("source", ty_ref(Some("a"), ty_path("str", PathArgs::Bare)), vec![])]);
    assert_eq!(reject(vec![s()], implicit), Error { loc: 51, kind: ErrorKind::NonStaticLifetimeSource });
    let ambiguous = error_attr(vec![Token::Str("{0}".to_string()), comma(), ident("x"), eq(), Token::Int("1".to_string())], 8);
    assert_eq!(reject(vec![ambiguous], one(vec![])), Error { loc: 8, kind: ErrorKind::AmbiguousPositional(ContainerKind::Struct) });
}

#[test]
fn transparent_variant_with_source() {
    let f = FieldDecl { loc: 50, attrs: vec![attr("source", Meta::Path, 5)], ident: None, ty: ty_path("E", PathArgs::Bare), ty_loc: 51 };
    let v = VariantDecl { loc: 9, attrs: vec![error_attr(vec![ident("transparent")], 3)], ident: "V".to_string(), fields: Fields::Unnamed(vec![f]) };
    let input = DeriveInput { loc: 0, attrs: vec![], ident: "E".to_string(), generics: Generics { type_params: vec![], where_clause: vec![] }, data: Data::Enum(vec![v]) };
    match thiserror_core::expand::derive(input) {
        Derived::Fallback(f) => assert_eq!(f.error, Error { loc: 5, kind: ErrorKind::TransparentVariantWithSource }),
        Derived::Impl(_) => panic!("accepted"),
    }
}

#[test]
fn trait_paths_and_backtrace() {
    assert_eq!(Trait::LowerHex.path(), "::core::fmt::LowerHex");
    assert_eq!(Trait::Debug.path(), "::core::fmt::Debug");
    let bt = thiserror_core::pretty_bt::PrettyBacktrace::new();
    let _ = bt.bt.frames();
}
