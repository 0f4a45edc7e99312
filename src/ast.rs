use vstd::prelude::*;
use crate::attr::{attrs_from, attrs_model, fresh, get, no_attrs, Attrs, AttrsModel};
use crate::diag::Error;
use crate::generics::ParamsInScope;
use crate::generics::Generics;
use crate::ty::Type;
use crate::unraw::unraw;

verus! {

/// A field's name, or its position in a tuple-like field list. A name is held
/// as written, with its `r#` prefix if it has one.
pub enum MemberUnraw {
    Named(String),
    Unnamed(u32),
}

/// Two members denote the same field: equal positions, or names equal once
/// their `r#` prefixes are removed.
pub open spec fn same_member(a: MemberUnraw, b: MemberUnraw) -> bool {
    match (a, b) {
        (MemberUnraw::Named(x), MemberUnraw::Named(y)) => unraw(x@) == unraw(y@),
        (MemberUnraw::Unnamed(i), MemberUnraw::Unnamed(j)) => i == j,
        _ => false,
    }
}

pub open spec fn members_of(fields: Seq<Field>) -> Seq<MemberUnraw> {
    Seq::new(fields.len(), |i: int| fields[i].member)
}

pub struct Field {
    pub loc: usize,
    pub attrs: Attrs,
    pub member: MemberUnraw,
    pub ty: Type,
    pub ty_loc: usize,
    /// Whether the field's type mentions a type parameter of the owning type.
    pub contains_generic: bool,
}

pub struct Variant {
    pub loc: usize,
    pub attrs: Attrs,
    pub ident: String,
    pub fields: Vec<Field>,
}

pub struct Struct {
    pub attrs: Attrs,
    pub ident: String,
    pub generics: Generics,
    pub fields: Vec<Field>,
}

pub struct Enum {
    pub attrs: Attrs,
    pub ident: String,
    pub generics: Generics,
    pub variants: Vec<Variant>,
}

pub enum Input {
    Struct(Struct),
    Enum(Enum),
}

#[derive(Copy, Clone, Debug, PartialEq, Eq, Structural)]
pub enum ContainerKind {
    Struct,
    TupleStruct,
    UnitStruct,
    StructVariant,
    TupleVariant,
    UnitVariant,
}

impl ContainerKind {
    /// How the kind is named in a diagnostic.
    pub fn name(&self) -> &'static str {
        match self {
            ContainerKind::Struct => "struct",
            ContainerKind::TupleStruct => "tuple struct",
            ContainerKind::UnitStruct => "unit struct",
            ContainerKind::StructVariant => "struct variant",
            ContainerKind::TupleVariant => "tuple variant",
            ContainerKind::UnitVariant => "unit variant",
        }
    }
}

} // verus!

verus! {

/// A field as declared: its attributes, its name if it has one, its type.
pub struct FieldDecl {
    pub loc: usize,
    pub attrs: Vec<crate::attr::Attribute>,
    pub ident: Option<String>,
    pub ty: Type,
    pub ty_loc: usize,
}

pub enum Fields {
    Named(Vec<FieldDecl>),
    Unnamed(Vec<FieldDecl>),
    Unit,
}

pub struct VariantDecl {
    pub loc: usize,
    pub attrs: Vec<crate::attr::Attribute>,
    pub ident: String,
    pub fields: Fields,
}

pub enum Data {
    Struct(Fields),
    Enum(Vec<VariantDecl>),
    Union,
}

/// The declaration that an error type is derived for.
pub struct DeriveInput {
    pub loc: usize,
    pub attrs: Vec<crate::attr::Attribute>,
    pub ident: String,
    pub generics: Generics,
    pub data: Data,
}

impl ContainerKind {
    pub fn from_struct(node: &Fields) -> (r: ContainerKind)
        ensures
            r == match node {
                Fields::Named(_) => ContainerKind::Struct,
                Fields::Unnamed(_) => ContainerKind::TupleStruct,
                Fields::Unit => ContainerKind::UnitStruct,
            },
    {
        match node {
            Fields::Named(_) => ContainerKind::Struct,
            Fields::Unnamed(_) => ContainerKind::TupleStruct,
            Fields::Unit => ContainerKind::UnitStruct,
        }
    }

    pub fn from_variant(node: &Fields) -> (r: ContainerKind)
        ensures
            r == match node {
                Fields::Named(_) => ContainerKind::StructVariant,
                Fields::Unnamed(_) => ContainerKind::TupleVariant,
                Fields::Unit => ContainerKind::UnitVariant,
            },
    {
        match node {
            Fields::Named(_) => ContainerKind::StructVariant,
            Fields::Unnamed(_) => ContainerKind::TupleVariant,
            Fields::Unit => ContainerKind::UnitVariant,
        }
    }
}

} // verus!

verus! {

pub open spec fn member_of(d: FieldDecl, i: int) -> MemberUnraw {
    match d.ident {
        Some(n) => MemberUnraw::Named(n),
        None => MemberUnraw::Unnamed(i as u32),
    }
}

/// `f` is the field made of declaration `d`, the `i`-th of its list, with
/// the type parameters `names` in scope.
pub open spec fn field_built(d: FieldDecl, i: int, names: Seq<String>, f: Field) -> bool {
    &&& f.loc == d.loc
    &&& f.ty == d.ty
    &&& f.ty_loc == d.ty_loc
    &&& f.member == member_of(d, i)
    &&& f.contains_generic == crate::generics::type_mentions(d.ty, names)
    &&& attrs_from(d.attrs@, 0, no_attrs()) == Ok::<AttrsModel, Error>(attrs_model(f.attrs))
    &&& fresh(f.attrs)
}

pub open spec fn decls_of(fields: Fields) -> Seq<FieldDecl> {
    match fields {
        Fields::Named(v) => v@,
        Fields::Unnamed(v) => v@,
        Fields::Unit => Seq::empty(),
    }
}

/// The error of the first declaration, from `i` on, whose attributes are
/// rejected.
pub open spec fn first_attr_error(decls: Seq<FieldDecl>, i: int) -> Option<Error>
    decreases decls.len() - i,
{
    if i < 0 || i >= decls.len() {
        None
    } else {
        match attrs_from(decls[i].attrs@, 0, no_attrs()) {
            Err(e) => Some(e),
            Ok(_) => first_attr_error(decls, i + 1),
        }
    }
}

/// The fields made of the declarations, or the first error.
pub open spec fn fields_built(
    decls: Seq<FieldDecl>,
    names: Seq<String>,
    r: Result<Vec<Field>, Error>,
) -> bool {
    match first_attr_error(decls, 0) {
        Some(e) => r == Err::<Vec<Field>, Error>(e),
        None => r matches Ok(v) && v@.len() == decls.len() && forall|i: int|
            0 <= i < decls.len() ==> field_built(decls[i], i, names, #[trigger] v@[i]),
    }
}

impl Field {
    pub fn from_syn(i: usize, node: FieldDecl, scope: &ParamsInScope) -> (r: Result<Field, Error>)
        requires
            i <= u32::MAX,
        ensures
            match attrs_from(node.attrs@, 0, no_attrs()) {
                Err(e) => r == Err::<Field, Error>(e),
                Ok(_) => r matches Ok(f) && field_built(node, i as int, scope.names(), f),
            },
    {
        let attrs = get(&node.attrs)?;
        let contains_generic = scope.intersects(&node.ty);
        let member = match node.ident {
            Some(name) => MemberUnraw::Named(name),
            None => MemberUnraw::Unnamed(i as u32),
        };
        Ok(Field { loc: node.loc, attrs, member, ty: node.ty, ty_loc: node.ty_loc, contains_generic })
    }

    pub fn multiple_from_syn(fields: Fields, scope: &ParamsInScope) -> (r: Result<Vec<Field>, Error>)
        requires
            decls_of(fields).len() <= u32::MAX + 1,
        ensures
            fields_built(decls_of(fields), scope.names(), r),
    {
        let ghost decls = decls_of(fields);
        let mut rest = match fields {
            Fields::Named(v) => v,
            Fields::Unnamed(v) => v,
            Fields::Unit => Vec::new(),
        };
        let n = rest.len();
        let mut out: Vec<Field> = Vec::new();
        let mut i: usize = 0;
        while i < n
            invariant
                n == decls.len() <= u32::MAX + 1,
                decls == decls_of(fields),
                i <= n,
                rest@ == decls.subrange(i as int, n as int),
                first_attr_error(decls, 0) == first_attr_error(decls, i as int),
                out@.len() == i,
                forall|j: int| 0 <= j < i ==> field_built(decls[j], j, scope.names(), #[trigger] out@[j]),
            decreases n - i,
        {
            let d = rest.remove(0);
            assert(d == decls[i as int]);
            let f = match Field::from_syn(i, d, scope) {
                Ok(f) => f,
                Err(e) => {
                    assert(first_attr_error(decls, i as int) == Some(e));
                    return Err(e);
                },
            };
            out.push(f);
            assert(rest@ =~= decls.subrange(i + 1, n as int));
            i = i + 1;
        }
        Ok(out)
    }
}

} // verus!

verus! {

pub open spec fn display_matches(d: crate::attr::Display, m: crate::attr::DisplayModel) -> bool {
    &&& d.loc == m.loc
    &&& d.fmt@ == m.fmt
    &&& crate::attr::tokens_view(d.args@) == m.args
    &&& d.requires_fmt_machinery == m.requires_fmt_machinery
    &&& !d.has_bonus_display
    &&& !d.infinite_recursive
    &&& d.implied_bounds@.len() == 0
    &&& d.bindings@.len() == 0
}

/// `a` holds the annotations `m`, its template (if any) compiled against
/// `fields` as part of a container of kind `kind`.
pub open spec fn attrs_compiled(a: Attrs, m: AttrsModel, fields: Seq<Field>, kind: ContainerKind) -> bool {
    &&& a.source == m.source
    &&& a.backtrace == m.backtrace
    &&& a.from == m.from
    &&& a.transparent == m.transparent
    &&& attrs_model(a).fmt == m.fmt
    &&& match m.display {
        None => a.display is None,
        Some(dm) => a.display matches Some(d) && exists|old: crate::attr::Display|
            display_matches(old, dm) && #[trigger] crate::fmt::expanded(
                old,
                d,
                Ok(()),
                fields,
                kind,
            ),
    }
}

/// The annotations of a variant: its own, or where it has no template,
/// delegation or rendering function, those of the enum.
pub open spec fn inherited(own: AttrsModel, outer: AttrsModel) -> AttrsModel {
    if own.display is None && own.transparent is None && own.fmt is None {
        AttrsModel { display: outer.display, transparent: outer.transparent, fmt: outer.fmt, ..own }
    } else {
        own
    }
}

fn clone_display(d: &crate::attr::Display) -> (r: crate::attr::Display)
    requires
        !d.has_bonus_display && !d.infinite_recursive && d.implied_bounds@.len() == 0
            && d.bindings@.len() == 0,
    ensures
        display_matches(r, crate::attr::attrs_model(Attrs {
            display: Some(*d),
            source: None,
            backtrace: None,
            from: None,
            transparent: None,
            fmt: None,
        }).display->0),
{
    crate::attr::Display {
        loc: d.loc,
        fmt: d.fmt.clone(),
        args: crate::attr::clone_tokens(&d.args),
        requires_fmt_machinery: d.requires_fmt_machinery,
        has_bonus_display: false,
        infinite_recursive: false,
        implied_bounds: Vec::new(),
        bindings: Vec::new(),
    }
}

/// How compiling the template `dm` against fields with members `members` ends.
pub open spec fn template_outcome(dm: crate::attr::DisplayModel, members: Seq<MemberUnraw>) -> crate::fmt::Outcome {
    crate::fmt::run(
        crate::fmt::ctx_of(dm.fmt, members, crate::fmt::user_args(dm.args)),
        0,
        crate::fmt::initial_scan(),
    )
}

/// The error of compiling the template of `m`, if it has one and compiling
/// finds a positional reference ambiguous.
pub open spec fn template_error(m: AttrsModel, members: Seq<MemberUnraw>, kind: ContainerKind) -> Option<Error> {
    match m.display {
        Some(dm) => if template_outcome(dm, members) is Ambiguous {
            Some(Error { loc: dm.loc, kind: crate::diag::ErrorKind::AmbiguousPositional(kind) })
        } else {
            None
        },
        None => None,
    }
}

/// The members of the fields that the declarations make.
pub open spec fn decl_members(decls: Seq<FieldDecl>) -> Seq<MemberUnraw> {
    Seq::new(decls.len(), |i: int| member_of(decls[i], i))
}

/// Compiles the template of `attrs`, if any, against `fields`.
fn compile(attrs: &mut Attrs, fields: &Vec<Field>, kind: ContainerKind) -> (r: Result<(), Error>)
    requires
        fresh(*old(attrs)),
    ensures
        match template_error(attrs_model(*old(attrs)), members_of(fields@), kind) {
            Some(e) => r == Err::<(), Error>(e),
            None => r is Ok && attrs_compiled(*final(attrs), attrs_model(*old(attrs)), fields@, kind),
        },
{
    let ghost before = *attrs;
    match &mut attrs.display {
        Some(display) => {
            let ghost old_display = *display;
            let r = display.expand_shorthand(fields, kind);
            proof {
                if r is Ok {
                    assert(display_matches(old_display, attrs_model(before).display->0));
                    assert(crate::fmt::expanded(old_display, *display, Ok(()), fields@, kind));
                }
            }
            r
        },
        None => Ok(()),
    }
}

/// `s` is the struct made of the declaration `node`.
pub open spec fn struct_built(node: DeriveInput, s: Struct) -> bool {
    &&& s.ident == node.ident
    &&& s.generics == node.generics
    &&& fields_built(decls_of(node.data->Struct_0), node.generics.type_params@, Ok(s.fields))
    &&& attrs_from(node.attrs@, 0, no_attrs()) matches Ok(am) && attrs_compiled(
        s.attrs,
        am,
        s.fields@,
        ContainerKind::from_struct_spec(node.data->Struct_0),
    )
}

/// The first error in making a struct of `node`: in its attributes, in its
/// fields' attributes, or in compiling its template.
pub open spec fn struct_error(node: DeriveInput) -> Option<Error> {
    let decls = decls_of(node.data->Struct_0);
    match attrs_from(node.attrs@, 0, no_attrs()) {
        Err(e) => Some(e),
        Ok(am) => match first_attr_error(decls, 0) {
            Some(e) => Some(e),
            None => template_error(
                am,
                decl_members(decls),
                ContainerKind::from_struct_spec(node.data->Struct_0),
            ),
        },
    }
}

proof fn lemma_members_built(decls: Seq<FieldDecl>, names: Seq<String>, fields: Vec<Field>)
    requires
        fields_built(decls, names, Ok(fields)),
    ensures
        members_of(fields@) == decl_members(decls),
{
    assert(first_attr_error(decls, 0) is None);
    assert(members_of(fields@) =~= decl_members(decls));
}

impl Struct {
    pub fn from_syn(node: DeriveInput) -> (r: Result<Struct, Error>)
        requires
            node.data is Struct,
            decls_of(node.data->Struct_0).len() <= u32::MAX + 1,
        ensures
            match struct_error(node) {
                Some(e) => r == Err::<Struct, Error>(e),
                None => r matches Ok(s) && struct_built(node, s),
            },
    {
        let DeriveInput { loc: _, attrs, ident, generics, data } = node;
        let mut attrs = get(&attrs)?;
        let scope = ParamsInScope::new(&generics);
        let data_fields = match data {
            Data::Struct(f) => f,
            _ => Fields::Unit,
        };
        let kind = ContainerKind::from_struct(&data_fields);
        let fields = Field::multiple_from_syn(data_fields, &scope)?;
        proof {
            lemma_members_built(decls_of(node.data->Struct_0), scope.names(), fields);
        }
        compile(&mut attrs, &fields, kind)?;
        Ok(Struct { attrs, ident, generics, fields })
    }
}

impl ContainerKind {
    pub open spec fn from_struct_spec(f: Fields) -> ContainerKind {
        match f {
            Fields::Named(_) => ContainerKind::Struct,
            Fields::Unnamed(_) => ContainerKind::TupleStruct,
            Fields::Unit => ContainerKind::UnitStruct,
        }
    }

    pub open spec fn from_variant_spec(f: Fields) -> ContainerKind {
        match f {
            Fields::Named(_) => ContainerKind::StructVariant,
            Fields::Unnamed(_) => ContainerKind::TupleVariant,
            Fields::Unit => ContainerKind::UnitVariant,
        }
    }
}

} // verus!

verus! {

impl Variant {
    pub fn from_syn(node: VariantDecl, scope: &ParamsInScope) -> (r: Result<Variant, Error>)
        requires
            decls_of(node.fields).len() <= u32::MAX + 1,
        ensures
            match attrs_from(node.attrs@, 0, no_attrs()) {
                Err(e) => r == Err::<Variant, Error>(e),
                Ok(m) => match first_attr_error(decls_of(node.fields), 0) {
                    Some(e) => r == Err::<Variant, Error>(e),
                    None => r matches Ok(v) && v.loc == node.loc && v.ident == node.ident
                        && fields_built(decls_of(node.fields), scope.names(), Ok(v.fields))
                        && attrs_model(v.attrs) == m && fresh(v.attrs),
                },
            },
    {
        let VariantDecl { loc, attrs, ident, fields } = node;
        let attrs = get(&attrs)?;
        let fields = Field::multiple_from_syn(fields, scope)?;
        Ok(Variant { loc, attrs, ident, fields })
    }
}

fn clone_fmt(f: &crate::attr::Fmt) -> (r: crate::attr::Fmt)
    ensures
        r.loc == f.loc,
        crate::attr::tokens_view(r.path@) == crate::attr::tokens_view(f.path@),
{
    crate::attr::Fmt { loc: f.loc, path: crate::attr::clone_tokens(&f.path) }
}

/// The variant declarations of an enum.
pub open spec fn variant_decls(d: Data) -> Seq<VariantDecl> {
    match d {
        Data::Enum(v) => v@,
        _ => Seq::empty(),
    }
}

/// `v` is the variant made of declaration `d`, within an enum annotated `outer`.
pub open spec fn variant_built(d: VariantDecl, outer: AttrsModel, names: Seq<String>, v: Variant) -> bool {
    &&& v.loc == d.loc
    &&& v.ident == d.ident
    &&& fields_built(decls_of(d.fields), names, Ok(v.fields))
    &&& attrs_from(d.attrs@, 0, no_attrs()) matches Ok(own) && attrs_compiled(
        v.attrs,
        inherited(own, outer),
        v.fields@,
        ContainerKind::from_variant_spec(d.fields),
    )
}

/// The first error in making the variants `i..` of `decls`, within an enum
/// annotated `outer`.
pub open spec fn variants_error(decls: Seq<VariantDecl>, i: int, outer: AttrsModel) -> Option<Error>
    decreases decls.len() - i,
{
    if i < 0 || i >= decls.len() {
        None
    } else {
        let d = decls[i];
        match attrs_from(d.attrs@, 0, no_attrs()) {
            Err(e) => Some(e),
            Ok(own) => match first_attr_error(decls_of(d.fields), 0) {
                Some(e) => Some(e),
                None => match template_error(
                    inherited(own, outer),
                    decl_members(decls_of(d.fields)),
                    ContainerKind::from_variant_spec(d.fields),
                ) {
                    Some(e) => Some(e),
                    None => variants_error(decls, i + 1, outer),
                },
            },
        }
    }
}

/// The first error in making an enum of `node`.
pub open spec fn enum_error(node: DeriveInput) -> Option<Error> {
    match attrs_from(node.attrs@, 0, no_attrs()) {
        Err(e) => Some(e),
        Ok(am) => variants_error(variant_decls(node.data), 0, am),
    }
}

/// `e` is the enum made of the declaration `node`.
pub open spec fn enum_built(node: DeriveInput, e: Enum) -> bool {
    &&& e.ident == node.ident
    &&& e.generics == node.generics
    &&& attrs_from(node.attrs@, 0, no_attrs()) matches Ok(am) && attrs_model(e.attrs) == am
        && fresh(e.attrs) && e.variants@.len() == variant_decls(node.data).len() && forall|i: int|
        0 <= i < e.variants@.len() ==> variant_built(
            variant_decls(node.data)[i],
            am,
            node.generics.type_params@,
            #[trigger] e.variants@[i],
        )
}

impl Enum {
    pub fn from_syn(node: DeriveInput) -> (r: Result<Enum, Error>)
        requires
            forall|i: int|
                0 <= i < variant_decls(node.data).len() ==> decls_of(
                    #[trigger] variant_decls(node.data)[i].fields,
                ).len() <= u32::MAX + 1,
        ensures
            match enum_error(node) {
                Some(e) => r == Err::<Enum, Error>(e),
                None => r matches Ok(e) && enum_built(node, e),
            },
    {
        let DeriveInput { loc: _, attrs, ident, generics, data } = node;
        let attrs = get(&attrs)?;
        let ghost am = attrs_model(attrs);
        let scope = ParamsInScope::new(&generics);
        let mut rest = match data {
            Data::Enum(v) => v,
            _ => Vec::new(),
        };
        let ghost decls = rest@;
        assert(decls == variant_decls(node.data));
        let n = rest.len();
        let mut variants: Vec<Variant> = Vec::new();
        let mut i: usize = 0;
        while i < n
            invariant
                n == decls.len(),
                i <= n,
                decls == variant_decls(node.data),
                attrs_from(node.attrs@, 0, no_attrs()) == Ok::<AttrsModel, Error>(am),
                rest@ == decls.subrange(i as int, n as int),
                forall|j: int| 0 <= j < n ==> decls_of(#[trigger] decls[j].fields).len() <= u32::MAX + 1,
                attrs_model(attrs) == am,
                fresh(attrs),
                scope.names() == generics.type_params@,
                variants@.len() == i,
                variants_error(decls, 0, am) == variants_error(decls, i as int, am),
                forall|j: int|
                    0 <= j < i ==> variant_built(
                        decls[j],
                        am,
                        generics.type_params@,
                        #[trigger] variants@[j],
                    ),
            decreases n - i,
        {
            let d = rest.remove(0);
            assert(d == decls[i as int]);
            let kind = ContainerKind::from_variant(&d.fields);
            let mut variant = match Variant::from_syn(d, &scope) {
                Ok(v) => v,
                Err(e) => {
                    return Err(e);
                },
            };
            proof {
                lemma_members_built(decls_of(d.fields), scope.names(), variant.fields);
            }
            let ghost own = attrs_model(variant.attrs);
            if variant.attrs.display.is_none() && variant.attrs.transparent.is_none()
                && variant.attrs.fmt.is_none() {
                variant.attrs.display = match &attrs.display {
                    Some(outer) => Some(clone_display(outer)),
                    None => None,
                };
                variant.attrs.transparent = attrs.transparent;
                variant.attrs.fmt = match &attrs.fmt {
                    Some(outer) => Some(clone_fmt(outer)),
                    None => None,
                };
            }
            assert(attrs_model(variant.attrs) == inherited(own, am));
            match compile(&mut variant.attrs, &variant.fields, kind) {
                Ok(()) => {},
                Err(e) => {
                    return Err(e);
                },
            }
            variants.push(variant);
            assert(rest@ =~= decls.subrange(i + 1, n as int));
            i = i + 1;
        }
        Ok(Enum { attrs, ident, generics, variants })
    }
}

/// The first error in making the model of `node`.
pub open spec fn input_error(node: DeriveInput) -> Option<Error> {
    match node.data {
        Data::Struct(_) => struct_error(node),
        Data::Enum(_) => enum_error(node),
        Data::Union => Some(Error { loc: node.loc, kind: crate::diag::ErrorKind::UnionNotSupported }),
    }
}

/// `i` is the model made of the declaration `node`.
pub open spec fn input_built(node: DeriveInput, i: Input) -> bool {
    match i {
        Input::Struct(s) => node.data is Struct && struct_built(node, s),
        Input::Enum(e) => node.data is Enum && enum_built(node, e),
    }
}

impl Input {
    pub fn from_syn(node: DeriveInput) -> (r: Result<Input, Error>)
        requires
            node.data matches Data::Struct(f) ==> decls_of(f).len() <= u32::MAX + 1,
            forall|i: int|
                0 <= i < variant_decls(node.data).len() ==> decls_of(
                    #[trigger] variant_decls(node.data)[i].fields,
                ).len() <= u32::MAX + 1,
        ensures
            match input_error(node) {
                Some(e) => r == Err::<Input, Error>(e),
                None => r matches Ok(i) && input_built(node, i),
            },
    {
        match &node.data {
            Data::Struct(_) => match Struct::from_syn(node) {
                Ok(s) => Ok(Input::Struct(s)),
                Err(e) => Err(e),
            },
            Data::Enum(_) => match Enum::from_syn(node) {
                Ok(e) => Ok(Input::Enum(e)),
                Err(e) => Err(e),
            },
            Data::Union => Err(Error { loc: node.loc, kind: crate::diag::ErrorKind::UnionNotSupported }),
        }
    }
}

} // verus!
