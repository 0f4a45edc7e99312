use vstd::prelude::*;
use crate::ast::{members_of, same_member, Enum, Field, Input, MemberUnraw, Struct, Variant};
use crate::attr::{Display, Token, Trait};
use crate::generics::{augments, bounds_insert, BoundsModel, Generics, InferredBounds, WhereClause};
use crate::prop::{
    backtrace_field, backtrace_of, distinct_backtrace_field, distinct_backtrace_of, from_field,
    from_of, same_member_exec, source_field, source_of,
};
use crate::ty::{option_param, type_is_option, unoptional, unoptional_type};
use crate::unraw::{local_form, to_local};
use crate::text::{decimal, push_char, push_decimal};
use vstd::string::StringExecFns;

verus! {

/// What the generated cause accessor returns for one struct or variant.
pub enum SourceArm {
    /// The cause of the single field itself.
    Transparent { member: MemberUnraw },
    /// The field, as an error; through the option when it is optional. The
    /// location is where diagnostics about it point.
    Field { member: MemberUnraw, optional: bool, loc: usize },
    /// No cause.
    Absent,
}

/// What the generated diagnostic-context provider does for one struct or
/// variant: first let the cause provide (a field, and whether it is
/// optional), then provide the own diagnostic-context field.
pub struct ProvideArm {
    pub source: Option<(MemberUnraw, bool)>,
    pub backtrace: Option<(MemberUnraw, bool)>,
}

/// How the fields of a struct or variant are bound in a rendering arm.
pub enum FieldsPat {
    /// `{ a, b }`: the members.
    Braced(Vec<MemberUnraw>),
    /// `(_0, _1)`: the variables.
    Tuple(Vec<String>),
    Empty,
}

pub enum DisplayBody {
    /// Render the single field.
    Transparent { member: MemberUnraw },
    /// Render the compiled template.
    Template(Display),
    /// Call the user's rendering function with the field variables.
    Function { path: Vec<Token>, vars: Vec<String> },
}

pub struct DisplayArm {
    pub variant: Option<String>,
    pub pat: FieldsPat,
    pub body: DisplayBody,
}

pub struct DisplayImpl {
    pub use_as_display: bool,
    /// Whether the match is on a dereferenced empty enum.
    pub void_deref: bool,
    pub arms: Vec<DisplayArm>,
    pub where_clause: WhereClause,
}

/// A conversion constructor from the type of the auto-conversion field.
pub struct FromImpl {
    pub variant: Option<String>,
    pub from_ty: String,
    pub member: MemberUnraw,
    /// Whether the field is optional (the value is wrapped in `Some`).
    pub optional: bool,
    /// The diagnostic-context field to capture, and whether it is optional.
    pub backtrace: Option<(MemberUnraw, bool)>,
    pub loc: usize,
}

/// The shape of everything generated for one type. A struct has one arm
/// (without variant name) wherever an enum has one per variant.
pub struct ErrorImpl {
    pub ident: String,
    pub where_clause: WhereClause,
    pub source: Option<Vec<(Option<String>, SourceArm)>>,
    pub provide: Option<Vec<(Option<String>, ProvideArm)>>,
    pub display: Option<DisplayImpl>,
    pub froms: Vec<FromImpl>,
}

pub open spec fn error_bound() -> Seq<char> {
    "::thiserror::__private::Error"@
}

pub open spec fn error_static_bound() -> Seq<char> {
    "::thiserror::__private::Error + 'static"@
}

pub open spec fn trait_path(t: Trait) -> Seq<char> {
    match t {
        Trait::Debug => "::core::fmt::Debug"@,
        Trait::Display => "::core::fmt::Display"@,
        Trait::Octal => "::core::fmt::Octal"@,
        Trait::LowerHex => "::core::fmt::LowerHex"@,
        Trait::UpperHex => "::core::fmt::UpperHex"@,
        Trait::Pointer => "::core::fmt::Pointer"@,
        Trait::Binary => "::core::fmt::Binary"@,
        Trait::LowerExp => "::core::fmt::LowerExp"@,
        Trait::UpperExp => "::core::fmt::UpperExp"@,
    }
}

impl Trait {
    /// The path of the formatting trait.
    pub fn path(&self) -> (r: &'static str)
        ensures
            r@ == trait_path(*self),
    {
        match self {
            Trait::Debug => "::core::fmt::Debug",
            Trait::Display => "::core::fmt::Display",
            Trait::Octal => "::core::fmt::Octal",
            Trait::LowerHex => "::core::fmt::LowerHex",
            Trait::UpperHex => "::core::fmt::UpperHex",
            Trait::Pointer => "::core::fmt::Pointer",
            Trait::Binary => "::core::fmt::Binary",
            Trait::LowerExp => "::core::fmt::LowerExp",
            Trait::UpperExp => "::core::fmt::UpperExp",
        }
    }
}

/// The cause arm of a struct or variant.
pub open spec fn source_arm(transparent: bool, fields: Seq<Field>) -> SourceArm {
    if transparent && fields.len() > 0 {
        SourceArm::Transparent { member: fields[0].member }
    } else {
        match source_of(fields) {
            Some(i) => SourceArm::Field {
                member: fields[i].member,
                optional: option_param(fields[i].ty) is Some,
                loc: source_span_of(fields[i]),
            },
            None => SourceArm::Absent,
        }
    }
}

pub open spec fn source_span_of(f: Field) -> usize {
    match f.attrs.source {
        Some(l) => l,
        None => match f.attrs.from {
            Some(l) => l,
            None => f.loc,
        },
    }
}

/// The error bound that the cause arm asks of a generic field type.
pub open spec fn source_bounds(m: BoundsModel, transparent: bool, fields: Seq<Field>) -> BoundsModel {
    if transparent && fields.len() > 0 {
        if fields[0].contains_generic {
            bounds_insert(m, fields[0].ty.text@, error_bound())
        } else {
            m
        }
    } else {
        match source_of(fields) {
            Some(i) => if fields[i].contains_generic {
                bounds_insert(m, unoptional(fields[i].ty).text@, error_static_bound())
            } else {
                m
            },
            None => m,
        }
    }
}

pub open spec fn field_ref(f: Field) -> (MemberUnraw, bool) {
    (f.member, option_param(f.ty) is Some)
}

/// The provider arm of a struct.
pub open spec fn struct_provide_arm(fields: Seq<Field>) -> Option<ProvideArm> {
    match backtrace_of(fields) {
        None => None,
        Some(b) => Some(
            match source_of(fields) {
                Some(s) => ProvideArm {
                    source: Some(field_ref(fields[s])),
                    backtrace: if same_member(fields[s].member, fields[b].member) {
                        None
                    } else {
                        Some(field_ref(fields[b]))
                    },
                },
                None => ProvideArm { source: None, backtrace: Some(field_ref(fields[b])) },
            },
        ),
    }
}

/// The provider arm of a variant.
pub open spec fn variant_provide_arm(fields: Seq<Field>) -> ProvideArm {
    match (backtrace_of(fields), source_of(fields)) {
        (Some(b), Some(s)) => if fields[b].attrs.backtrace is None {
            ProvideArm { source: Some(field_ref(fields[s])), backtrace: Some(field_ref(fields[b])) }
        } else if same_member(fields[b].member, fields[s].member) {
            ProvideArm { source: Some(field_ref(fields[s])), backtrace: None }
        } else {
            ProvideArm { source: Some(field_ref(fields[s])), backtrace: Some(field_ref(fields[b])) }
        },
        (Some(b), None) => ProvideArm { source: None, backtrace: Some(field_ref(fields[b])) },
        (None, _) => ProvideArm { source: None, backtrace: None },
    }
}

/// The conversion constructor of a struct or variant, if it has an
/// auto-conversion field.
pub open spec fn from_impl(variant: Option<String>, fields: Seq<Field>) -> Option<FromImpl> {
    match from_of(fields) {
        Some(f) => Some(
            FromImpl {
                variant,
                from_ty: unoptional(fields[f].ty).text,
                member: fields[f].member,
                optional: option_param(fields[f].ty) is Some,
                backtrace: match distinct_backtrace_of(fields) {
                    Some(b) => Some(field_ref(fields[b])),
                    None => None,
                },
                loc: fields[f].attrs.from->0,
            },
        ),
        None => None,
    }
}

/// The bounds that rendering asks of generic field types: for each field in
/// order, and each capability in declaration order, that the template asks of
/// the field.
pub open spec fn display_bounds(
    m: BoundsModel,
    fields: Seq<Field>,
    implied: Seq<(usize, Trait)>,
) -> BoundsModel {
    fold_fields(m, fields, implied, fields.len() as int)
}

pub open spec fn all_traits() -> Seq<Trait> {
    seq![
        Trait::Debug,
        Trait::Display,
        Trait::Octal,
        Trait::LowerHex,
        Trait::UpperHex,
        Trait::Pointer,
        Trait::Binary,
        Trait::LowerExp,
        Trait::UpperExp,
    ]
}

pub open spec fn fold_fields(
    m: BoundsModel,
    fields: Seq<Field>,
    implied: Seq<(usize, Trait)>,
    n: int,
) -> BoundsModel
    decreases n,
{
    if n <= 0 {
        m
    } else {
        fold_traits(fold_fields(m, fields, implied, n - 1), fields, implied, n - 1, 9)
    }
}

pub open spec fn fold_traits(
    m: BoundsModel,
    fields: Seq<Field>,
    implied: Seq<(usize, Trait)>,
    f: int,
    k: int,
) -> BoundsModel
    decreases k,
{
    if k <= 0 {
        m
    } else {
        let prev = fold_traits(m, fields, implied, f, k - 1);
        let t = all_traits()[k - 1];
        if 0 <= f < fields.len() && implied.contains((f as usize, t)) && fields[f].contains_generic {
            bounds_insert(prev, fields[f].ty.text@, trait_path(t))
        } else {
            prev
        }
    }
}

} // verus!

verus! {

pub fn clone_member(m: &MemberUnraw) -> (r: MemberUnraw)
    ensures
        r == *m,
{
    match m {
        MemberUnraw::Named(s) => MemberUnraw::Named(s.clone()),
        MemberUnraw::Unnamed(i) => MemberUnraw::Unnamed(*i),
    }
}

fn field_ref_exec(f: &Field) -> (r: (MemberUnraw, bool))
    ensures
        r == field_ref(*f),
{
    (clone_member(&f.member), type_is_option(&f.ty))
}

fn make_source_arm(transparent: bool, fields: &Vec<Field>) -> (r: SourceArm)
    ensures
        r == source_arm(transparent, fields@),
{
    if transparent && fields.len() > 0 {
        return SourceArm::Transparent { member: clone_member(&fields[0].member) };
    }
    match source_field(fields) {
        Some(i) => SourceArm::Field {
            member: clone_member(&fields[i].member),
            optional: type_is_option(&fields[i].ty),
            loc: fields[i].source_span(),
        },
        None => SourceArm::Absent,
    }
}

fn add_source_bounds(bounds: &mut InferredBounds, transparent: bool, fields: &Vec<Field>)
    ensures
        final(bounds)@ == source_bounds(old(bounds)@, transparent, fields@),
{
    if transparent && fields.len() > 0 {
        if fields[0].contains_generic {
            bounds.insert(fields[0].ty.text.clone(), String::from_str("::thiserror::__private::Error"));
        }
        return;
    }
    if let Some(i) = source_field(fields) {
        if fields[i].contains_generic {
            bounds.insert(
                unoptional_type(&fields[i].ty),
                String::from_str("::thiserror::__private::Error + 'static"),
            );
        }
    }
}

fn make_struct_provide_arm(fields: &Vec<Field>) -> (r: Option<ProvideArm>)
    ensures
        r == struct_provide_arm(fields@),
{
    let b = backtrace_field(fields)?;
    Some(
        match source_field(fields) {
            Some(s) => ProvideArm {
                source: Some(field_ref_exec(&fields[s])),
                backtrace: if same_member_exec(&fields[s].member, &fields[b].member) {
                    None
                } else {
                    Some(field_ref_exec(&fields[b]))
                },
            },
            None => ProvideArm { source: None, backtrace: Some(field_ref_exec(&fields[b])) },
        },
    )
}

fn make_variant_provide_arm(fields: &Vec<Field>) -> (r: ProvideArm)
    ensures
        r == variant_provide_arm(fields@),
{
    match (backtrace_field(fields), source_field(fields)) {
        (Some(b), Some(s)) => if fields[b].attrs.backtrace.is_none() {
            ProvideArm {
                source: Some(field_ref_exec(&fields[s])),
                backtrace: Some(field_ref_exec(&fields[b])),
            }
        } else if same_member_exec(&fields[b].member, &fields[s].member) {
            ProvideArm { source: Some(field_ref_exec(&fields[s])), backtrace: None }
        } else {
            ProvideArm {
                source: Some(field_ref_exec(&fields[s])),
                backtrace: Some(field_ref_exec(&fields[b])),
            }
        },
        (Some(b), None) => ProvideArm { source: None, backtrace: Some(field_ref_exec(&fields[b])) },
        (None, _) => ProvideArm { source: None, backtrace: None },
    }
}

fn make_from_impl(variant: Option<String>, fields: &Vec<Field>) -> (r: Option<FromImpl>)
    ensures
        r == from_impl(variant, fields@),
{
    let f = from_field(fields)?;
    proof {
        crate::prop::lemma_first_from(fields@, |f: Field| crate::prop::has_from(f), 0);
    }
    let backtrace = match distinct_backtrace_field(fields) {
        Some(b) => Some(field_ref_exec(&fields[b])),
        None => None,
    };
    Some(
        FromImpl {
            variant,
            from_ty: unoptional_type(&fields[f].ty),
            member: clone_member(&fields[f].member),
            optional: type_is_option(&fields[f].ty),
            backtrace,
            loc: fields[f].attrs.from.unwrap(),
        },
    )
}

fn implied_contains(implied: &Vec<(usize, Trait)>, x: (usize, Trait)) -> (r: bool)
    ensures
        r == implied@.contains(x),
{
    let mut i: usize = 0;
    while i < implied.len()
        invariant
            i <= implied@.len(),
            forall|j: int| 0 <= j < i ==> implied@[j] != x,
        decreases implied.len() - i,
    {
        if implied[i].0 == x.0 && implied[i].1 == x.1 {
            assert(implied@[i as int] == x);
            return true;
        }
        i = i + 1;
    }
    false
}

fn trait_at(k: usize) -> (r: Trait)
    requires
        k < 9,
    ensures
        r == all_traits()[k as int],
{
    match k {
        0 => Trait::Debug,
        1 => Trait::Display,
        2 => Trait::Octal,
        3 => Trait::LowerHex,
        4 => Trait::UpperHex,
        5 => Trait::Pointer,
        6 => Trait::Binary,
        7 => Trait::LowerExp,
        _ => Trait::UpperExp,
    }
}

fn add_display_bounds(
    bounds: &mut InferredBounds,
    fields: &Vec<Field>,
    implied: &Vec<(usize, Trait)>,
)
    ensures
        final(bounds)@ == display_bounds(old(bounds)@, fields@, implied@),
{
    let ghost m0 = bounds@;
    let mut f: usize = 0;
    while f < fields.len()
        invariant
            f <= fields@.len(),
            bounds@ == fold_fields(m0, fields@, implied@, f as int),
        decreases fields.len() - f,
    {
        let ghost before = bounds@;
        let mut k: usize = 0;
        while k < 9
            invariant
                f < fields@.len(),
                k <= 9,
                bounds@ == fold_traits(before, fields@, implied@, f as int, k as int),
            decreases 9 - k,
        {
            let t = trait_at(k);
            if fields[f].contains_generic && implied_contains(implied, (f, t)) {
                bounds.insert(fields[f].ty.text.clone(), String::from_str(t.path()));
            }
            k = k + 1;
        }
        f = f + 1;
    }
}

/// The variable that holds a field in a rendering arm.
pub open spec fn member_var(m: MemberUnraw) -> Seq<char> {
    match m {
        MemberUnraw::Named(s) => local_form(s@),
        MemberUnraw::Unnamed(i) => seq!['_'] + decimal(i as nat),
    }
}

fn member_var_exec(m: &MemberUnraw) -> (r: String)
    ensures
        r@ == member_var(*m),
{
    match m {
        MemberUnraw::Named(s) => to_local(s),
        MemberUnraw::Unnamed(i) => {
            let mut v = String::new();
            push_char(&mut v, '_');
            push_decimal(&mut v, *i);
            assert(v@ =~= seq!['_'] + decimal(*i as nat));
            v
        },
    }
}

pub open spec fn vars_of(fields: Seq<Field>) -> Seq<Seq<char>> {
    Seq::new(fields.len(), |i: int| member_var(fields[i].member))
}

/// The binding pattern: by members when the first field is named, by
/// variables when it is positional, empty when there are no fields.
pub open spec fn pat_matches(p: FieldsPat, fields: Seq<Field>) -> bool {
    if fields.len() == 0 {
        p is Empty
    } else if fields[0].member is Named {
        p matches FieldsPat::Braced(ms) && ms@ == members_of(fields)
    } else {
        p matches FieldsPat::Tuple(vs) && crate::generics::texts(vs@) == vars_of(fields)
    }
}

fn field_vars(fields: &Vec<Field>) -> (r: Vec<String>)
    ensures
        crate::generics::texts(r@) == vars_of(fields@),
{
    let mut vars: Vec<String> = Vec::new();
    let mut i: usize = 0;
    while i < fields.len()
        invariant
            i <= fields@.len(),
            vars@.len() == i,
            forall|j: int| 0 <= j < i ==> vars@[j]@ == member_var(fields@[j].member),
        decreases fields.len() - i,
    {
        vars.push(member_var_exec(&fields[i].member));
        i = i + 1;
    }
    assert(crate::generics::texts(vars@) =~= vars_of(fields@));
    vars
}

pub fn fields_pat(fields: &Vec<Field>) -> (r: FieldsPat)
    ensures
        pat_matches(r, fields@),
{
    if fields.len() == 0 {
        return FieldsPat::Empty;
    }
    if let MemberUnraw::Named(_) = &fields[0].member {
        let mut ms: Vec<MemberUnraw> = Vec::new();
        let mut i: usize = 0;
        while i < fields.len()
            invariant
                i <= fields@.len(),
                ms@ == members_of(fields@).subrange(0, i as int),
            decreases fields.len() - i,
        {
            ms.push(clone_member(&fields[i].member));
            assert(members_of(fields@).subrange(0, i + 1) =~= members_of(fields@).subrange(
                0,
                i as int,
            ).push(fields@[i as int].member));
            i = i + 1;
        }
        assert(members_of(fields@).subrange(0, i as int) =~= members_of(fields@));
        FieldsPat::Braced(ms)
    } else {
        FieldsPat::Tuple(field_vars(fields))
    }
}

} // verus!

verus! {

pub open spec fn self_name() -> Seq<char> {
    "Self"@
}

/// `Self: Debug + Display`, asked of a generic type so that it is an error.
pub open spec fn self_bounds(m: BoundsModel, g: Generics) -> BoundsModel {
    if g.type_params@.len() > 0 {
        bounds_insert(
            bounds_insert(m, self_name(), trait_path(Trait::Debug)),
            self_name(),
            trait_path(Trait::Display),
        )
    } else {
        m
    }
}

fn add_self_bounds(bounds: &mut InferredBounds, g: &Generics)
    ensures
        final(bounds)@ == self_bounds(old(bounds)@, *g),
{
    if g.type_params.len() > 0 {
        bounds.insert(String::from_str("Self"), String::from_str(Trait::Debug.path()));
        bounds.insert(String::from_str("Self"), String::from_str(Trait::Display.path()));
    }
}

pub open spec fn no_bounds() -> BoundsModel {
    Seq::empty()
}

/// The single arm of a struct, or none where the arm is absent.
pub open spec fn struct_source(s: Struct) -> Option<SourceArm> {
    match source_arm(s.attrs.transparent is Some, s.fields@) {
        SourceArm::Absent => None,
        a => Some(a),
    }
}

/// What is generated for a valid struct.
pub open spec fn struct_plan(s: Struct, r: ErrorImpl) -> bool {
    let fields = s.fields@;
    let transparent = s.attrs.transparent is Some;
    &&& r.ident == s.ident
    &&& augments(
        r.where_clause,
        s.generics,
        self_bounds(source_bounds(no_bounds(), transparent, fields), s.generics),
    )
    &&& match struct_source(s) {
        None => r.source is None,
        Some(a) => r.source matches Some(v) && v@ == seq![(None::<String>, a)],
    }
    &&& match struct_provide_arm(fields) {
        None => r.provide is None,
        Some(a) => r.provide matches Some(v) && v@ == seq![(None::<String>, a)],
    }
    &&& if transparent {
        r.display matches Some(d) && d.arms@.len() == 1 && d.arms@[0].variant is None && pat_matches(
            d.arms@[0].pat,
            fields,
        ) && d.arms@[0].body == (DisplayBody::Transparent { member: fields[0].member })
            && !d.use_as_display && !d.void_deref && augments(
            d.where_clause,
            s.generics,
            display_bounds(no_bounds(), fields, seq![(0usize, Trait::Display)]),
        )
    } else {
        match s.attrs.display {
            Some(disp) => r.display matches Some(d) && d.arms@.len() == 1 && d.arms@[0].variant is None
                && pat_matches(d.arms@[0].pat, fields) && d.arms@[0].body == DisplayBody::Template(
                disp,
            ) && d.use_as_display == disp.has_bonus_display && !d.void_deref && augments(
                d.where_clause,
                s.generics,
                display_bounds(no_bounds(), fields, disp.implied_bounds@),
            ),
            None => r.display is None,
        }
    }
    &&& match from_impl(None, fields) {
        None => r.froms@.len() == 0,
        Some(x) => r.froms@ == seq![x],
    }
}

fn single<T>(x: T) -> (r: Vec<T>)
    ensures
        r@ == seq![x],
{
    let mut v: Vec<T> = Vec::new();
    v.push(x);
    assert(v@ =~= seq![x]);
    v
}

/// The shape of what is generated for a struct that passed validation.
pub fn impl_struct(input: Struct) -> (r: ErrorImpl)
    requires
        crate::valid::struct_check(input) is Ok,
    ensures
        struct_plan(input, r),
{
    let ghost s = input;
    let Struct { attrs, ident, generics, fields } = input;
    let transparent = attrs.transparent.is_some();
    let mut error_bounds = InferredBounds::new();
    add_source_bounds(&mut error_bounds, transparent, &fields);
    let source = match make_source_arm(transparent, &fields) {
        SourceArm::Absent => None,
        arm => Some(single((None, arm))),
    };
    let provide = match make_struct_provide_arm(&fields) {
        None => None,
        Some(arm) => Some(single((None, arm))),
    };
    let froms = match make_from_impl(None, &fields) {
        None => Vec::new(),
        Some(x) => single(x),
    };
    let display = if transparent {
        let implied = single((0usize, Trait::Display));
        let mut display_bounds = InferredBounds::new();
        add_display_bounds(&mut display_bounds, &fields, &implied);
        let arm = DisplayArm {
            variant: None,
            pat: fields_pat(&fields),
            body: DisplayBody::Transparent { member: clone_member(&fields[0].member) },
        };
        Some(
            DisplayImpl {
                use_as_display: false,
                void_deref: false,
                arms: single(arm),
                where_clause: display_bounds.augment_where_clause(&generics),
            },
        )
    } else {
        match attrs.display {
            Some(disp) => {
                let mut display_bounds = InferredBounds::new();
                add_display_bounds(&mut display_bounds, &fields, &disp.implied_bounds);
                let use_as_display = disp.has_bonus_display;
                let arm = DisplayArm {
                    variant: None,
                    pat: fields_pat(&fields),
                    body: DisplayBody::Template(disp),
                };
                Some(
                    DisplayImpl {
                        use_as_display,
                        void_deref: false,
                        arms: single(arm),
                        where_clause: display_bounds.augment_where_clause(&generics),
                    },
                )
            },
            None => None,
        }
    };
    add_self_bounds(&mut error_bounds, &generics);
    let where_clause = error_bounds.augment_where_clause(&generics);
    ErrorImpl { ident, where_clause, source, provide, display, froms }
}

} // verus!

verus! {

pub open spec fn enum_source_bounds(m: BoundsModel, vs: Seq<Variant>, n: int) -> BoundsModel
    decreases n,
{
    if n <= 0 {
        m
    } else {
        source_bounds(
            enum_source_bounds(m, vs, n - 1),
            vs[n - 1].attrs.transparent is Some,
            vs[n - 1].fields@,
        )
    }
}

/// The capabilities that a variant's rendering asks of its fields.
pub open spec fn variant_implied(v: Variant) -> Seq<(usize, Trait)> {
    match v.attrs.display {
        Some(d) => d.implied_bounds@,
        None => match v.attrs.fmt {
            Some(_) => Seq::empty(),
            None => seq![(0usize, Trait::Display)],
        },
    }
}

pub open spec fn enum_display_bounds(m: BoundsModel, vs: Seq<Variant>, n: int) -> BoundsModel
    decreases n,
{
    if n <= 0 {
        m
    } else {
        display_bounds(enum_display_bounds(m, vs, n - 1), vs[n - 1].fields@, variant_implied(vs[n - 1]))
    }
}

pub open spec fn froms_of(vs: Seq<Variant>, n: int) -> Seq<FromImpl>
    decreases n,
{
    if n <= 0 {
        Seq::empty()
    } else {
        froms_of(vs, n - 1) + match from_impl(Some(vs[n - 1].ident), vs[n - 1].fields@) {
            Some(x) => seq![x],
            None => Seq::empty(),
        }
    }
}

/// The rendering arm of variant `v`.
pub open spec fn display_arm_ok(a: DisplayArm, v: Variant) -> bool {
    &&& a.variant == Some(v.ident)
    &&& pat_matches(a.pat, v.fields@)
    &&& match v.attrs.display {
        Some(d) => a.body == DisplayBody::Template(d),
        None => match v.attrs.fmt {
            Some(f) => a.body matches DisplayBody::Function { path, vars } && path == f.path
                && crate::generics::texts(vars@) == vars_of(v.fields@),
            None => a.body == (DisplayBody::Transparent { member: v.fields@[0].member }),
        },
    }
}

pub open spec fn has_bonus(v: Variant) -> bool {
    v.attrs.display matches Some(d) && d.has_bonus_display
}

pub open spec fn bonus_in(vs: Seq<Variant>) -> bool {
    exists|i: int| 0 <= i < vs.len() && has_bonus(#[trigger] vs[i])
}

/// What is generated for a valid enum.
pub open spec fn enum_plan(e: Enum, r: ErrorImpl) -> bool {
    let vs = e.variants@;
    &&& r.ident == e.ident
    &&& augments(
        r.where_clause,
        e.generics,
        self_bounds(enum_source_bounds(no_bounds(), vs, vs.len() as int), e.generics),
    )
    &&& if exists|i: int| 0 <= i < vs.len() && crate::prop::variant_has_source(vs[i]) {
        r.source matches Some(arms) && arms@.len() == vs.len() && forall|i: int|
            0 <= i < vs.len() ==> arms@[i] == (
                Some(vs[i].ident),
                source_arm(vs[i].attrs.transparent is Some, vs[i].fields@),
            )
    } else {
        r.source is None
    }
    &&& if exists|i: int| 0 <= i < vs.len() && backtrace_of(vs[i].fields@) is Some {
        r.provide matches Some(arms) && arms@.len() == vs.len() && forall|i: int|
            0 <= i < vs.len() ==> arms@[i] == (Some(vs[i].ident), variant_provide_arm(vs[i].fields@))
    } else {
        r.provide is None
    }
    &&& if crate::prop::enum_has_display(e) {
        r.display matches Some(d) && d.arms@.len() == vs.len() && (forall|i: int|
            0 <= i < vs.len() ==> display_arm_ok(#[trigger] d.arms@[i], vs[i]))
            && d.use_as_display == bonus_in(vs) && d.void_deref == (vs.len() == 0) && augments(
            d.where_clause,
            e.generics,
            enum_display_bounds(no_bounds(), vs, vs.len() as int),
        )
    } else {
        r.display is None
    }
    &&& r.froms@ == froms_of(vs, vs.len() as int)
}

} // verus!

verus! {

proof fn lemma_variants_ok(vs: Seq<Variant>, k: int, j: int, has_display: bool)
    requires
        0 <= k <= j < vs.len(),
        crate::valid::variants_check(vs, k, has_display) is Ok,
    ensures
        crate::valid::variant_check(vs[j]) is Ok,
        has_display ==> crate::valid::variant_renders(vs[j]),
    decreases j - k,
{
    if k < j {
        lemma_variants_ok(vs, k + 1, j, has_display);
    }
}

/// The shape of what is generated for an enum that passed validation.
pub fn impl_enum(input: Enum) -> (r: ErrorImpl)
    requires
        crate::valid::enum_check(input) is Ok,
    ensures
        enum_plan(input, r),
{
    let ghost e = input;
    let ghost vs = input.variants@;
    let has_source = input.has_source();
    let has_backtrace = input.has_backtrace();
    let has_display = input.has_display();
    let Enum { attrs: _, ident, generics, mut variants } = input;
    let n = variants.len();
    let mut error_bounds = InferredBounds::new();
    let mut source_arms: Vec<(Option<String>, SourceArm)> = Vec::new();
    let mut provide_arms: Vec<(Option<String>, ProvideArm)> = Vec::new();
    let mut froms: Vec<FromImpl> = Vec::new();
    let mut i: usize = 0;
    while i < n
        invariant
            n == variants@.len(),
            variants@ == vs,
            i <= n,
            error_bounds@ == enum_source_bounds(no_bounds(), vs, i as int),
            source_arms@.len() == i,
            provide_arms@.len() == i,
            forall|j: int|
                0 <= j < i ==> source_arms@[j] == (
                    Some(vs[j].ident),
                    source_arm(vs[j].attrs.transparent is Some, vs[j].fields@),
                ),
            forall|j: int|
                0 <= j < i ==> provide_arms@[j] == (
                    Some(vs[j].ident),
                    variant_provide_arm(vs[j].fields@),
                ),
            froms@ == froms_of(vs, i as int),
        decreases n - i,
    {
        let v = &variants[i];
        let transparent = v.attrs.transparent.is_some();
        add_source_bounds(&mut error_bounds, transparent, &v.fields);
        source_arms.push((Some(v.ident.clone()), make_source_arm(transparent, &v.fields)));
        provide_arms.push((Some(v.ident.clone()), make_variant_provide_arm(&v.fields)));
        let ghost before = froms@;
        match make_from_impl(Some(v.ident.clone()), &v.fields) {
            Some(x) => {
                froms.push(x);
            },
            None => {},
        }
        assert(froms@ =~= froms_of(vs, i + 1));
        i = i + 1;
    }
    let display = if has_display {
        let mut display_bounds = InferredBounds::new();
        let mut arms: Vec<DisplayArm> = Vec::new();
        let mut bonus = false;
        let mut i: usize = 0;
        while i < n
            invariant
                n == variants@.len() == vs.len(),
                i <= n,
                has_display,
                has_display == crate::prop::enum_has_display(e),
                crate::valid::variants_check(vs, 0, has_display) is Ok,
                forall|j: int|
                    0 <= j < n ==> variants@[j].fields == vs[j].fields && variants@[j].ident
                        == vs[j].ident && variants@[j].loc == vs[j].loc,
                forall|j: int| i <= j < n ==> variants@[j].attrs == vs[j].attrs,
                arms@.len() == i,
                forall|j: int| 0 <= j < i ==> display_arm_ok(#[trigger] arms@[j], vs[j]),
                display_bounds@ == enum_display_bounds(no_bounds(), vs, i as int),
                bonus == exists|j: int| 0 <= j < i && has_bonus(#[trigger] vs[j]),
            decreases n - i,
        {
            proof {
                lemma_variants_ok(vs, 0, i as int, has_display);
            }
            let pat = fields_pat(&variants[i].fields);
            let vident = variants[i].ident.clone();
            let body = if variants[i].attrs.display.is_some() {
                let d = variants[i].attrs.display.take().unwrap();
                add_display_bounds(&mut display_bounds, &variants[i].fields, &d.implied_bounds);
                bonus = bonus || d.has_bonus_display;
                DisplayBody::Template(d)
            } else if variants[i].attrs.fmt.is_some() {
                let f = variants[i].attrs.fmt.take().unwrap();
                let none: Vec<(usize, Trait)> = Vec::new();
                add_display_bounds(&mut display_bounds, &variants[i].fields, &none);
                assert(none@ =~= variant_implied(vs[i as int]));
                DisplayBody::Function { path: f.path, vars: field_vars(&variants[i].fields) }
            } else {
                assert(vs[i as int].attrs.transparent is Some);
                assert(crate::valid::non_field_attrs_check(vs[i as int].attrs) is Ok);
                assert(vs[i as int].fields@.len() == 1);
                let implied = single((0usize, Trait::Display));
                add_display_bounds(&mut display_bounds, &variants[i].fields, &implied);
                DisplayBody::Transparent { member: clone_member(&variants[i].fields[0].member) }
            };
            arms.push(DisplayArm { variant: Some(vident), pat, body });
            i = i + 1;
        }
        Some(
            DisplayImpl {
                use_as_display: bonus,
                void_deref: n == 0,
                arms,
                where_clause: display_bounds.augment_where_clause(&generics),
            },
        )
    } else {
        None
    };
    add_self_bounds(&mut error_bounds, &generics);
    let where_clause = error_bounds.augment_where_clause(&generics);
    ErrorImpl {
        ident,
        where_clause,
        source: if has_source {
            Some(source_arms)
        } else {
            None
        },
        provide: if has_backtrace {
            Some(provide_arms)
        } else {
            None
        },
        display,
        froms,
    }
}

} // verus!

verus! {

/// What is generated for a type whose annotations were rejected: the
/// diagnostic, and a stand-in error implementation whose rendering is
/// unreachable and which has no cause.
pub struct Fallback {
    pub ident: String,
    pub error: crate::diag::Error,
}

pub enum Derived {
    Impl(ErrorImpl),
    Fallback(Fallback),
}

/// The plan for a built and validated input.
pub open spec fn plan_of(input: Input, r: ErrorImpl) -> bool {
    match input {
        Input::Struct(s) => struct_plan(s, r),
        Input::Enum(e) => enum_plan(e, r),
    }
}

fn fits_u32(fields: &crate::ast::Fields) -> (r: bool)
    ensures
        r == (crate::ast::decls_of(*fields).len() <= u32::MAX + 1),
{
    match fields {
        crate::ast::Fields::Named(v) => (v.len() as u64) <= 4294967296u64,
        crate::ast::Fields::Unnamed(v) => (v.len() as u64) <= 4294967296u64,
        crate::ast::Fields::Unit => true,
    }
}

/// Every field list of the declaration can be numbered by a `u32`.
pub open spec fn sizes_ok(node: crate::ast::DeriveInput) -> bool {
    &&& node.data matches crate::ast::Data::Struct(f) ==> crate::ast::decls_of(f).len() <= u32::MAX
        + 1
    &&& forall|i: int|
        0 <= i < crate::ast::variant_decls(node.data).len() ==> crate::ast::decls_of(
            #[trigger] crate::ast::variant_decls(node.data)[i].fields,
        ).len() <= u32::MAX + 1
}

fn sizes_fit(node: &crate::ast::DeriveInput) -> (r: bool)
    ensures
        r == sizes_ok(*node),
{
    match &node.data {
        crate::ast::Data::Struct(f) => fits_u32(f),
        crate::ast::Data::Enum(vs) => {
            let mut i: usize = 0;
            while i < vs.len()
                invariant
                    i <= vs@.len(),
                    node.data == crate::ast::Data::Enum(*vs),
                    forall|j: int|
                        0 <= j < i ==> crate::ast::decls_of(#[trigger] vs@[j].fields).len()
                            <= u32::MAX + 1,
                decreases vs.len() - i,
            {
                if !fits_u32(&vs[i].fields) {
                    assert(crate::ast::variant_decls(node.data)[i as int] == vs@[i as int]);
                    return false;
                }
                i = i + 1;
            }
            true
        },
        crate::ast::Data::Union => true,
    }
}

/// What building, validating and then `done` give for `node`: the first
/// error, or the success that `done` describes of the built model.
pub open spec fn built_then(
    node: crate::ast::DeriveInput,
    r: Result<ErrorImpl, crate::diag::Error>,
) -> bool {
    if !sizes_ok(node) {
        r == Err::<ErrorImpl, crate::diag::Error>(
            crate::diag::Error { loc: node.loc, kind: crate::diag::ErrorKind::Malformed },
        )
    } else {
        match crate::ast::input_error(node) {
            Some(e) => r == Err::<ErrorImpl, crate::diag::Error>(e),
            None => exists|i: Input|
                #[trigger] crate::ast::input_built(node, i) && match crate::valid::input_check(i) {
                    Err(e) => r == Err::<ErrorImpl, crate::diag::Error>(e),
                    Ok(()) => r matches Ok(p) && plan_of(i, p),
                },
        }
    }
}

/// Builds, validates and plans; the first error stops it.
pub fn try_expand(node: crate::ast::DeriveInput) -> (r: Result<ErrorImpl, crate::diag::Error>)
    ensures
        built_then(node, r),
{
    if !sizes_fit(&node) {
        return Err(crate::diag::Error { loc: node.loc, kind: crate::diag::ErrorKind::Malformed });
    }
    let input = Input::from_syn(node)?;
    let ghost built = input;
    match input.validate() {
        Ok(()) => {},
        Err(e) => {
            assert(crate::ast::input_built(node, built));
            return Err(e);
        },
    }
    let r = match input {
        Input::Struct(s) => impl_struct(s),
        Input::Enum(e) => impl_enum(e),
    };
    assert(plan_of(built, r));
    assert(crate::ast::input_built(node, built));
    Ok(r)
}

/// The plan for the declaration, or the fallback with the first diagnostic.
pub fn derive(node: crate::ast::DeriveInput) -> (r: Derived)
    ensures
        exists|t: Result<ErrorImpl, crate::diag::Error>|
            #[trigger] built_then(node, t) && match t {
                Ok(p) => r == Derived::Impl(p),
                Err(e) => r == Derived::Fallback(Fallback { ident: node.ident, error: e }),
            },
{
    let ident = node.ident.clone();
    let t = try_expand(node);
    let ghost g = t;
    let r = match t {
        Ok(expanded) => Derived::Impl(expanded),
        Err(error) => Derived::Fallback(crate::fallback::expand(ident, error)),
    };
    assert(built_then(node, g));
    r
}

} // verus!

verus! {

/// What the attribute form of the derivation adds to a declaration before
/// deriving: a backtrace field, and, per variant, a default template that
/// renders the value's debug form.
pub enum Additions {
    Struct { add_backtrace: bool },
    /// Per variant: whether to add a backtrace field, and whether to add the
    /// default template.
    Enum { variants: Vec<(bool, bool)> },
}

/// A struct gains a backtrace field when it has no diagnostic-context, cause
/// or auto-conversion field; a variant gains one unless it has a
/// diagnostic-context field or delegates, and gains the default template when
/// it has none.
pub open spec fn additions_of(input: Input, r: Additions) -> bool {
    match input {
        Input::Struct(s) => r == Additions::Struct {
            add_backtrace: backtrace_of(s.fields@) is None && from_of(s.fields@) is None
                && source_of(s.fields@) is None,
        },
        Input::Enum(e) => r matches Additions::Enum { variants } && variants@.len()
            == e.variants@.len() && forall|i: int|
            0 <= i < e.variants@.len() ==> #[trigger] variants@[i] == (
                backtrace_of(e.variants@[i].fields@) is None && e.variants@[i].attrs.transparent is None,
                e.variants@[i].attrs.display is None,
            ),
    }
}

pub fn additions(input: &Input) -> (r: Additions)
    ensures
        additions_of(*input, r),
{
    match input {
        Input::Struct(s) => Additions::Struct {
            add_backtrace: backtrace_field(&s.fields).is_none() && from_field(&s.fields).is_none()
                && source_field(&s.fields).is_none(),
        },
        Input::Enum(e) => {
            let mut variants: Vec<(bool, bool)> = Vec::new();
            let mut i: usize = 0;
            while i < e.variants.len()
                invariant
                    i <= e.variants@.len(),
                    variants@.len() == i,
                    forall|j: int|
                        0 <= j < i ==> #[trigger] variants@[j] == (
                            backtrace_of(e.variants@[j].fields@) is None
                                && e.variants@[j].attrs.transparent is None,
                            e.variants@[j].attrs.display is None,
                        ),
                decreases e.variants.len() - i,
            {
                let v = &e.variants[i];
                variants.push(
                    (
                        backtrace_field(&v.fields).is_none() && v.attrs.transparent.is_none(),
                        v.attrs.display.is_none(),
                    ),
                );
                i = i + 1;
            }
            Additions::Enum { variants }
        },
    }
}

/// As `built_then`, for what the attribute form adds.
pub open spec fn additions_then(
    node: crate::ast::DeriveInput,
    r: Result<Additions, crate::diag::Error>,
) -> bool {
    if !sizes_ok(node) {
        r == Err::<Additions, crate::diag::Error>(
            crate::diag::Error { loc: node.loc, kind: crate::diag::ErrorKind::Malformed },
        )
    } else {
        match crate::ast::input_error(node) {
            Some(e) => r == Err::<Additions, crate::diag::Error>(e),
            None => exists|i: Input|
                #[trigger] crate::ast::input_built(node, i) && match crate::valid::input_check(i) {
                    Err(e) => r == Err::<Additions, crate::diag::Error>(e),
                    Ok(()) => r matches Ok(a) && additions_of(i, a),
                },
        }
    }
}

/// Builds and validates the declaration, then says what the attribute form
/// adds to it.
pub fn try_expand_to_derive(node: crate::ast::DeriveInput) -> (r: Result<
    Additions,
    crate::diag::Error,
>)
    ensures
        additions_then(node, r),
{
    if !sizes_fit(&node) {
        return Err(crate::diag::Error { loc: node.loc, kind: crate::diag::ErrorKind::Malformed });
    }
    let input = Input::from_syn(node)?;
    assert(crate::ast::input_built(node, input));
    input.validate()?;
    let a = additions(&input);
    assert(additions_of(input, a));
    Ok(a)
}

} // verus!
