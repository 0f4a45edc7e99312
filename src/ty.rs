use vstd::prelude::*;

verus! {

/// A type expression, as far as the analysis looks into it, with its
/// canonical text (the text that bounds are keyed by and printed with).
pub struct Type {
    pub kind: TypeKind,
    pub text: String,
}

pub enum TypeKind {
    /// `a::b::C<..>`, or `<Q as a::b>::C` when `qself` is present.
    Path { qself: Option<Box<Type>>, segments: Vec<Segment> },
    /// `&'l T` or `&T`; a lifetime is held without its apostrophe.
    Reference { lifetime: Option<String>, elem: Box<Type> },
    /// Any other form of type (tuple, slice, trait object, ...).
    Other,
}

pub struct Segment {
    pub ident: String,
    pub args: PathArgs,
}

pub enum PathArgs {
    Bare,
    Angle(Vec<GenericArg>),
    Paren,
}

pub enum GenericArg {
    Type(Type),
    Lifetime(String),
    Other,
}

pub open spec fn static_name() -> Seq<char> {
    seq!['s', 't', 'a', 't', 'i', 'c']
}

/// Whether some lifetime in the type, at a place where one is looked for, is
/// not `'static`: the lifetime of a reference, and the lifetime arguments of
/// the last path segment and, recursively, of its type arguments.
pub open spec fn type_has_non_static_lifetime(ty: Type) -> bool
    decreases ty,
{
    match ty.kind {
        TypeKind::Path { qself, segments } => {
            if segments.len() == 0 {
                false
            } else {
                match segments@.last().args {
                    PathArgs::Angle(args) => args_have_non_static_lifetime(args@),
                    _ => false,
                }
            }
        },
        TypeKind::Reference { lifetime, elem } => match lifetime {
            Some(l) => l@ != static_name(),
            None => false,
        },
        TypeKind::Other => false,
    }
}

pub open spec fn args_have_non_static_lifetime(args: Seq<GenericArg>) -> bool
    decreases args,
{
    if args.len() == 0 {
        false
    } else {
        args_have_non_static_lifetime(args.drop_last()) || match args.last() {
            GenericArg::Type(t) => type_has_non_static_lifetime(t),
            GenericArg::Lifetime(l) => l@ != static_name(),
            GenericArg::Other => false,
        }
    }
}

} // verus!

verus! {

/// The `T` of a type written `..::Option<T>`.
pub open spec fn option_param(ty: Type) -> Option<Type> {
    match ty.kind {
        TypeKind::Path { qself, segments } => {
            if segments.len() == 0 || segments@.last().ident@ != "Option"@ {
                None
            } else {
                match segments@.last().args {
                    PathArgs::Angle(args) => {
                        if args.len() == 1 {
                            match args@[0] {
                                GenericArg::Type(t) => Some(t),
                                _ => None,
                            }
                        } else {
                            None
                        }
                    },
                    _ => None,
                }
            }
        },
        _ => None,
    }
}

/// A type written `..::Backtrace`, without arguments.
pub open spec fn is_backtrace_type(ty: Type) -> bool {
    match ty.kind {
        TypeKind::Path { qself, segments } => segments.len() > 0 && segments@.last().ident@
            == "Backtrace"@ && match segments@.last().args {
            PathArgs::Bare => true,
            PathArgs::Angle(args) => args.len() == 0,
            PathArgs::Paren => false,
        },
        _ => false,
    }
}

/// A type written `&'static ..::Location<'static, ..>`.
pub open spec fn is_location_type(ty: Type) -> bool {
    match ty.kind {
        TypeKind::Reference { lifetime, elem } => lifetime matches Some(l) && l@ == static_name()
            && match elem.kind {
            TypeKind::Path { qself, segments } => segments.len() > 0 && segments@.last().ident@
                == "Location"@ && match segments@.last().args {
                PathArgs::Angle(args) => args.len() > 0 && (args@[0] matches GenericArg::Lifetime(
                    l0,
                ) && l0@ == static_name()),
                _ => false,
            },
            _ => false,
        },
        _ => false,
    }
}

/// Whether the text of `s` is "Option", "Backtrace", ... given as a literal.
fn ident_is(s: &String, lit: &str) -> (r: bool)
    ensures
        r == (s@ == lit@),
{
    crate::text::eq_str(s.as_str(), lit)
}

fn is_static_name(s: &String) -> (r: bool)
    ensures
        r == (s@ == static_name()),
{
    proof {
        reveal_strlit("static");
        assert("static"@ =~= static_name());
    }
    crate::text::eq_str(s.as_str(), "static")
}

/// The type argument of an `Option<T>`, if `ty` is written so.
pub fn type_parameter_of_option(ty: &Type) -> (r: Option<&Type>)
    ensures
        r matches Some(t) ==> option_param(*ty) == Some(*t),
        r is None ==> option_param(*ty) is None,
{
    match &ty.kind {
        TypeKind::Path { qself: _, segments } => {
            if segments.len() == 0 || !ident_is(&segments[segments.len() - 1].ident, "Option") {
                return None;
            }
            match &segments[segments.len() - 1].args {
                PathArgs::Angle(args) => {
                    if args.len() != 1 {
                        return None;
                    }
                    match &args[0] {
                        GenericArg::Type(t) => Some(t),
                        _ => None,
                    }
                },
                _ => None,
            }
        },
        _ => None,
    }
}

pub fn type_is_option(ty: &Type) -> (r: bool)
    ensures
        r == option_param(*ty) is Some,
{
    type_parameter_of_option(ty).is_some()
}

/// The type itself, or the `T` of an `Option<T>`.
pub open spec fn unoptional(ty: Type) -> Type {
    match option_param(ty) {
        Some(t) => t,
        None => ty,
    }
}

/// The text of `unoptional(ty)`.
pub fn unoptional_type(ty: &Type) -> (r: String)
    ensures
        r == unoptional(*ty).text,
{
    match type_parameter_of_option(ty) {
        Some(t) => t.text.clone(),
        None => ty.text.clone(),
    }
}

pub fn type_is_backtrace(ty: &Type) -> (r: bool)
    ensures
        r == is_backtrace_type(*ty),
{
    match &ty.kind {
        TypeKind::Path { qself: _, segments } => {
            if segments.len() == 0 {
                return false;
            }
            let last = &segments[segments.len() - 1];
            ident_is(&last.ident, "Backtrace") && match &last.args {
                PathArgs::Bare => true,
                PathArgs::Angle(args) => args.len() == 0,
                PathArgs::Paren => false,
            }
        },
        _ => false,
    }
}

pub fn type_is_location(ty: &Type) -> (r: bool)
    ensures
        r == is_location_type(*ty),
{
    match &ty.kind {
        TypeKind::Reference { lifetime: Some(l), elem } => {
            if !is_static_name(l) {
                return false;
            }
            match &elem.kind {
                TypeKind::Path { qself: _, segments } => {
                    if segments.len() == 0 {
                        return false;
                    }
                    let last = &segments[segments.len() - 1];
                    if !ident_is(&last.ident, "Location") {
                        return false;
                    }
                    match &last.args {
                        PathArgs::Angle(args) => args.len() > 0 && match &args[0] {
                            GenericArg::Lifetime(l0) => is_static_name(l0),
                            _ => false,
                        },
                        _ => false,
                    }
                },
                _ => false,
            }
        },
        _ => false,
    }
}

pub fn contains_non_static_lifetime(ty: &Type) -> (r: bool)
    ensures
        r == type_has_non_static_lifetime(*ty),
    decreases ty,
{
    match &ty.kind {
        TypeKind::Path { qself: _, segments } => {
            if segments.len() == 0 {
                return false;
            }
            match &segments[segments.len() - 1].args {
                PathArgs::Angle(args) => {
                    let mut i: usize = 0;
                    while i < args.len()
                        invariant
                            i <= args@.len(),
                            ty.kind == (TypeKind::Path { qself: ty.kind->qself, segments: *segments }),
                            segments@.len() > 0,
                            segments@.last().args == PathArgs::Angle(*args),
                            !args_have_non_static_lifetime(args@.subrange(0, i as int)),
                        decreases args.len() - i,
                    {
                        let hit = match &args[i] {
                            GenericArg::Type(t) => {
                                proof {
                                    let sg = ty.kind->segments;
                                    let k = sg.len() - 1;
                                    assert(decreases_to!(*ty => ty.kind));
                                    assert(decreases_to!(ty.kind => sg));
                                    assert(decreases_to!(sg => sg@));
                                    assert(decreases_to!(sg@ => sg@[k]));
                                    assert(decreases_to!(sg@[k] => sg@[k].args));
                                    assert(decreases_to!(sg@[k].args => sg@[k].args->Angle_0));
                                    assert(decreases_to!(*args => args@));
                                    assert(decreases_to!(args@ => args@[i as int]));
                                    assert(decreases_to!(args@[i as int] => *t));
                                }
                                contains_non_static_lifetime(t)
                            },
                            GenericArg::Lifetime(l) => !is_static_name(l),
                            GenericArg::Other => false,
                        };
                        assert(args@.subrange(0, i + 1).drop_last() =~= args@.subrange(0, i as int));
                        if hit {
                            assert(args@.subrange(0, i + 1) =~= args@.subrange(0, i as int).push(args@[i as int]));
                            assert(args_have_non_static_lifetime(args@.subrange(0, i + 1)));
                            proof {
                                lemma_prefix_non_static(args@, (i + 1) as int);
                            }
                            return true;
                        }
                        i = i + 1;
                    }
                    assert(args@.subrange(0, i as int) =~= args@);
                    false
                },
                _ => false,
            }
        },
        TypeKind::Reference { lifetime, elem: _ } => match lifetime {
            Some(l) => !is_static_name(l),
            None => false,
        },
        TypeKind::Other => false,
    }
}

proof fn lemma_prefix_non_static(args: Seq<GenericArg>, k: int)
    requires
        0 <= k <= args.len(),
        args_have_non_static_lifetime(args.subrange(0, k)),
    ensures
        args_have_non_static_lifetime(args),
    decreases args.len() - k,
{
    if k < args.len() {
        assert(args.subrange(0, k + 1).drop_last() =~= args.subrange(0, k));
        lemma_prefix_non_static(args, k + 1);
    } else {
        assert(args.subrange(0, k) =~= args);
    }
}

} // verus!
