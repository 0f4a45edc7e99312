use vstd::prelude::*;
use crate::ast::{same_member, Enum, Field, Input, Struct, Variant};
use crate::attr::Attrs;
use crate::diag::{err, Error, ErrorKind};
use crate::prop::{
    enum_has_display, first, has_backtrace_marker, has_from, is_backtrace_field, lemma_first_from,
    same_member_exec,
};
use crate::ty::{contains_non_static_lifetime, type_has_non_static_lifetime};

verus! {

/// The checks on the annotations of a type or variant: field markers do not
/// belong there, and delegation, template and rendering function exclude
/// each other.
pub open spec fn non_field_attrs_check(a: Attrs) -> Result<(), Error> {
    match (a.from, a.source, a.backtrace) {
        (Some(l), _, _) => Err(err(l, ErrorKind::FromNotOnField)),
        (None, Some(l), _) => Err(err(l, ErrorKind::SourceNotOnField)),
        (None, None, Some(l)) => Err(err(l, ErrorKind::BacktraceNotOnField)),
        (None, None, None) => if a.transparent is Some {
            match (a.display, a.fmt) {
                (Some(d), _) => Err(err(d.loc, ErrorKind::TransparentWithDisplay)),
                (None, Some(f)) => Err(err(f.loc, ErrorKind::TransparentWithFmt)),
                (None, None) => Ok(()),
            }
        } else {
            match (a.display, a.fmt) {
                (Some(d), Some(_)) => Err(err(d.loc, ErrorKind::FmtWithDisplay)),
                _ => Ok(()),
            }
        },
    }
}

/// The violation at field `i`, given the fields before it: a second
/// `#[from]`, `#[source]` or `#[backtrace]`, or a delegation marker.
pub open spec fn field_violation(fields: Seq<Field>, i: int) -> Option<Error> {
    let a = fields[i].attrs;
    if a.from is Some && exists|j: int| 0 <= j < i && fields[j].attrs.from is Some {
        Some(err(a.from->0, ErrorKind::DuplicateFrom))
    } else if a.source is Some && exists|j: int| 0 <= j < i && fields[j].attrs.source is Some {
        Some(err(a.source->0, ErrorKind::DuplicateSource))
    } else if a.backtrace is Some && exists|j: int| 0 <= j < i && fields[j].attrs.backtrace is Some {
        Some(err(a.backtrace->0, ErrorKind::DuplicateBacktrace))
    } else if a.transparent is Some {
        Some(err(a.transparent->0, ErrorKind::TransparentOnField))
    } else {
        None
    }
}

pub open spec fn first_violation(fields: Seq<Field>, i: int) -> Option<Error>
    decreases fields.len() - i,
{
    if i < 0 || i >= fields.len() {
        None
    } else {
        match field_violation(fields, i) {
            Some(e) => Some(e),
            None => first_violation(fields, i + 1),
        }
    }
}

pub open spec fn has_source_attr(f: Field) -> bool {
    f.attrs.source is Some
}

/// How many fields an auto-conversion allows: the cause, and a
/// diagnostic-context field that is another field.
pub open spec fn max_expected_fields(fields: Seq<Field>, from: int) -> int {
    match first(fields, |f: Field| has_backtrace_marker(f)) {
        Some(b) => if same_member(fields[from].member, fields[b].member) {
            1
        } else {
            2
        },
        None => if exists|i: int| 0 <= i < fields.len() && is_backtrace_field(fields[i]) {
            2
        } else {
            1
        },
    }
}

/// The checks across a field list, after the per-field ones.
pub open spec fn field_roles_check(fields: Seq<Field>) -> Result<(), Error> {
    let from = first(fields, |f: Field| has_from(f));
    let source = first(fields, |f: Field| has_source_attr(f));
    if from is Some && source is Some && !same_member(
        fields[from->0].member,
        fields[source->0].member,
    ) {
        Err(err(fields[from->0].attrs.from->0, ErrorKind::FromNotOnSource))
    } else if from is Some && fields.len() > max_expected_fields(fields, from->0) {
        Err(err(fields[from->0].attrs.from->0, ErrorKind::FromWithExtraFields))
    } else {
        match crate::prop::source_of(fields) {
            Some(c) => if type_has_non_static_lifetime(fields[c].ty) {
                Err(err(fields[c].ty_loc, ErrorKind::NonStaticLifetimeSource))
            } else {
                Ok(())
            },
            None => Ok(()),
        }
    }
}

/// The checks on a field list: the first violating field, if any, else the
/// checks across the list.
pub open spec fn field_attrs_check(fields: Seq<Field>) -> Result<(), Error> {
    match first_violation(fields, 0) {
        Some(e) => Err(e),
        None => field_roles_check(fields),
    }
}

/// A template or rendering function does not belong on a field.
pub open spec fn field_check(f: Field) -> Result<(), Error> {
    match (f.attrs.display, f.attrs.fmt) {
        (Some(d), _) => Err(err(d.loc, ErrorKind::DisplayOnField)),
        (None, Some(m)) => Err(err(m.loc, ErrorKind::DisplayOnField)),
        (None, None) => Ok(()),
    }
}

pub open spec fn fields_check(fields: Seq<Field>, i: int) -> Result<(), Error>
    decreases fields.len() - i,
{
    if i < 0 || i >= fields.len() {
        Ok(())
    } else {
        match field_check(fields[i]) {
            Err(e) => Err(e),
            Ok(()) => fields_check(fields, i + 1),
        }
    }
}

/// Both field-list checks, in order.
pub open spec fn field_list_check(fields: Seq<Field>) -> Result<(), Error> {
    match field_attrs_check(fields) {
        Err(e) => Err(e),
        Ok(()) => fields_check(fields, 0),
    }
}

/// The location of the first `#[source]` marker among the fields.
pub open spec fn first_source_loc(fields: Seq<Field>) -> Option<usize> {
    match first(fields, |f: Field| has_source_attr(f)) {
        Some(i) => fields[i].attrs.source,
        None => None,
    }
}

pub open spec fn struct_check(s: Struct) -> Result<(), Error> {
    match non_field_attrs_check(s.attrs) {
        Err(e) => Err(e),
        Ok(()) => {
            if s.attrs.transparent is Some && s.fields@.len() != 1 {
                Err(err(s.attrs.transparent->0, ErrorKind::TransparentNeedsOneField))
            } else if s.attrs.transparent is Some && first_source_loc(s.fields@) is Some {
                Err(err(first_source_loc(s.fields@)->0, ErrorKind::TransparentStructWithSource))
            } else if s.attrs.fmt is Some {
                Err(err(s.attrs.fmt->0.loc, ErrorKind::FmtOnStruct))
            } else {
                field_list_check(s.fields@)
            }
        },
    }
}

pub open spec fn variant_check(v: Variant) -> Result<(), Error> {
    match non_field_attrs_check(v.attrs) {
        Err(e) => Err(e),
        Ok(()) => {
            if v.attrs.transparent is Some && v.fields@.len() != 1 {
                Err(err(v.loc, ErrorKind::TransparentNeedsOneField))
            } else if v.attrs.transparent is Some && first_source_loc(v.fields@) is Some {
                Err(err(first_source_loc(v.fields@)->0, ErrorKind::TransparentVariantWithSource))
            } else {
                field_list_check(v.fields@)
            }
        },
    }
}

/// A variant has its own rendering: a template, a delegation or a function.
pub open spec fn variant_renders(v: Variant) -> bool {
    v.attrs.display is Some || v.attrs.transparent is Some || v.attrs.fmt is Some
}

pub open spec fn variants_check(vs: Seq<Variant>, i: int, has_display: bool) -> Result<(), Error>
    decreases vs.len() - i,
{
    if i < 0 || i >= vs.len() {
        Ok(())
    } else {
        match variant_check(vs[i]) {
            Err(e) => Err(e),
            Ok(()) => if has_display && !variant_renders(vs[i]) {
                Err(err(vs[i].loc, ErrorKind::MissingDisplay))
            } else {
                variants_check(vs, i + 1, has_display)
            },
        }
    }
}

pub open spec fn enum_check(e: Enum) -> Result<(), Error> {
    match non_field_attrs_check(e.attrs) {
        Err(x) => Err(x),
        Ok(()) => variants_check(e.variants@, 0, enum_has_display(e)),
    }
}

pub open spec fn input_check(input: Input) -> Result<(), Error> {
    match input {
        Input::Struct(s) => struct_check(s),
        Input::Enum(e) => enum_check(e),
    }
}

} // verus!

verus! {

pub fn check_non_field_attrs(attrs: &Attrs) -> (r: Result<(), Error>)
    ensures
        r == non_field_attrs_check(*attrs),
{
    if let Some(l) = attrs.from {
        return Err(Error { loc: l, kind: ErrorKind::FromNotOnField });
    }
    if let Some(l) = attrs.source {
        return Err(Error { loc: l, kind: ErrorKind::SourceNotOnField });
    }
    if let Some(l) = attrs.backtrace {
        return Err(Error { loc: l, kind: ErrorKind::BacktraceNotOnField });
    }
    if attrs.transparent.is_some() {
        if let Some(d) = &attrs.display {
            return Err(Error { loc: d.loc, kind: ErrorKind::TransparentWithDisplay });
        }
        if let Some(f) = &attrs.fmt {
            return Err(Error { loc: f.loc, kind: ErrorKind::TransparentWithFmt });
        }
    } else if let (Some(d), Some(_)) = (&attrs.display, &attrs.fmt) {
        return Err(Error { loc: d.loc, kind: ErrorKind::FmtWithDisplay });
    }
    Ok(())
}

pub fn check_field_attrs(fields: &Vec<Field>) -> (r: Result<(), Error>)
    ensures
        r == field_attrs_check(fields@),
{
    let mut from_field: Option<usize> = None;
    let mut source_field: Option<usize> = None;
    let mut backtrace_field: Option<usize> = None;
    let mut has_backtrace = false;
    let mut i: usize = 0;
    proof {
        lemma_first_from(fields@, |f: Field| has_from(f), 0);
        lemma_first_from(fields@, |f: Field| has_source_attr(f), 0);
        lemma_first_from(fields@, |f: Field| has_backtrace_marker(f), 0);
    }
    while i < fields.len()
        invariant
            i <= fields@.len(),
            first_violation(fields@, 0) == first_violation(fields@, i as int),
            from_field == first_from_prefix(fields@, |f: Field| has_from(f), i as int),
            source_field == first_from_prefix(fields@, |f: Field| has_source_attr(f), i as int),
            backtrace_field == first_from_prefix(
                fields@,
                |f: Field| has_backtrace_marker(f),
                i as int,
            ),
            has_backtrace == (backtrace_field is Some || exists|j: int|
                0 <= j < i && is_backtrace_field(fields@[j])),
        decreases fields.len() - i,
    {
        let f = &fields[i];
        proof {
            lemma_prefix_step(fields@, |f: Field| has_from(f), i as int);
            lemma_prefix_step(fields@, |f: Field| has_source_attr(f), i as int);
            lemma_prefix_step(fields@, |f: Field| has_backtrace_marker(f), i as int);
        }
        if let Some(l) = f.attrs.from {
            if from_field.is_some() {
                return Err(Error { loc: l, kind: ErrorKind::DuplicateFrom });
            }
            from_field = Some(i);
        }
        if let Some(l) = f.attrs.source {
            if source_field.is_some() {
                return Err(Error { loc: l, kind: ErrorKind::DuplicateSource });
            }
            source_field = Some(i);
        }
        if let Some(l) = f.attrs.backtrace {
            if backtrace_field.is_some() {
                return Err(Error { loc: l, kind: ErrorKind::DuplicateBacktrace });
            }
            backtrace_field = Some(i);
            has_backtrace = true;
        }
        if let Some(l) = f.attrs.transparent {
            return Err(Error { loc: l, kind: ErrorKind::TransparentOnField });
        }
        has_backtrace = has_backtrace || f.is_backtrace();
        i = i + 1;
    }
    let n = fields.len();
    proof {
        lemma_prefix_full(fields@, |f: Field| has_from(f));
        lemma_prefix_full(fields@, |f: Field| has_source_attr(f));
        lemma_prefix_full(fields@, |f: Field| has_backtrace_marker(f));
    }
    if let (Some(f), Some(s)) = (from_field, source_field) {
        if !same_member_exec(&fields[f].member, &fields[s].member) {
            return Err(Error { loc: fields[f].attrs.from.unwrap(), kind: ErrorKind::FromNotOnSource });
        }
    }
    if let Some(f) = from_field {
        let max_expected_fields: usize = match backtrace_field {
            Some(b) => if same_member_exec(&fields[f].member, &fields[b].member) {
                1
            } else {
                2
            },
            None => if has_backtrace {
                2
            } else {
                1
            },
        };
        if fields.len() > max_expected_fields {
            return Err(
                Error { loc: fields[f].attrs.from.unwrap(), kind: ErrorKind::FromWithExtraFields },
            );
        }
    }
    if let Some(c) = crate::prop::source_field(fields) {
        if contains_non_static_lifetime(&fields[c].ty) {
            return Err(Error { loc: fields[c].ty_loc, kind: ErrorKind::NonStaticLifetimeSource });
        }
    }
    Ok(())
}

/// The first field among the first `n` of which `p` holds.
pub open spec fn first_from_prefix(fields: Seq<Field>, p: spec_fn(Field) -> bool, n: int) -> Option<
    usize,
> {
    match first(fields, p) {
        Some(k) => if k < n {
            Some(k as usize)
        } else {
            None
        },
        None => None,
    }
}

proof fn lemma_prefix_step(fields: Seq<Field>, p: spec_fn(Field) -> bool, i: int)
    requires
        0 <= i < fields.len(),
    ensures
        first_from_prefix(fields, p, i) is Some <==> exists|j: int| 0 <= j < i && p(fields[j]),
        first_from_prefix(fields, p, i + 1) == if first_from_prefix(fields, p, i) is Some {
            first_from_prefix(fields, p, i)
        } else if p(fields[i]) {
            Some(i as usize)
        } else {
            None
        },
        first_from_prefix(fields, p, i) matches Some(k) ==> k < i,
{
    lemma_first_from(fields, p, 0);
}

proof fn lemma_prefix_full(fields: Seq<Field>, p: spec_fn(Field) -> bool)
    requires
        fields.len() <= usize::MAX,
    ensures
        first_from_prefix(fields, p, fields.len() as int) matches Some(k) ==> first(fields, p)
            == Some(k as int) && k < fields.len(),
        first_from_prefix(fields, p, fields.len() as int) is None ==> first(fields, p) is None,
{
    lemma_first_from(fields, p, 0);
}

} // verus!

verus! {

impl Field {
    pub fn validate(&self) -> (r: Result<(), Error>)
        ensures
            r == field_check(*self),
    {
        if let Some(d) = &self.attrs.display {
            return Err(Error { loc: d.loc, kind: ErrorKind::DisplayOnField });
        }
        if let Some(m) = &self.attrs.fmt {
            return Err(Error { loc: m.loc, kind: ErrorKind::DisplayOnField });
        }
        Ok(())
    }
}

fn check_fields(fields: &Vec<Field>) -> (r: Result<(), Error>)
    ensures
        r == field_list_check(fields@),
{
    check_field_attrs(fields)?;
    let mut i: usize = 0;
    while i < fields.len()
        invariant
            i <= fields@.len(),
            field_attrs_check(fields@) == Ok::<(), Error>(()),
            fields_check(fields@, 0) == fields_check(fields@, i as int),
        decreases fields.len() - i,
    {
        fields[i].validate()?;
        i = i + 1;
    }
    Ok(())
}

fn first_source_attr(fields: &Vec<Field>) -> (r: Option<usize>)
    ensures
        r == first_source_loc(fields@),
{
    proof {
        lemma_first_from(fields@, |f: Field| has_source_attr(f), 0);
    }
    let mut i: usize = 0;
    while i < fields.len()
        invariant
            i <= fields@.len(),
            first(fields@, |f: Field| has_source_attr(f)) == crate::prop::first_from(
                fields@,
                |f: Field| has_source_attr(f),
                i as int,
            ),
        decreases fields.len() - i,
    {
        if fields[i].attrs.source.is_some() {
            return fields[i].attrs.source;
        }
        i = i + 1;
    }
    None
}

impl Struct {
    pub fn validate(&self) -> (r: Result<(), Error>)
        ensures
            r == struct_check(*self),
    {
        check_non_field_attrs(&self.attrs)?;
        if let Some(t) = self.attrs.transparent {
            if self.fields.len() != 1 {
                return Err(Error { loc: t, kind: ErrorKind::TransparentNeedsOneField });
            }
            if let Some(l) = first_source_attr(&self.fields) {
                return Err(Error { loc: l, kind: ErrorKind::TransparentStructWithSource });
            }
        }
        if let Some(f) = &self.attrs.fmt {
            return Err(Error { loc: f.loc, kind: ErrorKind::FmtOnStruct });
        }
        check_fields(&self.fields)
    }
}

impl Variant {
    pub fn validate(&self) -> (r: Result<(), Error>)
        ensures
            r == variant_check(*self),
    {
        check_non_field_attrs(&self.attrs)?;
        if self.attrs.transparent.is_some() {
            if self.fields.len() != 1 {
                return Err(Error { loc: self.loc, kind: ErrorKind::TransparentNeedsOneField });
            }
            if let Some(l) = first_source_attr(&self.fields) {
                return Err(Error { loc: l, kind: ErrorKind::TransparentVariantWithSource });
            }
        }
        check_fields(&self.fields)
    }
}

impl Enum {
    pub fn validate(&self) -> (r: Result<(), Error>)
        ensures
            r == enum_check(*self),
    {
        check_non_field_attrs(&self.attrs)?;
        let has_display = self.has_display();
        let mut i: usize = 0;
        while i < self.variants.len()
            invariant
                i <= self.variants@.len(),
                has_display == enum_has_display(*self),
                non_field_attrs_check(self.attrs) == Ok::<(), Error>(()),
                variants_check(self.variants@, 0, has_display) == variants_check(
                    self.variants@,
                    i as int,
                    has_display,
                ),
            decreases self.variants.len() - i,
        {
            let variant = &self.variants[i];
            variant.validate()?;
            if has_display && variant.attrs.display.is_none() && variant.attrs.transparent.is_none()
                && variant.attrs.fmt.is_none() {
                return Err(Error { loc: variant.loc, kind: ErrorKind::MissingDisplay });
            }
            i = i + 1;
        }
        Ok(())
    }
}

impl Input {
    /// The first violation of the annotation rules, if any (see
    /// `input_check`).
    pub fn validate(&self) -> (r: Result<(), Error>)
        ensures
            r == input_check(*self),
    {
        match self {
            Input::Struct(s) => s.validate(),
            Input::Enum(e) => e.validate(),
        }
    }
}

/// A struct marked to delegate through its single field is rejected when it
/// does not have exactly one field, whatever else it is marked with.
pub proof fn lemma_transparent_struct_needs_one_field(s: Struct)
    requires
        s.attrs.transparent is Some,
        s.fields@.len() != 1,
    ensures
        struct_check(s) is Err,
{
}

/// A variant marked to delegate through its single field is rejected when it
/// does not have exactly one field, and with it the whole enum, whatever else
/// is marked.
pub proof fn lemma_transparent_variant_needs_one_field(e: Enum, i: int)
    requires
        0 <= i < e.variants@.len(),
        e.variants@[i].attrs.transparent is Some,
        e.variants@[i].fields@.len() != 1,
    ensures
        variant_check(e.variants@[i]) is Err,
        enum_check(e) is Err,
{
    lemma_variants_reject(e.variants@, 0, i, enum_has_display(e));
}

proof fn lemma_variants_reject(vs: Seq<Variant>, k: int, i: int, has_display: bool)
    requires
        0 <= k <= i < vs.len(),
        variant_check(vs[i]) is Err,
    ensures
        variants_check(vs, k, has_display) is Err,
    decreases i - k,
{
    if k < i {
        lemma_variants_reject(vs, k + 1, i, has_display);
    }
}

} // verus!
