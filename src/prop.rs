use vstd::prelude::*;
use crate::ast::{same_member, Enum, Field, MemberUnraw, Variant};
use crate::ty::{is_backtrace_type, type_is_backtrace};

verus! {

/// The first field, from `i` on, of which `p` holds.
pub open spec fn first_from(fields: Seq<Field>, p: spec_fn(Field) -> bool, i: int) -> Option<int>
    decreases fields.len() - i,
{
    if i < 0 || i >= fields.len() {
        None
    } else if p(fields[i]) {
        Some(i)
    } else {
        first_from(fields, p, i + 1)
    }
}

pub open spec fn first(fields: Seq<Field>, p: spec_fn(Field) -> bool) -> Option<int> {
    first_from(fields, p, 0)
}

pub open spec fn has_from(f: Field) -> bool {
    f.attrs.from is Some
}

pub open spec fn has_source_marker(f: Field) -> bool {
    f.attrs.from is Some || f.attrs.source is Some
}

/// A field whose name is written `source` (not `r#source`).
pub open spec fn named_source(f: Field) -> bool {
    f.member matches MemberUnraw::Named(s) && s@ == "source"@
}

pub open spec fn has_backtrace_marker(f: Field) -> bool {
    f.attrs.backtrace is Some
}

pub open spec fn is_backtrace_field(f: Field) -> bool {
    is_backtrace_type(f.ty)
}

/// The auto-conversion field: the first marked `#[from]`.
pub open spec fn from_of(fields: Seq<Field>) -> Option<int> {
    first(fields, |f: Field| has_from(f))
}

/// The cause field: the first marked `#[from]` or `#[source]`, or else the
/// first named `source`.
pub open spec fn source_of(fields: Seq<Field>) -> Option<int> {
    match first(fields, |f: Field| has_source_marker(f)) {
        Some(i) => Some(i),
        None => first(fields, |f: Field| named_source(f)),
    }
}

/// The diagnostic-context field: the first marked `#[backtrace]`, or else the
/// first whose type is a backtrace.
pub open spec fn backtrace_of(fields: Seq<Field>) -> Option<int> {
    match first(fields, |f: Field| has_backtrace_marker(f)) {
        Some(i) => Some(i),
        None => first(fields, |f: Field| is_backtrace_field(f)),
    }
}

/// The diagnostic-context field, unless it is the auto-conversion field.
pub open spec fn distinct_backtrace_of(fields: Seq<Field>) -> Option<int> {
    match backtrace_of(fields) {
        Some(b) => match from_of(fields) {
            Some(f) => if same_member(fields[f].member, fields[b].member) {
                None
            } else {
                Some(b)
            },
            None => Some(b),
        },
        None => None,
    }
}

pub proof fn lemma_first_from(fields: Seq<Field>, p: spec_fn(Field) -> bool, i: int)
    requires
        0 <= i,
    ensures
        first_from(fields, p, i) matches Some(k) ==> i <= k < fields.len() && p(fields[k])
            && forall|j: int| i <= j < k ==> !p(fields[j]),
        first_from(fields, p, i) is None ==> forall|j: int| i <= j < fields.len() ==> !p(fields[j]),
    decreases fields.len() - i,
{
    if i < fields.len() {
        lemma_first_from(fields, p, i + 1);
    }
}

fn is_named_source(m: &MemberUnraw) -> (r: bool)
    ensures
        r == (m matches MemberUnraw::Named(s) && s@ == "source"@),
{
    match m {
        MemberUnraw::Named(s) => crate::text::eq_str(s.as_str(), "source"),
        MemberUnraw::Unnamed(_) => false,
    }
}

pub fn from_field(fields: &Vec<Field>) -> (r: Option<usize>)
    ensures
        r matches Some(i) ==> from_of(fields@) == Some(i as int) && i < fields@.len(),
        r is None ==> from_of(fields@) is None,
{
    let mut i: usize = 0;
    while i < fields.len()
        invariant
            i <= fields@.len(),
            from_of(fields@) == first_from(fields@, |f: Field| has_from(f), i as int),
        decreases fields.len() - i,
    {
        if fields[i].attrs.from.is_some() {
            return Some(i);
        }
        i = i + 1;
    }
    None
}

pub fn source_field(fields: &Vec<Field>) -> (r: Option<usize>)
    ensures
        r matches Some(i) ==> source_of(fields@) == Some(i as int) && i < fields@.len(),
        r is None ==> source_of(fields@) is None,
{
    let mut i: usize = 0;
    while i < fields.len()
        invariant
            i <= fields@.len(),
            first(fields@, |f: Field| has_source_marker(f)) == first_from(fields@, |f: Field| has_source_marker(f), i as int),
        decreases fields.len() - i,
    {
        if fields[i].attrs.from.is_some() || fields[i].attrs.source.is_some() {
            return Some(i);
        }
        i = i + 1;
    }
    let mut i: usize = 0;
    while i < fields.len()
        invariant
            i <= fields@.len(),
            first(fields@, |f: Field| has_source_marker(f)) is None,
            first(fields@, |f: Field| named_source(f)) == first_from(fields@, |f: Field| named_source(f), i as int),
        decreases fields.len() - i,
    {
        if is_named_source(&fields[i].member) {
            return Some(i);
        }
        i = i + 1;
    }
    None
}

pub fn backtrace_field(fields: &Vec<Field>) -> (r: Option<usize>)
    ensures
        r matches Some(i) ==> backtrace_of(fields@) == Some(i as int) && i < fields@.len(),
        r is None ==> backtrace_of(fields@) is None,
{
    let mut i: usize = 0;
    while i < fields.len()
        invariant
            i <= fields@.len(),
            first(fields@, |f: Field| has_backtrace_marker(f)) == first_from(fields@, |f: Field| has_backtrace_marker(f), i as int),
        decreases fields.len() - i,
    {
        if fields[i].attrs.backtrace.is_some() {
            return Some(i);
        }
        i = i + 1;
    }
    let mut i: usize = 0;
    while i < fields.len()
        invariant
            i <= fields@.len(),
            first(fields@, |f: Field| has_backtrace_marker(f)) is None,
            first(fields@, |f: Field| is_backtrace_field(f)) == first_from(fields@, |f: Field| is_backtrace_field(f), i as int),
        decreases fields.len() - i,
    {
        if type_is_backtrace(&fields[i].ty) {
            return Some(i);
        }
        i = i + 1;
    }
    None
}

pub fn same_member_exec(a: &MemberUnraw, b: &MemberUnraw) -> (r: bool)
    ensures
        r == same_member(*a, *b),
{
    match (a, b) {
        (MemberUnraw::Named(x), MemberUnraw::Named(y)) => crate::unraw::same_ident(x, y),
        (MemberUnraw::Unnamed(i), MemberUnraw::Unnamed(j)) => *i == *j,
        _ => false,
    }
}

pub fn distinct_backtrace_field(fields: &Vec<Field>) -> (r: Option<usize>)
    ensures
        r matches Some(i) ==> distinct_backtrace_of(fields@) == Some(i as int) && i < fields@.len(),
        r is None ==> distinct_backtrace_of(fields@) is None,
{
    let b = backtrace_field(fields)?;
    match from_field(fields) {
        Some(f) => if same_member_exec(&fields[f].member, &fields[b].member) {
            None
        } else {
            Some(b)
        },
        None => Some(b),
    }
}

impl Field {
    pub fn is_backtrace(&self) -> (r: bool)
        ensures
            r == is_backtrace_field(*self),
    {
        type_is_backtrace(&self.ty)
    }

    /// Where a diagnostic about the field as a cause points: its `#[source]`
    /// marker, else its `#[from]` marker, else the field.
    pub fn source_span(&self) -> (r: usize)
        ensures
            r == match self.attrs.source {
                Some(l) => l,
                None => match self.attrs.from {
                    Some(l) => l,
                    None => self.loc,
                },
            },
    {
        if let Some(l) = self.attrs.source {
            l
        } else if let Some(l) = self.attrs.from {
            l
        } else {
            self.loc
        }
    }
}

} // verus!

verus! {

pub open spec fn variant_has_source(v: Variant) -> bool {
    source_of(v.fields@) is Some || v.attrs.transparent is Some
}

pub open spec fn enum_has_display(e: Enum) -> bool {
    e.attrs.display is Some || e.attrs.transparent is Some || e.attrs.fmt is Some || (exists|i: int|
        0 <= i < e.variants@.len() && (e.variants@[i].attrs.display is Some
            || e.variants@[i].attrs.fmt is Some)) || (forall|i: int|
        0 <= i < e.variants@.len() ==> e.variants@[i].attrs.transparent is Some)
}

impl Enum {
    /// Whether some variant has a cause.
    pub fn has_source(&self) -> (r: bool)
        ensures
            r == exists|i: int| 0 <= i < self.variants@.len() && variant_has_source(self.variants@[i]),
    {
        let mut i: usize = 0;
        while i < self.variants.len()
            invariant
                i <= self.variants@.len(),
                forall|j: int| 0 <= j < i ==> !variant_has_source(self.variants@[j]),
            decreases self.variants.len() - i,
        {
            if source_field(&self.variants[i].fields).is_some() || self.variants[i].attrs.transparent.is_some() {
                return true;
            }
            i = i + 1;
        }
        false
    }

    /// Whether some variant has a diagnostic-context field.
    pub fn has_backtrace(&self) -> (r: bool)
        ensures
            r == exists|i: int| 0 <= i < self.variants@.len() && backtrace_of(self.variants@[i].fields@) is Some,
    {
        let mut i: usize = 0;
        while i < self.variants.len()
            invariant
                i <= self.variants@.len(),
                forall|j: int| 0 <= j < i ==> backtrace_of(self.variants@[j].fields@) is None,
            decreases self.variants.len() - i,
        {
            if backtrace_field(&self.variants[i].fields).is_some() {
                return true;
            }
            i = i + 1;
        }
        false
    }

    /// Whether a rendering is to be generated: some template, delegation or
    /// rendering function is given for the type or a variant, or every
    /// variant delegates.
    pub fn has_display(&self) -> (r: bool)
        ensures
            r == enum_has_display(*self),
    {
        if self.attrs.display.is_some() || self.attrs.transparent.is_some() || self.attrs.fmt.is_some() {
            return true;
        }
        let mut any = false;
        let mut all = true;
        let mut i: usize = 0;
        while i < self.variants.len()
            invariant
                i <= self.variants@.len(),
                any == exists|j: int| 0 <= j < i && (self.variants@[j].attrs.display is Some
                    || self.variants@[j].attrs.fmt is Some),
                all == forall|j: int| 0 <= j < i ==> self.variants@[j].attrs.transparent is Some,
            decreases self.variants.len() - i,
        {
            let v = &self.variants[i];
            if v.attrs.display.is_some() || v.attrs.fmt.is_some() {
                any = true;
            }
            if v.attrs.transparent.is_none() {
                all = false;
            }
            i = i + 1;
        }
        any || all
    }
}

} // verus!

verus! {

/// A field named `source` that carries no marker itself is the cause exactly
/// when no field carries a cause or auto-conversion marker (field names being
/// distinct).
pub proof fn lemma_implicit_source(fields: Seq<Field>, i: int)
    requires
        0 <= i < fields.len(),
        named_source(fields[i]),
        !has_source_marker(fields[i]),
        forall|j: int| 0 <= j < fields.len() && j != i ==> !named_source(fields[j]),
    ensures
        source_of(fields) == Some(i) <==> forall|j: int|
            0 <= j < fields.len() ==> !has_source_marker(fields[j]),
{
    lemma_first_from(fields, |f: Field| has_source_marker(f), 0);
    lemma_first_from(fields, |f: Field| named_source(f), 0);
}

} // verus!
