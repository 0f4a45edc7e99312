use vstd::prelude::*;
use crate::ast::ContainerKind;

verus! {

/// A diagnostic: what went wrong, and where. A location is an index into the
/// caller's own table of source spans.
#[derive(Clone, Copy, Debug, PartialEq, Eq, Structural)]
pub struct Error {
    pub loc: usize,
    pub kind: ErrorKind,
}

#[derive(Clone, Copy, Debug, PartialEq, Eq, Structural)]
pub enum ErrorKind {
    UnionNotSupported,
    DuplicateSource,
    DuplicateBacktrace,
    DuplicateFrom,
    DuplicateTransparent,
    DuplicateFmt,
    DuplicateDisplay,
    /// The arguments of an attribute do not have the expected form.
    Malformed,
    AmbiguousPositional(ContainerKind),
    TransparentNeedsOneField,
    TransparentStructWithSource,
    TransparentVariantWithSource,
    FmtOnStruct,
    MissingDisplay,
    DisplayOnField,
    FromNotOnField,
    SourceNotOnField,
    BacktraceNotOnField,
    TransparentWithDisplay,
    TransparentWithFmt,
    FmtWithDisplay,
    TransparentOnField,
    FromNotOnSource,
    FromWithExtraFields,
    NonStaticLifetimeSource,
}

pub open spec fn err(loc: usize, kind: ErrorKind) -> Error {
    Error { loc, kind }
}

} // verus!
