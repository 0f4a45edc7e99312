use vstd::prelude::*;
use crate::diag::Error;
use crate::expand::Fallback;

verus! {

/// The stand-in generated for a type whose annotations were rejected.
pub fn expand(ident: String, error: Error) -> (r: Fallback)
    ensures
        r.ident == ident,
        r.error == error,
{
    Fallback { ident, error }
}

} // verus!
