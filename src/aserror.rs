use vstd::prelude::*;

verus! {

/// Closes the set of types whose values the generated cause accessor may
/// view as errors.
pub trait Sealed {}

} // verus!
