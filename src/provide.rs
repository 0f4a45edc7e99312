use vstd::prelude::*;

verus! {

/// Closes the set of types that the generated diagnostic-context provider
/// may forward to.
pub trait Sealed {}

} // verus!
