use vstd::prelude::*;

verus! {

/// Closes the set of types that may be rendered through the display
/// coercion of a bare field reference.
pub trait Sealed {}

/// A second, never constructed type for the display coercion, so that the
/// coercion never has a single applicable implementation to be inferred from.
pub struct Placeholder;

impl Sealed for Placeholder {}

} // verus!
