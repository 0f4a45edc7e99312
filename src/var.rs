use vstd::prelude::*;

verus! {

/// A field reference rendered with pointer formatting.
pub struct Var<'a, T: ?Sized>(pub &'a T);

impl<'a, T: ?Sized> Var<'a, T> {
    pub fn get(&self) -> (r: &'a T)
        ensures
            r == self.0,
    {
        self.0
    }
}

} // verus!
