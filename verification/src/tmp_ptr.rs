use vstd::prelude::*;

verus! {

/// A pointer to a value that is shared for a while, such as with a closure that takes a
/// reference of any lifetime
pub struct TmpPtr<'a, T: ?Sized>(&'a T);

impl<'a, T: ?Sized> TmpPtr<'a, T> {
    /// The value pointed to
    pub closed spec fn target(&self) -> &'a T {
        self.0
    }

    /// Points to the value
    pub fn new(value: &'a T) -> (r: Self)
        ensures
            r.target() == value,
    {
        TmpPtr(value)
    }

    /// The value pointed to
    pub fn get(&self) -> (r: &'a T)
        ensures
            r == self.target(),
    {
        self.0
    }
}

impl<'a, T: ?Sized> Clone for TmpPtr<'a, T> {
    fn clone(&self) -> (r: Self)
        ensures
            r.target() == self.target(),
    {
        TmpPtr(self.0)
    }
}

impl<'a, T: ?Sized> Copy for TmpPtr<'a, T> {
}

} // verus!
