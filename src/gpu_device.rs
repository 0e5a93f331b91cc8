use vstd::prelude::*;

verus! {

/// A value created once and lent by reference to every component that needs
/// it, in place of a process-wide global.
pub struct UnsafeGuaranteeLocal<T>(pub T);

impl<T> UnsafeGuaranteeLocal<T> {
    pub fn new(t: T) -> (r: Self)
        ensures
            r.0 == t,
    {
        UnsafeGuaranteeLocal(t)
    }

    pub fn get(&self) -> (r: &T)
        ensures
            *r == self.0,
    {
        &self.0
    }

    pub fn get_mut(&mut self) -> (r: &mut T)
        ensures
            *r == old(self).0,
            final(self).0 == *final(r),
    {
        &mut self.0
    }

    pub fn into_inner(self) -> (r: T)
        ensures
            r == self.0,
    {
        self.0
    }
}

} // verus!
