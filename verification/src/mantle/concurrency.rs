use vstd::prelude::*;

verus! {

/// A value that is only ever used from the one thread of the root task.
pub struct SingleThreaded<T>(pub T);

impl<T> SingleThreaded<T> {
    pub fn take(self) -> (r: T)
        ensures
            r == self.0,
    {
        self.0
    }

    pub fn get_mut(&mut self) -> (r: &mut T)
        ensures
            *r == old(self).0,
            final(self).0 == *final(r),
    {
        &mut self.0
    }

    pub fn get(&self) -> (r: &T)
        ensures
            *r == self.0,
    {
        &self.0
    }
}

} // verus!
