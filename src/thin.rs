use vstd::prelude::*;

verus! {

/// A value with the count of the handles that share it, as a thin shared
/// pointer keeps it in its one allocation.
pub struct ThinInner<T> {
    strong: usize,
    value: T,
}

impl<T> ThinInner<T> {
    /// The number of handles.
    pub closed spec fn count(&self) -> usize {
        self.strong
    }

    pub closed spec fn contents(&self) -> T {
        self.value
    }

    /// The value with its first handle.
    pub fn new(value: T) -> (r: Self)
        ensures
            r.count() == 1,
            r.contents() == value,
    {
        ThinInner { strong: 1, value }
    }

    pub fn strong_count(&self) -> (r: usize)
        ensures
            r == self.count(),
    {
        self.strong
    }

    pub fn value(&self) -> (r: &T)
        ensures
            *r == self.contents(),
    {
        &self.value
    }

    /// Counts one more handle. The count must not overflow.
    pub fn acquire(&mut self)
        requires
            old(self).count() < usize::MAX,
        ensures
            final(self).contents() == old(self).contents(),
            final(self).count() == old(self).count() + 1,
    {
        self.strong = self.strong + 1;
    }

    /// Counts one handle less; returns whether it was the last, after which
    /// the value is to be freed.
    pub fn release(&mut self) -> (last: bool)
        requires
            old(self).count() > 0,
        ensures
            final(self).contents() == old(self).contents(),
            final(self).count() == old(self).count() - 1,
            last == (old(self).count() == 1),
    {
        self.strong = self.strong - 1;
        self.strong == 0
    }
}

} // verus!
