use vstd::prelude::*;

verus! {

/// The readers a capture still waits on: pairs of a reader slot and the epoch
/// observed for it, kept in `smallvec::SmallVec` so that the common case of a
/// few readers needs no allocation.
#[verifier::external_body]
pub(crate) struct ActiveList {
    entries: smallvec::SmallVec<[(usize, u32); 8]>,
}

/// The pairs an `ActiveList` holds, in order.
pub uninterp spec fn active_entries(l: ActiveList) -> Seq<(usize, u32)>;

impl ActiveList {
    /// Relies on smallvec::SmallVec::new: an empty vector.
    #[verifier::external_body]
    pub(crate) fn new() -> (r: Self)
        ensures
            active_entries(r) == Seq::<(usize, u32)>::empty(),
    {
        ActiveList { entries: smallvec::SmallVec::new() }
    }

    /// Relies on smallvec::SmallVec::push: appends at the end; it panics only
    /// when the length would overflow `usize`.
    #[verifier::external_body]
    pub(crate) fn push(&mut self, entry: (usize, u32))
        requires
            active_entries(*old(self)).len() < usize::MAX,
        ensures
            active_entries(*final(self)) == active_entries(*old(self)).push(entry),
    {
        self.entries.push(entry)
    }

    /// Relies on smallvec::SmallVec::len: the number of elements.
    #[verifier::external_body]
    pub(crate) fn len(&self) -> (r: usize)
        ensures
            r == active_entries(*self).len(),
    {
        self.entries.len()
    }

    /// Relies on indexing a smallvec::SmallVec: the element at `i`, which
    /// panics only out of bounds.
    #[verifier::external_body]
    pub(crate) fn get(&self, i: usize) -> (r: (usize, u32))
        requires
            i < active_entries(*self).len(),
        ensures
            r == active_entries(*self)[i as int],
    {
        self.entries[i]
    }
}

} // verus!
