use vstd::prelude::*;

verus! {

/// A swap was requested while the strategy cannot let the writer swap.
#[derive(Clone, Copy, Debug, PartialEq, Eq, Structural)]
pub struct CaptureError;

/// How readers announce that they are reading, and how the writer learns that
/// the buffer it just retired from the front is no longer being read.
///
/// The contract is stated over the guards that are open: `tracks(open)` says
/// that the strategy's state accounts for exactly those guards, and
/// `waits_on(c, g)` that the capture `c` still holds the writer back on
/// account of the open guard `g`. A capture taken right after a flip waits on
/// every guard open at that moment, keeps waiting on each until it is closed,
/// and reports completion as soon as it waits on none.
pub trait Strategy: Sized {
    /// Per-reader state, issued when a reader is created.
    type ReaderTag;
    /// The writer's state, issued once.
    type WriterTag;
    /// The writer's record of the readers that may still see the old front.
    type Capture;
    /// The token that a reader holds while it is reading.
    type RawGuard;

    spec fn tracks(&self, open: Seq<Self::RawGuard>) -> bool;

    spec fn waits_on(&self, capture: Self::Capture, guard: Self::RawGuard) -> bool;

    /// Whether `tag` names a reader registered here and not retired.
    spec fn valid_tag(&self, tag: Self::ReaderTag) -> bool;

    /// Whether `guard` was opened by the reader with `tag`.
    spec fn owns(tag: Self::ReaderTag, guard: Self::RawGuard) -> bool;

    /// How many guards can be open at once.
    spec fn capacity() -> nat;

    /// Whether the reader with `tag` may open a guard now.
    spec fn admits(&self, tag: Self::ReaderTag) -> bool;

    /// Whether the writer may start a swap now.
    spec fn allows_swap(&self) -> bool;

    proof fn lemma_capacity()
        ensures
            Self::capacity() > 0,
    ;

    /// A registered reader that holds no open guard may open one while
    /// there is room.
    proof fn lemma_admits(&self, open: Seq<Self::RawGuard>, tag: Self::ReaderTag)
        requires
            self.tracks(open),
            self.valid_tag(tag),
            forall|i: int| 0 <= i < open.len() ==> !Self::owns(tag, #[trigger] open[i]),
            open.len() < Self::capacity(),
        ensures
            self.admits(tag),
    ;

    /// A reader holds at most one of the open guards.
    proof fn lemma_one_guard_per_reader(
        &self,
        open: Seq<Self::RawGuard>,
        tag: Self::ReaderTag,
        i: int,
        j: int,
    )
        requires
            self.tracks(open),
            0 <= i < open.len(),
            0 <= j < open.len(),
            Self::owns(tag, open[i]),
            Self::owns(tag, open[j]),
        ensures
            i == j,
    ;

    /// A strategy with no reader and no open guard.
    fn fresh() -> (r: Self)
        ensures
            r.tracks(Seq::empty()),
    ;

    /// Registers a new reader.
    fn reader_tag(&mut self) -> (r: Self::ReaderTag)
        ensures
            final(self).valid_tag(r),
            forall|t: Self::ReaderTag| #[trigger]
                old(self).valid_tag(t) ==> final(self).valid_tag(t),
            forall|open: Seq<Self::RawGuard>| #[trigger]
                old(self).tracks(open) ==> {
                    &&& final(self).tracks(open)
                    &&& forall|i: int| 0 <= i < open.len() ==> !Self::owns(r, #[trigger] open[i])
                    &&& forall|c: Self::Capture, j: int|
                        0 <= j < open.len() && old(self).waits_on(c, open[j])
                            ==> #[trigger] final(self).waits_on(c, open[j])
                },
    ;

    /// Retires a reader whose handle is gone.
    fn retire_reader(&mut self, tag: Self::ReaderTag)
        ensures
            forall|t: Self::ReaderTag| #[trigger]
                old(self).valid_tag(t) && t != tag ==> final(self).valid_tag(t),
            forall|open: Seq<Self::RawGuard>| #[trigger]
                old(self).tracks(open) ==> {
                    &&& final(self).tracks(open)
                    &&& forall|c: Self::Capture, j: int|
                        0 <= j < open.len() && old(self).waits_on(c, open[j])
                            ==> #[trigger] final(self).waits_on(c, open[j])
                },
    ;

    /// Issues the writer's tag.
    fn writer_tag(&mut self) -> (r: Self::WriterTag)
        ensures
            forall|t: Self::ReaderTag| #[trigger]
                old(self).valid_tag(t) ==> final(self).valid_tag(t),
            forall|open: Seq<Self::RawGuard>| #[trigger]
                old(self).tracks(open) ==> final(self).tracks(open),
    ;

    /// Records the readers that may still be reading the buffer that was the
    /// front until the flip that just happened, or refuses the swap, changing
    /// nothing. A swap is never refused while no guard is open.
    fn try_capture_readers(&mut self, tag: &mut Self::WriterTag) -> (r: Result<
        Self::Capture,
        CaptureError,
    >)
        ensures
            r is Ok <==> old(self).allows_swap(),
            old(self).tracks(Seq::empty()) ==> r is Ok,
            r is Err ==> *final(self) == *old(self) && *final(tag) == *old(tag),
            forall|t: Self::ReaderTag| #[trigger]
                old(self).valid_tag(t) ==> final(self).valid_tag(t),
            forall|open: Seq<Self::RawGuard>| #[trigger]
                old(self).tracks(open) ==> {
                    &&& final(self).tracks(open)
                    &&& r matches Ok(c) ==> forall|i: int|
                        0 <= i < open.len() ==> #[trigger] final(self).waits_on(c, open[i])
                },
    ;

    /// Whether every captured reader has left the old front. May forget
    /// readers that have left; keeps waiting on those that have not; is
    /// complete as soon as it waits on no guard.
    fn is_capture_complete(&self, capture: &mut Self::Capture) -> (r: bool)
        ensures
            forall|open: Seq<Self::RawGuard>, i: int|
                #![trigger self.tracks(open), open[i]]
                self.tracks(open) && 0 <= i < open.len() && self.waits_on(*old(capture), open[i])
                    ==> self.waits_on(*final(capture), open[i]),
            r ==> forall|g: Self::RawGuard| !#[trigger] self.waits_on(*final(capture), g),
            (forall|g: Self::RawGuard| !#[trigger] self.waits_on(*old(capture), g)) ==> r,
            self.tracks(Seq::empty()) ==> r,
    ;

    /// A reader enters a read region.
    fn begin_guard(&mut self, tag: &mut Self::ReaderTag) -> (g: Self::RawGuard)
        requires
            old(self).admits(*old(tag)),
        ensures
            *final(tag) == *old(tag),
            forall|t: Self::ReaderTag| #[trigger] Self::owns(t, g) ==> t == *old(tag),
            forall|t: Self::ReaderTag| #[trigger]
                old(self).valid_tag(t) ==> final(self).valid_tag(t),
            forall|open: Seq<Self::RawGuard>| #[trigger]
                old(self).tracks(open) ==> {
                    &&& final(self).tracks(open.push(g))
                    &&& forall|c: Self::Capture, j: int|
                        0 <= j < open.len() && old(self).waits_on(c, open[j])
                            ==> #[trigger] final(self).waits_on(c, open[j])
                },
    ;

    /// A reader leaves its read region.
    fn end_guard(&mut self, guard: Self::RawGuard)
        ensures
            forall|t: Self::ReaderTag| #[trigger]
                old(self).valid_tag(t) ==> final(self).valid_tag(t),
            forall|open: Seq<Self::RawGuard>, i: int|
                #![trigger old(self).tracks(open), open[i]]
                old(self).tracks(open) && 0 <= i < open.len() && open[i] == guard ==> {
                    &&& final(self).tracks(open.remove(i))
                    &&& forall|c: Self::Capture, j: int|
                        0 <= j < open.remove(i).len() && old(self).waits_on(c, open.remove(i)[j])
                            ==> #[trigger] final(self).waits_on(c, open.remove(i)[j])
                },
    ;
}

} // verus!
