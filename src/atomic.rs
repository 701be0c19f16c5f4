use vstd::prelude::*;

use crate::strategy::{CaptureError, Strategy};

verus! {

/// The largest count of open guards at which the atomic strategy still admits
/// a new one: `isize::MAX`, far below the point where the count would wrap.
pub open spec fn max_guards() -> usize {
    isize::MAX as usize
}

/// Reader tracking through a single shared count of open guards. A swap never
/// fails; it completes once the count has dropped to zero.
pub struct AtomicStrategy {
    num_readers: usize,
}

pub struct RawGuard;

pub struct Capture;

pub struct ReaderTag;

pub struct WriterTag;

impl AtomicStrategy {
    /// The number of guards currently open.
    pub closed spec fn readers(&self) -> usize {
        self.num_readers
    }

    pub fn new() -> (r: Self)
        ensures
            r.readers() == 0,
    {
        AtomicStrategy { num_readers: 0 }
    }

    pub fn num_readers(&self) -> (r: usize)
        ensures
            r == self.readers(),
    {
        self.num_readers
    }
}

impl Strategy for AtomicStrategy {
    type ReaderTag = ReaderTag;
    type WriterTag = WriterTag;
    type Capture = Capture;
    type RawGuard = RawGuard;

    open spec fn tracks(&self, open: Seq<RawGuard>) -> bool {
        open.len() == self.readers() && self.readers() <= max_guards() + 1
    }

    /// Any open guard holds the writer back.
    open spec fn waits_on(&self, capture: Capture, guard: RawGuard) -> bool {
        self.readers() > 0
    }

    open spec fn valid_tag(&self, tag: ReaderTag) -> bool {
        true
    }

    open spec fn owns(tag: ReaderTag, guard: RawGuard) -> bool {
        false
    }

    open spec fn capacity() -> nat {
        max_guards() as nat + 1
    }

    /// At most `isize::MAX` guards may already be open: a new guard is never
    /// created once the count has passed that bound, long before it could
    /// wrap around.
    open spec fn admits(&self, tag: ReaderTag) -> bool {
        self.readers() <= max_guards()
    }

    open spec fn allows_swap(&self) -> bool {
        true
    }

    proof fn lemma_capacity() {
    }

    proof fn lemma_admits(&self, open: Seq<RawGuard>, tag: ReaderTag) {
    }

    proof fn lemma_one_guard_per_reader(&self, open: Seq<RawGuard>, tag: ReaderTag, i: int, j: int) {
    }

    fn fresh() -> (r: Self) {
        AtomicStrategy::new()
    }

    fn reader_tag(&mut self) -> (r: ReaderTag) {
        ReaderTag
    }

    fn retire_reader(&mut self, tag: ReaderTag) {
    }

    fn writer_tag(&mut self) -> (r: WriterTag) {
        WriterTag
    }

    fn try_capture_readers(&mut self, tag: &mut WriterTag) -> (r: Result<Capture, CaptureError>)
        ensures
            final(self).readers() == old(self).readers(),
    {
        Ok(Capture)
    }

    fn is_capture_complete(&self, capture: &mut Capture) -> (r: bool)
        ensures
            r == (self.readers() == 0),
    {
        proof {
            if self.num_readers != 0 {
                assert(self.waits_on(*capture, RawGuard));
            }
        }
        self.num_readers == 0
    }

    fn begin_guard(&mut self, tag: &mut ReaderTag) -> (g: RawGuard)
        ensures
            final(self).readers() == old(self).readers() + 1,
    {
        self.num_readers = self.num_readers + 1;
        RawGuard
    }

    fn end_guard(&mut self, guard: RawGuard)
        ensures
            final(self).readers() == if old(self).readers() == 0 {
                0
            } else {
                old(self).readers() - 1
            },
    {
        if self.num_readers > 0 {
            self.num_readers = self.num_readers - 1;
        }
    }
}

} // verus!
