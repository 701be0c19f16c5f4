use vstd::prelude::*;

use crate::strategy::{CaptureError, Strategy};

verus! {

/// Reader tracking for a double buffer confined to one thread: a plain count
/// of open guards. A swap is refused while any guard is open, so a capture
/// never has to wait.
pub struct LocalStrategy {
    num_readers: usize,
}

/// The token of an open guard.
pub struct RawGuard;

/// A capture never has readers to wait for.
pub struct Capture;

pub struct ReaderTag;

pub struct WriterTag;

impl LocalStrategy {
    /// The number of guards currently open.
    pub closed spec fn readers(&self) -> usize {
        self.num_readers
    }

    pub fn new() -> (r: Self)
        ensures
            r.readers() == 0,
    {
        LocalStrategy { num_readers: 0 }
    }

    pub fn num_readers(&self) -> (r: usize)
        ensures
            r == self.readers(),
    {
        self.num_readers
    }
}

impl Strategy for LocalStrategy {
    type ReaderTag = ReaderTag;
    type WriterTag = WriterTag;
    type Capture = Capture;
    type RawGuard = RawGuard;

    open spec fn tracks(&self, open: Seq<RawGuard>) -> bool {
        open.len() == self.readers()
    }

    open spec fn waits_on(&self, capture: Capture, guard: RawGuard) -> bool {
        false
    }

    open spec fn valid_tag(&self, tag: ReaderTag) -> bool {
        true
    }

    open spec fn owns(tag: ReaderTag, guard: RawGuard) -> bool {
        false
    }

    open spec fn capacity() -> nat {
        usize::MAX as nat
    }

    /// The count must not overflow.
    open spec fn admits(&self, tag: ReaderTag) -> bool {
        self.readers() < usize::MAX
    }

    /// No guard may be open.
    open spec fn allows_swap(&self) -> bool {
        self.readers() == 0
    }

    proof fn lemma_capacity() {
    }

    proof fn lemma_admits(&self, open: Seq<RawGuard>, tag: ReaderTag) {
    }

    proof fn lemma_one_guard_per_reader(&self, open: Seq<RawGuard>, tag: ReaderTag, i: int, j: int) {
    }

    fn fresh() -> (r: Self) {
        LocalStrategy::new()
    }

    fn reader_tag(&mut self) -> (r: ReaderTag) {
        ReaderTag
    }

    fn retire_reader(&mut self, tag: ReaderTag) {
    }

    fn writer_tag(&mut self) -> (r: WriterTag) {
        WriterTag
    }

    fn try_capture_readers(&mut self, tag: &mut WriterTag) -> (r: Result<Capture, CaptureError>)
        ensures
            final(self).readers() == old(self).readers(),
    {
        if self.num_readers == 0 {
            Ok(Capture)
        } else {
            Err(CaptureError)
        }
    }

    fn is_capture_complete(&self, capture: &mut Capture) -> (r: bool)
        ensures
            r,
    {
        true
    }

    fn begin_guard(&mut self, tag: &mut ReaderTag) -> (g: RawGuard)
        ensures
            final(self).readers() == old(self).readers() + 1,
    {
        self.num_readers = self.num_readers + 1;
        RawGuard
    }

    /// Counts one guard less; the count never goes below zero.
    fn end_guard(&mut self, guard: RawGuard)
        ensures
            final(self).readers() == if old(self).readers() == 0 {
                0
            } else {
                old(self).readers() - 1
            },
    {
        if self.num_readers > 0 {
            self.num_readers = self.num_readers - 1;
        }
    }
}

} // verus!
