use vstd::prelude::*;

use crate::strategy::{CaptureError, Strategy};

verus! {

/// A reader's attempt to reach the buffers after the writer has gone.
#[derive(Clone, Copy, Debug, PartialEq, Eq, Structural)]
pub struct UpgradeFailed;

/// The shared cell of a double buffer: two buffers, the flag that says which
/// of them readers see (the front), the reader-tracking strategy, and the
/// writer's state, including a swap that has started and not yet completed.
///
/// The writer mutates only the back buffer, and only while no swap is
/// pending; a swap exchanges the roles of the two buffers.
pub struct BufferData<B, S: Strategy, E = ()> {
    buffer0: B,
    buffer1: B,
    which: bool,
    strategy: S,
    writer_tag: S::WriterTag,
    writer_alive: bool,
    pending: Option<S::Capture>,
    open: Ghost<Seq<(S::RawGuard, bool)>>,
    extra: E,
}

/// The parts of a cell before it is built: its two buffers, the first of
/// which starts as the front, its strategy and its payload.
pub struct BufferDataBuilder<B, S: Strategy, E = ()> {
    pub front: B,
    pub back: B,
    pub strategy: S,
    pub extra: E,
}

impl<B, S: Strategy, E> BufferDataBuilder<B, S, E> {
    pub fn build(self) -> (r: BufferData<B, S, E>)
        requires
            self.strategy.tracks(Seq::empty()),
        ensures
            r.wf(),
            r.open_guards().len() == 0,
            r.front() == self.front,
            r.back() == self.back,
            r.extra() == self.extra,
            r.writer_alive(),
            !r.swapping(),
    {
        BufferData::with_extra(self.front, self.back, self.strategy, self.extra)
    }
}

/// The raw tokens of the open guards `open`.
pub open spec fn raws<R>(open: Seq<(R, bool)>) -> Seq<R> {
    open.map_values(|p: (R, bool)| p.0)
}

/// A handle through which one reader reads.
pub struct Reader<S: Strategy> {
    tag: S::ReaderTag,
}

/// An open read: the buffer it reads, and the strategy's token that keeps the
/// writer from reusing that buffer while the read lasts.
pub struct ReaderGuard<S: Strategy> {
    index: bool,
    raw: S::RawGuard,
}

impl<S: Strategy> Reader<S> {
    pub closed spec fn tag(&self) -> S::ReaderTag {
        self.tag
    }
}

impl<S: Strategy> ReaderGuard<S> {
    /// The buffer the guard reads: `true` for the second buffer.
    pub closed spec fn index(&self) -> bool {
        self.index
    }

    pub closed spec fn raw(&self) -> S::RawGuard {
        self.raw
    }

    /// The part of the buffer this read sees that `f` picks out.
    pub fn map<'a, B, E, T, F: Fn(&'a B) -> &'a T>(&self, data: &'a BufferData<B, S, E>, f: F) -> (r:
        &'a T)
        requires
            f.requires((&data.buffer(self.index()),)),
        ensures
            f.ensures((&data.buffer(self.index()),), r),
    {
        f(data.guard_value(self))
    }

    /// The part of the buffer this read sees that `f` picks out, if any.
    pub fn try_map<'a, B, E, T, F: Fn(&'a B) -> Option<&'a T>>(
        &self,
        data: &'a BufferData<B, S, E>,
        f: F,
    ) -> (r: Option<&'a T>)
        requires
            f.requires((&data.buffer(self.index()),)),
        ensures
            f.ensures((&data.buffer(self.index()),), r),
    {
        f(data.guard_value(self))
    }
}

impl<B, S: Strategy, E> BufferData<B, S, E> {
    /// The buffer at `index`: `false` for the first, `true` for the second.
    pub closed spec fn buffer(&self, index: bool) -> B {
        if index {
            self.buffer1
        } else {
            self.buffer0
        }
    }

    /// The index of the buffer readers see.
    pub closed spec fn front_index(&self) -> bool {
        self.which
    }

    pub open spec fn front(&self) -> B {
        self.buffer(self.front_index())
    }

    pub open spec fn back(&self) -> B {
        self.buffer(!self.front_index())
    }

    pub closed spec fn strategy(&self) -> S {
        self.strategy
    }

    /// Whether the writer still exists.
    pub closed spec fn writer_alive(&self) -> bool {
        self.writer_alive
    }

    /// Whether a swap has started and is waiting for readers to leave the
    /// old front.
    pub closed spec fn swapping(&self) -> bool {
        self.pending is Some
    }

    /// The reads that are open, each as its raw token and the buffer it
    /// reads.
    pub closed spec fn open_guards(&self) -> Seq<(S::RawGuard, bool)> {
        self.open@
    }

    /// The capture of the pending swap.
    pub closed spec fn pending_capture(&self) -> S::Capture {
        self.pending->Some_0
    }

    /// Whether the reader with `tag` is registered and holds no open read.
    pub open spec fn idle(&self, tag: S::ReaderTag) -> bool {
        &&& self.strategy().valid_tag(tag)
        &&& forall|i: int|
            0 <= i < self.open_guards().len() ==> !S::owns(tag, #[trigger] self.open_guards()[i].0)
    }

    /// Whether `reader` may open a read: it is idle, and there is room.
    pub open spec fn ready(&self, reader: Reader<S>) -> bool {
        self.idle(reader.tag()) && self.open_guards().len() < S::capacity()
    }

    /// Whether the reader with `tag` is registered and holds no open read
    /// but possibly `guard`.
    pub open spec fn idle_but(&self, tag: S::ReaderTag, guard: (S::RawGuard, bool)) -> bool {
        &&& self.strategy().valid_tag(tag)
        &&& forall|i: int|
            0 <= i < self.open_guards().len() && S::owns(tag, #[trigger] self.open_guards()[i].0)
                ==> self.open_guards()[i] == guard
    }

    /// Every reader idle in `self` is still idle in `after`.
    pub open spec fn keeps_idle(&self, after: Self) -> bool {
        forall|t: S::ReaderTag| #[trigger] self.idle(t) ==> after.idle(t)
    }

    /// Whether `guard` is one of this cell's open reads.
    pub open spec fn is_open(&self, guard: ReaderGuard<S>) -> bool {
        self.open_guards().contains((guard.raw(), guard.index()))
    }

    /// The strategy accounts for every open read. With no swap pending every
    /// open read is on the front; while one is pending, a read on the old
    /// front is one that the swap's capture still waits on.
    pub closed spec fn wf(&self) -> bool {
        &&& self.strategy.tracks(raws(self.open@))
        &&& self.pending is None ==> forall|i: int|
            0 <= i < self.open@.len() ==> (#[trigger] self.open@[i]).1 == self.which
        &&& self.pending matches Some(c) ==> forall|i: int|
            0 <= i < self.open@.len() ==> (#[trigger] self.open@[i]).1 == self.which
                || self.strategy.waits_on(c, self.open@[i].0)
    }

    /// Whether `after` holds the same buffers as `self`, in the same roles,
    /// with the writer in the same state.
    pub open spec fn same_contents(&self, after: Self) -> bool {
        &&& after.buffer(false) == self.buffer(false)
        &&& after.buffer(true) == self.buffer(true)
        &&& after.front_index() == self.front_index()
        &&& after.writer_alive() == self.writer_alive()
        &&& after.swapping() == self.swapping()
    }

    /// The payload stored beside the buffers.
    pub closed spec fn extra(&self) -> E {
        self.extra
    }

    /// A cell whose first buffer is the front, with its writer and the
    /// payload `extra`.
    pub fn with_extra(front: B, back: B, strategy: S, extra: E) -> (r: Self)
        requires
            strategy.tracks(Seq::empty()),
        ensures
            r.extra() == extra,
            r.wf(),
            r.open_guards().len() == 0,
            r.front() == front,
            r.back() == back,
            r.writer_alive(),
            !r.swapping(),
    {
        let mut strategy = strategy;
        let writer_tag = strategy.writer_tag();
        let r = BufferData {
            buffer0: front,
            buffer1: back,
            which: false,
            strategy,
            writer_tag,
            writer_alive: true,
            pending: None,
            open: Ghost(Seq::empty()),
            extra,
        };
        proof {
            assert(raws(r.open@) =~= Seq::<S::RawGuard>::empty());
        }
        r
    }

    /// Issues a reader handle.
    pub fn reader(&mut self) -> (r: Reader<S>)
        requires
            old(self).wf(),
        ensures
            final(self).wf(),
            old(self).same_contents(*final(self)),
            final(self).open_guards() == old(self).open_guards(),
            final(self).idle(r.tag()),
            old(self).keeps_idle(*final(self)),
    {
        let ghost rs = raws(self.open@);
        let tag = self.strategy.reader_tag();
        proof {
            assert(old(self).strategy.tracks(rs));
            assert forall|i: int| 0 <= i < self.open@.len() implies !S::owns(tag, #[trigger] self.open@[i].0) by {
                assert(rs[i] == self.open@[i].0);
            }
            assert forall|t: S::ReaderTag| #[trigger] old(self).idle(t) implies self.idle(t) by {
                assert(old(self).strategy.valid_tag(t));
                assert(self.strategy.valid_tag(t));
                assert(self.open@ == old(self).open@);
                assert forall|i: int| 0 <= i < self.open_guards().len() implies !S::owns(
                    t,
                    #[trigger] self.open_guards()[i].0,
                ) by {
                    assert(old(self).open_guards()[i] == self.open_guards()[i]);
                }
            }
            if self.pending is Some {
                let c = self.pending->Some_0;
                assert forall|i: int| 0 <= i < self.open@.len() implies (#[trigger] self.open@[i]).1
                    == self.which || self.strategy.waits_on(c, self.open@[i].0) by {
                    assert(rs[i] == self.open@[i].0);
                }
            }
        }
        Reader { tag }
    }

    /// Retires a reader handle.
    pub fn drop_reader(&mut self, reader: Reader<S>)
        requires
            old(self).wf(),
        ensures
            final(self).wf(),
            old(self).same_contents(*final(self)),
            final(self).open_guards() == old(self).open_guards(),
            forall|t: S::ReaderTag| #[trigger]
                old(self).idle(t) && t != reader.tag() ==> final(self).idle(t),
    {
        let ghost rs = raws(self.open@);
        self.strategy.retire_reader(reader.tag);
        proof {
            assert(old(self).strategy.tracks(rs));
            if self.pending is Some {
                let c = self.pending->Some_0;
                assert forall|i: int| 0 <= i < self.open@.len() implies (#[trigger] self.open@[i]).1
                    == self.which || self.strategy.waits_on(c, self.open@[i].0) by {
                    assert(rs[i] == self.open@[i].0);
                }
            }
        }
    }

    /// The front buffer, as the writer sees it.
    pub fn read(&self) -> (r: &B)
        ensures
            *r == self.front(),
    {
        if self.which {
            &self.buffer1
        } else {
            &self.buffer0
        }
    }

    /// The back buffer, read only.
    pub fn back_ref(&self) -> (r: &B)
        ensures
            *r == self.back(),
    {
        if self.which {
            &self.buffer0
        } else {
            &self.buffer1
        }
    }

    /// Both buffers at once: the front, then the back.
    pub fn split(&self) -> (r: (&B, &B))
        ensures
            *r.0 == self.front(),
            *r.1 == self.back(),
    {
        if self.which {
            (&self.buffer1, &self.buffer0)
        } else {
            (&self.buffer0, &self.buffer1)
        }
    }

    /// The back buffer, for the writer to change. Only while no swap is
    /// pending: until the swap completes, readers may still see it.
    pub fn back_mut(&mut self) -> (r: &mut B)
        requires
            old(self).wf(),
            !old(self).swapping(),
        ensures
            *r == old(self).back(),
            final(self).back() == *final(r),
            final(self).front() == old(self).front(),
            final(self).front_index() == old(self).front_index(),
            final(self).strategy() == old(self).strategy(),
            final(self).writer_alive() == old(self).writer_alive(),
            final(self).open_guards() == old(self).open_guards(),
            !final(self).swapping(),
            final(self).wf(),
    {
        if self.which {
            &mut self.buffer0
        } else {
            &mut self.buffer1
        }
    }

    /// Both buffers at once: the front to read, the back to change. Only
    /// while no swap is pending.
    pub fn split_mut(&mut self) -> (r: (&B, &mut B))
        requires
            old(self).wf(),
            !old(self).swapping(),
        ensures
            *r.0 == old(self).front(),
            *r.1 == old(self).back(),
            final(self).back() == *final(r.1),
            final(self).front() == old(self).front(),
            final(self).front_index() == old(self).front_index(),
            final(self).strategy() == old(self).strategy(),
            final(self).writer_alive() == old(self).writer_alive(),
            final(self).open_guards() == old(self).open_guards(),
            !final(self).swapping(),
            final(self).wf(),
    {
        if self.which {
            (&self.buffer1, &mut self.buffer0)
        } else {
            (&self.buffer0, &mut self.buffer1)
        }
    }

    /// The payload stored beside the buffers.
    pub fn extra_ref(&self) -> (r: &E)
        ensures
            *r == self.extra(),
    {
        &self.extra
    }

    /// The strategy, read only.
    pub fn strategy_ref(&self) -> (r: &S)
        ensures
            *r == self.strategy(),
    {
        &self.strategy
    }

    pub fn is_swapping(&self) -> (r: bool)
        ensures
            r == self.swapping(),
    {
        self.pending.is_some()
    }

    /// Starts a swap: publishes the back buffer as the new front and records
    /// which readers may still be reading the old one. If the strategy
    /// refuses, nothing changes.
    pub fn start_buffer_swap(&mut self) -> (r: Result<(), CaptureError>)
        requires
            old(self).wf(),
            !old(self).swapping(),
        ensures
            final(self).wf(),
            final(self).writer_alive() == old(self).writer_alive(),
            final(self).buffer(false) == old(self).buffer(false),
            final(self).buffer(true) == old(self).buffer(true),
            final(self).open_guards() == old(self).open_guards(),
            r is Ok <==> old(self).strategy().allows_swap(),
            old(self).open_guards().len() == 0 ==> r is Ok,
            r is Ok ==> final(self).front_index() == !old(self).front_index()
                && final(self).swapping(),
            r is Err ==> *final(self) == *old(self),
            old(self).keeps_idle(*final(self)),
    {
        let ghost rs = raws(self.open@);
        proof {
            if self.open@.len() == 0 {
                assert(rs =~= Seq::<S::RawGuard>::empty());
            }
        }
        self.which = !self.which;
        match self.strategy.try_capture_readers(&mut self.writer_tag) {
            Ok(capture) => {
                self.pending = Some(capture);
                proof {
                    assert forall|t: S::ReaderTag| #[trigger] old(self).idle(t) implies self.idle(t) by {
                        assert(old(self).strategy.valid_tag(t));
                        assert(self.strategy.valid_tag(t));
                        assert(self.open@ == old(self).open@);
                        assert forall|i: int| 0 <= i < self.open_guards().len() implies !S::owns(
                            t,
                            #[trigger] self.open_guards()[i].0,
                        ) by {
                            assert(old(self).open_guards()[i] == self.open_guards()[i]);
                        }
                    }
                    assert(old(self).strategy.tracks(rs));
                    assert forall|i: int| 0 <= i < self.open@.len() implies (#[trigger] self.open@[
                        i
                    ]).1 == self.which || self.strategy.waits_on(capture, self.open@[i].0) by {
                        assert(rs[i] == self.open@[i].0);
                    }
                }
                Ok(())
            },
            Err(e) => {
                self.which = !self.which;
                Err(e)
            },
        }
    }

    /// Polls a pending swap: once the readers it waits on have left the old
    /// front, the swap is over and `true` is returned. With no swap pending,
    /// returns `true` at once. When it returns `true`, no open read is on
    /// the back buffer.
    pub fn is_swap_completed(&mut self) -> (r: bool)
        requires
            old(self).wf(),
        ensures
            final(self).wf(),
            final(self).strategy() == old(self).strategy(),
            final(self).writer_alive() == old(self).writer_alive(),
            final(self).buffer(false) == old(self).buffer(false),
            final(self).buffer(true) == old(self).buffer(true),
            final(self).front_index() == old(self).front_index(),
            final(self).open_guards() == old(self).open_guards(),
            !old(self).swapping() ==> r,
            r <==> !final(self).swapping(),
            r ==> forall|g: ReaderGuard<S>| #[trigger]
                final(self).is_open(g) ==> g.index() == final(self).front_index(),
            old(self).swapping() && (forall|g: S::RawGuard| !#[trigger] old(self).strategy().waits_on(
                old(self).pending_capture(),
                g,
            )) ==> r,
            old(self).open_guards().len() == 0 ==> r,
    {
        proof {
            if self.open@.len() == 0 {
                assert(raws(self.open@) =~= Seq::<S::RawGuard>::empty());
            }
        }
        let ghost rs = raws(self.open@);
        let r = match self.pending.take() {
            None => true,
            Some(mut capture) => {
                let ghost before = capture;
                proof {
                    assert(before == old(self).pending_capture());
                }
                let done = self.strategy.is_capture_complete(&mut capture);
                proof {
                    if forall|g: S::RawGuard| !#[trigger] old(self).strategy().waits_on(
                        old(self).pending_capture(),
                        g,
                    ) {
                        assert forall|g: S::RawGuard| !#[trigger] self.strategy.waits_on(before, g) by {
                            assert(!old(self).strategy().waits_on(old(self).pending_capture(), g));
                        }
                    }
                }
                proof {
                    assert forall|i: int| 0 <= i < self.open@.len() implies (#[trigger] self.open@[
                        i
                    ]).1 == self.which || self.strategy.waits_on(capture, self.open@[i].0) by {
                        assert(rs[i] == self.open@[i].0);
                        if self.open@[i].1 != self.which {
                            assert(self.strategy.waits_on(before, rs[i]));
                        }
                    }
                }
                if done {
                    true
                } else {
                    self.pending = Some(capture);
                    false
                }
            },
        };
        proof {
            if r {
                assert forall|g: ReaderGuard<S>| #[trigger]
                    self.is_open(g) implies g.index() == self.front_index() by {
                    let i = choose|i: int|
                        0 <= i < self.open@.len() && self.open@[i] == (g.raw(), g.index());
                    assert(self.open@[i].1 == self.which);
                }
            }
        }
        r
    }

    /// Starts a swap and polls it once. Returns whether the swap completed;
    /// if it started and did not complete, it stays pending.
    pub fn swap_buffers(&mut self) -> (r: bool)
        requires
            old(self).wf(),
            !old(self).swapping(),
        ensures
            final(self).wf(),
            final(self).writer_alive() == old(self).writer_alive(),
            final(self).buffer(false) == old(self).buffer(false),
            final(self).buffer(true) == old(self).buffer(true),
            final(self).open_guards() == old(self).open_guards(),
            r ==> final(self).front() == old(self).back() && final(self).back() == old(self).front(),
            r <==> !final(self).swapping() && final(self).front_index() != old(self).front_index(),
            old(self).strategy().allows_swap() ==> final(self).front_index() == !old(self).front_index(),
            !old(self).strategy().allows_swap() ==> *final(self) == *old(self),
            old(self).open_guards().len() == 0 ==> r,
            old(self).keeps_idle(*final(self)),
    {
        match self.start_buffer_swap() {
            Ok(()) => self.is_swap_completed(),
            Err(_) => false,
        }
    }

    /// Whether `reader` can no longer read: its writer is gone.
    pub fn is_dangling(&self, reader: &Reader<S>) -> (r: bool)
        ensures
            r == !self.writer_alive(),
    {
        !self.writer_alive
    }

    /// A new reader handle beside `reader`, unless the writer is gone.
    pub fn try_clone(&mut self, reader: &Reader<S>) -> (r: Result<Reader<S>, UpgradeFailed>)
        requires
            old(self).wf(),
        ensures
            final(self).wf(),
            r is Ok <==> old(self).writer_alive(),
            r is Err ==> *final(self) == *old(self),
            old(self).same_contents(*final(self)),
            final(self).open_guards() == old(self).open_guards(),
            r matches Ok(r2) ==> final(self).idle(r2.tag()),
            old(self).keeps_idle(*final(self)),
    {
        if !self.writer_alive {
            return Err(UpgradeFailed);
        }
        Ok(self.reader())
    }

    /// Opens a read on the current front buffer, unless the writer is gone.
    /// The read never sees the back buffer.
    pub fn try_get(&mut self, reader: &mut Reader<S>) -> (r: Result<ReaderGuard<S>, UpgradeFailed>)
        requires
            old(self).wf(),
            old(self).writer_alive() ==> old(self).ready(*old(reader)),
        ensures
            final(self).wf(),
            old(self).same_contents(*final(self)),
            *final(reader) == *old(reader),
            r is Ok <==> old(self).writer_alive(),
            r is Err ==> *final(self) == *old(self),
            r matches Ok(g) ==> {
                &&& g.index() == old(self).front_index()
                &&& final(self).open_guards() == old(self).open_guards().push((g.raw(), g.index()))
                &&& final(self).is_open(g)
                &&& final(self).idle_but(old(reader).tag(), (g.raw(), g.index()))
                &&& forall|t: S::ReaderTag| #[trigger]
                    old(self).idle(t) && t != old(reader).tag() ==> final(self).idle(t)
            },
    {
        if !self.writer_alive {
            return Err(UpgradeFailed);
        }
        let ghost rs = raws(self.open@);
        let ghost old_strategy = self.strategy;
        proof {
            assert(old_strategy.tracks(rs));
            assert forall|i: int| 0 <= i < rs.len() implies !S::owns(reader.tag, #[trigger] rs[i]) by {
                assert(rs[i] == self.open@[i].0);
            }
            old_strategy.lemma_admits(rs, reader.tag);
        }
        let raw = self.strategy.begin_guard(&mut reader.tag);
        let g = ReaderGuard { index: self.which, raw };
        proof {
            let o2 = self.open@.push((raw, self.which));
            assert(raws(o2) =~= rs.push(raw));
            if self.pending is Some {
                let c = self.pending->Some_0;
                assert forall|i: int| 0 <= i < o2.len() implies (#[trigger] o2[i]).1
                    == self.which || self.strategy.waits_on(c, o2[i].0) by {
                    if i < self.open@.len() {
                        assert(o2[i] == self.open@[i]);
                        assert(rs[i] == self.open@[i].0);
                        if o2[i].1 != self.which {
                            assert(old_strategy.waits_on(c, rs[i]));
                        }
                    }
                }
            } else {
                assert forall|i: int| 0 <= i < o2.len() implies (#[trigger] o2[i]).1
                    == self.which by {
                    if i < self.open@.len() {
                        assert(o2[i] == self.open@[i]);
                    }
                }
            }
            let ghost old_open = self.open@;
            self.open = Ghost(o2);
            assert(self.open@[self.open@.len() - 1] == (g.raw(), g.index()));
            assert forall|i: int|
                0 <= i < o2.len() && S::owns(reader.tag, #[trigger] o2[i].0) implies o2[i] == (g.raw(), g.index()) by {
                if i < old_open.len() {
                    assert(o2[i] == old_open[i]);
                    assert(rs[i] == old_open[i].0);
                }
            }
            assert forall|t: S::ReaderTag| #[trigger]
                old(self).idle(t) && t != old(reader).tag() implies self.idle(t) by {
                assert forall|i: int| 0 <= i < o2.len() implies !S::owns(t, #[trigger] o2[i].0) by {
                    if i < old_open.len() {
                        assert(o2[i] == old_open[i]);
                    }
                }
            }
        }
        Ok(g)
    }

    /// The buffer an open read sees. It stays the same buffer for as long as
    /// the guard lives, whatever swaps the writer starts meanwhile.
    pub fn guard_value(&self, guard: &ReaderGuard<S>) -> (r: &B)
        ensures
            *r == self.buffer(guard.index()),
    {
        if guard.index {
            &self.buffer1
        } else {
            &self.buffer0
        }
    }

    /// Closes one of this cell's open reads.
    pub fn release(&mut self, guard: ReaderGuard<S>)
        requires
            old(self).wf(),
            old(self).is_open(guard),
        ensures
            final(self).wf(),
            old(self).same_contents(*final(self)),
            final(self).open_guards().len() == old(self).open_guards().len() - 1,
            old(self).keeps_idle(*final(self)),
            forall|t: S::ReaderTag| #[trigger]
                old(self).idle_but(t, (guard.raw(), guard.index())) ==> final(self).idle(t),
    {
        let ghost rs = raws(self.open@);
        let ghost old_strategy = self.strategy;
        let ghost i = choose|i: int|
            0 <= i < self.open@.len() && self.open@[i] == (guard.raw, guard.index);
        self.strategy.end_guard(guard.raw);
        proof {
            assert(old_strategy.tracks(rs));
            assert(rs[i] == guard.raw);
            let o2 = self.open@.remove(i);
            assert(raws(o2) =~= rs.remove(i));
            let ghost rs2 = rs.remove(i);
            assert(self.strategy.tracks(rs2));
            let ghost old_open = self.open@;
            assert forall|t: S::ReaderTag| #[trigger] old(self).idle(t) implies {
                &&& self.strategy.valid_tag(t)
                &&& forall|j: int| 0 <= j < o2.len() ==> !S::owns(t, #[trigger] o2[j].0)
            } by {
                assert forall|j: int| 0 <= j < o2.len() implies !S::owns(t, #[trigger] o2[j].0) by {
                    let jj = if j < i { j } else { j + 1 };
                    assert(o2[j] == old_open[jj]);
                }
            }
            assert forall|t: S::ReaderTag| #[trigger]
                old(self).idle_but(t, (guard.raw, guard.index)) implies {
                &&& self.strategy.valid_tag(t)
                &&& forall|j: int| 0 <= j < o2.len() ==> !S::owns(t, #[trigger] o2[j].0)
            } by {
                assert forall|j: int| 0 <= j < o2.len() implies !S::owns(t, #[trigger] o2[j].0) by {
                    let jj = if j < i { j } else { j + 1 };
                    assert(o2[j] == old_open[jj]);
                    assert(rs[jj] == old_open[jj].0);
                    if S::owns(t, o2[j].0) {
                        assert(old_open[jj] == (guard.raw, guard.index));
                        assert(rs[i] == guard.raw);
                        old_strategy.lemma_one_guard_per_reader(rs, t, i, jj);
                    }
                }
            }
            if self.pending is Some {
                let c = self.pending->Some_0;
                assert forall|j: int| 0 <= j < o2.len() implies (#[trigger] o2[j]).1 == self.which
                    || self.strategy.waits_on(c, o2[j].0) by {
                    assert(rs2[j] == o2[j].0);
                    let jj = if j < i {
                        j
                    } else {
                        j + 1
                    };
                    assert(o2[j] == self.open@[jj]);
                    if o2[j].1 != self.which {
                        assert(old_strategy.waits_on(c, rs2[j]));
                    }
                }
            } else {
                assert forall|j: int| 0 <= j < o2.len() implies (#[trigger] o2[j]).1
                    == self.which by {
                    let jj = if j < i {
                        j
                    } else {
                        j + 1
                    };
                    assert(o2[j] == self.open@[jj]);
                }
            }
            self.open = Ghost(o2);
        }
    }

    /// Drops the writer: every reader becomes dangling. Reads already open
    /// stay valid until they are released.
    pub fn drop_writer(&mut self)
        requires
            old(self).wf(),
        ensures
            final(self).wf(),
            !final(self).writer_alive(),
            final(self).buffer(false) == old(self).buffer(false),
            final(self).buffer(true) == old(self).buffer(true),
            final(self).front_index() == old(self).front_index(),
            final(self).strategy() == old(self).strategy(),
            final(self).swapping() == old(self).swapping(),
            final(self).open_guards() == old(self).open_guards(),
    {
        self.writer_alive = false;
    }
}

/// While no swap is pending, every open read is on the front buffer: the
/// buffer the writer may change is one that no reader holds.
pub proof fn lemma_reads_stay_off_the_back<B, S: Strategy>(data: BufferData<B, S>, guard: ReaderGuard<S>)
    requires
        data.wf(),
        !data.swapping(),
        data.is_open(guard),
    ensures
        guard.index() == data.front_index(),
        guard.index() != !data.front_index(),
{
    reveal(BufferData::wf);
    let i = choose|i: int| 0 <= i < data.open@.len() && data.open@[i] == (guard.raw(), guard.index());
    assert(data.open@[i].1 == data.which);
}

impl<B, S: Strategy> BufferData<B, S> {
    /// A cell whose first buffer is the front, with its writer.
    pub fn new(front: B, back: B, strategy: S) -> (r: Self)
        requires
            strategy.tracks(Seq::empty()),
        ensures
            r.wf(),
            r.open_guards().len() == 0,
            r.front() == front,
            r.back() == back,
            r.writer_alive(),
            !r.swapping(),
    {
        BufferData::with_extra(front, back, strategy, ())
    }
}

} // verus!
