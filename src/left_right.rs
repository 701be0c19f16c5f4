use vstd::prelude::*;

use std::collections::VecDeque;

use crate::op::{
    apply_all, lemma_apply_all_split, lemma_apply_all_take_next, lemma_same_effects_apply_all,
    same_effects, Operation,
};
use crate::raw::{BufferData, Reader, ReaderGuard};
use crate::strategy::{CaptureError, Strategy};

verus! {

/// A writer that defers every operation to the next flush. A flush first
/// replays, onto the buffer readers have just left, the operations that the
/// previous flush published; then applies the newer ones to that buffer and
/// publishes it. Each operation is thus applied once as `apply`, then once as
/// `apply_once` to the other buffer on the following flush.
pub struct Writer<B: View, S: Strategy, O: Operation<B>> {
    data: BufferData<B, S>,
    ops: VecDeque<O>,
    applied: usize,
    swapped: bool,
}

impl<B: View, S: Strategy, O: Operation<B>> Writer<B, S, O> {
    pub closed spec fn data(&self) -> BufferData<B, S> {
        self.data
    }

    /// Every operation not yet applied to both buffers, oldest first.
    pub closed spec fn ops(&self) -> Seq<O> {
        self.ops@
    }

    /// How many of `ops` the last flush applied to the buffer it published.
    pub closed spec fn applied(&self) -> nat {
        self.applied as nat
    }

    /// Whether the last flush got to publish its buffer.
    pub closed spec fn published(&self) -> bool {
        self.swapped
    }

    /// The buffer that holds the first `applied` operations.
    pub open spec fn ahead(&self) -> B::V {
        if self.published() {
            self.data().front()@
        } else {
            self.data().back()@
        }
    }

    /// The buffer that lacks them.
    pub open spec fn behind(&self) -> B::V {
        if self.published() {
            self.data().back()@
        } else {
            self.data().front()@
        }
    }

    /// The contents once every registered operation is applied.
    pub open spec fn target_view(&self) -> B::V {
        apply_all::<B, O>(self.ops().skip(self.applied() as int), self.ahead())
    }

    pub open spec fn wf(&self) -> bool {
        &&& self.data().wf()
        &&& self.data().writer_alive()
        &&& self.applied() <= self.ops().len()
        &&& self.ahead() == apply_all::<B, O>(
            self.ops().take(self.applied() as int),
            self.behind(),
        )
        &&& !self.published() ==> !self.data().swapping()
    }

    /// A writer over `data`, whose two buffers must hold the same contents.
    /// It starts a swap at once, as every flush ends with one.
    pub fn from_data(data: BufferData<B, S>) -> (r: Self)
        requires
            data.wf(),
            data.writer_alive(),
            !data.swapping(),
            data.front()@ == data.back()@,
        ensures
            r.wf(),
            r.ops().len() == 0,
            r.target_view() == data.front()@,
            r.data().open_guards() == data.open_guards(),
            data.keeps_idle(r.data()),
    {
        let mut data = data;
        let swapped = match data.start_buffer_swap() {
            Ok(()) => true,
            Err(_) => false,
        };
        let r = Writer { data, ops: VecDeque::new(), applied: 0, swapped };
        proof {
            assert(r.ops@.take(0) =~= Seq::<O>::empty());
            assert(r.ops@.skip(0) =~= Seq::<O>::empty());
        }
        r
    }

    /// The front buffer, as the writer sees it.
    pub fn read(&self) -> (r: &B)
        ensures
            *r == self.data().front(),
    {
        self.data.read()
    }

    /// Issues a reader handle.
    pub fn reader(&mut self) -> (r: Reader<S>)
        requires
            old(self).wf(),
        ensures
            final(self).wf(),
            final(self).ops() == old(self).ops(),
            final(self).applied() == old(self).applied(),
            final(self).published() == old(self).published(),
            final(self).data().front() == old(self).data().front(),
            final(self).data().back() == old(self).data().back(),
            final(self).data().open_guards() == old(self).data().open_guards(),
            final(self).data().idle(r.tag()),
            old(self).data().keeps_idle(final(self).data()),
    {
        self.data.reader()
    }

    /// Opens a read for `reader` on the front buffer.
    pub fn get(&mut self, reader: &mut Reader<S>) -> (g: ReaderGuard<S>)
        requires
            old(self).wf(),
            old(self).data().ready(*old(reader)),
        ensures
            final(self).wf(),
            final(self).ops() == old(self).ops(),
            final(self).applied() == old(self).applied(),
            final(self).published() == old(self).published(),
            final(self).data().front() == old(self).data().front(),
            final(self).data().back() == old(self).data().back(),
            final(self).data().front_index() == old(self).data().front_index(),
            *final(reader) == *old(reader),
            g.index() == old(self).data().front_index(),
            final(self).data().is_open(g),
            final(self).data().open_guards() == old(self).data().open_guards().push(
                (g.raw(), g.index()),
            ),
            final(self).data().idle_but(old(reader).tag(), (g.raw(), g.index())),
            forall|t: S::ReaderTag| #[trigger]
                old(self).data().idle(t) && t != old(reader).tag() ==> final(self).data().idle(t),
    {
        match self.data.try_get(reader) {
            Ok(g) => g,
            Err(_) => vstd::pervasive::unreached(),
        }
    }

    /// The buffer an open read sees.
    pub fn guard_value(&self, guard: &ReaderGuard<S>) -> (r: &B)
        ensures
            *r == self.data().buffer(guard.index()),
    {
        self.data.guard_value(guard)
    }

    /// Closes one of the cell's open reads.
    pub fn release(&mut self, guard: ReaderGuard<S>)
        requires
            old(self).wf(),
            old(self).data().is_open(guard),
        ensures
            final(self).wf(),
            final(self).ops() == old(self).ops(),
            final(self).applied() == old(self).applied(),
            final(self).published() == old(self).published(),
            final(self).data().front() == old(self).data().front(),
            final(self).data().back() == old(self).data().back(),
            final(self).data().front_index() == old(self).data().front_index(),
            final(self).data().open_guards().len() == old(self).data().open_guards().len() - 1,
            old(self).data().keeps_idle(final(self).data()),
            forall|t: S::ReaderTag| #[trigger]
                old(self).data().idle_but(t, (guard.raw(), guard.index())) ==> final(self).data().idle(t),
    {
        self.data.release(guard)
    }

    /// The registered operations.
    pub fn operations(&self) -> (r: &VecDeque<O>)
        ensures
            r@ == self.ops(),
    {
        &self.ops
    }

    /// Queues `op` for the next flush.
    pub fn register(&mut self, op: O)
        requires
            old(self).wf(),
        ensures
            final(self).wf(),
            final(self).data() == old(self).data(),
            final(self).ops() == old(self).ops().push(op),
            final(self).applied() == old(self).applied(),
            final(self).published() == old(self).published(),
            final(self).target_view() == op.effect(old(self).target_view()),
    {
        let ghost a = self.applied as int;
        let ghost old_ops = self.ops@;
        self.ops.push_back(op);
        proof {
            assert(self.ops@.take(a) =~= old_ops.take(a));
            assert(self.ops@.skip(a).drop_last() =~= old_ops.skip(a));
        }
    }

    /// Replays the published operations onto the buffer readers have left,
    /// applies the newer ones there too, and publishes it.
    ///
    /// Returns `Ok(false)`, with the buffers and the log unchanged, while readers still hold
    /// the buffer the previous flush retired: call again later. Returns the
    /// strategy's refusal when it does not let the writer swap; the newer
    /// operations are then applied and will be published by the next flush.
    /// On `Ok(true)` the front holds every registered operation; if no
    /// operation was registered since the previous flush published, both
    /// buffers now hold the same contents.
    pub fn flush(&mut self) -> (r: Result<bool, CaptureError>)
        requires
            old(self).wf(),
        ensures
            final(self).wf(),
            final(self).target_view() == old(self).target_view(),
            r == Ok::<bool, CaptureError>(false) ==> {
                &&& final(self).published()
                &&& final(self).ops() == old(self).ops()
                &&& final(self).applied() == old(self).applied()
                &&& final(self).data().front() == old(self).data().front()
                &&& final(self).data().back() == old(self).data().back()
            },
            r == Ok::<bool, CaptureError>(true) ==> {
                &&& final(self).published()
                &&& final(self).applied() == final(self).ops().len()
                &&& final(self).data().front()@ == old(self).target_view()
            },
            r == Ok::<bool, CaptureError>(true) && old(self).published() && old(self).applied()
                == old(self).ops().len() ==> final(self).data().front()@
                == final(self).data().back()@,
            r is Err ==> !final(self).published() && final(self).applied()
                == final(self).ops().len(),
            r is Err ==> !old(self).data().strategy().allows_swap(),
            r == Ok::<bool, CaptureError>(false) ==> {
                &&& old(self).data().swapping()
                &&& old(self).data().open_guards().len() > 0
                &&& exists|g: S::RawGuard| #[trigger]
                    old(self).data().strategy().waits_on(old(self).data().pending_capture(), g)
            },
            old(self).data().open_guards().len() == 0 ==> r == Ok::<bool, CaptureError>(true),
            r == Ok::<bool, CaptureError>(true) ==> {
                &&& final(self).data().swapping()
                &&& same_effects::<B, O>(
                    final(self).ops(),
                    if old(self).published() {
                        old(self).ops().skip(old(self).applied() as int)
                    } else {
                        old(self).ops()
                    },
                )
            },
            final(self).data().open_guards() == old(self).data().open_guards(),
            old(self).data().keeps_idle(final(self).data()),
    {
        let ghost target = self.target_view();
        if self.swapped {
            if !self.data.is_swap_completed() {
                return Ok(false);
            }
            self.consume_applied();
        }
        self.apply_pending();
        let ghost mid = self.data;
        proof {
            assert forall|t: S::ReaderTag| #[trigger] old(self).data.idle(t) implies mid.idle(t) by {
            }
        }
        match self.data.start_buffer_swap() {
            Ok(()) => {
                self.swapped = true;
                proof {
                    assert forall|t: S::ReaderTag| #[trigger] old(self).data.idle(t) implies self.data.idle(t) by {
                        assert(mid.idle(t));
                    }
                    assert(self.ops@.skip(self.applied as int) =~= Seq::<O>::empty());
                }
                Ok(true)
            },
            Err(e) => {
                proof {
                    assert forall|t: S::ReaderTag| #[trigger] old(self).data.idle(t) implies self.data.idle(t) by {
                        assert(mid.idle(t));
                    }
                    assert(self.ops@.skip(self.applied as int) =~= Seq::<O>::empty());
                }
                Err(e)
            },
        }
    }

    /// Replays the first `applied` operations onto the back buffer, which
    /// lacks them, and drops them from the log.
    fn consume_applied(&mut self)
        requires
            old(self).wf(),
            old(self).published(),
            !old(self).data().swapping(),
        ensures
            final(self).wf(),
            !final(self).published(),
            final(self).applied() == 0,
            final(self).target_view() == old(self).target_view(),
            final(self).data().front()@ == old(self).data().front()@,
            final(self).data().back()@ == final(self).data().front()@,
            final(self).ops() == old(self).ops().skip(old(self).applied() as int),
            final(self).data().strategy() == old(self).data().strategy(),
            final(self).data().open_guards() == old(self).data().open_guards(),
    {
        let ghost orig = self.ops@;
        let ghost back0 = self.data.back()@;
        let ghost a = self.applied as int;
        let n = self.applied;
        let mut k: usize = 0;
        while k < n
            invariant
                self.data.wf(),
                self.data.writer_alive(),
                !self.data.swapping(),
                self.swapped,
                n == a,
                a <= orig.len(),
                k <= n,
                self.ops@ == orig.skip(k as int),
                self.data.front()@ == apply_all::<B, O>(orig.take(a), back0),
                self.data.back()@ == apply_all::<B, O>(orig.take(k as int), back0),
                self.data.strategy() == old(self).data.strategy(),
                self.data.open_guards() == old(self).data.open_guards(),
            decreases n - k,
        {
            proof {
                lemma_apply_all_take_next::<B, O>(orig, k as int, back0);
            }
            let op = self.ops.pop_front().unwrap();
            op.apply_once(self.data.back_mut());
            assert(self.ops@ =~= orig.skip(k + 1));
            k = k + 1;
        }
        self.applied = 0;
        self.swapped = false;
        proof {
            assert(self.ops@.take(0) =~= Seq::<O>::empty());
            assert(self.ops@.skip(0) =~= self.ops@);
            assert(self.ops@ =~= orig.skip(a));
            lemma_apply_all_split::<B, O>(orig, a, back0);
        }
    }

    /// Applies every operation past `applied` to the back buffer, in order,
    /// keeping the log's order; afterwards all of them count as applied.
    fn apply_pending(&mut self)
        requires
            old(self).wf(),
            !old(self).published(),
        ensures
            final(self).wf(),
            !final(self).published(),
            final(self).applied() == final(self).ops().len(),
            final(self).target_view() == old(self).target_view(),
            final(self).data().front()@ == old(self).data().front()@,
            same_effects::<B, O>(final(self).ops(), old(self).ops()),
            final(self).data().strategy() == old(self).data().strategy(),
            final(self).data().open_guards() == old(self).data().open_guards(),
    {
        let ghost orig = self.ops@;
        let ghost front = self.data.front()@;
        let ghost a = self.applied as int;
        let ghost target = self.target_view();
        let ghost done = Seq::<O>::empty();
        let n = self.ops.len();
        let start = self.applied;
        let mut i: usize = 0;
        while i < n
            invariant
                self.data.wf(),
                self.data.writer_alive(),
                !self.data.swapping(),
                !self.swapped,
                n == orig.len(),
                start == a,
                a <= n,
                i <= n,
                done.len() == i,
                same_effects::<B, O>(done, orig.take(i as int)),
                self.ops@ == orig.skip(i as int) + done,
                self.data.front()@ == front,
                self.data.strategy() == old(self).data.strategy(),
                self.data.open_guards() == old(self).data.open_guards(),
                self.data.back()@ == apply_all::<B, O>(
                    orig.take(if (i as int) < a {
                        a
                    } else {
                        i as int
                    }),
                    front,
                ),
            decreases n - i,
        {
            let mut op = self.ops.pop_front().unwrap();
            let ghost before = op;
            assert(before == orig[i as int]) by {
                assert(orig.skip(i as int)[0] == orig[i as int]);
            }
            if i >= start {
                proof {
                    lemma_apply_all_take_next::<B, O>(orig, i as int, front);
                }
                op.apply(self.data.back_mut());
            }
            proof {
                assert(forall|b: B::V| #[trigger] op.effect(b) == before.effect(b));
            }
            self.ops.push_back(op);
            proof {
                let d2 = done.push(op);
                assert(orig.take(i as int + 1) =~= orig.take(i as int).push(orig[i as int]));
                assert forall|j: int, b: B::V| 0 <= j < d2.len() implies #[trigger] d2[j].effect(
                    b,
                ) == orig.take(i as int + 1)[j].effect(b) by {
                    if j < i {
                        assert(d2[j] == done[j]);
                        assert(orig.take(i as int + 1)[j] == orig.take(i as int)[j]);
                    }
                }
                assert(self.ops@ =~= orig.skip(i as int + 1) + d2);
                done = d2;
            }
            i = i + 1;
        }
        self.applied = n;
        proof {
            assert(orig.take(n as int) =~= orig);
            assert(orig.skip(n as int) + done =~= done);
            assert(self.ops@.take(n as int) =~= self.ops@);
            assert(self.ops@.skip(n as int) =~= Seq::<O>::empty());
            lemma_same_effects_apply_all::<B, O>(done, orig, front);
            lemma_apply_all_split::<B, O>(orig, a, front);
            assert(orig.take(a).take(a) =~= orig.take(a));
        }
    }
}

} // verus!
