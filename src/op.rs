use vstd::prelude::*;

use std::collections::VecDeque;

use crate::raw::{BufferData, Reader, ReaderGuard};
use crate::strategy::{CaptureError, Strategy};

verus! {

/// A deferred change to a buffer, applied once to each of the two buffers.
///
/// `effect` is what the operation does to a buffer's contents. The first
/// application may change the operation itself, but never its effect, so the
/// second application, which consumes it, does the same to the other buffer.
pub trait Operation<B: View>: Sized {
    spec fn effect(&self, before: B::V) -> B::V;

    fn apply(&mut self, buffer: &mut B)
        ensures
            final(buffer)@ == old(self).effect(old(buffer)@),
            forall|b: B::V| #[trigger] final(self).effect(b) == old(self).effect(b),
    ;

    fn apply_once(self, buffer: &mut B)
        ensures
            final(buffer)@ == self.effect(old(buffer)@),
    ;
}

/// The contents reached from `b` by applying `ops` in order.
pub open spec fn apply_all<B: View, O: Operation<B>>(ops: Seq<O>, b: B::V) -> B::V
    decreases ops.len(),
{
    if ops.len() == 0 {
        b
    } else {
        ops.last().effect(apply_all(ops.drop_last(), b))
    }
}

/// Two sequences of operations with the same effect at each position.
pub open spec fn same_effects<B: View, O: Operation<B>>(s: Seq<O>, t: Seq<O>) -> bool {
    &&& s.len() == t.len()
    &&& forall|i: int, b: B::V| 0 <= i < s.len() ==> #[trigger] s[i].effect(b) == t[i].effect(b)
}

/// Sequences with the same effects at each position have the same overall
/// effect.
pub proof fn lemma_same_effects_apply_all<B: View, O: Operation<B>>(s: Seq<O>, t: Seq<O>, b: B::V)
    requires
        same_effects::<B, O>(s, t),
    ensures
        apply_all::<B, O>(s, b) == apply_all::<B, O>(t, b),
    decreases s.len(),
{
    if s.len() > 0 {
        lemma_same_effects_apply_all::<B, O>(s.drop_last(), t.drop_last(), b);
        assert(s.last().effect(apply_all::<B, O>(s.drop_last(), b)) == t.last().effect(
            apply_all::<B, O>(t.drop_last(), b),
        )) by {
            assert(s[s.len() - 1].effect(apply_all::<B, O>(s.drop_last(), b)) == t[s.len()
                - 1].effect(apply_all::<B, O>(s.drop_last(), b)));
        }
    }
}

/// Applying a prefix and then the rest is applying the whole.
pub proof fn lemma_apply_all_split<B: View, O: Operation<B>>(s: Seq<O>, k: int, b: B::V)
    requires
        0 <= k <= s.len(),
    ensures
        apply_all::<B, O>(s.skip(k), apply_all::<B, O>(s.take(k), b)) == apply_all::<B, O>(s, b),
    decreases s.len(),
{
    if k == s.len() {
        assert(s.take(k) =~= s);
        assert(s.skip(k).len() == 0);
    } else {
        lemma_apply_all_split::<B, O>(s.drop_last(), k, b);
        assert(s.drop_last().take(k) =~= s.take(k));
        assert(s.skip(k).drop_last() =~= s.drop_last().skip(k));
    }
}

/// Applying the first `k + 1` operations is applying the first `k` and then
/// the next one.
pub proof fn lemma_apply_all_take_next<B: View, O: Operation<B>>(s: Seq<O>, k: int, b: B::V)
    requires
        0 <= k < s.len(),
    ensures
        apply_all::<B, O>(s.take(k + 1), b) == s[k].effect(apply_all::<B, O>(s.take(k), b)),
{
    assert(s.take(k + 1).drop_last() =~= s.take(k));
}

/// A writer that applies each operation to the back buffer at once and logs
/// it; a flush publishes the back buffer and replays the log onto the buffer
/// that readers have just left, after which both hold the same contents.
pub struct Writer<B: View, S: Strategy, O: Operation<B>> {
    data: BufferData<B, S>,
    ops: VecDeque<O>,
}

impl<B: View, S: Strategy, O: Operation<B>> Writer<B, S, O> {
    /// The shared cell.
    pub closed spec fn data(&self) -> BufferData<B, S> {
        self.data
    }

    /// The logged operations: applied to the back buffer, not yet to the front.
    pub closed spec fn ops(&self) -> Seq<O> {
        self.ops@
    }

    /// Whether a flush has published the back buffer and is still waiting
    /// for readers to leave the old front before it replays the log there.
    pub open spec fn flushing(&self) -> bool {
        self.data().swapping()
    }

    /// The contents readers see once the writer's changes are published.
    pub open spec fn pending_view(&self) -> B::V {
        if self.flushing() {
            self.data().front()@
        } else {
            self.data().back()@
        }
    }

    pub open spec fn wf(&self) -> bool {
        &&& self.data().wf()
        &&& self.data().writer_alive()
        &&& !self.flushing() ==> self.data().back()@ == apply_all::<B, O>(
            self.ops(),
            self.data().front()@,
        )
        &&& self.flushing() ==> self.data().front()@ == apply_all::<B, O>(
            self.ops(),
            self.data().back()@,
        )
    }

    /// A writer over `data`, whose two buffers must hold the same contents.
    pub fn from_data(data: BufferData<B, S>) -> (r: Self)
        requires
            data.wf(),
            data.writer_alive(),
            !data.swapping(),
            data.front()@ == data.back()@,
        ensures
            r.wf(),
            r.data() == data,
            r.ops().len() == 0,
    {
        Writer { data, ops: VecDeque::new() }
    }

    pub fn is_flushing(&self) -> (r: bool)
        ensures
            r == self.flushing(),
    {
        self.data.is_swapping()
    }

    /// Issues a reader handle.
    pub fn reader(&mut self) -> (r: Reader<S>)
        requires
            old(self).wf(),
        ensures
            final(self).wf(),
            final(self).ops() == old(self).ops(),
            final(self).data().front() == old(self).data().front(),
            final(self).flushing() == old(self).flushing(),
            final(self).pending_view() == old(self).pending_view(),
            final(self).data().open_guards() == old(self).data().open_guards(),
            final(self).data().idle(r.tag()),
            old(self).data().keeps_idle(final(self).data()),
    {
        self.data.reader()
    }

    /// The front buffer, as the writer sees it.
    pub fn read(&self) -> (r: &B)
        ensures
            *r == self.data().front(),
    {
        self.data.read()
    }

    /// Opens a read for `reader` on the front buffer.
    pub fn get(&mut self, reader: &mut Reader<S>) -> (g: ReaderGuard<S>)
        requires
            old(self).wf(),
            old(self).data().ready(*old(reader)),
        ensures
            final(self).wf(),
            final(self).ops() == old(self).ops(),
            final(self).data().front() == old(self).data().front(),
            final(self).data().back() == old(self).data().back(),
            final(self).data().front_index() == old(self).data().front_index(),
            final(self).flushing() == old(self).flushing(),
            *final(reader) == *old(reader),
            g.index() == old(self).data().front_index(),
            final(self).data().is_open(g),
            final(self).data().open_guards() == old(self).data().open_guards().push(
                (g.raw(), g.index()),
            ),
            final(self).data().idle_but(old(reader).tag(), (g.raw(), g.index())),
            forall|t: S::ReaderTag| #[trigger]
                old(self).data().idle(t) && t != old(reader).tag() ==> final(self).data().idle(t),
    {
        match self.data.try_get(reader) {
            Ok(g) => g,
            Err(_) => vstd::pervasive::unreached(),
        }
    }

    /// The buffer an open read sees.
    pub fn guard_value(&self, guard: &ReaderGuard<S>) -> (r: &B)
        ensures
            *r == self.data().buffer(guard.index()),
    {
        self.data.guard_value(guard)
    }

    /// Closes one of the cell's open reads.
    pub fn release(&mut self, guard: ReaderGuard<S>)
        requires
            old(self).wf(),
            old(self).data().is_open(guard),
        ensures
            final(self).wf(),
            final(self).ops() == old(self).ops(),
            final(self).data().front() == old(self).data().front(),
            final(self).data().back() == old(self).data().back(),
            final(self).data().front_index() == old(self).data().front_index(),
            final(self).flushing() == old(self).flushing(),
            final(self).data().open_guards().len() == old(self).data().open_guards().len() - 1,
            old(self).data().keeps_idle(final(self).data()),
            forall|t: S::ReaderTag| #[trigger]
                old(self).data().idle_but(t, (guard.raw(), guard.index())) ==> final(self).data().idle(t),
    {
        self.data.release(guard)
    }

    /// Drops the writer, handing back the cell: its readers are dangling.
    pub fn into_data(self) -> (r: BufferData<B, S>)
        requires
            self.wf(),
        ensures
            r.wf(),
            !r.writer_alive(),
            r.front() == self.data().front(),
            r.back() == self.data().back(),
    {
        let mut data = self.data;
        data.drop_writer();
        data
    }

    /// The logged operations.
    pub fn operations(&self) -> (r: &VecDeque<O>)
        ensures
            r@ == self.ops(),
    {
        &self.ops
    }

    /// Applies `op` to the back buffer and logs it for the replay.
    pub fn apply(&mut self, op: O)
        requires
            old(self).wf(),
            !old(self).flushing(),
        ensures
            final(self).wf(),
            !final(self).flushing(),
            final(self).data().front() == old(self).data().front(),
            final(self).pending_view() == op.effect(old(self).pending_view()),
            final(self).ops().len() == old(self).ops().len() + 1,
            final(self).ops().drop_last() == old(self).ops(),
            forall|b: B::V| #[trigger] final(self).ops().last().effect(b) == op.effect(b),
            final(self).data().strategy() == old(self).data().strategy(),
            final(self).data().open_guards() == old(self).data().open_guards(),
    {
        let mut op = op;
        let ghost old_ops = self.ops@;
        let ghost front = self.data.front()@;
        op.apply(self.data.back_mut());
        self.ops.push_back(op);
        proof {
            assert(self.ops@.drop_last() =~= old_ops);
            lemma_same_effects_apply_all::<B, O>(self.ops@.drop_last(), old_ops, front);
        }
    }

    /// Applies each of `ops`, in order, as `apply` does.
    pub fn apply_all(&mut self, ops: VecDeque<O>)
        requires
            old(self).wf(),
            !old(self).flushing(),
        ensures
            final(self).wf(),
            !final(self).flushing(),
            final(self).data().front() == old(self).data().front(),
            final(self).pending_view() == apply_all::<B, O>(ops@, old(self).pending_view()),
            same_effects::<B, O>(final(self).ops(), old(self).ops() + ops@),
            final(self).data().strategy() == old(self).data().strategy(),
            final(self).data().open_guards() == old(self).data().open_guards(),
    {
        let mut ops = ops;
        let ghost orig = ops@;
        assert(self.ops@ + orig.take(0) =~= self.ops@);
        let ghost start = self.pending_view();
        let n = ops.len();
        let mut k: usize = 0;
        while k < n
            invariant
                self.wf(),
                !self.flushing(),
                self.data().front() == old(self).data().front(),
                n == orig.len(),
                k <= n,
                ops@ == orig.skip(k as int),
                self.pending_view() == apply_all::<B, O>(orig.take(k as int), start),
                same_effects::<B, O>(self.ops@, old(self).ops@ + orig.take(k as int)),
                self.data.strategy() == old(self).data.strategy(),
                self.data.open_guards() == old(self).data.open_guards(),
            decreases n - k,
        {
            proof {
                lemma_apply_all_take_next::<B, O>(orig, k as int, start);
            }
            let op = ops.pop_front().unwrap();
            assert(op == orig[k as int]) by {
                assert(orig.skip(k as int)[0] == orig[k as int]);
            }
            let ghost before = self.ops@;
            self.apply(op);
            proof {
                let want = old(self).ops@ + orig.take(k + 1);
                assert(want =~= (old(self).ops@ + orig.take(k as int)).push(orig[k as int]));
                assert forall|i: int, b: B::V| 0 <= i < self.ops@.len() implies #[trigger] self.ops@[i].effect(b) == want[i].effect(b) by {
                    if i < before.len() {
                        assert(self.ops@[i] == before[i]);
                    }
                }
            }
            assert(ops@ =~= orig.skip(k + 1));
            k = k + 1;
        }
        proof {
            assert(orig.take(n as int) =~= orig);
        }
    }

    /// Publishes the back buffer and, once no reader is left on the old
    /// front, replays the log there. Returns `Ok(true)` once both buffers
    /// hold every logged change, `Ok(false)` while readers still hold the old
    /// front (call again to carry the flush on), and the strategy's refusal,
    /// with the buffers and the log unchanged, when it does not let the writer swap.
    pub fn flush(&mut self) -> (r: Result<bool, CaptureError>)
        requires
            old(self).wf(),
        ensures
            final(self).wf(),
            final(self).pending_view() == old(self).pending_view(),
            r is Err ==> *final(self) == *old(self),
            !old(self).flushing() && old(self).ops().len() == 0 ==> *final(self) == *old(self),
            r matches Ok(done) ==> (done <==> !final(self).flushing()),
            old(self).data().open_guards().len() == 0 ==> r == Ok::<bool, CaptureError>(true),
            old(self).flushing() && (forall|g: S::RawGuard| !#[trigger] old(self).data().strategy().waits_on(
                old(self).data().pending_capture(),
                g,
            )) ==> r == Ok::<bool, CaptureError>(true),
            final(self).data().open_guards() == old(self).data().open_guards(),
            old(self).data().keeps_idle(final(self).data()),
            r is Err <==> !old(self).flushing() && old(self).ops().len() > 0 && !old(self).data().strategy().allows_swap(),
            !old(self).flushing() && old(self).ops().len() == 0 ==> r == Ok::<bool, CaptureError>(
                true,
            ),
            r == Ok::<bool, CaptureError>(true) ==> {
                &&& final(self).data().front()@ == old(self).pending_view()
                &&& final(self).data().back()@ == old(self).pending_view()
                &&& final(self).ops().len() == 0
            },
    {
        if !self.data.is_swapping() {
            if self.ops.len() == 0 {
                return Ok(true);
            }
            match self.data.start_buffer_swap() {
                Ok(()) => {},
                Err(e) => {
                    return Err(e);
                },
            }
        }
        if !self.data.is_swap_completed() {
            return Ok(false);
        }
        let ghost orig = self.ops@;
        let ghost start = self.data.back()@;
        let n = self.ops.len();
        let mut k: usize = 0;
        while k < n
            invariant
                self.data.wf(),
                self.data.writer_alive(),
                !self.data.swapping(),
                n == orig.len(),
                k <= n,
                self.ops@ == orig.skip(k as int),
                self.data.front()@ == apply_all::<B, O>(orig, start),
                self.data.back()@ == apply_all::<B, O>(orig.take(k as int), start),
                self.data.open_guards() == old(self).data.open_guards(),
                old(self).data.keeps_idle(self.data),
            decreases n - k,
        {
            proof {
                lemma_apply_all_take_next::<B, O>(orig, k as int, start);
            }
            let op = self.ops.pop_front().unwrap();
            op.apply_once(self.data.back_mut());
            assert(self.ops@ =~= orig.skip(k + 1));
            k = k + 1;
        }
        proof {
            assert(orig.take(n as int) =~= orig);
        }
        Ok(true)
    }
}

} // verus!
