use vstd::prelude::*;

use crate::active_list::{active_entries, ActiveList};
use crate::strategy::{CaptureError, Strategy};

verus! {

/// Reader tracking through a per-reader epoch. A reader bumps its epoch on
/// entering and again on leaving a read region, so an odd epoch means
/// "reading". A capture records the readers that are reading together with
/// their epochs; it is complete once each of them has moved to another epoch.
/// A retired reader can open no new guard; one it still holds keeps the
/// writer waiting until it is closed.
pub struct SyncStrategy {
    slots: Vec<(u32, bool)>,
}

/// A registered reader: its slot in the strategy.
pub struct ReaderTag {
    slot: usize,
}

pub struct WriterTag;

/// The open guard of the reader in `slot`.
pub struct RawGuard {
    slot: usize,
}

/// The readers, with their epochs, that the writer still waits on.
pub struct Capture {
    active: ActiveList,
}

/// The epoch after one bump, wrapping; the wrap keeps the parity.
pub open spec fn bumped(e: u32) -> u32 {
    if e == u32::MAX {
        0
    } else {
        (e + 1) as u32
    }
}

/// Whether a reader with epoch `e` is inside a read region.
pub open spec fn is_reading(e: u32) -> bool {
    e % 2 == 1
}

/// The readers among the first `n` slots that are reading, each with its
/// epoch, in slot order.
pub open spec fn reading_among(epochs: Seq<u32>, n: nat) -> Seq<(usize, u32)>
    decreases n,
{
    if n == 0 {
        Seq::empty()
    } else {
        let prev = reading_among(epochs, (n - 1) as nat);
        let i = n - 1;
        if is_reading(epochs[i]) {
            prev.push((i as usize, epochs[i]))
        } else {
            prev
        }
    }
}

/// Whether the captured pair `e` still holds the writer back: its reader is
/// still reading, in the epoch that the capture saw.
pub open spec fn blocks(epochs: Seq<u32>, e: (usize, u32)) -> bool {
    e.0 < epochs.len() && epochs[e.0 as int] == e.1 && is_reading(e.1)
}

/// The pairs among the first `n` of `entries` that still hold the writer back.
pub open spec fn blocking_among(entries: Seq<(usize, u32)>, epochs: Seq<u32>, n: nat) -> Seq<
    (usize, u32),
>
    decreases n,
{
    if n == 0 {
        Seq::empty()
    } else {
        let prev = blocking_among(entries, epochs, (n - 1) as nat);
        if blocks(epochs, entries[n - 1]) {
            prev.push(entries[n - 1])
        } else {
            prev
        }
    }
}

proof fn lemma_reading_among(epochs: Seq<u32>, n: nat)
    requires
        n <= epochs.len(),
    ensures
        reading_among(epochs, n).len() <= n,
        forall|s: int|
            0 <= s < n && is_reading(epochs[s]) ==> #[trigger] reading_among(epochs, n).contains(
                (s as usize, epochs[s]),
            ),
    decreases n,
{
    if n > 0 {
        lemma_reading_among(epochs, (n - 1) as nat);
        let prev = reading_among(epochs, (n - 1) as nat);
        assert forall|s: int| 0 <= s < n && is_reading(epochs[s]) implies #[trigger] reading_among(
            epochs,
            n,
        ).contains((s as usize, epochs[s])) by {
            if s < n - 1 {
                assert(prev.contains((s as usize, epochs[s])));
                let k = choose|k: int| 0 <= k < prev.len() && prev[k] == (s as usize, epochs[s]);
                if is_reading(epochs[n - 1]) {
                    assert(reading_among(epochs, n)[k] == prev[k]);
                }
            } else {
                assert(reading_among(epochs, n).last() == (s as usize, epochs[s]));
            }
        }
    }
}

proof fn lemma_blocking_among(entries: Seq<(usize, u32)>, epochs: Seq<u32>, n: nat)
    requires
        n <= entries.len(),
    ensures
        blocking_among(entries, epochs, n).len() <= n,
        forall|e: (usize, u32)|
            entries.take(n as int).contains(e) && blocks(epochs, e) ==> #[trigger] blocking_among(
                entries,
                epochs,
                n,
            ).contains(e),
    decreases n,
{
    if n > 0 {
        lemma_blocking_among(entries, epochs, (n - 1) as nat);
        let prev = blocking_among(entries, epochs, (n - 1) as nat);
        let cur = blocking_among(entries, epochs, n);
        assert forall|e: (usize, u32)|
            entries.take(n as int).contains(e) && blocks(
                epochs,
                e,
            ) implies #[trigger] cur.contains(e) by {
            let k = choose|k: int| 0 <= k < n && entries.take(n as int)[k] == e;
            if k < n - 1 {
                assert(entries.take(n - 1)[k] == e);
                assert(entries.take(n - 1).contains(e));
                assert(prev.contains(e));
                let j = choose|j: int| 0 <= j < prev.len() && prev[j] == e;
                if blocks(epochs, entries[n - 1]) {
                    assert(cur[j] == prev[j]);
                }
            } else {
                assert(cur.last() == e);
            }
        }
    }
}

proof fn lemma_none_blocking(entries: Seq<(usize, u32)>, epochs: Seq<u32>, n: nat)
    requires
        n <= entries.len(),
        forall|k: int| 0 <= k < n ==> !blocks(epochs, #[trigger] entries[k]),
    ensures
        blocking_among(entries, epochs, n).len() == 0,
    decreases n,
{
    if n > 0 {
        lemma_none_blocking(entries, epochs, (n - 1) as nat);
        assert(!blocks(epochs, entries[n - 1]));
    }
}

impl ReaderTag {
    pub closed spec fn slot(&self) -> usize {
        self.slot
    }
}

impl RawGuard {
    pub closed spec fn slot(&self) -> usize {
        self.slot
    }
}

impl Capture {
    /// The (slot, epoch) pairs the capture still waits on.
    pub closed spec fn waiting(&self) -> Seq<(usize, u32)> {
        active_entries(self.active)
    }
}

impl SyncStrategy {
    /// Each reader slot's epoch.
    pub closed spec fn epochs(&self) -> Seq<u32> {
        self.slots@.map_values(|p: (u32, bool)| p.0)
    }

    /// Whether each reader slot still has its reader.
    pub closed spec fn alive(&self) -> Seq<bool> {
        self.slots@.map_values(|p: (u32, bool)| p.1)
    }

    /// Whether `slot` holds a reader that has not been retired.
    pub open spec fn live_slot(&self, slot: usize) -> bool {
        slot < self.epochs().len() && self.alive()[slot as int]
    }

    /// Whether some open guard belongs to `slot`.
    pub open spec fn held(open: Seq<RawGuard>, slot: int) -> bool {
        exists|i: int| 0 <= i < open.len() && open[i].slot() == slot
    }

    pub fn new() -> (r: Self)
        ensures
            r.epochs().len() == 0,
            r.tracks(Seq::empty()),
    {
        let r = SyncStrategy { slots: Vec::new() };
        proof {
            assert(r.epochs() =~= Seq::<u32>::empty());
        }
        r
    }

    /// Retired slots, not reading, can be given to a new reader.
    fn free_slot(&self) -> (r: Option<usize>)
        ensures
            r matches Some(s) ==> s < self.epochs().len() && !self.alive()[s as int]
                && !is_reading(self.epochs()[s as int]),
    {
        let n = self.slots.len();
        let mut i: usize = 0;
        while i < n
            invariant
                n == self.slots@.len(),
                i <= n,
            decreases n - i,
        {
            let (e, alive) = self.slots[i];
            if !alive && e % 2 == 0 {
                return Some(i);
            }
            i = i + 1;
        }
        None
    }

    fn bump(&mut self, slot: usize)
        requires
            slot < old(self).epochs().len(),
        ensures
            final(self).alive() == old(self).alive(),
            final(self).epochs() == old(self).epochs().update(
                slot as int,
                bumped(old(self).epochs()[slot as int]),
            ),
    {
        let (e, alive) = self.slots[slot];
        self.slots.set(slot, (e.wrapping_add(1), alive));
        proof {
            assert(self.epochs() =~= old(self).epochs().update(slot as int, bumped(old(self).epochs()[slot as int])));
            assert(self.alive() =~= old(self).alive());
        }
    }

    fn set_alive(&mut self, slot: usize, alive: bool)
        requires
            slot < old(self).epochs().len(),
        ensures
            final(self).epochs() == old(self).epochs(),
            final(self).alive() == old(self).alive().update(slot as int, alive),
    {
        let (e, _) = self.slots[slot];
        self.slots.set(slot, (e, alive));
        proof {
            assert(self.epochs() =~= old(self).epochs());
            assert(self.alive() =~= old(self).alive().update(slot as int, alive));
        }
    }
}

impl Strategy for SyncStrategy {
    type ReaderTag = ReaderTag;
    type WriterTag = WriterTag;
    type Capture = Capture;
    type RawGuard = RawGuard;

    /// Each open guard belongs to its own slot, whose reader is reading; and
    /// each reading slot has its open guard.
    open spec fn tracks(&self, open: Seq<RawGuard>) -> bool {
        &&& forall|i: int|
            0 <= i < open.len() ==> #[trigger] open[i].slot() < self.epochs().len() && is_reading(
                self.epochs()[open[i].slot() as int],
            )
        &&& forall|i: int, j: int|
            0 <= i < open.len() && 0 <= j < open.len() && i != j ==> #[trigger] open[i].slot()
                != #[trigger] open[j].slot()
        &&& forall|s: int|
            0 <= s < self.epochs().len() && is_reading(#[trigger] self.epochs()[s])
                ==> Self::held(open, s)
    }

    /// The capture still lists the guard's reader in its current epoch.
    open spec fn waits_on(&self, capture: Capture, guard: RawGuard) -> bool {
        &&& guard.slot() < self.epochs().len()
        &&& capture.waiting().contains((guard.slot(), self.epochs()[guard.slot() as int]))
    }

    open spec fn valid_tag(&self, tag: ReaderTag) -> bool {
        self.live_slot(tag.slot())
    }

    open spec fn owns(tag: ReaderTag, guard: RawGuard) -> bool {
        tag.slot() == guard.slot()
    }

    open spec fn capacity() -> nat {
        usize::MAX as nat
    }

    /// A live reader that is not already reading.
    open spec fn admits(&self, tag: ReaderTag) -> bool {
        self.live_slot(tag.slot()) && !is_reading(self.epochs()[tag.slot() as int])
    }

    open spec fn allows_swap(&self) -> bool {
        true
    }

    proof fn lemma_capacity() {
    }

    proof fn lemma_admits(&self, open: Seq<RawGuard>, tag: ReaderTag) {
        let s = tag.slot() as int;
        if is_reading(self.epochs()[s]) {
            assert(Self::held(open, s));
            let i = choose|i: int| 0 <= i < open.len() && open[i].slot() == s;
            assert(!Self::owns(tag, open[i]));
        }
    }

    proof fn lemma_one_guard_per_reader(&self, open: Seq<RawGuard>, tag: ReaderTag, i: int, j: int) {
        if i != j {
            assert(open[i].slot() != open[j].slot());
        }
    }

    fn fresh() -> (r: Self) {
        SyncStrategy::new()
    }

    /// Gives the new reader a retired slot that is not reading, or else the
    /// next slot, live and not reading.
    fn reader_tag(&mut self) -> (r: ReaderTag) {
        let slot = match self.free_slot() {
            Some(s) => {
                self.set_alive(s, true);
                s
            },
            None => {
                let n = self.slots.len();
                self.slots.push((0, true));
                proof {
                    assert(self.epochs() =~= old(self).epochs().push(0));
                    assert(self.alive() =~= old(self).alive().push(true));
                }
                n
            },
        };
        let r = ReaderTag { slot };
        proof {
            assert forall|t: ReaderTag| #[trigger] old(self).valid_tag(t) implies self.valid_tag(t) by {
                assert(t.slot() != slot);
            }
            assert forall|open: Seq<RawGuard>| #[trigger] old(self).tracks(open) implies {
                &&& self.tracks(open)
                &&& forall|i: int| 0 <= i < open.len() ==> !Self::owns(r, #[trigger] open[i])
                &&& forall|c: Capture, j: int|
                    0 <= j < open.len() && old(self).waits_on(c, open[j])
                        ==> #[trigger] self.waits_on(c, open[j])
            } by {
                assert forall|i: int| 0 <= i < open.len() implies #[trigger] open[i].slot()
                    < self.epochs().len() && is_reading(self.epochs()[open[i].slot() as int]) by {
                    assert(old(self).epochs()[open[i].slot() as int] == self.epochs()[open[i].slot() as int]);
                }
                assert forall|s: int|
                    0 <= s < self.epochs().len() && is_reading(#[trigger] self.epochs()[s])
                    implies Self::held(open, s) by {
                    assert(s < old(self).epochs().len());
                    assert(old(self).epochs()[s] == self.epochs()[s]);
                }
                assert forall|i: int| 0 <= i < open.len() implies !Self::owns(r, #[trigger] open[i]) by {
                    assert(is_reading(old(self).epochs()[open[i].slot() as int]));
                }
                assert forall|c: Capture, j: int|
                    0 <= j < open.len() && old(self).waits_on(c, open[j])
                    implies #[trigger] self.waits_on(c, open[j]) by {
                    assert(old(self).epochs()[open[j].slot() as int] == self.epochs()[open[j].slot() as int]);
                }
            }
        }
        r
    }

    /// Retires a reader: it can open no further guard.
    fn retire_reader(&mut self, tag: ReaderTag)
        ensures
            final(self).epochs() == old(self).epochs(),
            final(self).alive() == if tag.slot() < old(self).alive().len() {
                old(self).alive().update(tag.slot() as int, false)
            } else {
                old(self).alive()
            },
    {
        if tag.slot < self.slots.len() {
            self.set_alive(tag.slot, false);
        }
        proof {
            assert forall|t: ReaderTag| #[trigger] old(self).valid_tag(t) && t != tag implies self.valid_tag(t) by {
                assert(t.slot() != tag.slot());
            }
        }
    }

    fn writer_tag(&mut self) -> (r: WriterTag) {
        WriterTag
    }

    /// Records every reader whose epoch is odd, with that epoch.
    fn try_capture_readers(&mut self, tag: &mut WriterTag) -> (r: Result<Capture, CaptureError>)
        ensures
            *final(self) == *old(self),
            r matches Ok(c) ==> c.waiting() == reading_among(
                old(self).epochs(),
                old(self).epochs().len(),
            ),
    {
        let mut active = ActiveList::new();
        let n = self.slots.len();
        let mut i: usize = 0;
        while i < n
            invariant
                n == self.epochs().len(),
                i <= n,
                active_entries(active) == reading_among(self.epochs(), i as nat),
            decreases n - i,
        {
            proof {
                lemma_reading_among(self.epochs(), i as nat);
            }
            let (e, _) = self.slots[i];
            assert(e == self.epochs()[i as int]);
            if e % 2 == 1 {
                active.push((i, e));
            }
            i = i + 1;
        }
        let c = Capture { active };
        proof {
            lemma_reading_among(self.epochs(), n as nat);
            assert forall|open: Seq<RawGuard>| #[trigger] old(self).tracks(open) implies forall|i: int|
                0 <= i < open.len() ==> #[trigger] self.waits_on(c, open[i]) by {
                assert forall|i: int| 0 <= i < open.len() implies #[trigger] self.waits_on(
                    c,
                    open[i],
                ) by {
                    let s = open[i].slot() as int;
                    assert(is_reading(self.epochs()[s]));
                    assert(reading_among(self.epochs(), n as nat).contains(
                        (s as usize, self.epochs()[s]),
                    ));
                }
            }
        }
        Ok(c)
    }

    /// Drops the captured readers that have moved on, and reports whether
    /// none is left.
    fn is_capture_complete(&self, capture: &mut Capture) -> (r: bool)
        ensures
            final(capture).waiting() == blocking_among(
                old(capture).waiting(),
                self.epochs(),
                old(capture).waiting().len(),
            ),
            r == (final(capture).waiting().len() == 0),
    {
        let old_entries = Ghost(active_entries(capture.active));
        let mut kept = ActiveList::new();
        let n = capture.active.len();
        let mut i: usize = 0;
        while i < n
            invariant
                active_entries(capture.active) == old_entries@,
                n == old_entries@.len(),
                i <= n,
                active_entries(kept) == blocking_among(old_entries@, self.epochs(), i as nat),
            decreases n - i,
        {
            proof {
                lemma_blocking_among(old_entries@, self.epochs(), i as nat);
            }
            let e = capture.active.get(i);
            if e.0 < self.slots.len() && self.slots[e.0].0 == e.1 && e.1 % 2 == 1 {
                assert(self.epochs()[e.0 as int] == e.1);
                kept.push(e);
            } else {
                assert(e.0 < self.slots.len() ==> self.epochs()[e.0 as int] == self.slots@[e.0 as int].0);
            }
            i = i + 1;
        }
        capture.active = kept;
        proof {
            lemma_blocking_among(old_entries@, self.epochs(), n as nat);
            assert(old_entries@.take(n as int) =~= old_entries@);
            let nb = forall|k: int| 0 <= k < n ==> !blocks(self.epochs(), #[trigger] old_entries@[k]);
            if !nb {
                let k = choose|k: int| 0 <= k < n && blocks(self.epochs(), #[trigger] old_entries@[k]);
                let e = old_entries@[k];
                let g = RawGuard { slot: e.0 };
                assert(old_entries@.contains(e));
                assert(self.waits_on(*old(capture), g));
                assert(self.tracks(Seq::empty()) ==> Self::held(Seq::empty(), e.0 as int));
            } else {
                lemma_none_blocking(old_entries@, self.epochs(), n as nat);
            }
        }
        capture.active.len() == 0
    }

    /// Moves a live, not reading reader to its next (odd) epoch.
    fn begin_guard(&mut self, tag: &mut ReaderTag) -> (g: RawGuard)
        ensures
            final(self).alive() == old(self).alive(),
            g.slot() == old(tag).slot(),
            final(self).epochs() == old(self).epochs().update(
                old(tag).slot() as int,
                bumped(old(self).epochs()[old(tag).slot() as int]),
            ),
    {
        let slot = tag.slot;
        self.bump(slot);
        let g = RawGuard { slot };
        proof {
            assert forall|t: ReaderTag| #[trigger] Self::owns(t, g) implies t == *old(tag) by {
                assert(t.slot() == old(tag).slot());
            }
            assert forall|open: Seq<RawGuard>| #[trigger] old(self).tracks(open) implies {
                &&& self.tracks(open.push(g))
                &&& forall|c: Capture, j: int|
                    0 <= j < open.len() && old(self).waits_on(c, open[j])
                        ==> #[trigger] self.waits_on(c, open[j])
            } by {
                let o2 = open.push(g);
                assert forall|i: int| 0 <= i < open.len() implies #[trigger] open[i].slot()
                    != slot by {
                    assert(is_reading(old(self).epochs()[open[i].slot() as int]));
                }
                assert forall|i: int| 0 <= i < o2.len() implies #[trigger] o2[i].slot()
                    < self.epochs().len() && is_reading(self.epochs()[o2[i].slot() as int]) by {
                    if i < open.len() {
                        assert(o2[i] == open[i]);
                        assert(open[i].slot() != slot);
                    }
                }
                assert forall|i: int, j: int|
                    0 <= i < o2.len() && 0 <= j < o2.len() && i != j implies #[trigger] o2[i].slot()
                    != #[trigger] o2[j].slot() by {
                    if i < open.len() {
                        assert(open[i].slot() != slot);
                    }
                    if j < open.len() {
                        assert(open[j].slot() != slot);
                    }
                }
                assert forall|s: int|
                    0 <= s < self.epochs().len() && is_reading(#[trigger] self.epochs()[s])
                    implies Self::held(o2, s) by {
                    if s == slot as int {
                        assert(o2[open.len() as int].slot() == s);
                    } else {
                        assert(old(self).epochs()[s] == self.epochs()[s]);
                        assert(Self::held(open, s));
                        let i = choose|i: int| 0 <= i < open.len() && open[i].slot() == s;
                        assert(o2[i] == open[i]);
                    }
                }
                assert forall|c: Capture, i: int|
                    0 <= i < open.len() && old(self).waits_on(c, open[i]) implies #[trigger] self.waits_on(c, open[i]) by {
                    assert(open[i].slot() != slot);
                }
            }
        }
        g
    }

    /// Moves the guard's reader to its next (even) epoch.
    fn end_guard(&mut self, guard: RawGuard)
        ensures
            final(self).alive() == old(self).alive(),
            final(self).epochs() == if guard.slot() < old(self).epochs().len() {
                old(self).epochs().update(
                    guard.slot() as int,
                    bumped(old(self).epochs()[guard.slot() as int]),
                )
            } else {
                old(self).epochs()
            },
    {
        let slot = guard.slot;
        if slot < self.slots.len() {
            self.bump(slot);
        }
        proof {
            assert forall|open: Seq<RawGuard>, i: int|
                #![trigger old(self).tracks(open), open[i]]
                old(self).tracks(open) && 0 <= i < open.len() && open[i] == guard implies {
                &&& self.tracks(open.remove(i))
                &&& forall|c: Capture, j: int|
                    0 <= j < open.remove(i).len() && old(self).waits_on(c, open.remove(i)[j])
                        ==> #[trigger] self.waits_on(c, open.remove(i)[j])
            } by {
                let o2 = open.remove(i);
                assert forall|j: int| 0 <= j < o2.len() implies #[trigger] o2[j].slot() != slot by {
                    if j < i {
                        assert(o2[j] == open[j]);
                        assert(open[j].slot() != open[i].slot());
                    } else {
                        assert(o2[j] == open[j + 1]);
                        assert(open[j + 1].slot() != open[i].slot());
                    }
                }
                assert forall|j: int| 0 <= j < o2.len() implies #[trigger] o2[j].slot()
                    < self.epochs().len() && is_reading(self.epochs()[o2[j].slot() as int]) by {
                    assert(o2[j].slot() != slot);
                    if j < i {
                        assert(o2[j] == open[j]);
                    } else {
                        assert(o2[j] == open[j + 1]);
                    }
                }
                assert forall|j: int, k: int|
                    0 <= j < o2.len() && 0 <= k < o2.len() && j != k implies #[trigger] o2[j].slot()
                    != #[trigger] o2[k].slot() by {
                    let jj = if j < i { j } else { j + 1 };
                    let kk = if k < i { k } else { k + 1 };
                    assert(o2[j] == open[jj]);
                    assert(o2[k] == open[kk]);
                }
                assert forall|s: int|
                    0 <= s < self.epochs().len() && is_reading(#[trigger] self.epochs()[s])
                    implies Self::held(o2, s) by {
                    assert(open[i].slot() < old(self).epochs().len());
                    assert(is_reading(old(self).epochs()[slot as int]));
                    assert(s != slot as int);
                    assert(old(self).epochs()[s] == self.epochs()[s]);
                    assert(Self::held(open, s));
                    let k = choose|k: int| 0 <= k < open.len() && open[k].slot() == s;
                    assert(k != i);
                    if k < i {
                        assert(o2[k] == open[k]);
                    } else {
                        assert(o2[k - 1] == open[k]);
                    }
                }
                assert forall|c: Capture, j: int|
                    0 <= j < o2.len() && old(self).waits_on(c, o2[j]) implies #[trigger] self.waits_on(c, o2[j]) by {
                    assert(o2[j].slot() != slot);
                }
            }
        }
    }
}

} // verus!
