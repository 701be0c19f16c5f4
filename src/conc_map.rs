use vstd::prelude::*;

use std::collections::{BTreeMap, HashMap};

use crate::op::{Operation, Writer};
use crate::raw::{BufferData, Reader, ReaderGuard};
use crate::strategy::{CaptureError, Strategy};

verus! {

broadcast use {
    vstd::std_specs::hash::group_hash_axioms,
    vstd::std_specs::btree::group_btree_axioms,
};

/// A map keyed by `u64` that can serve as one buffer of a concurrent map.
/// Its contents are its view.
pub trait RawMap<V>: Sized + View<V = Map<u64, V>> {
    /// Two empty maps.
    fn new_pair() -> (r: (Self, Self))
        ensures
            r.0@ == Map::<u64, V>::empty(),
            r.1@ == Map::<u64, V>::empty(),
    ;

    fn len(&self) -> (r: usize)
        ensures
            r == self@.len(),
    ;

    fn is_empty(&self) -> (r: bool)
        ensures
            r == (self@.len() == 0),
    ;

    fn clear(&mut self)
        ensures
            final(self)@ == Map::<u64, V>::empty(),
    ;

    fn insert(&mut self, key: u64, value: V)
        ensures
            final(self)@ == old(self)@.insert(key, value),
    ;

    /// A hint that `additional` more entries are coming.
    fn reserve(&mut self, additional: usize)
        ensures
            final(self)@ == old(self)@,
    ;

    fn remove(&mut self, key: &u64)
        ensures
            final(self)@ == old(self)@.remove(*key),
    ;
}

/// A map that can start out with room for `cap` entries.
pub trait RawMapWithCapacity<V>: RawMap<V> {
    fn with_capacity(cap: usize) -> (r: (Self, Self))
        ensures
            r.0@ == Map::<u64, V>::empty(),
            r.1@ == Map::<u64, V>::empty(),
    ;
}

/// A map whose entries can be looked up.
pub trait RawMapAccess<V>: RawMap<V> {
    fn get(&self, key: &u64) -> (r: Option<&V>)
        ensures
            r is Some <==> self@.contains_key(*key),
            r matches Some(v) ==> *v == self@[*key],
    ;
}

impl<V> RawMap<V> for HashMap<u64, V> {
    fn new_pair() -> (r: (Self, Self)) {
        (HashMap::new(), HashMap::new())
    }

    fn len(&self) -> (r: usize) {
        HashMap::len(self)
    }

    fn is_empty(&self) -> (r: bool) {
        HashMap::is_empty(self)
    }

    fn clear(&mut self) {
        HashMap::clear(self)
    }

    fn insert(&mut self, key: u64, value: V) {
        HashMap::insert(self, key, value);
    }

    fn reserve(&mut self, additional: usize) {
        HashMap::reserve(self, additional)
    }

    fn remove(&mut self, key: &u64) {
        HashMap::remove(self, key);
    }
}

impl<V> RawMapWithCapacity<V> for HashMap<u64, V> {
    fn with_capacity(cap: usize) -> (r: (Self, Self)) {
        (HashMap::with_capacity(cap), HashMap::with_capacity(cap))
    }
}

impl<V> RawMapAccess<V> for HashMap<u64, V> {
    fn get(&self, key: &u64) -> (r: Option<&V>) {
        HashMap::get(self, key)
    }
}

impl<V> RawMap<V> for BTreeMap<u64, V> {
    fn new_pair() -> (r: (Self, Self)) {
        (BTreeMap::new(), BTreeMap::new())
    }

    fn len(&self) -> (r: usize) {
        BTreeMap::len(self)
    }

    fn is_empty(&self) -> (r: bool) {
        BTreeMap::is_empty(self)
    }

    fn clear(&mut self) {
        BTreeMap::clear(self)
    }

    fn insert(&mut self, key: u64, value: V) {
        BTreeMap::insert(self, key, value);
    }

    /// A B-tree allocates node by node: there is nothing to reserve.
    fn reserve(&mut self, additional: usize) {
    }

    fn remove(&mut self, key: &u64) {
        BTreeMap::remove(self, key);
    }
}

impl<V> RawMapAccess<V> for BTreeMap<u64, V> {
    fn get(&self, key: &u64) -> (r: Option<&V>) {
        BTreeMap::get(self, key)
    }
}

} // verus!

verus! {

/// A change to a map, logged for both buffers.
#[derive(Debug, PartialEq, Eq)]
pub enum MapOps<V> {
    Insert(u64, V),
    Remove(u64),
    Clear,
    Reserve(usize),
}

/// What `op` does to a map's entries.
pub open spec fn map_effect<V>(op: MapOps<V>, m: Map<u64, V>) -> Map<u64, V> {
    match op {
        MapOps::Insert(k, v) => m.insert(k, v),
        MapOps::Remove(k) => m.remove(k),
        MapOps::Clear => Map::empty(),
        MapOps::Reserve(_) => m,
    }
}

/// The value under `key`, if any.
pub open spec fn lookup<V>(m: Map<u64, V>, key: u64) -> Option<V> {
    if m.contains_key(key) {
        Some(m[key])
    } else {
        None
    }
}

impl<V: Copy, M: RawMap<V>> Operation<M> for MapOps<V> {
    open spec fn effect(&self, before: Map<u64, V>) -> Map<u64, V> {
        map_effect(*self, before)
    }

    /// The first application copies the key and value into the map.
    fn apply(&mut self, map: &mut M) {
        match self {
            MapOps::Insert(k, v) => map.insert(*k, *v),
            MapOps::Remove(k) => map.remove(k),
            MapOps::Clear => map.clear(),
            MapOps::Reserve(n) => map.reserve(*n),
        }
    }

    /// The second application moves them.
    fn apply_once(self, map: &mut M) {
        match self {
            MapOps::Insert(k, v) => map.insert(k, v),
            MapOps::Remove(k) => map.remove(&k),
            MapOps::Clear => map.clear(),
            MapOps::Reserve(n) => map.reserve(n),
        }
    }
}

/// The writing half of a concurrent map: changes go to the back buffer and
/// reach readers on `flush`.
pub struct WriteMap<M: RawMap<V>, V: Copy, S: Strategy> {
    map: Writer<M, S, MapOps<V>>,
}

/// The reading half of a concurrent map.
pub struct Read<S: Strategy> {
    reader: Reader<S>,
}

impl<S: Strategy> Read<S> {
    pub closed spec fn reader(&self) -> Reader<S> {
        self.reader
    }
}

impl<M: RawMap<V>, V: Copy, S: Strategy> WriteMap<M, V, S> {
    pub closed spec fn writer(&self) -> Writer<M, S, MapOps<V>> {
        self.map
    }

    /// The entries once every change so far is flushed.
    pub open spec fn contents(&self) -> Map<u64, V> {
        self.writer().pending_view()
    }

    /// The entries readers see now.
    pub open spec fn published(&self) -> Map<u64, V> {
        self.writer().data().front()@
    }

    pub open spec fn flushing(&self) -> bool {
        self.writer().flushing()
    }

    /// The number of reads open on the map.
    pub open spec fn reads_open(&self) -> nat {
        self.writer().data().open_guards().len()
    }

    /// Whether `rd` may read the map now.
    pub open spec fn can_read(&self, rd: Read<S>) -> bool {
        self.writer().data().ready(rd.reader())
    }

    /// Every reader that could read in `self` still can in `after`, and as
    /// many reads are open.
    pub open spec fn keeps_readers(&self, after: Self) -> bool {
        &&& after.reads_open() == self.reads_open()
        &&& forall|rd: Read<S>| #[trigger] self.can_read(rd) ==> after.can_read(rd)
    }

    pub open spec fn wf(&self) -> bool {
        self.writer().wf()
    }

    pub fn is_flushing(&self) -> (r: bool)
        ensures
            r == self.flushing(),
    {
        self.map.is_flushing()
    }

    /// Publishes the changes so far; see `op::Writer::flush`. With no read
    /// open, the flush completes at once.
    pub fn flush(&mut self) -> (r: Result<bool, CaptureError>)
        requires
            old(self).wf(),
        ensures
            final(self).wf(),
            final(self).contents() == old(self).contents(),
            r is Err ==> *final(self) == *old(self),
            r matches Ok(done) ==> (done <==> !final(self).flushing()),
            r is Err <==> !old(self).flushing() && old(self).writer().ops().len() > 0
                && !old(self).writer().data().strategy().allows_swap(),
            r == Ok::<bool, CaptureError>(true) ==> final(self).published() == old(self).contents(),
            old(self).reads_open() == 0 ==> r == Ok::<bool, CaptureError>(true),
            old(self).keeps_readers(*final(self)),
    {
        self.map.flush()
    }

    pub fn reserve(&mut self, additional: usize)
        requires
            old(self).wf(),
            !old(self).flushing(),
        ensures
            final(self).wf(),
            !final(self).flushing(),
            final(self).published() == old(self).published(),
            final(self).contents() == old(self).contents(),
            old(self).keeps_readers(*final(self)),
    {
        self.map.apply(MapOps::Reserve(additional))
    }

    pub fn insert(&mut self, key: u64, value: V)
        requires
            old(self).wf(),
            !old(self).flushing(),
        ensures
            final(self).wf(),
            !final(self).flushing(),
            final(self).published() == old(self).published(),
            final(self).contents() == old(self).contents().insert(key, value),
            old(self).keeps_readers(*final(self)),
    {
        self.map.apply(MapOps::Insert(key, value))
    }

    pub fn remove(&mut self, key: u64)
        requires
            old(self).wf(),
            !old(self).flushing(),
        ensures
            final(self).wf(),
            !final(self).flushing(),
            final(self).published() == old(self).published(),
            final(self).contents() == old(self).contents().remove(key),
            old(self).keeps_readers(*final(self)),
    {
        self.map.apply(MapOps::Remove(key))
    }

    pub fn clear(&mut self)
        requires
            old(self).wf(),
            !old(self).flushing(),
        ensures
            final(self).wf(),
            !final(self).flushing(),
            final(self).published() == old(self).published(),
            final(self).contents() == Map::<u64, V>::empty(),
            old(self).keeps_readers(*final(self)),
    {
        self.map.apply(MapOps::Clear)
    }

    /// The whole map an open read sees.
    pub fn guard_value(&self, guard: &ReaderGuard<S>) -> (r: &M)
        ensures
            *r == self.writer().data().buffer(guard.index()),
    {
        self.map.guard_value(guard)
    }

    /// Closes a read opened by `Read::get_map`; its reader can read again.
    pub fn release(&mut self, guard: ReaderGuard<S>)
        requires
            old(self).wf(),
            old(self).writer().data().is_open(guard),
        ensures
            final(self).wf(),
            final(self).contents() == old(self).contents(),
            final(self).published() == old(self).published(),
            final(self).flushing() == old(self).flushing(),
            final(self).reads_open() == old(self).reads_open() - 1,
            old(self).writer().data().keeps_idle(final(self).writer().data()),
            forall|t: S::ReaderTag| #[trigger]
                old(self).writer().data().idle_but(t, (guard.raw(), guard.index()))
                    ==> final(self).writer().data().idle(t),
    {
        self.map.release(guard)
    }

    /// Issues another reader.
    pub fn reader(&mut self) -> (r: Read<S>)
        requires
            old(self).wf(),
            old(self).reads_open() < S::capacity(),
        ensures
            final(self).wf(),
            final(self).contents() == old(self).contents(),
            final(self).published() == old(self).published(),
            final(self).flushing() == old(self).flushing(),
            final(self).can_read(r),
            old(self).keeps_readers(*final(self)),
    {
        Read { reader: self.map.reader() }
    }
}

/// An empty concurrent map over two empty buffers of type `M`, with a reader
/// that can read it.
pub fn new<M: RawMap<V>, V: Copy, S: Strategy>() -> (r: (Read<S>, WriteMap<M, V, S>))
    ensures
        r.1.wf(),
        !r.1.flushing(),
        r.1.contents() == Map::<u64, V>::empty(),
        r.1.published() == Map::<u64, V>::empty(),
        r.1.reads_open() == 0,
        r.1.can_read(r.0),
{
    let (a, b) = M::new_pair();
    let mut data = BufferData::new(a, b, S::fresh());
    let reader = data.reader();
    let map = Writer::from_data(data);
    proof {
        assert(map.ops().len() == 0);
        S::lemma_capacity();
    }
    (Read { reader }, WriteMap { map })
}

impl<S: Strategy> Read<S> {
    /// Opens a read on the whole map readers see; `WriteMap::guard_value`
    /// shows it, `WriteMap::release` closes it.
    pub fn get_map<M: RawMap<V>, V: Copy>(&mut self, map: &mut WriteMap<M, V, S>) -> (g: ReaderGuard<S>)
        requires
            old(map).wf(),
            old(map).can_read(*old(self)),
        ensures
            final(map).wf(),
            final(map).contents() == old(map).contents(),
            final(map).published() == old(map).published(),
            final(map).flushing() == old(map).flushing(),
            *final(self) == *old(self),
            final(map).writer().data().is_open(g),
            final(map).writer().data().buffer(g.index())@ == old(map).published(),
            final(map).reads_open() == old(map).reads_open() + 1,
            final(map).writer().data().idle_but(old(self).reader().tag(), (g.raw(), g.index())),
            forall|t: S::ReaderTag| #[trigger]
                old(map).writer().data().idle(t) && t != old(self).reader().tag()
                    ==> final(map).writer().data().idle(t),
    {
        map.map.get(&mut self.reader)
    }

    /// The value readers see under `key`.
    pub fn get<M: RawMapAccess<V>, V: Copy>(&mut self, map: &mut WriteMap<M, V, S>, key: &u64) -> (r:
        Option<V>)
        requires
            old(map).wf(),
            old(map).can_read(*old(self)),
        ensures
            final(map).wf(),
            final(map).contents() == old(map).contents(),
            final(map).published() == old(map).published(),
            final(map).flushing() == old(map).flushing(),
            final(map).can_read(*final(self)),
            old(map).keeps_readers(*final(map)),
            r == lookup(old(map).published(), *key),
    {
        let guard = self.get_map(map);
        let v = match map.map.guard_value(&guard).get(key) {
            Some(v) => Some(*v),
            None => None,
        };
        map.release(guard);
        v
    }

    /// The number of entries readers see.
    pub fn len<M: RawMap<V>, V: Copy>(&mut self, map: &mut WriteMap<M, V, S>) -> (r: usize)
        requires
            old(map).wf(),
            old(map).can_read(*old(self)),
        ensures
            final(map).wf(),
            final(map).contents() == old(map).contents(),
            final(map).published() == old(map).published(),
            final(map).flushing() == old(map).flushing(),
            final(map).can_read(*final(self)),
            old(map).keeps_readers(*final(map)),
            r == old(map).published().len(),
    {
        let guard = self.get_map(map);
        let n = map.map.guard_value(&guard).len();
        map.release(guard);
        n
    }

    /// Whether readers see no entry.
    pub fn is_empty<M: RawMap<V>, V: Copy>(&mut self, map: &mut WriteMap<M, V, S>) -> (r: bool)
        requires
            old(map).wf(),
            old(map).can_read(*old(self)),
        ensures
            final(map).wf(),
            final(map).contents() == old(map).contents(),
            final(map).published() == old(map).published(),
            final(map).flushing() == old(map).flushing(),
            final(map).can_read(*final(self)),
            old(map).keeps_readers(*final(map)),
            r == (old(map).published().len() == 0),
    {
        let guard = self.get_map(map);
        let b = map.map.guard_value(&guard).is_empty();
        map.release(guard);
        b
    }
}

} // verus!
