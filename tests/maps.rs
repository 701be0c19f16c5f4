use std::collections::{BTreeMap, HashMap};

use double_buffer::local::LocalStrategy;
use double_buffer::conc_map::{self, MapOps, RawMap, RawMapAccess, RawMapWithCapacity, WriteMap};
use double_buffer::op;
use double_buffer::op::Operation;
use double_buffer::raw::{BufferData, Reader};
use double_buffer::strategy::Strategy;
use double_buffer::sync::SyncStrategy;

type Ops = op::Writer<HashMap<u64, &'static str>, LocalStrategy, MapOps<&'static str>>;

fn front_len(w: &mut Ops, r: &mut Reader<LocalStrategy>) -> usize {
    let g = w.get(r);
    let n = w.guard_value(&g).len();
    w.release(g);
    n
}

fn front_get(w: &mut Ops, r: &mut Reader<LocalStrategy>, key: u64) -> Option<&'static str> {
    let g = w.get(r);
    let v = w.guard_value(&g).get(&key).copied();
    w.release(g);
    v
}

#[test]
fn map_ops() {
    let mut data = BufferData::new(HashMap::new(), HashMap::new(), LocalStrategy::new());
    let mut r = data.reader();
    let mut w: Ops = op::Writer::from_data(data);

    w.apply(MapOps::Insert(0, "hello"));
    w.apply(MapOps::Insert(1, "world"));

    assert_eq!(front_len(&mut w, &mut r), 0);

    assert_eq!(w.flush(), Ok(true));

    w.apply(MapOps::Remove(0));
    w.apply(MapOps::Insert(2, "!"));

    assert_eq!(front_len(&mut w, &mut r), 2);
    assert_eq!(front_get(&mut w, &mut r, 0), Some("hello"));
    assert_eq!(front_get(&mut w, &mut r, 1), Some("world"));

    assert_eq!(w.flush(), Ok(true));

    w.apply(MapOps::Clear);

    assert_eq!(front_len(&mut w, &mut r), 2);
    assert_eq!(front_get(&mut w, &mut r, 0), None);
    assert_eq!(front_get(&mut w, &mut r, 1), Some("world"));
    assert_eq!(front_get(&mut w, &mut r, 2), Some("!"));

    assert_eq!(w.flush(), Ok(true));

    assert_eq!(front_len(&mut w, &mut r), 0);
}

#[test]
fn op_writer_flush_makes_buffers_equal() {
    let data = BufferData::new(HashMap::new(), HashMap::new(), LocalStrategy::new());
    let mut w: Ops = op::Writer::from_data(data);
    w.apply(MapOps::Insert(3, "x"));
    w.apply(MapOps::Reserve(10));
    assert_eq!(w.operations().len(), 2);
    assert_eq!(w.flush(), Ok(true));
    assert_eq!(w.operations().len(), 0);
    assert_eq!(w.read().get(&3), Some(&"x"));
    let data = w.into_data();
    assert_eq!(data.read(), data.back_ref());
}

#[test]
fn op_writer_flush_refused_while_reading() {
    let mut data = BufferData::new(HashMap::new(), HashMap::new(), LocalStrategy::new());
    let mut r = data.reader();
    let mut w: Ops = op::Writer::from_data(data);
    w.apply(MapOps::Insert(1, "a"));
    let g = w.get(&mut r);
    assert!(w.flush().is_err());
    w.release(g);
    assert_eq!(w.flush(), Ok(true));
    assert_eq!(front_get(&mut w, &mut r, 1), Some("a"));
}

type Facade = WriteMap<HashMap<u64, &'static str>, &'static str, SyncStrategy>;

#[test]
fn map_visibility_across_two_flushes() {
    let (mut r, mut w): (conc_map::Read<SyncStrategy>, Facade) = conc_map::new();

    w.insert(0, "hello");
    w.insert(1, "world");
    assert_eq!(r.len(&mut w), 0);
    assert_eq!(w.flush(), Ok(true));
    w.insert(2, "!");
    w.remove(0);
    assert_eq!(r.len(&mut w), 2);
    assert_eq!(r.get(&mut w, &0), Some("hello"));
    assert_eq!(r.get(&mut w, &1), Some("world"));
    assert_eq!(w.flush(), Ok(true));
    assert_eq!(r.len(&mut w), 2);
    assert_eq!(r.get(&mut w, &0), None);
    assert_eq!(r.get(&mut w, &1), Some("world"));
    assert_eq!(r.get(&mut w, &2), Some("!"));
    w.clear();
    assert_eq!(w.flush(), Ok(true));
    assert_eq!(r.len(&mut w), 0);
    assert!(r.is_empty(&mut w));
}

#[test]
fn insert_flush_flush_get() {
    let (mut r, mut w): (conc_map::Read<SyncStrategy>, Facade) = conc_map::new();
    w.insert(7, "v");
    assert_eq!(w.flush(), Ok(true));
    assert_eq!(r.get(&mut w, &7), Some("v"));
    assert_eq!(w.flush(), Ok(true));
    assert_eq!(r.get(&mut w, &7), Some("v"));
}

#[test]
fn last_insert_wins() {
    let (mut r, mut w): (conc_map::Read<SyncStrategy>, Facade) = conc_map::new();
    w.insert(7, "v1");
    w.insert(7, "v2");
    assert_eq!(w.flush(), Ok(true));
    assert_eq!(w.flush(), Ok(true));
    assert_eq!(r.get(&mut w, &7), Some("v2"));
}

#[test]
fn insert_then_remove_is_absent() {
    let (mut r, mut w): (conc_map::Read<SyncStrategy>, Facade) = conc_map::new();
    w.insert(7, "v");
    w.remove(7);
    assert_eq!(w.flush(), Ok(true));
    assert_eq!(w.flush(), Ok(true));
    assert_eq!(r.get(&mut w, &7), None);
}

#[test]
fn clear_flush_flush_len_zero() {
    let (mut r, mut w): (conc_map::Read<SyncStrategy>, Facade) = conc_map::new();
    w.insert(1, "a");
    w.reserve(4);
    assert_eq!(w.flush(), Ok(true));
    w.clear();
    assert_eq!(w.flush(), Ok(true));
    assert_eq!(w.flush(), Ok(true));
    assert_eq!(r.len(&mut w), 0);
}

#[test]
fn whole_map_read() {
    let (mut r, mut w): (conc_map::Read<SyncStrategy>, Facade) = conc_map::new();
    w.insert(1, "a");
    w.insert(2, "b");
    assert_eq!(w.flush(), Ok(true));
    let g = r.get_map(&mut w);
    assert_eq!(w.guard_value(&g).len(), 2);
    assert_eq!(w.guard_value(&g).get(&2), Some(&"b"));
    w.release(g);
}

#[test]
fn second_reader_sees_same_map() {
    let (mut r, mut w): (conc_map::Read<SyncStrategy>, Facade) = conc_map::new();
    let mut r2 = w.reader();
    w.insert(1, "a");
    assert_eq!(w.flush(), Ok(true));
    assert_eq!(r.get(&mut w, &1), r2.get(&mut w, &1));
}

#[test]
fn raw_map_adapters() {
    let (mut a, b) = <BTreeMap<u64, i32> as RawMap<i32>>::new_pair();
    RawMap::insert(&mut a, 1, 10);
    RawMap::insert(&mut a, 2, 20);
    RawMap::remove(&mut a, &1);
    assert_eq!(RawMapAccess::get(&a, &2), Some(&20));
    assert_eq!(RawMapAccess::get(&a, &1), None);
    assert_eq!(RawMap::len(&a), 1);
    assert!(RawMap::is_empty(&b));
    let (mut h, _) = <HashMap<u64, i32> as RawMapWithCapacity<i32>>::with_capacity(8);
    RawMap::insert(&mut h, 5, 50);
    RawMap::reserve(&mut h, 100);
    assert_eq!(RawMap::len(&h), 1);
    RawMap::clear(&mut h);
    assert_eq!(RawMap::len(&h), 0);
}

#[test]
fn map_op_applies_twice_to_same_effect() {
    let mut a: HashMap<u64, i32> = HashMap::new();
    let mut b: HashMap<u64, i32> = HashMap::new();
    let mut op = MapOps::Insert(4, 40);
    op.apply(&mut a);
    op.apply_once(&mut b);
    assert_eq!(a, b);
    assert_eq!(a.get(&4), Some(&40));
    let _ = <SyncStrategy as Strategy>::reader_tag;
}
