use double_buffer::atomic::AtomicStrategy;
use double_buffer::counter::Counter;
use double_buffer::left_right;
use double_buffer::local::LocalStrategy;
use double_buffer::raw::{BufferData, BufferDataBuilder, Reader, UpgradeFailed};
use double_buffer::strategy::{CaptureError, Strategy};
use double_buffer::sync::SyncStrategy;

fn read_value<S: Strategy>(data: &mut BufferData<i64, S>, reader: &mut Reader<S>) -> i64 {
    let guard = data.try_get(reader).ok().unwrap();
    let value = *data.guard_value(&guard);
    data.release(guard);
    value
}

#[test]
fn is_dangling() {
    let mut data = BufferData::new((), (), SyncStrategy::new());
    let r = data.reader();
    data.drop_writer();

    assert!(data.is_dangling(&r));
}

#[test]
fn clone_read() {
    let mut data = BufferData::new((), (), SyncStrategy::new());
    let r = data.reader();

    data.try_clone(&r).unwrap();
}

#[test]
fn write_before_read() {
    let mut data = BufferData::new(0i64, 0i64, SyncStrategy::new());
    let mut r = data.reader();

    *data.back_mut() = 20;
    assert_eq!(read_value(&mut data, &mut r), 0);
    assert!(data.swap_buffers());
    assert_eq!(read_value(&mut data, &mut r), 20);
    assert!(data.swap_buffers());
    assert_eq!(read_value(&mut data, &mut r), 0);
}

#[test]
fn wait() {
    let mut data = BufferData::new(0i64, 0i64, SyncStrategy::new());
    let mut r = data.reader();

    assert!(data.swap_buffers());
    let guard = data.try_get(&mut r).ok().unwrap();
    assert!(!data.is_swapping());
    data.release(guard);
}

#[test]
fn left_right() {
    let data = BufferDataBuilder {
        strategy: SyncStrategy::new(),
        front: Counter::new(0),
        back: Counter::new(0),
        extra: (),
    }
    .build();
    let mut writer: left_right::Writer<Counter, SyncStrategy, i64> = left_right::Writer::from_data(data);
    let mut reader = writer.reader();

    writer.register(10);
    writer.register(20);
    assert_eq!(writer.flush(), Ok(true));
    writer.register(-30);
    let guard = writer.get(&mut reader);
    assert_eq!(writer.guard_value(&guard).total(), 30);
    writer.release(guard);
    assert_eq!(writer.flush(), Ok(true));
    let guard = writer.get(&mut reader);
    assert_eq!(writer.guard_value(&guard).total(), 0);
    writer.release(guard);
}

#[test]
fn read_after_writer_dropped_is_dangling() {
    let mut data = BufferData::new(1i64, 2i64, AtomicStrategy::new());
    let mut r = data.reader();
    let mut r2 = data.reader();
    let held = data.try_get(&mut r).ok().unwrap();
    data.drop_writer();

    assert!(matches!(data.try_get(&mut r2), Err(UpgradeFailed)));
    assert!(data.try_clone(&r).is_err());
    // a read opened before the writer went stays readable
    assert_eq!(*data.guard_value(&held), 1);
    data.release(held);
}

#[test]
fn extra_payload_is_kept() {
    let data = BufferDataBuilder { front: 1i64, back: 2i64, strategy: LocalStrategy::new(), extra: "payload" }.build();
    assert_eq!(*data.extra_ref(), "payload");
    let data = BufferData::with_extra(0u8, 0u8, AtomicStrategy::new(), 9u32);
    assert_eq!(*data.extra_ref(), 9);
}

#[test]
fn split_mut_changes_back_only() {
    let mut data = BufferData::new(1i64, 2i64, LocalStrategy::new());
    {
        let (front, back) = data.split_mut();
        *back += *front;
    }
    assert_eq!(*data.read(), 1);
    assert_eq!(*data.back_ref(), 3);
}

#[test]
fn guard_projections() {
    let mut data = BufferData::new((3i64, 4i64), (5i64, 6i64), LocalStrategy::new());
    let mut r = data.reader();
    let g = data.try_get(&mut r).ok().unwrap();
    assert_eq!(*g.map(&data, |p: &(i64, i64)| &p.1), 4);
    assert_eq!(g.try_map(&data, |p: &(i64, i64)| if p.0 > 0 { Some(&p.0) } else { None }), Some(&3));
    assert_eq!(g.try_map(&data, |p: &(i64, i64)| if p.0 < 0 { Some(&p.0) } else { None }), None);
    data.release(g);
}

#[test]
fn read_sees_front_not_back() {
    let mut data = BufferData::new(5i64, 7i64, LocalStrategy::new());
    let mut r = data.reader();
    assert_eq!(*data.read(), 5);
    assert_eq!(*data.back_ref(), 7);
    let (front, back) = data.split();
    assert_eq!((*front, *back), (5, 7));
    assert_eq!(read_value(&mut data, &mut r), 5);
}

#[test]
fn local_swap_refused_while_reading() {
    let mut data = BufferData::new(0i64, 1i64, LocalStrategy::new());
    let mut r = data.reader();
    let guard = data.try_get(&mut r).ok().unwrap();
    assert_eq!(data.strategy_ref().num_readers(), 1);

    assert_eq!(data.start_buffer_swap(), Err(CaptureError));
    assert_eq!(data.strategy_ref().num_readers(), 1);
    assert!(!data.swap_buffers());
    assert_eq!(*data.read(), 0);

    data.release(guard);
    assert!(data.swap_buffers());
    assert_eq!(*data.read(), 1);
}

#[test]
fn atomic_swap_waits_for_open_guard() {
    let mut data = BufferData::new(0i64, 1i64, AtomicStrategy::new());
    let mut r = data.reader();
    let old_guard = data.try_get(&mut r).ok().unwrap();

    assert!(!data.swap_buffers());
    assert!(data.is_swapping());
    // readers arriving now see the new front
    assert_eq!(*data.read(), 1);
    assert_eq!(*data.guard_value(&old_guard), 0);
    assert!(!data.is_swap_completed());

    data.release(old_guard);
    assert!(data.is_swap_completed());
    assert!(!data.is_swapping());
}

#[test]
fn sync_swap_waits_only_for_captured_readers() {
    let mut data = BufferData::new(0i64, 1i64, SyncStrategy::new());
    let mut r1 = data.reader();
    let mut r2 = data.reader();

    // reader 1 reads and leaves before the swap: nothing to wait for
    let g = data.try_get(&mut r1).ok().unwrap();
    data.release(g);
    assert!(data.swap_buffers());

    // reader 1 holds the front across a swap: the swap waits for it
    let held = data.try_get(&mut r1).ok().unwrap();
    assert!(!data.swap_buffers());
    // reader 2 starts on the new front; the writer does not wait for it
    let later = data.try_get(&mut r2).ok().unwrap();
    data.release(held);
    assert!(data.is_swap_completed());
    data.release(later);
}

#[test]
fn sync_retired_reader_blocks_until_its_guard_closes() {
    let mut s = SyncStrategy::new();
    let mut tag = s.reader_tag();
    let g = s.begin_guard(&mut tag);
    let mut wt = s.writer_tag();
    let mut capture = s.try_capture_readers(&mut wt).ok().unwrap();
    assert!(!s.is_capture_complete(&mut capture));
    s.retire_reader(tag);
    assert!(!s.is_capture_complete(&mut capture));
    s.end_guard(g);
    assert!(s.is_capture_complete(&mut capture));
}

#[test]
fn sync_retired_slot_is_reused() {
    let mut data = BufferData::new(0i64, 1i64, SyncStrategy::new());
    let r1 = data.reader();
    let mut r2 = data.reader();
    data.drop_reader(r1);
    let mut r3 = data.reader();
    assert_eq!(read_value(&mut data, &mut r3), 0);
    assert_eq!(read_value(&mut data, &mut r2), 0);
}

#[test]
fn dropped_reader_no_longer_reads() {
    let mut data = BufferData::new(0i64, 1i64, SyncStrategy::new());
    let r = data.reader();
    let mut r2 = data.reader();
    data.drop_reader(r);
    assert!(data.swap_buffers());
    assert_eq!(read_value(&mut data, &mut r2), 1);
}

#[test]
fn atomic_guard_count() {
    let mut s = AtomicStrategy::new();
    let mut tag = s.reader_tag();
    let a = s.begin_guard(&mut tag);
    let b = s.begin_guard(&mut tag);
    assert_eq!(s.num_readers(), 2);
    s.end_guard(a);
    s.end_guard(b);
    assert_eq!(s.num_readers(), 0);
}

#[test]
fn local_guard_count() {
    let mut s = LocalStrategy::new();
    let mut tag = s.reader_tag();
    let g = s.begin_guard(&mut tag);
    assert_eq!(s.num_readers(), 1);
    s.end_guard(g);
    assert_eq!(s.num_readers(), 0);
}
