use double_buffer::backoff::{Backoff, Pause};
use double_buffer::counter::Counter;
use double_buffer::left_right;
use double_buffer::op::Operation;
use double_buffer::Order;
use double_buffer::raw::BufferData;
use double_buffer::sync::SyncStrategy;
use double_buffer::thin::ThinInner;

#[test]
fn order_markers() {
    assert!(Order::First.is_first());
    assert!(!Order::First.is_second());
    assert!(Order::Second.is_second());
    assert!(!Order::Second.is_first());
}

#[test]
fn backoff_spins_then_yields_then_parks() {
    let mut b = Backoff::new();
    for _ in 0..7 {
        assert!(!b.snooze());
    }
    assert!(!b.is_completed());
    for _ in 0..4 {
        assert!(b.snooze());
    }
    assert!(b.is_completed());
    assert_eq!(b.pause(), Pause::Park);
    b.reset();
    assert!(!b.is_completed());
    assert_eq!(b.pause(), Pause::Spun);
}

#[test]
fn backoff_spin_stops_counting_past_limit() {
    let mut b = Backoff::default();
    for _ in 0..20 {
        b.spin();
    }
    assert!(!b.is_completed());
    let mut c = Backoff::new();
    for _ in 0..7 {
        c.spin();
    }
    assert_eq!(b, c);
}

#[test]
fn counter_op_wraps() {
    let mut c = Counter::new(i64::MAX);
    let mut op: i64 = 1;
    op.apply(&mut c);
    assert_eq!(c.total(), i64::MIN);
    (-1i64).apply_once(&mut c);
    assert_eq!(c.total(), i64::MAX);
}

#[test]
fn left_right_two_flushes_converge() {
    let data = BufferData::new(Counter::new(0), Counter::new(0), SyncStrategy::new());
    let mut w: left_right::Writer<Counter, SyncStrategy, i64> = left_right::Writer::from_data(data);
    w.register(5);
    assert_eq!(w.flush(), Ok(true));
    assert_eq!(w.read().total(), 5);
    assert_eq!(w.operations().len(), 1);
    assert_eq!(w.flush(), Ok(true));
    assert_eq!(w.read().total(), 5);
    assert_eq!(w.operations().len(), 0);
}

#[test]
fn left_right_flush_waits_for_reader() {
    let data = BufferData::new(Counter::new(0), Counter::new(0), SyncStrategy::new());
    let mut w: left_right::Writer<Counter, SyncStrategy, i64> = left_right::Writer::from_data(data);
    let mut r = w.reader();
    w.register(1);
    assert_eq!(w.flush(), Ok(true));
    let g = w.get(&mut r);
    w.register(2);
    assert_eq!(w.flush(), Ok(true));
    // the buffer the reader holds was retired by the last flush
    assert_eq!(w.flush(), Ok(false));
    assert_eq!(w.guard_value(&g).total(), 1);
    w.release(g);
    assert_eq!(w.flush(), Ok(true));
    assert_eq!(w.read().total(), 3);
}

#[test]
fn thin_inner_counts_handles() {
    let mut inner = ThinInner::new("v");
    assert_eq!(inner.strong_count(), 1);
    inner.acquire();
    assert_eq!(inner.strong_count(), 2);
    assert!(!inner.release());
    assert!(inner.release());
    assert_eq!(*inner.value(), "v");
}
