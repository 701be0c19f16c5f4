use vstd::prelude::*;

use crate::op::Operation;

verus! {

/// A buffer that holds one running total; an `i64` operation adds itself to
/// it, wrapping on overflow.
#[derive(Clone, Copy, Debug, PartialEq, Eq, Structural)]
pub struct Counter {
    total: i64,
}

impl View for Counter {
    type V = i64;

    closed spec fn view(&self) -> i64 {
        self.total
    }
}

impl Counter {
    pub fn new(total: i64) -> (r: Self)
        ensures
            r@ == total,
    {
        Counter { total }
    }

    pub fn total(&self) -> (r: i64)
        ensures
            r == self@,
    {
        self.total
    }
}

impl Operation<Counter> for i64 {
    open spec fn effect(&self, before: i64) -> i64 {
        vstd::wrapping::i64_specs::wrapping_add(before, *self)
    }

    fn apply(&mut self, buffer: &mut Counter) {
        buffer.total = buffer.total.wrapping_add(*self);
    }

    fn apply_once(self, buffer: &mut Counter) {
        buffer.total = buffer.total.wrapping_add(self);
    }
}

} // verus!
