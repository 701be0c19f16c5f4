use vstd::prelude::*;

verus! {

/// Steps below or at this limit spin; later steps ask the caller to yield.
pub const SPIN_LIMIT: u32 = 6;

/// Past this step the backoff counts as completed: waiting further should park.
pub const YIELD_LIMIT: u32 = 10;

/// Relies on std::hint::spin_loop: a processor hint with no observable effect
/// on the program's state.
#[verifier::external_body]
fn spin_loop_hint() {
    std::hint::spin_loop()
}

/// Issues `n` spin-loop hints.
fn spin_times(n: u32) {
    let mut i: u32 = 0;
    while i < n
        invariant
            i <= n,
        decreases n - i,
    {
        spin_loop_hint();
        i = i + 1;
    }
}

/// What a waiting writer does next.
#[derive(Clone, Copy, Debug, PartialEq, Eq, Structural)]
pub enum Pause {
    /// It has spun; check again.
    Spun,
    /// It should yield its thread, then check again.
    Yield,
    /// Waiting has gone on long: it should park until woken or timed out.
    Park,
}

/// Adaptive waiting: spin for exponentially longer, then yield, then report
/// that the wait should park.
#[derive(Clone, Copy, Debug, PartialEq, Eq, Structural)]
pub struct Backoff {
    step: u32,
}

/// The step after a `spin`.
pub open spec fn step_after_spin(step: u32) -> u32 {
    if step <= SPIN_LIMIT {
        (step + 1) as u32
    } else {
        step
    }
}

/// The step after a `snooze`.
pub open spec fn step_after_snooze(step: u32) -> u32 {
    if step <= YIELD_LIMIT {
        (step + 1) as u32
    } else {
        step
    }
}

impl Backoff {
    /// The number of waits already taken, capped.
    pub closed spec fn steps(&self) -> u32 {
        self.step
    }

    pub fn new() -> (r: Self)
        ensures
            r.steps() == 0,
    {
        Backoff { step: 0 }
    }

    pub fn reset(&mut self)
        ensures
            final(self).steps() == 0,
    {
        self.step = 0;
    }

    /// Spins for `2^min(step, SPIN_LIMIT)` hints, then takes a step while the
    /// spin limit has not been passed.
    pub fn spin(&mut self)
        ensures
            final(self).steps() == step_after_spin(old(self).steps()),
    {
        let exp = if self.step < SPIN_LIMIT {
            self.step
        } else {
            SPIN_LIMIT
        };
        assert(1u32 << exp <= 64) by (bit_vector)
            requires
                exp <= 6,
        ;
        spin_times(1u32 << exp);
        if self.step <= SPIN_LIMIT {
            self.step = self.step + 1;
        }
    }

    /// Spins for `2^step` hints while the spin limit has not been passed;
    /// past it, spins no more and returns `true`: the caller should yield its
    /// thread. Then takes a step while the yield limit has not been passed.
    pub fn snooze(&mut self) -> (should_yield: bool)
        ensures
            should_yield == (old(self).steps() > SPIN_LIMIT),
            final(self).steps() == step_after_snooze(old(self).steps()),
    {
        let should_yield = if self.step <= SPIN_LIMIT {
            let exp = self.step;
            assert(1u32 << exp <= 64) by (bit_vector)
                requires
                    exp <= 6,
            ;
            spin_times(1u32 << exp);
            false
        } else {
            true
        };
        if self.step <= YIELD_LIMIT {
            self.step = self.step + 1;
        }
        should_yield
    }

    /// One step of a writer that waits for readers to leave: snoozes until
    /// the backoff completes, and parks from then on.
    pub fn pause(&mut self) -> (r: Pause)
        ensures
            old(self).steps() > YIELD_LIMIT ==> r == Pause::Park && final(self).steps() == old(self).steps(),
            old(self).steps() <= YIELD_LIMIT ==> final(self).steps() == step_after_snooze(
                old(self).steps(),
            ) && r == if old(self).steps() > SPIN_LIMIT {
                Pause::Yield
            } else {
                Pause::Spun
            },
    {
        if self.is_completed() {
            Pause::Park
        } else if self.snooze() {
            Pause::Yield
        } else {
            Pause::Spun
        }
    }

    /// Whether waiting has gone on long enough that the caller should park.
    pub fn is_completed(&self) -> (r: bool)
        ensures
            r == (self.steps() > YIELD_LIMIT),
    {
        self.step > YIELD_LIMIT
    }
}

impl Default for Backoff {
    fn default() -> (r: Self)
        ensures
            r.steps() == 0,
    {
        Backoff::new()
    }
}

} // verus!
