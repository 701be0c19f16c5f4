use vstd::prelude::*;

verus! {

/// Which of the two applications of a logged operation is running.
///
/// Each operation is applied once to each buffer: `First` marks the
/// application to the buffer that is about to be published, `Second` the
/// replay onto the buffer that readers have just left.
#[derive(Clone, Copy, Debug, PartialEq, Eq, Structural)]
pub enum Order {
    First,
    Second,
}

impl Order {
    pub fn is_first(self) -> (r: bool)
        ensures
            r == (self == Order::First),
    {
        match self {
            Order::First => true,
            Order::Second => false,
        }
    }

    pub fn is_second(self) -> (r: bool)
        ensures
            r == (self == Order::Second),
    {
        match self {
            Order::First => false,
            Order::Second => true,
        }
    }
}

} // verus!
