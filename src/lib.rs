//! A double-buffering primitive for one writer and many readers, with an
//! operation log that keeps the two buffers in step and a map built on top.
//!
//! Every state transition of the protocol is an executable function with a
//! contract: which buffer readers see, when a swap may complete, how each
//! reader-tracking strategy accounts for open reads, and how logged
//! operations bring both buffers to the same contents. The cell's invariant
//! states the protocol's safety property: with no swap pending, every open
//! read is on the front buffer, so the writer only ever changes a buffer that
//! no reader holds.
//!
//! - `raw`: the shared cell, its reads, and the swap protocol.
//! - `strategy`, `local`, `atomic`, `sync`: how readers are tracked.
//! - `backoff`: the writer's adaptive wait.
//! - `op`, `left_right`: operation logs, applied eagerly or deferred.
//! - `conc_map`: a map over two buffers, with its buffer adapters.
//! - `counter`, `thin`: a counter buffer, and a shared value's handle count.

mod active_list;
mod order;

pub mod atomic;
pub mod backoff;
pub mod conc_map;
pub mod counter;
pub mod left_right;
pub mod local;
pub mod op;
pub mod raw;
pub mod strategy;
pub mod sync;
pub mod thin;

pub use order::Order;
