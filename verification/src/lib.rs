//! Request-admission primitives: each limiter answers, given a current
//! instant and a requested quantity of units, whether that quantity may
//! proceed now under a configured rate policy, and if so commits the
//! consumption.
//!
//! All timestamps and intervals are plain nanosecond counts (`u64`), so the
//! bookkeeping of every limiter is ordinary integer arithmetic and is fully
//! specified.  Reading the wall clock is the single trusted operation; every
//! `allow`/`allow_n` method also exists in an `_at` form that takes the
//! instant as an argument and carries an exact contract.
//!
//! The limiters take `&mut self`; wrapping one in a reference-counted,
//! lock-protected handle so that many owners observe one logical limiter —
//! and, for the leaky bucket, running the background leak loop and the
//! per-caller blocking handshake — is plumbing for the host program.
use vstd::prelude::*;

mod clock;
pub mod fixed_window;
pub mod leaky_bucket;
pub mod sliding_window_count;
pub mod sliding_window_log;
pub mod token_bucket;

pub use clock::now_nanos;
pub use fixed_window::FixedWindow;
pub use fixed_window::FixedWindowInner;
pub use leaky_bucket::LeakyBucketInner;
pub use sliding_window_count::SlidingWindowCount;
pub use sliding_window_count::SlidingWindowCountInner;
pub use sliding_window_log::SlidingWindowLog;
pub use sliding_window_log::SlidingWindowLogInner;
pub use token_bucket::TokenBucket;
pub use token_bucket::TokenBucketInner;

verus! {

/// Nanoseconds in one second, the default window and refill interval.
pub const DEFAULT_INTERVAL_NANOS: u64 = 1_000_000_000;

} // verus!
