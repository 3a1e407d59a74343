//! Leaky bucket rate limiter: a caller first reserves a slot (rejected
//! immediately at capacity), then waits in a FIFO queue until the leak loop
//! releases it at the configured rate; on release it gives its slot back.
//!
//! This module holds the lock-protected accounting and the release
//! discipline.  The queue of waiting callers is modelled by tickets:
//! tickets are handed out in increasing order as callers enqueue and are
//! released strictly from the front, so releases happen in reservation
//! order.  The blocking handshake itself (one-shot signal channels and the
//! background leak thread) is outside work that a host program drives with
//! these operations.
use vstd::prelude::*;

verus! {

/// Accounting state of a leaky bucket.
pub struct LeakyBucketInner {
    /// Maximum number of simultaneously reserved slots.
    pub capacity: u64,
    /// Slots currently reserved and not yet fully released.
    pub current_level: u64,
    /// Waiters released per leak interval.
    pub leak_rate: u64,
    /// Leak interval in nanoseconds.
    pub leak_interval: u64,
    /// Instant the current leak tick started, nanoseconds.
    pub last_leaktime: u64,
    /// The ticket the next enqueued waiter will receive.
    pub next_ticket: u64,
    /// Tickets of waiting callers, front first, in reservation order.
    pub pending: Vec<u64>,
}

impl LeakyBucketInner {
    /// Well-formedness: a usable configuration, a level within capacity,
    /// and a strictly increasing queue of tickets below `next_ticket`.
    pub open spec fn wf(self) -> bool {
        &&& self.capacity >= 1
        &&& self.leak_interval >= 1
        &&& self.current_level <= self.capacity
        &&& forall|i: int, j: int|
            0 <= i < j < self.pending@.len() ==> #[trigger] self.pending@[i]
                < #[trigger] self.pending@[j]
        &&& forall|i: int| 0 <= i < self.pending@.len() ==> #[trigger] self.pending@[i] < self.next_ticket
    }

    /// Fresh state with an empty queue, whose leak clock starts at `now`.
    pub fn new_at(leak_rate: u64, capacity: u64, leak_interval: u64, now: u64) -> (r:
        LeakyBucketInner)
        requires
            capacity >= 1,
            leak_interval >= 1,
        ensures
            r.wf(),
            r.capacity == capacity,
            r.current_level == 0,
            r.leak_rate == leak_rate,
            r.leak_interval == leak_interval,
            r.last_leaktime == now,
            r.next_ticket == 0,
            r.pending@ == Seq::<u64>::empty(),
    {
        LeakyBucketInner {
            capacity,
            current_level: 0,
            leak_rate,
            leak_interval,
            last_leaktime: now,
            next_ticket: 0,
            pending: Vec::new(),
        }
    }

    /// Fresh state with an empty queue, whose leak clock starts at the
    /// current instant.  `leak_interval` defaults to one second.
    pub fn new(leak_rate: u64, capacity: u64, leak_interval: Option<u64>) -> (r: LeakyBucketInner)
        requires
            capacity >= 1,
            leak_interval matches Some(i) ==> i >= 1,
        ensures
            r.wf(),
            r.capacity == capacity,
            r.current_level == 0,
            r.leak_rate == leak_rate,
            r.leak_interval == (match leak_interval {
                Some(i) => i,
                None => crate::DEFAULT_INTERVAL_NANOS,
            }),
            r.next_ticket == 0,
            r.pending@ == Seq::<u64>::empty(),
    {
        let iv: u64 = match leak_interval {
            Some(i) => i,
            None => crate::DEFAULT_INTERVAL_NANOS,
        };
        let now: u64 = crate::clock::now_nanos();
        Self::new_at(leak_rate, capacity, iv, now)
    }

    /// Reserve a slot: succeeds iff the bucket is below capacity; a caller
    /// rejected here registers nothing and blocks nobody.
    pub fn try_allow(&mut self) -> (r: bool)
        requires
            old(self).wf(),
        ensures
            final(self).wf(),
            r == (old(self).current_level < old(self).capacity),
            final(self).current_level == (if r {
                old(self).current_level + 1
            } else {
                old(self).current_level as int
            }),
            final(self).capacity == old(self).capacity,
            final(self).leak_rate == old(self).leak_rate,
            final(self).leak_interval == old(self).leak_interval,
            final(self).last_leaktime == old(self).last_leaktime,
            final(self).next_ticket == old(self).next_ticket,
            final(self).pending@ == old(self).pending@,
    {
        if self.current_level >= self.capacity {
            false
        } else {
            self.current_level = self.current_level + 1;
            true
        }
    }

    /// Enqueue the calling reservation: it receives the next ticket and
    /// stands at the back of the queue.
    pub fn enqueue_waiter(&mut self) -> (t: u64)
        requires
            old(self).wf(),
            old(self).next_ticket < u64::MAX,
        ensures
            final(self).wf(),
            t == old(self).next_ticket,
            final(self).pending@ == old(self).pending@.push(t),
            final(self).next_ticket == old(self).next_ticket + 1,
            final(self).capacity == old(self).capacity,
            final(self).current_level == old(self).current_level,
            final(self).leak_rate == old(self).leak_rate,
            final(self).leak_interval == old(self).leak_interval,
            final(self).last_leaktime == old(self).last_leaktime,
    {
        let t: u64 = self.next_ticket;
        self.pending.push(t);
        self.next_ticket = self.next_ticket + 1;
        t
    }

    /// Release one waiter: the front of the queue, i.e. the caller that
    /// reserved earliest among those still waiting.
    pub fn pop_waiter(&mut self) -> (t: Option<u64>)
        requires
            old(self).wf(),
        ensures
            final(self).wf(),
            old(self).pending@.len() == 0 ==> t is None && final(self).pending@ == old(self).pending@,
            old(self).pending@.len() > 0 ==> t == Some(old(self).pending@[0])
                && final(self).pending@ == old(self).pending@.drop_first(),
            final(self).capacity == old(self).capacity,
            final(self).current_level == old(self).current_level,
            final(self).leak_rate == old(self).leak_rate,
            final(self).leak_interval == old(self).leak_interval,
            final(self).last_leaktime == old(self).last_leaktime,
            final(self).next_ticket == old(self).next_ticket,
    {
        if self.pending.len() == 0 {
            None
        } else {
            let t: u64 = self.pending.remove(0);
            proof {
                assert(old(self).pending@.remove(0) =~= old(self).pending@.drop_first());
            }
            Some(t)
        }
    }

    /// Leak accounting: a released caller gives its reserved slot back.
    pub fn leak(&mut self)
        requires
            old(self).wf(),
        ensures
            final(self).wf(),
            final(self).current_level == (if old(self).current_level > 0 {
                old(self).current_level - 1
            } else {
                0int
            }),
            final(self).capacity == old(self).capacity,
            final(self).leak_rate == old(self).leak_rate,
            final(self).leak_interval == old(self).leak_interval,
            final(self).last_leaktime == old(self).last_leaktime,
            final(self).next_ticket == old(self).next_ticket,
            final(self).pending@ == old(self).pending@,
    {
        if self.current_level > 0 {
            self.current_level = self.current_level - 1;
        }
    }

    /// How long the leak loop should still sleep at instant `now` before
    /// its next tick: the remainder of `leak_interval` since the tick
    /// started, and zero once the interval has fully elapsed.
    pub fn leak_wait(&self, now: u64) -> (r: u64)
        ensures
            r == ({
                let elapsed: int = if now >= self.last_leaktime {
                    now - self.last_leaktime
                } else {
                    0
                };
                if elapsed >= self.leak_interval {
                    0int
                } else {
                    self.leak_interval - elapsed
                }
            }),
    {
        let elapsed: u64 = if now >= self.last_leaktime {
            now - self.last_leaktime
        } else {
            0
        };
        if elapsed >= self.leak_interval {
            0
        } else {
            self.leak_interval - elapsed
        }
    }

    /// Start a leak tick at instant `now`.
    pub fn begin_tick(&mut self, now: u64)
        requires
            old(self).wf(),
        ensures
            final(self).wf(),
            final(self).last_leaktime == now,
            final(self).capacity == old(self).capacity,
            final(self).current_level == old(self).current_level,
            final(self).leak_rate == old(self).leak_rate,
            final(self).leak_interval == old(self).leak_interval,
            final(self).next_ticket == old(self).next_ticket,
            final(self).pending@ == old(self).pending@,
    {
        self.last_leaktime = now;
    }
}

/// FIFO admission: whoever reserves first is released first.  Tickets are
/// handed out in reservation order and the queue is strictly increasing,
/// so an earlier reservation always stands closer to the front.
pub proof fn lemma_leaky_bucket_fifo(s: LeakyBucketInner, i: int, j: int)
    requires
        s.wf(),
        0 <= i < j < s.pending@.len(),
    ensures
        s.pending@[i] < s.pending@[j],
{
    assert(s.pending@[i] < s.pending@[j]);
}

/// The front of the queue carries the minimum outstanding ticket: the
/// caller released by `pop_waiter` reserved no later than any caller that
/// keeps waiting, under any interleaving of the leak loop.
pub proof fn lemma_leaky_bucket_releases_earliest(s: LeakyBucketInner)
    requires
        s.wf(),
        s.pending@.len() > 0,
    ensures
        forall|k: int| 0 <= k < s.pending@.len() ==> s.pending@[0] <= #[trigger] s.pending@[k],
{
    assert forall|k: int| 0 <= k < s.pending@.len() implies s.pending@[0]
        <= #[trigger] s.pending@[k] by {
        if k > 0 {
            lemma_leaky_bucket_fifo(s, 0, k);
        }
    }
}

} // verus!
