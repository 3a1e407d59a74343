//! Sliding window log rate limiter: one timestamp is kept per admitted
//! unit; admission counts the unexpired entries, so the window is exact.
use vstd::prelude::*;

verus! {

/// `n` copies of `x`.
pub open spec fn rep(x: u64, n: nat) -> Seq<u64> {
    Seq::new(n, |i: int| x)
}

/// The entries of `s` that are at least `t`, in order.
pub open spec fn keep_ge(s: Seq<u64>, t: u64) -> Seq<u64>
    decreases s.len(),
{
    if s.len() == 0 {
        Seq::<u64>::empty()
    } else {
        let rest = keep_ge(s.drop_last(), t);
        if s.last() >= t {
            rest.push(s.last())
        } else {
            rest
        }
    }
}

/// The start of the window that ends at `now` (saturated at 0).
pub open spec fn win_start(now: u64, interval: u64) -> u64 {
    if now >= interval {
        (now - interval) as u64
    } else {
        0
    }
}

pub proof fn lemma_keep_ge_push(s: Seq<u64>, t: u64, x: u64)
    ensures
        keep_ge(s.push(x), t) == (if x >= t {
            keep_ge(s, t).push(x)
        } else {
            keep_ge(s, t)
        }),
{
    assert(s.push(x).drop_last() =~= s);
    assert(s.push(x).last() == x);
}

pub proof fn lemma_keep_ge_len(s: Seq<u64>, t: u64)
    ensures
        keep_ge(s, t).len() <= s.len(),
    decreases s.len(),
{
    if s.len() > 0 {
        lemma_keep_ge_len(s.drop_last(), t);
    }
}

/// Filtering at a lower threshold first does not lose entries at or above a
/// higher one.
pub proof fn lemma_keep_ge_keep_ge(s: Seq<u64>, t1: u64, t2: u64)
    requires
        t1 <= t2,
    ensures
        keep_ge(keep_ge(s, t1), t2) == keep_ge(s, t2),
    decreases s.len(),
{
    if s.len() > 0 {
        lemma_keep_ge_keep_ge(s.drop_last(), t1, t2);
        if s.last() >= t1 {
            lemma_keep_ge_push(keep_ge(s.drop_last(), t1), t2, s.last());
        }
    }
}

/// Appending `n` copies of `x` grows the entries at or above `t` by `n`
/// when `x >= t`, and not at all otherwise.
pub proof fn lemma_keep_ge_append_rep(s: Seq<u64>, x: u64, n: nat, t: u64)
    ensures
        keep_ge(s + rep(x, n), t).len() == keep_ge(s, t).len() + (if x >= t {
            n as int
        } else {
            0
        }),
    decreases n,
{
    if n == 0 {
        assert(s + rep(x, 0) =~= s);
    } else {
        assert(s + rep(x, n) =~= (s + rep(x, (n - 1) as nat)).push(x));
        lemma_keep_ge_push(s + rep(x, (n - 1) as nat), t, x);
        lemma_keep_ge_append_rep(s, x, (n - 1) as nat, t);
    }
}

/// Accounting state of a sliding window log.
pub struct SlidingWindowLogInner {
    /// Maximum number of units admitted within the window.
    pub size: u64,
    /// Window length in nanoseconds.
    pub interval: u64,
    /// Timestamps of admitted units, in admission order.
    pub logs: Vec<u64>,
}

/// A sliding window log rate limiter.  `allow_n(n)` first tries to admit on
/// the raw log (the fast path, no pruning); if that fails it prunes entries
/// older than `now - interval` and tries exactly once more.  Admission is
/// all-or-nothing.
pub struct SlidingWindowLog {
    pub inner: SlidingWindowLogInner,
}

/// One call on the log of a limiter with configuration `(size, interval)`:
/// the resulting log and whether the call admits.
pub open spec fn swl_step(size: u64, interval: u64, logs: Seq<u64>, n: u64, now: u64) -> (
    Seq<u64>,
    bool,
) {
    if logs.len() + n <= size {
        (logs + rep(now, n as nat), true)
    } else {
        let pruned = keep_ge(logs, win_start(now, interval));
        if pruned.len() + n <= size {
            (pruned + rep(now, n as nat), true)
        } else {
            (pruned, false)
        }
    }
}

impl SlidingWindowLogInner {
    /// Well-formedness: a usable configuration and a log within bounds.
    pub open spec fn wf(self) -> bool {
        &&& self.size >= 1
        &&& self.interval >= 1
        &&& self.size <= usize::MAX as u64
        &&& self.logs@.len() <= self.size
    }

    /// One call at instant `now`, on this state's log.
    pub open spec fn spec_allow_logs(self, n: u64, now: u64) -> (Seq<u64>, bool) {
        swl_step(self.size, self.interval, self.logs@, n, now)
    }

    /// Fresh state with an empty log.
    pub fn new_at(size: u64, interval: u64) -> (r: SlidingWindowLogInner)
        requires
            size >= 1,
            interval >= 1,
            size <= usize::MAX as u64,
        ensures
            r.wf(),
            r.size == size,
            r.interval == interval,
            r.logs@ == Seq::<u64>::empty(),
    {
        SlidingWindowLogInner { size, interval, logs: Vec::new() }
    }

    /// Record `n` admissions at instant `now`.
    pub fn append(&mut self, n: u64, now: u64)
        requires
            old(self).wf(),
            old(self).logs@.len() + n <= old(self).size,
        ensures
            final(self).wf(),
            final(self).size == old(self).size,
            final(self).interval == old(self).interval,
            final(self).logs@ == old(self).logs@ + rep(now, n as nat),
    {
        let mut i: u64 = 0;
        proof {
            assert(self.logs@ =~= old(self).logs@ + rep(now, 0));
        }
        while i < n
            invariant
                i <= n,
                self.size == old(self).size,
                self.interval == old(self).interval,
                old(self).wf(),
                old(self).logs@.len() + n <= old(self).size,
                self.logs@ == old(self).logs@ + rep(now, i as nat),
            decreases n - i,
        {
            self.logs.push(now);
            i = i + 1;
            proof {
                assert(old(self).logs@ + rep(now, i as nat) =~= (old(self).logs@ + rep(
                    now,
                    (i - 1) as nat,
                )).push(now));
            }
        }
    }

    /// Admit `n` units at instant `now` iff the raw log has room; no
    /// pruning happens here.
    pub fn try_accept(&mut self, n: u64, now: u64) -> (r: bool)
        requires
            old(self).wf(),
        ensures
            final(self).wf(),
            final(self).size == old(self).size,
            final(self).interval == old(self).interval,
            r == (old(self).logs@.len() + n <= old(self).size),
            r ==> final(self).logs@ == old(self).logs@ + rep(now, n as nat),
            !r ==> final(self).logs@ == old(self).logs@,
    {
        if n <= self.size && self.logs.len() as u64 <= self.size - n {
            self.append(n, now);
            true
        } else {
            false
        }
    }

    /// Drop every log entry older than `threshold`, keeping order.
    pub fn remove_older_than(&mut self, threshold: u64)
        requires
            old(self).wf(),
        ensures
            final(self).wf(),
            final(self).size == old(self).size,
            final(self).interval == old(self).interval,
            final(self).logs@ == keep_ge(old(self).logs@, threshold),
    {
        let mut kept: Vec<u64> = Vec::new();
        let mut i: usize = 0;
        proof {
            assert(self.logs@.take(0) =~= Seq::<u64>::empty());
        }
        while i < self.logs.len()
            invariant
                i <= self.logs@.len(),
                self == old(self),
                old(self).wf(),
                kept@ == keep_ge(self.logs@.take(i as int), threshold),
            decreases self.logs@.len() - i,
        {
            let v: u64 = self.logs[i];
            proof {
                assert(self.logs@.take(i as int + 1).drop_last() =~= self.logs@.take(i as int));
                assert(self.logs@.take(i as int + 1).last() == self.logs@[i as int]);
            }
            if v >= threshold {
                kept.push(v);
            }
            i = i + 1;
        }
        proof {
            assert(self.logs@.take(self.logs@.len() as int) =~= self.logs@);
            lemma_keep_ge_len(self.logs@, threshold);
        }
        self.logs = kept;
    }

    /// Decide admission of `n` units at instant `now`: fast path on the raw
    /// log, else prune and retry once.
    pub fn allow_n_at(&mut self, n: u64, now: u64) -> (r: bool)
        requires
            old(self).wf(),
        ensures
            final(self).wf(),
            final(self).size == old(self).size,
            final(self).interval == old(self).interval,
            final(self).logs@ == old(self).spec_allow_logs(n, now).0,
            r == old(self).spec_allow_logs(n, now).1,
    {
        if self.try_accept(n, now) {
            return true;
        }
        let threshold: u64 = if now >= self.interval {
            now - self.interval
        } else {
            0
        };
        self.remove_older_than(threshold);
        self.try_accept(n, now)
    }
}

impl SlidingWindowLog {
    /// A limiter admitting at most `size` units within any trailing window
    /// of `interval` nanoseconds (default one second).
    pub fn new(size: u64, interval: Option<u64>) -> (r: SlidingWindowLog)
        requires
            size >= 1,
            size <= usize::MAX as u64,
            interval matches Some(i) ==> i >= 1,
        ensures
            r.inner.wf(),
            r.inner.size == size,
            r.inner.interval == (match interval {
                Some(i) => i,
                None => crate::DEFAULT_INTERVAL_NANOS,
            }),
            r.inner.logs@ == Seq::<u64>::empty(),
    {
        let iv: u64 = match interval {
            Some(i) => i,
            None => crate::DEFAULT_INTERVAL_NANOS,
        };
        SlidingWindowLog { inner: SlidingWindowLogInner::new_at(size, iv) }
    }

    /// Admit one unit at the current instant; `allow_n(1)`.
    pub fn allow(&mut self) -> (r: bool)
        requires
            old(self).inner.wf(),
        ensures
            final(self).inner.wf(),
            final(self).inner.size == old(self).inner.size,
            final(self).inner.interval == old(self).inner.interval,
            exists|now: u64|
                #![auto]
                final(self).inner.logs@ == old(self).inner.spec_allow_logs(1, now).0 && r == old(
                    self,
                ).inner.spec_allow_logs(1, now).1,
    {
        self.allow_n(1)
    }

    /// Admit `n` units at the current instant, all-or-nothing.  The log
    /// moves exactly as `spec_allow_logs` says for some clock reading.
    pub fn allow_n(&mut self, n: u64) -> (r: bool)
        requires
            old(self).inner.wf(),
        ensures
            final(self).inner.wf(),
            final(self).inner.size == old(self).inner.size,
            final(self).inner.interval == old(self).inner.interval,
            exists|now: u64|
                #![auto]
                final(self).inner.logs@ == old(self).inner.spec_allow_logs(n, now).0 && r == old(
                    self,
                ).inner.spec_allow_logs(n, now).1,
    {
        let now: u64 = crate::clock::now_nanos();
        self.inner.allow_n_at(n, now)
    }
}

/// The log after a sequence of `(n, now)` calls.
pub open spec fn swl_run(size: u64, interval: u64, logs: Seq<u64>, calls: Seq<(u64, u64)>) -> Seq<
    u64,
>
    decreases calls.len(),
{
    if calls.len() == 0 {
        logs
    } else {
        swl_run(size, interval, swl_step(size, interval, logs, calls[0].0, calls[0].1).0, calls.drop_first())
    }
}

/// Total units admitted over a sequence of `(n, now)` calls.
pub open spec fn swl_admitted(size: u64, interval: u64, logs: Seq<u64>, calls: Seq<(u64, u64)>) -> int
    decreases calls.len(),
{
    if calls.len() == 0 {
        0
    } else {
        let step = swl_step(size, interval, logs, calls[0].0, calls[0].1);
        (if step.1 {
            calls[0].0 as int
        } else {
            0
        }) + swl_admitted(size, interval, step.0, calls.drop_first())
    }
}

/// All-or-nothing admission: an admitted call appends exactly `n` entries
/// stamped `now` (to the raw log on the fast path, to the pruned log on
/// the slow path); a rejected call appends none — at most expired entries
/// have been pruned.
pub proof fn lemma_sliding_window_log_all_or_nothing(
    size: u64,
    interval: u64,
    logs: Seq<u64>,
    n: u64,
    now: u64,
)
    ensures
        swl_step(size, interval, logs, n, now).1 ==> swl_step(size, interval, logs, n, now).0 == (
        if logs.len() + n <= size {
            logs
        } else {
            keep_ge(logs, win_start(now, interval))
        }) + rep(now, n as nat),
        !swl_step(size, interval, logs, n, now).1 ==> swl_step(size, interval, logs, n, now).0
            == keep_ge(logs, win_start(now, interval)),
{
}

/// Exact sliding-window capacity bound: over any sequence of calls whose
/// instants all lie within one window span `[t0, t0 + interval]`, the units
/// admitted plus the entries at or after `t0` already in the log never
/// exceed `size`, and the log itself stays within `size`.
pub proof fn lemma_sliding_window_log_capacity(
    size: u64,
    interval: u64,
    logs: Seq<u64>,
    calls: Seq<(u64, u64)>,
    t0: u64,
)
    requires
        size >= 1,
        interval >= 1,
        logs.len() <= size,
        forall|i: int|
            0 <= i < calls.len() ==> t0 <= (#[trigger] calls[i]).1 && calls[i].1 <= t0 + interval,
    ensures
        swl_admitted(size, interval, logs, calls) + keep_ge(logs, t0).len() <= size,
        swl_run(size, interval, logs, calls).len() <= size,
    decreases calls.len(),
{
    lemma_keep_ge_len(logs, t0);
    if calls.len() > 0 {
        let n = calls[0].0;
        let now = calls[0].1;
        let rest = calls.drop_first();
        let step = swl_step(size, interval, logs, n, now);
        assert(calls[0] == calls[0]);
        let ws = win_start(now, interval);
        assert(ws <= t0);
        if logs.len() + n <= size {
            lemma_keep_ge_append_rep(logs, now, n as nat, t0);
        } else {
            lemma_keep_ge_len(logs, ws);
            lemma_keep_ge_keep_ge(logs, ws, t0);
            let pruned = keep_ge(logs, ws);
            if pruned.len() + n <= size {
                lemma_keep_ge_append_rep(pruned, now, n as nat, t0);
            }
        }
        assert forall|i: int|
            0 <= i < rest.len() implies t0 <= (#[trigger] rest[i]).1 && rest[i].1 <= t0
            + interval by {
            assert(rest[i] == calls[i + 1]);
        }
        lemma_sliding_window_log_capacity(size, interval, step.0, rest, t0);
    }
}

} // verus!
