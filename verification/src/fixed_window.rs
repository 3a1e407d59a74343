//! Fixed window rate limiter: a counter that resets to zero at fixed
//! interval-aligned boundaries (aligned to the construction instant, not to
//! the wall-clock epoch).
use vstd::prelude::*;

verus! {

/// `a + b`, saturated to the `u64` domain.
pub open spec fn sat_add(a: u64, b: u64) -> u64 {
    if a + b <= u64::MAX {
        (a + b) as u64
    } else {
        u64::MAX
    }
}

/// Accounting state of a fixed window limiter.
pub struct FixedWindowInner {
    /// Maximum number of units admitted within one window.
    pub size: u64,
    /// Units admitted in the current window.
    pub count: u64,
    /// Window length in nanoseconds.
    pub interval: u64,
    /// Start of the current window, nanoseconds.
    pub last_update: u64,
    /// Start of the next window, nanoseconds (saturated).
    pub next_win_time: u64,
}

/// A fixed window rate limiter.  `allow_n(n)` admits `n` units iff they fit
/// in the current window's remaining budget; crossing a window boundary
/// resets the budget once, however many boundaries have passed.
pub struct FixedWindow {
    pub inner: FixedWindowInner,
}

impl FixedWindowInner {
    /// Well-formedness: a usable configuration and consistent bookkeeping.
    pub open spec fn wf(self) -> bool {
        &&& self.size >= 1
        &&& self.interval >= 1
        &&& self.count <= self.size
        &&& self.next_win_time == sat_add(self.last_update, self.interval)
    }

    /// Advance the window to the one containing `now`; at a boundary the
    /// count resets to zero exactly once, no matter how many whole windows
    /// have passed.
    pub open spec fn spec_roll(self, now: u64) -> FixedWindowInner {
        if now >= self.next_win_time {
            let passed: int = (now - self.last_update) / (self.interval as int);
            let new_last: u64 = (self.last_update + passed * self.interval) as u64;
            FixedWindowInner {
                count: 0,
                last_update: new_last,
                next_win_time: sat_add(new_last, self.interval),
                ..self
            }
        } else {
            self
        }
    }

    /// Admit `n` units iff they fit; all-or-nothing.
    pub open spec fn spec_admit(self, n: u64) -> (FixedWindowInner, bool) {
        if self.count + n > self.size {
            (self, false)
        } else {
            (FixedWindowInner { count: (self.count + n) as u64, ..self }, true)
        }
    }

    /// One call at instant `now`: roll the window, then decide admission.
    pub open spec fn spec_allow_n(self, n: u64, now: u64) -> (FixedWindowInner, bool) {
        self.spec_roll(now).spec_admit(n)
    }

    /// Fresh state whose first window starts at `now`.
    pub fn new_at(size: u64, interval: u64, now: u64) -> (r: FixedWindowInner)
        requires
            size >= 1,
            interval >= 1,
        ensures
            r.wf(),
            r.size == size,
            r.count == 0,
            r.interval == interval,
            r.last_update == now,
            r.next_win_time == sat_add(now, interval),
    {
        let next_win_time: u64 = if now <= u64::MAX - interval {
            now + interval
        } else {
            u64::MAX
        };
        FixedWindowInner { size, count: 0, interval, last_update: now, next_win_time }
    }

    /// Fresh state whose first window starts at the current instant.
    /// `interval` defaults to one second.
    pub fn new(size: u64, interval: Option<u64>) -> (r: FixedWindowInner)
        requires
            size >= 1,
            interval matches Some(i) ==> i >= 1,
        ensures
            r.wf(),
            r.size == size,
            r.count == 0,
            r.interval == (match interval {
                Some(i) => i,
                None => crate::DEFAULT_INTERVAL_NANOS,
            }),
    {
        let iv: u64 = match interval {
            Some(i) => i,
            None => crate::DEFAULT_INTERVAL_NANOS,
        };
        let now: u64 = crate::clock::now_nanos();
        Self::new_at(size, iv, now)
    }

    /// Decide admission of `n` units at instant `now`.
    pub fn allow_n_at(&mut self, n: u64, now: u64) -> (r: bool)
        requires
            old(self).wf(),
        ensures
            final(self).wf(),
            *final(self) == old(self).spec_allow_n(n, now).0,
            r == old(self).spec_allow_n(n, now).1,
    {
        if now >= self.next_win_time {
            let elapsed: u64 = now - self.last_update;
            let passed: u64 = elapsed / self.interval;
            proof {
                vstd::arithmetic::div_mod::lemma_fundamental_div_mod(
                    elapsed as int,
                    self.interval as int,
                );
                vstd::arithmetic::div_mod::lemma_mod_bound(elapsed as int, self.interval as int);
                vstd::arithmetic::mul::lemma_mul_is_commutative(
                    passed as int,
                    self.interval as int,
                );
                assert(passed * self.interval <= elapsed);
            }
            self.count = 0;
            self.last_update = self.last_update + passed * self.interval;
            self.next_win_time = if self.last_update <= u64::MAX - self.interval {
                self.last_update + self.interval
            } else {
                u64::MAX
            };
        }
        if n > self.size || self.count > self.size - n {
            false
        } else {
            self.count = self.count + n;
            true
        }
    }
}

impl FixedWindow {
    /// A limiter admitting at most `size` units per window of `interval`
    /// nanoseconds (default one second), starting now.
    pub fn new(size: u64, interval: Option<u64>) -> (r: FixedWindow)
        requires
            size >= 1,
            interval matches Some(i) ==> i >= 1,
        ensures
            r.inner.wf(),
            r.inner.size == size,
            r.inner.count == 0,
            r.inner.interval == (match interval {
                Some(i) => i,
                None => crate::DEFAULT_INTERVAL_NANOS,
            }),
    {
        FixedWindow { inner: FixedWindowInner::new(size, interval) }
    }

    /// Admit one unit at the current instant; `allow_n(1)`.
    pub fn allow(&mut self) -> (r: bool)
        requires
            old(self).inner.wf(),
        ensures
            final(self).inner.wf(),
            final(self).inner.size == old(self).inner.size,
            final(self).inner.interval == old(self).inner.interval,
            exists|now: u64|
                #![auto]
                final(self).inner == old(self).inner.spec_allow_n(1, now).0 && r == old(
                    self,
                ).inner.spec_allow_n(1, now).1,
    {
        self.allow_n(1)
    }

    /// Admit `n` units at the current instant, all-or-nothing.  The state
    /// moves exactly as `spec_allow_n` says for some clock reading.
    pub fn allow_n(&mut self, n: u64) -> (r: bool)
        requires
            old(self).inner.wf(),
        ensures
            final(self).inner.wf(),
            final(self).inner.size == old(self).inner.size,
            final(self).inner.interval == old(self).inner.interval,
            exists|now: u64|
                #![auto]
                final(self).inner == old(self).inner.spec_allow_n(n, now).0 && r == old(
                    self,
                ).inner.spec_allow_n(n, now).1,
    {
        let now: u64 = crate::clock::now_nanos();
        self.inner.allow_n_at(n, now)
    }
}

/// The state after a sequence of `(n, now)` calls.
pub open spec fn fw_run(s: FixedWindowInner, calls: Seq<(u64, u64)>) -> FixedWindowInner
    decreases calls.len(),
{
    if calls.len() == 0 {
        s
    } else {
        fw_run(s.spec_allow_n(calls[0].0, calls[0].1).0, calls.drop_first())
    }
}

/// Total units admitted over a sequence of `(n, now)` calls.
pub open spec fn fw_admitted(s: FixedWindowInner, calls: Seq<(u64, u64)>) -> int
    decreases calls.len(),
{
    if calls.len() == 0 {
        0
    } else {
        let step = s.spec_allow_n(calls[0].0, calls[0].1);
        (if step.1 {
            calls[0].0 as int
        } else {
            0
        }) + fw_admitted(step.0, calls.drop_first())
    }
}

/// Capacity bound: over any sequence of calls that stay inside the current
/// window, the units admitted on top of the current count never exceed
/// `size`, and the window bookkeeping does not move.
pub proof fn lemma_fixed_window_capacity(s: FixedWindowInner, calls: Seq<(u64, u64)>)
    requires
        s.wf(),
        forall|i: int| 0 <= i < calls.len() ==> (#[trigger] calls[i]).1 < s.next_win_time,
    ensures
        fw_run(s, calls).wf(),
        fw_run(s, calls).count == s.count + fw_admitted(s, calls),
        s.count + fw_admitted(s, calls) <= s.size,
        fw_run(s, calls).last_update == s.last_update,
        fw_run(s, calls).next_win_time == s.next_win_time,
        fw_run(s, calls).size == s.size,
        fw_run(s, calls).interval == s.interval,
    decreases calls.len(),
{
    if calls.len() > 0 {
        let step = s.spec_allow_n(calls[0].0, calls[0].1);
        let rest = calls.drop_first();
        assert forall|i: int| 0 <= i < rest.len() implies (#[trigger] rest[i]).1
            < step.0.next_win_time by {
            assert(rest[i] == calls[i + 1]);
        }
        lemma_fixed_window_capacity(step.0, rest);
    }
}

/// All-or-nothing admission: an admitted call records exactly `n` units on
/// top of the rolled window's count; a rejected call records nothing — the
/// state is exactly the rolled state.
pub proof fn lemma_fixed_window_all_or_nothing(s: FixedWindowInner, n: u64, now: u64)
    requires
        s.wf(),
    ensures
        s.spec_allow_n(n, now).1 ==> s.spec_allow_n(n, now).0.count == s.spec_roll(now).count + n,
        !s.spec_allow_n(n, now).1 ==> s.spec_allow_n(n, now).0 == s.spec_roll(now),
        s.spec_allow_n(n, now).1 == (s.spec_roll(now).count + n <= s.size),
{
}

/// Window reset: a call at or past the window boundary finds a fresh budget,
/// so any `n` up to `size` is admitted and becomes the whole new count.
pub proof fn lemma_fixed_window_fresh_window(s: FixedWindowInner, n: u64, now: u64)
    requires
        s.wf(),
        now >= s.next_win_time,
        1 <= n <= s.size,
    ensures
        s.spec_allow_n(n, now).1,
        s.spec_allow_n(n, now).0.count == n,
{
    vstd::arithmetic::div_mod::lemma_fundamental_div_mod(
        now - s.last_update,
        s.interval as int,
    );
}

} // verus!
