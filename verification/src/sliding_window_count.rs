//! Sliding window count rate limiter: the window is approximated by a ring
//! of fixed-duration sub-buckets; stale buckets are zeroed as time passes.
use vstd::prelude::*;

verus! {

/// Sum of a sequence of counters, as an unbounded integer.
pub open spec fn seq_sum(s: Seq<u64>) -> int
    decreases s.len(),
{
    if s.len() == 0 {
        0
    } else {
        seq_sum(s.drop_last()) + s.last()
    }
}

pub proof fn lemma_seq_sum_nonneg(s: Seq<u64>)
    ensures
        0 <= seq_sum(s),
    decreases s.len(),
{
    if s.len() > 0 {
        lemma_seq_sum_nonneg(s.drop_last());
    }
}

pub proof fn lemma_seq_sum_push(s: Seq<u64>, x: u64)
    ensures
        seq_sum(s.push(x)) == seq_sum(s) + x,
{
    assert(s.push(x).drop_last() =~= s);
}

/// A prefix never sums to more than the whole.
pub proof fn lemma_seq_sum_take(s: Seq<u64>, i: int)
    requires
        0 <= i <= s.len(),
    ensures
        seq_sum(s.take(i)) <= seq_sum(s),
    decreases s.len(),
{
    if i == s.len() {
        assert(s.take(i) =~= s);
    } else {
        assert(s.drop_last().take(i) =~= s.take(i));
        lemma_seq_sum_take(s.drop_last(), i);
    }
}

pub proof fn lemma_seq_sum_update(s: Seq<u64>, i: int, v: u64)
    requires
        0 <= i < s.len(),
    ensures
        seq_sum(s.update(i, v)) == seq_sum(s) - s[i] + v,
    decreases s.len(),
{
    if i == s.len() - 1 {
        assert(s.update(i, v).drop_last() =~= s.drop_last());
        assert(s.update(i, v).last() == v);
    } else {
        assert(s.update(i, v).drop_last() =~= s.drop_last().update(i, v));
        assert(s.update(i, v).last() == s.last());
        lemma_seq_sum_update(s.drop_last(), i, v);
    }
}

/// Each counter is at most the total.
pub proof fn lemma_seq_sum_elem(s: Seq<u64>, i: int)
    requires
        0 <= i < s.len(),
    ensures
        s[i] <= seq_sum(s),
    decreases s.len(),
{
    if i == s.len() - 1 {
        lemma_seq_sum_nonneg(s.drop_last());
    } else {
        lemma_seq_sum_elem(s.drop_last(), i);
    }
}

/// Pointwise smaller counters sum to no more.
pub proof fn lemma_seq_sum_le(a: Seq<u64>, b: Seq<u64>)
    requires
        a.len() == b.len(),
        forall|j: int| 0 <= j < a.len() ==> a[j] <= b[j],
    ensures
        seq_sum(a) <= seq_sum(b),
    decreases a.len(),
{
    if a.len() > 0 {
        lemma_seq_sum_le(a.drop_last(), b.drop_last());
    }
}

/// How far around the ring position `j` lies from `start` (both in
/// `[0, len)`).
pub open spec fn ring_off(j: int, start: int, len: int) -> int {
    if j >= start {
        j - start
    } else {
        j + len - start
    }
}

/// `start` advanced by `k` positions around a ring of `len` (`k <= len`).
pub open spec fn ring_add(start: int, k: int, len: int) -> int {
    if start + k < len {
        start + k
    } else {
        start + k - len
    }
}

/// The ring with the `passed` buckets from `start` onward cleared.
pub open spec fn zeroed_buckets(b: Seq<u64>, start: int, passed: int) -> Seq<u64> {
    Seq::new(
        b.len(),
        |j: int|
            if ring_off(j, start, b.len() as int) < passed {
                0u64
            } else {
                b[j]
            },
    )
}

/// How many sub-buckets of length `bucket_interval` have passed between
/// the last roll `lu` and `now`, capped at the ring size `b_len`.
pub open spec fn swc_passed(bucket_interval: u64, b_len: int, lu: u64, now: u64) -> int {
    let elapsed: int = if now >= lu {
        now - lu
    } else {
        0
    };
    let c: int = elapsed / (bucket_interval as int);
    if c > b_len {
        b_len
    } else {
        c
    }
}

/// One call on the ring of a limiter with configuration
/// `(win_size, bucket_interval)`; the mutable part of the state is
/// `(buckets, last_index, last_update)`.
pub open spec fn swc_step(
    win_size: u64,
    bucket_interval: u64,
    b: Seq<u64>,
    idx: int,
    lu: u64,
    n: u64,
    now: u64,
) -> ((Seq<u64>, int, u64), bool) {
    let passed: int = swc_passed(bucket_interval, b.len() as int, lu, now);
    let b2 = zeroed_buckets(b, idx, passed);
    let idx2 = ring_add(idx, passed, b.len() as int);
    if seq_sum(b2) + n <= win_size {
        ((b2.update(idx2, (b2[idx2] + n) as u64), idx2, now), true)
    } else {
        ((b2, idx2, now), false)
    }
}

/// Accounting state of a sliding window counter.
pub struct SlidingWindowCountInner {
    /// Ring of per-sub-bucket admission counts.
    pub buckets: Vec<u64>,
    /// Maximum number of units admitted within the window.
    pub win_size: u64,
    /// Length of one sub-bucket in nanoseconds.
    pub bucket_interval: u64,
    /// Instant of the last bucket roll, nanoseconds.
    pub last_update: u64,
    /// Index of the bucket currently being filled.
    pub last_index: usize,
}

/// A sliding window rate limiter counting admissions in a ring of
/// sub-buckets.  `allow_n(n)` first zeroes the buckets that have fallen out
/// of the window (a full wrap clears everything), then admits `n` units iff
/// the bucket total stays within `win_size`.
pub struct SlidingWindowCount {
    pub inner: SlidingWindowCountInner,
}

impl SlidingWindowCountInner {
    /// Well-formedness: a usable configuration and totals within bounds.
    pub open spec fn wf(self) -> bool {
        &&& self.win_size >= 1
        &&& self.bucket_interval >= 1
        &&& self.buckets@.len() >= 1
        &&& self.last_index < self.buckets@.len()
        &&& seq_sum(self.buckets@) <= self.win_size
    }

    /// How many sub-buckets have passed since the last roll, capped at the
    /// ring size.
    pub open spec fn spec_bucket_passed(self, now: u64) -> int {
        swc_passed(self.bucket_interval, self.buckets@.len() as int, self.last_update, now)
    }

    /// One call at instant `now` on this state's ring.
    pub open spec fn spec_allow_n(self, n: u64, now: u64) -> ((Seq<u64>, int, u64), bool) {
        swc_step(
            self.win_size,
            self.bucket_interval,
            self.buckets@,
            self.last_index as int,
            self.last_update,
            n,
            now,
        )
    }

    /// How many sub-buckets have passed since the last roll, capped at the
    /// ring size (a full wrap clears everything).
    pub fn bucket_passed(&self, now: u64) -> (r: usize)
        requires
            self.wf(),
        ensures
            r == self.spec_bucket_passed(now),
            r <= self.buckets@.len(),
    {
        let elapsed: u64 = if now >= self.last_update {
            now - self.last_update
        } else {
            0
        };
        let count: u64 = elapsed / self.bucket_interval;
        let len: usize = self.buckets.len();
        if count > len as u64 {
            len
        } else {
            count as usize
        }
    }

    /// Zero the buckets that have fallen out of the window and move the
    /// ring index and roll instant forward.
    pub fn update_buckets(&mut self, now: u64)
        requires
            old(self).wf(),
        ensures
            final(self).wf(),
            final(self).win_size == old(self).win_size,
            final(self).bucket_interval == old(self).bucket_interval,
            final(self).buckets@ == zeroed_buckets(
                old(self).buckets@,
                old(self).last_index as int,
                old(self).spec_bucket_passed(now),
            ),
            final(self).last_index as int == ring_add(
                old(self).last_index as int,
                old(self).spec_bucket_passed(now),
                old(self).buckets@.len() as int,
            ),
            final(self).last_update == now,
    {
        let passed: usize = self.bucket_passed(now);
        let len: usize = self.buckets.len();
        let start: usize = self.last_index;
        let mut i: usize = 0;
        proof {
            assert(self.buckets@ =~= zeroed_buckets(old(self).buckets@, start as int, 0));
        }
        while i < passed
            invariant
                i <= passed,
                passed <= len,
                len == self.buckets@.len(),
                len == old(self).buckets@.len(),
                start == old(self).last_index,
                start < len,
                self.win_size == old(self).win_size,
                self.bucket_interval == old(self).bucket_interval,
                self.last_index == old(self).last_index,
                self.last_update == old(self).last_update,
                self.buckets@ == zeroed_buckets(old(self).buckets@, start as int, i as int),
            decreases passed - i,
        {
            let idx: usize = if i < len - start {
                start + i
            } else {
                i - (len - start)
            };
            proof {
                assert(ring_off(idx as int, start as int, len as int) == i as int);
            }
            self.buckets.set(idx, 0);
            i = i + 1;
            proof {
                assert(self.buckets@ =~= zeroed_buckets(old(self).buckets@, start as int, i as int));
            }
        }
        self.last_index = if passed < len - start {
            start + passed
        } else {
            start - (len - passed)
        };
        self.last_update = now;
        proof {
            assert(forall|j: int|
                0 <= j < len ==> final(self).buckets@[j] <= old(self).buckets@[j]);
            lemma_seq_sum_le(final(self).buckets@, old(self).buckets@);
        }
    }

    /// Total units currently counted in the ring.
    pub fn total_count(&self) -> (r: u64)
        requires
            self.wf(),
        ensures
            r == seq_sum(self.buckets@),
    {
        let mut acc: u64 = 0;
        let mut i: usize = 0;
        proof {
            assert(self.buckets@.take(0) =~= Seq::<u64>::empty());
        }
        while i < self.buckets.len()
            invariant
                self.wf(),
                i <= self.buckets@.len(),
                acc == seq_sum(self.buckets@.take(i as int)),
            decreases self.buckets@.len() - i,
        {
            proof {
                lemma_seq_sum_take(self.buckets@, i as int + 1);
                assert(self.buckets@.take(i as int + 1).drop_last() =~= self.buckets@.take(
                    i as int,
                ));
                assert(self.buckets@.take(i as int + 1).last() == self.buckets@[i as int]);
                lemma_seq_sum_nonneg(self.buckets@.take(i as int));
            }
            acc = acc + self.buckets[i];
            i = i + 1;
        }
        proof {
            assert(self.buckets@.take(self.buckets@.len() as int) =~= self.buckets@);
        }
        acc
    }

    /// Count `n` admitted units in the current bucket.
    pub fn add_requests(&mut self, n: u64)
        requires
            old(self).wf(),
            seq_sum(old(self).buckets@) + n <= old(self).win_size,
        ensures
            final(self).wf(),
            final(self).win_size == old(self).win_size,
            final(self).bucket_interval == old(self).bucket_interval,
            final(self).last_index == old(self).last_index,
            final(self).last_update == old(self).last_update,
            final(self).buckets@ == old(self).buckets@.update(
                old(self).last_index as int,
                (old(self).buckets@[old(self).last_index as int] + n) as u64,
            ),
    {
        proof {
            lemma_seq_sum_elem(self.buckets@, self.last_index as int);
        }
        let cur: u64 = self.buckets[self.last_index];
        self.buckets.set(self.last_index, cur + n);
        proof {
            lemma_seq_sum_update(old(self).buckets@, old(self).last_index as int, (cur + n) as u64);
        }
    }

    /// Decide admission of `n` units at instant `now`.
    pub fn allow_n_at(&mut self, n: u64, now: u64) -> (r: bool)
        requires
            old(self).wf(),
        ensures
            final(self).wf(),
            final(self).win_size == old(self).win_size,
            final(self).bucket_interval == old(self).bucket_interval,
            final(self).buckets@ == old(self).spec_allow_n(n, now).0.0,
            final(self).last_index as int == old(self).spec_allow_n(n, now).0.1,
            final(self).last_update == old(self).spec_allow_n(n, now).0.2,
            r == old(self).spec_allow_n(n, now).1,
    {
        self.update_buckets(now);
        let total: u64 = self.total_count();
        if n <= self.win_size && total <= self.win_size - n {
            self.add_requests(n);
            true
        } else {
            false
        }
    }
}

impl SlidingWindowCount {
    /// A limiter admitting at most `win_size` units within a window of
    /// `interval` nanoseconds, tracked in `bucket_count` sub-buckets of
    /// `interval / bucket_count` nanoseconds each.
    pub fn new(win_size: u64, interval: u64, bucket_count: u64) -> (r: SlidingWindowCount)
        requires
            win_size >= 1,
            bucket_count >= 1,
            bucket_count <= usize::MAX as u64,
            interval >= bucket_count,
        ensures
            r.inner.wf(),
            r.inner.win_size == win_size,
            r.inner.bucket_interval == interval / bucket_count,
            r.inner.buckets@.len() == bucket_count,
            seq_sum(r.inner.buckets@) == 0,
            r.inner.last_index == 0,
    {
        let mut buckets: Vec<u64> = Vec::new();
        let mut i: u64 = 0;
        while i < bucket_count
            invariant
                i <= bucket_count,
                bucket_count <= usize::MAX as u64,
                buckets@.len() == i,
                seq_sum(buckets@) == 0,
            decreases bucket_count - i,
        {
            proof {
                lemma_seq_sum_push(buckets@, 0);
            }
            buckets.push(0);
            i = i + 1;
        }
        proof {
            vstd::arithmetic::div_mod::lemma_div_by_self(bucket_count as int);
            vstd::arithmetic::div_mod::lemma_div_is_ordered(
                bucket_count as int,
                interval as int,
                bucket_count as int,
            );
        }
        let now: u64 = crate::clock::now_nanos();
        SlidingWindowCount {
            inner: SlidingWindowCountInner {
                buckets,
                win_size,
                bucket_interval: interval / bucket_count,
                last_update: now,
                last_index: 0,
            },
        }
    }

    /// Admit one unit at the current instant; `allow_n(1)`.
    pub fn allow(&mut self) -> (r: bool)
        requires
            old(self).inner.wf(),
        ensures
            final(self).inner.wf(),
            final(self).inner.win_size == old(self).inner.win_size,
            final(self).inner.bucket_interval == old(self).inner.bucket_interval,
            exists|now: u64|
                #![auto]
                final(self).inner.buckets@ == old(self).inner.spec_allow_n(1, now).0.0
                    && final(self).inner.last_index as int == old(self).inner.spec_allow_n(1, now).0.1
                    && final(self).inner.last_update == old(self).inner.spec_allow_n(1, now).0.2
                    && r == old(self).inner.spec_allow_n(1, now).1,
    {
        self.allow_n(1)
    }

    /// Admit `n` units at the current instant, all-or-nothing.  The ring
    /// moves exactly as `spec_allow_n` says for some clock reading.
    pub fn allow_n(&mut self, n: u64) -> (r: bool)
        requires
            old(self).inner.wf(),
        ensures
            final(self).inner.wf(),
            final(self).inner.win_size == old(self).inner.win_size,
            final(self).inner.bucket_interval == old(self).inner.bucket_interval,
            exists|now: u64|
                #![auto]
                final(self).inner.buckets@ == old(self).inner.spec_allow_n(n, now).0.0
                    && final(self).inner.last_index as int == old(self).inner.spec_allow_n(n, now).0.1
                    && final(self).inner.last_update == old(self).inner.spec_allow_n(n, now).0.2
                    && r == old(self).inner.spec_allow_n(n, now).1,
    {
        let now: u64 = crate::clock::now_nanos();
        self.inner.allow_n_at(n, now)
    }
}

/// All-or-nothing admission: an admitted call adds exactly `n` units to
/// the rolled ring's total; a rejected call adds nothing — the ring is
/// exactly the rolled ring.
pub proof fn lemma_sliding_window_count_all_or_nothing(
    win_size: u64,
    bucket_interval: u64,
    b: Seq<u64>,
    idx: int,
    lu: u64,
    n: u64,
    now: u64,
)
    requires
        win_size >= 1,
        bucket_interval >= 1,
        b.len() >= 1,
        0 <= idx < b.len(),
        seq_sum(b) <= win_size,
    ensures
        swc_step(win_size, bucket_interval, b, idx, lu, n, now).1 ==> seq_sum(
            swc_step(win_size, bucket_interval, b, idx, lu, n, now).0.0,
        ) == seq_sum(zeroed_buckets(b, idx, swc_passed(bucket_interval, b.len() as int, lu, now)))
            + n,
        !swc_step(win_size, bucket_interval, b, idx, lu, n, now).1 ==> swc_step(
            win_size,
            bucket_interval,
            b,
            idx,
            lu,
            n,
            now,
        ).0.0 == zeroed_buckets(b, idx, swc_passed(bucket_interval, b.len() as int, lu, now)),
{
    let elapsed: int = if now >= lu {
        now - lu
    } else {
        0
    };
    vstd::arithmetic::div_mod::lemma_div_pos_is_pos(elapsed, bucket_interval as int);
    let passed: int = swc_passed(bucket_interval, b.len() as int, lu, now);
    let b2 = zeroed_buckets(b, idx, passed);
    let idx2 = ring_add(idx, passed, b.len() as int);
    assert(forall|j: int| 0 <= j < b.len() ==> #[trigger] b2[j] <= b[j]);
    lemma_seq_sum_le(b2, b);
    if seq_sum(b2) + n <= win_size {
        lemma_seq_sum_elem(b2, idx2);
        lemma_seq_sum_update(b2, idx2, (b2[idx2] + n) as u64);
    }
}

/// The mutable state `(buckets, last_index, last_update)` after a sequence
/// of `(n, now)` calls.
pub open spec fn swc_run(
    win_size: u64,
    bucket_interval: u64,
    b: Seq<u64>,
    idx: int,
    lu: u64,
    calls: Seq<(u64, u64)>,
) -> (Seq<u64>, int, u64)
    decreases calls.len(),
{
    if calls.len() == 0 {
        (b, idx, lu)
    } else {
        let st = swc_step(win_size, bucket_interval, b, idx, lu, calls[0].0, calls[0].1);
        swc_run(win_size, bucket_interval, st.0.0, st.0.1, st.0.2, calls.drop_first())
    }
}

/// Total units admitted over a sequence of `(n, now)` calls.
pub open spec fn swc_admitted(
    win_size: u64,
    bucket_interval: u64,
    b: Seq<u64>,
    idx: int,
    lu: u64,
    calls: Seq<(u64, u64)>,
) -> int
    decreases calls.len(),
{
    if calls.len() == 0 {
        0
    } else {
        let st = swc_step(win_size, bucket_interval, b, idx, lu, calls[0].0, calls[0].1);
        (if st.1 {
            calls[0].0 as int
        } else {
            0
        }) + swc_admitted(win_size, bucket_interval, st.0.0, st.0.1, st.0.2, calls.drop_first())
    }
}

/// One call keeps the ring's shape and keeps its total within `win_size`.
pub proof fn lemma_swc_step_wf(
    win_size: u64,
    bucket_interval: u64,
    b: Seq<u64>,
    idx: int,
    lu: u64,
    n: u64,
    now: u64,
)
    requires
        win_size >= 1,
        bucket_interval >= 1,
        b.len() >= 1,
        0 <= idx < b.len(),
        seq_sum(b) <= win_size,
    ensures
        swc_step(win_size, bucket_interval, b, idx, lu, n, now).0.0.len() == b.len(),
        0 <= swc_step(win_size, bucket_interval, b, idx, lu, n, now).0.1 < b.len(),
        seq_sum(swc_step(win_size, bucket_interval, b, idx, lu, n, now).0.0) <= win_size,
{
    lemma_sliding_window_count_all_or_nothing(win_size, bucket_interval, b, idx, lu, n, now);
    let elapsed: int = if now >= lu {
        now - lu
    } else {
        0
    };
    vstd::arithmetic::div_mod::lemma_div_pos_is_pos(elapsed, bucket_interval as int);
    let passed: int = swc_passed(bucket_interval, b.len() as int, lu, now);
    let b2 = zeroed_buckets(b, idx, passed);
    assert(forall|j: int| 0 <= j < b.len() ==> #[trigger] b2[j] <= b[j]);
    lemma_seq_sum_le(b2, b);
}

/// Approximate capacity bound, state part: after any sequence of calls the
/// ring total — the number of units the window currently counts — never
/// exceeds `win_size`.
pub proof fn lemma_sliding_window_count_invariant(
    win_size: u64,
    bucket_interval: u64,
    b: Seq<u64>,
    idx: int,
    lu: u64,
    calls: Seq<(u64, u64)>,
)
    requires
        win_size >= 1,
        bucket_interval >= 1,
        b.len() >= 1,
        0 <= idx < b.len(),
        seq_sum(b) <= win_size,
    ensures
        swc_run(win_size, bucket_interval, b, idx, lu, calls).0.len() == b.len(),
        0 <= swc_run(win_size, bucket_interval, b, idx, lu, calls).1 < b.len(),
        seq_sum(swc_run(win_size, bucket_interval, b, idx, lu, calls).0) <= win_size,
    decreases calls.len(),
{
    if calls.len() > 0 {
        let st = swc_step(win_size, bucket_interval, b, idx, lu, calls[0].0, calls[0].1);
        lemma_swc_step_wf(win_size, bucket_interval, b, idx, lu, calls[0].0, calls[0].1);
        lemma_sliding_window_count_invariant(
            win_size,
            bucket_interval,
            st.0.0,
            st.0.1,
            st.0.2,
            calls.drop_first(),
        );
    }
}

/// Approximate capacity bound, span part: over calls that all fall within
/// one sub-bucket span, no bucket is cleared, so the units admitted never
/// exceed the remaining budget `win_size - seq_sum(b)`.
pub proof fn lemma_sliding_window_count_capacity(
    win_size: u64,
    bucket_interval: u64,
    b: Seq<u64>,
    idx: int,
    lu: u64,
    t0: u64,
    calls: Seq<(u64, u64)>,
)
    requires
        win_size >= 1,
        bucket_interval >= 1,
        b.len() >= 1,
        0 <= idx < b.len(),
        seq_sum(b) <= win_size,
        t0 <= lu < t0 + bucket_interval,
        forall|i: int|
            0 <= i < calls.len() ==> t0 <= (#[trigger] calls[i]).1 && calls[i].1 < t0
                + bucket_interval,
    ensures
        swc_admitted(win_size, bucket_interval, b, idx, lu, calls) + seq_sum(b) <= win_size,
    decreases calls.len(),
{
    if calls.len() > 0 {
        let n = calls[0].0;
        let now = calls[0].1;
        let elapsed: int = if now >= lu {
            now - lu
        } else {
            0
        };
        assert(0 <= elapsed < bucket_interval);
        vstd::arithmetic::div_mod::lemma_basic_div(elapsed, bucket_interval as int);
        assert(swc_passed(bucket_interval, b.len() as int, lu, now) == 0);
        assert(zeroed_buckets(b, idx, 0) =~= b);
        let st = swc_step(win_size, bucket_interval, b, idx, lu, n, now);
        let rest = calls.drop_first();
        assert forall|i: int|
            0 <= i < rest.len() implies t0 <= (#[trigger] rest[i]).1 && rest[i].1 < t0
            + bucket_interval by {
            assert(rest[i] == calls[i + 1]);
        }
        if seq_sum(b) + n <= win_size {
            lemma_seq_sum_elem(b, idx);
            lemma_seq_sum_update(b, idx, (b[idx] + n) as u64);
            lemma_sliding_window_count_capacity(
                win_size,
                bucket_interval,
                st.0.0,
                idx,
                now,
                t0,
                rest,
            );
        } else {
            lemma_sliding_window_count_capacity(win_size, bucket_interval, b, idx, now, t0, rest);
        }
    }
}

} // verus!
