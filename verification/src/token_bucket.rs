//! Token bucket rate limiter: tokens accrue at a fixed rate up to a
//! capacity; admission consumes tokens.
use vstd::prelude::*;

verus! {

/// The smaller of two integers.
pub open spec fn min64(a: int, b: int) -> int {
    if a <= b {
        a
    } else {
        b
    }
}

/// Accounting state of a token bucket.
pub struct TokenBucketInner {
    /// Tokens currently available.
    pub tokens: u64,
    /// Maximum number of tokens the bucket can hold.
    pub capacity: u64,
    /// Tokens added per refill interval.
    pub refill_rate: u64,
    /// Refill interval in nanoseconds.
    pub refill_interval: u64,
    /// Instant of the last refill, nanoseconds.
    pub last_refill_time: u64,
}

/// A token bucket rate limiter.  `allow_n(n)` first credits all whole refill
/// intervals that have elapsed (capped at `capacity`), then admits `n` units
/// iff `n` tokens are available.  The refill happens even on rejected calls.
pub struct TokenBucket {
    pub inner: TokenBucketInner,
}

impl TokenBucketInner {
    /// Well-formedness: a usable configuration and tokens within capacity.
    pub open spec fn wf(self) -> bool {
        &&& self.capacity >= 1
        &&& self.refill_interval >= 1
        &&& self.tokens <= self.capacity
    }

    /// Credit all whole refill intervals elapsed up to `now`: `k` intervals
    /// add `k * refill_rate` tokens, capped at `capacity`, and move
    /// `last_refill_time` forward by exactly `k` intervals (fractional
    /// credit is never lost to snapping).
    pub open spec fn spec_advance(self, now: u64) -> TokenBucketInner {
        let elapsed: int = if now >= self.last_refill_time {
            now - self.last_refill_time
        } else {
            0
        };
        if elapsed < self.refill_interval {
            self
        } else {
            let k: int = elapsed / (self.refill_interval as int);
            TokenBucketInner {
                tokens: min64(self.capacity as int, self.tokens + k * self.refill_rate) as u64,
                last_refill_time: (self.last_refill_time + k * self.refill_interval) as u64,
                ..self
            }
        }
    }

    /// One call at instant `now`: refill, then consume `n` tokens iff
    /// available; all-or-nothing, and the refill sticks either way.
    pub open spec fn spec_allow_n(self, n: u64, now: u64) -> (TokenBucketInner, bool) {
        let s = self.spec_advance(now);
        if n > s.tokens {
            (s, false)
        } else {
            (TokenBucketInner { tokens: (s.tokens - n) as u64, ..s }, true)
        }
    }

    /// Fresh state, full to capacity, whose refill clock starts at `now`.
    pub fn new_at(capacity: u64, refill_rate: u64, refill_interval: u64, now: u64) -> (r:
        TokenBucketInner)
        requires
            capacity >= 1,
            refill_interval >= 1,
        ensures
            r.wf(),
            r.tokens == capacity,
            r.capacity == capacity,
            r.refill_rate == refill_rate,
            r.refill_interval == refill_interval,
            r.last_refill_time == now,
    {
        TokenBucketInner {
            tokens: capacity,
            capacity,
            refill_rate,
            refill_interval,
            last_refill_time: now,
        }
    }

    /// Credit elapsed refill intervals at instant `now`.
    pub fn advance_at(&mut self, now: u64)
        requires
            old(self).wf(),
        ensures
            final(self).wf(),
            *final(self) == old(self).spec_advance(now),
    {
        if now < self.last_refill_time {
            return ;
        }
        let elapsed: u64 = now - self.last_refill_time;
        if elapsed < self.refill_interval {
            return ;
        }
        let k: u64 = elapsed / self.refill_interval;
        proof {
            vstd::arithmetic::div_mod::lemma_fundamental_div_mod(
                elapsed as int,
                self.refill_interval as int,
            );
            vstd::arithmetic::div_mod::lemma_mod_bound(elapsed as int, self.refill_interval as int);
            vstd::arithmetic::mul::lemma_mul_is_commutative(k as int, self.refill_interval as int);
            assert(k * self.refill_interval <= elapsed);
        }
        match k.checked_mul(self.refill_rate) {
            Some(add_tokens) => {
                let t: u64 = self.tokens.saturating_add(add_tokens);
                self.tokens = if t <= self.capacity {
                    t
                } else {
                    self.capacity
                };
            },
            None => {
                self.tokens = self.capacity;
            },
        }
        self.last_refill_time = self.last_refill_time + k * self.refill_interval;
    }

    /// Credit elapsed refill intervals at the current instant.
    pub fn advance(&mut self)
        requires
            old(self).wf(),
        ensures
            final(self).wf(),
            exists|now: u64| #![auto] *final(self) == old(self).spec_advance(now),
    {
        let now: u64 = crate::clock::now_nanos();
        self.advance_at(now);
    }

    /// Decide admission of `n` units at instant `now`.
    pub fn allow_n_at(&mut self, n: u64, now: u64) -> (r: bool)
        requires
            old(self).wf(),
        ensures
            final(self).wf(),
            *final(self) == old(self).spec_allow_n(n, now).0,
            r == old(self).spec_allow_n(n, now).1,
    {
        self.advance_at(now);
        if n > self.tokens {
            false
        } else {
            self.tokens = self.tokens - n;
            true
        }
    }
}

impl TokenBucket {
    /// A bucket holding `capacity` tokens (initially full) that gains
    /// `refill_rate` tokens per `refill_interval` nanoseconds (default one
    /// second).
    pub fn new(capacity: u64, refill_rate: u64, refill_interval: Option<u64>) -> (r: TokenBucket)
        requires
            capacity >= 1,
            refill_interval matches Some(i) ==> i >= 1,
        ensures
            r.inner.wf(),
            r.inner.tokens == capacity,
            r.inner.capacity == capacity,
            r.inner.refill_rate == refill_rate,
            r.inner.refill_interval == (match refill_interval {
                Some(i) => i,
                None => crate::DEFAULT_INTERVAL_NANOS,
            }),
    {
        let iv: u64 = match refill_interval {
            Some(i) => i,
            None => crate::DEFAULT_INTERVAL_NANOS,
        };
        let now: u64 = crate::clock::now_nanos();
        TokenBucket { inner: TokenBucketInner::new_at(capacity, refill_rate, iv, now) }
    }

    /// Consume one token at the current instant; `allow_n(1)`.
    pub fn allow(&mut self) -> (r: bool)
        requires
            old(self).inner.wf(),
        ensures
            final(self).inner.wf(),
            final(self).inner.capacity == old(self).inner.capacity,
            final(self).inner.refill_rate == old(self).inner.refill_rate,
            final(self).inner.refill_interval == old(self).inner.refill_interval,
            exists|now: u64|
                #![auto]
                final(self).inner == old(self).inner.spec_allow_n(1, now).0 && r == old(
                    self,
                ).inner.spec_allow_n(1, now).1,
    {
        self.allow_n(1)
    }

    /// Consume `n` tokens at the current instant, all-or-nothing.  The
    /// state moves exactly as `spec_allow_n` says for some clock reading.
    pub fn allow_n(&mut self, n: u64) -> (r: bool)
        requires
            old(self).inner.wf(),
        ensures
            final(self).inner.wf(),
            final(self).inner.capacity == old(self).inner.capacity,
            final(self).inner.refill_rate == old(self).inner.refill_rate,
            final(self).inner.refill_interval == old(self).inner.refill_interval,
            exists|now: u64|
                #![auto]
                final(self).inner == old(self).inner.spec_allow_n(n, now).0 && r == old(
                    self,
                ).inner.spec_allow_n(n, now).1,
    {
        let now: u64 = crate::clock::now_nanos();
        self.inner.allow_n_at(n, now)
    }
}

/// The state after a sequence of `(n, now)` calls.
pub open spec fn tb_run(s: TokenBucketInner, calls: Seq<(u64, u64)>) -> TokenBucketInner
    decreases calls.len(),
{
    if calls.len() == 0 {
        s
    } else {
        tb_run(s.spec_allow_n(calls[0].0, calls[0].1).0, calls.drop_first())
    }
}

/// Total units admitted over a sequence of `(n, now)` calls.
pub open spec fn tb_admitted(s: TokenBucketInner, calls: Seq<(u64, u64)>) -> int
    decreases calls.len(),
{
    if calls.len() == 0 {
        0
    } else {
        let step = s.spec_allow_n(calls[0].0, calls[0].1);
        (if step.1 {
            calls[0].0 as int
        } else {
            0
        }) + tb_admitted(step.0, calls.drop_first())
    }
}

/// Capacity bound between refills: over any sequence of calls made before
/// the next refill instant, the units admitted never exceed the tokens
/// available at the start (and hence never exceed `capacity`).
pub proof fn lemma_token_bucket_capacity(s: TokenBucketInner, calls: Seq<(u64, u64)>)
    requires
        s.wf(),
        forall|i: int|
            0 <= i < calls.len() ==> (#[trigger] calls[i]).1 < s.last_refill_time
                + s.refill_interval,
    ensures
        tb_run(s, calls).wf(),
        tb_run(s, calls).tokens == s.tokens - tb_admitted(s, calls),
        tb_admitted(s, calls) <= s.tokens,
        tb_admitted(s, calls) <= s.capacity,
        tb_run(s, calls).last_refill_time == s.last_refill_time,
        tb_run(s, calls).capacity == s.capacity,
        tb_run(s, calls).refill_rate == s.refill_rate,
        tb_run(s, calls).refill_interval == s.refill_interval,
    decreases calls.len(),
{
    if calls.len() > 0 {
        let step = s.spec_allow_n(calls[0].0, calls[0].1);
        let rest = calls.drop_first();
        assert forall|i: int| 0 <= i < rest.len() implies (#[trigger] rest[i]).1
            < step.0.last_refill_time + step.0.refill_interval by {
            assert(rest[i] == calls[i + 1]);
        }
        lemma_token_bucket_capacity(step.0, rest);
    }
}

/// All-or-nothing admission: an admitted call consumes exactly `n` tokens
/// from the refilled state; a rejected call consumes none — only the
/// refill side effect remains, exactly as on an admitted call.
pub proof fn lemma_token_bucket_all_or_nothing(s: TokenBucketInner, n: u64, now: u64)
    requires
        s.wf(),
    ensures
        s.spec_allow_n(n, now).1 ==> s.spec_allow_n(n, now).0.tokens == s.spec_advance(now).tokens
            - n,
        !s.spec_allow_n(n, now).1 ==> s.spec_allow_n(n, now).0 == s.spec_advance(now),
        s.spec_allow_n(n, now).1 == (n <= s.spec_advance(now).tokens),
{
}

/// Monotonic replenishment: tokens never exceed `capacity`, and after `k`
/// full refill intervals with no consumption the tokens are exactly
/// `min(capacity, tokens + k * refill_rate)`.
pub proof fn lemma_token_bucket_replenish(s: TokenBucketInner, k: u64, now: u64)
    requires
        s.wf(),
        now == s.last_refill_time + k * s.refill_interval,
    ensures
        s.spec_advance(now).tokens == min64(s.capacity as int, s.tokens + k * s.refill_rate),
        s.spec_advance(now).tokens <= s.capacity,
        s.spec_advance(now).last_refill_time == now,
{
    if k == 0 {
        assert(s.spec_advance(now) == s);
    } else {
        vstd::arithmetic::mul::lemma_mul_inequality(1, k as int, s.refill_interval as int);
        vstd::arithmetic::mul::lemma_mul_is_commutative(k as int, s.refill_interval as int);
        vstd::arithmetic::div_mod::lemma_div_multiples_vanish(k as int, s.refill_interval as int);
        assert((now - s.last_refill_time) / (s.refill_interval as int) == k);
    }
}

} // verus!
