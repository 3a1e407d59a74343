use devkit_rl::FixedWindow;
use devkit_rl::FixedWindowInner;
use devkit_rl::LeakyBucketInner;
use devkit_rl::SlidingWindowCount;
use devkit_rl::SlidingWindowCountInner;
use devkit_rl::SlidingWindowLog;
use devkit_rl::SlidingWindowLogInner;
use devkit_rl::TokenBucket;
use devkit_rl::TokenBucketInner;

#[test]
fn fixed_window_allow_n_out_of_size_should_failed() {
    let size: u64 = 5;
    let interval: u64 = 1_000_000;
    let mut bucket = FixedWindow::new(size, Some(interval));
    assert!(!bucket.allow_n(size + 1));
}

#[test]
fn fixed_window_scenario() {
    // size 10, window 1ms: ten units pass, the eleventh fails, and a fresh
    // budget opens right at the boundary.
    let mut fw = FixedWindowInner::new_at(10, 1_000_000, 0);
    for i in 0..10u64 {
        assert!(fw.allow_n_at(1, i));
    }
    assert!(!fw.allow_n_at(1, 999_999));
    assert!(fw.allow_n_at(1, 1_000_000));
}

#[test]
fn fixed_window_multi_window_jump_resets_once() {
    let mut fw = FixedWindowInner::new_at(4, 1000, 0);
    assert!(fw.allow_n_at(4, 0));
    // silent for five windows: a single reset, boundaries stay aligned
    assert!(fw.allow_n_at(4, 5500));
    assert_eq!(fw.last_update, 5000);
    assert_eq!(fw.next_win_time, 6000);
    assert_eq!(fw.count, 4);
}

#[test]
fn fixed_window_all_or_nothing() {
    let mut fw = FixedWindowInner::new_at(10, 1000, 0);
    assert!(fw.allow_n_at(6, 0));
    // 6 + 5 would overrun: rejected, and nothing is recorded
    assert!(!fw.allow_n_at(5, 1));
    assert_eq!(fw.count, 6);
    // the exact remainder still fits
    assert!(fw.allow_n_at(4, 2));
    assert_eq!(fw.count, 10);
}

#[test]
fn fixed_window_allow_zero_units() {
    let mut fw = FixedWindowInner::new_at(1, 1000, 0);
    assert!(fw.allow_n_at(0, 0));
    assert_eq!(fw.count, 0);
}

#[test]
fn fixed_window_saturated_boundary() {
    // a window that would end past the largest representable instant
    let mut fw = FixedWindowInner::new_at(1, u64::MAX, u64::MAX - 10);
    assert_eq!(fw.next_win_time, u64::MAX);
    assert!(fw.allow_n_at(1, u64::MAX - 5));
    assert!(!fw.allow_n_at(1, u64::MAX - 1));
}

#[test]
fn fixed_window_new_defaults_to_one_second() {
    let fw = FixedWindowInner::new(3, None);
    assert_eq!(fw.interval, 1_000_000_000);
    assert_eq!(fw.count, 0);
}

#[test]
fn token_bucket_scenario() {
    // capacity 100, 10 tokens per 1ms: the full capacity drains, then one
    // interval later exactly ten more pass.
    let mut tb = TokenBucketInner::new_at(100, 10, 1_000_000, 0);
    for i in 0..100u64 {
        assert!(tb.allow_n_at(1, i));
    }
    assert!(!tb.allow_n_at(1, 200));
    for i in 0..10u64 {
        assert!(tb.allow_n_at(1, 1_000_000 + i));
    }
    assert!(!tb.allow_n_at(1, 1_000_500));
}

#[test]
fn token_bucket_replenish_caps_at_capacity() {
    let mut tb = TokenBucketInner::new_at(100, 10, 1000, 0);
    assert!(tb.allow_n_at(100, 0));
    // three full intervals: exactly thirty tokens back
    tb.advance_at(3000);
    assert_eq!(tb.tokens, 30);
    // a fraction of an interval adds nothing and does not snap the clock
    tb.advance_at(3499);
    assert_eq!(tb.tokens, 30);
    assert_eq!(tb.last_refill_time, 3000);
    // far in the future: capped at capacity
    tb.advance_at(300_000);
    assert_eq!(tb.tokens, 100);
}

#[test]
fn token_bucket_rejected_call_still_refills() {
    let mut tb = TokenBucketInner::new_at(10, 5, 1000, 0);
    assert!(tb.allow_n_at(10, 0));
    assert!(!tb.allow_n_at(50, 1000));
    assert_eq!(tb.tokens, 5);
    assert_eq!(tb.last_refill_time, 1000);
}

#[test]
fn token_bucket_all_or_nothing() {
    let mut tb = TokenBucketInner::new_at(10, 1, 1000, 0);
    assert!(!tb.allow_n_at(11, 0));
    assert_eq!(tb.tokens, 10);
    assert!(tb.allow_n_at(10, 0));
    assert_eq!(tb.tokens, 0);
}

#[test]
fn token_bucket_zero_rate_never_refills() {
    let mut tb = TokenBucketInner::new_at(3, 0, 1000, 0);
    assert!(tb.allow_n_at(3, 0));
    assert!(!tb.allow_n_at(1, 1_000_000));
    assert_eq!(tb.tokens, 0);
}

#[test]
fn token_bucket_handle_admits_capacity_then_rejects() {
    // a one-hour refill interval: no refill can slip in while the test runs
    let mut tb = TokenBucket::new(100, 10, Some(3_600_000_000_000));
    for _ in 0..100 {
        assert!(tb.allow());
    }
    assert!(!tb.allow());
    assert!(!tb.allow_n(1));
}

#[test]
fn sliding_window_log_scenario() {
    // size 10, window 1ms, admissions spread across the window: full, then
    // after half a window the oldest entries expire and room opens.
    let mut sl = SlidingWindowLogInner::new_at(10, 1_000_000);
    for i in 0..10u64 {
        assert!(sl.allow_n_at(1, i * 100_000));
    }
    assert!(!sl.allow_n_at(1, 999_999));
    // threshold 400_001: the five entries up to 400_000 are pruned
    assert!(sl.allow_n_at(1, 1_400_001));
    assert_eq!(sl.logs.len(), 6);
}

#[test]
fn sliding_window_log_all_or_nothing() {
    let mut sl = SlidingWindowLogInner::new_at(3, 1000);
    assert!(sl.allow_n_at(2, 0));
    assert!(!sl.allow_n_at(2, 10));
    assert_eq!(sl.logs.len(), 2);
    assert!(sl.allow_n_at(1, 20));
    assert_eq!(sl.logs.len(), 3);
}

#[test]
fn sliding_window_log_fast_path_skips_pruning() {
    let mut sl = SlidingWindowLogInner::new_at(3, 100);
    assert!(sl.allow_n_at(2, 0));
    // both entries are long expired, but the fast path leaves them in place
    assert!(sl.allow_n_at(1, 10_000));
    assert_eq!(sl.logs.len(), 3);
    // the slow path prunes the two expired entries, then admits
    assert!(sl.allow_n_at(2, 10_001));
    assert_eq!(sl.logs.len(), 3);
}

#[test]
fn sliding_window_log_handle_fills_up() {
    let mut sl = SlidingWindowLog::new(10, Some(3_600_000_000_000));
    for _ in 0..10 {
        assert!(sl.allow());
    }
    assert!(!sl.allow());
    assert_eq!(sl.inner.logs.len(), 10);
}

#[test]
fn sliding_window_count_scenario() {
    // win 20 over 10 buckets of 1ms: full at the start, cleared bucket by
    // bucket as the ring turns.
    let mut sc = SlidingWindowCountInner {
        buckets: vec![0; 10],
        win_size: 20,
        bucket_interval: 1_000_000,
        last_update: 0,
        last_index: 0,
    };
    for i in 0..20u64 {
        assert!(sc.allow_n_at(1, i));
    }
    assert!(!sc.allow_n_at(1, 100));
    assert_eq!(sc.total_count(), 20);
    // five buckets later the bucket holding all twenty units is cleared
    assert!(sc.allow_n_at(1, 5_000_000));
    assert_eq!(sc.total_count(), 1);
    // far in the future: a full wrap clears everything
    assert!(sc.allow_n_at(1, 50_000_000));
    assert_eq!(sc.total_count(), 1);
}

#[test]
fn sliding_window_count_all_or_nothing() {
    let mut sc = SlidingWindowCountInner {
        buckets: vec![0; 2],
        win_size: 5,
        bucket_interval: 1000,
        last_update: 0,
        last_index: 0,
    };
    assert!(sc.allow_n_at(3, 0));
    assert!(!sc.allow_n_at(3, 10));
    assert_eq!(sc.total_count(), 3);
    assert!(sc.allow_n_at(2, 20));
    assert_eq!(sc.total_count(), 5);
}

#[test]
fn sliding_window_count_ring_wraps() {
    let mut sc = SlidingWindowCountInner {
        buckets: vec![0; 3],
        win_size: 9,
        bucket_interval: 100,
        last_update: 0,
        last_index: 0,
    };
    assert!(sc.allow_n_at(3, 0)); // bucket 0 holds 3
    // one bucket passes: the zeroing starts at the current index, so the
    // three units leave and the next bucket takes over
    assert!(sc.allow_n_at(3, 100));
    assert_eq!(sc.total_count(), 3);
    assert_eq!(sc.last_index, 1);
    // within the same bucket the counts accumulate
    assert!(sc.allow_n_at(2, 150));
    assert_eq!(sc.total_count(), 5);
    // two buckets pass: the ring wraps back to index 0
    assert!(sc.allow_n_at(1, 400));
    assert_eq!(sc.last_index, 0);
    assert_eq!(sc.total_count(), 1);
}

#[test]
fn sliding_window_count_new_divides_interval() {
    let mut sc = SlidingWindowCount::new(20, 10_000_000, 10);
    assert_eq!(sc.inner.bucket_interval, 1_000_000);
    assert_eq!(sc.inner.buckets.len(), 10);
    assert_eq!(sc.inner.total_count(), 0);
    assert!(sc.allow());
}

#[test]
fn leaky_bucket_reserve_and_fifo() {
    // five reservations fill the bucket; the sixth is rejected at once;
    // waiters are then released strictly in reservation order.
    let mut lb = LeakyBucketInner::new_at(1, 5, 1_000_000, 0);
    for _ in 0..5 {
        assert!(lb.try_allow());
    }
    assert!(!lb.try_allow());
    let mut tickets: Vec<u64> = Vec::new();
    for _ in 0..5 {
        tickets.push(lb.enqueue_waiter());
    }
    for k in 0..5 {
        let t = lb.pop_waiter().expect("a waiter should be queued");
        assert_eq!(t, tickets[k]);
        lb.leak();
    }
    assert_eq!(lb.current_level, 0);
    assert!(lb.pop_waiter().is_none());
    assert!(lb.try_allow());
}

#[test]
fn leaky_bucket_leak_wait_schedule() {
    let mut lb = LeakyBucketInner::new_at(2, 5, 1000, 0);
    assert_eq!(lb.leak_wait(0), 1000);
    assert_eq!(lb.leak_wait(400), 600);
    assert_eq!(lb.leak_wait(1700), 0);
    lb.begin_tick(1700);
    assert_eq!(lb.leak_wait(1700), 1000);
}

#[test]
fn leaky_bucket_new_defaults_to_one_second() {
    let lb = LeakyBucketInner::new(3, 7, None);
    assert_eq!(lb.leak_interval, 1_000_000_000);
    assert_eq!(lb.capacity, 7);
    assert_eq!(lb.current_level, 0);
    assert!(lb.pending.is_empty());
}

#[test]
fn clock_reads_nonzero() {
    // the wall clock stands well after the Unix epoch
    assert!(devkit_rl::now_nanos() > 0);
}
