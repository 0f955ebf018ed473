use xpdk::utils::time::{HighResTimer, LatencyTracker, RateLimiter, TimeWindowCounter, TimestampSource};

#[test]
fn test_rate_limiter() {
    let mut limiter = RateLimiter::new(1000); // 1000 ops/sec

    // Should allow some operations
    let mut allowed = 0;
    for _ in 0..10 {
        if limiter.try_acquire() {
            allowed += 1;
        }
    }

    assert!(allowed > 0);
}

#[test]
fn rate_limiter_admission_is_spaced_by_the_period() {
    let mut limiter = RateLimiter::new(2); // one admission each half second
    assert_eq!(limiter.rate(), 2);
    // At a fixed clock value, the first acquire is admitted and the next
    // allowed time advances; a clock before it is refused.
    assert!(limiter.try_acquire_at(1_000_000_000));
    assert!(!limiter.try_acquire_at(400_000_000));
    limiter.set_rate(0);
    assert!(limiter.try_acquire_at(0));
}

#[test]
fn test_time_window_counter() {
    let mut counter = TimeWindowCounter::new(1_000_000_000, 10);

    for _ in 0..100 {
        counter.increment();
    }

    assert_eq!(counter.count(), 100);
}

#[test]
fn window_counter_reset_clears_the_window() {
    let mut counter = TimeWindowCounter::new(1_000_000_000, 4);
    counter.add(5);
    counter.add(7);
    assert_eq!(counter.count(), 12);
    counter.reset();
    assert_eq!(counter.count(), 0);
}

#[test]
fn timer_elapsed_is_a_saturating_difference() {
    let timer = HighResTimer::new(TimestampSource::MonotonicClock);
    assert_eq!(timer.elapsed(10, 25), 15);
    assert_eq!(timer.elapsed(25, 10), 0);
    let a = timer.now();
    let b = timer.now();
    assert!(b >= a);
}

#[test]
fn tsc_calibration_applies_only_to_the_tsc_source() {
    let mut mono = HighResTimer::new(TimestampSource::MonotonicClock);
    assert!(mono.calibrate().is_err());
    let mut tsc = HighResTimer::new(TimestampSource::TscClock);
    assert!(tsc.calibrate().is_ok());
    assert_eq!(tsc.tsc_frequency(), 0);
}

#[test]
fn latency_tracker_records_and_resets() {
    let mut tracker = LatencyTracker::new(100);
    tracker.record(0);
    let stats = tracker.stats();
    assert_eq!(stats.count, 1);
    assert!(stats.max >= stats.min);
    tracker.reset();
    let stats = tracker.stats();
    assert_eq!(stats.count, 0);
    assert_eq!(stats.mean, 0);
}
