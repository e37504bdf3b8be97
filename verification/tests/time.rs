use profiler::time::{Clock, Duration, Instant};

#[test]
fn durations_are_counted_in_nanoseconds() {
    assert_eq!(Duration::new(60, 0).as_nanos(), 60_000_000_000);
    assert_eq!(Duration::new(1, 1_500_000_000).as_nanos(), 2_500_000_000);
    assert_eq!(Duration::from_millis(10).as_nanos(), 10_000_000);
    assert_eq!(Duration::from_nanos(42).as_nanos(), 42);
    assert_eq!(Duration::from_nanos(2_999_999).as_millis(), 2);
    assert_eq!(Duration::new(u64::MAX, 999_999_999).as_nanos(), u64::MAX as u128 * 1_000_000_000 + 999_999_999);
}

#[test]
fn the_duration_since_a_later_instant_is_zero() {
    let early = Instant { nanos: 100 };
    let late = early.add_duration(Duration::from_nanos(50));
    assert_eq!(late.nanos, 150);
    assert_eq!(late.duration_since(early), Duration { nanos: 50 });
    assert_eq!(early.duration_since(late), Duration { nanos: 0 });
}

#[test]
fn the_clock_moves_forward() {
    let mut clock = Clock::start();
    let first = clock.now();
    let mut later = clock.now();
    while later.nanos == first.nanos {
        later = clock.now();
    }
    assert!(later.nanos > first.nanos);
}
