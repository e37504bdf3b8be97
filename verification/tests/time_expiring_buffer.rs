use profiler::time::{Duration, Instant};
use profiler::time_expiring_buffer::TimeExpiringBuffer;

fn at_millis(millis: u128) -> Instant {
    Instant { nanos: millis * 1_000_000 }
}

#[test]
fn entries_older_than_the_lifetime_are_removed_from_the_front() {
    let mut buffer = TimeExpiringBuffer::new(Duration::from_millis(10));
    buffer.push_back_at("Marker 1", at_millis(0));
    buffer.push_back_at("Marker 2", at_millis(5));
    buffer.push_back_at("Marker 3", at_millis(12));
    assert_eq!(buffer.len(), 3, "All of the markers are in the buffer.");

    buffer.remove_expired_at(at_millis(14));
    assert_eq!(buffer.len(), 2, "The expired marker was expunged.");
    let values: Vec<&str> = buffer.iter().map(|entry| entry.value).collect();
    assert_eq!(values, vec!["Marker 2", "Marker 3"]);
}

#[test]
fn an_entry_exactly_as_old_as_the_lifetime_stays() {
    let mut buffer = TimeExpiringBuffer::new(Duration::from_millis(10));
    buffer.push_back_at(1, at_millis(0));
    buffer.remove_expired_at(at_millis(10));
    assert_eq!(buffer.len(), 1);
    buffer.remove_expired_at(Instant { nanos: 10_000_001 });
    assert_eq!(buffer.len(), 0);
}

#[test]
fn removal_stops_at_the_first_live_entry() {
    // An older entry behind a live one stays: only the front is examined.
    let mut buffer = TimeExpiringBuffer::new(Duration::from_millis(10));
    buffer.push_back_at('a', at_millis(0));
    buffer.push_back_at('b', at_millis(50));
    buffer.push_back_at('c', at_millis(1));
    buffer.remove_expired_at(at_millis(55));
    let values: Vec<char> = buffer.iter().map(|entry| entry.value).collect();
    assert_eq!(values, vec!['b', 'c']);
}

#[test]
fn entries_from_the_future_do_not_expire() {
    let mut buffer = TimeExpiringBuffer::new(Duration::from_millis(0));
    buffer.push_back_at(1, at_millis(100));
    buffer.remove_expired_at(at_millis(50));
    assert_eq!(buffer.len(), 1);
}

#[test]
fn push_back_stamps_entries_with_the_clock() {
    let mut buffer = TimeExpiringBuffer::new(Duration::new(60, 0));
    buffer.push_back(7);
    buffer.push_back(8);
    assert_eq!(buffer.len(), 2);
    let entries: Vec<(u128, i32)> = buffer
        .iter()
        .map(|entry| (entry.created_at.nanos, entry.value))
        .collect();
    assert!(entries[0].0 <= entries[1].0);
    assert_eq!(entries[0].1, 7);
    assert_eq!(entries[1].1, 8);
    // Nothing has lived for a minute yet.
    buffer.remove_expired();
    assert_eq!(buffer.len(), 2);
}

#[test]
fn a_buffer_on_a_shared_clock_keeps_it() {
    let clock = profiler::time::Clock::start();
    let buffer: TimeExpiringBuffer<u8> = TimeExpiringBuffer::with_clock(Duration::from_millis(3), clock);
    assert_eq!(buffer.len(), 0);
    assert_eq!(buffer.entry_lifetime, Duration { nanos: 3_000_000 });
}

#[test]
fn entries_pushed_in_time_order_leave_no_expired_entry() {
    let mut buffer = TimeExpiringBuffer::new(Duration::from_millis(10));
    for millis in [0u128, 3, 8, 11, 20, 25] {
        buffer.push_back_at(millis, at_millis(millis));
    }
    buffer.remove_expired_at(at_millis(21));
    let now = at_millis(21);
    let lifetime = Duration::from_millis(10);
    assert!(buffer
        .iter()
        .all(|entry| now.duration_since(entry.created_at).as_nanos() <= lifetime.as_nanos()));
    let values: Vec<u128> = buffer.iter().map(|entry| entry.value).collect();
    assert_eq!(values, vec![11, 20, 25]);
}

#[test]
fn the_length_is_what_was_added_less_what_was_removed() {
    let mut buffer = TimeExpiringBuffer::new(Duration::from_millis(5));
    buffer.push_back_at(1, at_millis(0));
    buffer.push_back_at(2, at_millis(4));
    buffer.remove_expired_at(at_millis(6));
    assert_eq!(buffer.len(), 1);
    buffer.push_back_at(3, at_millis(7));
    buffer.push_back_at(4, at_millis(12));
    buffer.remove_expired_at(at_millis(12));
    assert_eq!(buffer.len(), 4 - 2);
    let values: Vec<i32> = buffer.iter().map(|entry| entry.value).collect();
    assert_eq!(values, vec![3, 4]);
    assert_eq!(buffer.iter().count(), buffer.len());
}

#[test]
fn entries_stamped_by_the_clock_come_in_order_of_time() {
    let mut buffer = TimeExpiringBuffer::new(Duration::new(60, 0));
    for value in 0..200 {
        buffer.push_back(value);
    }
    let times: Vec<u128> = buffer.iter().map(|entry| entry.created_at.nanos).collect();
    assert!(times.windows(2).all(|pair| pair[0] <= pair[1]));
    buffer.remove_expired();
    assert_eq!(buffer.len(), 200);
}
