use std::time::Duration;

use gap::progress::{bytes_per_second, throughput_bps, tick, usize_u64};

#[test]
fn usize_fits_in_u64() {
    assert_eq!(usize_u64(0), 0);
    assert_eq!(usize_u64(42), 42);
    assert_eq!(usize_u64(usize::MAX), usize::MAX as u64);
}

#[test]
fn throughput_of_whole_seconds() {
    assert_eq!(throughput_bps(1000, Duration::from_secs(1)), 1000);
    assert_eq!(throughput_bps(1000, Duration::from_secs(2)), 500);
    assert_eq!(throughput_bps(999, Duration::from_secs(2)), 499);
}

#[test]
fn throughput_of_fractions_of_a_second() {
    assert_eq!(throughput_bps(100, Duration::from_millis(250)), 400);
    assert_eq!(throughput_bps(3, Duration::from_nanos(1_500_000_000)), 2);
}

#[test]
fn throughput_of_empty_interval_is_zero() {
    assert_eq!(throughput_bps(12345, Duration::ZERO), 0);
}

#[test]
fn throughput_saturates() {
    assert_eq!(throughput_bps(u64::MAX, Duration::from_nanos(1)), u64::MAX);
    assert_eq!(bytes_per_second(u64::MAX, 0, 1), u64::MAX);
}

#[test]
fn rate_rounds_down() {
    assert_eq!(bytes_per_second(10, 3, 0), 3);
    assert_eq!(bytes_per_second(7, 0, 500_000_000), 14);
}

#[test]
fn tick_is_milliseconds() {
    assert_eq!(tick(250), Duration::from_millis(250));
    assert_eq!(tick(100), Duration::from_millis(100));
}

#[test]
fn tick_splits_into_seconds_and_nanos() {
    let d = tick(2569);
    assert_eq!(d.as_secs(), 2);
    assert_eq!(d.subsec_nanos(), 569_000_000);
    assert_eq!(throughput_bps(2569, d), 1000);
}

#[test]
fn throughput_grows_with_bytes_and_falls_with_time() {
    let d = Duration::from_millis(1500);
    assert!(throughput_bps(100, d) <= throughput_bps(200, d));
    assert_eq!(throughput_bps(300, d), 200);
    assert!(throughput_bps(3000, Duration::from_secs(1)) >= throughput_bps(3000, Duration::from_secs(2)));
    assert_eq!(throughput_bps(3000, Duration::from_secs(3)), 1000);
}
