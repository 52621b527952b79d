use arp_scan::estimate::{compute_scan_estimation, DEFAULT_INTERVAL_MS, FRAME_SIZE};
use arp_scan::options::ScanOptions;

#[test]
fn bandwidth_of_one_frame_per_millisecond_gives_interval_of_one() {
    let mut options = ScanOptions::default();
    options.bandwidth = Some(42000);
    let estimation = compute_scan_estimation(254, &options);
    assert_eq!(FRAME_SIZE, 42);
    assert_eq!(estimation.interval_ms, 1);
    assert_eq!(estimation.duration_ms, 254);
    assert_eq!(estimation.bandwidth, 42000);
}

#[test]
fn explicit_interval_is_used_as_given() {
    let mut options = ScanOptions::default();
    options.interval_ms = Some(1);
    options.bandwidth = Some(7);
    let estimation = compute_scan_estimation(254, &options);
    assert_eq!(estimation.interval_ms, 1);
    assert_eq!(estimation.duration_ms, 254);
    assert_eq!(estimation.bandwidth, 42000);
}

#[test]
fn default_interval_applies_without_hints() {
    let options = ScanOptions::default();
    let estimation = compute_scan_estimation(256, &options);
    assert_eq!(estimation.interval_ms, DEFAULT_INTERVAL_MS);
    assert_eq!(estimation.duration_ms, 2560);
    assert_eq!(estimation.bandwidth, 4200);
}

#[test]
fn interval_from_bandwidth_rounds_up() {
    let mut options = ScanOptions::default();
    options.bandwidth = Some(40000);
    let estimation = compute_scan_estimation(10, &options);
    assert_eq!(estimation.interval_ms, 2);
    assert_eq!(estimation.duration_ms, 20);
    assert_eq!(estimation.bandwidth, 21000);
}
