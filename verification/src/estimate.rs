//! Estimation of the pacing, duration and throughput of a scan.

use vstd::prelude::*;
use crate::options::ScanOptions;

verus! {

/// On-wire size in bytes of one untagged Ethernet frame carrying an ARP request.
pub const FRAME_SIZE: u64 = 42;

/// Pause between two requests when the operator gives no timing hint, in milliseconds.
pub const DEFAULT_INTERVAL_MS: u64 = 10;

/// Advisory figures announced before a scan starts.
#[derive(Clone, Copy, Debug, PartialEq, Eq, Structural)]
pub struct ScanEstimation {
    /// Pause between two requests, in milliseconds.
    pub interval_ms: u64,
    /// Expected length of one pass, in milliseconds.
    pub duration_ms: u128,
    /// Effective throughput in bytes per second.
    pub bandwidth: u128,
}

/// Quotient of `numerator` by `denominator`, rounded up.
pub open spec fn ceil_div(numerator: int, denominator: int) -> int
    recommends
        numerator >= 0,
        denominator > 0,
{
    (numerator + denominator - 1) / denominator
}

/// The send interval that the options call for: the explicit interval if there
/// is one, else the smallest interval that keeps the throughput within the
/// requested bandwidth, else the default.
pub open spec fn interval_for(options: ScanOptions) -> int {
    match options.interval_ms {
        Some(interval) => interval as int,
        None => match options.bandwidth {
            Some(bandwidth) => ceil_div(FRAME_SIZE * 1000, bandwidth as int),
            None => DEFAULT_INTERVAL_MS as int,
        },
    }
}

/// Computes the send interval, the expected duration of one pass over
/// `target_count` addresses and the effective bandwidth.
pub fn compute_scan_estimation(target_count: u128, options: &ScanOptions) -> (estimation:
    ScanEstimation)
    requires
        options.timing_is_valid(),
        target_count * interval_for(*options) <= u128::MAX,
    ensures
        estimation.interval_ms == interval_for(*options),
        estimation.interval_ms > 0,
        estimation.duration_ms == target_count * estimation.interval_ms,
        estimation.bandwidth == (FRAME_SIZE * 1000) / (estimation.interval_ms as int),
{
    let scaled_frame_size: u128 = (FRAME_SIZE as u128) * 1000;
    let interval_ms: u64 = match options.interval_ms {
        Some(interval) => interval,
        None => match options.bandwidth {
            Some(bandwidth) => {
                let wide: u128 = bandwidth as u128;
                let quotient: u128 = (scaled_frame_size + wide - 1) / wide;
                assert(1 <= quotient <= 42000) by (nonlinear_arith)
                    requires
                        wide >= 1,
                        quotient as int == (42000int + wide as int - 1) / (wide as int),
                ;
                quotient as u64
            },
            None => DEFAULT_INTERVAL_MS,
        },
    };
    let duration_ms: u128 = target_count * (interval_ms as u128);
    let bandwidth: u128 = scaled_frame_size / (interval_ms as u128);
    ScanEstimation { interval_ms, duration_ms, bandwidth }
}

/// When a bandwidth is requested and no interval is forced, the effective
/// bandwidth never exceeds the request, and the interval is the smallest
/// whole number of milliseconds with that property.
pub proof fn lemma_bandwidth_is_respected(options: ScanOptions)
    requires
        options.interval_ms.is_none(),
        options.bandwidth.is_some(),
        options.bandwidth.unwrap() > 0,
    ensures
        (FRAME_SIZE * 1000) / interval_for(options) <= options.bandwidth.unwrap(),
        interval_for(options) * options.bandwidth.unwrap() >= FRAME_SIZE * 1000,
        (interval_for(options) - 1) * options.bandwidth.unwrap() < FRAME_SIZE * 1000,
{
    let b: int = options.bandwidth.unwrap() as int;
    let i: int = interval_for(options);
    assert(i == (42000 + b - 1) / b);
    assert(i * b >= 42000 && (i - 1) * b < 42000) by (nonlinear_arith)
        requires
            b > 0,
            i == (42000 + b - 1) / b,
    ;
    assert(i >= 1) by (nonlinear_arith)
        requires
            b > 0,
            i * b >= 42000,
    ;
    assert(42000int / i <= b) by (nonlinear_arith)
        requires
            b > 0,
            i >= 1,
            i * b >= 42000,
    ;
}

} // verus!
