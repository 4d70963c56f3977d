//! The token buckets of admission control, kept by the governor crate.

use vstd::prelude::*;

verus! {

/// Nanoseconds in a minute.
pub const NANOS_PER_MINUTE: u64 = 60_000_000_000;

/// Whether a bucket can be made with these parameters: both positive, and
/// the bucket's whole capacity in time (the refill interval of one cell
/// times the burst) fits in a `u64` count of nanoseconds.
pub open spec fn bucket_params_ok(requests_per_minute: u32, burst: u32) -> bool {
    &&& requests_per_minute > 0
    &&& burst > 0
    &&& (NANOS_PER_MINUTE as int / requests_per_minute as int) * (burst as int) <= u64::MAX as int
}

/// Tests `bucket_params_ok`.
pub fn bucket_params_valid(requests_per_minute: u32, burst: u32) -> (r: bool)
    ensures
        r == bucket_params_ok(requests_per_minute, burst),
{
    if requests_per_minute == 0 || burst == 0 {
        return false;
    }
    let interval = NANOS_PER_MINUTE / (requests_per_minute as u64);
    assert(interval <= NANOS_PER_MINUTE);
    assert((interval as u128) * (burst as u128) <= (NANOS_PER_MINUTE as u128) * (u32::MAX as u128))
        by (nonlinear_arith)
        requires
            interval <= NANOS_PER_MINUTE,
            burst <= u32::MAX,
    ;
    (interval as u128) * (burst as u128) <= u64::MAX as u128
}

/// A token bucket on the real-time clock: governor's direct in-memory rate
/// limiter, refilled at a fixed rate per minute and holding at most a fixed
/// number of cells. Its state lives in governor and is not modelled here.
#[verifier::external_body]
pub struct TokenBucket {
    inner: governor::DefaultDirectRateLimiter,
}

impl TokenBucket {
    /// Relies on governor's `Quota::per_minute`, `Quota::allow_burst`,
    /// `RateLimiter::direct` and `RateLimiter::check`: makes a bucket refilled
    /// at `requests_per_minute` cells per minute and holding at most `burst`
    /// cells, and takes its first cell. A fresh bucket grants that cell
    /// whatever the clock says: its state starts empty, so the theoretical
    /// arrival time is the current instant plus one interval, which the
    /// burst tolerance (the interval times `burst`, at least one interval)
    /// covers (`Gcra::starting_state`, `Gcra::test_and_update`).
    /// `NonZeroU32::new` cannot fail under the `requires`, nor can governor's
    /// conversion of the capacity (`Gcra::new`, through `Nanos::from`), which
    /// panics when the interval times the burst exceeds `u64::MAX`
    /// nanoseconds.
    #[verifier::external_body]
    pub(crate) fn new_taking_first(requests_per_minute: u32, burst: u32) -> (r: (TokenBucket, bool))
        requires
            bucket_params_ok(requests_per_minute, burst),
        ensures
            r.1,
    {
        let rate = std::num::NonZeroU32::new(requests_per_minute).unwrap();
        let cap = std::num::NonZeroU32::new(burst).unwrap();
        let bucket = TokenBucket {
            inner: governor::RateLimiter::direct(governor::Quota::per_minute(rate).allow_burst(cap)),
        };
        let granted = bucket.inner.check().is_ok();
        (bucket, granted)
    }

    /// Relies on governor's `RateLimiter::check`: takes one cell if the
    /// bucket holds one now. That depends on the clock, so nothing is stated.
    #[verifier::external_body]
    pub(crate) fn check(&self) -> (r: bool) {
        self.inner.check().is_ok()
    }
}

} // verus!
