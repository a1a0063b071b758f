//! Per-sender token-bucket rate limiting, backed by the governor crate.
//!
//! The limiter itself and the monotonic clock it runs on are outside
//! values; the rest of the crate only sees the three-way [`RateDecision`]
//! that a check produces, and nanosecond offsets from a base instant
//! captured when the server starts.

use vstd::prelude::*;

verus! {

/// Outcome of charging a forward's payload against the sender's bucket.
#[derive(Clone, Copy, Debug, PartialEq, Eq, Structural)]
pub enum RateDecision {
    /// The payload fits; relay it.
    Allowed,
    /// The payload alone can never fit the bucket; drop it silently.
    Dropped,
    /// The bucket is momentarily exhausted; pause the sender until
    /// `resume_ns` nanoseconds past the clock base.
    Paused { resume_ns: u64 },
}

#[verifier::external_type_specification]
#[verifier::external_body]
pub struct ExQuantaClock(governor::clock::QuantaClock);

#[verifier::external_type_specification]
#[verifier::external_body]
pub struct ExQuantaInstant(governor::clock::QuantaInstant);

/// The one limiter shape the relay uses: a direct, in-memory token
/// bucket of the governor crate on its default (quanta-backed) monotonic
/// clock. Verus refuses a declaration of governor's RateLimiter itself
/// (its generics are bounded by governor's own traits), so the bucket is
/// held as an opaque field.
#[verifier::external_body]
pub struct Limiter {
    inner: governor::RateLimiter<
        governor::state::direct::NotKeyed,
        governor::state::InMemoryState,
        governor::clock::QuantaClock,
        governor::middleware::NoOpMiddleware<governor::clock::QuantaInstant>,
    >,
}

/// Relies on governor::clock::QuantaClock::default: a fresh handle on the
/// process-wide monotonic clock.
#[verifier::external_body]
pub fn new_clock() -> governor::clock::QuantaClock {
    governor::clock::QuantaClock::default()
}

/// Relies on governor::clock::Clock::now for QuantaClock: the instant read
/// when the call is made.
#[verifier::external_body]
pub fn clock_start(clock: &governor::clock::QuantaClock) -> governor::clock::QuantaInstant {
    governor::clock::Clock::now(clock)
}

/// Relies on QuantaClock::now and Reference::duration_since: nanoseconds
/// from `base` to the instant of the call, saturating at zero.
/// Nothing more is promised of a clock reading.
#[verifier::external_body]
pub fn clock_now_ns(
    clock: &governor::clock::QuantaClock,
    base: &governor::clock::QuantaInstant,
) -> u64 {
    let now = governor::clock::Clock::now(clock);
    governor::clock::Reference::duration_since(&now, *base).as_u64()
}

/// The burst capacity a bucket was built with: for a per-second quota,
/// the quota itself. A fixed attribute of the bucket.
pub uninterp spec fn limiter_quota(l: Limiter) -> u32;

/// Relies on governor::RateLimiter::direct and Quota::per_second: a token
/// bucket replenishing `cells_per_second` cells each second, with a burst
/// capacity of the same size.
#[verifier::external_body]
pub fn new_limiter(cells_per_second: u32) -> (r: Limiter)
    requires
        cells_per_second >= 1,
    ensures
        limiter_quota(r) == cells_per_second,
{
    Limiter {
        inner: governor::RateLimiter::direct(governor::Quota::per_second(
            core::num::NonZeroU32::new(cells_per_second).unwrap(),
        )),
    }
}

/// Relies on governor::RateLimiter::check_n: charges `cells` against the
/// bucket. `Err(InsufficientCapacity)` becomes `Dropped`, and per the
/// GCRA arithmetic that happens exactly when the batch exceeds the burst
/// capacity, independent of the clock. A non-conforming batch becomes
/// `Paused` at its earliest conforming instant (taken as nanoseconds
/// past `base`), success becomes `Allowed`; which of those two comes
/// back depends on the wall clock, so nothing more is promised of them.
#[verifier::external_body]
pub fn check_rate(
    limiter: &Limiter,
    base: &governor::clock::QuantaInstant,
    cells: u32,
) -> (r: RateDecision)
    requires
        cells >= 1,
    ensures
        (r is Dropped) == (cells > limiter_quota(*limiter)),
{
    match limiter.inner.check_n(core::num::NonZeroU32::new(cells).unwrap()) {
        Ok(Ok(())) => RateDecision::Allowed,
        Ok(Err(not_until)) => RateDecision::Paused {
            resume_ns: governor::clock::Reference::duration_since(
                &not_until.earliest_possible(),
                *base,
            ).as_u64(),
        },
        Err(_) => RateDecision::Dropped,
    }
}

} // verus!
