//! The clock, as the library reads it. What `Instant::now` and
//! `Instant::elapsed` give depends on the time, so nothing is stated of
//! them; the decisions that rest on time are functions that take the elapsed
//! time as an argument.

use vstd::prelude::*;

use std::time::{Duration, Instant};

verus! {

#[verifier::external_type_specification]
#[verifier::external_body]
pub struct ExInstant(Instant);

/// `<Instant as Clone>::clone`: `Instant` is `Copy`, so the clone is the
/// same instant.
pub assume_specification[ <Instant as Clone>::clone ](t: &Instant) -> (r: Instant)
    ensures
        r == *t,
;

/// `<Duration as Clone>::clone`: `Duration` is `Copy`, so the clone is the
/// same duration.
pub assume_specification[ <Duration as Clone>::clone ](d: &Duration) -> (r: Duration)
    ensures
        r == *d,
;

/// `Instant::now`: the current instant. Nothing is stated of it.
#[verifier::external_body]
pub(crate) fn instant_now() -> Instant {
    Instant::now()
}

/// `Instant::elapsed`, in nanoseconds (`Duration::as_nanos`): the time that
/// has passed since `t`. It depends on the clock; nothing is stated of it.
#[verifier::external_body]
pub(crate) fn elapsed_nanos(t: &Instant) -> u128 {
    t.elapsed().as_nanos()
}

/// `Instant::elapsed`, in whole seconds (`Duration::as_secs`): the time that
/// has passed since `t`. It depends on the clock; nothing is stated of it.
#[verifier::external_body]
pub(crate) fn elapsed_secs(t: &Instant) -> u64 {
    t.elapsed().as_secs()
}

/// `Instant::elapsed`: the time that has passed since `t`. It depends on the
/// clock; nothing is stated of it.
#[verifier::external_body]
pub(crate) fn elapsed(t: &Instant) -> Duration {
    t.elapsed()
}

/// The length of a duration in nanoseconds, as `Duration::as_nanos` gives it.
pub uninterp spec fn duration_as_nanos(d: Duration) -> u128;

/// `Duration::as_nanos`: the length of `d` in nanoseconds, named
/// `duration_as_nanos(d)`.
#[verifier::external_body]
pub(crate) fn duration_nanos(d: &Duration) -> (r: u128)
    ensures
        r == duration_as_nanos(*d),
{
    d.as_nanos()
}

/// The duration of `secs` seconds, as `Duration::from_secs` makes it.
pub uninterp spec fn duration_of_secs(secs: u64) -> Duration;

/// `Duration::from_secs`: a duration of `secs` seconds. `Duration` is opaque
/// here; the result is named `duration_of_secs(secs)`, the same value for
/// the same number of seconds. Its length is `secs` times 10^9
/// nanoseconds.
#[verifier::external_body]
pub(crate) fn duration_from_secs(secs: u64) -> (r: Duration)
    ensures
        r == duration_of_secs(secs),
        duration_as_nanos(r) == secs * 1_000_000_000,
{
    Duration::from_secs(secs)
}

/// The duration of `n` nanoseconds, as `Duration::from_nanos` makes it.
pub uninterp spec fn duration_of_nanos(n: u64) -> Duration;

/// `Duration::from_nanos`: a duration of `n` nanoseconds, named
/// `duration_of_nanos(n)`; its length is `n` nanoseconds.
#[verifier::external_body]
pub(crate) fn duration_from_nanos(n: u64) -> (r: Duration)
    ensures
        r == duration_of_nanos(n),
        duration_as_nanos(r) == n,
{
    Duration::from_nanos(n)
}

} // verus!
