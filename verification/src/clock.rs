//! Time as whole nanoseconds since some fixed moment.

use vstd::prelude::*;

verus! {

/// Nanoseconds in a second.
pub const NANOS_PER_SEC: u128 = 1_000_000_000;

/// How long it is since `then`; nothing where that is not past yet.
pub open spec fn elapsed(now: u128, then: u128) -> u128 {
    if now >= then {
        (now - then) as u128
    } else {
        0
    }
}

/// How long it is since `then`; nothing where that is not past yet.
pub fn since(now: u128, then: u128) -> (nanos: u128)
    ensures
        nanos == elapsed(now, then),
{
    if now >= then {
        now - then
    } else {
        0
    }
}

#[verifier::external_type_specification]
#[verifier::external_body]
pub struct ExInstant(std::time::Instant);

/// Calls `std::time::Instant::now`; nothing is claimed of the moment.
#[verifier::external_body]
pub(crate) fn instant_now() -> (moment: std::time::Instant) {
    std::time::Instant::now()
}

/// Calls `std::time::Instant::elapsed`, in whole nanoseconds; nothing is claimed of how
/// many there are.
#[verifier::external_body]
pub(crate) fn nanos_since(moment: &std::time::Instant) -> (nanos: u128) {
    moment.elapsed().as_nanos()
}

/// Whether a reading of the clock, in whole nanoseconds since `moment`, may be `nanos`: it
/// is what `std::time::Instant::elapsed` has returned for that moment.
pub closed spec fn is_reading(moment: std::time::Instant, nanos: u128) -> bool {
    call_ensures(nanos_since, (&moment,), nanos)
}

/// Reads the clock, in whole nanoseconds since `moment`.
pub(crate) fn read_clock(moment: &std::time::Instant) -> (nanos: u128)
    ensures
        is_reading(*moment, nanos),
{
    let clock = nanos_since;
    clock(moment)
}

/// A reading is what the clock has returned for its moment, and what is read from the clock
/// is one: no other number counts as the time.
pub(crate) proof fn law_reading_is_what_the_clock_returned(
    moment: &std::time::Instant,
    nanos: u128,
    read: u128,
)
    requires
        call_ensures(read_clock, (moment,), read),
    ensures
        is_reading(*moment, nanos) <==> call_ensures(nanos_since, (moment,), nanos),
        call_ensures(nanos_since, (moment,), read),
{
}

/// A time and what has passed since then make the present; nothing has passed since a time
/// that is still to come.
pub proof fn law_elapsed_is_the_difference(now: u128, then: u128)
    ensures
        now >= then ==> then + elapsed(now, then) == now,
        now <= then ==> elapsed(now, then) == 0,
{
}

} // verus!
