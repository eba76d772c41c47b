//! The time.

use vstd::prelude::*;

verus! {

/// `SystemTime::now`: the milliseconds since the Unix epoch, zero before it. Nothing is known
/// of what it returns.
#[verifier::external_body]
pub(crate) fn unix_millis() -> (r: u64) {
    let now = std::time::SystemTime::now();
    now.duration_since(std::time::UNIX_EPOCH).unwrap_or_default().as_millis() as u64
}

/// The whole seconds in a time in milliseconds.
pub open spec fn seconds_in(millis: u64) -> u64 {
    millis / 1000
}

/// The whole seconds in a time in milliseconds.
pub fn whole_seconds(millis: u64) -> (r: u64)
    ensures
        r == seconds_in(millis),
{
    millis / 1000
}

/// The whole seconds since the Unix epoch, as some reading of the clock in milliseconds tells
/// them.
pub(crate) fn unix_seconds() -> (r: u64)
    ensures
        exists|millis: u64| r == #[trigger] seconds_in(millis),
{
    whole_seconds(unix_millis())
}

/// The seconds are those that have passed in full.
pub proof fn law_seconds(millis: u64)
    ensures
        1000 * seconds_in(millis) <= millis < 1000 * (seconds_in(millis) + 1),
{
}

}
