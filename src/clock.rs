use vstd::prelude::*;

verus! {

/// Relies on chrono::Utc::now: the current wall-clock time, as whole seconds
/// since the Unix epoch. Nothing is known of the value.
#[verifier::external_body]
pub fn now_timestamp() -> (r: i64)
{
    chrono::Utc::now().timestamp()
}

/// Seconds in one day.
pub const SECONDS_PER_DAY: i64 = 86400;

} // verus!
