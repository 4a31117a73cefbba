//! The clock of the machine.

use vstd::prelude::*;

verus! {

/// The milliseconds since the start of 1970 in UTC, by `chrono::Utc::now` and
/// `DateTime::timestamp_millis`. Nothing is claimed of the reading: it depends on
/// the machine's clock alone. `Utc::now` panics where that clock stands before
/// 1970.
#[verifier::external_body]
pub(crate) fn utc_now_millis() -> (res: i64) {
    chrono::Utc::now().timestamp_millis()
}

/// The milliseconds are a reading of the clock: a call of it gave them.
pub closed spec fn is_reading(millis: i64) -> bool {
    call_ensures(utc_now_millis, (), millis)
}

/// A reading of the clock comes from a call of it.
pub(crate) proof fn law_readings_come_from_the_clock(millis: i64)
    ensures
        is_reading(millis) <==> call_ensures(utc_now_millis, (), millis),
{
}

} // verus!
