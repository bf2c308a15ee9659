//! The timestamp bucketer: epoch seconds to the UTC calendar-day key
//! "YYYY-MM-DD" under which an event is counted.
use vstd::prelude::*;

verus! {

/// The calendar-day key for the UTC day numbered `day` (days since the
/// Unix epoch, negative before it). The text of the key is left to the
/// date library; on the representable days, two timestamps get the same
/// key exactly when they fall on the same day.
pub uninterp spec fn day_bucket_of(day: int) -> Seq<char>;

/// The first UTC day the date library represents (January 1 of year
/// -262143), as days since the Unix epoch.
pub const MIN_BUCKET_DAY: i64 = -96_465_292;

/// The last UTC day the date library represents (December 31 of year
/// 262142), as days since the Unix epoch.
pub const MAX_BUCKET_DAY: i64 = 95_026_236;

/// The first epoch second of the first representable day.
pub const MIN_BUCKET_SECS: i64 = MIN_BUCKET_DAY * 86_400;

/// The last epoch second of the last representable day.
pub const MAX_BUCKET_SECS: i64 = MAX_BUCKET_DAY * 86_400 + 86_399;

/// Relies on chrono's `DateTime::<Utc>::from_timestamp_secs` and its
/// `%Y-%m-%d` formatting: the formatted calendar date is a function of
/// `secs.div_euclid(86_400)` alone (the time of day is dropped); `None`
/// comes exactly when that day number leaves the range of chrono's dates,
/// `MIN_BUCKET_DAY..=MAX_BUCKET_DAY`; and distinct representable days
/// format to distinct strings (the sign-carrying year, the zero-padded
/// month and the zero-padded day can be parsed apart unambiguously).
#[verifier::external_body]
fn utc_day_string(secs: i64) -> (r: Option<String>)
    ensures
        r matches Some(s) ==> s@ == day_bucket_of(secs as int / 86_400),
        r is Some <==> MIN_BUCKET_DAY <= secs as int / 86_400 <= MAX_BUCKET_DAY,
        r matches Some(s) ==> forall|d: int|
            MIN_BUCKET_DAY <= d <= MAX_BUCKET_DAY && d != secs as int / 86_400
                ==> day_bucket_of(d) != s@,
{
    chrono::DateTime::<chrono::Utc>::from_timestamp_secs(secs)
        .map(|d| d.format("%Y-%m-%d").to_string())
}

/// The day-bucket key for an event time in Unix epoch seconds: `Some`
/// exactly when the time falls on a representable date, and then the key
/// of its UTC day, equal between two times exactly when they share that
/// day.
pub fn get_event_timestamp(ev_tod_secs: i64) -> (r: Option<String>)
    ensures
        r matches Some(s) ==> s@ == day_bucket_of(ev_tod_secs as int / 86_400),
        r is Some <==> MIN_BUCKET_DAY <= ev_tod_secs as int / 86_400 <= MAX_BUCKET_DAY,
        r matches Some(s) ==> forall|d: int|
            MIN_BUCKET_DAY <= d <= MAX_BUCKET_DAY && d != ev_tod_secs as int / 86_400
                ==> day_bucket_of(d) != s@,
{
    utc_day_string(ev_tod_secs)
}

/// Two event times that fall on the same UTC calendar day are bucketed
/// under the same key.
pub proof fn lemma_same_day_same_bucket(s1: int, s2: int)
    requires
        s1 / 86_400 == s2 / 86_400,
    ensures
        day_bucket_of(s1 / 86_400) == day_bucket_of(s2 / 86_400),
{
}

} // verus!
