use vstd::prelude::*;

verus! {

/// The wall clock, in milliseconds since the Unix epoch (negative before it).
///
/// Relies on chrono's `From<SystemTime> for DateTime<Utc>` and
/// `DateTime::timestamp_millis`. The conversion handles readings before the
/// epoch; it fails only outside chrono's range of about 262,000 years around
/// the epoch, which no system clock reads. Nothing is promised of the reading.
#[verifier::external_body]
pub(crate) fn now_millis() -> i64 {
    chrono::DateTime::<chrono::Utc>::from(std::time::SystemTime::now()).timestamp_millis()
}

} // verus!
