use vstd::prelude::*;

verus! {

/// A fresh random id. Relies on uuid::Uuid::new_v4 and Uuid::as_u128: the
/// value is random but for the version (4) and variant (binary 10) bits,
/// which new_v4 sets.
#[verifier::external_body]
pub(crate) fn random_id() -> (r: u128)
    ensures
        (r >> 76u128) & 0xfu128 == 4,
        (r >> 62u128) & 0x3u128 == 2,
{
    uuid::Uuid::new_v4().as_u128()
}

/// The time now, in microseconds since the Unix epoch. Relies on
/// chrono::Utc::now and DateTime::timestamp_micros; the value depends on the
/// clock, and Utc::now returns only times after the epoch.
#[verifier::external_body]
pub(crate) fn now_micros() -> (r: i64)
    ensures
        r >= 0,
{
    chrono::Utc::now().timestamp_micros()
}

} // verus!
