//! Fresh identifiers and timestamps, from the `uuid` and `chrono` crates.

use vstd::prelude::*;

verus! {

/// Whether a 128-bit UUID value is a version-7 UUID of the RFC 9562
/// variant: its version nibble is 7 and its variant bits are `10`.
pub open spec fn is_uuid_v7(u: u128) -> bool {
    (u >> 76u128) & 0xfu128 == 7 && (u >> 62u128) & 0x3u128 == 2
}

/// `uuid::Uuid::now_v7`: a fresh time-ordered UUID, as its 128-bit value.
/// Its timestamp and random bits depend on the clock and on chance, so
/// only its fixed fields are stated: the version nibble is 7 and the
/// variant bits are `10` (RFC 9562), as the crate's encoder writes them.
#[verifier::external_body]
pub(crate) fn new_uuid_v7() -> (r: u128)
    ensures
        is_uuid_v7(r),
{
    uuid::Uuid::now_v7().as_u128()
}

/// `chrono::Utc::now`, as milliseconds since the Unix epoch. It depends
/// on the clock, so nothing is stated of it.
#[verifier::external_body]
pub(crate) fn now_millis() -> (r: i64) {
    chrono::Utc::now().timestamp_millis()
}

/// `chrono::Utc::now`, written as an RFC 3339 string. It depends on the
/// clock, so nothing is stated of it.
#[verifier::external_body]
pub(crate) fn now_rfc3339() -> (r: String) {
    chrono::Utc::now().to_rfc3339()
}

} // verus!
