//! Wall-clock and identifier sources that the rest of the library is handed.
use vstd::prelude::*;

verus! {

/// Milliseconds since the Unix epoch, as `chrono::Utc::now().timestamp_millis()`
/// reports them. Nothing is stated of the value: it depends on the machine's clock,
/// and two calls may return anything.
#[verifier::external_body]
pub(crate) fn now_millis() -> (r: i64) {
    chrono::Utc::now().timestamp_millis()
}

/// A fresh random (version 4) UUID from `uuid::Uuid::new_v4`, as its 128-bit value
/// (`Uuid::as_u128`). Nothing is stated of the value: it is random.
#[verifier::external_body]
pub(crate) fn new_uuid_v4() -> (r: u128) {
    uuid::Uuid::new_v4().as_u128()
}

} // verus!
