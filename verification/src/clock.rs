use vstd::prelude::*;

verus! {

/// The current time in milliseconds since the Unix epoch, from chrono's `Utc::now()` and
/// `DateTime::timestamp_millis`. Nothing is claimed of the value: it is the machine's clock.
#[verifier::external_body]
pub(crate) fn now_millis() -> (r: i64) {
    chrono::Utc::now().timestamp_millis()
}

} // verus!
