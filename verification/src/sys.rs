//! The two values the storage engine takes from the outside world: the
//! current time and a fresh random identifier. Nothing can be promised of
//! either, so every function that depends on one also exists in a form
//! that takes the value as an argument.

use vstd::prelude::*;

verus! {

/// Relies on `std::time::SystemTime::now`: seconds since the Unix epoch.
/// The clock is arbitrary, so nothing is promised of the result.
#[verifier::external_body]
pub(crate) fn epoch_now() -> u64 {
    match std::time::SystemTime::now().duration_since(std::time::UNIX_EPOCH) {
        Ok(d) => d.as_secs(),
        Err(_) => 0,
    }
}

/// Relies on `uuid::Uuid::new_v4`: a freshly generated random identifier.
/// The bytes are random, so nothing is promised of the result.
#[verifier::external_body]
pub(crate) fn generate_uuid() -> [u8; 16] {
    uuid::Uuid::new_v4().into_bytes()
}

} // verus!
