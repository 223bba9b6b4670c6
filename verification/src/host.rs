//! The two values the library takes from the host environment: the
//! current time and fresh random identifiers. Both come through trusted
//! wrappers; nothing is assumed about what they return, and every caller
//! is verified for every possible outcome.

use vstd::prelude::*;

verus! {

/// Relies on `chrono::Utc::now` and `chrono::DateTime::timestamp`:
/// seconds since the Unix epoch. Nothing is assumed about the value.
#[verifier::external_body]
pub fn now_timestamp() -> i64 {
    chrono::Utc::now().timestamp()
}

/// Relies on `uuid::Uuid::new_v4` and its `Display` form: a fresh random
/// identifier. Nothing is assumed about the value.
#[verifier::external_body]
pub fn fresh_session_id() -> String {
    uuid::Uuid::new_v4().to_string()
}

} // verus!
