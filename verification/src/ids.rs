//! Identifier and timestamp generation.
//!
//! Both calls are nondeterministic, so their contracts state only what holds
//! of every outcome; everything the pipeline decides from an id or a
//! timestamp is verified in functions that take the value as an argument.

use vstd::prelude::*;

verus! {

/// Relies on uuid's `Uuid::new_v4` and its `Display` impl: the hyphenated
/// text form of a UUID is always 36 characters. Nothing is promised about
/// which id comes back: the value is random.
#[verifier::external_body]
pub(crate) fn fresh_id() -> (r: String)
    ensures
        r@.len() == 36,
{
    uuid::Uuid::new_v4().to_string()
}

/// Relies on chrono's `Utc::now` and `DateTime::timestamp`: seconds since
/// the Unix epoch. Nothing more is promised of the clock.
#[verifier::external_body]
pub(crate) fn now_timestamp() -> (r: i64) {
    chrono::Utc::now().timestamp()
}

} // verus!
