//! The single trusted time source.

use vstd::prelude::*;

verus! {

/// Relies on chrono::Utc::now and chrono::DateTime::timestamp: the current
/// wall-clock time as whole seconds since the Unix epoch. Nothing is promised
/// of the value; the clock may move arbitrarily between calls.
#[verifier::external_body]
pub fn now_utc() -> i64 {
    chrono::Utc::now().timestamp()
}

} // verus!
