//! Core state-synchronization and arbitration engine for a feature-tracking
//! dashboard shared between a human operator and autonomous coding agents.
//!
//! The crate models the local cache as an in-memory keyed store and verifies
//! the four pieces that carry all of the conflict-resolution reasoning:
//! source-aware update arbitration with a time-locked human override, one-way
//! synchronization from an authoritative external store, session liveness
//! tracking with staleness eviction, and a bounded broadcast event bus.

use vstd::prelude::*;

pub mod bus;
pub mod clock;
pub mod model;
pub mod order;
pub mod plugin;
pub mod store;
pub mod sync;
pub mod workflow;

verus! {

/// Seconds a human-sourced update locks a feature row against agent writes:
/// a five-minute window.
pub const OVERRIDE_WINDOW_SECS: i64 = 300;

/// True when `a` and `b` hold the same characters.
pub fn str_eq(a: &str, b: &str) -> (r: bool)
    ensures
        r == (a@ == b@),
{
    let a_len = a.unicode_len();
    let b_len = b.unicode_len();
    if a_len != b_len {
        proof {
            assert(a@ != b@);
        }
        return false;
    }
    let mut i: usize = 0;
    while i < a_len
        invariant
            i <= a_len,
            a_len == a@.len(),
            a_len == b@.len(),
            forall|j: int| 0 <= j < i ==> a@[j] == b@[j],
        decreases a_len - i,
    {
        if a.get_char(i) != b.get_char(i) {
            proof {
                assert(a@[i as int] != b@[i as int]);
            }
            return false;
        }
        i = i + 1;
    }
    proof {
        assert(a@ =~= b@);
    }
    true
}

} // verus!
