//! The wall clock, the one external collaborator of the authority besides
//! the cryptography crate.
use vstd::prelude::*;

verus! {

/// Relies on `chrono::Utc::now`: reads the wall clock and returns the
/// current Unix time in seconds. The result depends on the moment of the
/// call, so no contract pins it; callers state what holds for every
/// reading.
#[verifier::external_body]
pub fn unix_now() -> i64 {
    chrono::Utc::now().timestamp()
}

} // verus!
