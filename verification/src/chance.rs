//! Chance.

use vstd::prelude::*;

verus! {

/// Draws a number with `rand::random`. Nothing is promised of it.
#[verifier::external_body]
pub(crate) fn random_u64() -> u64 {
    rand::random::<u64>()
}

} // verus!
