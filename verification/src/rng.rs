//! Access to the operating system's cryptographic random number source.

use vstd::prelude::*;
use rand_core::RngCore;

verus! {

/// Relies on rand_core::OsRng::next_u32: a word from the OS entropy
/// source. Nothing can be promised of a random value.
#[verifier::external_body]
pub(crate) fn random_u32() -> u32 {
    rand_core::OsRng.next_u32()
}

} // verus!
