//! The device's asymmetric keys. Deriving a public key is Diffie-Hellman
//! base-point multiplication, done by the x25519 crate; the library names
//! its result and builds on nothing more.

use vstd::prelude::*;

verus! {

/// The public key derived from a private key: a function of the private
/// bytes alone.
pub uninterp spec fn spec_public_from_private(sk: Seq<u8>) -> Seq<u8>;

/// Relies on x25519_dalek::PublicKey::from(&StaticSecret): clamped
/// base-point multiplication of the private key bytes, deterministic in
/// its input.
#[verifier::external_body]
pub fn public_from_private(sk: &[u8; 32]) -> (r: [u8; 32])
    ensures
        r@ == spec_public_from_private(sk@),
{
    let secret = x25519_dalek::StaticSecret::from(*sk);
    let public = x25519_dalek::PublicKey::from(&secret);
    public.to_bytes()
}

} // verus!
