//! Where randomness enters the library.

use crate::field::Scalar;
use vstd::prelude::*;

verus! {

/// `OsRng::fill_bytes` on a buffer of 64 bytes. Nothing is known of the bytes.
#[verifier::external_body]
fn system_bytes_wide() -> (r: [u8; 64]) {
    let mut buf = [0u8; 64];
    rand_core::RngCore::fill_bytes(&mut rand_core::OsRng, &mut buf);
    buf
}

/// `OsRng::fill_bytes` on a buffer of 32 bytes. Nothing is known of the bytes.
#[verifier::external_body]
fn system_bytes() -> (r: [u8; 32]) {
    let mut buf = [0u8; 32];
    rand_core::RngCore::fill_bytes(&mut rand_core::OsRng, &mut buf);
    buf
}

/// `OsRng::next_u64`. Nothing is known of the result.
#[verifier::external_body]
fn system_u64() -> (r: u64) {
    rand_core::RngCore::next_u64(&mut rand_core::OsRng)
}

/// A scalar drawn from the system's generator: 512 random bits, reduced.
pub fn random_scalar() -> (r: Scalar)
    ensures
        r.wf(),
{
    let wide = system_bytes_wide();
    Scalar::from_bytes_wide(&wide)
}

/// A scalar below `bound`, drawn from the system's generator; zero when the
/// bound is zero.
pub fn random_below(bound: u64) -> (r: Scalar)
    ensures
        r.wf(),
        bound > 0 ==> r@ < bound,
        bound == 0 ==> r@ == 0,
{
    let raw = system_u64();
    reduce_below(raw, bound)
}

/// The scalar of `raw` reduced below `bound`; zero when the bound is zero.
pub fn reduce_below(raw: u64, bound: u64) -> (r: Scalar)
    ensures
        r.wf(),
        r@ == (if bound == 0 { 0 } else { raw as nat % bound as nat }),
{
    if bound == 0 {
        Scalar::zero()
    } else {
        Scalar::from_u64(raw % bound)
    }
}

/// Sixty-four bits drawn from the system's generator.
pub fn random_u64() -> (r: u64) {
    system_u64()
}

/// Thirty-two bytes drawn from the system's generator.
pub fn random_nonce() -> (r: [u8; 32]) {
    system_bytes()
}

} // verus!
