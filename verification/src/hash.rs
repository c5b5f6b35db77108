//! The deterministic maps from byte strings into the groups and the field,
//! and the fingerprints of group elements.

use crate::bytes::append_bytes;
use crate::field::{scalar_hash, Scalar};
use crate::g1::{g1_exponent, g1_hash, G1Point};
use crate::g2::{g2_exponent, g2_hash, G2Point};
use crate::gt::GtPoint;
use crate::label::{be_bytes_of_u64, u64_to_be_bytes};
use crate::types::DVec;
use sha2::Digest;
use vstd::prelude::*;

verus! {

/// The tag that separates the map into G1 from the others.
pub const TAG_G1: u8 = 1;

/// The tag that separates the map into G2 from the others.
pub const TAG_G2: u8 = 2;

/// The tag that separates the map into the field from the others.
pub const TAG_SCALAR: u8 = 3;

/// The SHA-256 digest of a byte string, 32 bytes long.
pub uninterp spec fn sha256_digest(data: Seq<u8>) -> Seq<u8>;

/// `Sha256::digest`.
#[verifier::external_body]
fn sha256_of(data: &[u8]) -> (r: [u8; 32])
    ensures
        r@ == sha256_digest(data@),
{
    sha2::Sha256::digest(data).into()
}

/// The SHA-256 digest of a byte string.
pub fn sha256(data: &[u8]) -> (r: [u8; 32])
    ensures
        r@ == sha256_digest(data@),
{
    sha256_of(data)
}

/// The fingerprint of an element of G1: the digest of its encoding.
pub fn fingerprint_g1(p: &G1Point) -> (r: [u8; 32])
    ensures
        r@ == sha256_digest(p.encoding()),
{
    let bytes = p.to_compressed();
    sha256_of(bytes.as_slice())
}

/// The fingerprint of an element of the target group: the digest of its
/// encoding.
pub fn fingerprint_gt(p: &GtPoint) -> (r: [u8; 32])
    ensures
        r@ == sha256_digest(p.encoding()),
{
    let bytes = p.to_uncompressed();
    sha256_of(bytes.as_slice())
}

/// The exponent of the element of G1 that a label is hashed to.
pub open spec fn hashed_g1(label: Seq<u8>) -> nat {
    g1_exponent(g1_hash(label, seq![TAG_G1]))
}

/// The exponent of the element of G2 that a label is hashed to.
pub open spec fn hashed_g2(label: Seq<u8>) -> nat {
    g2_exponent(g2_hash(label, seq![TAG_G2]))
}

/// The exponents of the two elements of G1 that a label is hashed to.
pub open spec fn hashed_pair_g1(label: Seq<u8>) -> DVec<nat> {
    DVec { x: hashed_g1(label.push(1)), y: hashed_g1(label.push(2)) }
}

/// The exponents of the two elements of G2 that a label is hashed to.
pub open spec fn hashed_pair_g2(label: Seq<u8>) -> DVec<nat> {
    DVec { x: hashed_g2(label.push(1)), y: hashed_g2(label.push(2)) }
}

/// The scalar that three encodings and a label are hashed to.
pub open spec fn hashed_scalar(a: Seq<u8>, b: Seq<u8>, c: Seq<u8>, label: Seq<u8>) -> nat {
    scalar_hash(a + b + c + label, seq![TAG_SCALAR])
}

/// A copy of `data` with one more byte at its end.
fn with_suffix(data: &[u8], suffix: u8) -> (r: Vec<u8>)
    ensures
        r@ == data@.push(suffix),
{
    let mut r: Vec<u8> = Vec::new();
    append_bytes(&mut r, data);
    r.push(suffix);
    r
}

/// The element of G1 that a label is hashed to.
pub fn hash_to_g1(label: &[u8]) -> (r: G1Point)
    ensures
        r.wf(),
        r.encoding() == g1_hash(label@, seq![TAG_G1]),
        r@ == hashed_g1(label@),
{
    let dst = [TAG_G1];
    assert(dst@ =~= seq![TAG_G1]);
    G1Point::hash(label, dst.as_slice())
}

/// The element of G2 that a label is hashed to.
pub fn hash_to_g2(label: &[u8]) -> (r: G2Point)
    ensures
        r.wf(),
        r.encoding() == g2_hash(label@, seq![TAG_G2]),
        r@ == hashed_g2(label@),
{
    let dst = [TAG_G2];
    assert(dst@ =~= seq![TAG_G2]);
    G2Point::hash(label, dst.as_slice())
}

/// The two elements of G1 that a label is hashed to: the label followed by
/// the byte 1, and the label followed by the byte 2.
pub fn double_hash_to_curve_in_g1(label: &[u8]) -> (r: DVec<G1Point>)
    ensures
        r.x.wf(),
        r.y.wf(),
        r@ == hashed_pair_g1(label@),
{
    let first = with_suffix(label, 1);
    let second = with_suffix(label, 2);
    DVec::new(hash_to_g1(first.as_slice()), hash_to_g1(second.as_slice()))
}

/// The two elements of G2 that a label is hashed to: the label followed by
/// the byte 1, and the label followed by the byte 2.
pub fn double_hash_to_curve_in_g2(label: &[u8]) -> (r: DVec<G2Point>)
    ensures
        r.x.wf(),
        r.y.wf(),
        r@ == hashed_pair_g2(label@),
{
    let first = with_suffix(label, 1);
    let second = with_suffix(label, 2);
    DVec::new(hash_to_g2(first.as_slice()), hash_to_g2(second.as_slice()))
}

/// The element of G1 that a numeric label is hashed to.
pub fn hash_to_curve(l: u64) -> (r: G1Point)
    ensures
        r.wf(),
        r@ == hashed_g1(be_bytes_of_u64(l)),
{
    let bytes = u64_to_be_bytes(l);
    hash_to_g1(bytes.as_slice())
}

/// The two elements of G1 that a numeric label is hashed to.
pub fn double_hash_to_curve(l: u64) -> (r: DVec<G1Point>)
    ensures
        r.x.wf(),
        r.y.wf(),
        r@ == hashed_pair_g1(be_bytes_of_u64(l)),
{
    let bytes = u64_to_be_bytes(l);
    double_hash_to_curve_in_g1(bytes.as_slice())
}

/// The scalar that three elements of G1 and a label are hashed to: the three
/// compressed encodings, then the label.
pub fn hash_to_scalar(a: &G1Point, b: &G1Point, c: &G1Point, label: &[u8]) -> (r: Scalar)
    ensures
        r.wf(),
        r@ == hashed_scalar(a.encoding(), b.encoding(), c.encoding(), label@),
{
    let mut msg: Vec<u8> = Vec::new();
    let ea = a.to_compressed();
    let eb = b.to_compressed();
    let ec = c.to_compressed();
    append_bytes(&mut msg, ea.as_slice());
    append_bytes(&mut msg, eb.as_slice());
    append_bytes(&mut msg, ec.as_slice());
    append_bytes(&mut msg, label);
    assert(msg@ =~= a.encoding() + b.encoding() + c.encoding() + label@);
    let dst = [TAG_SCALAR];
    assert(dst@ =~= seq![TAG_SCALAR]);
    Scalar::hash(msg.as_slice(), dst.as_slice())
}

} // verus!
