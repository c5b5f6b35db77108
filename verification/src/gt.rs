//! The target group of the pairing of BLS12-381, written additively.

use crate::bytes::bytes_eq;
use crate::field::{fadd, fmul, fneg, fsub, modulus, Scalar};
use crate::g1::G1Point;
use crate::g2::G2Point;
use vstd::prelude::*;

verus! {

/// The 576-byte encoding of `k` times the generator of the target group,
/// which is the pairing of the generators of G1 and G2.
pub uninterp spec fn gt_point(k: nat) -> Seq<u8>;

/// Whether `b` encodes an element of the target group.
pub open spec fn is_gt_encoding(b: Seq<u8>) -> bool {
    exists|k: nat| k < modulus() && #[trigger] gt_point(k) == b
}

/// The exponent, to the generator, of the element that `b` encodes.
pub open spec fn gt_exponent(b: Seq<u8>) -> nat {
    choose|k: nat| k < modulus() && #[trigger] gt_point(k) == b
}

/// An element of the target group, held as its uncompressed encoding.
#[derive(Clone, Copy, Debug)]
pub struct GtPoint {
    bytes: [u8; 576],
}

impl View for GtPoint {
    type V = nat;

    /// The exponent of the element to the generator.
    open spec fn view(&self) -> nat {
        gt_exponent(self.encoding())
    }
}

impl GtPoint {
    /// The 576 bytes of the encoding.
    pub closed spec fn encoding(&self) -> Seq<u8> {
        self.bytes@
    }

    /// A point is well formed when its bytes encode an element of the group.
    pub open spec fn wf(&self) -> bool {
        is_gt_encoding(self.encoding())
    }

    /// A well-formed point is the generator raised to its view.
    pub proof fn lemma_encoding(&self)
        requires
            self.wf(),
        ensures
            self@ < modulus(),
            self.encoding() == gt_point(self@),
    {
    }

    /// The generator multiplied by a scalar.
    pub fn from_scalar(s: &Scalar) -> (r: GtPoint)
        requires
            s.wf(),
        ensures
            r.wf(),
            r@ == s@,
            r.encoding() == gt_point(s@),
    {
        gt_base_mul(s)
    }

    /// The generator.
    pub fn generator() -> (r: GtPoint)
        ensures
            r.wf(),
            r@ == 1,
    {
        let one = Scalar::one();
        gt_base_mul(&one)
    }

    /// The neutral element.
    pub fn identity() -> (r: GtPoint)
        ensures
            r.wf(),
            r@ == 0,
    {
        let zero = Scalar::zero();
        gt_base_mul(&zero)
    }

    /// Reads an encoding; `None` when the bytes encode no element of
    /// the group.
    pub fn from_uncompressed(bytes: &[u8; 576]) -> (r: Option<GtPoint>)
        ensures
            r is Some <==> is_gt_encoding(bytes@),
            r matches Some(p) ==> p.encoding() == bytes@ && p.wf(),
    {
        if gt_is_valid(bytes) {
            Some(GtPoint { bytes: *bytes })
        } else {
            None
        }
    }

    /// The encoding.
    pub fn to_uncompressed(&self) -> (r: [u8; 576])
        ensures
            r@ == self.encoding(),
    {
        self.bytes
    }

    /// Sum of two points.
    pub fn add(&self, rhs: &GtPoint) -> (r: GtPoint)
        requires
            self.wf(),
            rhs.wf(),
        ensures
            r.wf(),
            r@ == fadd(self@, rhs@),
    {
        gt_add(self, rhs)
    }

    /// Difference of two points.
    pub fn sub(&self, rhs: &GtPoint) -> (r: GtPoint)
        requires
            self.wf(),
            rhs.wf(),
        ensures
            r.wf(),
            r@ == fsub(self@, rhs@),
    {
        gt_sub(self, rhs)
    }

    /// Opposite of a point.
    pub fn neg(&self) -> (r: GtPoint)
        requires
            self.wf(),
        ensures
            r.wf(),
            r@ == fneg(self@),
    {
        let zero = GtPoint::identity();
        let r = gt_sub(&zero, self);
        assert(fsub(0, self@) == fneg(self@));
        r
    }

    /// A point multiplied by a scalar.
    pub fn mul(&self, s: &Scalar) -> (r: GtPoint)
        requires
            self.wf(),
            s.wf(),
        ensures
            r.wf(),
            r@ == fmul(self@, s@),
    {
        gt_mul(self, s)
    }

    /// Whether two points are the same element.
    pub fn eq(&self, other: &GtPoint) -> (r: bool)
        ensures
            r == (self.encoding() == other.encoding()),
            self.wf() && other.wf() ==> r == (self@ == other@),
    {
        bytes_eq(&self.bytes, &other.bytes)
    }
}

/// `cosmian_bls12_381::pairing` of the two generators, multiplied by `s` and
/// serialized. The result encodes `s` times the generator, and since the
/// generator has order `r` and encodings are canonical, `s` is its only
/// exponent below `r`.
#[verifier::external_body]
fn gt_base_mul(s: &Scalar) -> (r: GtPoint)
    requires
        s.wf(),
    ensures
        r.encoding() == gt_point(s@),
        r@ == s@,
{
    let k = cosmian_bls12_381::Scalar::from_bytes(&s.to_bytes()).unwrap();
    let g = cosmian_bls12_381::pairing(
        &cosmian_bls12_381::G1Affine::generator(),
        &cosmian_bls12_381::G2Affine::generator(),
    );
    GtPoint { bytes: (g * k).to_uncompressed() }
}

/// `Gt::from_uncompressed`: accepts exactly the canonical encodings of the
/// elements of order dividing `r`, which are the multiples of the generator.
#[verifier::external_body]
fn gt_is_valid(bytes: &[u8; 576]) -> (r: bool)
    ensures
        r == is_gt_encoding(bytes@),
{
    bool::from(cosmian_bls12_381::Gt::from_uncompressed(bytes).is_some())
}

/// Addition of `Gt`: the exponents add up modulo the group order.
#[verifier::external_body]
fn gt_add(a: &GtPoint, b: &GtPoint) -> (r: GtPoint)
    requires
        a.wf(),
        b.wf(),
    ensures
        r.wf(),
        r@ == fadd(a@, b@),
{
    let x = cosmian_bls12_381::Gt::from_uncompressed(&a.bytes).unwrap();
    let y = cosmian_bls12_381::Gt::from_uncompressed(&b.bytes).unwrap();
    GtPoint { bytes: (x + y).to_uncompressed() }
}

/// Subtraction of `Gt`: the exponents subtract modulo the group order.
#[verifier::external_body]
fn gt_sub(a: &GtPoint, b: &GtPoint) -> (r: GtPoint)
    requires
        a.wf(),
        b.wf(),
    ensures
        r.wf(),
        r@ == fsub(a@, b@),
{
    let x = cosmian_bls12_381::Gt::from_uncompressed(&a.bytes).unwrap();
    let y = cosmian_bls12_381::Gt::from_uncompressed(&b.bytes).unwrap();
    GtPoint { bytes: (x - y).to_uncompressed() }
}

/// Multiplication of a `Gt` by a `Scalar`: the exponent is multiplied by the
/// scalar modulo the group order.
#[verifier::external_body]
fn gt_mul(p: &GtPoint, s: &Scalar) -> (r: GtPoint)
    requires
        p.wf(),
        s.wf(),
    ensures
        r.wf(),
        r@ == fmul(p@, s@),
{
    let x = cosmian_bls12_381::Gt::from_uncompressed(&p.bytes).unwrap();
    let k = cosmian_bls12_381::Scalar::from_bytes(&s.to_bytes()).unwrap();
    GtPoint { bytes: (x * k).to_uncompressed() }
}

/// `cosmian_bls12_381::pairing`: bilinear, so the exponent of the result to
/// the pairing of the generators is the product of the two exponents.
#[verifier::external_body]
fn gt_pairing(p: &G1Point, q: &G2Point) -> (r: GtPoint)
    requires
        p.wf(),
        q.wf(),
    ensures
        r.wf(),
        r@ == fmul(p@, q@),
{
    let x = cosmian_bls12_381::G1Affine::from_compressed_unchecked(&p.to_compressed()).unwrap();
    let y = cosmian_bls12_381::G2Affine::from_compressed_unchecked(&q.to_compressed()).unwrap();
    GtPoint { bytes: cosmian_bls12_381::pairing(&x, &y).to_uncompressed() }
}

/// The pairing `e(p, q)`.
pub fn pairing(p: &G1Point, q: &G2Point) -> (r: GtPoint)
    requires
        p.wf(),
        q.wf(),
    ensures
        r.wf(),
        r@ == fmul(p@, q@),
{
    gt_pairing(p, q)
}

} // verus!
