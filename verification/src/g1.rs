//! The group G1 of BLS12-381.

use crate::bytes::bytes_eq;
use crate::field::{fadd, fmul, fneg, fsub, modulus, Scalar};
use bls12_381::hash_to_curve::{ExpandMsgXmd, HashToCurve};
use vstd::prelude::*;

verus! {

/// The 48-byte compressed encoding of `k` times the generator of G1.
pub uninterp spec fn g1_point(k: nat) -> Seq<u8>;

/// The compressed encoding of the element of G1 that the message `msg` is
/// hashed to under the domain separation tag `dst`.
pub uninterp spec fn g1_hash(msg: Seq<u8>, dst: Seq<u8>) -> Seq<u8>;

/// Whether `b` encodes an element of G1.
pub open spec fn is_g1_encoding(b: Seq<u8>) -> bool {
    exists|k: nat| k < modulus() && #[trigger] g1_point(k) == b
}

/// The exponent, to the generator, of the element that `b` encodes.
pub open spec fn g1_exponent(b: Seq<u8>) -> nat {
    choose|k: nat| k < modulus() && #[trigger] g1_point(k) == b
}

/// An element of G1, held as its compressed encoding.
#[derive(Clone, Copy, Debug)]
pub struct G1Point {
    bytes: [u8; 48],
}

impl View for G1Point {
    type V = nat;

    /// The exponent of the element to the generator.
    open spec fn view(&self) -> nat {
        g1_exponent(self.encoding())
    }
}

impl G1Point {
    /// The 48 bytes of the compressed encoding.
    pub closed spec fn encoding(&self) -> Seq<u8> {
        self.bytes@
    }

    /// A point is well formed when its bytes encode an element of the group.
    pub open spec fn wf(&self) -> bool {
        is_g1_encoding(self.encoding())
    }

    /// A well-formed point is the generator raised to its view.
    pub proof fn lemma_encoding(&self)
        requires
            self.wf(),
        ensures
            self@ < modulus(),
            self.encoding() == g1_point(self@),
    {
    }

    /// The generator multiplied by a scalar.
    pub fn from_scalar(s: &Scalar) -> (r: G1Point)
        requires
            s.wf(),
        ensures
            r.wf(),
            r@ == s@,
            r.encoding() == g1_point(s@),
    {
        g1_base_mul(s)
    }

    /// The generator.
    pub fn generator() -> (r: G1Point)
        ensures
            r.wf(),
            r@ == 1,
    {
        let one = Scalar::one();
        g1_base_mul(&one)
    }

    /// The neutral element.
    pub fn identity() -> (r: G1Point)
        ensures
            r.wf(),
            r@ == 0,
    {
        let zero = Scalar::zero();
        g1_base_mul(&zero)
    }

    /// The element that a message is hashed to under a domain separation tag.
    pub fn hash(msg: &[u8], dst: &[u8]) -> (r: G1Point)
        ensures
            r.wf(),
            r.encoding() == g1_hash(msg@, dst@),
    {
        g1_hash_to_curve(msg, dst)
    }

    /// Reads a compressed encoding; `None` when the bytes encode no element of
    /// the group.
    pub fn from_compressed(bytes: &[u8; 48]) -> (r: Option<G1Point>)
        ensures
            r is Some <==> is_g1_encoding(bytes@),
            r matches Some(p) ==> p.encoding() == bytes@ && p.wf(),
    {
        if g1_is_valid(bytes) {
            Some(G1Point { bytes: *bytes })
        } else {
            None
        }
    }

    /// The compressed encoding.
    pub fn to_compressed(&self) -> (r: [u8; 48])
        ensures
            r@ == self.encoding(),
    {
        self.bytes
    }

    /// Sum of two points.
    pub fn add(&self, rhs: &G1Point) -> (r: G1Point)
        requires
            self.wf(),
            rhs.wf(),
        ensures
            r.wf(),
            r@ == fadd(self@, rhs@),
    {
        g1_add(self, rhs)
    }

    /// Difference of two points.
    pub fn sub(&self, rhs: &G1Point) -> (r: G1Point)
        requires
            self.wf(),
            rhs.wf(),
        ensures
            r.wf(),
            r@ == fsub(self@, rhs@),
    {
        g1_sub(self, rhs)
    }

    /// Opposite of a point.
    pub fn neg(&self) -> (r: G1Point)
        requires
            self.wf(),
        ensures
            r.wf(),
            r@ == fneg(self@),
    {
        let zero = G1Point::identity();
        let r = g1_sub(&zero, self);
        assert(fsub(0, self@) == fneg(self@));
        r
    }

    /// A point multiplied by a scalar.
    pub fn mul(&self, s: &Scalar) -> (r: G1Point)
        requires
            self.wf(),
            s.wf(),
        ensures
            r.wf(),
            r@ == fmul(self@, s@),
    {
        g1_mul(self, s)
    }

    /// Whether two points are the same element.
    pub fn eq(&self, other: &G1Point) -> (r: bool)
        ensures
            r == (self.encoding() == other.encoding()),
            self.wf() && other.wf() ==> r == (self@ == other@),
    {
        bytes_eq(&self.bytes, &other.bytes)
    }
}

/// The exponents of a sequence of points.
pub open spec fn point_values(s: Seq<G1Point>) -> Seq<nat> {
    Seq::new(s.len(), |i: int| s[i]@)
}

/// Whether every point of a sequence is well formed.
pub open spec fn points_wf(s: Seq<G1Point>) -> bool {
    forall|i: int| 0 <= i < s.len() ==> (#[trigger] s[i]).wf()
}

/// `G1Projective::generator() * s`, compressed. The result encodes `s` times
/// the generator, and since the generator has order `r` and encodings are
/// canonical, `s` is its only exponent below `r`.
#[verifier::external_body]
fn g1_base_mul(s: &Scalar) -> (r: G1Point)
    requires
        s.wf(),
    ensures
        r.encoding() == g1_point(s@),
        r@ == s@,
{
    let k = bls12_381::Scalar::from_bytes(&s.to_bytes()).unwrap();
    let p = bls12_381::G1Projective::generator() * k;
    G1Point { bytes: bls12_381::G1Affine::from(p).to_compressed() }
}

/// `HashToCurve::hash_to_curve` of `G1Projective` with `ExpandMsgXmd<Sha256>`,
/// compressed. It clears the cofactor, so the result is in the prime-order
/// subgroup.
#[verifier::external_body]
fn g1_hash_to_curve(msg: &[u8], dst: &[u8]) -> (r: G1Point)
    ensures
        r.wf(),
        r.encoding() == g1_hash(msg@, dst@),
{
    let p = <bls12_381::G1Projective as HashToCurve<ExpandMsgXmd<sha2::Sha256>>>::hash_to_curve(
        msg,
        dst,
    );
    G1Point { bytes: bls12_381::G1Affine::from(p).to_compressed() }
}

/// `G1Affine::from_compressed`: accepts exactly the canonical encodings of the
/// elements of the prime-order subgroup, which are the multiples of the
/// generator.
#[verifier::external_body]
fn g1_is_valid(bytes: &[u8; 48]) -> (r: bool)
    ensures
        r == is_g1_encoding(bytes@),
{
    bool::from(bls12_381::G1Affine::from_compressed(bytes).is_some())
}

/// Addition of `G1Projective`: the exponents add up modulo the group order.
#[verifier::external_body]
fn g1_add(a: &G1Point, b: &G1Point) -> (r: G1Point)
    requires
        a.wf(),
        b.wf(),
    ensures
        r.wf(),
        r@ == fadd(a@, b@),
{
    let x = bls12_381::G1Affine::from_compressed_unchecked(&a.bytes).unwrap();
    let y = bls12_381::G1Affine::from_compressed_unchecked(&b.bytes).unwrap();
    let sum = bls12_381::G1Projective::from(x) + bls12_381::G1Projective::from(y);
    G1Point { bytes: bls12_381::G1Affine::from(sum).to_compressed() }
}

/// Subtraction of `G1Projective`: the exponents subtract modulo the group
/// order.
#[verifier::external_body]
fn g1_sub(a: &G1Point, b: &G1Point) -> (r: G1Point)
    requires
        a.wf(),
        b.wf(),
    ensures
        r.wf(),
        r@ == fsub(a@, b@),
{
    let x = bls12_381::G1Affine::from_compressed_unchecked(&a.bytes).unwrap();
    let y = bls12_381::G1Affine::from_compressed_unchecked(&b.bytes).unwrap();
    let d = bls12_381::G1Projective::from(x) - bls12_381::G1Projective::from(y);
    G1Point { bytes: bls12_381::G1Affine::from(d).to_compressed() }
}

/// Multiplication of a `G1Projective` by a `Scalar`: the exponent is
/// multiplied by the scalar modulo the group order.
#[verifier::external_body]
fn g1_mul(p: &G1Point, s: &Scalar) -> (r: G1Point)
    requires
        p.wf(),
        s.wf(),
    ensures
        r.wf(),
        r@ == fmul(p@, s@),
{
    let x = bls12_381::G1Affine::from_compressed_unchecked(&p.bytes).unwrap();
    let k = bls12_381::Scalar::from_bytes(&s.to_bytes()).unwrap();
    let q = bls12_381::G1Projective::from(x) * k;
    G1Point { bytes: bls12_381::G1Affine::from(q).to_compressed() }
}

} // verus!
