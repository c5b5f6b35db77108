//! The scalar field of BLS12-381.

use crate::bytes::bytes_eq;
use bls12_381::hash_to_curve::{ExpandMsgXmd, HashToField};
use vstd::prelude::*;

verus! {

/// The order `r` of the scalar field, which is also the order of the three groups.
pub open spec fn modulus() -> nat {
    0x73eda753299d7d483339d80809a1d80553bda402fffe5bfeffffffff00000001nat
}

/// Sum in the field.
pub open spec fn fadd(a: nat, b: nat) -> nat {
    (a + b) % modulus()
}

/// Difference in the field.
pub open spec fn fsub(a: nat, b: nat) -> nat {
    ((a as int - b as int) % (modulus() as int)) as nat
}

/// Product in the field.
pub open spec fn fmul(a: nat, b: nat) -> nat {
    (a * b) % modulus()
}

/// Opposite in the field.
pub open spec fn fneg(a: nat) -> nat {
    ((0 - a as int) % (modulus() as int)) as nat
}

/// The product in the field does not depend on the order of its factors.
pub proof fn lemma_fmul_commutes(a: nat, b: nat)
    ensures
        fmul(a, b) == fmul(b, a),
{
    vstd::arithmetic::mul::lemma_mul_is_commutative(a as int, b as int);
}

/// The integer that a byte string denotes, least significant byte first.
pub open spec fn le_value(b: Seq<u8>) -> nat
    decreases b.len(),
{
    if b.len() == 0 {
        0
    } else {
        b[0] as nat + 256 * le_value(b.drop_first())
    }
}

/// The integer below the modulus that the message `msg` is hashed to under
/// the domain separation tag `dst`.
pub uninterp spec fn scalar_hash(msg: Seq<u8>, dst: Seq<u8>) -> nat;

/// An element of the scalar field, held as its 32-byte little-endian encoding.
#[derive(Clone, Copy, Debug)]
pub struct Scalar {
    bytes: [u8; 32],
}

impl View for Scalar {
    type V = nat;

    /// The integer that the scalar stands for.
    open spec fn view(&self) -> nat {
        le_value(self.le_bytes())
    }
}

impl Scalar {
    /// The 32 bytes of the encoding, least significant first.
    pub closed spec fn le_bytes(&self) -> Seq<u8> {
        self.bytes@
    }

    /// A scalar is well formed when its encoding is canonical.
    pub open spec fn wf(&self) -> bool {
        self@ < modulus()
    }

    /// The encoding has 32 bytes.
    pub proof fn lemma_le_bytes_len(&self)
        ensures
            self.le_bytes().len() == 32,
    {
    }

    /// The scalar of a machine integer.
    pub fn from_u64(x: u64) -> (r: Scalar)
        ensures
            r.wf(),
            r@ == x,
    {
        scalar_of_u64(x)
    }

    /// Zero.
    pub fn zero() -> (r: Scalar)
        ensures
            r.wf(),
            r@ == 0,
    {
        scalar_of_u64(0)
    }

    /// One.
    pub fn one() -> (r: Scalar)
        ensures
            r.wf(),
            r@ == 1,
    {
        scalar_of_u64(1)
    }

    /// Reads a little-endian encoding, which must be canonical.
    pub fn from_bytes(bytes: &[u8; 32]) -> (r: Option<Scalar>)
        ensures
            r is Some <==> le_value(bytes@) < modulus(),
            r matches Some(s) ==> s.le_bytes() == bytes@ && s.wf(),
    {
        if scalar_is_canonical(bytes) {
            Some(Scalar { bytes: *bytes })
        } else {
            None
        }
    }

    /// Reduces a 512-bit little-endian integer into the field.
    pub fn from_bytes_wide(bytes: &[u8; 64]) -> (r: Scalar)
        ensures
            r.wf(),
            r@ == le_value(bytes@) % modulus(),
    {
        scalar_reduce_wide(bytes)
    }

    /// The scalar that a message is hashed to under a domain separation tag.
    pub fn hash(msg: &[u8], dst: &[u8]) -> (r: Scalar)
        ensures
            r.wf(),
            r@ == scalar_hash(msg@, dst@),
    {
        scalar_hash_to_field(msg, dst)
    }

    /// The little-endian encoding.
    pub fn to_bytes(&self) -> (r: [u8; 32])
        ensures
            r@ == self.le_bytes(),
    {
        self.bytes
    }

    /// The big-endian encoding: the little-endian one, reversed.
    pub fn to_be_bytes(&self) -> (r: [u8; 32])
        ensures
            r@ == self.le_bytes().reverse(),
    {
        let mut out = [0u8; 32];
        let mut i: usize = 0;
        while i < 32
            invariant
                i <= 32,
                forall|j: int| 0 <= j < i ==> out@[j] == self.bytes@[31 - j],
            decreases 32 - i,
        {
            out[i] = self.bytes[31 - i];
            i += 1;
        }
        assert(out@ =~= self.bytes@.reverse());
        out
    }

    /// Sum of two scalars.
    pub fn add(&self, rhs: &Scalar) -> (r: Scalar)
        requires
            self.wf(),
            rhs.wf(),
        ensures
            r.wf(),
            r@ == fadd(self@, rhs@),
    {
        scalar_add(self, rhs)
    }

    /// Difference of two scalars.
    pub fn sub(&self, rhs: &Scalar) -> (r: Scalar)
        requires
            self.wf(),
            rhs.wf(),
        ensures
            r.wf(),
            r@ == fsub(self@, rhs@),
    {
        scalar_sub(self, rhs)
    }

    /// Product of two scalars.
    pub fn mul(&self, rhs: &Scalar) -> (r: Scalar)
        requires
            self.wf(),
            rhs.wf(),
        ensures
            r.wf(),
            r@ == fmul(self@, rhs@),
    {
        scalar_mul(self, rhs)
    }

    /// Opposite of a scalar.
    pub fn neg(&self) -> (r: Scalar)
        requires
            self.wf(),
        ensures
            r.wf(),
            r@ == fneg(self@),
    {
        scalar_neg(self)
    }

    /// The inverse of a scalar; zero has none.
    pub fn invert(&self) -> (r: Option<Scalar>)
        requires
            self.wf(),
        ensures
            r is Some <==> self@ != 0,
            r matches Some(i) ==> i.wf() && fmul(self@, i@) == 1,
    {
        scalar_invert(self)
    }

    /// Whether two scalars are the same element.
    pub fn eq(&self, other: &Scalar) -> (r: bool)
        ensures
            r == (self@ == other@),
            r == (self.le_bytes() == other.le_bytes()),
    {
        proof {
            if self@ == other@ {
                lemma_le_value_injective(self.bytes@, other.bytes@);
            }
        }
        bytes_eq(&self.bytes, &other.bytes)
    }
}

/// Byte strings of one length that denote the same integer are equal.
pub proof fn lemma_le_value_injective(a: Seq<u8>, b: Seq<u8>)
    requires
        a.len() == b.len(),
        le_value(a) == le_value(b),
    ensures
        a == b,
    decreases a.len(),
{
    if a.len() > 0 {
        let (x, y) = (le_value(a.drop_first()), le_value(b.drop_first()));
        assert(a[0] as nat + 256 * x == b[0] as nat + 256 * y);
        assert(a[0] == b[0] && x == y) by (nonlinear_arith)
            requires
                a[0] as nat + 256 * x == b[0] as nat + 256 * y,
                a[0] < 256,
                b[0] < 256,
        ;
        lemma_le_value_injective(a.drop_first(), b.drop_first());
        assert(a =~= seq![a[0]] + a.drop_first());
        assert(b =~= seq![b[0]] + b.drop_first());
    } else {
        assert(a =~= b);
    }
}

/// The integers that a sequence of scalars stands for.
pub open spec fn scalar_values(s: Seq<Scalar>) -> Seq<nat> {
    Seq::new(s.len(), |i: int| s[i]@)
}

/// Whether every scalar of a sequence is well formed.
pub open spec fn scalars_wf(s: Seq<Scalar>) -> bool {
    forall|i: int| 0 <= i < s.len() ==> (#[trigger] s[i]).wf()
}

/// `bls12_381::Scalar::from(u64)`, then `to_bytes`: the canonical encoding of
/// the integer `x`, which is below the modulus.
#[verifier::external_body]
fn scalar_of_u64(x: u64) -> (r: Scalar)
    ensures
        r@ == x,
{
    Scalar { bytes: bls12_381::Scalar::from(x).to_bytes() }
}

/// `bls12_381::Scalar::from_bytes`: accepts exactly the encodings of integers
/// below the modulus.
#[verifier::external_body]
fn scalar_is_canonical(bytes: &[u8; 32]) -> (r: bool)
    ensures
        r == (le_value(bytes@) < modulus()),
{
    bool::from(bls12_381::Scalar::from_bytes(bytes).is_some())
}

/// `bls12_381::Scalar::from_bytes_wide`: the 512-bit little-endian integer,
/// reduced by the modulus.
#[verifier::external_body]
fn scalar_reduce_wide(bytes: &[u8; 64]) -> (r: Scalar)
    ensures
        r@ == le_value(bytes@) % modulus(),
{
    Scalar { bytes: bls12_381::Scalar::from_bytes_wide(bytes).to_bytes() }
}

/// `bls12_381::Scalar::invert`: fails for zero alone, and gives the scalar
/// whose product with the argument is one.
#[verifier::external_body]
fn scalar_invert(a: &Scalar) -> (r: Option<Scalar>)
    requires
        a.wf(),
    ensures
        r is Some <==> a@ != 0,
        r matches Some(i) ==> i.wf() && fmul(a@, i@) == 1,
{
    let x = bls12_381::Scalar::from_bytes(&a.bytes).unwrap();
    Option::<bls12_381::Scalar>::from(x.invert()).map(|v| Scalar { bytes: v.to_bytes() })
}

/// `HashToField::hash_to_field` of `bls12_381::Scalar` with
/// `ExpandMsgXmd<Sha256>`, for one element. The result is reduced.
#[verifier::external_body]
fn scalar_hash_to_field(msg: &[u8], dst: &[u8]) -> (r: Scalar)
    ensures
        r.wf(),
        r@ == scalar_hash(msg@, dst@),
{
    let mut out = [bls12_381::Scalar::zero(); 1];
    <bls12_381::Scalar as HashToField>::hash_to_field::<ExpandMsgXmd<sha2::Sha256>>(
        msg,
        dst,
        &mut out,
    );
    Scalar { bytes: out[0].to_bytes() }
}

/// Addition of `bls12_381::Scalar`: the sum of the two integers, reduced.
#[verifier::external_body]
fn scalar_add(a: &Scalar, b: &Scalar) -> (r: Scalar)
    requires
        a.wf(),
        b.wf(),
    ensures
        r@ == fadd(a@, b@),
{
    let x = bls12_381::Scalar::from_bytes(&a.bytes).unwrap();
    let y = bls12_381::Scalar::from_bytes(&b.bytes).unwrap();
    Scalar { bytes: (x + y).to_bytes() }
}

/// Subtraction of `bls12_381::Scalar`: the difference of the two integers,
/// reduced into `[0, r)`.
#[verifier::external_body]
fn scalar_sub(a: &Scalar, b: &Scalar) -> (r: Scalar)
    requires
        a.wf(),
        b.wf(),
    ensures
        r@ == fsub(a@, b@),
{
    let x = bls12_381::Scalar::from_bytes(&a.bytes).unwrap();
    let y = bls12_381::Scalar::from_bytes(&b.bytes).unwrap();
    Scalar { bytes: (x - y).to_bytes() }
}

/// Multiplication of `bls12_381::Scalar`: the product of the two integers,
/// reduced.
#[verifier::external_body]
fn scalar_mul(a: &Scalar, b: &Scalar) -> (r: Scalar)
    requires
        a.wf(),
        b.wf(),
    ensures
        r@ == fmul(a@, b@),
{
    let x = bls12_381::Scalar::from_bytes(&a.bytes).unwrap();
    let y = bls12_381::Scalar::from_bytes(&b.bytes).unwrap();
    Scalar { bytes: (x * y).to_bytes() }
}

/// Negation of `bls12_381::Scalar`: the opposite of the integer, reduced into
/// `[0, r)`.
#[verifier::external_body]
fn scalar_neg(a: &Scalar) -> (r: Scalar)
    requires
        a.wf(),
    ensures
        r@ == fneg(a@),
{
    Scalar { bytes: (-bls12_381::Scalar::from_bytes(&a.bytes).unwrap()).to_bytes() }
}

} // verus!
