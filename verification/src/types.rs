//! Vectors of two entries and matrices of two rows and two columns.

use crate::field::{fadd, fmul, lemma_fmul_commutes, Scalar};
use crate::g1::G1Point;
use crate::g2::G2Point;
use vstd::prelude::*;

verus! {

/// A vector of two entries.
#[derive(Clone, Copy, Debug)]
pub struct DVec<T> {
    pub x: T,
    pub y: T,
}

impl<T> DVec<T> {
    /// The vector `(x, y)`.
    pub fn new(x: T, y: T) -> (r: DVec<T>)
        ensures
            r.x == x,
            r.y == y,
    {
        DVec { x, y }
    }
}

/// A matrix of two rows and two columns, `(a, b)` over `(c, d)`.
#[derive(Clone, Copy, Debug)]
pub struct TMat<T> {
    pub a: T,
    pub b: T,
    pub c: T,
    pub d: T,
}

impl<T> TMat<T> {
    /// The matrix with the rows `(a, b)` and `(c, d)`.
    pub fn new(a: T, b: T, c: T, d: T) -> (r: TMat<T>)
        ensures
            r.a == a,
            r.b == b,
            r.c == c,
            r.d == d,
    {
        TMat { a, b, c, d }
    }

    /// The matrix mirrored at its diagonal.
    pub fn transpose(self) -> (r: TMat<T>)
        ensures
            r.a == self.a,
            r.b == self.c,
            r.c == self.b,
            r.d == self.d,
    {
        TMat { a: self.a, b: self.c, c: self.b, d: self.d }
    }
}

impl<T: View> View for DVec<T> {
    type V = DVec<T::V>;

    /// The vector of the views of the entries.
    open spec fn view(&self) -> DVec<T::V> {
        DVec { x: self.x@, y: self.y@ }
    }
}

impl<T: View> View for TMat<T> {
    type V = TMat<T::V>;

    /// The matrix of the views of the entries.
    open spec fn view(&self) -> TMat<T::V> {
        TMat { a: self.a@, b: self.b@, c: self.c@, d: self.d@ }
    }
}

/// The inner product of two vectors over the field.
pub open spec fn inner(u: DVec<nat>, v: DVec<nat>) -> nat {
    fadd(fmul(u.x, v.x), fmul(u.y, v.y))
}

/// The sum of two vectors over the field.
pub open spec fn dvec_add(u: DVec<nat>, v: DVec<nat>) -> DVec<nat> {
    DVec { x: fadd(u.x, v.x), y: fadd(u.y, v.y) }
}

/// A vector over the field, multiplied by a scalar.
pub open spec fn dvec_scale(u: DVec<nat>, k: nat) -> DVec<nat> {
    DVec { x: fmul(u.x, k), y: fmul(u.y, k) }
}

/// The first entries of a sequence of vectors, by their index.
pub open spec fn firsts(ds: Seq<DVec<nat>>) -> spec_fn(int) -> nat {
    |i: int| ds[i].x
}

/// The second entries of a sequence of vectors, by their index.
pub open spec fn seconds(ds: Seq<DVec<nat>>) -> spec_fn(int) -> nat {
    |i: int| ds[i].y
}

/// The sum of two matrices over the field.
pub open spec fn tmat_add(s: TMat<nat>, t: TMat<nat>) -> TMat<nat> {
    TMat { a: fadd(s.a, t.a), b: fadd(s.b, t.b), c: fadd(s.c, t.c), d: fadd(s.d, t.d) }
}

/// The product of a matrix and a vector over the field.
pub open spec fn apply(t: TMat<nat>, v: DVec<nat>) -> DVec<nat> {
    DVec { x: inner(DVec { x: t.a, y: t.b }, v), y: inner(DVec { x: t.c, y: t.d }, v) }
}

impl DVec<Scalar> {
    /// Both entries are well formed.
    pub open spec fn wf(&self) -> bool {
        self.x.wf() && self.y.wf()
    }

    /// The sum of two vectors.
    pub fn add(&self, rhs: &DVec<Scalar>) -> (r: DVec<Scalar>)
        requires
            self.wf(),
            rhs.wf(),
        ensures
            r.wf(),
            r@ == dvec_add(self@, rhs@),
    {
        DVec { x: self.x.add(&rhs.x), y: self.y.add(&rhs.y) }
    }

    /// The vector multiplied by a scalar.
    pub fn scale(&self, k: &Scalar) -> (r: DVec<Scalar>)
        requires
            self.wf(),
            k.wf(),
        ensures
            r.wf(),
            r@ == dvec_scale(self@, k@),
    {
        DVec { x: self.x.mul(k), y: self.y.mul(k) }
    }

    /// The inner product with another vector of scalars.
    pub fn inner_product(&self, v: &DVec<Scalar>) -> (r: Scalar)
        requires
            self.wf(),
            v.wf(),
        ensures
            r.wf(),
            r@ == inner(self@, v@),
    {
        let a = self.x.mul(&v.x);
        let b = self.y.mul(&v.y);
        a.add(&b)
    }

    /// The generator of G2 multiplied by each entry.
    pub fn in_g2(&self) -> (r: DVec<G2Point>)
        requires
            self.wf(),
        ensures
            r.wf(),
            r@ == self@,
    {
        DVec { x: G2Point::from_scalar(&self.x), y: G2Point::from_scalar(&self.y) }
    }
}

impl DVec<G1Point> {
    /// Both entries are well formed.
    pub open spec fn wf(&self) -> bool {
        self.x.wf() && self.y.wf()
    }

    /// The inner product with a vector of scalars, in G1.
    pub fn inner_product(&self, v: &DVec<Scalar>) -> (r: G1Point)
        requires
            self.wf(),
            v.wf(),
        ensures
            r.wf(),
            r@ == inner(self@, v@),
    {
        let a = self.x.mul(&v.x);
        let b = self.y.mul(&v.y);
        a.add(&b)
    }
}

impl DVec<G2Point> {
    /// Both entries are well formed.
    pub open spec fn wf(&self) -> bool {
        self.x.wf() && self.y.wf()
    }

    /// The vector of two neutral elements.
    pub fn identity() -> (r: DVec<G2Point>)
        ensures
            r.wf(),
            r@ == (DVec { x: 0nat, y: 0nat }),
    {
        DVec { x: G2Point::identity(), y: G2Point::identity() }
    }

    /// The sum of two vectors.
    pub fn add(&self, rhs: &DVec<G2Point>) -> (r: DVec<G2Point>)
        requires
            self.wf(),
            rhs.wf(),
        ensures
            r.wf(),
            r@ == dvec_add(self@, rhs@),
    {
        DVec { x: self.x.add(&rhs.x), y: self.y.add(&rhs.y) }
    }

    /// The inner product with a vector of scalars, in G2.
    pub fn inner_product(&self, v: &DVec<Scalar>) -> (r: G2Point)
        requires
            self.wf(),
            v.wf(),
        ensures
            r.wf(),
            r@ == inner(self@, v@),
    {
        let a = self.x.mul(&v.x);
        let b = self.y.mul(&v.y);
        a.add(&b)
    }
}

impl TMat<Scalar> {
    /// All four entries are well formed.
    pub open spec fn wf(&self) -> bool {
        self.a.wf() && self.b.wf() && self.c.wf() && self.d.wf()
    }

    /// The sum of two matrices.
    pub fn add(&self, rhs: &TMat<Scalar>) -> (r: TMat<Scalar>)
        requires
            self.wf(),
            rhs.wf(),
        ensures
            r.wf(),
            r@ == tmat_add(self@, rhs@),
    {
        TMat {
            a: self.a.add(&rhs.a),
            b: self.b.add(&rhs.b),
            c: self.c.add(&rhs.c),
            d: self.d.add(&rhs.d),
        }
    }

    /// The product of the matrix and a vector of G2.
    pub fn apply_in_g2(&self, v: &DVec<G2Point>) -> (r: DVec<G2Point>)
        requires
            self.wf(),
            v.wf(),
        ensures
            r.wf(),
            r@ == apply(self@, v@),
    {
        let top = DVec { x: self.a, y: self.b };
        let bottom = DVec { x: self.c, y: self.d };
        proof {
            lemma_fmul_commutes(v.x@, self.a@);
            lemma_fmul_commutes(v.y@, self.b@);
            lemma_fmul_commutes(v.x@, self.c@);
            lemma_fmul_commutes(v.y@, self.d@);
        }
        DVec { x: v.inner_product(&top), y: v.inner_product(&bottom) }
    }
}

} // verus!
