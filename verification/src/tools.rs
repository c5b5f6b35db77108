//! Helpers of the schemes: generators multiplied by scalars, random matrices,
//! and products of matrices and vectors whose dimensions are checked.

use crate::error::Error;
use crate::field::{fmul, scalar_values, scalars_wf, Scalar};
use crate::g1::{point_values, points_wf, G1Point};
use crate::g2::G2Point;
use crate::random::random_scalar;
use crate::sums::{dot, fsum_from, products, shorter};
use crate::types::{inner, DVec};
use vstd::prelude::*;

verus! {

/// Whether every scalar of a matrix, given by its rows, is well formed.
pub open spec fn matrix_wf(m: Seq<Vec<Scalar>>) -> bool {
    forall|j: int| 0 <= j < m.len() ==> scalars_wf(#[trigger] m[j]@)
}

/// The integers that a matrix of scalars stands for, row by row.
pub open spec fn matrix_values(m: Seq<Vec<Scalar>>) -> Seq<Seq<nat>> {
    Seq::new(m.len(), |j: int| scalar_values(m[j]@))
}

/// Whether every row of a matrix has `w` entries.
pub open spec fn has_width(m: Seq<Seq<nat>>, w: nat) -> bool {
    forall|j: int| 0 <= j < m.len() ==> (#[trigger] m[j]).len() == w
}

/// Column `k` of a matrix.
pub open spec fn column(m: Seq<Seq<nat>>, k: int) -> Seq<nat> {
    Seq::new(m.len(), |j: int| m[j][k])
}

/// The matrix mirrored at its diagonal; the empty matrix stays empty.
pub open spec fn transposed(m: Seq<Seq<nat>>) -> Seq<Seq<nat>> {
    if m.len() == 0 {
        Seq::empty()
    } else {
        Seq::new(m[0].len(), |k: int| column(m, k))
    }
}

/// The first two entries of a row, as a vector.
pub open spec fn pair_of(row: Seq<nat>) -> DVec<nat> {
    DVec { x: row[0], y: row[1] }
}

/// The generator of G1 multiplied by a scalar.
pub fn smul_in_g1(s: &Scalar) -> (r: G1Point)
    requires
        s.wf(),
    ensures
        r.wf(),
        r@ == s@,
{
    G1Point::from_scalar(s)
}

/// The generator of G2 multiplied by a scalar.
pub fn smul_in_g2(s: &Scalar) -> (r: G2Point)
    requires
        s.wf(),
    ensures
        r.wf(),
        r@ == s@,
{
    G2Point::from_scalar(s)
}

/// A vector of `n` random scalars.
pub fn random_vec_gen(n: usize) -> (r: Vec<Scalar>)
    ensures
        r@.len() == n,
        scalars_wf(r@),
{
    let mut r: Vec<Scalar> = Vec::new();
    let mut i: usize = 0;
    while i < n
        invariant
            i <= n,
            r@.len() == i,
            scalars_wf(r@),
        decreases n - i,
    {
        r.push(random_scalar());
        i += 1;
    }
    r
}

/// A matrix of random scalars, with `rows` rows of `cols` entries.
pub fn random_mat_gen(rows: usize, cols: usize) -> (r: Vec<Vec<Scalar>>)
    ensures
        r@.len() == rows,
        matrix_wf(r@),
        has_width(matrix_values(r@), cols as nat),
{
    let mut r: Vec<Vec<Scalar>> = Vec::new();
    let mut j: usize = 0;
    while j < rows
        invariant
            j <= rows,
            r@.len() == j,
            matrix_wf(r@),
            forall|k: int| 0 <= k < r@.len() ==> (#[trigger] r@[k])@.len() == cols,
        decreases rows - j,
    {
        let row = random_vec_gen(cols);
        r.push(row);
        j += 1;
    }
    r
}

/// A vector of scalars, every entry multiplied by `k`.
pub fn scal_vec_mul(k: &Scalar, v: &[Scalar]) -> (r: Vec<Scalar>)
    requires
        k.wf(),
        scalars_wf(v@),
    ensures
        scalars_wf(r@),
        r@.len() == v@.len(),
        forall|j: int| 0 <= j < r@.len() ==> (#[trigger] r@[j])@ == fmul(k@, v@[j]@),
{
    let mut out: Vec<Scalar> = Vec::new();
    let mut j: usize = 0;
    while j < v.len()
        invariant
            j <= v.len(),
            k.wf(),
            scalars_wf(v@),
            scalars_wf(out@),
            out@.len() == j,
            forall|i: int| 0 <= i < j ==> (#[trigger] out@[i])@ == fmul(k@, v@[i]@),
        decreases v.len() - j,
    {
        out.push(k.mul(&v[j]));
        j += 1;
    }
    out
}

/// A matrix of scalars, every entry multiplied by `k`.
pub fn scal_mat_mul(k: &Scalar, mat: &[Vec<Scalar>]) -> (r: Vec<Vec<Scalar>>)
    requires
        k.wf(),
        matrix_wf(mat@),
    ensures
        matrix_wf(r@),
        r@.len() == mat@.len(),
        forall|i: int| 0 <= i < r@.len() ==> (#[trigger] r@[i])@.len() == mat@[i]@.len(),
        forall|i: int, j: int|
            0 <= i < r@.len() && 0 <= j < r@[i]@.len() ==> (#[trigger] r@[i]@[j])@ == fmul(
                k@,
                mat@[i]@[j]@,
            ),
{
    let mut out: Vec<Vec<Scalar>> = Vec::new();
    let mut i: usize = 0;
    while i < mat.len()
        invariant
            i <= mat.len(),
            k.wf(),
            matrix_wf(mat@),
            matrix_wf(out@),
            out@.len() == i,
            forall|a: int| 0 <= a < i ==> (#[trigger] out@[a])@.len() == mat@[a]@.len(),
            forall|a: int, b: int|
                0 <= a < i && 0 <= b < out@[a]@.len() ==> (#[trigger] out@[a]@[b])@ == fmul(
                    k@,
                    mat@[a]@[b]@,
                ),
        decreases mat.len() - i,
    {
        assert(scalars_wf(mat@[i as int]@));
        let row = scal_vec_mul(k, mat[i].as_slice());
        out.push(row);
        i += 1;
    }
    out
}

/// The inner product of two vectors of scalars, as far as both go.
pub fn dot_product(a: &[Scalar], b: &[Scalar]) -> (r: Scalar)
    requires
        scalars_wf(a@),
        scalars_wf(b@),
    ensures
        r.wf(),
        r@ == dot(scalar_values(a@), scalar_values(b@)),
{
    let n = if a.len() <= b.len() {
        a.len()
    } else {
        b.len()
    };
    let ghost f = products(scalar_values(a@), scalar_values(b@));
    let mut acc = Scalar::zero();
    let mut j: usize = 0;
    while j < n
        invariant
            j <= n,
            n == shorter(a@.len(), b@.len()),
            scalars_wf(a@),
            scalars_wf(b@),
            acc.wf(),
            f == products(scalar_values(a@), scalar_values(b@)),
            acc@ == fsum_from(0, j as nat, f),
        decreases n - j,
    {
        let p = a[j].mul(&b[j]);
        acc = acc.add(&p);
        j += 1;
    }
    acc
}

/// The inner product of a vector of points of G1 and a vector of scalars, as
/// far as both go.
pub fn dot_product_in_g1(a: &[G1Point], b: &[Scalar]) -> (r: G1Point)
    requires
        points_wf(a@),
        scalars_wf(b@),
    ensures
        r.wf(),
        r@ == dot(point_values(a@), scalar_values(b@)),
{
    let n = if a.len() <= b.len() {
        a.len()
    } else {
        b.len()
    };
    let ghost f = products(point_values(a@), scalar_values(b@));
    let mut acc = G1Point::identity();
    let mut j: usize = 0;
    while j < n
        invariant
            j <= n,
            n == shorter(a@.len(), b@.len()),
            points_wf(a@),
            scalars_wf(b@),
            acc.wf(),
            f == products(point_values(a@), scalar_values(b@)),
            acc@ == fsum_from(0, j as nat, f),
        decreases n - j,
    {
        let p = a[j].mul(&b[j]);
        acc = acc.add(&p);
        j += 1;
    }
    acc
}

/// The product of a matrix of two columns and a vector of two points of G1:
/// for every row, its inner product with the vector. A row that has not two
/// entries is a size mismatch.
pub fn mat_mul(mat: &[Vec<Scalar>], v: &DVec<G1Point>) -> (r: Result<Vec<G1Point>, Error>)
    requires
        matrix_wf(mat@),
        v.wf(),
    ensures
        r is Ok <==> has_width(matrix_values(mat@), 2),
        r matches Ok(p) ==> {
            &&& points_wf(p@)
            &&& p@.len() == mat@.len()
            &&& forall|j: int|
                0 <= j < p@.len() ==> (#[trigger] p@[j])@ == inner(
                    v@,
                    pair_of(matrix_values(mat@)[j]),
                )
        },
        r matches Err(e) ==> e == Error::SizeMismatch,
{
    let mut out: Vec<G1Point> = Vec::new();
    let mut j: usize = 0;
    while j < mat.len()
        invariant
            j <= mat.len(),
            matrix_wf(mat@),
            v.wf(),
            out@.len() == j,
            points_wf(out@),
            forall|k: int| 0 <= k < j ==> (#[trigger] matrix_values(mat@)[k]).len() == 2,
            forall|k: int|
                0 <= k < j ==> (#[trigger] out@[k])@ == inner(v@, pair_of(matrix_values(mat@)[k])),
        decreases mat.len() - j,
    {
        let row = &mat[j];
        assert(scalars_wf(mat@[j as int]@));
        if row.len() != 2 {
            assert(matrix_values(mat@)[j as int].len() != 2);
            return Err(Error::SizeMismatch);
        }
        let pair = DVec::new(row[0], row[1]);
        let p = v.inner_product(&pair);
        out.push(p);
        j += 1;
    }
    Ok(out)
}

/// The matrix mirrored at its diagonal. Rows of different lengths are a size
/// mismatch.
pub fn transpose(mat: &[Vec<Scalar>]) -> (r: Result<Vec<Vec<Scalar>>, Error>)
    requires
        matrix_wf(mat@),
    ensures
        r is Ok <==> (mat@.len() == 0 || has_width(matrix_values(mat@), mat@[0]@.len())),
        r matches Ok(t) ==> matrix_wf(t@) && matrix_values(t@) == transposed(matrix_values(mat@)),
        r matches Err(e) ==> e == Error::SizeMismatch,
{
    let ghost m = matrix_values(mat@);
    let mut out: Vec<Vec<Scalar>> = Vec::new();
    if mat.len() == 0 {
        assert(matrix_values(out@) =~= transposed(m));
        return Ok(out);
    }
    let width = mat[0].len();
    let mut j: usize = 0;
    while j < mat.len()
        invariant
            j <= mat.len(),
            m == matrix_values(mat@),
            width == mat@[0]@.len(),
            forall|k: int| 0 <= k < j ==> (#[trigger] m[k]).len() == width,
        decreases mat.len() - j,
    {
        if mat[j].len() != width {
            assert(m[j as int].len() != width);
            return Err(Error::SizeMismatch);
        }
        j += 1;
    }
    let mut k: usize = 0;
    while k < width
        invariant
            k <= width,
            mat@.len() > 0,
            m == matrix_values(mat@),
            matrix_wf(mat@),
            width == mat@[0]@.len(),
            has_width(m, width as nat),
            out@.len() == k,
            matrix_wf(out@),
            forall|c: int| 0 <= c < k ==> scalar_values((#[trigger] out@[c])@) == column(m, c),
        decreases width - k,
    {
        let mut col: Vec<Scalar> = Vec::new();
        let mut j: usize = 0;
        while j < mat.len()
            invariant
                j <= mat.len(),
                k < width,
                m == matrix_values(mat@),
                matrix_wf(mat@),
                has_width(m, width as nat),
                col@.len() == j,
                scalars_wf(col@),
                forall|i: int| 0 <= i < j ==> (#[trigger] col@[i])@ == m[i][k as int],
            decreases mat.len() - j,
        {
            assert(m[j as int].len() == width);
            assert(scalars_wf(mat@[j as int]@));
            col.push(mat[j][k]);
            j += 1;
        }
        assert(scalar_values(col@) =~= column(m, k as int));
        out.push(col);
        k += 1;
    }
    assert(m[0].len() == width);
    assert(matrix_values(out@) =~= transposed(m));
    Ok(out)
}

/// The product of a matrix and a vector of scalars: for every row, its inner
/// product with the vector. A row whose length is not that of the vector is
/// a size mismatch.
pub fn scal_mat_mul_dim_2(mat: &[Vec<Scalar>], y: &[Scalar]) -> (r: Result<Vec<Scalar>, Error>)
    requires
        matrix_wf(mat@),
        scalars_wf(y@),
    ensures
        r is Ok <==> has_width(matrix_values(mat@), y@.len()),
        r matches Ok(p) ==> {
            &&& scalars_wf(p@)
            &&& p@.len() == mat@.len()
            &&& forall|k: int|
                0 <= k < p@.len() ==> (#[trigger] p@[k])@ == dot(
                    matrix_values(mat@)[k],
                    scalar_values(y@),
                )
        },
        r matches Err(e) ==> e == Error::SizeMismatch,
{
    let ghost m = matrix_values(mat@);
    let mut out: Vec<Scalar> = Vec::new();
    let mut k: usize = 0;
    while k < mat.len()
        invariant
            k <= mat.len(),
            m == matrix_values(mat@),
            matrix_wf(mat@),
            scalars_wf(y@),
            out@.len() == k,
            scalars_wf(out@),
            forall|c: int| 0 <= c < k ==> (#[trigger] m[c]).len() == y@.len(),
            forall|c: int| 0 <= c < k ==> (#[trigger] out@[c])@ == dot(m[c], scalar_values(y@)),
        decreases mat.len() - k,
    {
        assert(scalars_wf(mat@[k as int]@));
        if mat[k].len() != y.len() {
            assert(m[k as int].len() != y@.len());
            return Err(Error::SizeMismatch);
        }
        let p = dot_product(mat[k].as_slice(), y);
        out.push(p);
        k += 1;
    }
    Ok(out)
}

} // verus!
