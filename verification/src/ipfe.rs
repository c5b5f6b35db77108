//! The keys of the inner-product scheme of a single client.

use crate::field::{scalars_wf, Scalar};
use crate::g1::{points_wf, G1Point};
use crate::tools::{random_vec_gen, smul_in_g1};
use vstd::prelude::*;

verus! {

/// The public key that belongs to a master secret: the generator of G1
/// multiplied by each scalar.
pub fn public_key_of(msk: &[Scalar]) -> (r: Vec<G1Point>)
    requires
        scalars_wf(msk@),
    ensures
        points_wf(r@),
        r@.len() == msk@.len(),
        forall|j: int| 0 <= j < r@.len() ==> (#[trigger] r@[j])@ == msk@[j]@,
{
    let mut mpk: Vec<G1Point> = Vec::new();
    let mut j: usize = 0;
    while j < msk.len()
        invariant
            j <= msk.len(),
            scalars_wf(msk@),
            points_wf(mpk@),
            mpk@.len() == j,
            forall|k: int| 0 <= k < j ==> (#[trigger] mpk@[k])@ == msk@[k]@,
        decreases msk.len() - j,
    {
        mpk.push(smul_in_g1(&msk[j]));
        j += 1;
    }
    mpk
}

/// A master secret of `m` random scalars, and its public key.
pub fn setup(m: usize) -> (r: (Vec<Scalar>, Vec<G1Point>))
    ensures
        scalars_wf(r.0@),
        points_wf(r.1@),
        r.0@.len() == m,
        r.1@.len() == m,
        forall|j: int| 0 <= j < m ==> (#[trigger] r.1@[j])@ == r.0@[j]@,
{
    let msk = random_vec_gen(m);
    let mpk = public_key_of(msk.as_slice());
    (msk, mpk)
}

} // verus!
