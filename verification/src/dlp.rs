//! Discrete logarithms: the baby-step giant-step solver on G1, and the
//! kangaroo solver on the target group.
//!
//! The baby-step giant-step solver finds `x` below `m * n` with `x * G = P`:
//! it keeps the fingerprints of the `m` baby steps `i * G`, and walks from
//! `P` in giant steps of `-m * G` until it meets one of them.

pub mod kangaroo;
pub mod signal;
pub mod storage;
pub mod table;

use crate::dlp::table::{distinct, mapping, occurs, place, Table};
use crate::error::Error;
use crate::field::{fadd, fmul, fneg, modulus, Scalar};
use crate::g1::{g1_point, G1Point};
use crate::hash::{fingerprint_g1, sha256_digest};
use crate::sums::{
    congruent, lemma_congruent_add, lemma_congruent_chain, lemma_congruent_refl,
    lemma_congruent_small, lemma_field_ops,
};
use vstd::prelude::*;

verus! {

/// The fingerprint of the baby step `i * G`.
pub open spec fn baby_digest(i: nat) -> Seq<u8> {
    sha256_digest(g1_point(i))
}

/// Whether the baby steps below `m` all have different fingerprints.
pub open spec fn babies_distinct(m: nat) -> bool {
    forall|i: nat, j: nat| i < j < m ==> #[trigger] baby_digest(i) != #[trigger] baby_digest(j)
}

/// Whether `d` is the fingerprint of a baby step below `m`.
pub open spec fn is_baby(d: Seq<u8>, m: nat) -> bool {
    exists|i: nat| i < m && #[trigger] baby_digest(i) == d
}

/// A baby step below `m` whose fingerprint is `d`.
pub open spec fn baby_index(d: Seq<u8>, m: nat) -> nat {
    choose|i: nat| i < m && #[trigger] baby_digest(i) == d
}

/// The table of the baby steps below `m`: from the fingerprint of `i * G`
/// to `i`.
pub open spec fn baby_table(m: nat) -> Map<Seq<u8>, u32> {
    Map::new(|d: Seq<u8>| is_baby(d, m), |d: Seq<u8>| baby_index(d, m) as u32)
}

/// The exponent of `k` steps of `q`: `q` added `k` times.
pub open spec fn steps(q: nat, k: nat) -> nat
    decreases k,
{
    if k == 0 {
        0
    } else {
        fadd(steps(q, (k - 1) as nat), q)
    }
}

/// The exponent of the point after `k` giant steps of `q` from `p`.
pub open spec fn giant(p: nat, q: nat, k: nat) -> nat {
    fadd(steps(q, k), p)
}

/// The fingerprint of the point after `k` giant steps of `q` from `p`.
pub open spec fn giant_digest(p: nat, q: nat, k: nat) -> Seq<u8> {
    sha256_digest(g1_point(giant(p, q, k)))
}

/// The first giant step, from step `from` on and below `n`, whose
/// fingerprint is in the table, with the value that stands there.
pub open spec fn first_hit(
    t: Map<Seq<u8>, u32>,
    p: nat,
    q: nat,
    from: nat,
    n: nat,
) -> Option<(u32, u32)>
    decreases n - from,
{
    if from >= n {
        None
    } else if t.contains_key(giant_digest(p, q, from)) {
        Some((from as u32, t[giant_digest(p, q, from)]))
    } else {
        first_hit(t, p, q, from + 1, n)
    }
}

/// The exponent of the giant step for `m` baby steps: that of `-m * G`.
pub open spec fn giant_step(m: u32) -> nat {
    fneg(fmul(1, m as nat))
}

/// What the solver gives for the point with the exponent `p`.
pub open spec fn bsgs_spec(p: nat, m: u32, n: u32) -> Result<u64, Error> {
    if !babies_distinct(m as nat) {
        Err(Error::HashCollision)
    } else {
        match first_hit(baby_table(m as nat), p, giant_step(m), 0, n as nat) {
            Some((k, i)) => Ok((k * m + i) as u64),
            None => Err(Error::NotFound),
        }
    }
}

/// A small integer is its own remainder.
proof fn lemma_small(a: nat)
    requires
        a < 0x1_0000_0000_0000_0000,
    ensures
        a % modulus() == a,
{
    vstd::arithmetic::div_mod::lemma_small_mod(a, modulus());
}

/// The fingerprints of the baby steps below `m`, in their order.
pub fn baby_fingerprints(m: u32) -> (r: Vec<[u8; 32]>)
    ensures
        r@.len() == m,
        forall|i: int| 0 <= i < m ==> (#[trigger] r@[i])@ == baby_digest(i as nat),
{
    let g = G1Point::generator();
    let mut marks: Vec<[u8; 32]> = Vec::new();
    let mut p_i = G1Point::identity();
    let mut i: u32 = 0;
    while i < m
        invariant
            i <= m,
            g.wf(),
            g@ == 1,
            p_i.wf(),
            p_i@ == i,
            marks@.len() == i,
            forall|k: int| 0 <= k < i ==> (#[trigger] marks@[k])@ == baby_digest(k as nat),
        decreases m - i,
    {
        proof {
            p_i.lemma_encoding();
            lemma_small((i + 1) as nat);
        }
        marks.push(fingerprint_g1(&p_i));
        p_i = p_i.add(&g);
        i += 1;
    }
    marks
}

/// The table from each fingerprint to its index in the list. A fingerprint
/// that stands twice in the list is a collision.
pub fn index_fingerprints(marks: &[[u8; 32]]) -> (r: Result<Table<u32>, Error>)
    requires
        marks@.len() <= u32::MAX,
    ensures
        r is Ok <==> distinct(marks@),
        r matches Ok(t) ==> {
            &&& t.wf()
            &&& t.keys() == marks@
            &&& t.values().len() == marks@.len()
            &&& forall|i: int| 0 <= i < marks@.len() ==> #[trigger] t.values()[i] == i
        },
        r matches Err(e) ==> e == Error::HashCollision,
{
    let mut pairs: Table<u32> = Table::new();
    proof {
        pairs.lemma_view();
    }
    let mut i: usize = 0;
    while i < marks.len()
        invariant
            i <= marks.len(),
            marks@.len() <= u32::MAX,
            pairs.wf(),
            pairs.keys() == marks@.take(i as int),
            pairs.values().len() == i,
            forall|k: int| 0 <= k < i ==> #[trigger] pairs.values()[k] == k,
        decreases marks.len() - i,
    {
        proof {
            pairs.lemma_view();
        }
        let ghost before = pairs.keys();
        if pairs.insert(marks[i], i as u32).is_some() {
            proof {
                let j = place(before, marks@[i as int]@);
                assert(before[j]@ == marks@[i as int]@);
                assert(marks@[j]@ == marks@[i as int]@);
            }
            return Err(Error::HashCollision);
        }
        assert(marks@.take(i + 1) =~= marks@.take(i as int).push(marks@[i as int]));
        i += 1;
    }
    proof {
        assert(marks@.take(i as int) =~= marks@);
        pairs.lemma_view();
    }
    Ok(pairs)
}

/// The table of a list of distinct fingerprints of baby steps is the table
/// of the baby steps.
proof fn lemma_baby_table(marks: Seq<[u8; 32]>, values: Seq<u32>, m: nat)
    requires
        marks.len() == m,
        values.len() == m,
        m <= u32::MAX,
        forall|i: int| 0 <= i < m ==> (#[trigger] marks[i])@ == baby_digest(i as nat),
        forall|i: int| 0 <= i < m ==> #[trigger] values[i] == i,
    ensures
        distinct(marks) <==> babies_distinct(m),
        distinct(marks) ==> mapping(marks, values) == baby_table(m),
{
    if distinct(marks) {
        assert forall|i: nat, j: nat| i < j < m implies #[trigger] baby_digest(i) != #[trigger] baby_digest(
            j,
        ) by {
            assert(marks[i as int]@ != marks[j as int]@);
        }
        let held = mapping(marks, values);
        let wanted = baby_table(m);
        assert forall|d: Seq<u8>| held.contains_key(d) <==> wanted.contains_key(d) by {
            if occurs(marks, m as int, d) {
                let i = choose|i: int| 0 <= i < m && (#[trigger] marks[i])@ == d;
                assert(baby_digest(i as nat) == d);
            }
            if is_baby(d, m) {
                let i = baby_index(d, m);
                assert(marks[i as int]@ == d);
            }
        }
        assert forall|d: Seq<u8>| held.contains_key(d) implies held[d] == wanted[d] by {
            let i = place(marks, d);
            let j = baby_index(d, m);
            assert(marks[i]@ == d);
            assert(is_baby(d, m)) by {
                assert(baby_digest(i as nat) == d);
            }
            assert(marks[j as int]@ == d);
            if i < j {
                assert(marks[i]@ != marks[j as int]@);
            } else if j < i {
                assert(marks[j as int]@ != marks[i]@);
            }
        }
        assert(held =~= wanted);
    }
    if babies_distinct(m) {
        assert forall|i: int, j: int| 0 <= i < j < marks.len() implies (#[trigger] marks[i])@
            != (#[trigger] marks[j])@ by {
            assert(baby_digest(i as nat) != baby_digest(j as nat));
        }
    }
}

/// This algorithm implements the precomputation step of the BSGS algorithm.
/// It returns a table containing all the precomputed pairs, or reports a
/// collision when two baby steps have the same fingerprint.
///
/// - `m`:  number of pairs to precompute
pub fn precomputation(m: u32) -> (r: Result<Table<u32>, Error>)
    ensures
        r is Ok <==> babies_distinct(m as nat),
        r matches Ok(t) ==> t.wf() && t@ == baby_table(m as nat),
        r matches Err(e) ==> e == Error::HashCollision,
{
    let marks = baby_fingerprints(m);
    match index_fingerprints(marks.as_slice()) {
        Ok(t) => {
            proof {
                t.lemma_view();
                lemma_baby_table(marks@, t.values(), m as nat);
            }
            Ok(t)
        },
        Err(e) => {
            proof {
                lemma_baby_table(marks@, Seq::new(m as nat, |i: int| i as u32), m as nat);
            }
            Err(e)
        },
    }
}

/// This algorithm implements the iteration function of the BSGS algorithm.
///
/// - `p`:      right term of the DLP
/// - `q`:      inverse of `g^m`
/// - `n`:      the number of iterations
/// - `pairs`:  table containing the precomputed values
pub fn iterate(p: &G1Point, q: &G1Point, n: u32, pairs: &Table<u32>) -> (r: Option<(u32, u32)>)
    requires
        p.wf(),
        q.wf(),
        pairs.wf(),
    ensures
        r == first_hit(pairs@, p@, q@, 0, n as nat),
{
    let mut k: u32 = 0;
    let mut q_k = G1Point::identity();
    let mut p_k = q_k.add(p);
    while k < n
        invariant
            k <= n,
            p.wf(),
            q.wf(),
            pairs.wf(),
            q_k.wf(),
            p_k.wf(),
            q_k@ == steps(q@, k as nat),
            p_k@ == giant(p@, q@, k as nat),
            first_hit(pairs@, p@, q@, 0, n as nat) == first_hit(pairs@, p@, q@, k as nat, n as nat),
        decreases n - k,
    {
        proof {
            p_k.lemma_encoding();
        }
        let hash_res = fingerprint_g1(&p_k);
        match pairs.get(&hash_res) {
            Some(value) => {
                return Some((k, value));
            },
            None => {
                k += 1;
                q_k = q_k.add(q);
                p_k = q_k.add(p);
            },
        }
    }
    None
}

/// The opposite of `m` times a point.
pub fn get_inverse(p: &G1Point, m: u64) -> (r: G1Point)
    requires
        p.wf(),
    ensures
        r.wf(),
        r@ == fneg(fmul(p@, m as nat)),
{
    let s = Scalar::from_u64(m);
    let mp = p.mul(&s);
    mp.neg()
}

/// This algorithm implements the BSGS algorithm. It aims to find `x` such that
/// `x.g = p`, where `g` is the generator of `G1`, `p` is given and `x < M`
/// with `M = mn` is not too big.
///
/// `p`:  right member of the DLP equation
/// `m`:  integer such that `x < mn`
/// `n`:  integer such that `x < mn`
pub fn bsgs(p: &G1Point, m: u32, n: u32) -> (r: Result<u64, Error>)
    requires
        p.wf(),
    ensures
        r == bsgs_spec(p@, m, n),
{
    let pairs = match precomputation(m) {
        Ok(pairs) => pairs,
        Err(e) => {
            return Err(e);
        },
    };
    let g = G1Point::generator();
    let q = get_inverse(&g, m as u64);
    match iterate(p, &q, n, &pairs) {
        Some((k, i)) => {
            assert((k as u64) * (m as u64) + (i as u64) <= u64::MAX) by (nonlinear_arith)
                requires
                    k <= u32::MAX,
                    m <= u32::MAX,
                    i <= u32::MAX,
            ;
            Ok((k as u64) * (m as u64) + (i as u64))
        },
        None => Err(Error::NotFound),
    }
}

/// Whether the multiples `0 * G`, ..., `bound * G` of the generator all have
/// different fingerprints.
pub open spec fn fingerprints_distinct(bound: nat) -> bool {
    forall|a: nat, b: nat| a < b <= bound ==> #[trigger] baby_digest(a) != #[trigger] baby_digest(b)
}

/// After `k` giant steps for `m` baby steps from `x`, the exponent is
/// `x - k * m`, as long as that is not negative.
proof fn lemma_giant_descends(x: nat, m: u32, k: nat)
    requires
        k * m <= x,
        x < 0x1_0000_0000_0000_0000,
    ensures
        giant(x, giant_step(m), k) == x - k * m,
        congruent(steps(giant_step(m), k) as int, -(k * m)),
    decreases k,
{
    let q = giant_step(m);
    lemma_small(m as nat);
    assert(1 * (m as nat) == m);
    lemma_field_ops(m as nat, m as nat);
    if k == 0 {
        assert(0 * m == 0);
        lemma_congruent_refl(0);
    } else {
        let j = (k - 1) as nat;
        assert(j * m + m == k * m) by (nonlinear_arith)
            requires
                j + 1 == k,
        ;
        lemma_giant_descends(x, m, j);
        lemma_field_ops(steps(q, j), q);
        lemma_congruent_add(steps(q, j) as int, -(j * m), q as int, -(m as int));
        lemma_congruent_chain(steps(q, k) as int, (steps(q, j) + q) as int, -(j * m) - m);
    }
    lemma_field_ops(steps(q, k), x);
    lemma_congruent_refl(x as int);
    lemma_congruent_add(steps(q, k) as int, -(k * m), x as int, x as int);
    lemma_congruent_chain(giant(x, q, k) as int, (steps(q, k) + x) as int, -(k * m) + x);
    lemma_small(x);
    lemma_congruent_small(giant(x, q, k) as int, x - k * m);
}

/// The search finds the step `goal` when no earlier step is in the table.
proof fn lemma_first_hit(t: Map<Seq<u8>, u32>, p: nat, q: nat, from: nat, goal: nat, n: nat)
    requires
        from <= goal < n,
        forall|k: nat| from <= k < goal ==> !t.contains_key(#[trigger] giant_digest(p, q, k)),
        t.contains_key(giant_digest(p, q, goal)),
    ensures
        first_hit(t, p, q, from, n) == Some((goal as u32, t[giant_digest(p, q, goal)])),
    decreases goal - from,
{
    if from < goal {
        lemma_first_hit(t, p, q, from + 1, goal, n);
    }
}

/// The solver is correct: when the multiples of the generator up to `x`, and
/// the baby steps, all have different fingerprints, it finds every `x`
/// below `m * n` from `x * G`. The search stops at the giant step `x / m`,
/// on the baby step `x % m`.
pub proof fn law_bsgs_round_trip(x: u64, m: u32, n: u32)
    requires
        x < m * n,
        fingerprints_distinct(x as nat),
        babies_distinct(m as nat),
    ensures
        first_hit(baby_table(m as nat), x as nat, giant_step(m), 0, n as nat) == Some(
            ((x / (m as u64)) as u32, (x % (m as u64)) as u32),
        ),
        bsgs_spec(x as nat, m, n) == Ok::<u64, Error>(x),
{
    let t = baby_table(m as nat);
    let q = giant_step(m);
    assert(m > 0 && n > 0) by (nonlinear_arith)
        requires
            x < m * n,
    ;
    let goal = (x / (m as u64)) as nat;
    let rest = (x % (m as u64)) as nat;
    vstd::arithmetic::div_mod::lemma_fundamental_div_mod(x as int, m as int);
    assert(goal * m == m * goal) by (nonlinear_arith);
    assert(goal < n) by (nonlinear_arith)
        requires
            goal * m + rest == x,
            x < m * n,
            rest >= 0,
    ;
    assert forall|k: nat| k < goal implies !t.contains_key(#[trigger] giant_digest(x as nat, q, k)) by {
        assert(k * m + m <= goal * m) by (nonlinear_arith)
            requires
                k < goal,
        ;
        lemma_giant_descends(x as nat, m, k);
        let e = (x - k * m) as nat;
        if is_baby(giant_digest(x as nat, q, k), m as nat) {
            let i = baby_index(giant_digest(x as nat, q, k), m as nat);
            assert(baby_digest(i) == baby_digest(e));
            assert(i < e <= x);
        }
    }
    lemma_giant_descends(x as nat, m, goal);
    assert(giant(x as nat, q, goal) == rest);
    assert(is_baby(baby_digest(rest), m as nat));
    let found = baby_index(baby_digest(rest), m as nat);
    if found < rest {
        assert(baby_digest(found) != baby_digest(rest));
    } else if rest < found {
        assert(baby_digest(rest) != baby_digest(found));
    }
    lemma_first_hit(t, x as nat, q, 0, goal, n as nat);
}

/// The solver finds zero at once: when the baby steps all have different
/// fingerprints, the neutral element is met before any giant step is taken.
pub proof fn law_bsgs_zero(m: u32, n: u32)
    requires
        m >= 1,
        n >= 1,
        babies_distinct(m as nat),
    ensures
        first_hit(baby_table(m as nat), 0, giant_step(m), 0, n as nat) == Some((0u32, 0u32)),
        bsgs_spec(0, m, n) == Ok::<u64, Error>(0),
{
    assert(fingerprints_distinct(0));
    assert(0 < m * n) by (nonlinear_arith)
        requires
            m >= 1,
            n >= 1,
    ;
    law_bsgs_round_trip(0, m, n);
    lemma_giant_descends(0, m, 0);
    assert(is_baby(baby_digest(0), m as nat));
    let found = baby_index(baby_digest(0), m as nat);
    if 0 < found {
        assert(baby_digest(0) != baby_digest(found));
    }
}

/// The search finds nothing when no step from `from` on is in the table.
proof fn lemma_no_hit(t: Map<Seq<u8>, u32>, p: nat, q: nat, from: nat, n: nat)
    requires
        forall|k: nat| from <= k < n ==> !t.contains_key(#[trigger] giant_digest(p, q, k)),
    ensures
        first_hit(t, p, q, from, n) is None,
    decreases n - from,
{
    if from < n {
        lemma_no_hit(t, p, q, from + 1, n);
    }
}

/// The solver gives up beyond its bound: when the multiples of the generator
/// up to `x`, and the baby steps, all have different fingerprints, and `x`
/// is not below `m * n`, none of the `n` giant steps from `x * G` meets a
/// baby step, and the search is not found.
pub proof fn law_bsgs_gives_up(x: u64, m: u32, n: u32)
    requires
        x >= m * n,
        fingerprints_distinct(x as nat),
        babies_distinct(m as nat),
    ensures
        first_hit(baby_table(m as nat), x as nat, giant_step(m), 0, n as nat) is None,
        bsgs_spec(x as nat, m, n) == Err::<u64, Error>(Error::NotFound),
{
    let t = baby_table(m as nat);
    let q = giant_step(m);
    assert forall|k: nat| k < n implies !t.contains_key(#[trigger] giant_digest(x as nat, q, k)) by {
        assert(k * m + m <= n * m) by (nonlinear_arith)
            requires
                k < n,
        ;
        assert(n * m == m * n) by (nonlinear_arith);
        lemma_giant_descends(x as nat, m, k);
        let e = (x - k * m) as nat;
        if is_baby(giant_digest(x as nat, q, k), m as nat) {
            let i = baby_index(giant_digest(x as nat, q, k), m as nat);
            assert(baby_digest(i) == baby_digest(e));
            assert(i < e <= x);
        }
    }
    lemma_no_hit(t, x as nat, q, 0, n as nat);
}

} // verus!
