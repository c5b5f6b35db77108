//! Finite sums, in the integers and in the field, and congruence modulo the
//! order of the field.

use crate::field::{fadd, fmul, fneg, fsub, modulus};
use vstd::prelude::*;

verus! {

/// Whether two integers are congruent modulo the order of the field.
pub open spec fn congruent(a: int, b: int) -> bool {
    (a - b) % (modulus() as int) == 0
}

/// The sum of `f(0)`, ..., `f(n - 1)` in the integers.
pub open spec fn total(n: nat, f: spec_fn(int) -> int) -> int
    decreases n,
{
    if n == 0 {
        0
    } else {
        total((n - 1) as nat, f) + f(n - 1)
    }
}

/// The sum of `f(0)`, ..., `f(n - 1)` in the field, starting from `init`.
pub open spec fn fsum_from(init: nat, n: nat, f: spec_fn(int) -> nat) -> nat
    decreases n,
{
    if n == 0 {
        init
    } else {
        fadd(fsum_from(init, (n - 1) as nat, f), f(n - 1))
    }
}

/// The sum of `f(0)`, ..., `f(n - 1)` in the field.
pub open spec fn fsum(n: nat, f: spec_fn(int) -> nat) -> nat {
    fsum_from(0, n, f)
}

/// A multiple of the order is congruent to zero, and the other way round.
pub proof fn lemma_congruent_multiple(a: int, b: int)
    ensures
        congruent(a, b) <==> exists|k: int| a - b == #[trigger] (modulus() as int * k),
{
    let m = modulus() as int;
    if congruent(a, b) {
        vstd::arithmetic::div_mod::lemma_fundamental_div_mod(a - b, m);
        assert(a - b == m * ((a - b) / m));
    }
    if exists|k: int| a - b == #[trigger] (m * k) {
        let k = choose|k: int| a - b == #[trigger] (m * k);
        vstd::arithmetic::div_mod::lemma_mod_multiples_basic(k, m);
        vstd::arithmetic::mul::lemma_mul_is_commutative(m, k);
    }
}

/// Every integer is congruent to itself.
pub proof fn lemma_congruent_refl(a: int)
    ensures
        congruent(a, a),
{
    vstd::arithmetic::div_mod::lemma_small_mod(0, modulus());
}

/// Congruence is kept by sums and differences.
pub proof fn lemma_congruent_add(a: int, b: int, c: int, d: int)
    requires
        congruent(a, b),
        congruent(c, d),
    ensures
        congruent(a + c, b + d),
        congruent(a - c, b - d),
{
    let m = modulus() as int;
    lemma_congruent_multiple(a, b);
    lemma_congruent_multiple(c, d);
    let k = choose|k: int| a - b == #[trigger] (m * k);
    let l = choose|l: int| c - d == #[trigger] (m * l);
    assert((a + c) - (b + d) == m * (k + l)) by (nonlinear_arith)
        requires
            a - b == m * k,
            c - d == m * l,
    ;
    assert((a - c) - (b - d) == m * (k - l)) by (nonlinear_arith)
        requires
            a - b == m * k,
            c - d == m * l,
    ;
    lemma_congruent_multiple(a + c, b + d);
    lemma_congruent_multiple(a - c, b - d);
}

/// Congruence is symmetric and transitive.
pub proof fn lemma_congruent_chain(a: int, b: int, c: int)
    requires
        congruent(a, b),
        congruent(b, c),
    ensures
        congruent(a, c),
        congruent(b, a),
{
    lemma_congruent_add(a, b, b, c);
    assert(a + b - (b + c) == a - c);
    lemma_congruent_add(b, b, a, b);
    assert(b - a == (b - a) - (b - b));
}

/// The lesser of two lengths.
pub open spec fn shorter(a: nat, b: nat) -> nat {
    if a <= b {
        a
    } else {
        b
    }
}

/// The products of the entries of two sequences, by their index.
pub open spec fn products(a: Seq<nat>, b: Seq<nat>) -> spec_fn(int) -> nat {
    |i: int| fmul(a[i], b[i])
}

/// The inner product of two sequences over the field, as far as both go.
pub open spec fn dot(a: Seq<nat>, b: Seq<nat>) -> nat {
    fsum(shorter(a.len(), b.len()), products(a, b))
}

/// A product is congruent to the product of congruent factors.
pub proof fn lemma_congruent_mul(a: int, b: int, c: int, d: int)
    requires
        congruent(a, b),
        congruent(c, d),
    ensures
        congruent(a * c, b * d),
{
    let m = modulus() as int;
    vstd::arithmetic::div_mod::lemma_fundamental_div_mod(a - b, m);
    vstd::arithmetic::div_mod::lemma_fundamental_div_mod(c - d, m);
    let k = (a - b) / m;
    let l = (c - d) / m;
    assert(a - b == m * k);
    assert(c - d == m * l);
    assert(a * c - b * d == m * (k * c + b * l)) by (nonlinear_arith)
        requires
            a - b == m * k,
            c - d == m * l,
    ;
    vstd::arithmetic::div_mod::lemma_mod_multiples_basic(k * c + b * l, m);
    assert((m * (k * c + b * l)) % m == 0) by {
        vstd::arithmetic::mul::lemma_mul_is_commutative(m, k * c + b * l);
    }
}

/// The operations of the field are those of the integers, up to congruence.
pub proof fn lemma_field_ops(a: nat, b: nat)
    ensures
        congruent(fadd(a, b) as int, (a + b) as int),
        congruent(fsub(a, b) as int, a - b),
        congruent(fmul(a, b) as int, (a * b) as int),
        congruent(fneg(a) as int, -(a as int)),
        fadd(a, b) < modulus(),
        fsub(a, b) < modulus(),
        fmul(a, b) < modulus(),
        fneg(a) < modulus(),
{
    let m = modulus() as int;
    let p = (a * b) as int;
    assert(p >= 0) by (nonlinear_arith)
        requires
            p == a * b,
    ;
    assert(congruent(p % m, p));
}

/// Congruent integers in `[0, r)` are equal.
pub proof fn lemma_congruent_small(a: int, b: int)
    requires
        congruent(a, b),
        0 <= a < modulus(),
        0 <= b < modulus(),
    ensures
        a == b,
{
}

/// A difference in the field whose terms are congruent to `x + y` and to `x`
/// is the reduced integer that is congruent to `y`.
pub proof fn lemma_fsub_cancels(a: nat, b: nat, x: int, y: int, target: nat)
    requires
        congruent(a as int, x + y),
        congruent(b as int, x),
        congruent(target as int, y),
        target < modulus(),
    ensures
        fsub(a, b) == target,
{
    lemma_field_ops(a, b);
    lemma_congruent_add(a as int, x + y, b as int, x);
    lemma_congruent_chain(fsub(a, b) as int, a as int - b as int, x + y - x);
    lemma_congruent_chain(y, target as int, y);
    lemma_congruent_chain(fsub(a, b) as int, y, target as int);
    lemma_congruent_small(fsub(a, b) as int, target as int);
}

/// Sums of functions that agree below `n` are equal.
pub proof fn lemma_total_ext(n: nat, f: spec_fn(int) -> int, g: spec_fn(int) -> int)
    requires
        forall|i: int| 0 <= i < n ==> #[trigger] f(i) == g(i),
    ensures
        total(n, f) == total(n, g),
    decreases n,
{
    if n > 0 {
        lemma_total_ext((n - 1) as nat, f, g);
    }
}

/// Sums of functions that are congruent below `n` are congruent.
pub proof fn lemma_total_congruent(n: nat, f: spec_fn(int) -> int, g: spec_fn(int) -> int)
    requires
        forall|i: int| 0 <= i < n ==> congruent(#[trigger] f(i), g(i)),
    ensures
        congruent(total(n, f), total(n, g)),
    decreases n,
{
    if n > 0 {
        lemma_total_congruent((n - 1) as nat, f, g);
        assert(congruent(f(n - 1), g(n - 1)));
        lemma_congruent_add(total((n - 1) as nat, f), total((n - 1) as nat, g), f(n - 1), g(n - 1));
        assert(total(n, f) == total((n - 1) as nat, f) + f(n - 1));
        assert(total(n, g) == total((n - 1) as nat, g) + g(n - 1));
    } else {
        assert(total(n, f) == 0);
        assert(total(n, g) == 0);
        lemma_congruent_refl(0);
    }
}

/// The sum of a pointwise sum is the sum of the sums.
pub proof fn lemma_total_add(n: nat, f: spec_fn(int) -> int, g: spec_fn(int) -> int)
    ensures
        total(n, |i: int| f(i) + g(i)) == total(n, f) + total(n, g),
    decreases n,
{
    if n > 0 {
        lemma_total_add((n - 1) as nat, f, g);
    }
}

/// The sum of a pointwise difference is the difference of the sums.
pub proof fn lemma_total_sub(n: nat, f: spec_fn(int) -> int, g: spec_fn(int) -> int)
    ensures
        total(n, |i: int| f(i) - g(i)) == total(n, f) - total(n, g),
    decreases n,
{
    if n > 0 {
        lemma_total_sub((n - 1) as nat, f, g);
    }
}

/// A constant factor can be taken out of a sum.
pub proof fn lemma_total_scale(n: nat, c: int, f: spec_fn(int) -> int)
    ensures
        total(n, |i: int| c * f(i)) == c * total(n, f),
    decreases n,
{
    if n > 0 {
        lemma_total_scale((n - 1) as nat, c, f);
        let t = total((n - 1) as nat, f);
        let l = f(n - 1);
        assert(c * t + c * l == c * (t + l)) by (nonlinear_arith);
    } else {
        assert(c * 0 == 0);
    }
}

/// The sum of zeros is zero.
pub proof fn lemma_total_zero(n: nat, f: spec_fn(int) -> int)
    requires
        forall|i: int| 0 <= i < n ==> #[trigger] f(i) == 0,
    ensures
        total(n, f) == 0,
    decreases n,
{
    if n > 0 {
        lemma_total_zero((n - 1) as nat, f);
    }
}

/// Changing one term of a sum by `d` changes the sum by `d`.
pub proof fn lemma_total_update(n: nat, f: spec_fn(int) -> int, g: spec_fn(int) -> int, at: int, d: int)
    requires
        0 <= at < n,
        g(at) == f(at) + d,
        forall|i: int| 0 <= i < n && i != at ==> #[trigger] g(i) == f(i),
    ensures
        total(n, g) == total(n, f) + d,
    decreases n,
{
    if at == n - 1 {
        lemma_total_ext((n - 1) as nat, g, f);
    } else {
        lemma_total_update((n - 1) as nat, f, g, at, d);
    }
}

/// A double sum whose terms cancel in pairs, `f(i, j)` against `f(j, i)`, is
/// congruent to zero.
pub proof fn lemma_total_antisymmetric(n: nat, f: spec_fn(int, int) -> int)
    requires
        forall|i: int, j: int| 0 <= i < n && 0 <= j < n ==> congruent(#[trigger] f(i, j) + f(j, i), 0),
        forall|i: int| 0 <= i < n ==> congruent(#[trigger] f(i, i), 0),
    ensures
        congruent(total(n, |i: int| total(n, |j: int| f(i, j))), 0),
    decreases n,
{
    let rows = |i: int| total(n, |j: int| f(i, j));
    if n == 0 {
        lemma_congruent_refl(0);
    } else {
        let k = (n - 1) as nat;
        lemma_total_antisymmetric(k, f);
        let rows_before = |i: int| total(k, |j: int| f(i, j));
        let col = |i: int| f(i, n - 1);
        let row = |j: int| f(n - 1, j);
        let both = |i: int| col(i) + row(i);
        let zero = |i: int| 0int;
        // the first n - 1 rows, each split at its last column
        assert forall|i: int| 0 <= i < k implies #[trigger] rows(i) == rows_before(i) + col(i) by {
            lemma_total_ext(k, |j: int| f(i, j), |j: int| f(i, j));
        }
        lemma_total_ext(k, rows, |i: int| rows_before(i) + col(i));
        lemma_total_add(k, rows_before, col);
        // the last row, split at the diagonal
        lemma_total_ext(k, |j: int| f(n - 1, j), row);
        assert(rows(n - 1) == total(k, row) + f(n - 1, n - 1));
        // the last column and the last row cancel
        lemma_total_add(k, col, row);
        assert forall|i: int| 0 <= i < k implies congruent(#[trigger] both(i), zero(i)) by {
            assert(congruent(f(i, n - 1) + f(n - 1, i), 0));
        }
        lemma_total_congruent(k, both, zero);
        lemma_total_zero(k, zero);
        let square_before = total(k, rows_before);
        assert(total(n, rows) == square_before + (total(k, col) + total(k, row)) + f(n - 1, n - 1));
        lemma_congruent_add(square_before, 0, total(k, col) + total(k, row), 0);
        lemma_congruent_add(square_before + (total(k, col) + total(k, row)), 0, f(n - 1, n - 1), 0);
    }
}

/// A sum in the field is congruent to the sum in the integers, and reduced
/// when the start is.
pub proof fn lemma_fsum_from(init: nat, n: nat, f: spec_fn(int) -> nat)
    ensures
        congruent(fsum_from(init, n, f) as int, init + total(n, |i: int| f(i) as int)),
        init < modulus() ==> fsum_from(init, n, f) < modulus(),
    decreases n,
{
    if n > 0 {
        lemma_fsum_from(init, (n - 1) as nat, f);
        lemma_field_ops(fsum_from(init, (n - 1) as nat, f), f(n - 1));
    }
}

/// Field sums of functions that agree below `n` are equal.
pub proof fn lemma_fsum_ext(init: nat, n: nat, f: spec_fn(int) -> nat, g: spec_fn(int) -> nat)
    requires
        forall|i: int| 0 <= i < n ==> #[trigger] f(i) == g(i),
    ensures
        fsum_from(init, n, f) == fsum_from(init, n, g),
    decreases n,
{
    if n > 0 {
        lemma_fsum_ext(init, (n - 1) as nat, f, g);
    }
}

/// A function into the naturals, read as one into the integers.
pub open spec fn as_int(f: spec_fn(int) -> nat) -> spec_fn(int) -> int {
    |i: int| f(i) as int
}

/// A field sum is congruent to the integer sum of its terms.
pub proof fn lemma_fsum_total(n: nat, f: spec_fn(int) -> nat)
    ensures
        congruent(fsum(n, f) as int, total(n, as_int(f))),
        fsum(n, f) < modulus(),
{
    lemma_fsum_from(0, n, f);
    lemma_total_ext(n, |i: int| f(i) as int, as_int(f));
}

/// The inner product of two pairs over the field is congruent to the one
/// over the integers.
pub proof fn lemma_dot_of_pairs(a0: nat, a1: nat, b0: nat, b1: nat)
    ensures
        congruent(dot(seq![a0, a1], seq![b0, b1]) as int, (a0 * b0 + a1 * b1) as int),
{
    let a = seq![a0, a1];
    let b = seq![b0, b1];
    lemma_dot_total(a, b);
    let f = |j: int| (a[j] * b[j]) as int;
    assert(total(1, f) == total(0, f) + f(0));
    assert(total(2, f) == total(1, f) + f(1));
}

/// The function `a * f(i) + b * g(i) + h(i)`.
pub open spec fn blend(
    a: int,
    b: int,
    f: spec_fn(int) -> int,
    g: spec_fn(int) -> int,
    h: spec_fn(int) -> int,
) -> spec_fn(int) -> int {
    |i: int| a * f(i) + b * g(i) + h(i)
}

/// The sum of `a * f(i) + b * g(i) + h(i)` is `a` times the sum of `f`, plus
/// `b` times the sum of `g`, plus the sum of `h`.
pub proof fn lemma_total_blend(
    n: nat,
    a: int,
    b: int,
    f: spec_fn(int) -> int,
    g: spec_fn(int) -> int,
    h: spec_fn(int) -> int,
)
    ensures
        total(n, blend(a, b, f, g, h)) == a * total(n, f) + b * total(n, g) + total(n, h),
    decreases n,
{
    if n > 0 {
        let k = (n - 1) as nat;
        lemma_total_blend(k, a, b, f, g, h);
        let tf = total(k, f);
        let tg = total(k, g);
        let lf = f(n - 1);
        let lg = g(n - 1);
        assert(a * (tf + lf) == a * tf + a * lf) by (nonlinear_arith);
        assert(b * (tg + lg) == b * tg + b * lg) by (nonlinear_arith);
    } else {
        assert(a * 0 == 0 && b * 0 == 0);
    }
}

/// A field sum of zeros is zero.
pub proof fn lemma_fsum_zero(n: nat, f: spec_fn(int) -> nat)
    requires
        forall|i: int| 0 <= i < n ==> #[trigger] f(i) == 0,
    ensures
        fsum(n, f) == 0,
    decreases n,
{
    if n > 0 {
        lemma_fsum_zero((n - 1) as nat, f);
        vstd::arithmetic::div_mod::lemma_small_mod(0, modulus());
    }
}

/// The inner product over the field is congruent to the one over the
/// integers.
pub proof fn lemma_dot_total(a: Seq<nat>, b: Seq<nat>)
    ensures
        congruent(
            dot(a, b) as int,
            total(shorter(a.len(), b.len()), |j: int| (a[j] * b[j]) as int),
        ),
        dot(a, b) < modulus(),
{
    let n = shorter(a.len(), b.len());
    let f = products(a, b);
    let fi = |j: int| f(j) as int;
    let g = |j: int| (a[j] * b[j]) as int;
    lemma_fsum_from(0, n, f);
    assert forall|j: int| 0 <= j < n implies congruent(#[trigger] fi(j), g(j)) by {
        lemma_field_ops(a[j], b[j]);
    }
    lemma_total_congruent(n, fi, g);
    lemma_congruent_chain(dot(a, b) as int, total(n, fi), total(n, g));
}

} // verus!
