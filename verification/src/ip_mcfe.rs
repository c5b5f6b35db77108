//! Multi-client functional encryption for inner products, with keys dealt
//! out by one trusted party.
//!
//! Client `i` holds a matrix `Si` of `m` rows and two columns and a master
//! secret `mski` of `m` scalars. Entry `j` of its ciphertext hides `xi[j]`
//! behind row `j` of `Si` times the label hashed twice, and behind
//! `mski[j]` times the label hashed once.

use crate::error::Error;
use crate::field::{
    fadd, fmul, fsub, lemma_fmul_commutes, scalar_values, scalars_wf, Scalar,
};
use crate::g1::{point_values, points_wf, G1Point};
use crate::hash::{double_hash_to_curve, hash_to_curve, hashed_g1, hashed_pair_g1};
use crate::ipfe;
use crate::label::be_bytes_of_u64;
use crate::sums::{
    as_int, blend, congruent, dot, fsum, fsum_from, lemma_congruent_add, lemma_congruent_chain,
    lemma_congruent_mul, lemma_congruent_refl, lemma_congruent_small, lemma_dot_of_pairs,
    lemma_dot_total, lemma_field_ops, lemma_fsum_ext, lemma_fsum_total, lemma_total_blend,
    lemma_total_congruent, lemma_total_ext, lemma_total_scale, lemma_total_sub, products,
    shorter, total,
};
use crate::tools::{
    column, dot_product, dot_product_in_g1, has_width, mat_mul, matrix_values, matrix_wf, pair_of,
    random_mat_gen, scal_mat_mul_dim_2, smul_in_g1, transpose, };
use crate::types::{firsts, inner, seconds, DVec};
use vstd::prelude::*;
use vstd::slice::slice_to_vec;

verus! {

/// MCFE ciphertext type
pub type CypherText = G1Point;

/// MCFE encryption key type
pub type EncryptionKey = (Vec<Vec<Scalar>>, Vec<Scalar>);

/// MCFE partial decryption key type
pub type PartialDecryptionKey = (Vec<Scalar>, [Scalar; 2], Scalar);

/// MCFE decryption key type
pub type DecryptionKey = (Vec<Vec<Scalar>>, Vec<Scalar>, Vec<Scalar>);

/// Whether every scalar of an encryption key is well formed.
pub open spec fn encryption_key_wf(ek: EncryptionKey) -> bool {
    matrix_wf(ek.0@) && scalars_wf(ek.1@)
}

/// Whether every scalar of a partial decryption key is well formed.
pub open spec fn partial_key_wf(dk: PartialDecryptionKey) -> bool {
    scalars_wf(dk.0@) && dk.1@[0].wf() && dk.1@[1].wf() && dk.2.wf()
}

/// Whether every scalar of a decryption key is well formed.
pub open spec fn decryption_key_wf(dk: DecryptionKey) -> bool {
    matrix_wf(dk.0@) && scalars_wf(dk.1@) && scalars_wf(dk.2@)
}

/// Whether every point of a list of ciphertexts is well formed.
pub open spec fn cyphers_wf(c: Seq<Vec<G1Point>>) -> bool {
    forall|i: int| 0 <= i < c.len() ==> points_wf(#[trigger] c[i]@)
}

/// The exponents of a list of ciphertexts, client by client.
pub open spec fn cypher_values(c: Seq<Vec<G1Point>>) -> Seq<Seq<nat>> {
    Seq::new(c.len(), |i: int| point_values(c[i]@))
}

/// The exponent of the point that a numeric label is hashed to.
pub open spec fn hashed_once(l: u64) -> nat {
    hashed_g1(be_bytes_of_u64(l))
}

/// The exponents of the two points that a numeric label is hashed to.
pub open spec fn hashed_twice(l: u64) -> DVec<nat> {
    hashed_pair_g1(be_bytes_of_u64(l))
}

/// One entry of a ciphertext: `msk * U + (<V, row> + x)`, where `U` is the
/// label hashed once and `V` the label hashed twice.
pub open spec fn cypher_entry(row: Seq<nat>, msk: nat, x: nat, l: u64) -> nat {
    fadd(fmul(hashed_once(l), msk), fadd(inner(hashed_twice(l), pair_of(row)), x))
}

/// The number of entries of a ciphertext: as many as the contribution, the
/// matrix and the master secret all have.
pub open spec fn cypher_len(s: Seq<Seq<nat>>, msk: Seq<nat>, x: Seq<nat>) -> nat {
    shorter(shorter(x.len(), s.len()), msk.len())
}

/// The ciphertext of the contribution `x` under the key `(s, msk)`.
pub open spec fn cypher_spec(s: Seq<Seq<nat>>, msk: Seq<nat>, x: Seq<nat>, l: u64) -> Seq<nat> {
    Seq::new(cypher_len(s, msk, x), |j: int| cypher_entry(s[j], msk[j], x[j], l))
}

/// The two scalars of a partial key: the columns of `s`, each multiplied
/// with the weights.
pub open spec fn partial_key_pair(s: Seq<Seq<nat>>, y: Seq<nat>) -> DVec<nat> {
    DVec { x: dot(column(s, 0), y), y: dot(column(s, 1), y) }
}

/// The pairs of scalars of a list of partial keys.
pub open spec fn partial_pairs(dki: Seq<PartialDecryptionKey>) -> Seq<DVec<nat>> {
    Seq::new(dki.len(), |i: int| DVec { x: dki[i].1@[0]@, y: dki[i].1@[1]@ })
}

/// What one client adds to the decryption: `<ci, yi> - ipdk * U`.
pub open spec fn client_term(c: Seq<nat>, y: Seq<nat>, ipdk: nat, l: u64) -> nat {
    fsub(dot(c, y), fmul(hashed_once(l), ipdk))
}

/// The terms of all clients, by their index.
pub open spec fn client_terms(
    c: Seq<Seq<nat>>,
    y: Seq<Seq<nat>>,
    ipdk: Seq<nat>,
    l: u64,
) -> spec_fn(int) -> nat {
    |i: int| client_term(c[i], y[i], ipdk[i], l)
}

/// The exponents of the label hashed twice, as a sequence.
pub open spec fn hashed_twice_seq(l: u64) -> Seq<nat> {
    seq![hashed_twice(l).x, hashed_twice(l).y]
}

/// What decryption gives: the terms of all clients, as far as the
/// ciphertexts, the weights and the keys all go, minus `<V, d>`.
pub open spec fn decrypt_spec(
    c: Seq<Seq<nat>>,
    y: Seq<Seq<nat>>,
    d: Seq<nat>,
    ipdk: Seq<nat>,
    l: u64,
) -> nat {
    fsub(
        fsum(shorter(shorter(c.len(), y.len()), ipdk.len()), client_terms(c, y, ipdk, l)),
        dot(d, hashed_twice_seq(l)),
    )
}

/// Computes the encryption keys of the clients.
/// - `n`: number of clients
/// - `m`: number of contributions per client
pub fn setup(n: usize, m: usize) -> (r: Vec<EncryptionKey>)
    ensures
        r@.len() == n,
        forall|i: int|
            0 <= i < n ==> {
                &&& encryption_key_wf(#[trigger] r@[i])
                &&& r@[i].0@.len() == m
                &&& has_width(matrix_values(r@[i].0@), 2)
                &&& r@[i].1@.len() == m
            },
{
    let mut keys: Vec<EncryptionKey> = Vec::new();
    let mut i: usize = 0;
    while i < n
        invariant
            i <= n,
            keys@.len() == i,
            forall|k: int|
                0 <= k < i ==> {
                    &&& encryption_key_wf(#[trigger] keys@[k])
                    &&& keys@[k].0@.len() == m
                    &&& has_width(matrix_values(keys@[k].0@), 2)
                    &&& keys@[k].1@.len() == m
                },
        decreases n - i,
    {
        let (ip_msk, _) = ipfe::setup(m);
        keys.push((random_mat_gen(m, 2), ip_msk));
        i += 1;
    }
    keys
}

/// Encrypts the contribution of a client under its key and a label.
/// - `eki`:    encryption key of the client
/// - `xi`:     contribution of the client
/// - `l`:      label
pub fn encrypt(eki: &EncryptionKey, xi: &[Scalar], l: usize) -> (r: Result<Vec<G1Point>, Error>)
    requires
        encryption_key_wf(*eki),
        scalars_wf(xi@),
    ensures
        r is Ok <==> has_width(matrix_values(eki.0@), 2),
        r matches Ok(c) ==> points_wf(c@) && point_values(c@) == cypher_spec(
            matrix_values(eki.0@),
            scalar_values(eki.1@),
            scalar_values(xi@),
            l as u64,
        ),
        r matches Err(e) ==> e == Error::SizeMismatch,
{
    let ul = hash_to_curve(l as u64);
    let vl = double_hash_to_curve(l as u64);
    let r1 = mat_mul(eki.0.as_slice(), &vl)?;
    let ghost s = matrix_values(eki.0@);
    let ghost msk = scalar_values(eki.1@);
    let ghost x = scalar_values(xi@);
    let short = if xi.len() <= r1.len() {
        xi.len()
    } else {
        r1.len()
    };
    let n = if short <= eki.1.len() {
        short
    } else {
        eki.1.len()
    };
    let mut out: Vec<G1Point> = Vec::new();
    let mut j: usize = 0;
    while j < n
        invariant
            j <= n,
            n == cypher_len(s, msk, x),
            s == matrix_values(eki.0@),
            msk == scalar_values(eki.1@),
            x == scalar_values(xi@),
            encryption_key_wf(*eki),
            scalars_wf(xi@),
            ul.wf(),
            ul@ == hashed_once(l as u64),
            vl@ == hashed_twice(l as u64),
            points_wf(r1@),
            r1@.len() == s.len(),
            forall|k: int| 0 <= k < r1@.len() ==> (#[trigger] r1@[k])@ == inner(vl@, pair_of(s[k])),
            out@.len() == j,
            points_wf(out@),
            forall|k: int| 0 <= k < j ==> (#[trigger] out@[k])@ == cypher_entry(s[k], msk[k], x[k], l as u64),
        decreases n - j,
    {
        let plain = smul_in_g1(&xi[j]);
        let cij = r1[j].add(&plain);
        let r2 = ul.mul(&eki.1[j]);
        out.push(r2.add(&cij));
        j += 1;
    }
    assert(point_values(out@) =~= cypher_spec(s, msk, x, l as u64));
    Ok(out)
}

/// Computes the partial decryption key of a client. The dimensions must
/// agree: the matrix of the key has at least one row and two columns, and
/// it has as many rows as there are weights and as the master secret has
/// scalars; anything else is a size mismatch.
/// - `eki`: the encryption key of the client;
/// - `yi`: the weights of the decryption function for the client.
pub fn dkey_gen(eki: &EncryptionKey, yi: &[Scalar]) -> (r: Result<PartialDecryptionKey, Error>)
    requires
        encryption_key_wf(*eki),
        scalars_wf(yi@),
    ensures
        r is Ok <==> {
            &&& eki.0@.len() > 0
            &&& has_width(matrix_values(eki.0@), 2)
            &&& yi@.len() == eki.0@.len()
            &&& eki.1@.len() == yi@.len()
        },
        r matches Ok(dk) ==> {
            &&& partial_key_wf(dk)
            &&& dk.0@ == yi@
            &&& (DVec { x: dk.1@[0]@, y: dk.1@[1]@ }) == partial_key_pair(
                matrix_values(eki.0@),
                scalar_values(yi@),
            )
            &&& dk.2@ == dot(scalar_values(yi@), scalar_values(eki.1@))
        },
        r matches Err(e) ==> e == Error::SizeMismatch,
{
    let ghost s = matrix_values(eki.0@);
    let ghost y = scalar_values(yi@);
    proof {
        if eki.0@.len() > 0 {
            assert(s[0].len() == eki.0@[0]@.len());
        }
    }
    if eki.1.len() != yi.len() {
        return Err(Error::SizeMismatch);
    }
    let t = match transpose(eki.0.as_slice()) {
        Ok(t) => t,
        Err(e) => {
            return Err(e);
        },
    };
    let ghost tv = matrix_values(t@);
    proof {
        assert(tv.len() == t@.len());
        if eki.0@.len() > 0 && has_width(s, 2) && yi@.len() == eki.0@.len() {
            assert forall|k: int| 0 <= k < tv.len() implies (#[trigger] tv[k]).len() == yi@.len() by {
                assert(tv[k] == column(s, k));
            }
        }
    }
    let dky = match scal_mat_mul_dim_2(t.as_slice(), yi) {
        Ok(dky) => dky,
        Err(e) => {
            return Err(e);
        },
    };
    if dky.len() != 2 {
        return Err(Error::SizeMismatch);
    }
    proof {
        assert(eki.0@.len() > 0);
        assert(s[0].len() == 2);
        assert(tv[0] == column(s, 0));
        assert(tv[1] == column(s, 1));
        assert(tv[0].len() == yi@.len());
    }
    let ipdk = dot_product(yi, eki.1.as_slice());
    Ok((slice_to_vec(yi), [dky[0], dky[1]], ipdk))
}

/// Computes the decryption key from the partial keys of the clients.
/// - `dki`: partial decryption keys generated by the clients
pub fn key_comb(dki: &[PartialDecryptionKey]) -> (r: Result<DecryptionKey, Error>)
    requires
        forall|i: int| 0 <= i < dki@.len() ==> partial_key_wf(#[trigger] dki@[i]),
    ensures
        r is Ok,
        r matches Ok(dk) ==> {
            &&& decryption_key_wf(dk)
            &&& dk.0@.len() == dki@.len()
            &&& forall|i: int| 0 <= i < dki@.len() ==> (#[trigger] dk.0@[i])@ == dki@[i].0@
            &&& dk.1@.len() == 2
            &&& dk.1@[0]@ == fsum(dki@.len(), firsts(partial_pairs(dki@)))
            &&& dk.1@[1]@ == fsum(dki@.len(), seconds(partial_pairs(dki@)))
            &&& dk.2@.len() == dki@.len()
            &&& forall|i: int| 0 <= i < dki@.len() ==> (#[trigger] dk.2@[i]) == dki@[i].2
        },
{
    let ghost ds = partial_pairs(dki@);
    let mut y: Vec<Vec<Scalar>> = Vec::new();
    let mut d0 = Scalar::zero();
    let mut d1 = Scalar::zero();
    let mut ip_dk: Vec<Scalar> = Vec::new();
    let mut i: usize = 0;
    while i < dki.len()
        invariant
            i <= dki.len(),
            ds == partial_pairs(dki@),
            forall|k: int| 0 <= k < dki@.len() ==> partial_key_wf(#[trigger] dki@[k]),
            y@.len() == i,
            ip_dk@.len() == i,
            matrix_wf(y@),
            scalars_wf(ip_dk@),
            d0.wf(),
            d1.wf(),
            forall|k: int| 0 <= k < i ==> (#[trigger] y@[k])@ == dki@[k].0@,
            forall|k: int| 0 <= k < i ==> (#[trigger] ip_dk@[k]) == dki@[k].2,
            d0@ == fsum_from(0, i as nat, firsts(ds)),
            d1@ == fsum_from(0, i as nat, seconds(ds)),
        decreases dki.len() - i,
    {
        assert(partial_key_wf(dki@[i as int]));
        let yi = slice_to_vec(dki[i].0.as_slice());
        y.push(yi);
        d0 = d0.add(&dki[i].1[0]);
        d1 = d1.add(&dki[i].1[1]);
        ip_dk.push(dki[i].2);
        i += 1;
    }
    let mut d: Vec<Scalar> = Vec::new();
    d.push(d0);
    d.push(d1);
    Ok((y, d, ip_dk))
}

/// Decrypts the ciphertexts of all clients under one label with the
/// decryption key.
/// - `c`:  the ciphertexts
/// - `dk`: the decryption key
/// - `l`:  the label
pub fn decrypt(c: &[Vec<G1Point>], dk: &DecryptionKey, l: usize) -> (r: G1Point)
    requires
        cyphers_wf(c@),
        decryption_key_wf(*dk),
    ensures
        r.wf(),
        r@ == decrypt_spec(
            cypher_values(c@),
            matrix_values(dk.0@),
            scalar_values(dk.1@),
            scalar_values(dk.2@),
            l as u64,
        ),
{
    let ul = hash_to_curve(l as u64);
    let ghost f = client_terms(
        cypher_values(c@),
        matrix_values(dk.0@),
        scalar_values(dk.2@),
        l as u64,
    );
    let short = if c.len() <= dk.0.len() {
        c.len()
    } else {
        dk.0.len()
    };
    let n = if short <= dk.2.len() {
        short
    } else {
        dk.2.len()
    };
    let mut dl = G1Point::identity();
    let mut i: usize = 0;
    while i < n
        invariant
            i <= n,
            n == shorter(shorter(c@.len(), dk.0@.len()), dk.2@.len()),
            cyphers_wf(c@),
            decryption_key_wf(*dk),
            ul.wf(),
            ul@ == hashed_once(l as u64),
            dl.wf(),
            f == client_terms(
                cypher_values(c@),
                matrix_values(dk.0@),
                scalar_values(dk.2@),
                l as u64,
            ),
            dl@ == fsum_from(0, i as nat, f),
        decreases n - i,
    {
        assert(points_wf(c@[i as int]@));
        assert(scalars_wf(dk.0@[i as int]@));
        let sum = dot_product_in_g1(c[i].as_slice(), dk.0[i].as_slice());
        let masked = ul.mul(&dk.2[i]);
        let di = sum.sub(&masked);
        dl = dl.add(&di);
        i += 1;
    }
    let vl = double_hash_to_curve(l as u64);
    let d = mask_of_key(dk.1.as_slice(), &vl, Ghost(l as u64));
    dl.sub(&d)
}

/// The part of the decryption that the key alone decides: `<V, d>`, as far
/// as `d` and the two points of `V` go.
fn mask_of_key(d: &[Scalar], vl: &DVec<G1Point>, Ghost(l): Ghost<u64>) -> (r: G1Point)
    requires
        scalars_wf(d@),
        vl.wf(),
        vl@ == hashed_twice(l),
    ensures
        r.wf(),
        r@ == dot(scalar_values(d@), hashed_twice_seq(l)),
{
    let mut points: Vec<G1Point> = Vec::new();
    points.push(vl.x);
    points.push(vl.y);
    assert(point_values(points@) =~= hashed_twice_seq(l));
    let r = dot_product_in_g1(points.as_slice(), d);
    proof {
        lemma_dot_commutes(point_values(points@), scalar_values(d@));
    }
    r
}

/// The inner product does not depend on the order of its two sequences.
pub proof fn lemma_dot_commutes(a: Seq<nat>, b: Seq<nat>)
    ensures
        dot(a, b) == dot(b, a),
{
    let n = shorter(a.len(), b.len());
    assert forall|i: int| 0 <= i < n implies #[trigger] products(a, b)(i) == products(b, a)(i) by {
        lemma_fmul_commutes(a[i], b[i]);
    }
    lemma_fsum_ext(0, n, products(a, b), products(b, a));
}

/// The partial key of one client, as the decryptor sees it in the combined
/// key: the weights, the pair of scalars, and the key of the inner-product
/// scheme.
pub open spec fn partial_keys(ss: Seq<Seq<Seq<nat>>>, ys: Seq<Seq<nat>>) -> Seq<DVec<nat>> {
    Seq::new(ss.len(), |i: int| partial_key_pair(ss[i], ys[i]))
}

/// The ciphertexts of all clients under one label.
pub open spec fn cyphers(
    ss: Seq<Seq<Seq<nat>>>,
    msks: Seq<Seq<nat>>,
    xs: Seq<Seq<nat>>,
    l: u64,
) -> Seq<Seq<nat>> {
    Seq::new(ss.len(), |i: int| cypher_spec(ss[i], msks[i], xs[i], l))
}

/// The keys of the inner-product scheme of all clients.
pub open spec fn inner_keys(ys: Seq<Seq<nat>>, msks: Seq<Seq<nat>>) -> Seq<nat> {
    Seq::new(ys.len(), |i: int| dot(ys[i], msks[i]))
}

/// The two scalars of the combined key.
pub open spec fn combined_pair(ds: Seq<DVec<nat>>) -> Seq<nat> {
    seq![fsum(ds.len(), firsts(ds)), fsum(ds.len(), seconds(ds))]
}

/// The inner products of the contributions and the weights of the clients,
/// by the index of the client.
pub open spec fn inner_products(xs: Seq<Seq<nat>>, ys: Seq<Seq<nat>>) -> spec_fn(int) -> nat {
    |i: int| dot(xs[i], ys[i])
}

/// `(u m + (v0 p + v1 q + x)) y - u (y m) = v0 (p y) + v1 (q y) + x y`.
proof fn lemma_entry_expands(u: int, m: int, v0: int, p: int, v1: int, q: int, x: int, y: int)
    ensures
        (u * m + (v0 * p + v1 * q + x)) * y - u * (y * m) == v0 * (p * y) + v1 * (q * y) + x * y,
{
    let a = u * m;
    let b = v0 * p;
    let c = v1 * q;
    assert((a + (b + c + x)) * y == a * y + b * y + c * y + x * y) by (nonlinear_arith);
    assert(a * y == u * (y * m)) by (nonlinear_arith)
        requires
            a == u * m,
    ;
    assert(b * y == v0 * (p * y)) by (nonlinear_arith)
        requires
            b == v0 * p,
    ;
    assert(c * y == v1 * (q * y)) by (nonlinear_arith)
        requires
            c == v1 * q,
    ;
}

/// What one client adds to the decryption is congruent to `<V, dky>` plus
/// the inner product of its contribution and its weights.
proof fn lemma_client_term(s: Seq<Seq<nat>>, msk: Seq<nat>, x: Seq<nat>, y: Seq<nat>, l: u64)
    requires
        has_width(s, 2),
        s.len() == msk.len(),
        s.len() == x.len(),
        s.len() == y.len(),
    ensures
        congruent(
            client_term(cypher_spec(s, msk, x, l), y, dot(y, msk), l) as int,
            (hashed_twice(l).x * partial_key_pair(s, y).x + hashed_twice(l).y * partial_key_pair(
                s,
                y,
            ).y + dot(x, y)) as int,
        ),
{
    let m = s.len();
    let u = hashed_once(l) as int;
    let v = hashed_twice(l);
    let (v0, v1) = (v.x as int, v.y as int);
    let c = cypher_spec(s, msk, x, l);
    let cy = |j: int| (c[j] * y[j]) as int;
    let my = |j: int| (y[j] * msk[j]) as int;
    let umy = |j: int| u * my(j);
    let s0y = |j: int| (column(s, 0)[j] * y[j]) as int;
    let s1y = |j: int| (column(s, 1)[j] * y[j]) as int;
    let xy = |j: int| (x[j] * y[j]) as int;
    let rest = blend(v0, v1, s0y, s1y, xy);
    let diff = |j: int| cy(j) - umy(j);
    lemma_dot_total(c, y);
    lemma_dot_total(y, msk);
    lemma_dot_total(column(s, 0), y);
    lemma_dot_total(column(s, 1), y);
    lemma_dot_total(x, y);
    assert(c.len() == m);
    // entry by entry
    assert forall|j: int| 0 <= j < m implies congruent(#[trigger] diff(j), rest(j)) by {
        let row = pair_of(s[j]);
        let (p, q) = (row.x as int, row.y as int);
        let (mj, xj, yj) = (msk[j] as int, x[j] as int, y[j] as int);
        assert(s[j].len() == 2);
        lemma_field_ops(hashed_once(l), msk[j]);
        lemma_field_ops(fmul(v.x, row.x), fmul(v.y, row.y));
        lemma_field_ops(v.x, row.x);
        lemma_field_ops(v.y, row.y);
        lemma_field_ops(inner(v, row), x[j]);
        lemma_field_ops(fmul(hashed_once(l), msk[j]), fadd(inner(v, row), x[j]));
        lemma_congruent_add(fmul(v.x, row.x) as int, v0 * p, fmul(v.y, row.y) as int, v1 * q);
        lemma_congruent_chain(
            inner(v, row) as int,
            (fmul(v.x, row.x) + fmul(v.y, row.y)) as int,
            v0 * p + v1 * q,
        );
        lemma_congruent_refl(xj);
        lemma_congruent_add(inner(v, row) as int, v0 * p + v1 * q, xj, xj);
        lemma_congruent_chain(
            fadd(inner(v, row), x[j]) as int,
            (inner(v, row) + x[j]) as int,
            v0 * p + v1 * q + xj,
        );
        lemma_congruent_add(
            fmul(hashed_once(l), msk[j]) as int,
            u * mj,
            fadd(inner(v, row), x[j]) as int,
            v0 * p + v1 * q + xj,
        );
        lemma_congruent_chain(
            c[j] as int,
            (fmul(hashed_once(l), msk[j]) + fadd(inner(v, row), x[j])) as int,
            u * mj + (v0 * p + v1 * q + xj),
        );
        lemma_congruent_refl(yj);
        lemma_congruent_mul(c[j] as int, u * mj + (v0 * p + v1 * q + xj), yj, yj);
        lemma_congruent_refl(umy(j));
        lemma_congruent_add(cy(j), (u * mj + (v0 * p + v1 * q + xj)) * yj, umy(j), umy(j));
        lemma_entry_expands(u, mj, v0, p, v1, q, xj, yj);
    }
    lemma_total_congruent(m, diff, rest);
    lemma_total_sub(m, cy, umy);
    lemma_total_ext(m, diff, |j: int| cy(j) - umy(j));
    lemma_total_scale(m, u, my);
    lemma_total_ext(m, umy, |j: int| u * my(j));
    lemma_total_blend(m, v0, v1, s0y, s1y, xy);
    lemma_total_ext(m, |j: int| (c[j] * y[j]) as int, cy);
    lemma_total_ext(m, |j: int| (y[j] * msk[j]) as int, my);
    lemma_total_ext(m, |j: int| (column(s, 0)[j] * y[j]) as int, s0y);
    lemma_total_ext(m, |j: int| (column(s, 1)[j] * y[j]) as int, s1y);
    lemma_total_ext(m, |j: int| (x[j] * y[j]) as int, xy);
    // total(cy) - u * total(my) is congruent to the blend
    let pair = partial_key_pair(s, y);
    let ipdk = dot(y, msk);
    // the term of the client
    lemma_field_ops(dot(c, y), fmul(hashed_once(l), ipdk));
    lemma_field_ops(hashed_once(l), ipdk);
    lemma_congruent_refl(u);
    lemma_congruent_mul(u, u, ipdk as int, total(m, my));
    lemma_congruent_chain(fmul(hashed_once(l), ipdk) as int, u * ipdk, u * total(m, my));
    lemma_congruent_add(
        dot(c, y) as int,
        total(m, cy),
        fmul(hashed_once(l), ipdk) as int,
        u * total(m, my),
    );
    let term = client_term(c, y, ipdk, l) as int;
    lemma_congruent_chain(
        term,
        dot(c, y) - fmul(hashed_once(l), ipdk),
        total(m, cy) - u * total(m, my),
    );
    lemma_congruent_chain(term, total(m, diff), total(m, rest));
    // the three sums of the blend
    lemma_congruent_refl(v0);
    lemma_congruent_refl(v1);
    lemma_congruent_chain(total(m, s0y), pair.x as int, total(m, s0y));
    lemma_congruent_chain(total(m, s1y), pair.y as int, total(m, s1y));
    lemma_congruent_chain(total(m, xy), dot(x, y) as int, total(m, xy));
    lemma_congruent_mul(v0, v0, total(m, s0y), pair.x as int);
    lemma_congruent_mul(v1, v1, total(m, s1y), pair.y as int);
    lemma_congruent_add(v0 * total(m, s0y), v0 * pair.x, v1 * total(m, s1y), v1 * pair.y);
    lemma_congruent_add(
        v0 * total(m, s0y) + v1 * total(m, s1y),
        v0 * pair.x + v1 * pair.y,
        total(m, xy),
        dot(x, y) as int,
    );
    lemma_congruent_chain(term, total(m, rest), v0 * pair.x + v1 * pair.y + dot(x, y));
}

/// The scheme is correct: when every client `i` encrypts `xs[i]` under its
/// key `(ss[i], msks[i])` and gives its partial key for the weights
/// `ys[i]`, decryption gives the generator of G1 multiplied by the sum of
/// the inner products of `xs[i]` and `ys[i]`.
pub proof fn law_decrypt_recovers_inner_products(
    ss: Seq<Seq<Seq<nat>>>,
    msks: Seq<Seq<nat>>,
    xs: Seq<Seq<nat>>,
    ys: Seq<Seq<nat>>,
    l: u64,
)
    requires
        ss.len() == msks.len(),
        ss.len() == xs.len(),
        ss.len() == ys.len(),
        forall|i: int|
            0 <= i < ss.len() ==> {
                &&& has_width(#[trigger] ss[i], 2)
                &&& ss[i].len() == msks[i].len()
                &&& ss[i].len() == xs[i].len()
                &&& ss[i].len() == ys[i].len()
            },
    ensures
        decrypt_spec(
            cyphers(ss, msks, xs, l),
            ys,
            combined_pair(partial_keys(ss, ys)),
            inner_keys(ys, msks),
            l,
        ) == fsum(ss.len(), inner_products(xs, ys)),
{
    let n = ss.len();
    let v = hashed_twice(l);
    let (v0, v1) = (v.x as int, v.y as int);
    let ds = partial_keys(ss, ys);
    let d = combined_pair(ds);
    let terms = client_terms(cyphers(ss, msks, xs, l), ys, inner_keys(ys, msks), l);
    let a = total(n, as_int(firsts(ds)));
    let b = total(n, as_int(seconds(ds)));
    let xy = total(n, as_int(inner_products(xs, ys)));
    let hidden = v0 * a + v1 * b;
    let dl = fsum(n, terms);
    let mask = dot(d, hashed_twice_seq(l));
    let sum = fsum(n, inner_products(xs, ys));
    lemma_terms_total(ss, msks, xs, ys, l);
    lemma_mask_total(ds, l);
    lemma_fsum_total(n, inner_products(xs, ys));
    lemma_field_ops(dl, mask);
    lemma_congruent_add(dl as int, hidden + xy, mask as int, hidden);
    let result = fsub(dl, mask);
    lemma_congruent_chain(result as int, dl - mask, hidden + xy - hidden);
    lemma_congruent_chain(xy, sum as int, xy);
    lemma_congruent_chain(result as int, xy, sum as int);
    lemma_congruent_small(result as int, sum as int);
}

/// The terms of all clients add up to `<V, d>` plus the sum of the inner
/// products, up to congruence.
proof fn lemma_terms_total(
    ss: Seq<Seq<Seq<nat>>>,
    msks: Seq<Seq<nat>>,
    xs: Seq<Seq<nat>>,
    ys: Seq<Seq<nat>>,
    l: u64,
)
    requires
        ss.len() == msks.len(),
        ss.len() == xs.len(),
        ss.len() == ys.len(),
        forall|i: int|
            0 <= i < ss.len() ==> {
                &&& has_width(#[trigger] ss[i], 2)
                &&& ss[i].len() == msks[i].len()
                &&& ss[i].len() == xs[i].len()
                &&& ss[i].len() == ys[i].len()
            },
    ensures
        congruent(
            fsum(
                ss.len(),
                client_terms(cyphers(ss, msks, xs, l), ys, inner_keys(ys, msks), l),
            ) as int,
            hashed_twice(l).x * total(ss.len(), as_int(firsts(partial_keys(ss, ys))))
                + hashed_twice(l).y * total(ss.len(), as_int(seconds(partial_keys(ss, ys))))
                + total(ss.len(), as_int(inner_products(xs, ys))),
        ),
{
    let n = ss.len();
    let v = hashed_twice(l);
    let (v0, v1) = (v.x as int, v.y as int);
    let ds = partial_keys(ss, ys);
    let terms = client_terms(cyphers(ss, msks, xs, l), ys, inner_keys(ys, msks), l);
    let a = as_int(firsts(ds));
    let b = as_int(seconds(ds));
    let xy = as_int(inner_products(xs, ys));
    let opened = blend(v0, v1, a, b, xy);
    assert forall|i: int| 0 <= i < n implies congruent(#[trigger] as_int(terms)(i), opened(i)) by {
        assert(has_width(ss[i], 2));
        lemma_client_term(ss[i], msks[i], xs[i], ys[i], l);
    }
    lemma_total_congruent(n, as_int(terms), opened);
    lemma_total_blend(n, v0, v1, a, b, xy);
    lemma_fsum_total(n, terms);
    lemma_congruent_chain(fsum(n, terms) as int, total(n, as_int(terms)), total(n, opened));
}

/// `<V, d>` of the combined key is congruent to `V` times the integer sums
/// of the pairs of the partial keys.
proof fn lemma_mask_total(ds: Seq<DVec<nat>>, l: u64)
    ensures
        congruent(
            dot(combined_pair(ds), hashed_twice_seq(l)) as int,
            hashed_twice(l).x * total(ds.len(), as_int(firsts(ds))) + hashed_twice(l).y * total(
                ds.len(),
                as_int(seconds(ds)),
            ),
        ),
{
    let n = ds.len();
    let v = hashed_twice(l);
    let (v0, v1) = (v.x as int, v.y as int);
    let d0 = fsum(n, firsts(ds));
    let d1 = fsum(n, seconds(ds));
    let a = total(n, as_int(firsts(ds)));
    let b = total(n, as_int(seconds(ds)));
    lemma_fsum_total(n, firsts(ds));
    lemma_fsum_total(n, seconds(ds));
    lemma_dot_of_pairs(d0, d1, v.x, v.y);
    lemma_congruent_refl(v0);
    lemma_congruent_refl(v1);
    lemma_congruent_mul(d0 as int, a, v0, v0);
    lemma_congruent_mul(d1 as int, b, v1, v1);
    lemma_congruent_add(d0 * v0, a * v0, d1 * v1, b * v1);
    assert(a * v0 == v0 * a && b * v1 == v1 * b) by (nonlinear_arith);
    lemma_congruent_chain(
        dot(combined_pair(ds), hashed_twice_seq(l)) as int,
        d0 * v0 + d1 * v1,
        v0 * a + v1 * b,
    );
}

} // verus!
