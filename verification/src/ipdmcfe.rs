//! Decentralized multi-client functional encryption for inner products.
//!
//! Every client holds a vector `s` of two scalars and a share `t` of a matrix
//! that adds up to zero over all clients. A ciphertext hides a contribution
//! behind `<u, s>`, where `u` is the label hashed twice into G1; a
//! decryption key for the weights `y` gathers the `s` of all clients.

use crate::dsum;
use crate::error::Error;
use crate::field::{fadd, fmul, fsub, modulus, scalar_values, scalars_wf, Scalar};
use crate::g1::G1Point;
use crate::g2::G2Point;
use crate::gt::{pairing, GtPoint};
use crate::hash::{
    double_hash_to_curve_in_g1, double_hash_to_curve_in_g2, hashed_pair_g1, hashed_pair_g2,
};
use crate::label::{scalars_encoding, Label};
use crate::random::random_scalar;
use crate::sums::{
    blend, congruent, dot, fsum, fsum_from, lemma_congruent_add, lemma_congruent_chain,
    lemma_congruent_mul, lemma_congruent_refl, lemma_dot_total, lemma_field_ops,
    lemma_fsub_cancels, lemma_fsum_ext, lemma_fsum_from, lemma_fsum_zero, lemma_total_blend,
    lemma_total_congruent, lemma_total_ext, products, total,
};
use crate::types::{apply, dvec_add, dvec_scale, firsts, inner, seconds, DVec, TMat};
use vstd::prelude::*;
use vstd::slice::slice_to_vec;
use vstd::string::StringSliceAdditionalSpecFns;

verus! {

/// A ciphertext: an element of G1, bound to one label.
#[derive(Clone, Copy, Debug)]
pub struct CypherText(G1Point);

/// The private key of a client.
#[derive(Clone, Copy, Debug)]
pub struct PrivateKey {
    /// - `s`:  two dimensional scalar vector
    pub s: DVec<Scalar>,
    /// - `t`:  2x2 scalar matrix
    pub t: TMat<dsum::CypherText>,
}

/// The share of a client in a decryption key.
#[derive(Clone, Copy, Debug)]
pub struct PartialDecryptionKey(DVec<G2Point>);

/// A decryption key `(y, d)`.
#[derive(Clone, Debug)]
pub struct DecryptionKey {
    /// - `y`:  decryption function
    pub y: Vec<Scalar>,
    /// - `d`:  functional decryption key
    d: DVec<G2Point>,
}

impl View for CypherText {
    type V = nat;

    /// The exponent of the ciphertext to the generator of G1.
    closed spec fn view(&self) -> nat {
        self.0@
    }
}

impl CypherText {
    /// A ciphertext is well formed when its point is.
    pub closed spec fn wf(&self) -> bool {
        self.0.wf()
    }

    /// The point of the ciphertext.
    pub fn point(&self) -> (r: G1Point)
        ensures
            r@ == self@,
            r.wf() == self.wf(),
    {
        self.0
    }
}

impl PrivateKey {
    /// A private key is well formed when its six scalars are.
    pub open spec fn wf(&self) -> bool {
        &&& self.s.wf()
        &&& self.t.a.wf()
        &&& self.t.b.wf()
        &&& self.t.c.wf()
        &&& self.t.d.wf()
    }
}

impl View for PartialDecryptionKey {
    type V = DVec<nat>;

    /// The exponents of the two points to the generator of G2.
    closed spec fn view(&self) -> DVec<nat> {
        self.0@
    }
}

impl PartialDecryptionKey {
    /// A share is well formed when its two points are.
    pub closed spec fn wf(&self) -> bool {
        self.0.wf()
    }
}

impl DecryptionKey {
    /// The exponents of the two points of the key to the generator of G2.
    pub closed spec fn d(&self) -> DVec<nat> {
        self.d@
    }

    /// The weights of the key.
    pub closed spec fn weights(&self) -> Seq<Scalar> {
        self.y@
    }

    /// The weights of the key.
    pub fn y(&self) -> (r: &[Scalar])
        ensures
            r@ == self.weights(),
            self.wf() ==> scalars_wf(r@),
    {
        self.y.as_slice()
    }

    /// A key is well formed when its scalars and its two points are.
    pub closed spec fn wf(&self) -> bool {
        &&& self.d.wf()
        &&& scalars_wf(self.y@)
    }
}

/// Where a client stands in the scheme.
#[derive(Clone, Copy, Debug, PartialEq, Eq, Structural)]
pub enum State {
    /// The client has no keys yet.
    Uninitialized,
    /// The client has published its public key and waits for its peers.
    KeysPublished,
    /// The client has its private key.
    Ready,
    /// The client encrypts contributions and answers requests for keys.
    Serving,
    /// The client was shut down.
    Closed,
}

/// What happens to a client.
#[derive(Clone, Copy, Debug, PartialEq, Eq, Structural)]
pub enum Event {
    /// The client made its keys for the decentralized sum.
    ClientSetup,
    /// The public keys of all peers have come.
    PeersReceived,
    /// The client encrypted a contribution.
    Encrypt,
    /// The client gave a share of a decryption key.
    KeyShare,
    /// The client was told to shut down.
    Shutdown,
}

/// The state that follows `state` on `event`, if the event may happen
/// there: the setup leads from `Uninitialized` to `KeysPublished`, the
/// public keys of the peers lead on to `Ready`, and from then on the client
/// serves; a shutdown closes a client wherever it stands, and a closed
/// client stays closed.
pub open spec fn next_state(state: State, event: Event) -> Option<State> {
    match (state, event) {
        (State::Closed, _) => None,
        (_, Event::Shutdown) => Some(State::Closed),
        (State::Uninitialized, Event::ClientSetup) => Some(State::KeysPublished),
        (State::KeysPublished, Event::PeersReceived) => Some(State::Ready),
        (State::Ready, Event::Encrypt) => Some(State::Serving),
        (State::Ready, Event::KeyShare) => Some(State::Serving),
        (State::Serving, Event::Encrypt) => Some(State::Serving),
        (State::Serving, Event::KeyShare) => Some(State::Serving),
        _ => None,
    }
}

/// The state that follows `state` on `event`, if the event may happen there.
pub fn transition(state: State, event: Event) -> (r: Option<State>)
    ensures
        r == next_state(state, event),
{
    match state {
        State::Closed => None,
        State::Uninitialized => match event {
            Event::Shutdown => Some(State::Closed),
            Event::ClientSetup => Some(State::KeysPublished),
            _ => None,
        },
        State::KeysPublished => match event {
            Event::Shutdown => Some(State::Closed),
            Event::PeersReceived => Some(State::Ready),
            _ => None,
        },
        State::Ready | State::Serving => match event {
            Event::Shutdown => Some(State::Closed),
            Event::Encrypt | Event::KeyShare => Some(State::Serving),
            _ => None,
        },
    }
}

/// The views of a sequence of ciphertexts.
pub open spec fn cypher_values(c: Seq<CypherText>) -> Seq<nat> {
    Seq::new(c.len(), |i: int| c[i]@)
}

/// The views of a sequence of shares.
pub open spec fn share_values(p: Seq<PartialDecryptionKey>) -> Seq<DVec<nat>> {
    Seq::new(p.len(), |i: int| p[i]@)
}

/// The label under which entry `k` of the shares of zero is encoded.
pub open spec fn setup_label(k: u8) -> Seq<u8> {
    "Setup".spec_bytes().push(k)
}

/// Entry `k` of the share of the client with the private key `sk`: zero,
/// encoded for the decentralized sum.
pub open spec fn share_entry(sk: nat, pks: Seq<nat>, k: u8) -> nat {
    dsum::encode_spec(0, sk, pks, setup_label(k))
}

/// The share of the client with the private key `sk`.
pub open spec fn share_spec(sk: nat, pks: Seq<nat>) -> TMat<nat> {
    TMat {
        a: share_entry(sk, pks, 0),
        b: share_entry(sk, pks, 1),
        c: share_entry(sk, pks, 2),
        d: share_entry(sk, pks, 3),
    }
}

/// The ciphertext of `x` under the vector `s` and a label: `<u, s> + x`.
pub open spec fn cypher_spec(x: nat, s: DVec<nat>, label: Seq<u8>) -> nat {
    fadd(inner(hashed_pair_g1(label), s), x)
}

/// The share of a client in the key for the weights whose encoding is
/// `weights`, its own weight being `yi`: `s * yi + t * v`.
pub open spec fn partial_key_spec(s: DVec<nat>, t: TMat<nat>, yi: nat, weights: Seq<u8>) -> DVec<nat> {
    dvec_add(dvec_scale(s, yi), apply(t, hashed_pair_g2(weights)))
}

/// The sum of the shares.
pub open spec fn key_sum(ds: Seq<DVec<nat>>) -> DVec<nat> {
    DVec { x: fsum(ds.len(), firsts(ds)), y: fsum(ds.len(), seconds(ds)) }
}

/// What decryption gives: the weighted sum of the ciphertexts, as far as
/// both lists go, minus `<u, d>`.
pub open spec fn decrypt_spec(c: Seq<nat>, y: Seq<nat>, d: DVec<nat>, label: Seq<u8>) -> nat {
    fsub(dot(c, y), inner(hashed_pair_g1(label), d))
}

/// Entry `k` of the share of a client: zero, encoded under the label
/// `"Setup"` followed by the byte `k`.
fn t_entry(
    shared: &dsum::Shared,
    dpk: &[dsum::PublicKey],
    k: u8,
    Ghost(sk): Ghost<nat>,
) -> (r: dsum::CypherText)
    requires
        shared.belongs_to(sk, dsum::public_values(dpk@)),
        forall|j: int| 0 <= j < dpk@.len() ==> (#[trigger] dpk@[j]).wf(),
    ensures
        r.wf(),
        r@ == share_entry(sk, dsum::public_values(dpk@), k),
{
    let mut l = Label::from_text("Setup");
    let index = [k];
    l.aggregate(index.as_slice());
    assert(l@ =~= setup_label(k));
    let zero = Scalar::zero();
    dsum::encode_shared(&zero, shared, dpk, &l, Ghost(sk))
}

/// Creates the share `Ti` of a client, such that the shares of all clients
/// add up to zero.
/// - `dski`: private key of the decentralized sum
/// - `dpk` : public keys of all clients
pub fn t_gen(dski: &dsum::PrivateKey, dpk: &[dsum::PublicKey]) -> (r: TMat<dsum::CypherText>)
    requires
        dski.wf(),
        forall|j: int| 0 <= j < dpk@.len() ==> (#[trigger] dpk@[j]).wf(),
    ensures
        r.a.wf() && r.b.wf() && r.c.wf() && r.d.wf(),
        r@ == share_spec(dski@, dsum::public_values(dpk@)),
{
    let shared = dsum::share_with(dski, dpk);
    let a = t_entry(&shared, dpk, 0, Ghost(dski@));
    let b = t_entry(&shared, dpk, 1, Ghost(dski@));
    let c = t_entry(&shared, dpk, 2, Ghost(dski@));
    let d = t_entry(&shared, dpk, 3, Ghost(dski@));
    TMat::new(a, b, c, d)
}

/// The private key of a client whose vector `s` is given.
/// - `dski`: private key of the decentralized sum
/// - `dpk` : public keys of all clients
/// - `s`   : the two scalars of the client
pub fn setup_with(dski: &dsum::PrivateKey, dpk: &[dsum::PublicKey], s: DVec<Scalar>) -> (r: PrivateKey)
    requires
        dski.wf(),
        s.wf(),
        forall|j: int| 0 <= j < dpk@.len() ==> (#[trigger] dpk@[j]).wf(),
    ensures
        r.wf(),
        r.s == s,
        r.t@ == share_spec(dski@, dsum::public_values(dpk@)),
{
    PrivateKey { s, t: t_gen(dski, dpk) }
}

/// Returns the private key of a client, with a random vector `s`.
/// - `dski`: private key of the decentralized sum
/// - `dpk` : public keys of all clients
pub fn setup(dski: &dsum::PrivateKey, dpk: &[dsum::PublicKey]) -> (r: PrivateKey)
    requires
        dski.wf(),
        forall|j: int| 0 <= j < dpk@.len() ==> (#[trigger] dpk@[j]).wf(),
    ensures
        r.wf(),
        r.t@ == share_spec(dski@, dsum::public_values(dpk@)),
{
    let x = random_scalar();
    let y = random_scalar();
    setup_with(dski, dpk, DVec::new(x, y))
}

/// Computes the share of a client in the decryption key.
/// - `id`  : index of the client
/// - `ski` : private key
/// - `y`   : decryption function
pub fn dkey_gen_share(id: usize, ski: &PrivateKey, y: &[Scalar]) -> (r: PartialDecryptionKey)
    requires
        id < y@.len(),
        ski.wf(),
        scalars_wf(y@),
    ensures
        r.wf(),
        r@ == partial_key_spec(ski.s@, ski.t@, y@[id as int]@, scalars_encoding(y@)),
{
    let l = Label::from_scalars(y);
    let v = double_hash_to_curve_in_g2(l.as_bytes());
    let t = TMat::new(ski.t.a.scalar(), ski.t.b.scalar(), ski.t.c.scalar(), ski.t.d.scalar());
    let own = ski.s.scale(&y[id]).in_g2();
    let shared = t.apply_in_g2(&v);
    PartialDecryptionKey(own.add(&shared))
}

/// Combines the shares into the decryption key.
/// - `y`   : decryption function
/// - `pdk` : shares of all clients
pub fn key_comb(y: &[Scalar], pdk: &[PartialDecryptionKey]) -> (r: DecryptionKey)
    requires
        scalars_wf(y@),
        forall|i: int| 0 <= i < pdk@.len() ==> (#[trigger] pdk@[i]).wf(),
    ensures
        r.wf(),
        r.weights() == y@,
        r.d() == key_sum(share_values(pdk@)),
{
    let ghost ds = share_values(pdk@);
    let mut d = DVec::<G2Point>::identity();
    let mut i: usize = 0;
    while i < pdk.len()
        invariant
            i <= pdk.len(),
            ds == share_values(pdk@),
            d.wf(),
            forall|k: int| 0 <= k < pdk@.len() ==> (#[trigger] pdk@[k]).wf(),
            d@.x == fsum_from(0, i as nat, firsts(ds)),
            d@.y == fsum_from(0, i as nat, seconds(ds)),
        decreases pdk.len() - i,
    {
        d = d.add(&pdk[i].0);
        i += 1;
    }
    DecryptionKey { y: slice_to_vec(y), d }
}

/// Encrypts the contribution of a client under its key and a label.
/// - `xi`  : contribution
/// - `ski` : private key
/// - `l`   : label
pub fn encrypt(xi: &Scalar, ski: &PrivateKey, l: &Label) -> (r: CypherText)
    requires
        xi.wf(),
        ski.wf(),
    ensures
        r.wf(),
        r@ == cypher_spec(xi@, ski.s@, l@),
{
    let u = double_hash_to_curve_in_g1(l.as_bytes());
    let hidden = u.inner_product(&ski.s);
    let plain = G1Point::from_scalar(xi);
    CypherText(hidden.add(&plain))
}

/// Decrypts the ciphertexts of all clients with a decryption key.
/// - `c`  : ciphertexts, all under the label `l`
/// - `dk` : decryption key
/// - `l`  : label
pub fn decrypt(c: &[CypherText], dk: &DecryptionKey, l: &Label) -> (r: GtPoint)
    requires
        dk.wf(),
        forall|i: int| 0 <= i < c@.len() ==> (#[trigger] c@[i]).wf(),
    ensures
        r.wf(),
        r@ == decrypt_spec(cypher_values(c@), scalar_values(dk.weights()), dk.d(), l@),
{
    let u = double_hash_to_curve_in_g1(l.as_bytes());
    let ghost f = products(cypher_values(c@), scalar_values(dk.y@));
    let n = if c.len() <= dk.y.len() {
        c.len()
    } else {
        dk.y.len()
    };
    let mut acc = GtPoint::identity();
    let mut i: usize = 0;
    while i < n
        invariant
            i <= n,
            n <= c.len(),
            n <= dk.y.len(),
            dk.wf(),
            acc.wf(),
            f == products(cypher_values(c@), scalar_values(dk.y@)),
            forall|k: int| 0 <= k < c@.len() ==> (#[trigger] c@[k]).wf(),
            acc@ == fsum_from(0, i as nat, f),
        decreases n - i,
    {
        let yi = G2Point::from_scalar(&dk.y[i]);
        let e = pairing(&c[i].0, &yi);
        acc = acc.add(&e);
        i += 1;
    }
    let first = pairing(&u.x, &dk.d.x);
    let second = pairing(&u.y, &dk.d.y);
    let mask = first.add(&second);
    acc.sub(&mask)
}

/// The ciphertexts of a batch, without their labels.
pub open spec fn batch_cyphers(c: Seq<(CypherText, Label)>) -> Seq<CypherText> {
    Seq::new(c.len(), |i: int| c[i].0)
}

/// Checks that the ciphertexts of a batch were all made under one label,
/// and hands them out with that label. A batch that mixes labels is
/// refused.
/// - `c`:  list of ciphertexts along with their labels
pub fn check_labels(c: &[(CypherText, Label)]) -> (r: Result<(Vec<CypherText>, Label), Error>)
    requires
        c@.len() > 0,
    ensures
        r is Ok <==> forall|i: int| 0 <= i < c@.len() ==> (#[trigger] c@[i]).1@ == c@[0].1@,
        r matches Ok(batch) ==> batch.0@ == batch_cyphers(c@) && batch.1@ == c@[0].1@,
        r matches Err(e) ==> e == Error::PreconditionViolation,
{
    let mut out: Vec<CypherText> = Vec::new();
    let mut i: usize = 0;
    while i < c.len()
        invariant
            i <= c.len(),
            c@.len() > 0,
            out@.len() == i,
            forall|k: int| 0 <= k < i ==> out@[k] == (#[trigger] c@[k]).0,
            forall|k: int| 0 <= k < i ==> (#[trigger] c@[k]).1@ == c@[0].1@,
        decreases c.len() - i,
    {
        if !c[i].1.eq(&c[0].1) {
            return Err(Error::PreconditionViolation);
        }
        out.push(c[i].0);
        i += 1;
    }
    assert(out@ =~= batch_cyphers(c@));
    Ok((out, Label::from_bytes(c[0].1.as_bytes())))
}

/// Whether every ciphertext of a batch carries the label `label`.
pub open spec fn all_under(c: Seq<(CypherText, Label)>, label: Seq<u8>) -> bool {
    forall|i: int| 0 <= i < c.len() ==> (#[trigger] c[i]).1@ == label
}

/// Decrypts the ciphertexts of all clients, each of which comes with the
/// label under which it was made, with a decryption key. A ciphertext that
/// was made under another label than `l` is refused: nothing is decrypted.
/// - `c`  : ciphertexts along with their labels
/// - `dk` : decryption key
/// - `l`  : label
pub fn decrypt_labelled(
    c: &[(CypherText, Label)],
    dk: &DecryptionKey,
    l: &Label,
) -> (r: Result<GtPoint, Error>)
    requires
        dk.wf(),
        forall|i: int| 0 <= i < c@.len() ==> (#[trigger] c@[i]).0.wf(),
    ensures
        r is Ok <==> all_under(c@, l@),
        r matches Ok(p) ==> p.wf() && p@ == decrypt_spec(
            cypher_values(batch_cyphers(c@)),
            scalar_values(dk.weights()),
            dk.d(),
            l@,
        ),
        r matches Err(e) ==> e == Error::PreconditionViolation,
{
    let mut batch: Vec<CypherText> = Vec::new();
    let mut i: usize = 0;
    while i < c.len()
        invariant
            i <= c.len(),
            batch@.len() == i,
            forall|k: int| 0 <= k < c@.len() ==> (#[trigger] c@[k]).0.wf(),
            forall|k: int| 0 <= k < i ==> batch@[k] == (#[trigger] c@[k]).0,
            forall|k: int| 0 <= k < i ==> (#[trigger] c@[k]).1@ == l@,
        decreases c.len() - i,
    {
        if !c[i].1.eq(l) {
            return Err(Error::PreconditionViolation);
        }
        batch.push(c[i].0);
        i += 1;
    }
    assert(batch@ =~= batch_cyphers(c@));
    Ok(decrypt(batch.as_slice(), dk, l))
}

/// The shares of all clients, the key of client `i` being `sks[i]` times the
/// generator.
pub open spec fn shares(sks: Seq<nat>) -> Seq<TMat<nat>> {
    Seq::new(sks.len(), |i: int| share_spec(sks[i], sks))
}

/// The sum of a sequence of matrices, entry by entry.
pub open spec fn matrix_sum(ts: Seq<TMat<nat>>) -> TMat<nat> {
    TMat {
        a: fsum(ts.len(), |i: int| ts[i].a),
        b: fsum(ts.len(), |i: int| ts[i].b),
        c: fsum(ts.len(), |i: int| ts[i].c),
        d: fsum(ts.len(), |i: int| ts[i].d),
    }
}

/// The ciphertexts of all clients under one label.
pub open spec fn cyphers(xs: Seq<nat>, ss: Seq<DVec<nat>>, label: Seq<u8>) -> Seq<nat> {
    Seq::new(xs.len(), |i: int| cypher_spec(xs[i], ss[i], label))
}

/// The shares of all clients in the key for the weights `ys`.
pub open spec fn partial_keys(
    ss: Seq<DVec<nat>>,
    ts: Seq<TMat<nat>>,
    ys: Seq<nat>,
    weights: Seq<u8>,
) -> Seq<DVec<nat>> {
    Seq::new(ss.len(), |i: int| partial_key_spec(ss[i], ts[i], ys[i], weights))
}

/// One entry of the shares of all clients adds up to zero.
proof fn lemma_entries_sum_to_zero(sks: Seq<nat>, k: u8)
    ensures
        fsum(sks.len(), |i: int| share_entry(sks[i], sks, k)) == 0,
{
    let n = sks.len();
    let zeros = Seq::new(n, |i: int| 0nat);
    let label = setup_label(k);
    dsum::law_combine_recovers_sum(zeros, sks, label);
    lemma_fsum_zero(n, dsum::entries(zeros));
    lemma_fsum_ext(
        0,
        n,
        dsum::entries(dsum::encodings(zeros, sks, sks, label)),
        |i: int| share_entry(sks[i], sks, k),
    );
}

/// The shares of all clients add up to the zero matrix.
pub proof fn law_shares_sum_to_zero(sks: Seq<nat>)
    ensures
        matrix_sum(shares(sks)) == (TMat { a: 0nat, b: 0nat, c: 0nat, d: 0nat }),
{
    let n = sks.len();
    let ts = shares(sks);
    lemma_entries_sum_to_zero(sks, 0);
    lemma_entries_sum_to_zero(sks, 1);
    lemma_entries_sum_to_zero(sks, 2);
    lemma_entries_sum_to_zero(sks, 3);
    lemma_fsum_ext(0, n, |i: int| ts[i].a, |i: int| share_entry(sks[i], sks, 0));
    lemma_fsum_ext(0, n, |i: int| ts[i].b, |i: int| share_entry(sks[i], sks, 1));
    lemma_fsum_ext(0, n, |i: int| ts[i].c, |i: int| share_entry(sks[i], sks, 2));
    lemma_fsum_ext(0, n, |i: int| ts[i].d, |i: int| share_entry(sks[i], sks, 3));
}

/// The inner product of two vectors over the field is congruent to the one
/// over the integers.
proof fn lemma_inner(u: DVec<nat>, v: DVec<nat>)
    ensures
        congruent(inner(u, v) as int, (u.x * v.x + u.y * v.y) as int),
        inner(u, v) < modulus(),
{
    lemma_field_ops(u.x, v.x);
    lemma_field_ops(u.y, v.y);
    lemma_field_ops(fmul(u.x, v.x), fmul(u.y, v.y));
    lemma_congruent_add(
        fmul(u.x, v.x) as int,
        (u.x * v.x) as int,
        fmul(u.y, v.y) as int,
        (u.y * v.y) as int,
    );
    lemma_congruent_chain(
        inner(u, v) as int,
        (fmul(u.x, v.x) + fmul(u.y, v.y)) as int,
        (u.x * v.x + u.y * v.y) as int,
    );
}

/// One entry of the sum of the shares in a key: when the matching entries of
/// the matrices add up to zero, what is left is the sum of `s * y`.
proof fn lemma_key_entry(
    n: nat,
    part: spec_fn(int) -> nat,
    s: spec_fn(int) -> int,
    y: spec_fn(int) -> int,
    a: spec_fn(int) -> nat,
    b: spec_fn(int) -> nat,
    v: DVec<nat>,
)
    requires
        forall|i: int|
            0 <= i < n ==> #[trigger] part(i) == fadd(
                fmul(s(i) as nat, y(i) as nat),
                inner(DVec { x: a(i), y: b(i) }, v),
            ),
        forall|i: int| 0 <= i < n ==> #[trigger] s(i) >= 0 && y(i) >= 0,
        fsum(n, a) == 0,
        fsum(n, b) == 0,
    ensures
        congruent(fsum(n, part) as int, total(n, |i: int| s(i) * y(i))),
{
    let sy = |i: int| s(i) * y(i);
    let a_int = |i: int| a(i) as int;
    let b_int = |i: int| b(i) as int;
    let mixed = blend(v.x as int, v.y as int, a_int, b_int, sy);
    let parts = |i: int| part(i) as int;
    lemma_fsum_from(0, n, part);
    assert forall|i: int| 0 <= i < n implies congruent(#[trigger] parts(i), mixed(i)) by {
        let own = fmul(s(i) as nat, y(i) as nat);
        let row = DVec { x: a(i), y: b(i) };
        lemma_field_ops(s(i) as nat, y(i) as nat);
        lemma_field_ops(own, inner(row, v));
        lemma_inner(row, v);
        let av = (a(i) * v.x + b(i) * v.y) as int;
        lemma_congruent_add(own as int, s(i) * y(i), inner(row, v) as int, av);
        lemma_congruent_chain(
            parts(i),
            (own + inner(row, v)) as int,
            s(i) * y(i) + av,
        );
        assert(a(i) * v.x == v.x * a(i) && b(i) * v.y == v.y * b(i)) by (nonlinear_arith);
    }
    lemma_total_congruent(n, parts, mixed);
    lemma_total_blend(n, v.x as int, v.y as int, a_int, b_int, sy);
    // the entries of the matrices add up to a multiple of the order
    lemma_fsum_from(0, n, a);
    lemma_fsum_from(0, n, b);
    lemma_congruent_chain(total(n, a_int), 0, 0);
    lemma_congruent_chain(total(n, b_int), 0, 0);
    lemma_congruent_refl(v.x as int);
    lemma_congruent_refl(v.y as int);
    lemma_congruent_mul(v.x as int, v.x as int, total(n, a_int), 0);
    lemma_congruent_mul(v.y as int, v.y as int, total(n, b_int), 0);
    assert(v.x * 0 == 0 && v.y * 0 == 0);
    lemma_congruent_add(v.x * total(n, a_int), 0, v.y * total(n, b_int), 0);
    lemma_congruent_refl(total(n, sy));
    lemma_congruent_add(
        v.x * total(n, a_int) + v.y * total(n, b_int),
        0,
        total(n, sy),
        total(n, sy),
    );
    lemma_congruent_chain(total(n, parts), total(n, mixed), total(n, sy));
    lemma_congruent_chain(fsum(n, part) as int, total(n, parts), total(n, sy));
}

/// The products of the first entries of the vectors and the weights, by their
/// index.
pub open spec fn first_products(ss: Seq<DVec<nat>>, ys: Seq<nat>) -> spec_fn(int) -> int {
    |i: int| ss[i].x as int * ys[i] as int
}

/// The products of the second entries of the vectors and the weights, by
/// their index.
pub open spec fn second_products(ss: Seq<DVec<nat>>, ys: Seq<nat>) -> spec_fn(int) -> int {
    |i: int| ss[i].y as int * ys[i] as int
}

/// The products of the contributions and the weights, by their index.
pub open spec fn plain_products(xs: Seq<nat>, ys: Seq<nat>) -> spec_fn(int) -> int {
    |i: int| xs[i] as int * ys[i] as int
}

/// What hides the contributions in the weighted sum of the ciphertexts, and
/// what the key takes away again: `<u, sum of s * y>`.
#[verifier::opaque]
pub open spec fn hidden(ss: Seq<DVec<nat>>, ys: Seq<nat>, label: Seq<u8>) -> int {
    let u = hashed_pair_g1(label);
    u.x * total(ss.len(), first_products(ss, ys)) + u.y * total(ss.len(), second_products(ss, ys))
}

/// One weighted ciphertext is congruent to what hides it plus the product of
/// the contribution and the weight.
proof fn lemma_weighted_cypher(x: nat, y: nat, s: DVec<nat>, label: Seq<u8>)
    ensures
        congruent(
            fmul(cypher_spec(x, s, label), y) as int,
            hashed_pair_g1(label).x * (s.x as int * y as int) + hashed_pair_g1(label).y * (s.y as int
                * y as int) + x as int * y as int,
        ),
{
    let u = hashed_pair_g1(label);
    let c = cypher_spec(x, s, label);
    let (a, b, p, q, xi, yi) = (u.x as int, u.y as int, s.x as int, s.y as int, x as int, y as int);
    let us = a * p + b * q;
    lemma_field_ops(c, y);
    lemma_inner(u, s);
    lemma_field_ops(inner(u, s), x);
    lemma_congruent_refl(xi);
    lemma_congruent_add(inner(u, s) as int, us, xi, xi);
    lemma_congruent_chain(c as int, (inner(u, s) + x) as int, us + xi);
    lemma_congruent_refl(yi);
    lemma_congruent_mul(c as int, us + xi, yi, yi);
    assert((a * p + b * q + xi) * yi == a * (p * yi) + b * (q * yi) + xi * yi) by (nonlinear_arith);
    lemma_congruent_chain(fmul(c, y) as int, (c * y) as int, a * (p * yi) + b * (q * yi) + xi * yi);
}

/// The weighted sum of the ciphertexts is congruent to what hides the
/// contributions plus the inner product of contributions and weights.
proof fn lemma_weighted_sum(xs: Seq<nat>, ys: Seq<nat>, ss: Seq<DVec<nat>>, label: Seq<u8>)
    requires
        xs.len() == ys.len(),
        xs.len() == ss.len(),
    ensures
        congruent(
            dot(cyphers(xs, ss, label), ys) as int,
            hidden(ss, ys, label) + total(xs.len(), plain_products(xs, ys)),
        ),
{
    reveal(hidden);
    let n = xs.len();
    let u = hashed_pair_g1(label);
    let cs = cyphers(xs, ss, label);
    let w = products(cs, ys);
    let wi = |i: int| w(i) as int;
    let opened = blend(
        u.x as int,
        u.y as int,
        first_products(ss, ys),
        second_products(ss, ys),
        plain_products(xs, ys),
    );
    lemma_fsum_from(0, n, w);
    assert forall|i: int| 0 <= i < n implies congruent(#[trigger] wi(i), opened(i)) by {
        lemma_weighted_cypher(xs[i], ys[i], ss[i], label);
    }
    lemma_total_congruent(n, wi, opened);
    lemma_total_blend(
        n,
        u.x as int,
        u.y as int,
        first_products(ss, ys),
        second_products(ss, ys),
        plain_products(xs, ys),
    );
    lemma_congruent_chain(
        dot(cs, ys) as int,
        total(n, wi),
        hidden(ss, ys, label) + total(n, plain_products(xs, ys)),
    );
}

/// `<u, d>` of the combined key is congruent to what hides the contributions
/// in the weighted sum of the ciphertexts.
proof fn lemma_key_mask(
    ys: Seq<nat>,
    ss: Seq<DVec<nat>>,
    ts: Seq<TMat<nat>>,
    label: Seq<u8>,
    weights: Seq<u8>,
)
    requires
        ys.len() == ss.len(),
        ys.len() == ts.len(),
        matrix_sum(ts) == (TMat { a: 0nat, b: 0nat, c: 0nat, d: 0nat }),
    ensures
        congruent(
            inner(hashed_pair_g1(label), key_sum(partial_keys(ss, ts, ys, weights))) as int,
            hidden(ss, ys, label),
        ),
{
    reveal(hidden);
    let n = ss.len();
    let u = hashed_pair_g1(label);
    let v = hashed_pair_g2(weights);
    let parts = partial_keys(ss, ts, ys, weights);
    let d = key_sum(parts);
    let yi = |i: int| ys[i] as int;
    let s0 = |i: int| ss[i].x as int;
    let s1 = |i: int| ss[i].y as int;
    lemma_key_entry(n, firsts(parts), s0, yi, |i: int| ts[i].a, |i: int| ts[i].b, v);
    lemma_key_entry(n, seconds(parts), s1, yi, |i: int| ts[i].c, |i: int| ts[i].d, v);
    lemma_total_ext(n, |i: int| s0(i) * yi(i), first_products(ss, ys));
    lemma_total_ext(n, |i: int| s1(i) * yi(i), second_products(ss, ys));
    let t0 = total(n, first_products(ss, ys));
    let t1 = total(n, second_products(ss, ys));
    lemma_inner(u, d);
    lemma_congruent_refl(u.x as int);
    lemma_congruent_refl(u.y as int);
    lemma_congruent_mul(u.x as int, u.x as int, d.x as int, t0);
    lemma_congruent_mul(u.y as int, u.y as int, d.y as int, t1);
    lemma_congruent_add((u.x * d.x) as int, u.x * t0, (u.y * d.y) as int, u.y * t1);
    lemma_congruent_chain(inner(u, d) as int, (u.x * d.x + u.y * d.y) as int, u.x * t0 + u.y * t1);
}

/// Decryption is correct for any keys whose matrices add up to zero: it
/// gives the generator of the target group raised to the inner product of
/// the contributions and the weights.
pub proof fn lemma_decrypt_with_cancelling_shares(
    xs: Seq<nat>,
    ys: Seq<nat>,
    ss: Seq<DVec<nat>>,
    ts: Seq<TMat<nat>>,
    label: Seq<u8>,
    weights: Seq<u8>,
)
    requires
        xs.len() == ys.len(),
        xs.len() == ss.len(),
        xs.len() == ts.len(),
        matrix_sum(ts) == (TMat { a: 0nat, b: 0nat, c: 0nat, d: 0nat }),
    ensures
        decrypt_spec(
            cyphers(xs, ss, label),
            ys,
            key_sum(partial_keys(ss, ts, ys, weights)),
            label,
        ) == dot(xs, ys),
{
    let n = xs.len();
    lemma_weighted_sum(xs, ys, ss, label);
    lemma_key_mask(ys, ss, ts, label, weights);
    lemma_dot_total(xs, ys);
    lemma_total_ext(n, |j: int| (xs[j] * ys[j]) as int, plain_products(xs, ys));
    lemma_fsub_cancels(
        dot(cyphers(xs, ss, label), ys),
        inner(hashed_pair_g1(label), key_sum(partial_keys(ss, ts, ys, weights))),
        hidden(ss, ys, label),
        total(n, plain_products(xs, ys)),
        dot(xs, ys),
    );
}

/// The scheme is correct: when every client `i` encrypts `xs[i]` under its
/// vector `ss[i]` and gives its share of the key for the weights `ys`, the
/// shares of zero coming from the setup of all clients, decryption gives the
/// generator of the target group raised to the inner product of `xs` and
/// `ys`.
pub proof fn law_decrypt_recovers_inner_product(
    xs: Seq<nat>,
    ys: Seq<nat>,
    ss: Seq<DVec<nat>>,
    sks: Seq<nat>,
    label: Seq<u8>,
    weights: Seq<u8>,
)
    requires
        xs.len() == ys.len(),
        xs.len() == ss.len(),
        xs.len() == sks.len(),
    ensures
        decrypt_spec(
            cyphers(xs, ss, label),
            ys,
            key_sum(partial_keys(ss, shares(sks), ys, weights)),
            label,
        ) == dot(xs, ys),
{
    law_shares_sum_to_zero(sks);
    lemma_decrypt_with_cancelling_shares(xs, ys, ss, shares(sks), label, weights);
}

/// Contributions of zero decrypt to the neutral element, whatever the
/// weights.
pub proof fn law_zero_contributions(
    ys: Seq<nat>,
    ss: Seq<DVec<nat>>,
    sks: Seq<nat>,
    label: Seq<u8>,
    weights: Seq<u8>,
)
    requires
        ys.len() == ss.len(),
        ys.len() == sks.len(),
    ensures
        decrypt_spec(
            cyphers(Seq::new(ys.len(), |i: int| 0nat), ss, label),
            ys,
            key_sum(partial_keys(ss, shares(sks), ys, weights)),
            label,
        ) == 0,
{
    let zeros = Seq::new(ys.len(), |i: int| 0nat);
    law_decrypt_recovers_inner_product(zeros, ys, ss, sks, label, weights);
    assert forall|i: int| 0 <= i < ys.len() implies #[trigger] products(zeros, ys)(i) == 0 by {
        assert(0 * ys[i] == 0);
        vstd::arithmetic::div_mod::lemma_small_mod(0, modulus());
    }
    lemma_fsum_zero(ys.len(), products(zeros, ys));
}

} // verus!
