//! The decentralized sum: every client masks its contribution so that the
//! masks of all clients cancel when the ciphertexts are added up.

use crate::field::{fadd, fmul, fneg, modulus, Scalar};
use crate::g1::{g1_point, G1Point};
use crate::hash::{hash_to_scalar, hashed_scalar};
use crate::label::Label;
use crate::random::random_scalar;
use crate::sums::{
    congruent, fsum, fsum_from, lemma_congruent_add, lemma_congruent_chain, lemma_congruent_refl,
    lemma_congruent_small, lemma_field_ops, lemma_fsum_from, lemma_total_add,
    lemma_total_antisymmetric, lemma_total_congruent, lemma_total_ext, lemma_total_update, total,
};
use vstd::prelude::*;

verus! {

/// Whether `a` comes after `b` when byte strings are ordered byte by byte
/// from the first, a string coming after each of its proper prefixes.
pub open spec fn lex_greater(a: Seq<u8>, b: Seq<u8>) -> bool
    decreases a.len(),
{
    if a.len() == 0 {
        false
    } else if b.len() == 0 {
        true
    } else if a[0] != b[0] {
        a[0] > b[0]
    } else {
        lex_greater(a.drop_first(), b.drop_first())
    }
}

/// The order is total: of two distinct byte strings exactly one comes after
/// the other, and none comes after itself.
pub proof fn lemma_lex_total(a: Seq<u8>, b: Seq<u8>)
    ensures
        a == b ==> !lex_greater(a, b) && !lex_greater(b, a),
        a != b ==> (lex_greater(a, b) <==> !lex_greater(b, a)),
    decreases a.len(),
{
    if a.len() > 0 && b.len() > 0 {
        lemma_lex_total(a.drop_first(), b.drop_first());
        if a[0] == b[0] && a.drop_first() == b.drop_first() {
            assert(a =~= seq![a[0]] + a.drop_first());
            assert(b =~= seq![b[0]] + b.drop_first());
        }
    } else if a.len() == 0 && b.len() == 0 {
        assert(a =~= b);
    }
}

/// Whether `a` comes after `b` in the order of the compressed encodings.
pub fn is_greater(a: &[u8; 48], b: &[u8; 48]) -> (r: bool)
    ensures
        r == lex_greater(a@, b@),
{
    let mut i: usize = 0;
    assert(a@.skip(0) =~= a@ && b@.skip(0) =~= b@);
    while i < 48
        invariant
            i <= 48,
            lex_greater(a@, b@) == lex_greater(a@.skip(i as int), b@.skip(i as int)),
        decreases 48 - i,
    {
        proof {
            assert(a@.skip(i as int)[0] == a@[i as int]);
            assert(b@.skip(i as int)[0] == b@[i as int]);
            assert(a@.skip(i as int).drop_first() =~= a@.skip(i + 1));
            assert(b@.skip(i as int).drop_first() =~= b@.skip(i + 1));
        }
        if a[i] != b[i] {
            return a[i] > b[i];
        }
        i += 1;
    }
    false
}

/// A ciphertext of the decentralized sum: a masked scalar.
#[derive(Clone, Copy, Debug)]
pub struct CypherText(Scalar);

/// The private key of a client: a scalar.
#[derive(Clone, Copy, Debug)]
pub struct PrivateKey(Scalar);

/// The public key of a client: its private key times the generator of G1.
#[derive(Clone, Copy, Debug)]
pub struct PublicKey(G1Point);

/// The two keys of a client.
#[derive(Clone, Copy, Debug)]
pub struct KeyPair(pub PrivateKey, pub PublicKey);

impl View for CypherText {
    type V = nat;

    /// The masked scalar.
    closed spec fn view(&self) -> nat {
        self.0@
    }
}

impl CypherText {
    /// A ciphertext is well formed when its scalar is.
    pub closed spec fn wf(&self) -> bool {
        self.0.wf()
    }

    /// The masked scalar.
    pub fn scalar(&self) -> (r: Scalar)
        ensures
            r@ == self@,
            r.wf() == self.wf(),
    {
        self.0
    }
}

impl Default for CypherText {
    /// The ciphertext that holds zero.
    fn default() -> (r: CypherText)
        ensures
            r.wf(),
            r@ == 0,
    {
        CypherText(Scalar::zero())
    }
}

impl View for PrivateKey {
    type V = nat;

    /// The scalar of the key.
    closed spec fn view(&self) -> nat {
        self.0@
    }
}

impl PrivateKey {
    /// A private key is well formed when its scalar is.
    pub closed spec fn wf(&self) -> bool {
        self.0.wf()
    }

    /// The scalar of the key.
    pub fn scalar(&self) -> (r: Scalar)
        ensures
            r@ == self@,
            r.wf() == self.wf(),
    {
        self.0
    }
}

impl View for PublicKey {
    type V = nat;

    /// The exponent of the key to the generator.
    closed spec fn view(&self) -> nat {
        self.0@
    }
}

impl PublicKey {
    /// A public key is well formed when its point is.
    pub closed spec fn wf(&self) -> bool {
        self.0.wf()
    }

    /// The point of the key.
    pub fn point(&self) -> (r: G1Point)
        ensures
            r@ == self@,
            r.wf() == self.wf(),
    {
        self.0
    }
}

impl KeyPair {
    /// A key pair is well formed when the public key is the private key times
    /// the generator.
    pub open spec fn wf(&self) -> bool {
        &&& self.0.wf()
        &&& self.1.wf()
        &&& self.1@ == self.0@
    }
}

/// The exponents of a list of public keys.
pub open spec fn public_values(pks: Seq<PublicKey>) -> Seq<nat> {
    Seq::new(pks.len(), |j: int| pks[j]@)
}

/// The scalars of a list of ciphertexts.
pub open spec fn cypher_values(cs: Seq<CypherText>) -> Seq<nat> {
    Seq::new(cs.len(), |i: int| cs[i]@)
}

/// The mask that the client with the private key `sk` adds for the peer whose
/// public key has the exponent `pk`: nothing for its own key; else the hash
/// of the two public keys, the lesser first, of the secret that the two
/// clients share, and of the label, added when the peer's key comes after
/// the client's own and subtracted when it comes before.
pub open spec fn mask(label: Seq<u8>, sk: nat, pk: nat) -> nat {
    let own = g1_point(sk);
    let peer = g1_point(pk);
    let shared = g1_point(fmul(pk, sk));
    if peer == own {
        0
    } else if lex_greater(peer, own) {
        hashed_scalar(own, peer, shared, label)
    } else {
        fneg(hashed_scalar(peer, own, shared, label))
    }
}

/// The masks of one client, by the index of the peer.
pub open spec fn masks_of(label: Seq<u8>, sk: nat, pks: Seq<nat>) -> spec_fn(int) -> nat {
    |j: int| mask(label, sk, pks[j])
}

/// The ciphertext of `x`: `x` plus the masks for all the peers.
pub open spec fn encode_spec(x: nat, sk: nat, pks: Seq<nat>, label: Seq<u8>) -> nat {
    fsum_from(x, pks.len(), masks_of(label, sk, pks))
}

/// The entries of a sequence, by their index.
pub open spec fn entries(s: Seq<nat>) -> spec_fn(int) -> nat {
    |i: int| s[i]
}

/// The sum of the scalars in the field.
pub open spec fn combine_spec(cs: Seq<nat>) -> nat {
    fsum(cs.len(), entries(cs))
}

/// The ciphertexts of all clients: client `i` encodes `xs[i]` under its own
/// private key `sks[i]` and the public keys `pks`.
pub open spec fn encodings(xs: Seq<nat>, sks: Seq<nat>, pks: Seq<nat>, label: Seq<u8>) -> Seq<nat> {
    Seq::new(xs.len(), |i: int| encode_spec(xs[i], sks[i], pks, label))
}

/// Creates the private and public keys for a client.
pub fn client_setup() -> (r: KeyPair)
    ensures
        r.wf(),
{
    let t = random_scalar();
    key_pair_of(t)
}

/// The key pair whose private key is `t`.
pub fn key_pair_of(t: Scalar) -> (r: KeyPair)
    requires
        t.wf(),
    ensures
        r.wf(),
        r.0@ == t@,
{
    let pk = G1Point::from_scalar(&t);
    KeyPair(PrivateKey(t), PublicKey(pk))
}

/// The mask of a client for a peer, from the points that belong to them:
/// the client's own public key `own`, the peer's public key `pkj`, and the
/// secret `shared` that the two have in common.
fn mask_from(
    label: &[u8],
    own: &G1Point,
    pkj: &PublicKey,
    shared: &G1Point,
    Ghost(sk): Ghost<nat>,
) -> (r: Scalar)
    requires
        pkj.wf(),
        own.wf(),
        own@ == sk,
        shared.wf(),
        shared@ == fmul(pkj@, sk),
    ensures
        r.wf(),
        r@ == mask(label@, sk, pkj@),
{
    proof {
        own.lemma_encoding();
        pkj.0.lemma_encoding();
        shared.lemma_encoding();
    }
    if pkj.0.eq(own) {
        return Scalar::zero();
    }
    let own_bytes = own.to_compressed();
    let peer_bytes = pkj.0.to_compressed();
    if is_greater(&peer_bytes, &own_bytes) {
        hash_to_scalar(own, &pkj.0, shared, label)
    } else {
        let m = hash_to_scalar(&pkj.0, own, shared, label);
        m.neg()
    }
}

/// The mask of the client with the private key `ski` for the peer with the
/// public key `pkj`, under a label.
pub fn h(label: &[u8], ski: &PrivateKey, pkj: &PublicKey) -> (r: Scalar)
    requires
        ski.wf(),
        pkj.wf(),
    ensures
        r.wf(),
        r@ == mask(label@, ski@, pkj@),
{
    let own = G1Point::from_scalar(&ski.0);
    let shared = pkj.0.mul(&ski.0);
    mask_from(label, &own, pkj, &shared, Ghost(ski@))
}

/// What a client has in common with its peers: its own public key, and the
/// secret that it shares with each of them.
pub(crate) struct Shared {
    own: G1Point,
    secrets: Vec<G1Point>,
}

impl Shared {
    /// Whether these are the points of the client with the private key `sk`
    /// among the peers with the public keys `pks`.
    pub closed spec fn belongs_to(&self, sk: nat, pks: Seq<nat>) -> bool {
        &&& self.own.wf()
        &&& self.own@ == sk
        &&& self.secrets@.len() == pks.len()
        &&& forall|j: int|
            0 <= j < pks.len() ==> (#[trigger] self.secrets@[j]).wf() && self.secrets@[j]@ == fmul(
                pks[j],
                sk,
            )
    }
}

/// Computes what a client has in common with its peers.
pub(crate) fn share_with(ski: &PrivateKey, pk_list: &[PublicKey]) -> (r: Shared)
    requires
        ski.wf(),
        forall|j: int| 0 <= j < pk_list@.len() ==> (#[trigger] pk_list@[j]).wf(),
    ensures
        r.belongs_to(ski@, public_values(pk_list@)),
{
    let own = G1Point::from_scalar(&ski.0);
    let mut secrets: Vec<G1Point> = Vec::new();
    let mut j: usize = 0;
    while j < pk_list.len()
        invariant
            j <= pk_list.len(),
            ski.wf(),
            forall|k: int| 0 <= k < pk_list@.len() ==> (#[trigger] pk_list@[k]).wf(),
            secrets@.len() == j,
            forall|k: int|
                0 <= k < j ==> (#[trigger] secrets@[k]).wf() && secrets@[k]@ == fmul(
                    pk_list@[k]@,
                    ski@,
                ),
        decreases pk_list.len() - j,
    {
        secrets.push(pk_list[j].0.mul(&ski.0));
        j += 1;
    }
    Shared { own, secrets }
}

/// Encrypts `x` for a client under a label, with what the client has in
/// common with its peers.
pub(crate) fn encode_shared(
    x: &Scalar,
    shared: &Shared,
    pk_list: &[PublicKey],
    label: &Label,
    Ghost(sk): Ghost<nat>,
) -> (c: CypherText)
    requires
        x.wf(),
        shared.belongs_to(sk, public_values(pk_list@)),
        forall|j: int| 0 <= j < pk_list@.len() ==> (#[trigger] pk_list@[j]).wf(),
    ensures
        c.wf(),
        c@ == encode_spec(x@, sk, public_values(pk_list@), label@),
{
    let ghost pks = public_values(pk_list@);
    let ghost f = masks_of(label@, sk, pks);
    let mut acc = *x;
    let mut j: usize = 0;
    while j < pk_list.len()
        invariant
            j <= pk_list.len(),
            acc.wf(),
            pks == public_values(pk_list@),
            f == masks_of(label@, sk, pks),
            shared.belongs_to(sk, pks),
            forall|k: int| 0 <= k < pk_list@.len() ==> (#[trigger] pk_list@[k]).wf(),
            acc@ == fsum_from(x@, j as nat, f),
        decreases pk_list.len() - j,
    {
        assert(shared.secrets@[j as int].wf() && shared.secrets@[j as int]@ == fmul(pks[j as int], sk));
        let m = mask_from(label.as_bytes(), &shared.own, &pk_list[j], &shared.secrets[j], Ghost(sk));
        acc = acc.add(&m);
        j += 1;
    }
    CypherText(acc)
}

/// Encrypts `x` for the client with the private key `ski`, under the public
/// keys of all clients and a label.
pub fn encode(x: &Scalar, ski: &PrivateKey, pk_list: &[PublicKey], label: &Label) -> (c: CypherText)
    requires
        x.wf(),
        ski.wf(),
        forall|j: int| 0 <= j < pk_list@.len() ==> (#[trigger] pk_list@[j]).wf(),
    ensures
        c.wf(),
        c@ == encode_spec(x@, ski@, public_values(pk_list@), label@),
{
    let shared = share_with(ski, pk_list);
    encode_shared(x, &shared, pk_list, label, Ghost(ski@))
}

/// Adds up the ciphertexts of all clients.
pub fn combine(c: &[CypherText]) -> (r: Scalar)
    requires
        forall|i: int| 0 <= i < c@.len() ==> (#[trigger] c@[i]).wf(),
    ensures
        r.wf(),
        r@ == combine_spec(cypher_values(c@)),
{
    let ghost f = entries(cypher_values(c@));
    let mut acc = Scalar::zero();
    let mut i: usize = 0;
    while i < c.len()
        invariant
            i <= c.len(),
            acc.wf(),
            f == entries(cypher_values(c@)),
            forall|k: int| 0 <= k < c@.len() ==> (#[trigger] c@[k]).wf(),
            acc@ == fsum_from(0, i as nat, f),
        decreases c.len() - i,
    {
        acc = acc.add(&c[i].0);
        i += 1;
    }
    acc
}

/// The masks of two clients for each other cancel.
pub proof fn lemma_masks_cancel(label: Seq<u8>, a: nat, b: nat)
    ensures
        congruent((mask(label, a, b) + mask(label, b, a)) as int, 0),
{
    let pa = g1_point(a);
    let pb = g1_point(b);
    assert(fmul(a, b) == fmul(b, a)) by {
        vstd::arithmetic::mul::lemma_mul_is_commutative(a as int, b as int);
    }
    if pa == pb {
        lemma_congruent_refl(0);
    } else {
        lemma_lex_total(pa, pb);
        let shared = g1_point(fmul(a, b));
        let (first, second) = if lex_greater(pb, pa) {
            (pa, pb)
        } else {
            (pb, pa)
        };
        let v = hashed_scalar(first, second, shared, label);
        lemma_field_ops(v, v);
        lemma_congruent_refl(v as int);
        lemma_congruent_add(v as int, v as int, fneg(v) as int, -(v as int));
        assert(mask(label, a, b) + mask(label, b, a) == v + fneg(v));
    }
}

/// A ciphertext is congruent to its contribution plus the integer sum of
/// its masks.
proof fn lemma_encode_total(x: nat, sk: nat, pks: Seq<nat>, label: Seq<u8>)
    ensures
        congruent(
            encode_spec(x, sk, pks, label) as int,
            x + total(pks.len(), |j: int| mask(label, sk, pks[j]) as int),
        ),
{
    let f = masks_of(label, sk, pks);
    lemma_fsum_from(x, pks.len(), f);
    lemma_total_ext(pks.len(), |j: int| f(j) as int, |j: int| mask(label, sk, pks[j]) as int);
}

/// The sum of a sequence of scalars is congruent to its integer sum.
proof fn lemma_combine_total(cs: Seq<nat>)
    ensures
        congruent(combine_spec(cs) as int, total(cs.len(), |i: int| cs[i] as int)),
        combine_spec(cs) < modulus(),
{
    let f = entries(cs);
    lemma_fsum_from(0, cs.len(), f);
    lemma_total_ext(cs.len(), |i: int| f(i) as int, |i: int| cs[i] as int);
}

/// The decentralized sum is correct: when every client encodes its
/// contribution under its own private key and the public keys of all, the
/// key of client `i` being `sks[i]` times the generator, the ciphertexts add
/// up to the sum of the contributions.
pub proof fn law_combine_recovers_sum(xs: Seq<nat>, sks: Seq<nat>, label: Seq<u8>)
    requires
        xs.len() == sks.len(),
    ensures
        combine_spec(encodings(xs, sks, sks, label)) == combine_spec(xs),
{
    let n = xs.len();
    let cs = encodings(xs, sks, sks, label);
    let pair = |i: int, j: int| mask(label, sks[i], sks[j]) as int;
    let plain = |i: int| xs[i] as int;
    let masks = |i: int| total(n, |j: int| pair(i, j));
    let opened = |i: int| plain(i) + masks(i);
    let sealed = |i: int| cs[i] as int;
    lemma_combine_total(cs);
    lemma_combine_total(xs);
    assert forall|i: int| 0 <= i < n implies congruent(#[trigger] sealed(i), opened(i)) by {
        lemma_encode_total(xs[i], sks[i], sks, label);
        lemma_total_ext(n, |j: int| mask(label, sks[i], sks[j]) as int, |j: int| pair(i, j));
    }
    lemma_total_congruent(n, sealed, opened);
    lemma_total_add(n, plain, masks);
    lemma_total_ext(n, opened, |i: int| plain(i) + masks(i));
    assert forall|i: int, j: int| 0 <= i < n && 0 <= j < n implies congruent(
        #[trigger] pair(i, j) + pair(j, i),
        0,
    ) by {
        lemma_masks_cancel(label, sks[i], sks[j]);
    }
    assert forall|i: int| 0 <= i < n implies congruent(#[trigger] pair(i, i), 0) by {
        lemma_congruent_refl(0);
    }
    lemma_total_antisymmetric(n, pair);
    lemma_total_ext(n, masks, |i: int| total(n, |j: int| pair(i, j)));
    // sealed = plain + masks, and the masks vanish
    lemma_congruent_refl(total(n, plain));
    lemma_congruent_add(total(n, plain), total(n, plain), total(n, masks), 0);
    lemma_congruent_chain(total(n, sealed), total(n, opened), total(n, plain));
    lemma_congruent_chain(combine_spec(cs) as int, total(n, sealed), total(n, plain));
    lemma_congruent_chain(combine_spec(xs) as int, total(n, plain), combine_spec(xs) as int);
    lemma_congruent_chain(combine_spec(cs) as int, total(n, plain), combine_spec(xs) as int);
    lemma_congruent_small(combine_spec(cs) as int, combine_spec(xs) as int);
}

/// The masks hide nothing of a change: whatever the keys, adding `delta` to
/// the contribution of one client adds `delta` to the combined sum.
pub proof fn law_change_passes_through(
    xs: Seq<nat>,
    sks: Seq<nat>,
    pks: Seq<nat>,
    label: Seq<u8>,
    at: int,
    delta: nat,
)
    requires
        xs.len() == sks.len(),
        0 <= at < xs.len(),
    ensures
        combine_spec(encodings(xs.update(at, fadd(xs[at], delta)), sks, pks, label)) == fadd(
            combine_spec(encodings(xs, sks, pks, label)),
            delta,
        ),
{
    let n = xs.len();
    let ys = xs.update(at, fadd(xs[at], delta));
    let before = encodings(xs, sks, pks, label);
    let after = encodings(ys, sks, pks, label);
    let f = |i: int| before[i] as int;
    let g = |i: int| after[i] as int;
    let shifted = |i: int| if i == at { f(i) + delta } else { f(i) };
    lemma_combine_total(before);
    lemma_combine_total(after);
    assert forall|i: int| 0 <= i < n implies congruent(#[trigger] g(i), shifted(i)) by {
        if i == at {
            let m = total(pks.len(), |j: int| mask(label, sks[at], pks[j]) as int);
            lemma_encode_total(xs[at], sks[at], pks, label);
            lemma_encode_total(ys[at], sks[at], pks, label);
            lemma_field_ops(xs[at], delta);
            lemma_congruent_refl(m);
            lemma_congruent_add(ys[at] as int, (xs[at] + delta) as int, m, m);
            lemma_congruent_chain(g(i), ys[at] + m, xs[at] + delta + m);
            lemma_congruent_chain(f(i), xs[at] + m, f(i));
            lemma_congruent_refl(delta as int);
            lemma_congruent_add(xs[at] + m, f(i), delta as int, delta as int);
            lemma_congruent_chain(g(i), xs[at] + m + delta, f(i) + delta);
        } else {
            lemma_congruent_refl(g(i));
        }
    }
    lemma_total_congruent(n, g, shifted);
    lemma_total_update(n, f, shifted, at, delta as int);
    let sum = combine_spec(before);
    lemma_field_ops(sum, delta);
    lemma_congruent_refl(delta as int);
    lemma_congruent_add(sum as int, total(n, f), delta as int, delta as int);
    lemma_congruent_chain(combine_spec(after) as int, total(n, g), total(n, f) + delta);
    lemma_congruent_chain(fadd(sum, delta) as int, (sum + delta) as int, total(n, f) + delta);
    lemma_congruent_chain(total(n, f) + delta, fadd(sum, delta) as int, total(n, f) + delta);
    lemma_congruent_chain(combine_spec(after) as int, total(n, f) + delta, fadd(sum, delta) as int);
    lemma_congruent_small(combine_spec(after) as int, fadd(sum, delta) as int);
}

} // verus!
