//! The kangaroo solver in the target group: it recovers `x` below a bound
//! from `x` times the generator, with a table of distinguished points that
//! was built beforehand.
//!
//! A walk hops from point to point; the hop from a point is the jump that
//! the fingerprint of the point selects. A point is distinguished when the
//! low bits of its fingerprint are zero. The table holds, for distinguished
//! points that tame walks reached, the exponent at which they were reached.
//! A wild walk starts from the unknown point and solves the problem when it
//! lands on a point of the table.

use crate::dlp::signal::{request_stop, stop_requested};
use crate::dlp::table::{occurs, Table};
use crate::error::Error;
use crate::field::{fadd, fsub, modulus, scalar_values, scalars_wf, Scalar};
use crate::gt::{gt_point, GtPoint};
use crate::hash::{fingerprint_gt, sha256_digest};
use crate::random::{random_below, random_u64};
use crate::sums::{
    congruent, lemma_congruent_add, lemma_congruent_chain, lemma_congruent_refl,
    lemma_congruent_small, lemma_field_ops,
};
use std::sync::atomic::AtomicBool;
use vstd::bytes::{spec_u64_from_le_bytes, u64_from_le_bytes};
use vstd::prelude::*;
use vstd::slice::slice_subrange;

verus! {

/// The number of bits of `q`, less one; zero for zero.
pub open spec fn floor_log2(q: nat) -> nat
    decreases q,
{
    if q <= 1 {
        0
    } else {
        1 + floor_log2(q / 2)
    }
}

/// The bits of a fingerprint that a walk looks at: its first eight bytes,
/// read as an integer, least significant byte first.
pub open spec fn low_bits(digest: Seq<u8>) -> u64 {
    spec_u64_from_le_bytes(digest.subrange(0, 8))
}

/// The integer whose `bits` low bits are set, for less than 64 bits.
pub open spec fn low_mask(bits: u32) -> u64 {
    ((1u64 << bits) - 1) as u64
}

/// Whether the `d` low bits of a fingerprint are zero.
pub open spec fn is_distinguished(digest: Seq<u8>, d: u32) -> bool {
    low_bits(digest) & low_mask(d) == 0
}

/// The index of the jump that a fingerprint selects among `k` jumps: its
/// `bits` low bits, reduced below `k`.
pub open spec fn jump_index(digest: Seq<u8>, bits: u32, k: nat) -> int {
    ((low_bits(digest) & low_mask(bits)) % (k as u64)) as int
}

/// The number of low bits that make a point distinguished: the density of
/// the distinguished points, one in two to the power of this number, is to
/// match `t` points in an interval of length `l`.
pub open spec fn distinguishing_bits_spec(l: u64, t: u64) -> nat {
    if t == 0 {
        0
    } else {
        floor_log2((l / t) as nat)
    }
}

/// The number of bits that it takes to tell `k` jumps apart, 63 at most.
pub open spec fn index_bits_spec(k: nat) -> nat {
    if k <= 1 {
        0
    } else if floor_log2((k - 1) as nat) >= 63 {
        63
    } else {
        floor_log2((k - 1) as nat) + 1
    }
}

/// The number of bits of `q`, less one; zero for zero.
pub fn log2_floor(q: u64) -> (r: u32)
    ensures
        r == floor_log2(q as nat),
        r <= 63,
{
    let mut rest = q;
    let mut d: u32 = 0;
    assert(rest <= (u64::MAX >> 0u32)) by (bit_vector);
    while rest > 1
        invariant
            d <= 63,
            rest <= (u64::MAX >> d),
            floor_log2(q as nat) == d + floor_log2(rest as nat),
        decreases rest,
    {
        assert(d < 63 && rest / 2 <= (u64::MAX >> ((d + 1) as u32))) by (bit_vector)
            requires
                rest > 1,
                d <= 63,
                rest <= (u64::MAX >> d),
        ;
        rest = rest / 2;
        d += 1;
    }
    d
}

/// The number of low bits that make a point distinguished.
pub fn distinguishing_bits(l: u64, t: u64) -> (r: u32)
    ensures
        r == distinguishing_bits_spec(l, t),
        r <= 63,
{
    if t == 0 {
        0
    } else {
        log2_floor(l / t)
    }
}

/// The number of bits that it takes to tell `k` jumps apart, 63 at most.
pub fn index_bits(k: usize) -> (r: u32)
    ensures
        r == index_bits_spec(k as nat),
        r <= 63,
{
    if k <= 1 {
        0
    } else {
        let b = log2_floor((k - 1) as u64);
        if b >= 63 {
            63
        } else {
            b + 1
        }
    }
}

/// The first eight bytes of a fingerprint, read as an integer.
fn low_bits_of(digest: &[u8; 32]) -> (r: u64)
    ensures
        r == low_bits(digest@),
{
    u64_from_le_bytes(slice_subrange(digest.as_slice(), 0, 8))
}

/// Whether the `d` low bits of a fingerprint are zero.
pub fn distinguished(digest: &[u8; 32], d: u32) -> (r: bool)
    requires
        d <= 63,
    ensures
        r == is_distinguished(digest@, d),
{
    let low = low_bits_of(digest);
    assert((1u64 << d) >= 1) by (bit_vector)
        requires
            d <= 63,
    ;
    let mask: u64 = (1u64 << d) - 1;
    (low & mask) == 0
}

/// The index of the jump that a fingerprint selects among `k` jumps.
pub fn select_jump(digest: &[u8; 32], bits: u32, k: usize) -> (r: usize)
    requires
        bits <= 63,
        k > 0,
    ensures
        r == jump_index(digest@, bits, k as nat),
        r < k,
{
    let low = low_bits_of(digest);
    assert((1u64 << bits) >= 1) by (bit_vector)
        requires
            bits <= 63,
    ;
    let mask: u64 = (1u64 << bits) - 1;
    ((low & mask) % (k as u64)) as usize
}

/// The fingerprint of the generator raised to `e`.
pub open spec fn fingerprint_of(e: nat) -> Seq<u8> {
    sha256_digest(gt_point(e))
}

/// The jump that a walk takes from the point with the exponent `e`.
pub open spec fn jump_at(e: nat, jumps: Seq<nat>, bits: u32) -> nat {
    jumps[jump_index(fingerprint_of(e), bits, jumps.len())]
}

/// What a walk from the exponent `e` has added to `init` after `i` hops.
pub open spec fn accumulated(init: nat, e: nat, jumps: Seq<nat>, bits: u32, i: nat) -> nat
    decreases i,
{
    if i == 0 {
        init
    } else {
        fadd(
            accumulated(init, e, jumps, bits, (i - 1) as nat),
            jump_at(accumulated(e, e, jumps, bits, (i - 1) as nat), jumps, bits),
        )
    }
}

/// The exponent of the point that a walk from the exponent `e` stands on
/// after `i` hops.
pub open spec fn position(e: nat, jumps: Seq<nat>, bits: u32, i: nat) -> nat {
    accumulated(e, e, jumps, bits, i)
}

/// Whether the walk from `e` stands on a distinguished point after `i` hops.
pub open spec fn lands(e: nat, jumps: Seq<nat>, bits: u32, d: u32, i: nat) -> bool {
    is_distinguished(fingerprint_of(position(e, jumps, bits, i)), d)
}

/// Whether every exponent under a fingerprint of the table is that of the
/// point with this fingerprint.
pub open spec fn table_sound(t: Map<Seq<u8>, Scalar>) -> bool {
    forall|k: Seq<u8>| #[trigger] t.contains_key(k) ==> t[k].wf() && k == fingerprint_of(t[k]@)
}

/// Whether the wild walk that starts `b` beyond the unknown exponent `h`
/// solves the problem after `i` hops: it stands on a distinguished point of
/// the table, and the exponent that the table holds for it, a well-formed
/// scalar, less what the walk has put between itself and `h`, is `h`.
pub open spec fn solves(
    t: Map<Seq<u8>, Scalar>,
    h: nat,
    b: nat,
    jumps: Seq<nat>,
    bits: u32,
    d: u32,
    i: nat,
) -> bool {
    let start = fadd(h, b);
    let mark = fingerprint_of(position(start, jumps, bits, i));
    &&& lands(start, jumps, bits, d, i)
    &&& t.contains_key(mark)
    &&& t[mark].wf()
    &&& fsub(t[mark]@, accumulated(b, start, jumps, bits, i)) == h
}

/// Whether the walk from `e` stands on its first distinguished point after
/// `i` hops.
pub open spec fn stops_at(e: nat, jumps: Seq<nat>, bits: u32, d: u32, i: nat) -> bool {
    lands(e, jumps, bits, d, i) && forall|j: nat| j < i ==> !lands(e, jumps, bits, d, j)
}

/// Whether the wild walk that starts `b` beyond the unknown exponent `h`
/// solves the problem on its first distinguished point, within `w` hops.
pub open spec fn meets(
    t: Map<Seq<u8>, Scalar>,
    h: nat,
    b: nat,
    jumps: Seq<nat>,
    bits: u32,
    d: u32,
    w: nat,
) -> bool {
    exists|i: nat|
        i <= w && #[trigger] stops_at(fadd(h, b), jumps, bits, d, i) && solves(
            t,
            h,
            b,
            jumps,
            bits,
            d,
            i,
        )
}

/// The exponents of a sequence of points of the target group.
pub open spec fn point_values(s: Seq<GtPoint>) -> Seq<nat> {
    Seq::new(s.len(), |i: int| s[i]@)
}

/// Whether every point of a sequence is well formed.
pub open spec fn points_wf(s: Seq<GtPoint>) -> bool {
    forall|i: int| 0 <= i < s.len() ==> (#[trigger] s[i]).wf()
}

/// The points of the jumps: the generator raised to each of them.
pub fn jump_points(jumps: &[Scalar]) -> (r: Vec<GtPoint>)
    requires
        scalars_wf(jumps@),
    ensures
        points_wf(r@),
        point_values(r@) == scalar_values(jumps@),
{
    let mut points: Vec<GtPoint> = Vec::new();
    let mut i: usize = 0;
    while i < jumps.len()
        invariant
            i <= jumps.len(),
            scalars_wf(jumps@),
            points_wf(points@),
            points@.len() == i,
            forall|k: int| 0 <= k < i ==> (#[trigger] points@[k])@ == jumps@[k]@,
        decreases jumps.len() - i,
    {
        points.push(GtPoint::from_scalar(&jumps[i]));
        i += 1;
    }
    assert(point_values(points@) =~= scalar_values(jumps@));
    points
}

/// A distinguished point that a tame walk reached.
#[derive(Clone, Copy, Debug)]
pub struct Landing {
    /// The fingerprint of the point.
    pub mark: [u8; 32],
    /// The exponent of the point.
    pub reached: Scalar,
    /// The number of hops that it took.
    pub hops: usize,
}

/// A tame walk: from the generator raised to `start`, up to `w` hops, until
/// it stands on a distinguished point.
pub fn tame_walk(
    start: &Scalar,
    jumps: &[Scalar],
    points: &[GtPoint],
    bits: u32,
    d: u32,
    w: usize,
) -> (r: Option<Landing>)
    requires
        start.wf(),
        jumps@.len() > 0,
        scalars_wf(jumps@),
        points_wf(points@),
        point_values(points@) == scalar_values(jumps@),
        bits <= 63,
        d <= 63,
    ensures
        r matches Some(l) ==> {
            &&& l.hops <= w
            &&& l.reached.wf()
            &&& l.reached@ == position(start@, scalar_values(jumps@), bits, l.hops as nat)
            &&& l.mark@ == fingerprint_of(l.reached@)
            &&& lands(start@, scalar_values(jumps@), bits, d, l.hops as nat)
            &&& forall|j: nat| j < l.hops ==> !lands(start@, scalar_values(jumps@), bits, d, j)
        },
        r is None ==> forall|j: nat| j <= w ==> !lands(start@, scalar_values(jumps@), bits, d, j),
{
    let ghost js = scalar_values(jumps@);
    let mut reached = *start;
    let mut point = GtPoint::from_scalar(start);
    let mut i: usize = 0;
    loop
        invariant
            i <= w,
            start.wf(),
            jumps@.len() > 0,
            scalars_wf(jumps@),
            points_wf(points@),
            point_values(points@) == scalar_values(jumps@),
            js == scalar_values(jumps@),
            bits <= 63,
            d <= 63,
            reached.wf(),
            point.wf(),
            point@ == reached@,
            reached@ == position(start@, js, bits, i as nat),
            forall|j: nat| j < i ==> !lands(start@, js, bits, d, j),
        decreases w - i,
    {
        proof {
            point.lemma_encoding();
        }
        let mark = fingerprint_gt(&point);
        if distinguished(&mark, d) {
            return Some(Landing { mark, reached, hops: i });
        }
        if i == w {
            return None;
        }
        let k = select_jump(&mark, bits, jumps.len());
        assert(points@[k as int]@ == point_values(points@)[k as int]);
        assert(jumps@[k as int]@ == js[k as int]);
        assert(points@.len() == jumps@.len()) by {
            assert(point_values(points@).len() == points@.len());
        }
        reached = reached.add(&jumps[k]);
        point = point.add(&points[k]);
        i += 1;
    }
}

/// A wild walk: from the point `h` moved by `b`, up to `w` hops, until it
/// stands on a distinguished point. Where the table holds this point, the
/// exponent of `h` follows; it is checked against `h` before it is handed
/// out. Where a signal is given, the walk looks at it before every hop and
/// gives up once a stop is requested.
pub fn wild_walk(
    table: &Table<Scalar>,
    jumps: &[Scalar],
    points: &[GtPoint],
    h: &GtPoint,
    b: &Scalar,
    bits: u32,
    d: u32,
    w: usize,
    signal: Option<&AtomicBool>,
) -> (r: Option<Scalar>)
    requires
        table.wf(),
        h.wf(),
        b.wf(),
        jumps@.len() > 0,
        scalars_wf(jumps@),
        points_wf(points@),
        point_values(points@) == scalar_values(jumps@),
        bits <= 63,
        d <= 63,
    ensures
        r matches Some(x) ==> {
            &&& x.wf()
            &&& x@ == h@
            &&& meets(table@, h@, b@, scalar_values(jumps@), bits, d, w as nat)
        },
        r is None && signal is None ==> !meets(
            table@,
            h@,
            b@,
            scalar_values(jumps@),
            bits,
            d,
            w as nat,
        ),
{
    let ghost js = scalar_values(jumps@);
    let ghost start = fadd(h@, b@);
    let mut offset = *b;
    let shift = GtPoint::from_scalar(b);
    let mut point = h.add(&shift);
    let mut i: usize = 0;
    loop
        invariant
            i <= w,
            table.wf(),
            h.wf(),
            b.wf(),
            jumps@.len() > 0,
            scalars_wf(jumps@),
            points_wf(points@),
            point_values(points@) == scalar_values(jumps@),
            js == scalar_values(jumps@),
            start == fadd(h@, b@),
            bits <= 63,
            d <= 63,
            offset.wf(),
            point.wf(),
            point@ == position(start, js, bits, i as nat),
            offset@ == accumulated(b@, start, js, bits, i as nat),
            forall|j: nat| j < i ==> !lands(start, js, bits, d, j),
        decreases w - i,
    {
        match signal {
            Some(s) => {
                if stop_requested(s) {
                    return None;
                }
            },
            None => {},
        }
        proof {
            point.lemma_encoding();
            h.lemma_encoding();
        }
        let mark = fingerprint_gt(&point);
        if distinguished(&mark, d) {
            assert(stops_at(start, js, bits, d, i as nat));
            let found = match table.get(&mark) {
                Some(t) => {
                    if scalar_is_canonical(&t) {
                        let x = t.sub(&offset);
                        let check = GtPoint::from_scalar(&x);
                        if check.eq(h) {
                            Some(x)
                        } else {
                            None
                        }
                    } else {
                        None
                    }
                },
                None => None,
            };
            proof {
                if found is None {
                    assert(!solves(table@, h@, b@, js, bits, d, i as nat));
                    assert forall|k: nat| k <= w && #[trigger] stops_at(start, js, bits, d, k) implies !solves(
                        table@,
                        h@,
                        b@,
                        js,
                        bits,
                        d,
                        k,
                    ) by {
                        if k < i {
                            assert(!lands(start, js, bits, d, k));
                        } else if k > i {
                            assert(lands(start, js, bits, d, i as nat));
                        }
                    }
                } else {
                    assert(solves(table@, h@, b@, js, bits, d, i as nat));
                }
            }
            return found;
        }
        if i == w {
            return None;
        }
        let k = select_jump(&mark, bits, jumps.len());
        assert(points@[k as int]@ == point_values(points@)[k as int]);
        assert(jumps@[k as int]@ == js[k as int]);
        assert(points@.len() == jumps@.len()) by {
            assert(point_values(points@).len() == points@.len());
        }
        offset = offset.add(&jumps[k]);
        point = point.add(&points[k]);
        i += 1;
    }
}

/// Whether the encoding of a scalar is canonical.
fn scalar_is_canonical(s: &Scalar) -> (r: bool)
    ensures
        r == s.wf(),
{
    let bytes = s.to_bytes();
    Scalar::from_bytes(&bytes).is_some()
}

/// The number of rounds after which a search gives up.
pub const MAX_ROUNDS: usize = 32;

/// The jump that the raw random number `raw` gives for an interval of length
/// `l`: a scalar from one up to, but not including, `l`.
pub fn jump_from(raw: u64, l: u64) -> (r: Scalar)
    requires
        l >= 2,
    ensures
        r.wf(),
        r@ == 1 + raw % ((l - 1) as u64),
        1 <= r@ < l,
{
    Scalar::from_u64(raw % (l - 1) + 1)
}

/// Draws `k` jumps for an interval of length `l`, each from one up to, but
/// not including, `l`. An interval that leaves no room for a jump, or no
/// jump at all, is refused.
pub fn gen_jumps(l: u64, k: usize) -> (r: Result<Vec<Scalar>, Error>)
    ensures
        r is Ok <==> l >= 2 && k > 0,
        r matches Ok(jumps) ==> {
            &&& jumps@.len() == k
            &&& scalars_wf(jumps@)
            &&& forall|i: int| 0 <= i < k ==> 1 <= (#[trigger] jumps@[i])@ < l
        },
        r matches Err(e) ==> e == Error::PreconditionViolation,
{
    if l < 2 || k == 0 {
        return Err(Error::PreconditionViolation);
    }
    let mut jumps: Vec<Scalar> = Vec::new();
    let mut i: usize = 0;
    while i < k
        invariant
            i <= k,
            l >= 2,
            jumps@.len() == i,
            scalars_wf(jumps@),
            forall|j: int| 0 <= j < i ==> 1 <= (#[trigger] jumps@[j])@ < l,
        decreases k - i,
    {
        jumps.push(jump_from(random_u64(), l));
        i += 1;
    }
    Ok(jumps)
}

/// Whether `l` is what the tame walk from `start` gives.
pub open spec fn is_landing(start: nat, l: Landing, jumps: Seq<nat>, bits: u32, d: u32, w: nat) -> bool {
    &&& l.hops <= w
    &&& l.reached.wf()
    &&& l.reached@ == position(start, jumps, bits, l.hops as nat)
    &&& l.mark@ == fingerprint_of(l.reached@)
    &&& lands(start, jumps, bits, d, l.hops as nat)
    &&& forall|j: nat| j < l.hops ==> !lands(start, jumps, bits, d, j)
}

/// Whether `r` is what the tame walk from `start` gives: its landing, or
/// nothing when it stands on no distinguished point within `w` hops.
pub open spec fn is_walk_result(
    start: nat,
    r: Option<Landing>,
    jumps: Seq<nat>,
    bits: u32,
    d: u32,
    w: nat,
) -> bool {
    match r {
        Some(l) => is_landing(start, l, jumps, bits, d, w),
        None => forall|j: nat| j <= w ==> !lands(start, jumps, bits, d, j),
    }
}

/// The tame walks from all the starts, one result for each start.
pub fn tame_walks(
    starts: &[Scalar],
    jumps: &[Scalar],
    points: &[GtPoint],
    bits: u32,
    d: u32,
    w: usize,
) -> (r: Vec<Option<Landing>>)
    requires
        scalars_wf(starts@),
        jumps@.len() > 0,
        scalars_wf(jumps@),
        points_wf(points@),
        point_values(points@) == scalar_values(jumps@),
        bits <= 63,
        d <= 63,
    ensures
        r@.len() == starts@.len(),
        forall|i: int|
            0 <= i < r@.len() ==> is_walk_result(
                starts@[i]@,
                #[trigger] r@[i],
                scalar_values(jumps@),
                bits,
                d,
                w as nat,
            ),
{
    let mut out: Vec<Option<Landing>> = Vec::new();
    let mut i: usize = 0;
    while i < starts.len()
        invariant
            i <= starts.len(),
            scalars_wf(starts@),
            jumps@.len() > 0,
            scalars_wf(jumps@),
            points_wf(points@),
            point_values(points@) == scalar_values(jumps@),
            bits <= 63,
            d <= 63,
            out@.len() == i,
            forall|k: int|
                0 <= k < i ==> is_walk_result(
                    starts@[k]@,
                    #[trigger] out@[k],
                    scalar_values(jumps@),
                    bits,
                    d,
                    w as nat,
                ),
        decreases starts.len() - i,
    {
        out.push(tame_walk(&starts[i], jumps, points, bits, d, w));
        i += 1;
    }
    out
}

/// Whether the walk with the index `i` comes before the walk with the index
/// `j` when walks are ordered by their hops, and by their index among walks
/// of as many hops.
pub open spec fn shorter_walk(landings: Seq<Option<Landing>>, i: int, j: int) -> bool {
    landings[i]->0.hops < landings[j]->0.hops || (landings[i]->0.hops == landings[j]->0.hops && i
        <= j)
}

/// Whether the entry with the index `r` of a table is the best landing that
/// the entries before it left: it is a landing, its fingerprint stands in
/// no earlier entry, and it comes before every other landing of which this
/// holds.
pub open spec fn is_best_left(
    keys: Seq<[u8; 32]>,
    values: Seq<Scalar>,
    landings: Seq<Option<Landing>>,
    r: int,
) -> bool {
    exists|i: int|
        {
            &&& 0 <= i < landings.len()
            &&& #[trigger] landings[i] is Some
            &&& landings[i]->0.mark == keys[r]
            &&& landings[i]->0.reached == values[r]
            &&& forall|j: int|
                0 <= j < landings.len() && (#[trigger] landings[j]) is Some && !occurs(
                    keys,
                    r,
                    landings[j]->0.mark@,
                ) ==> shorter_walk(landings, i, j)
        }
}

/// The table of the `t` best landings: again and again, the landing of the
/// fewest hops (of the least index among those) whose fingerprint the table
/// does not hold yet is put into the table, until the table holds `t`
/// entries or every landing.
pub fn select_table(landings: &[Option<Landing>], t: usize) -> (r: Table<Scalar>)
    ensures
        r.wf(),
        r.keys().len() == r.values().len(),
        r.keys().len() <= t,
        forall|k: int| 0 <= k < r.keys().len() ==> is_best_left(r.keys(), r.values(), landings@, k),
        r.keys().len() == t || forall|j: int|
            0 <= j < landings@.len() && (#[trigger] landings@[j]) is Some ==> occurs(
                r.keys(),
                r.keys().len() as int,
                landings@[j]->0.mark@,
            ),
{
    let mut table: Table<Scalar> = Table::new();
    proof {
        table.lemma_view();
    }
    let mut round: usize = 0;
    while round < t
        invariant
            round <= t,
            table.wf(),
            table.keys().len() == round,
            table.values().len() == round,
            forall|k: int|
                0 <= k < round ==> is_best_left(table.keys(), table.values(), landings@, k),
        decreases t - round,
    {
        let ghost keys = table.keys();
        let ghost values = table.values();
        let mut best: Option<usize> = None;
        let mut j: usize = 0;
        while j < landings.len()
            invariant
                j <= landings.len(),
                table.wf(),
                keys == table.keys(),
                keys.len() == round,
                best matches Some(b) ==> {
                    &&& b < j
                    &&& landings@[b as int] is Some
                    &&& !occurs(keys, round as int, landings@[b as int]->0.mark@)
                    &&& forall|q: int|
                        0 <= q < j && (#[trigger] landings@[q]) is Some && !occurs(
                            keys,
                            round as int,
                            landings@[q]->0.mark@,
                        ) ==> shorter_walk(landings@, b as int, q)
                },
                best is None ==> forall|q: int|
                    0 <= q < j && (#[trigger] landings@[q]) is Some ==> occurs(
                        keys,
                        round as int,
                        landings@[q]->0.mark@,
                    ),
            decreases landings.len() - j,
        {
            match landings[j] {
                Some(l) => {
                    proof {
                        table.lemma_view();
                    }
                    if table.get(&l.mark).is_none() {
                        let better = match best {
                            Some(b) => {
                                match landings[b] {
                                    Some(held) => l.hops < held.hops,
                                    None => true,
                                }
                            },
                            None => true,
                        };
                        if better {
                            best = Some(j);
                        }
                    }
                },
                None => {},
            }
            j += 1;
        }
        match best {
            Some(b) => {
                match landings[b] {
                    Some(l) => {
                        proof {
                            table.lemma_view();
                        }
                        let seen = table.insert(l.mark, l.reached);
                        proof {
                            let grown = table.keys();
                            assert(seen is None);
                            assert forall|k: int| 0 <= k <= round implies is_best_left(
                                grown,
                                table.values(),
                                landings@,
                                k,
                            ) by {
                                assert forall|m: Seq<u8>| occurs(grown, k, m) == occurs(keys, k, m) by {
                                    if occurs(grown, k, m) {
                                        let x = choose|x: int| 0 <= x < k && (#[trigger] grown[x])@ == m;
                                        assert(keys[x]@ == m);
                                    }
                                    if occurs(keys, k, m) {
                                        let x = choose|x: int| 0 <= x < k && (#[trigger] keys[x])@ == m;
                                        assert(grown[x]@ == m);
                                    }
                                }
                                if k < round {
                                    assert(is_best_left(keys, values, landings@, k));
                                    let i = choose|i: int|
                                        {
                                            &&& 0 <= i < landings@.len()
                                            &&& #[trigger] landings@[i] is Some
                                            &&& landings@[i]->0.mark == keys[k]
                                            &&& landings@[i]->0.reached == values[k]
                                            &&& forall|j: int|
                                                0 <= j < landings@.len() && (#[trigger] landings@[j]) is Some
                                                    && !occurs(keys, k, landings@[j]->0.mark@)
                                                    ==> shorter_walk(landings@, i, j)
                                        };
                                    assert(landings@[i] is Some);
                                } else {
                                    assert(landings@[b as int] is Some);
                                }
                            }
                        }
                    },
                    None => {},
                }
            },
            None => {
                return table;
            },
        }
        round += 1;
    }
    table
}

/// Whether every fingerprint of a table is distinguished.
pub open spec fn table_distinguished(t: Map<Seq<u8>, Scalar>, d: u32) -> bool {
    forall|k: Seq<u8>| #[trigger] t.contains_key(k) ==> is_distinguished(k, d)
}

/// Whether the entries of a table are the `t` best of the landings, and the
/// landings are what the tame walks from the starts give.
pub open spec fn fills(
    landings: Seq<Option<Landing>>,
    keys: Seq<[u8; 32]>,
    values: Seq<Scalar>,
    starts: Seq<Scalar>,
    jumps: Seq<nat>,
    bits: u32,
    d: u32,
    w: nat,
    t: nat,
) -> bool {
    &&& landings.len() == starts.len()
    &&& forall|i: int|
        0 <= i < landings.len() ==> is_walk_result(starts[i]@, #[trigger] landings[i], jumps, bits, d, w)
    &&& forall|k: int| 0 <= k < keys.len() ==> is_best_left(keys, values, landings, k)
    &&& (keys.len() == t || forall|j: int|
        0 <= j < landings.len() && (#[trigger] landings[j]) is Some ==> occurs(
            keys,
            keys.len() as int,
            landings[j]->0.mark@,
        ))
}

/// Scalars below `l`, drawn from the system's generator.
fn random_starts(count: usize, l: u64) -> (r: Vec<Scalar>)
    ensures
        r@.len() == count,
        scalars_wf(r@),
        l > 0 ==> forall|i: int| 0 <= i < count ==> (#[trigger] r@[i])@ < l,
{
    let mut starts: Vec<Scalar> = Vec::new();
    let mut i: usize = 0;
    while i < count
        invariant
            i <= count,
            starts@.len() == i,
            scalars_wf(starts@),
            l > 0 ==> forall|j: int| 0 <= j < i ==> (#[trigger] starts@[j])@ < l,
        decreases count - i,
    {
        starts.push(random_below(l));
        i += 1;
    }
    starts
}

/// The table that the tame walks from the given starts fill: every walk
/// goes up to `w` hops, and the `t` best landings are kept. The table is
/// sound, and all its fingerprints are distinguished.
pub fn table_from_starts(
    starts: &[Scalar],
    jumps: &[Scalar],
    l: u64,
    t: usize,
    w: usize,
) -> (r: Table<Scalar>)
    requires
        scalars_wf(starts@),
        jumps@.len() > 0,
        scalars_wf(jumps@),
    ensures
        r.wf(),
        r.keys().len() <= t,
        table_sound(r@),
        table_distinguished(r@, distinguishing_bits_spec(l, t as u64) as u32),
        exists|landings: Seq<Option<Landing>>| #[trigger]
            fills(
                landings,
                r.keys(),
                r.values(),
                starts@,
                scalar_values(jumps@),
                index_bits_spec(jumps@.len()) as u32,
                distinguishing_bits_spec(l, t as u64) as u32,
                w as nat,
                t as nat,
            ),
{
    let d = distinguishing_bits(l, t as u64);
    let bits = index_bits(jumps.len());
    let points = jump_points(jumps);
    let landings = tame_walks(starts, jumps, points.as_slice(), bits, d, w);
    let table = select_table(landings.as_slice(), t);
    proof {
        table.lemma_view();
        let keys = table.keys();
        let values = table.values();
        let js = scalar_values(jumps@);
        assert forall|k: Seq<u8>| #[trigger] table@.contains_key(k) implies table@[k].wf() && k
            == fingerprint_of(table@[k]@) && is_distinguished(k, d) by {
            let x = choose|x: int| 0 <= x < keys.len() && (#[trigger] keys[x])@ == k;
            assert(table@[keys[x]@] == values[x]);
            assert(is_best_left(keys, values, landings@, x));
            let i = choose|i: int|
                {
                    &&& 0 <= i < landings@.len()
                    &&& #[trigger] landings@[i] is Some
                    &&& landings@[i]->0.mark == keys[x]
                    &&& landings@[i]->0.reached == values[x]
                    &&& forall|j: int|
                        0 <= j < landings@.len() && (#[trigger] landings@[j]) is Some && !occurs(
                            keys,
                            x,
                            landings@[j]->0.mark@,
                        ) ==> shorter_walk(landings@, i, j)
                };
            assert(is_walk_result(starts@[i]@, landings@[i], js, bits, d, w as nat));
        }
        assert(index_bits_spec(jumps@.len()) as u32 == bits);
        assert(distinguishing_bits_spec(l, t as u64) as u32 == d);
        assert(fills(landings@, keys, values, starts@, js, bits, d, w as nat, t as nat));
    }
    table
}

/// Builds the table of distinguished points for an interval of length `l`:
/// `u * t` tame walks from random starts below `l`, each of up to `w` hops,
/// of which the `t` best landings are kept. No jumps, an empty interval, or
/// more walks than can be counted are refused.
pub fn gen_improved_table(
    l: u64,
    t: usize,
    w: usize,
    u: usize,
    jumps: &[Scalar],
) -> (r: Result<Table<Scalar>, Error>)
    requires
        scalars_wf(jumps@),
    ensures
        r is Ok <==> jumps@.len() > 0 && l > 0 && u * t <= usize::MAX,
        r matches Ok(table) ==> {
            &&& table.wf()
            &&& table.keys().len() <= t
            &&& table_sound(table@)
            &&& table_distinguished(table@, distinguishing_bits_spec(l, t as u64) as u32)
        },
        r matches Err(e) ==> e == Error::PreconditionViolation,
{
    if jumps.len() == 0 || l == 0 {
        return Err(Error::PreconditionViolation);
    }
    let count = match u.checked_mul(t) {
        Some(count) => count,
        None => {
            return Err(Error::PreconditionViolation);
        },
    };
    let starts = random_starts(count, l);
    Ok(table_from_starts(starts.as_slice(), jumps, l, t, w))
}

/// Whether one of the wild walks from the given starts solves the problem.
pub open spec fn some_walk_solves(
    t: Map<Seq<u8>, Scalar>,
    h: nat,
    starts: Seq<Scalar>,
    jumps: Seq<nat>,
    bits: u32,
    d: u32,
    w: nat,
) -> bool {
    exists|k: int| 0 <= k < starts.len() && #[trigger] meets(t, h, starts[k]@, jumps, bits, d, w)
}

/// The wild walks from the given starts, one after the other, until one
/// solves the problem on its first distinguished point.
pub fn wild_walks(
    table: &Table<Scalar>,
    jumps: &[Scalar],
    points: &[GtPoint],
    h: &GtPoint,
    starts: &[Scalar],
    bits: u32,
    d: u32,
    w: usize,
) -> (r: Option<Scalar>)
    requires
        table.wf(),
        h.wf(),
        scalars_wf(starts@),
        jumps@.len() > 0,
        scalars_wf(jumps@),
        points_wf(points@),
        point_values(points@) == scalar_values(jumps@),
        bits <= 63,
        d <= 63,
    ensures
        r is Some <==> some_walk_solves(
            table@,
            h@,
            starts@,
            scalar_values(jumps@),
            bits,
            d,
            w as nat,
        ),
        r matches Some(x) ==> x.wf() && x@ == h@,
{
    let mut k: usize = 0;
    while k < starts.len()
        invariant
            k <= starts.len(),
            table.wf(),
            h.wf(),
            scalars_wf(starts@),
            jumps@.len() > 0,
            scalars_wf(jumps@),
            points_wf(points@),
            point_values(points@) == scalar_values(jumps@),
            bits <= 63,
            d <= 63,
            forall|q: int|
                0 <= q < k ==> !#[trigger] meets(
                    table@,
                    h@,
                    starts@[q]@,
                    scalar_values(jumps@),
                    bits,
                    d,
                    w as nat,
                ),
        decreases starts.len() - k,
    {
        match wild_walk(table, jumps, points, h, &starts[k], bits, d, w, None) {
            Some(x) => {
                assert(meets(
                    table@,
                    h@,
                    starts@[k as int]@,
                    scalar_values(jumps@),
                    bits,
                    d,
                    w as nat,
                ));
                return Some(x);
            },
            None => {},
        }
        k += 1;
    }
    None
}

/// The wild walks from the given starts for a table that was built for the
/// interval of length `l` and `t` points, one after the other, until one
/// solves the problem on its first distinguished point.
pub fn solve_from(
    table: &Table<Scalar>,
    jumps: &[Scalar],
    h: &GtPoint,
    starts: &[Scalar],
    l: u64,
    t: usize,
    w: usize,
) -> (r: Option<Scalar>)
    requires
        table.wf(),
        h.wf(),
        scalars_wf(starts@),
        jumps@.len() > 0,
        scalars_wf(jumps@),
    ensures
        r is Some <==> some_walk_solves(
            table@,
            h@,
            starts@,
            scalar_values(jumps@),
            index_bits_spec(jumps@.len()) as u32,
            distinguishing_bits_spec(l, t as u64) as u32,
            w as nat,
        ),
        r matches Some(x) ==> x.wf() && x@ == h@,
{
    let d = distinguishing_bits(l, t as u64);
    let bits = index_bits(jumps.len());
    let points = jump_points(jumps);
    wild_walks(table, jumps, points.as_slice(), h, starts, bits, d, w)
}

/// Recovers the exponent of `h`, which is below `l`, with a table that was
/// built for the interval of length `l` and `t` points: rounds of `n` wild
/// walks from random starts below `l`, each of up to `w` hops, until one
/// solves the problem. After `MAX_ROUNDS` rounds the search gives up. What
/// it finds is the exponent of `h`.
pub fn solve(
    table: &Table<Scalar>,
    jumps: &[Scalar],
    h: &GtPoint,
    l: u64,
    t: usize,
    w: usize,
    n: usize,
) -> (r: Result<Scalar, Error>)
    requires
        table.wf(),
        h.wf(),
        scalars_wf(jumps@),
    ensures
        r matches Ok(x) ==> x.wf() && x@ == h@,
        r matches Err(e) ==> e == (if jumps@.len() == 0 || l == 0 {
            Error::PreconditionViolation
        } else {
            Error::NotFound
        }),
        jumps@.len() == 0 || l == 0 ==> r is Err,
{
    if jumps.len() == 0 || l == 0 {
        return Err(Error::PreconditionViolation);
    }
    let d = distinguishing_bits(l, t as u64);
    let bits = index_bits(jumps.len());
    let points = jump_points(jumps);
    let mut round: usize = 0;
    while round < MAX_ROUNDS
        invariant
            table.wf(),
            h.wf(),
            jumps@.len() > 0,
            l > 0,
            scalars_wf(jumps@),
            points_wf(points@),
            point_values(points@) == scalar_values(jumps@),
            bits <= 63,
            d <= 63,
        decreases MAX_ROUNDS - round,
    {
        let starts = random_starts(n, l);
        match wild_walks(table, jumps, points.as_slice(), h, starts.as_slice(), bits, d, w) {
            Some(x) => {
                return Ok(x);
            },
            None => {},
        }
        round += 1;
    }
    Err(Error::NotFound)
}

/// What one worker of a parallel search does: wild walks from random starts
/// below `l`, until a walk solves the problem, a stop is requested, or
/// `MAX_ROUNDS` walks have failed. A worker that finds the exponent requests
/// the stop of the others. What it finds is the exponent of `h`.
pub fn worker(
    table: &Table<Scalar>,
    jumps: &[Scalar],
    h: &GtPoint,
    l: u64,
    t: usize,
    w: usize,
    signal: &AtomicBool,
) -> (r: Result<Scalar, Error>)
    requires
        table.wf(),
        h.wf(),
        scalars_wf(jumps@),
    ensures
        r matches Ok(x) ==> x.wf() && x@ == h@,
        r matches Err(e) ==> e == (if jumps@.len() == 0 || l == 0 {
            Error::PreconditionViolation
        } else {
            Error::NotFound
        }),
        jumps@.len() == 0 || l == 0 ==> r is Err,
{
    if jumps.len() == 0 || l == 0 {
        return Err(Error::PreconditionViolation);
    }
    let d = distinguishing_bits(l, t as u64);
    let bits = index_bits(jumps.len());
    let points = jump_points(jumps);
    let mut round: usize = 0;
    while round < MAX_ROUNDS
        invariant
            table.wf(),
            h.wf(),
            jumps@.len() > 0,
            l > 0,
            scalars_wf(jumps@),
            points_wf(points@),
            point_values(points@) == scalar_values(jumps@),
            bits <= 63,
            d <= 63,
        decreases MAX_ROUNDS - round,
    {
        if stop_requested(signal) {
            return Err(Error::NotFound);
        }
        let b = random_below(l);
        match wild_walk(table, jumps, points.as_slice(), h, &b, bits, d, w, Some(signal)) {
            Some(x) => {
                request_stop(signal);
                return Ok(x);
            },
            None => {},
        }
        round += 1;
    }
    Err(Error::NotFound)
}

/// A wild walk stays as far from the unknown exponent as it has travelled.
proof fn lemma_wild_position(h: nat, b: nat, jumps: Seq<nat>, bits: u32, i: nat)
    ensures
        congruent(
            position(fadd(h, b), jumps, bits, i) as int,
            (h + accumulated(b, fadd(h, b), jumps, bits, i)) as int,
        ),
    decreases i,
{
    let start = fadd(h, b);
    let here = position(start, jumps, bits, i) as int;
    let off = accumulated(b, start, jumps, bits, i) as int;
    let hi = h as int;
    lemma_field_ops(h, b);
    if i > 0 {
        let k = (i - 1) as nat;
        lemma_wild_position(h, b, jumps, bits, k);
        let before = position(start, jumps, bits, k);
        let off_before = accumulated(b, start, jumps, bits, k);
        let jump = jump_at(before, jumps, bits);
        lemma_field_ops(before, jump);
        lemma_field_ops(off_before, jump);
        lemma_congruent_refl(jump as int);
        lemma_congruent_refl(hi);
        lemma_congruent_add(before as int, hi + off_before, jump as int, jump as int);
        lemma_congruent_chain(here, (before + jump) as int, hi + off_before + jump);
        lemma_congruent_add(hi, hi, off, (off_before + jump) as int);
        lemma_congruent_chain(hi + off, hi + off_before + jump, hi + off);
        lemma_congruent_chain(here, hi + off_before + jump, hi + off);
    }
}

/// The search is complete where walks meet: when the table is sound and the
/// wild walk from `h` moved by `b` stands, after `i` hops, on a distinguished
/// point whose fingerprint the table holds for this point and no other,
/// the walk solves the problem there.
pub proof fn law_meeting_solves(
    t: Map<Seq<u8>, Scalar>,
    h: nat,
    b: nat,
    jumps: Seq<nat>,
    bits: u32,
    d: u32,
    i: nat,
)
    requires
        h < modulus(),
        table_sound(t),
        lands(fadd(h, b), jumps, bits, d, i),
        t.contains_key(fingerprint_of(position(fadd(h, b), jumps, bits, i))),
        t[fingerprint_of(position(fadd(h, b), jumps, bits, i))]@ == position(
            fadd(h, b),
            jumps,
            bits,
            i,
        ),
    ensures
        solves(t, h, b, jumps, bits, d, i),
{
    let start = fadd(h, b);
    let here = position(start, jumps, bits, i);
    let off = accumulated(b, start, jumps, bits, i);
    let hi = h as int;
    lemma_wild_position(h, b, jumps, bits, i);
    lemma_field_ops(here, off);
    lemma_congruent_refl(off as int);
    lemma_congruent_add(here as int, hi + off, off as int, off as int);
    lemma_congruent_chain(fsub(here, off) as int, here - off, hi + off - off);
    lemma_congruent_small(fsub(here, off) as int, hi);
}

} // verus!
