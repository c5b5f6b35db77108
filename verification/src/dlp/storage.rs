//! The serialized form of the jumps and of the table of distinguished
//! points: a count of 32 bits, least significant byte first, and then the
//! entries. A jump is the 32 bytes of a scalar; an entry of the table is the
//! 32 bytes of a fingerprint and the 32 bytes of a scalar.

use crate::bytes::append_bytes;
use crate::dlp::table::{distinct, place, Table};
use crate::error::Error;
use crate::field::{scalars_wf, Scalar};
use vstd::bytes::{
    lemma_auto_spec_u32_to_from_le_bytes, spec_u32_from_le_bytes, spec_u32_to_le_bytes,
    u32_from_le_bytes, u32_to_le_bytes,
};
use vstd::prelude::*;
use vstd::slice::slice_subrange;

verus! {

/// The bytes of the jumps, one scalar after the other.
pub open spec fn jumps_body(jumps: Seq<Scalar>) -> Seq<u8> {
    Seq::new(32 * jumps.len(), |i: int| jumps[i / 32].le_bytes()[i % 32])
}

/// The serialized jumps.
pub open spec fn jumps_encoding(jumps: Seq<Scalar>) -> Seq<u8> {
    spec_u32_to_le_bytes(jumps.len() as u32) + jumps_body(jumps)
}

/// Whether `b` is the serialized form of some jumps.
pub open spec fn is_jumps_encoding(b: Seq<u8>) -> bool {
    exists|s: Seq<Scalar>|
        scalars_wf(s) && s.len() <= u32::MAX && #[trigger] jumps_encoding(s) == b
}

/// The bytes of the entries of a table, one entry after the other.
pub open spec fn table_body(keys: Seq<[u8; 32]>, values: Seq<Scalar>) -> Seq<u8> {
    Seq::new(
        64 * keys.len(),
        |i: int|
            if i % 64 < 32 {
                keys[i / 64]@[i % 64]
            } else {
                values[i / 64].le_bytes()[i % 64 - 32]
            },
    )
}

/// The serialized table.
pub open spec fn table_encoding(keys: Seq<[u8; 32]>, values: Seq<Scalar>) -> Seq<u8> {
    spec_u32_to_le_bytes(keys.len() as u32) + table_body(keys, values)
}

/// Whether `b` is the serialized form of some table.
pub open spec fn is_table_encoding(b: Seq<u8>) -> bool {
    exists|keys: Seq<[u8; 32]>, values: Seq<Scalar>|
        keys.len() == values.len() && keys.len() <= u32::MAX && distinct(keys) && scalars_wf(values)
            && #[trigger] table_encoding(keys, values) == b
}

/// The 32 bytes of `bytes` that start at `at`.
fn block(bytes: &[u8], at: usize) -> (r: [u8; 32])
    requires
        at + 32 <= bytes@.len(),
    ensures
        r@ == bytes@.subrange(at as int, at + 32),
{
    let n = bytes.len();
    let mut out = [0u8; 32];
    let mut i: usize = 0;
    while i < 32
        invariant
            i <= 32,
            n == bytes@.len(),
            at + 32 <= n,
            forall|j: int| 0 <= j < i ==> out@[j] == bytes@[at + j],
        decreases 32 - i,
    {
        out[i] = bytes[at + i];
        i += 1;
    }
    assert(out@ =~= bytes@.subrange(at as int, at + 32));
    out
}

/// Serializes the jumps. More jumps than a count of 32 bits can hold are
/// refused.
pub fn encode_jumps(jumps: &[Scalar]) -> (r: Result<Vec<u8>, Error>)
    ensures
        r is Ok <==> jumps@.len() <= u32::MAX,
        r matches Ok(b) ==> b@ == jumps_encoding(jumps@),
        r matches Err(e) ==> e == Error::PreconditionViolation,
{
    if jumps.len() > u32::MAX as usize {
        return Err(Error::PreconditionViolation);
    }
    let mut out = u32_to_le_bytes(jumps.len() as u32);
    let ghost head = out@;
    let mut i: usize = 0;
    while i < jumps.len()
        invariant
            i <= jumps.len(),
            head.len() == 4,
            out@ == head + jumps_body(jumps@.take(i as int)),
        decreases jumps.len() - i,
    {
        let bytes = jumps[i].to_bytes();
        append_bytes(&mut out, bytes.as_slice());
        proof {
            jumps@[i as int].lemma_le_bytes_len();
            assert(jumps_body(jumps@.take(i + 1)) =~= jumps_body(jumps@.take(i as int))
                + jumps@[i as int].le_bytes());
        }
        i += 1;
    }
    assert(jumps@.take(i as int) =~= jumps@);
    Ok(out)
}

/// What a serialized form of jumps looks like from outside: its length, its
/// count, and each of its blocks.
proof fn lemma_jumps_shape(s: Seq<Scalar>)
    requires
        s.len() <= u32::MAX,
    ensures
        jumps_encoding(s).len() == 4 + 32 * s.len(),
        spec_u32_from_le_bytes(jumps_encoding(s).subrange(0, 4)) == s.len(),
        forall|i: int|
            0 <= i < s.len() ==> jumps_encoding(s).subrange(4 + 32 * i, 4 + 32 * i + 32)
                == (#[trigger] s[i]).le_bytes(),
{
    lemma_auto_spec_u32_to_from_le_bytes();
    let e = jumps_encoding(s);
    let head = spec_u32_to_le_bytes(s.len() as u32);
    assert(e.subrange(0, 4) =~= head);
    assert forall|i: int| 0 <= i < s.len() implies e.subrange(4 + 32 * i, 4 + 32 * i + 32) == (#[trigger] s[i]).le_bytes() by {
        s[i].lemma_le_bytes_len();
        assert forall|j: int| 0 <= j < 32 implies e.subrange(4 + 32 * i, 4 + 32 * i + 32)[j]
            == s[i].le_bytes()[j] by {
            assert(e[4 + 32 * i + j] == jumps_body(s)[32 * i + j]);
            assert((32 * i + j) / 32 == i && (32 * i + j) % 32 == j);
        }
        assert(e.subrange(4 + 32 * i, 4 + 32 * i + 32) =~= s[i].le_bytes());
    }
}

/// Reads serialized jumps. Bytes that are not the serialized form of any
/// jumps are corrupt: too short for the count, not as long as the count
/// says, or holding a scalar that is not canonical.
pub fn decode_jumps(bytes: &[u8]) -> (r: Result<Vec<Scalar>, Error>)
    ensures
        r is Ok <==> is_jumps_encoding(bytes@),
        r matches Ok(v) ==> scalars_wf(v@) && v@.len() <= u32::MAX && jumps_encoding(v@)
            == bytes@,
        r matches Err(e) ==> e == Error::Corrupt,
{
    proof {
        if is_jumps_encoding(bytes@) {
            let s = choose|s: Seq<Scalar>|
                scalars_wf(s) && s.len() <= u32::MAX && #[trigger] jumps_encoding(s) == bytes@;
            lemma_jumps_shape(s);
        }
    }
    let n = bytes.len();
    if n < 4 {
        return Err(Error::Corrupt);
    }
    let count = u32_from_le_bytes(slice_subrange(bytes, 0, 4));
    if n as u64 != 4 + 32 * (count as u64) {
        return Err(Error::Corrupt);
    }
    let mut out: Vec<Scalar> = Vec::new();
    let mut i: usize = 0;
    while i < count as usize
        invariant
            i <= count,
            n == bytes@.len(),
            n == 4 + 32 * count,
            out@.len() == i,
            scalars_wf(out@),
            forall|k: int|
                0 <= k < i ==> (#[trigger] out@[k]).le_bytes() == bytes@.subrange(
                    4 + 32 * k,
                    4 + 32 * k + 32,
                ),
        decreases count - i,
    {
        let raw = block(bytes, 4 + 32 * i);
        match Scalar::from_bytes(&raw) {
            Some(s) => {
                out.push(s);
            },
            None => {
                proof {
                    if is_jumps_encoding(bytes@) {
                        let s = choose|s: Seq<Scalar>|
                            scalars_wf(s) && s.len() <= u32::MAX && #[trigger] jumps_encoding(s)
                                == bytes@;
                        lemma_jumps_shape(s);
                        assert(s[i as int].le_bytes() == raw@);
                        assert(s[i as int].wf());
                    }
                }
                return Err(Error::Corrupt);
            },
        }
        i += 1;
    }
    proof {
        lemma_auto_spec_u32_to_from_le_bytes();
        let e = jumps_encoding(out@);
        assert(bytes@.subrange(0, 4) == spec_u32_to_le_bytes(count));
        assert forall|j: int| 0 <= j < bytes@.len() implies e[j] == bytes@[j] by {
            if j < 4 {
                assert(bytes@.subrange(0, 4)[j] == bytes@[j]);
            } else {
                let k = (j - 4) / 32;
                let o = (j - 4) % 32;
                assert(out@[k].le_bytes()[o] == bytes@.subrange(4 + 32 * k, 4 + 32 * k + 32)[o]);
            }
        }
        assert(e =~= bytes@);
    }
    Ok(out)
}

/// Reading gives back what was written. What was written for well-formed
/// jumps `a` is the serialized form of jumps, so it is read; and what is
/// read from it, jumps `b` with the same serialized form, has the same
/// encodings as `a`, scalar by scalar.
pub proof fn law_jumps_round_trip(a: Seq<Scalar>, b: Seq<Scalar>)
    requires
        scalars_wf(a),
        a.len() <= u32::MAX,
        b.len() <= u32::MAX,
        jumps_encoding(a) == jumps_encoding(b),
    ensures
        is_jumps_encoding(jumps_encoding(a)),
        a.len() == b.len(),
        forall|i: int| 0 <= i < a.len() ==> (#[trigger] a[i]).le_bytes() == b[i].le_bytes(),
{
    lemma_jumps_shape(a);
    lemma_jumps_shape(b);
    assert forall|i: int| 0 <= i < a.len() implies (#[trigger] a[i]).le_bytes() == b[i].le_bytes() by {
        assert(b[i].le_bytes() == jumps_encoding(b).subrange(4 + 32 * i, 4 + 32 * i + 32));
    }
}

/// Serializes a table, entry by entry in the order in which the entries
/// came. More entries than a count of 32 bits can hold are refused.
pub fn encode_table(table: &Table<Scalar>) -> (r: Result<Vec<u8>, Error>)
    requires
        table.wf(),
    ensures
        r is Ok <==> table.keys().len() <= u32::MAX,
        r matches Ok(b) ==> b@ == table_encoding(table.keys(), table.values()),
        r matches Err(e) ==> e == Error::PreconditionViolation,
{
    let n = table.len();
    proof {
        table.lemma_view();
    }
    if n > u32::MAX as usize {
        return Err(Error::PreconditionViolation);
    }
    let ghost keys = table.keys();
    let ghost values = table.values();
    let mut out = u32_to_le_bytes(n as u32);
    let ghost head = out@;
    let mut i: usize = 0;
    while i < n
        invariant
            i <= n,
            table.wf(),
            n == keys.len(),
            n == values.len(),
            keys == table.keys(),
            values == table.values(),
            head.len() == 4,
            out@ == head + table_body(keys.take(i as int), values.take(i as int)),
        decreases n - i,
    {
        let key = table.key_at(i);
        let value = table.value_at(i).to_bytes();
        append_bytes(&mut out, key.as_slice());
        append_bytes(&mut out, value.as_slice());
        proof {
            values[i as int].lemma_le_bytes_len();
            assert(table_body(keys.take(i + 1), values.take(i + 1)) =~= table_body(
                keys.take(i as int),
                values.take(i as int),
            ) + keys[i as int]@ + values[i as int].le_bytes());
        }
        i += 1;
    }
    assert(keys.take(i as int) =~= keys);
    assert(values.take(i as int) =~= values);
    Ok(out)
}

/// What a serialized form of a table looks like from outside: its length,
/// its count, and the two blocks of each of its entries.
proof fn lemma_table_shape(keys: Seq<[u8; 32]>, values: Seq<Scalar>)
    requires
        keys.len() == values.len(),
        keys.len() <= u32::MAX,
    ensures
        table_encoding(keys, values).len() == 4 + 64 * keys.len(),
        spec_u32_from_le_bytes(table_encoding(keys, values).subrange(0, 4)) == keys.len(),
        forall|i: int|
            0 <= i < keys.len() ==> table_encoding(keys, values).subrange(
                4 + 64 * i,
                4 + 64 * i + 32,
            ) == (#[trigger] keys[i])@,
        forall|i: int|
            0 <= i < keys.len() ==> table_encoding(keys, values).subrange(
                4 + 64 * i + 32,
                4 + 64 * i + 64,
            ) == (#[trigger] values[i]).le_bytes(),
{
    lemma_auto_spec_u32_to_from_le_bytes();
    let e = table_encoding(keys, values);
    let head = spec_u32_to_le_bytes(keys.len() as u32);
    assert(e.subrange(0, 4) =~= head);
    assert forall|i: int| 0 <= i < keys.len() implies e.subrange(4 + 64 * i, 4 + 64 * i + 32) == (#[trigger] keys[i])@ by {
        assert forall|j: int| 0 <= j < 32 implies e.subrange(4 + 64 * i, 4 + 64 * i + 32)[j]
            == keys[i]@[j] by {
            assert(e[4 + 64 * i + j] == table_body(keys, values)[64 * i + j]);
            assert((64 * i + j) / 64 == i && (64 * i + j) % 64 == j);
        }
        assert(e.subrange(4 + 64 * i, 4 + 64 * i + 32) =~= keys[i]@);
    }
    assert forall|i: int| 0 <= i < keys.len() implies e.subrange(4 + 64 * i + 32, 4 + 64 * i + 64)
        == (#[trigger] values[i]).le_bytes() by {
        values[i].lemma_le_bytes_len();
        assert forall|j: int| 0 <= j < 32 implies e.subrange(4 + 64 * i + 32, 4 + 64 * i + 64)[j]
            == values[i].le_bytes()[j] by {
            assert(e[4 + 64 * i + 32 + j] == table_body(keys, values)[64 * i + 32 + j]);
            assert((64 * i + 32 + j) / 64 == i && (64 * i + 32 + j) % 64 == 32 + j);
        }
        assert(e.subrange(4 + 64 * i + 32, 4 + 64 * i + 64) =~= values[i].le_bytes());
    }
}

/// Reads a serialized table. Bytes that are not the serialized form of any
/// table are corrupt: too short for the count, not as long as the count
/// says, holding a scalar that is not canonical, or holding a fingerprint
/// twice.
pub fn decode_table(bytes: &[u8]) -> (r: Result<Table<Scalar>, Error>)
    ensures
        r is Ok <==> is_table_encoding(bytes@),
        r matches Ok(t) ==> t.wf() && scalars_wf(t.values()) && t.keys().len() <= u32::MAX
            && table_encoding(t.keys(), t.values()) == bytes@,
        r matches Err(e) ==> e == Error::Corrupt,
{
    let ghost told = is_table_encoding(bytes@);
    let ghost (keys, values) = choose|keys: Seq<[u8; 32]>, values: Seq<Scalar>|
        keys.len() == values.len() && keys.len() <= u32::MAX && distinct(keys) && scalars_wf(values)
            && #[trigger] table_encoding(keys, values) == bytes@;
    proof {
        if told {
            lemma_table_shape(keys, values);
        }
    }
    let n = bytes.len();
    if n < 4 {
        return Err(Error::Corrupt);
    }
    let count = u32_from_le_bytes(slice_subrange(bytes, 0, 4));
    if n as u64 != 4 + 64 * (count as u64) {
        return Err(Error::Corrupt);
    }
    let mut out: Table<Scalar> = Table::new();
    proof {
        out.lemma_view();
    }
    let mut i: usize = 0;
    while i < count as usize
        invariant
            i <= count,
            n == bytes@.len(),
            n == 4 + 64 * count,
            told == is_table_encoding(bytes@),
            told ==> keys.len() == values.len() && keys.len() == count && distinct(keys)
                && scalars_wf(values) && table_encoding(keys, values) == bytes@,
            out.wf(),
            out.keys().len() == i,
            out.values().len() == i,
            scalars_wf(out.values()),
            forall|k: int|
                0 <= k < i ==> (#[trigger] out.keys()[k])@ == bytes@.subrange(
                    4 + 64 * k,
                    4 + 64 * k + 32,
                ),
            forall|k: int|
                0 <= k < i ==> (#[trigger] out.values()[k]).le_bytes() == bytes@.subrange(
                    4 + 64 * k + 32,
                    4 + 64 * k + 64,
                ),
        decreases count - i,
    {
        let key = block(bytes, 4 + 64 * i);
        let raw = block(bytes, 4 + 64 * i + 32);
        proof {
            if told {
                lemma_table_shape(keys, values);
                assert(keys[i as int]@ == key@);
                assert(values[i as int].le_bytes() == raw@);
                assert(values[i as int].wf());
            }
            out.lemma_view();
        }
        let value = match Scalar::from_bytes(&raw) {
            Some(s) => s,
            None => {
                return Err(Error::Corrupt);
            },
        };
        let ghost before = out.keys();
        if out.insert(key, value).is_some() {
            proof {
                if told {
                    let j = place(before, key@);
                    assert(before[j]@ == key@);
                    assert(keys[j]@ == key@);
                    assert(keys[j]@ != keys[i as int]@);
                }
            }
            return Err(Error::Corrupt);
        }
        i += 1;
    }
    proof {
        lemma_auto_spec_u32_to_from_le_bytes();
        let e = table_encoding(out.keys(), out.values());
        assert(bytes@.subrange(0, 4) == spec_u32_to_le_bytes(count));
        assert forall|j: int| 0 <= j < bytes@.len() implies e[j] == bytes@[j] by {
            if j < 4 {
                assert(bytes@.subrange(0, 4)[j] == bytes@[j]);
            } else {
                let k = (j - 4) / 64;
                let o = (j - 4) % 64;
                if o < 32 {
                    assert(out.keys()[k]@[o] == bytes@.subrange(4 + 64 * k, 4 + 64 * k + 32)[o]);
                } else {
                    assert(out.values()[k].le_bytes()[o - 32] == bytes@.subrange(
                        4 + 64 * k + 32,
                        4 + 64 * k + 64,
                    )[o - 32]);
                }
            }
        }
        assert(e =~= bytes@);
        out.lemma_view();
    }
    Ok(out)
}

/// Reading gives back what was written. What was written for a table of
/// distinct fingerprints and well-formed scalars is the serialized form of a
/// table, so it is read; and what is read from it, a table with the same
/// serialized form, has the same fingerprints and the same scalars, entry
/// by entry.
pub proof fn law_table_round_trip(
    keys: Seq<[u8; 32]>,
    values: Seq<Scalar>,
    other_keys: Seq<[u8; 32]>,
    other_values: Seq<Scalar>,
)
    requires
        keys.len() == values.len(),
        distinct(keys),
        scalars_wf(values),
        other_keys.len() == other_values.len(),
        keys.len() <= u32::MAX,
        other_keys.len() <= u32::MAX,
        table_encoding(keys, values) == table_encoding(other_keys, other_values),
    ensures
        is_table_encoding(table_encoding(keys, values)),
        keys.len() == other_keys.len(),
        forall|i: int| 0 <= i < keys.len() ==> (#[trigger] keys[i])@ == other_keys[i]@,
        forall|i: int|
            0 <= i < keys.len() ==> (#[trigger] values[i]).le_bytes() == other_values[i].le_bytes(),
{
    lemma_table_shape(keys, values);
    lemma_table_shape(other_keys, other_values);
    let e = table_encoding(keys, values);
    assert forall|i: int| 0 <= i < keys.len() implies (#[trigger] keys[i])@ == other_keys[i]@ by {
        assert(other_keys[i]@ == e.subrange(4 + 64 * i, 4 + 64 * i + 32));
    }
    assert forall|i: int| 0 <= i < keys.len() implies (#[trigger] values[i]).le_bytes()
        == other_values[i].le_bytes() by {
        assert(other_values[i].le_bytes() == e.subrange(4 + 64 * i + 32, 4 + 64 * i + 64));
    }
}

} // verus!
