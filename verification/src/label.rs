//! Labels: the byte strings that bind ciphertexts and keys together.

use crate::bytes::append_bytes;
use crate::field::Scalar;
use crate::random::random_nonce;
use vstd::prelude::*;
use vstd::string::StringSliceAdditionalSpecFns;

verus! {

/// The big-endian encodings of the scalars, one after the other.
pub open spec fn scalars_encoding(s: Seq<Scalar>) -> Seq<u8>
    decreases s.len(),
{
    if s.len() == 0 {
        Seq::empty()
    } else {
        scalars_encoding(s.drop_last()) + s.last().le_bytes().reverse()
    }
}

/// The eight bytes of `x`, most significant first.
pub open spec fn be_bytes_of_u64(x: u64) -> Seq<u8> {
    Seq::new(8, |i: int| ((x >> (((7 - i) * 8) as u64)) & 0xff) as u8)
}

/// The eight bytes of `x`, most significant first.
pub fn u64_to_be_bytes(x: u64) -> (r: [u8; 8])
    ensures
        r@ == be_bytes_of_u64(x),
{
    let mut out = [0u8; 8];
    let mut i: usize = 0;
    while i < 8
        invariant
            i <= 8,
            forall|j: int| 0 <= j < i ==> out@[j] == be_bytes_of_u64(x)[j],
        decreases 8 - i,
    {
        let shift: u64 = ((7 - i) * 8) as u64;
        let b: u64 = (x >> shift) & 0xff;
        assert(b <= 0xff) by (bit_vector)
            requires
                b == (x >> shift) & 0xff,
        ;
        out[i] = b as u8;
        i += 1;
    }
    assert(out@ =~= be_bytes_of_u64(x));
    out
}

/// A label: a byte string that grows at its end.
#[derive(Clone, Debug)]
pub struct Label {
    bytes: Vec<u8>,
}

impl View for Label {
    type V = Seq<u8>;

    /// The bytes of the label.
    closed spec fn view(&self) -> Seq<u8> {
        self.bytes@
    }
}

impl Label {
    /// A label of thirty-two random bytes.
    pub fn new() -> (r: Label)
        ensures
            r@.len() == 32,
    {
        let nonce = random_nonce();
        Label::from_bytes(nonce.as_slice())
    }

    /// The empty label.
    pub fn empty() -> (r: Label)
        ensures
            r@ == Seq::<u8>::empty(),
    {
        Label { bytes: Vec::new() }
    }

    /// The label that holds the given bytes.
    pub fn from_bytes(data: &[u8]) -> (r: Label)
        ensures
            r@ == data@,
    {
        let mut r = Label::empty();
        r.aggregate(data);
        r
    }

    /// The label that holds the bytes of a text.
    pub fn from_text(text: &str) -> (r: Label)
        ensures
            r@ == text.spec_bytes(),
    {
        Label::from_bytes(text.as_bytes())
    }

    /// The label of a natural number: its eight bytes, most significant first.
    pub fn from_u64(x: u64) -> (r: Label)
        ensures
            r@ == be_bytes_of_u64(x),
    {
        let bytes = u64_to_be_bytes(x);
        Label::from_bytes(bytes.as_slice())
    }

    /// The label of a vector of scalars: their 32-byte big-endian encodings,
    /// one after the other.
    pub fn from_scalars(y: &[Scalar]) -> (r: Label)
        ensures
            r@ == scalars_encoding(y@),
    {
        let mut r = Label::empty();
        let mut i: usize = 0;
        while i < y.len()
            invariant
                i <= y.len(),
                r@ == scalars_encoding(y@.take(i as int)),
            decreases y.len() - i,
        {
            let be = y[i].to_be_bytes();
            r.aggregate(be.as_slice());
            proof {
                assert(y@.take(i + 1).drop_last() =~= y@.take(i as int));
            }
            i += 1;
        }
        assert(y@.take(i as int) =~= y@);
        r
    }

    /// Appends bytes to the label, as they are.
    pub fn aggregate(&mut self, data: &[u8])
        ensures
            final(self)@ == old(self)@ + data@,
    {
        append_bytes(&mut self.bytes, data);
    }

    /// The bytes of the label.
    pub fn as_bytes(&self) -> (r: &[u8])
        ensures
            r@ == self@,
    {
        self.bytes.as_slice()
    }

    /// The number of bytes in the label.
    pub fn len(&self) -> (r: usize)
        ensures
            r == self@.len(),
    {
        self.bytes.len()
    }

    /// Whether two labels hold the same bytes.
    pub fn eq(&self, other: &Label) -> (r: bool)
        ensures
            r == (self@ == other@),
    {
        if self.bytes.len() != other.bytes.len() {
            return false;
        }
        let mut i: usize = 0;
        while i < self.bytes.len()
            invariant
                i <= self.bytes.len(),
                self.bytes.len() == other.bytes.len(),
                forall|j: int| 0 <= j < i ==> self.bytes@[j] == other.bytes@[j],
            decreases self.bytes.len() - i,
        {
            if self.bytes[i] != other.bytes[i] {
                return false;
            }
            i += 1;
        }
        assert(self.bytes@ =~= other.bytes@);
        true
    }
}

} // verus!
