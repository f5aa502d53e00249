//! Identifiers of 32 bytes: addresses, object ids and block digests.
use crate::big_endian::{
    be_bytes, be_value, lemma_be_bytes_len, lemma_be_value_concat, lemma_be_value_order,
    lemma_bytes_of_value, lemma_pow256_values, lemma_value_of_bytes, lexicographically_less, pow256,
    read_be, write_be,
};
use vstd::prelude::*;

verus! {

/// 32 bytes, held as two big-endian halves so that identifiers are ordered as their bytes are.
#[derive(Clone, Copy, Debug, PartialEq, Eq, Hash, Structural)]
pub struct Bytes32 {
    pub hi: u128,
    pub lo: u128,
}

/// The address of an account or of a validator.
pub type SuiAddress = Bytes32;

/// The id of an object on chain.
pub type ObjectId = Bytes32;

/// The digest of a block.
pub type BlockDigest = Bytes32;

/// A `Bytes32` as a map key: integers whose order is that of the bytes.
pub type Key32 = (u128, u128);

impl Bytes32 {
    /// The 32 bytes themselves.
    pub open spec fn bytes(self) -> Seq<u8> {
        be_bytes(self.hi as nat, 16) + be_bytes(self.lo as nat, 16)
    }

    /// The key under which an ordered map holds this identifier.
    pub open spec fn spec_key(self) -> Key32 {
        (self.hi, self.lo)
    }

    /// The order of identifiers: that of their first halves, then of their second ones.
    pub open spec fn before(self, other: Self) -> bool {
        self.hi < other.hi || (self.hi == other.hi && self.lo < other.lo)
    }

    /// The identifier with these bytes.
    pub fn from_bytes(bytes: &[u8; 32]) -> (r: Self)
        ensures
            r.bytes() == bytes@,
    {
        let s: &[u8] = bytes.as_slice();
        let r = Bytes32 { hi: read_be(s, 0, 16), lo: read_be(s, 16, 32) };
        proof {
            let a = bytes@.subrange(0, 16);
            let b = bytes@.subrange(16, 32);
            lemma_bytes_of_value(a);
            lemma_bytes_of_value(b);
            assert(bytes@ =~= a + b);
        }
        r
    }

    /// The bytes of this identifier.
    pub fn to_bytes(&self) -> (r: [u8; 32])
        ensures
            r@ == self.bytes(),
    {
        let hi = write_be(self.hi, 16);
        let lo = write_be(self.lo, 16);
        proof {
            lemma_be_bytes_len(self.hi as nat, 16);
            lemma_be_bytes_len(self.lo as nat, 16);
        }
        let mut r = [0u8; 32];
        let mut i: usize = 0;
        while i < 16
            invariant
                i <= 16,
                hi@.len() == 16,
                lo@.len() == 16,
                forall|j: int| 0 <= j < i ==> r@[j] == hi@[j] && r@[16 + j] == lo@[j],
            decreases 16 - i,
        {
            r[i] = hi[i];
            r[16 + i] = lo[i];
            i = i + 1;
        }
        assert(r@ =~= self.bytes()) by {
            assert forall|k: int| 0 <= k < 32 implies r@[k] == self.bytes()[k] by {
                if k >= 16 {
                    let j = k - 16;
                    assert(r@[16 + j] == lo@[j]);
                }
            }
        }
        r
    }

    pub(crate) fn key(&self) -> (r: Key32)
        ensures
            r == self.spec_key(),
    {
        (self.hi, self.lo)
    }
}

/// Identifiers are equal exactly where their bytes are.
pub proof fn lemma_bytes_determine_id(a: Bytes32, b: Bytes32)
    ensures
        a.bytes() == b.bytes() <==> a == b,
{
    if a.bytes() == b.bytes() {
        lemma_halves(a);
        lemma_halves(b);
    }
}

/// Identifiers are ordered as dictionaries order their bytes.
pub proof fn lemma_id_order_is_byte_order(a: Bytes32, b: Bytes32)
    ensures
        a.before(b) <==> lexicographically_less(a.bytes(), b.bytes()),
{
    lemma_halves(a);
    lemma_halves(b);
    lemma_be_value_order(a.bytes(), b.bytes());
    let ah = be_bytes(a.hi as nat, 16);
    let al = be_bytes(a.lo as nat, 16);
    let bh = be_bytes(b.hi as nat, 16);
    let bl = be_bytes(b.lo as nat, 16);
    lemma_be_value_concat(ah, al);
    lemma_be_value_concat(bh, bl);
}

/// An identifier made of bytes gives those bytes back, and one that is made of the bytes of another
/// is that other.
pub proof fn lemma_bytes_round_trip(bytes: [u8; 32], id: Bytes32, back: [u8; 32], again: Bytes32)
    requires
        call_ensures(Bytes32::from_bytes, (&bytes,), id),
        call_ensures(Bytes32::to_bytes, (&id,), back),
        call_ensures(Bytes32::from_bytes, (&back,), again),
    ensures
        back@ == bytes@,
        again == id,
        be_value(bytes@) == id.hi * 0x1_0000_0000_0000_0000_0000_0000_0000_0000 + id.lo,
{
    lemma_bytes_determine_id(id, again);
    lemma_halves(id);
    lemma_be_value_concat(be_bytes(id.hi as nat, 16), be_bytes(id.lo as nat, 16));
}

proof fn lemma_halves(a: Bytes32)
    ensures
        a.bytes().len() == 32,
        be_bytes(a.hi as nat, 16).len() == 16,
        be_bytes(a.lo as nat, 16).len() == 16,
        be_value(be_bytes(a.hi as nat, 16)) == a.hi,
        be_value(be_bytes(a.lo as nat, 16)) == a.lo,
        a.bytes().subrange(0, 16) == be_bytes(a.hi as nat, 16),
        a.bytes().subrange(16, 32) == be_bytes(a.lo as nat, 16),
        pow256(16) == 0x1_0000_0000_0000_0000_0000_0000_0000_0000,
{
    lemma_pow256_values();
    lemma_be_bytes_len(a.hi as nat, 16);
    lemma_be_bytes_len(a.lo as nat, 16);
    lemma_value_of_bytes(a.hi as nat, 16);
    lemma_value_of_bytes(a.lo as nat, 16);
    assert(a.bytes().subrange(0, 16) =~= be_bytes(a.hi as nat, 16));
    assert(a.bytes().subrange(16, 32) =~= be_bytes(a.lo as nat, 16));
}

} // verus!
