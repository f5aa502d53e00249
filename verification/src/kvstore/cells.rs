//! What goes into the cells of a table: shared byte strings, and BCS.
use crate::big_endian::le_bytes;
use bytes::Bytes;
use vstd::prelude::*;

verus! {

/// A byte string of the `bytes` crate.
#[verifier::external_type_specification]
#[verifier::external_body]
pub struct ExBytes(bytes::Bytes);

/// An error of the `bcs` crate.
#[verifier::external_type_specification]
#[verifier::external_body]
pub struct ExBcsError(bcs::Error);

/// The bytes that a `Bytes` holds.
pub uninterp spec fn bytes_contents(b: Bytes) -> Seq<u8>;

/// `Bytes::from` on a vector: holds the bytes of the vector, in order.
#[verifier::external_body]
pub(crate) fn bytes_from_vec(v: Vec<u8>) -> (r: Bytes)
    ensures
        bytes_contents(r) == v@,
{
    Bytes::from(v)
}

/// `Bytes::copy_from_slice`: holds a copy of the slice.
#[verifier::external_body]
pub(crate) fn bytes_copy_from_slice(s: &[u8]) -> (r: Bytes)
    ensures
        bytes_contents(r) == s@,
{
    Bytes::copy_from_slice(s)
}

/// `Bytes::as_ref`: the bytes that it holds, as a slice.
#[verifier::external_body]
pub(crate) fn bytes_as_slice(b: &Bytes) -> (r: &[u8])
    ensures
        r@ == bytes_contents(*b),
{
    b.as_ref()
}

/// BCS of a `u64`: eight bytes, least significant first.
pub open spec fn bcs_u64(x: u64) -> Seq<u8> {
    le_bytes(x as nat, 8)
}

/// BCS of four `u64` in a row, be it a tuple or a struct with four such fields: one after the
/// other, with nothing in between.
pub open spec fn bcs_u64x4(a: u64, b: u64, c: u64, d: u64) -> Seq<u8> {
    bcs_u64(a) + bcs_u64(b) + bcs_u64(c) + bcs_u64(d)
}

/// `bcs::to_bytes` on a `u64`: never fails, as integers have a fixed size and no nesting.
#[verifier::external_body]
pub(crate) fn bcs_from_u64(x: u64) -> (r: Result<Vec<u8>, bcs::Error>)
    ensures
        r is Ok,
        r->Ok_0@ == bcs_u64(x),
{
    bcs::to_bytes(&x)
}

/// `bcs::to_bytes` on a tuple of four `u64`: never fails, and writes the fields in order.
#[verifier::external_body]
pub(crate) fn bcs_from_u64x4(a: u64, b: u64, c: u64, d: u64) -> (r: Result<Vec<u8>, bcs::Error>)
    ensures
        r is Ok,
        r->Ok_0@ == bcs_u64x4(a, b, c, d),
{
    bcs::to_bytes(&(a, b, c, d))
}

/// `bcs::from_bytes` to a tuple of four `u64`: accepts exactly 32 bytes, and reads back what the
/// encoding of the fields would write.
#[verifier::external_body]
pub(crate) fn bcs_to_u64x4(bytes: &[u8]) -> (r: Result<(u64, u64, u64, u64), bcs::Error>)
    ensures
        r is Ok <==> bytes@.len() == 32,
        r matches Ok(v) ==> bytes@ == bcs_u64x4(v.0, v.1, v.2, v.3),
{
    bcs::from_bytes(bytes)
}

/// Whether two byte strings are the same.
pub(crate) fn same_bytes(a: &[u8], b: &[u8]) -> (r: bool)
    ensures
        r <==> a@ == b@,
{
    if a.len() != b.len() {
        return false;
    }
    let mut i: usize = 0;
    while i < a.len()
        invariant
            i <= a@.len(),
            a@.len() == b@.len(),
            forall|j: int| 0 <= j < i ==> a@[j] == b@[j],
        decreases a@.len() - i,
    {
        if a[i] != b[i] {
            return false;
        }
        i = i + 1;
    }
    assert(a@ =~= b@);
    true
}

} // verus!
