//! The byte payloads that cluster operations carry, held as [`Bytes`] buffers.

use bytes::Bytes;
use vstd::prelude::*;

verus! {

/// [`Bytes`] of the `bytes` crate: an immutable buffer that is cheap to clone.
#[verifier::external_type_specification]
#[verifier::external_body]
pub struct ExBytes(Bytes);

/// The bytes that a buffer holds, in order.
pub uninterp spec fn contents(b: Bytes) -> Seq<u8>;

/// `Bytes::clone`: the new buffer holds the same bytes as the old one.
pub assume_specification[ <Bytes as Clone>::clone ](b: &Bytes) -> (r: Bytes)
    ensures
        contents(r) == contents(*b),
;

/// `Bytes::deref`: the slice is the whole of the buffer.
#[verifier::external_body]
pub(crate) fn as_slice(b: &Bytes) -> (r: &[u8])
    ensures
        r@ == contents(*b),
{
    std::ops::Deref::deref(b)
}

/// `Bytes::from` on a vector: the buffer holds exactly the vector's bytes.
#[verifier::external_body]
pub(crate) fn from_vec(v: Vec<u8>) -> (r: Bytes)
    ensures
        contents(r) == v@,
{
    Bytes::from(v)
}

/// `Bytes::from_static`: the buffer holds exactly the slice's bytes.
#[verifier::external_body]
pub(crate) fn from_static(v: &'static [u8]) -> (r: Bytes)
    ensures
        contents(r) == v@,
{
    Bytes::from_static(v)
}

/// Whether two slices hold the same bytes.
pub(crate) fn same_bytes(a: &[u8], b: &[u8]) -> (r: bool)
    ensures
        r == (a@ == b@),
{
    if a.len() != b.len() {
        return false;
    }
    let mut i: usize = 0;
    while i < a.len()
        invariant
            i <= a.len(),
            a.len() == b.len(),
            forall|j: int| 0 <= j < i ==> a@[j] == b@[j],
        decreases a.len() - i,
    {
        if a[i] != b[i] {
            return false;
        }
        i += 1;
    }
    proof {
        assert(a@ =~= b@);
    }
    true
}

} // verus!
