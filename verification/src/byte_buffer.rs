//! The growable byte buffer that carries wire data between the codec and the
//! socket. The buffer type comes from the `bytes` crate; its contents are
//! named by `bytes_mut_view`, and every operation the codec needs is wrapped
//! with a contract over that name.

use bytes::BytesMut;
use vstd::prelude::*;

verus! {

#[verifier::external_type_specification]
#[verifier::external_body]
pub struct ExBytesMut(BytesMut);

/// The bytes currently stored in the buffer, front first.
pub uninterp spec fn bytes_mut_view(b: BytesMut) -> Seq<u8>;

/// Relies on BytesMut::new: creates a buffer of length zero.
#[verifier::external_body]
pub(crate) fn bytes_mut_new() -> (r: BytesMut)
    ensures
        bytes_mut_view(r) == Seq::<u8>::empty(),
{
    BytesMut::new()
}

/// Relies on BytesMut::with_capacity: the new buffer has length zero.
#[verifier::external_body]
pub(crate) fn bytes_mut_with_capacity(capacity: usize) -> (r: BytesMut)
    ensures
        bytes_mut_view(r) == Seq::<u8>::empty(),
{
    BytesMut::with_capacity(capacity)
}

/// Relies on BytesMut::len: the number of bytes contained.
#[verifier::external_body]
pub(crate) fn bytes_mut_len(b: &BytesMut) -> (r: usize)
    ensures
        r == bytes_mut_view(*b).len(),
{
    b.len()
}

/// Relies on BytesMut::extend_from_slice: appends the slice at the end.
#[verifier::external_body]
pub(crate) fn bytes_mut_extend(b: &mut BytesMut, bytes: &[u8])
    ensures
        bytes_mut_view(*final(b)) == bytes_mut_view(*old(b)) + bytes@,
{
    b.extend_from_slice(bytes)
}

/// Relies on BytesMut::split_to: afterwards the buffer holds the bytes from
/// `at` on; the split-off front part is dropped here.
#[verifier::external_body]
pub(crate) fn bytes_mut_advance(b: &mut BytesMut, at: usize)
    requires
        at <= bytes_mut_view(*old(b)).len(),
    ensures
        bytes_mut_view(*final(b)) == bytes_mut_view(*old(b)).skip(at as int),
{
    let _ = b.split_to(at);
}

/// Relies on BytesMut's AsRef<[u8]>: the stored bytes, copied out.
#[verifier::external_body]
pub(crate) fn bytes_mut_to_vec(b: &BytesMut) -> (r: Vec<u8>)
    ensures
        r@ == bytes_mut_view(*b),
{
    b.as_ref().to_vec()
}

} // verus!
