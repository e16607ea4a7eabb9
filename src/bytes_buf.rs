//! The inbound buffer is a `bytes::BytesMut`; these are the calls made on it.
use bytes::BytesMut;
use vstd::prelude::*;

verus! {

#[verifier::external_type_specification]
#[verifier::external_body]
pub struct ExBytesMut(BytesMut);

/// The bytes that a `BytesMut` holds, in order.
pub uninterp spec fn held(b: BytesMut) -> Seq<u8>;

/// Relies on `BytesMut::with_capacity`: a buffer that holds no bytes.
#[verifier::external_body]
pub(crate) fn buf_with_capacity(capacity: usize) -> (r: BytesMut)
    ensures
        held(r) == Seq::<u8>::empty(),
{
    BytesMut::with_capacity(capacity)
}

/// Relies on `BytesMut::len`: the number of bytes held.
#[verifier::external_body]
pub(crate) fn buf_len(b: &BytesMut) -> (r: usize)
    ensures
        r == held(*b).len(),
{
    b.len()
}

/// Relies on `BytesMut::put_slice` (`extend_from_slice`): appends `s` at the
/// end. It panics when the new length overflows, which `requires` leaves out.
#[verifier::external_body]
pub(crate) fn buf_put_slice(b: &mut BytesMut, s: &[u8])
    requires
        held(*old(b)).len() + s@.len() <= isize::MAX,
    ensures
        held(*final(b)) == held(*old(b)) + s@,
{
    bytes::BufMut::put_slice(b, s)
}

/// Relies on `BytesMut::split_to`: the first `at` bytes leave the buffer and
/// are returned. It panics when `at` exceeds the length.
#[verifier::external_body]
pub(crate) fn buf_split_to(b: &mut BytesMut, at: usize) -> (r: Vec<u8>)
    requires
        at <= held(*old(b)).len(),
    ensures
        r@ == held(*old(b)).take(at as int),
        held(*final(b)) == held(*old(b)).skip(at as int),
{
    b.split_to(at).to_vec()
}

/// Relies on indexing through `BytesMut`'s `Deref` to `[u8]`: the first
/// `len` bytes, left in place.
#[verifier::external_body]
pub(crate) fn buf_prefix(b: &BytesMut, len: usize) -> (r: &[u8])
    requires
        len <= held(*b).len(),
    ensures
        r@ == held(*b).take(len as int),
{
    &b[..len]
}

} // verus!
