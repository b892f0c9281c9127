//! Byte buffers of the `bytes` crate, as the codec and the handlers use them.
use bytes::{BufMut, BytesMut};
use vstd::prelude::*;

verus! {

/// `bytes::BytesMut`: a buffer of bytes that grows as bytes are appended.
/// Nothing is known of a buffer but what `buf_bytes` says.
#[verifier::external_type_specification]
#[verifier::external_body]
pub struct ExBytesMut(BytesMut);

/// The bytes that a buffer holds, first to last.
pub uninterp spec fn buf_bytes(b: BytesMut) -> Seq<u8>;

/// `BytesMut::with_capacity`: a buffer that holds no bytes. The capacity is
/// room set aside, not content. Capacities above `isize::MAX` are left out:
/// the allocation behind the buffer refuses them.
#[verifier::external_body]
pub(crate) fn buf_with_capacity(capacity: usize) -> (b: BytesMut)
    requires
        capacity <= isize::MAX,
    ensures
        buf_bytes(b) == Seq::<u8>::empty(),
{
    BytesMut::with_capacity(capacity)
}

/// `BufMut::put_slice` on a `BytesMut`: the bytes of `src` are appended, and
/// the buffer grows as needed. Lengths whose sum passes `isize::MAX` are left
/// out: the buffer cannot grow that far.
#[verifier::external_body]
pub(crate) fn buf_put_slice(b: &mut BytesMut, src: &[u8])
    requires
        buf_bytes(*old(b)).len() + src@.len() <= isize::MAX,
    ensures
        buf_bytes(*final(b)) == buf_bytes(*old(b)) + src@,
{
    b.put_slice(src)
}

/// `Deref` of a `BytesMut`: its bytes as a slice.
#[verifier::external_body]
pub(crate) fn buf_as_slice(b: &BytesMut) -> (s: &[u8])
    ensures
        s@ == buf_bytes(*b),
{
    &b[..]
}

/// `Clone` of a `BytesMut`: a buffer of its own with the same bytes.
pub assume_specification[ <BytesMut as Clone>::clone ](b: &BytesMut) -> (c: BytesMut)
    ensures
        buf_bytes(c) == buf_bytes(*b),
;

/// Number of bytes in a buffer.
pub fn buf_len(b: &BytesMut) -> (n: usize)
    ensures
        n == buf_bytes(*b).len(),
{
    buf_as_slice(b).len()
}

} // verus!
