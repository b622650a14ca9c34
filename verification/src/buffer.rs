use bytes::{Buf, BufMut, BytesMut};
use vstd::prelude::*;

verus! {

/// `bytes::BytesMut`, a growable byte buffer that is read and consumed from the front.
/// Nothing is known of a value but what the functions below state of `buffered`.
#[verifier::external_type_specification]
#[verifier::external_body]
pub struct ExBytesMut(bytes::BytesMut);

/// The bytes a buffer holds, front first.
pub uninterp spec fn buffered(b: BytesMut) -> Seq<u8>;

/// `BytesMut::new`: a buffer that holds nothing.
#[verifier::external_body]
pub(crate) fn buffer_new() -> (b: BytesMut)
    ensures
        buffered(b) == Seq::<u8>::empty(),
{
    BytesMut::new()
}

/// `BytesMut::len`: the number of bytes held.
#[verifier::external_body]
pub(crate) fn buffer_len(b: &BytesMut) -> (n: usize)
    ensures
        n == buffered(*b).len(),
{
    b.len()
}

/// `BufMut::put_slice`: the given bytes are appended behind those already held.
/// Growing the buffer can ask the allocator for up to four times the bytes then held;
/// the call is kept away from sizes at which that passes the limit of an allocation.
#[verifier::external_body]
pub(crate) fn buffer_put(b: &mut BytesMut, src: &[u8])
    requires
        4 * (buffered(*old(b)).len() + src@.len()) <= isize::MAX,
    ensures
        buffered(*final(b)) == buffered(*old(b)) + src@,
{
    b.put_slice(src)
}

/// `Buf::advance`: the first `cnt` bytes leave the buffer, the rest stay in order.
/// The call is kept away from counts beyond what is held.
#[verifier::external_body]
pub(crate) fn buffer_advance(b: &mut BytesMut, cnt: usize)
    requires
        cnt <= buffered(*old(b)).len(),
    ensures
        buffered(*final(b)) == buffered(*old(b)).skip(cnt as int),
{
    b.advance(cnt)
}

/// `Buf::chunk`: the held bytes as one slice.
#[verifier::external_body]
pub(crate) fn buffer_bytes(b: &BytesMut) -> (s: &[u8])
    ensures
        s@ == buffered(*b),
{
    b.chunk()
}

} // verus!
