//! The byte buffers of the `bytes` crate, as the rest of the library sees them.

use bytes::{BufMut, Bytes, BytesMut};
use vstd::prelude::*;

verus! {

#[verifier::external_type_specification]
#[verifier::external_body]
pub struct ExBytes(Bytes);

#[verifier::external_type_specification]
#[verifier::external_body]
pub struct ExBytesMut(BytesMut);

/// The bytes that an immutable chunk holds, in order.
pub uninterp spec fn bytes_contents(b: Bytes) -> Seq<u8>;

/// The bytes that a growable buffer currently holds, in order.
pub uninterp spec fn bytes_mut_contents(b: BytesMut) -> Seq<u8>;

/// Relies on `Bytes::new`: a chunk with no bytes.
pub assume_specification[ Bytes::new ]() -> (r: Bytes)
    ensures
        bytes_contents(r) == Seq::<u8>::empty(),
;

/// Relies on `BytesMut::len`: the number of bytes held.
pub assume_specification[ BytesMut::len ](b: &BytesMut) -> (r: usize)
    ensures
        r == bytes_mut_contents(*b).len(),
;

/// Relies on `BytesMut::split_to`: the first `at` bytes move to the result and
/// the rest stay; it panics when `at` exceeds the length.
pub assume_specification[ BytesMut::split_to ](b: &mut BytesMut, at: usize) -> (r: BytesMut)
    requires
        at <= bytes_mut_contents(*old(b)).len(),
    ensures
        bytes_mut_contents(r) == bytes_mut_contents(*old(b)).subrange(0, at as int),
        bytes_mut_contents(*final(b)) == bytes_mut_contents(*old(b)).subrange(
            at as int,
            bytes_mut_contents(*old(b)).len() as int,
        ),
;

/// Relies on `BytesMut::freeze`: the same bytes, made immutable.
pub assume_specification[ BytesMut::freeze ](b: BytesMut) -> (r: Bytes)
    ensures
        bytes_contents(r) == bytes_mut_contents(b),
;

/// Relies on `BufMut::put_slice` of `BytesMut`: the chunk's bytes are appended
/// at the end. It reserves room first, which panics when the new length would
/// pass `isize::MAX`.
#[verifier::external_body]
pub(crate) fn put_chunk(dst: &mut BytesMut, item: &Bytes)
    requires
        bytes_mut_contents(*old(dst)).len() + bytes_contents(*item).len() <= isize::MAX,
    ensures
        bytes_mut_contents(*final(dst)) == bytes_mut_contents(*old(dst)) + bytes_contents(*item),
{
    dst.put_slice(item)
}

} // verus!
