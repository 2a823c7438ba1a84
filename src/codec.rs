//! The framing codec: one chunk is whatever is buffered when it is decoded.

use crate::buffer::{bytes_contents, bytes_mut_contents, put_chunk};
use bytes::{Bytes, BytesMut};
use vstd::prelude::*;

verus! {

#[verifier::external_type_specification]
#[verifier::external_body]
pub struct ExIoError(std::io::Error);

/// What decoding a buffer holding `buf` yields: the chunk taken out, if any,
/// and what the buffer holds afterwards.
pub open spec fn decoded(buf: Seq<u8>) -> (Option<Seq<u8>>, Seq<u8>) {
    if buf.len() == 0 {
        (None, buf)
    } else {
        (Some(buf), Seq::empty())
    }
}

/// What a buffer holding `buf` holds after `item` is encoded into it.
pub open spec fn encoded(buf: Seq<u8>, item: Seq<u8>) -> Seq<u8> {
    buf + item
}

/// A codec that frames nothing: bytes pass through unchanged.
pub struct RawCodec;

impl RawCodec {
    /// Takes everything buffered in `src` as one chunk; an empty buffer gives
    /// no chunk and is left as it is. It never fails.
    pub fn decode(&mut self, src: &mut BytesMut) -> (r: Result<Option<Bytes>, std::io::Error>)
        ensures
            r is Ok,
            (match r {
                Ok(Some(b)) => Some(bytes_contents(b)),
                _ => None,
            }) == decoded(bytes_mut_contents(*old(src))).0,
            bytes_mut_contents(*final(src)) == decoded(bytes_mut_contents(*old(src))).1,
    {
        let len = src.len();
        if len != 0 {
            let b = src.split_to(len);
            assert(bytes_mut_contents(*src) =~= Seq::<u8>::empty());
            assert(bytes_mut_contents(b) =~= bytes_mut_contents(*old(src)));
            return Ok(Some(b.freeze()));
        }
        Ok(None)
    }

    /// Appends the chunk's bytes to `dst` verbatim. It never fails.
    pub fn encode(&mut self, item: Bytes, dst: &mut BytesMut) -> (r: Result<(), std::io::Error>)
        requires
            bytes_mut_contents(*old(dst)).len() + bytes_contents(item).len() <= isize::MAX,
        ensures
            r is Ok,
            bytes_mut_contents(*final(dst)) == encoded(
                bytes_mut_contents(*old(dst)),
                bytes_contents(item),
            ),
    {
        put_chunk(dst, &item);
        Ok(())
    }
}

/// Encoding a non-empty chunk into an empty buffer and then decoding gives back
/// exactly that chunk in one step, and leaves the buffer empty.
pub proof fn lemma_round_trip(item: Seq<u8>)
    requires
        item.len() > 0,
    ensures
        decoded(encoded(Seq::empty(), item)) == (Some(item), Seq::<u8>::empty()),
{
    assert(encoded(Seq::empty(), item) =~= item);
}

/// Decoding an empty buffer yields no chunk, and the buffer stays as it was.
pub proof fn lemma_decode_empty(buf: Seq<u8>)
    requires
        buf.len() == 0,
    ensures
        decoded(buf) == (None::<Seq<u8>>, buf),
{
}

} // verus!
