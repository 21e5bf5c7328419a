//! The byte buffer that frames are read from and written to: `BytesMut` of
//! the `bytes` crate, with what the codec relies on stated for each of its
//! operations. Nothing here is proved; each statement is taken from the
//! crate's documentation and source.
//!
//! A buffer is known by the bytes it holds. How much room it has set aside
//! is not part of what is stated. Its length is kept within `isize::MAX`,
//! the most that an allocation holds: the buffer stores its bytes in a
//! `Vec`, which panics where it is asked for more.

use bytes::{Buf, BufMut, BytesMut};
use vstd::prelude::*;

verus! {

/// `bytes::BytesMut`, of which nothing is known but through the functions
/// below.
#[verifier::external_type_specification]
#[verifier::external_body]
pub struct ExBytesMut(bytes::BytesMut);

/// The bytes that a buffer holds, from its read position to its end.
pub uninterp spec fn buffer_bytes(buffer: BytesMut) -> Seq<u8>;

/// `BytesMut` dereferenced: the buffer's bytes as a slice.
#[verifier::external_body]
pub(crate) fn buffer_slice(buffer: &BytesMut) -> (r: &[u8])
    ensures
        r@ == buffer_bytes(*buffer),
{
    &buffer[..]
}

/// `BufMut::remaining_mut`: how many bytes may still be written. A
/// `BytesMut` grows as needed, so this is `usize::MAX` less its length.
#[verifier::external_body]
pub(crate) fn buffer_remaining_mut(buffer: &BytesMut) -> (r: usize)
    ensures
        r == usize::MAX - buffer_bytes(*buffer).len(),
{
    buffer.remaining_mut()
}

/// `BytesMut::reserve`: makes room for `additional` more bytes and leaves
/// the contents as they are. It panics where the new capacity overflows,
/// which `requires` rules out.
#[verifier::external_body]
pub(crate) fn buffer_reserve(buffer: &mut BytesMut, additional: usize)
    requires
        buffer_bytes(*old(buffer)).len() + additional <= isize::MAX,
    ensures
        buffer_bytes(*final(buffer)) == buffer_bytes(*old(buffer)),
{
    buffer.reserve(additional)
}

/// `BufMut::put_u8`: appends one byte. It panics where no capacity
/// remains or the storage cannot grow, which `requires` rules out.
#[verifier::external_body]
pub(crate) fn buffer_put_u8(buffer: &mut BytesMut, byte: u8)
    requires
        buffer_bytes(*old(buffer)).len() + 1 <= isize::MAX,
    ensures
        buffer_bytes(*final(buffer)) == buffer_bytes(*old(buffer)).push(byte),
{
    buffer.put_u8(byte)
}

/// `BufMut::put_slice`: appends the bytes of `src`. It panics where the
/// remaining capacity is less than `src` or the storage cannot grow, which
/// `requires` rules out.
#[verifier::external_body]
pub(crate) fn buffer_put_slice(buffer: &mut BytesMut, src: &[u8])
    requires
        buffer_bytes(*old(buffer)).len() + src@.len() <= isize::MAX,
    ensures
        buffer_bytes(*final(buffer)) == buffer_bytes(*old(buffer)) + src@,
{
    buffer.put_slice(src)
}

/// `Buf::advance`: moves the read position `cnt` bytes on, which drops
/// that many bytes from the front. It panics where `cnt` is more than the
/// buffer holds, which `requires` rules out.
#[verifier::external_body]
pub(crate) fn buffer_advance(buffer: &mut BytesMut, cnt: usize)
    requires
        cnt <= buffer_bytes(*old(buffer)).len(),
    ensures
        buffer_bytes(*final(buffer)) == buffer_bytes(*old(buffer)).skip(cnt as int),
{
    buffer.advance(cnt)
}

} // verus!
