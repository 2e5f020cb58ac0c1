//! The byte buffer of the `bytes` crate, as the codec sees it.
//!
//! Nothing here is proved: each function states what the `bytes` crate does,
//! over the sequence of bytes that a buffer holds.

use bytes::{Buf, BufMut, BytesMut, IntoBuf};
use vstd::prelude::*;

verus! {

#[verifier::external_type_specification]
#[verifier::external_body]
pub struct ExBytesMut(bytes::BytesMut);

/// The bytes that a buffer holds, first to last.
pub uninterp spec fn contents(buf: BytesMut) -> Seq<u8>;

/// `BytesMut::len`: the number of bytes held.
#[verifier::external_body]
pub(crate) fn len(buf: &BytesMut) -> (n: usize)
    ensures
        n == contents(*buf).len(),
{
    buf.len()
}

/// `BytesMut::split_to`: the first `at` bytes leave the buffer and are
/// returned; the buffer keeps the rest. The call panics where `at` is above
/// the length, which `requires` rules out.
#[verifier::external_body]
pub(crate) fn split_to(buf: &mut BytesMut, at: usize) -> (head: BytesMut)
    requires
        at <= contents(*old(buf)).len(),
    ensures
        contents(head) == contents(*old(buf)).subrange(0, at as int),
        contents(*final(buf)) == contents(*old(buf)).subrange(
            at as int,
            contents(*old(buf)).len() as int,
        ),
{
    buf.split_to(at)
}

/// `Buf::get_u8` on the cursor that `IntoBuf::into_buf` makes of a buffer:
/// its first byte. The call panics on an empty buffer.
#[verifier::external_body]
pub(crate) fn get_u8(head: BytesMut) -> (b: u8)
    requires
        contents(head).len() >= 1,
    ensures
        b == contents(head)[0],
{
    head.into_buf().get_u8()
}

/// `Buf::get_u16_be` on the cursor that `IntoBuf::into_buf` makes of a
/// buffer: its first two bytes as a big-endian number. The call panics on
/// fewer than two bytes.
#[verifier::external_body]
pub(crate) fn get_u16_be(head: BytesMut) -> (n: u16)
    requires
        contents(head).len() >= 2,
    ensures
        n == contents(head)[0] * 256 + contents(head)[1],
{
    head.into_buf().get_u16_be()
}

/// The buffer's bytes as a vector, through its `Deref` to a slice.
#[verifier::external_body]
pub(crate) fn to_vec(head: &BytesMut) -> (v: Vec<u8>)
    ensures
        v@ == contents(*head),
{
    head.to_vec()
}

/// `BytesMut::reserve` for one byte, then `BufMut::put_u8`: the byte is
/// appended. `reserve` panics where the new capacity overflows `usize`.
#[verifier::external_body]
pub(crate) fn put_u8(buf: &mut BytesMut, n: u8)
    requires
        contents(*old(buf)).len() + 1 <= usize::MAX,
    ensures
        contents(*final(buf)) == contents(*old(buf)).push(n),
{
    buf.reserve(1);
    buf.put_u8(n);
}

/// `BytesMut::reserve` for two bytes, then `BufMut::put_u16_be`: the high
/// byte, then the low byte, are appended.
#[verifier::external_body]
pub(crate) fn put_u16_be(buf: &mut BytesMut, n: u16)
    requires
        contents(*old(buf)).len() + 2 <= usize::MAX,
    ensures
        contents(*final(buf)) == contents(*old(buf)).push((n / 256) as u8).push((n % 256) as u8),
{
    buf.reserve(2);
    buf.put_u16_be(n);
}

/// `BytesMut::extend_from_slice`: the slice's bytes are appended, the buffer
/// growing as needed.
#[verifier::external_body]
pub(crate) fn extend_from_slice(buf: &mut BytesMut, src: &[u8])
    requires
        contents(*old(buf)).len() + src@.len() <= usize::MAX,
    ensures
        contents(*final(buf)) == contents(*old(buf)) + src@,
{
    buf.extend_from_slice(src);
}

} // verus!
