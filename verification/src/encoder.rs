//! Writers of the fields that packets are made of. Each appends to the
//! buffer, or fails and leaves it as it was.

use crate::buffer::{contents, extend_from_slice, len, put_u16_be, put_u8};
use crate::error::CodecError;
use crate::wire::{
    field_bytes, length_bytes, length_size, string_bytes, u16_bytes, MAX_FIELD, MAX_LENGTH,
};
use bytes::BytesMut;
use vstd::prelude::*;
use vstd::utf8::*;

verus! {

/// A remaining length of at most 268,435,455 takes one to four bytes.
pub proof fn lemma_length_size(n: nat)
    requires
        n <= MAX_LENGTH,
    ensures
        length_bytes(n).len() == length_size(n),
{
    reveal_with_fuel(length_bytes, 5);
}

/// Whether a buffer that holds `held` bytes can take `more`.
pub open spec fn has_room(held: nat, more: nat) -> bool {
    held + more <= usize::MAX
}

/// Appends one byte.
pub(crate) fn write_u8(byte: u8, buffer: &mut BytesMut)
    requires
        has_room(contents(*old(buffer)).len(), 1),
    ensures
        contents(*final(buffer)) == contents(*old(buffer)) + seq![byte],
{
    put_u8(buffer, byte);
    assert(contents(*buffer) =~= contents(*old(buffer)) + seq![byte]);
}

/// Appends a big-endian 16-bit number.
pub(crate) fn write_u16(n: u16, buffer: &mut BytesMut)
    requires
        has_room(contents(*old(buffer)).len(), 2),
    ensures
        contents(*final(buffer)) == contents(*old(buffer)) + u16_bytes(n),
{
    put_u16_be(buffer, n);
    assert(contents(*buffer) =~= contents(*old(buffer)) + u16_bytes(n));
}

/// The number of bytes of a remaining length.
pub(crate) fn size_of_length(length: usize) -> (size: usize)
    requires
        length <= MAX_LENGTH,
    ensures
        size == length_size(length as nat),
        size == length_bytes(length as nat).len(),
        1 <= size <= 4,
{
    proof {
        lemma_length_size(length as nat);
    }
    if length < 128 {
        1
    } else if length < 16_384 {
        2
    } else if length < 2_097_152 {
        3
    } else {
        4
    }
}

/// Appends a remaining length that is known to fit.
pub(crate) fn put_length(length: usize, buffer: &mut BytesMut)
    requires
        length <= MAX_LENGTH,
        has_room(contents(*old(buffer)).len(), length_size(length as nat)),
    ensures
        contents(*final(buffer)) == contents(*old(buffer)) + length_bytes(length as nat),
{
    let mut value: usize = length;
    while value >= 128
        invariant
            value <= MAX_LENGTH,
            has_room(contents(*buffer).len(), length_size(value as nat)),
            contents(*buffer) + length_bytes(value as nat) == contents(*old(buffer)) + length_bytes(
                length as nat,
            ),
        decreases value,
    {
        let ghost before = contents(*buffer);
        write_u8((value % 128) as u8 + 128, buffer);
        proof {
            let byte = ((value % 128) as u8 + 128) as u8;
            assert(before + length_bytes(value as nat) =~= (before + seq![byte]) + length_bytes(
                (value / 128) as nat,
            ));
        }
        value = value / 128;
    }
    write_u8(value as u8, buffer);
}

/// Appends a binary field that is known to fit.
pub(crate) fn put_bytes(payload: &[u8], buffer: &mut BytesMut)
    requires
        payload@.len() <= MAX_FIELD,
        has_room(contents(*old(buffer)).len(), 2 + payload@.len()),
    ensures
        contents(*final(buffer)) == contents(*old(buffer)) + field_bytes(payload@),
        contents(*final(buffer)).len() == contents(*old(buffer)).len() + 2 + payload@.len(),
{
    write_u16(payload.len() as u16, buffer);
    extend_from_slice(buffer, payload);
    assert(contents(*buffer) =~= contents(*old(buffer)) + field_bytes(payload@));
}

/// Appends a text field that is known to fit.
pub(crate) fn put_string(text: &str, buffer: &mut BytesMut)
    requires
        encode_utf8(text@).len() <= MAX_FIELD,
        has_room(contents(*old(buffer)).len(), 2 + encode_utf8(text@).len()),
    ensures
        contents(*final(buffer)) == contents(*old(buffer)) + string_bytes(text@),
        contents(*final(buffer)).len() == contents(*old(buffer)).len() + 2 + encode_utf8(
            text@,
        ).len(),
{
    put_bytes(text.as_bytes(), buffer)
}

/// Appends a remaining length: seven bits a byte, the low ones first, the
/// high bit set on every byte but the last.
pub fn write_length(length: usize, buffer: &mut BytesMut) -> (r: Result<(), CodecError>)
    ensures
        length > MAX_LENGTH ==> r == Err::<(), CodecError>(CodecError::MalformedLength),
        length <= MAX_LENGTH && !has_room(contents(*old(buffer)).len(), length_size(length as nat))
            ==> r == Err::<(), CodecError>(CodecError::BufferFull),
        length <= MAX_LENGTH && has_room(contents(*old(buffer)).len(), length_size(length as nat))
            ==> r is Ok,
        r is Ok ==> contents(*final(buffer)) == contents(*old(buffer)) + length_bytes(
            length as nat,
        ),
        r is Err ==> contents(*final(buffer)) == contents(*old(buffer)),
{
    if length > MAX_LENGTH {
        return Err(CodecError::MalformedLength);
    }
    let size = size_of_length(length);
    if len(buffer) > usize::MAX - size {
        return Err(CodecError::BufferFull);
    }
    put_length(length, buffer);
    Ok(())
}

/// Appends a binary field: its length as a 16-bit number, then its bytes.
pub fn write_bytes(payload: &[u8], buffer: &mut BytesMut) -> (r: Result<(), CodecError>)
    ensures
        payload@.len() > MAX_FIELD ==> r == Err::<(), CodecError>(CodecError::FieldTooLong),
        payload@.len() <= MAX_FIELD && !has_room(contents(*old(buffer)).len(), 2 + payload@.len())
            ==> r == Err::<(), CodecError>(CodecError::BufferFull),
        payload@.len() <= MAX_FIELD && has_room(contents(*old(buffer)).len(), 2 + payload@.len())
            ==> r is Ok,
        r is Ok ==> contents(*final(buffer)) == contents(*old(buffer)) + field_bytes(payload@),
        r is Err ==> contents(*final(buffer)) == contents(*old(buffer)),
{
    let n = payload.len();
    if n > MAX_FIELD {
        return Err(CodecError::FieldTooLong);
    }
    if len(buffer) > usize::MAX - 2 - n {
        return Err(CodecError::BufferFull);
    }
    put_bytes(payload, buffer);
    Ok(())
}

/// Appends a text field: the length of its UTF-8 as a 16-bit number, then
/// the UTF-8.
pub fn write_string(text: &str, buffer: &mut BytesMut) -> (r: Result<(), CodecError>)
    ensures
        encode_utf8(text@).len() > MAX_FIELD ==> r == Err::<(), CodecError>(
            CodecError::FieldTooLong,
        ),
        encode_utf8(text@).len() <= MAX_FIELD && !has_room(
            contents(*old(buffer)).len(),
            2 + encode_utf8(text@).len(),
        ) ==> r == Err::<(), CodecError>(CodecError::BufferFull),
        encode_utf8(text@).len() <= MAX_FIELD && has_room(
            contents(*old(buffer)).len(),
            2 + encode_utf8(text@).len(),
        ) ==> r is Ok,
        r is Ok ==> contents(*final(buffer)) == contents(*old(buffer)) + string_bytes(text@),
        r is Err ==> contents(*final(buffer)) == contents(*old(buffer)),
{
    write_bytes(text.as_bytes(), buffer)
}

} // verus!
