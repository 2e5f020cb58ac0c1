//! Readers of the fields that packets are made of. Each takes what it reads
//! off the front of the buffer.

use crate::buffer::{contents, get_u16_be, get_u8, len, split_to, to_vec};
use crate::error::CodecError;
use crate::wire::{
    is_text, read_bytes_spec, read_length_from, read_length_spec, read_string_spec, read_u16_spec,
    read_u8_spec, text_of, Outcome,
};
use bytes::BytesMut;
use vstd::prelude::*;
use vstd::utf8::*;

verus! {

/// `String::from_utf8`: the text that the bytes encode, where they are
/// well-formed UTF-8, and nothing where they are not.
#[verifier::external_body]
fn string_from_utf8(bytes: Vec<u8>) -> (text: Option<String>)
    ensures
        text is Some <==> valid_utf8(bytes@),
        text is Some ==> encode_utf8(text->Some_0@) == bytes@,
{
    match String::from_utf8(bytes) {
        Ok(text) => Some(text),
        Err(_) => None,
    }
}

/// Reads one byte.
pub(crate) fn read_u8(buffer: &mut BytesMut) -> (r: Result<u8, CodecError>)
    ensures
        (r, contents(*final(buffer))) == read_u8_spec(contents(*old(buffer))),
{
    if len(buffer) < 1 {
        return Err(CodecError::Truncated);
    }
    let head = split_to(buffer, 1);
    assert(contents(*buffer) =~= contents(*old(buffer)).skip(1));
    Ok(get_u8(head))
}

/// Reads a big-endian 16-bit number.
pub(crate) fn read_u16(buffer: &mut BytesMut) -> (r: Result<u16, CodecError>)
    ensures
        (r, contents(*final(buffer))) == read_u16_spec(contents(*old(buffer))),
{
    if len(buffer) < 2 {
        return Err(CodecError::Truncated);
    }
    let head = split_to(buffer, 2);
    assert(contents(*buffer) =~= contents(*old(buffer)).skip(2));
    Ok(get_u16_be(head))
}

/// Reads a binary field: a 16-bit length and as many bytes.
pub fn read_bytes(buffer: &mut BytesMut) -> (r: Result<Vec<u8>, CodecError>)
    ensures
        match r {
            Ok(v) => read_bytes_spec(contents(*old(buffer))).0 == Ok::<Seq<u8>, CodecError>(v@),
            Err(e) => read_bytes_spec(contents(*old(buffer))).0 == Err::<Seq<u8>, CodecError>(e),
        },
        contents(*final(buffer)) == read_bytes_spec(contents(*old(buffer))).1,
{
    if len(buffer) < 2 {
        return Err(CodecError::MalformedField);
    }
    let head = split_to(buffer, 2);
    assert(contents(*buffer) =~= contents(*old(buffer)).skip(2));
    let n = get_u16_be(head) as usize;
    if len(buffer) < n {
        return Err(CodecError::MalformedField);
    }
    let field = split_to(buffer, n);
    assert(contents(*buffer) =~= contents(*old(buffer)).skip(2 + n));
    assert(contents(field) =~= contents(*old(buffer)).subrange(2, 2 + n));
    Ok(to_vec(&field))
}

/// Reads a text field: a binary field that holds UTF-8.
pub fn read_string(buffer: &mut BytesMut) -> (r: Result<String, CodecError>)
    ensures
        match r {
            Ok(text) => read_string_spec(contents(*old(buffer))).0 == Ok::<Seq<char>, CodecError>(
                text@,
            ),
            Err(e) => read_string_spec(contents(*old(buffer))).0 == Err::<Seq<char>, CodecError>(e),
        },
        contents(*final(buffer)) == read_string_spec(contents(*old(buffer))).1,
{
    reveal(is_text);
    reveal(text_of);
    match read_bytes(buffer) {
        Ok(bytes) => match string_from_utf8(bytes) {
            Some(text) => {
                proof {
                    encode_utf8_decode_utf8(text@);
                }
                Ok(text)
            },
            None => Err(CodecError::MalformedField),
        },
        Err(e) => Err(e),
    }
}

/// What a reader of the higher bytes of a remaining length found, seen from
/// the start of the field: `low` holds the bytes read before, and `unit` is
/// what one step of the higher bytes is worth.
pub open spec fn scaled(high: Outcome<nat>, low: nat, unit: nat) -> Outcome<nat> {
    match high.0 {
        Ok(v) => (Ok(low + unit * v), high.1),
        Err(e) => (Err(e), high.1),
    }
}

/// Reads a remaining length: at most four bytes, each giving seven bits, the
/// low ones first.
pub fn read_length(buffer: &mut BytesMut) -> (r: Result<usize, CodecError>)
    ensures
        match r {
            Ok(n) => read_length_spec(contents(*old(buffer))).0 == Ok::<nat, CodecError>(n as nat),
            Err(e) => read_length_spec(contents(*old(buffer))).0 == Err::<nat, CodecError>(e),
        },
        contents(*final(buffer)) == read_length_spec(contents(*old(buffer))).1,
        r is Ok ==> r->Ok_0 <= crate::wire::MAX_LENGTH,
{
    let ghost start = contents(*buffer);
    let mut value: usize = 0;
    let mut multiplier: usize = 1;
    let mut taken: usize = 0;
    while taken < 4
        invariant
            start == contents(*old(buffer)),
            taken <= 4,
            taken == 0 ==> multiplier == 1,
            taken == 1 ==> multiplier == 128,
            taken == 2 ==> multiplier == 16_384,
            taken == 3 ==> multiplier == 2_097_152,
            taken == 4 ==> multiplier == 268_435_456,
            value < multiplier,
            read_length_spec(start) == scaled(
                read_length_from(contents(*buffer), (4 - taken) as nat),
                value as nat,
                multiplier as nat,
            ),
        decreases 4 - taken,
    {
        if len(buffer) < 1 {
            return Err(CodecError::MalformedLength);
        }
        let ghost before = contents(*buffer);
        let head = split_to(buffer, 1);
        let byte = get_u8(head);
        assert(contents(*buffer) =~= before.skip(1));
        if byte < 128 {
            assert(multiplier * byte <= multiplier * 127) by (nonlinear_arith)
                requires
                    byte <= 127,
            ;
            return Ok(value + multiplier * (byte as usize));
        }
        proof {
            let high = read_length_from(before.skip(1), (4 - taken - 1) as nat);
            if high.0 is Ok {
                let v = high.0->Ok_0;
                assert(multiplier * (byte - 128 + 128 * v) == multiplier * (byte - 128) + (
                multiplier * 128) * v) by (nonlinear_arith);
            }
            assert(multiplier * (byte - 128) <= multiplier * 127) by (nonlinear_arith)
                requires
                    byte - 128 <= 127,
            ;
        }
        value = value + multiplier * ((byte - 128) as usize);
        multiplier = multiplier * 128;
        taken = taken + 1;
    }
    Err(CodecError::MalformedLength)
}

} // verus!
