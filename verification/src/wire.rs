//! The wire format of the fields that packets are made of, as functions on
//! sequences of bytes.
//!
//! A reader is a function from the bytes at hand to an outcome: the value
//! read or the reason why none was, together with the bytes that are left.
//! A writer is a function from a value to the bytes that stand for it.

use crate::error::CodecError;
use vstd::prelude::*;
use vstd::utf8::*;

verus! {

/// The largest number that a remaining-length field can hold.
pub const MAX_LENGTH: usize = 268_435_455;

/// The largest number of bytes in a length-prefixed field.
pub const MAX_FIELD: usize = 65_535;

/// What a reader makes of some bytes: what it read, and what it left.
pub type Outcome<T> = (Result<T, CodecError>, Seq<u8>);

/// Reads one byte.
pub open spec fn read_u8_spec(s: Seq<u8>) -> Outcome<u8> {
    if s.len() >= 1 {
        (Ok(s[0]), s.skip(1))
    } else {
        (Err(CodecError::Truncated), s)
    }
}

/// Reads a big-endian 16-bit number.
pub open spec fn read_u16_spec(s: Seq<u8>) -> Outcome<u16> {
    if s.len() >= 2 {
        (Ok((s[0] * 256 + s[1]) as u16), s.skip(2))
    } else {
        (Err(CodecError::Truncated), s)
    }
}

/// Reads a packet identifier: a 16-bit number that is not zero.
pub open spec fn read_pid_spec(s: Seq<u8>) -> Outcome<u16> {
    let (number, rest) = read_u16_spec(s);
    match number {
        Err(e) => (Err(e), rest),
        Ok(number) => if number == 0 {
            (Err(CodecError::ZeroIdentifier), rest)
        } else {
            (Ok(number), rest)
        },
    }
}

/// Reads a binary field: a big-endian 16-bit length, then that many bytes.
/// Where the bytes run out after the length, the length is gone all the same.
pub open spec fn read_bytes_spec(s: Seq<u8>) -> Outcome<Seq<u8>> {
    if s.len() < 2 {
        (Err(CodecError::MalformedField), s)
    } else {
        let n = s[0] * 256 + s[1];
        if s.len() - 2 < n {
            (Err(CodecError::MalformedField), s.skip(2))
        } else {
            (Ok(s.subrange(2, 2 + n)), s.skip(2 + n))
        }
    }
}

/// Whether bytes are well-formed UTF-8.
#[verifier::opaque]
pub open spec fn is_text(bytes: Seq<u8>) -> bool {
    valid_utf8(bytes)
}

/// The text that well-formed UTF-8 encodes.
#[verifier::opaque]
pub open spec fn text_of(bytes: Seq<u8>) -> Seq<char> {
    decode_utf8(bytes)
}

/// Reads a text field: a binary field that holds UTF-8.
pub open spec fn read_string_spec(s: Seq<u8>) -> Outcome<Seq<char>> {
    let (field, rest) = read_bytes_spec(s);
    match field {
        Ok(bytes) => if is_text(bytes) {
            (Ok(text_of(bytes)), rest)
        } else {
            (Err(CodecError::MalformedField), rest)
        },
        Err(e) => (Err(e), rest),
    }
}

/// Reads a remaining length of at most `left` bytes: seven bits a byte, the
/// low bits first, the high bit of a byte saying that another follows.
pub open spec fn read_length_from(s: Seq<u8>, left: nat) -> Outcome<nat>
    decreases left,
{
    if left == 0 || s.len() == 0 {
        (Err(CodecError::MalformedLength), s)
    } else if s[0] < 128 {
        (Ok(s[0] as nat), s.skip(1))
    } else {
        let (high, rest) = read_length_from(s.skip(1), (left - 1) as nat);
        match high {
            Ok(v) => (Ok((s[0] - 128 + 128 * v) as nat), rest),
            Err(e) => (Err(e), rest),
        }
    }
}

/// Reads a remaining length, which has at most four bytes.
pub open spec fn read_length_spec(s: Seq<u8>) -> Outcome<nat> {
    read_length_from(s, 4)
}

/// The two bytes of a big-endian 16-bit number.
pub open spec fn u16_bytes(n: u16) -> Seq<u8> {
    seq![(n / 256) as u8, (n % 256) as u8]
}

/// The bytes of a binary field of at most 65,535 bytes.
pub open spec fn field_bytes(payload: Seq<u8>) -> Seq<u8> {
    u16_bytes(payload.len() as u16) + payload
}

/// The bytes of a text field whose UTF-8 has at most 65,535 bytes.
pub open spec fn string_bytes(text: Seq<char>) -> Seq<u8> {
    field_bytes(encode_utf8(text))
}

/// The bytes of a remaining length.
pub open spec fn length_bytes(n: nat) -> Seq<u8>
    decreases n,
{
    if n < 128 {
        seq![n as u8]
    } else {
        seq![(n % 128 + 128) as u8] + length_bytes(n / 128)
    }
}

/// The number of bytes of a remaining length of at most 268,435,455.
pub open spec fn length_size(n: nat) -> nat {
    if n < 128 {
        1
    } else if n < 16_384 {
        2
    } else if n < 2_097_152 {
        3
    } else {
        4
    }
}

} // verus!
