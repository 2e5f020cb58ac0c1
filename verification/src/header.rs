//! The fixed header that every packet starts with: a byte that holds the
//! packet's kind and four flag bits, then the length of what follows.

use crate::buffer::contents;
use crate::decoder::{read_length, read_u8};
use crate::error::CodecError;
use crate::wire::{read_length_spec, read_u8_spec, Outcome};
use bytes::BytesMut;
use vstd::prelude::*;

verus! {

/// The kinds of control packet.
#[derive(Debug, Clone, Copy, PartialEq, Eq, Structural)]
pub enum PacketType {
    Connect,
    Connack,
    Publish,
    Puback,
    Pubrec,
    Pubrel,
    Pubcomp,
    Subscribe,
    Suback,
    Unsubscribe,
    Unsuback,
    Pingreq,
    Pingresp,
    Disconnect,
}

/// The kind that the high half of a packet's first byte stands for: the
/// numbers 1 to 14 stand for one each, 0 and 15 for none.
pub open spec fn packet_type_of(nibble: u8) -> Option<PacketType> {
    if nibble == 1 {
        Some(PacketType::Connect)
    } else if nibble == 2 {
        Some(PacketType::Connack)
    } else if nibble == 3 {
        Some(PacketType::Publish)
    } else if nibble == 4 {
        Some(PacketType::Puback)
    } else if nibble == 5 {
        Some(PacketType::Pubrec)
    } else if nibble == 6 {
        Some(PacketType::Pubrel)
    } else if nibble == 7 {
        Some(PacketType::Pubcomp)
    } else if nibble == 8 {
        Some(PacketType::Subscribe)
    } else if nibble == 9 {
        Some(PacketType::Suback)
    } else if nibble == 10 {
        Some(PacketType::Unsubscribe)
    } else if nibble == 11 {
        Some(PacketType::Unsuback)
    } else if nibble == 12 {
        Some(PacketType::Pingreq)
    } else if nibble == 13 {
        Some(PacketType::Pingresp)
    } else if nibble == 14 {
        Some(PacketType::Disconnect)
    } else {
        None
    }
}

impl PacketType {
    /// The number that stands for a kind.
    pub open spec fn wire(self) -> u8 {
        match self {
            PacketType::Connect => 1,
            PacketType::Connack => 2,
            PacketType::Publish => 3,
            PacketType::Puback => 4,
            PacketType::Pubrec => 5,
            PacketType::Pubrel => 6,
            PacketType::Pubcomp => 7,
            PacketType::Subscribe => 8,
            PacketType::Suback => 9,
            PacketType::Unsubscribe => 10,
            PacketType::Unsuback => 11,
            PacketType::Pingreq => 12,
            PacketType::Pingresp => 13,
            PacketType::Disconnect => 14,
        }
    }

    /// The number that stands for the kind.
    pub fn to_u8(&self) -> (nibble: u8)
        ensures
            nibble == self.wire(),
    {
        match *self {
            PacketType::Connect => 1,
            PacketType::Connack => 2,
            PacketType::Publish => 3,
            PacketType::Puback => 4,
            PacketType::Pubrec => 5,
            PacketType::Pubrel => 6,
            PacketType::Pubcomp => 7,
            PacketType::Subscribe => 8,
            PacketType::Suback => 9,
            PacketType::Unsubscribe => 10,
            PacketType::Unsuback => 11,
            PacketType::Pingreq => 12,
            PacketType::Pingresp => 13,
            PacketType::Disconnect => 14,
        }
    }

    /// The kind that a number stands for; 0 and above 14 stand for none.
    pub fn from_u8(nibble: u8) -> (r: Result<PacketType, CodecError>)
        ensures
            r == match packet_type_of(nibble) {
                Some(kind) => Ok::<PacketType, CodecError>(kind),
                None => Err(CodecError::InvalidEnumValue),
            },
    {
        match nibble {
            1 => Ok(PacketType::Connect),
            2 => Ok(PacketType::Connack),
            3 => Ok(PacketType::Publish),
            4 => Ok(PacketType::Puback),
            5 => Ok(PacketType::Pubrec),
            6 => Ok(PacketType::Pubrel),
            7 => Ok(PacketType::Pubcomp),
            8 => Ok(PacketType::Subscribe),
            9 => Ok(PacketType::Suback),
            10 => Ok(PacketType::Unsubscribe),
            11 => Ok(PacketType::Unsuback),
            12 => Ok(PacketType::Pingreq),
            13 => Ok(PacketType::Pingresp),
            14 => Ok(PacketType::Disconnect),
            _ => Err(CodecError::InvalidEnumValue),
        }
    }

    /// Reading back the number of a kind gives the kind.
    pub proof fn lemma_wire_round_trip(self)
        ensures
            packet_type_of(self.wire()) == Some(self),
    {
    }
}

/// A fixed header: the packet's kind, its four flag bits, and the number of
/// bytes that follow the header.
#[derive(Debug, Clone, Copy, PartialEq, Eq, Structural)]
pub struct Header {
    pub typ: PacketType,
    pub flags: u8,
    pub len: usize,
}

/// Reads a fixed header: the first byte gives the kind in its high half and
/// the flags in its low half; the remaining length follows. The length is
/// not read where the first byte names no kind.
pub open spec fn read_header_spec(s: Seq<u8>) -> Outcome<Header> {
    let (first, after_first) = read_u8_spec(s);
    match first {
        Err(e) => (Err(e), after_first),
        Ok(first) => match packet_type_of(first / 16) {
            None => (Err(CodecError::InvalidEnumValue), after_first),
            Some(typ) => {
                let (len, after_len) = read_length_spec(after_first);
                match len {
                    Err(e) => (Err(e), after_len),
                    Ok(len) => (
                        Ok((Header { typ, flags: first % 16, len: len as usize })),
                        after_len,
                    ),
                }
            },
        },
    }
}

impl Header {
    /// Reads a fixed header off the front of the buffer.
    pub fn from_buffer(buffer: &mut BytesMut) -> (r: Result<Header, CodecError>)
        ensures
            (r, contents(*final(buffer))) == read_header_spec(contents(*old(buffer))),
    {
        let first = match read_u8(buffer) {
            Ok(first) => first,
            Err(e) => return Err(e),
        };
        assert(first >> 4 == first / 16 && first & 0b1111 == first % 16) by (bit_vector);
        let typ = match PacketType::from_u8(first >> 4) {
            Ok(typ) => typ,
            Err(e) => return Err(e),
        };
        let len = match read_length(buffer) {
            Ok(len) => len,
            Err(e) => return Err(e),
        };
        Ok(Header { typ, flags: first & 0b1111, len })
    }
}

} // verus!
