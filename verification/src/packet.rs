//! Any control packet, and the two functions that read one from a buffer and
//! write one to it.

use crate::buffer::{contents, len, split_to};
use crate::connect::{
    connack_packet, connect_packet, fields_fit, read_connack_spec, read_connect_spec, Connack,
    Connect, ConnectView,
};
use crate::encoder::{has_room, write_u8};
use crate::error::CodecError;
use crate::header::{read_header_spec, Header, PacketType};
use crate::publish::{publish_body, publish_packet, read_publish_spec, Publish, PublishView};
use crate::subscribe::{
    filters_fit, read_suback_spec, read_subscribe_spec, read_unsubscribe_spec, suback_body,
    suback_packet, subscribe_body, subscribe_packet, topics_fit, unsubscribe_body,
    unsubscribe_packet, Suback, SubackView, Subscribe, SubscribeView, Unsubscribe, UnsubscribeView,
};
use crate::utils::PacketIdentifier;
use crate::wire::{read_pid_spec, u16_bytes, Outcome, MAX_FIELD, MAX_LENGTH};
use bytes::BytesMut;
use vstd::prelude::*;
use vstd::utf8::*;

verus! {

/// Any control packet.
#[derive(Debug, Clone, PartialEq)]
pub enum Packet {
    Connect(Connect),
    Connack(Connack),
    Publish(Publish),
    Puback(PacketIdentifier),
    Pubrec(PacketIdentifier),
    Pubrel(PacketIdentifier),
    Pubcomp(PacketIdentifier),
    Subscribe(Subscribe),
    Suback(Suback),
    Unsubscribe(Unsubscribe),
    Unsuback(PacketIdentifier),
    Pingreq,
    Pingresp,
    Disconnect,
}

/// What a control packet holds, as plain values.
pub ghost enum PacketView {
    Connect(ConnectView),
    Connack(Connack),
    Publish(PublishView),
    Puback(u16),
    Pubrec(u16),
    Pubrel(u16),
    Pubcomp(u16),
    Subscribe(SubscribeView),
    Suback(SubackView),
    Unsubscribe(UnsubscribeView),
    Unsuback(u16),
    Pingreq,
    Pingresp,
    Disconnect,
}

impl View for Packet {
    type V = PacketView;

    open spec fn view(&self) -> PacketView {
        match *self {
            Packet::Connect(connect) => PacketView::Connect(connect@),
            Packet::Connack(connack) => PacketView::Connack(connack),
            Packet::Publish(publish) => PacketView::Publish(publish@),
            Packet::Puback(pid) => PacketView::Puback(pid@),
            Packet::Pubrec(pid) => PacketView::Pubrec(pid@),
            Packet::Pubrel(pid) => PacketView::Pubrel(pid@),
            Packet::Pubcomp(pid) => PacketView::Pubcomp(pid@),
            Packet::Subscribe(subscribe) => PacketView::Subscribe(subscribe@),
            Packet::Suback(suback) => PacketView::Suback(suback@),
            Packet::Unsubscribe(unsubscribe) => PacketView::Unsubscribe(unsubscribe@),
            Packet::Unsuback(pid) => PacketView::Unsuback(pid@),
            Packet::Pingreq => PacketView::Pingreq,
            Packet::Pingresp => PacketView::Pingresp,
            Packet::Disconnect => PacketView::Disconnect,
        }
    }
}

/// What a reader made of a body, where the body must be read to its end:
/// bytes left over are trailing data.
pub open spec fn exact<T>(outcome: Outcome<T>) -> Result<T, CodecError> {
    match outcome.0 {
        Ok(value) => if outcome.1.len() == 0 {
            Ok(value)
        } else {
            Err(CodecError::TrailingData)
        },
        Err(e) => Err(e),
    }
}

/// The body of a packet that holds nothing: its header's flags must be zero
/// and no byte may follow the header.
pub open spec fn read_bare_spec(header: Header, body: Seq<u8>) -> Result<(), CodecError> {
    if header.flags != 0 {
        Err(CodecError::InvalidEnumValue)
    } else if body.len() != 0 {
        Err(CodecError::TrailingData)
    } else {
        Ok(())
    }
}

/// Reads a body that holds a connection request, to its end.
#[verifier::opaque]
pub open spec fn read_connect_body_spec(body: Seq<u8>) -> Result<ConnectView, CodecError> {
    exact(read_connect_spec(body))
}

/// Reads a body that holds an answer to a connection request, to its end.
#[verifier::opaque]
pub open spec fn read_connack_body_spec(body: Seq<u8>) -> Result<Connack, CodecError> {
    exact(read_connack_spec(body))
}

/// Reads a body that holds a publish packet, under the flags of its header, to its end.
#[verifier::opaque]
pub open spec fn read_publish_body_spec(flags: u8, body: Seq<u8>) -> Result<
    PublishView,
    CodecError,
> {
    exact(read_publish_spec(flags, body))
}

/// Reads a body that holds a request for topics, to its end.
#[verifier::opaque]
pub open spec fn read_subscribe_body_spec(body: Seq<u8>) -> Result<SubscribeView, CodecError> {
    exact(read_subscribe_spec(body))
}

/// Reads a body that holds an answer to a request for topics, to its end.
#[verifier::opaque]
pub open spec fn read_suback_body_spec(body: Seq<u8>) -> Result<SubackView, CodecError> {
    exact(read_suback_spec(body))
}

/// Reads a body that holds a request to give topics up, to its end.
#[verifier::opaque]
pub open spec fn read_unsubscribe_body_spec(body: Seq<u8>) -> Result<
    UnsubscribeView,
    CodecError,
> {
    exact(read_unsubscribe_spec(body))
}

/// Reads the body of a packet of the kind that its header names. The body
/// must be read to its end. The header's flags are looked at for a publish
/// packet, must be zero for a packet that holds nothing, and are not looked
/// at otherwise.
pub open spec fn read_body_spec(header: Header, body: Seq<u8>) -> Result<PacketView, CodecError> {
    match header.typ {
        PacketType::Connect => match read_connect_body_spec(body) {
            Ok(v) => Ok(PacketView::Connect(v)),
            Err(e) => Err(e),
        },
        PacketType::Connack => match read_connack_body_spec(body) {
            Ok(v) => Ok(PacketView::Connack(v)),
            Err(e) => Err(e),
        },
        PacketType::Publish => match read_publish_body_spec(header.flags, body) {
            Ok(v) => Ok(PacketView::Publish(v)),
            Err(e) => Err(e),
        },
        PacketType::Puback => match exact(read_pid_spec(body)) {
            Ok(v) => Ok(PacketView::Puback(v)),
            Err(e) => Err(e),
        },
        PacketType::Pubrec => match exact(read_pid_spec(body)) {
            Ok(v) => Ok(PacketView::Pubrec(v)),
            Err(e) => Err(e),
        },
        PacketType::Pubrel => match exact(read_pid_spec(body)) {
            Ok(v) => Ok(PacketView::Pubrel(v)),
            Err(e) => Err(e),
        },
        PacketType::Pubcomp => match exact(read_pid_spec(body)) {
            Ok(v) => Ok(PacketView::Pubcomp(v)),
            Err(e) => Err(e),
        },
        PacketType::Subscribe => match read_subscribe_body_spec(body) {
            Ok(v) => Ok(PacketView::Subscribe(v)),
            Err(e) => Err(e),
        },
        PacketType::Suback => match read_suback_body_spec(body) {
            Ok(v) => Ok(PacketView::Suback(v)),
            Err(e) => Err(e),
        },
        PacketType::Unsubscribe => match read_unsubscribe_body_spec(body) {
            Ok(v) => Ok(PacketView::Unsubscribe(v)),
            Err(e) => Err(e),
        },
        PacketType::Unsuback => match exact(read_pid_spec(body)) {
            Ok(v) => Ok(PacketView::Unsuback(v)),
            Err(e) => Err(e),
        },
        PacketType::Pingreq => match read_bare_spec(header, body) {
            Ok(_) => Ok(PacketView::Pingreq),
            Err(e) => Err(e),
        },
        PacketType::Pingresp => match read_bare_spec(header, body) {
            Ok(_) => Ok(PacketView::Pingresp),
            Err(e) => Err(e),
        },
        PacketType::Disconnect => match read_bare_spec(header, body) {
            Ok(_) => Ok(PacketView::Disconnect),
            Err(e) => Err(e),
        },
    }
}

/// Reads one packet: the fixed header, then as many bytes as the header
/// announces, which are the body. Where fewer bytes follow the header, the
/// packet is cut short and only the header is taken; else header and body
/// are taken, whether or not the body can be read.
pub open spec fn read_packet_spec(s: Seq<u8>) -> Outcome<PacketView> {
    let (header, after_header) = read_header_spec(s);
    match header {
        Err(e) => (Err(e), after_header),
        Ok(header) => if after_header.len() < header.len {
            (Err(CodecError::Truncated), after_header)
        } else {
            (
                read_body_spec(header, after_header.subrange(0, header.len as int)),
                after_header.skip(header.len as int),
            )
        },
    }
}

/// Whether a body was read to its end.
fn finish(body: &BytesMut) -> (r: Result<(), CodecError>)
    ensures
        r == if contents(*body).len() == 0 {
            Ok::<(), CodecError>(())
        } else {
            Err(CodecError::TrailingData)
        },
{
    if len(body) > 0 {
        Err(CodecError::TrailingData)
    } else {
        Ok(())
    }
}

/// Reads a body that holds an identifier and nothing else.
fn read_only_pid(body: &mut BytesMut) -> (r: Result<PacketIdentifier, CodecError>)
    ensures
        match r {
            Ok(pid) => exact(read_pid_spec(contents(*old(body)))) == Ok::<u16, CodecError>(pid@),
            Err(e) => exact(read_pid_spec(contents(*old(body)))) == Err::<u16, CodecError>(e),
        },
{
    let pid = match PacketIdentifier::from_buffer(body) {
        Ok(pid) => pid,
        Err(e) => return Err(e),
    };
    match finish(body) {
        Ok(()) => Ok(pid),
        Err(e) => Err(e),
    }
}

/// Reads a packet that holds nothing: its flags must be zero and its body empty.
fn read_bare(header: &Header, body: &BytesMut) -> (r: Result<(), CodecError>)
    ensures
        r == read_bare_spec(*header, contents(*body)),
{
    if header.flags != 0 {
        Err(CodecError::InvalidEnumValue)
    } else {
        finish(body)
    }
}

/// Reads a body that holds a connection request and nothing else.
fn read_connect_body(body: &mut BytesMut) -> (r: Result<Connect, CodecError>)
    ensures
        match r {
            Ok(packet) => read_connect_body_spec(contents(*old(body))) == Ok::<
                ConnectView,
                CodecError,
            >(packet@),
            Err(e) => read_connect_body_spec(contents(*old(body))) == Err::<
                ConnectView,
                CodecError,
            >(e),
        },
{
    reveal(read_connect_body_spec);
    let packet = match Connect::from_buffer(body) {
        Ok(packet) => packet,
        Err(e) => return Err(e),
    };
    match finish(body) {
        Ok(()) => Ok(packet),
        Err(e) => Err(e),
    }
}

/// Reads a body that holds an answer to a connection request and nothing else.
fn read_connack_body(body: &mut BytesMut) -> (r: Result<Connack, CodecError>)
    ensures
        match r {
            Ok(packet) => read_connack_body_spec(contents(*old(body))) == Ok::<
                Connack,
                CodecError,
            >(packet),
            Err(e) => read_connack_body_spec(contents(*old(body))) == Err::<
                Connack,
                CodecError,
            >(e),
        },
{
    reveal(read_connack_body_spec);
    let packet = match Connack::from_buffer(body) {
        Ok(packet) => packet,
        Err(e) => return Err(e),
    };
    match finish(body) {
        Ok(()) => Ok(packet),
        Err(e) => Err(e),
    }
}

/// Reads a body that holds a publish packet and nothing else.
fn read_publish_body(flags: u8, body: &mut BytesMut) -> (r: Result<Publish, CodecError>)
    ensures
        match r {
            Ok(packet) => read_publish_body_spec(flags, contents(*old(body))) == Ok::<
                PublishView,
                CodecError,
            >(packet@),
            Err(e) => read_publish_body_spec(flags, contents(*old(body))) == Err::<
                PublishView,
                CodecError,
            >(e),
        },
{
    reveal(read_publish_body_spec);
    let packet = match Publish::from_buffer(flags, body) {
        Ok(packet) => packet,
        Err(e) => return Err(e),
    };
    match finish(body) {
        Ok(()) => Ok(packet),
        Err(e) => Err(e),
    }
}

/// Reads a body that holds a request for topics and nothing else.
fn read_subscribe_body(body: &mut BytesMut) -> (r: Result<Subscribe, CodecError>)
    ensures
        match r {
            Ok(packet) => read_subscribe_body_spec(contents(*old(body))) == Ok::<
                SubscribeView,
                CodecError,
            >(packet@),
            Err(e) => read_subscribe_body_spec(contents(*old(body))) == Err::<
                SubscribeView,
                CodecError,
            >(e),
        },
{
    reveal(read_subscribe_body_spec);
    let packet = match Subscribe::from_buffer(body) {
        Ok(packet) => packet,
        Err(e) => return Err(e),
    };
    match finish(body) {
        Ok(()) => Ok(packet),
        Err(e) => Err(e),
    }
}

/// Reads a body that holds an answer to a request for topics and nothing else.
fn read_suback_body(body: &mut BytesMut) -> (r: Result<Suback, CodecError>)
    ensures
        match r {
            Ok(packet) => read_suback_body_spec(contents(*old(body))) == Ok::<
                SubackView,
                CodecError,
            >(packet@),
            Err(e) => read_suback_body_spec(contents(*old(body))) == Err::<
                SubackView,
                CodecError,
            >(e),
        },
{
    reveal(read_suback_body_spec);
    let packet = match Suback::from_buffer(body) {
        Ok(packet) => packet,
        Err(e) => return Err(e),
    };
    match finish(body) {
        Ok(()) => Ok(packet),
        Err(e) => Err(e),
    }
}

/// Reads a body that holds a request to give topics up and nothing else.
fn read_unsubscribe_body(body: &mut BytesMut) -> (r: Result<Unsubscribe, CodecError>)
    ensures
        match r {
            Ok(packet) => read_unsubscribe_body_spec(contents(*old(body))) == Ok::<
                UnsubscribeView,
                CodecError,
            >(packet@),
            Err(e) => read_unsubscribe_body_spec(contents(*old(body))) == Err::<
                UnsubscribeView,
                CodecError,
            >(e),
        },
{
    reveal(read_unsubscribe_body_spec);
    let packet = match Unsubscribe::from_buffer(body) {
        Ok(packet) => packet,
        Err(e) => return Err(e),
    };
    match finish(body) {
        Ok(()) => Ok(packet),
        Err(e) => Err(e),
    }
}

/// Reads the body of a packet of the kind that its header names; the
/// buffer holds the body and nothing else.
pub fn decode_body(header: &Header, body: &mut BytesMut) -> (r: Result<Packet, CodecError>)
    ensures
        match r {
            Ok(packet) => read_body_spec(*header, contents(*old(body))) == Ok::<
                PacketView,
                CodecError,
            >(packet@),
            Err(e) => read_body_spec(*header, contents(*old(body))) == Err::<
                PacketView,
                CodecError,
            >(e),
        },
{
    match header.typ {
        PacketType::Connect => match read_connect_body(body) {
            Ok(connect) => Ok(Packet::Connect(connect)),
            Err(e) => Err(e),
        },
        PacketType::Connack => match read_connack_body(body) {
            Ok(connack) => Ok(Packet::Connack(connack)),
            Err(e) => Err(e),
        },
        PacketType::Publish => match read_publish_body(header.flags, body) {
            Ok(publish) => Ok(Packet::Publish(publish)),
            Err(e) => Err(e),
        },
        PacketType::Puback => match read_only_pid(body) {
            Ok(pid) => Ok(Packet::Puback(pid)),
            Err(e) => Err(e),
        },
        PacketType::Pubrec => match read_only_pid(body) {
            Ok(pid) => Ok(Packet::Pubrec(pid)),
            Err(e) => Err(e),
        },
        PacketType::Pubrel => match read_only_pid(body) {
            Ok(pid) => Ok(Packet::Pubrel(pid)),
            Err(e) => Err(e),
        },
        PacketType::Pubcomp => match read_only_pid(body) {
            Ok(pid) => Ok(Packet::Pubcomp(pid)),
            Err(e) => Err(e),
        },
        PacketType::Subscribe => match read_subscribe_body(body) {
            Ok(subscribe) => Ok(Packet::Subscribe(subscribe)),
            Err(e) => Err(e),
        },
        PacketType::Suback => match read_suback_body(body) {
            Ok(suback) => Ok(Packet::Suback(suback)),
            Err(e) => Err(e),
        },
        PacketType::Unsubscribe => match read_unsubscribe_body(body) {
            Ok(unsubscribe) => Ok(Packet::Unsubscribe(unsubscribe)),
            Err(e) => Err(e),
        },
        PacketType::Unsuback => match read_only_pid(body) {
            Ok(pid) => Ok(Packet::Unsuback(pid)),
            Err(e) => Err(e),
        },
        PacketType::Pingreq => match read_bare(header, body) {
            Ok(()) => Ok(Packet::Pingreq),
            Err(e) => Err(e),
        },
        PacketType::Pingresp => match read_bare(header, body) {
            Ok(()) => Ok(Packet::Pingresp),
            Err(e) => Err(e),
        },
        PacketType::Disconnect => match read_bare(header, body) {
            Ok(()) => Ok(Packet::Disconnect),
            Err(e) => Err(e),
        },
    }
}

/// Reads one packet off the front of the buffer: the fixed header, then the
/// body that the header announces.
///
/// After a packet was read, and after a body was found that cannot be read,
/// the buffer starts with the byte that follows the packet. Where the buffer
/// holds less than the header announces, only the header is taken.
pub fn decode(buffer: &mut BytesMut) -> (r: Result<Packet, CodecError>)
    ensures
        match r {
            Ok(packet) => read_packet_spec(contents(*old(buffer))).0 == Ok::<
                PacketView,
                CodecError,
            >(packet@),
            Err(e) => read_packet_spec(contents(*old(buffer))).0 == Err::<PacketView, CodecError>(
                e,
            ),
        },
        contents(*final(buffer)) == read_packet_spec(contents(*old(buffer))).1,
{
    let header = match Header::from_buffer(buffer) {
        Ok(header) => header,
        Err(e) => return Err(e),
    };
    if len(buffer) < header.len {
        return Err(CodecError::Truncated);
    }
    let ghost after_header = contents(*buffer);
    let mut body = split_to(buffer, header.len);
    assert(contents(*buffer) =~= after_header.skip(header.len as int));
    decode_body(&header, &mut body)
}

/// A packet on the wire that holds an identifier and nothing else: its
/// first byte, the length 2, and the identifier.
pub open spec fn acknowledgement_packet(first: u8, pid: u16) -> Seq<u8> {
    seq![first, 2u8] + u16_bytes(pid)
}

/// A packet on the wire that holds nothing: its first byte and the length 0.
pub open spec fn bare_packet(first: u8) -> Seq<u8> {
    seq![first, 0u8]
}

/// A packet on the wire: fixed header, remaining length and body. The
/// header's flags are those of the message for a publish packet, 2 for the
/// release of a publication, for a request for topics and for a request to
/// give topics up, and 0 otherwise.
pub open spec fn packet_bytes(v: PacketView) -> Seq<u8> {
    match v {
        PacketView::Connect(connect) => connect_packet(connect),
        PacketView::Connack(connack) => connack_packet(connack),
        PacketView::Publish(publish) => publish_packet(publish),
        PacketView::Puback(pid) => acknowledgement_packet(0x40, pid),
        PacketView::Pubrec(pid) => acknowledgement_packet(0x50, pid),
        PacketView::Pubrel(pid) => acknowledgement_packet(0x62, pid),
        PacketView::Pubcomp(pid) => acknowledgement_packet(0x70, pid),
        PacketView::Subscribe(subscribe) => subscribe_packet(subscribe),
        PacketView::Suback(suback) => suback_packet(suback),
        PacketView::Unsubscribe(unsubscribe) => unsubscribe_packet(unsubscribe),
        PacketView::Unsuback(pid) => acknowledgement_packet(0xb0, pid),
        PacketView::Pingreq => bare_packet(0xc0),
        PacketView::Pingresp => bare_packet(0xd0),
        PacketView::Disconnect => bare_packet(0xe0),
    }
}

/// Why a packet cannot be written, whatever the buffer: a text or binary
/// field is too long for its length prefix, or, where none is, the body is
/// too long for a remaining length.
pub open spec fn packet_error(v: PacketView) -> Option<CodecError> {
    match v {
        PacketView::Connect(connect) => if fields_fit(connect) {
            None
        } else {
            Some(CodecError::FieldTooLong)
        },
        PacketView::Publish(publish) => if encode_utf8(publish.topic_name).len() > MAX_FIELD {
            Some(CodecError::FieldTooLong)
        } else if publish_body(publish).len() > MAX_LENGTH {
            Some(CodecError::MalformedLength)
        } else {
            None
        },
        PacketView::Subscribe(subscribe) => if !topics_fit(subscribe.topics) {
            Some(CodecError::FieldTooLong)
        } else if subscribe_body(subscribe).len() > MAX_LENGTH {
            Some(CodecError::MalformedLength)
        } else {
            None
        },
        PacketView::Suback(suback) => if suback_body(suback).len() > MAX_LENGTH {
            Some(CodecError::MalformedLength)
        } else {
            None
        },
        PacketView::Unsubscribe(unsubscribe) => if !filters_fit(unsubscribe.topics) {
            Some(CodecError::FieldTooLong)
        } else if unsubscribe_body(unsubscribe).len() > MAX_LENGTH {
            Some(CodecError::MalformedLength)
        } else {
            None
        },
        _ => None,
    }
}

/// Appends a packet that holds an identifier and nothing else.
fn write_acknowledgement(first: u8, pid: PacketIdentifier, buffer: &mut BytesMut) -> (r: Result<
    (),
    CodecError,
>)
    ensures
        !has_room(contents(*old(buffer)).len(), 4) ==> r == Err::<(), CodecError>(
            CodecError::BufferFull,
        ) && contents(*final(buffer)) == contents(*old(buffer)),
        has_room(contents(*old(buffer)).len(), 4) ==> r is Ok && contents(*final(buffer))
            == contents(*old(buffer)) + acknowledgement_packet(first, pid@),
{
    if len(buffer) > usize::MAX - 4 {
        return Err(CodecError::BufferFull);
    }
    write_u8(first, buffer);
    write_u8(2, buffer);
    pid.to_buffer(buffer);
    assert(contents(*buffer) =~= contents(*old(buffer)) + acknowledgement_packet(first, pid@));
    Ok(())
}

/// Appends a packet that holds nothing.
fn write_bare(first: u8, buffer: &mut BytesMut) -> (r: Result<(), CodecError>)
    ensures
        !has_room(contents(*old(buffer)).len(), 2) ==> r == Err::<(), CodecError>(
            CodecError::BufferFull,
        ) && contents(*final(buffer)) == contents(*old(buffer)),
        has_room(contents(*old(buffer)).len(), 2) ==> r is Ok && contents(*final(buffer))
            == contents(*old(buffer)) + bare_packet(first),
{
    if len(buffer) > usize::MAX - 2 {
        return Err(CodecError::BufferFull);
    }
    write_u8(first, buffer);
    write_u8(0, buffer);
    assert(contents(*buffer) =~= contents(*old(buffer)) + bare_packet(first));
    Ok(())
}

/// Appends a packet to the buffer: fixed header, remaining length and body.
///
/// Nothing is written where the packet cannot be written at all or where
/// the buffer cannot take it.
pub fn encode(packet: &Packet, buffer: &mut BytesMut) -> (r: Result<(), CodecError>)
    ensures
        packet_error(packet@) is Some ==> r == Err::<(), CodecError>(
            packet_error(packet@)->Some_0,
        ),
        packet_error(packet@) is None && !has_room(
            contents(*old(buffer)).len(),
            packet_bytes(packet@).len(),
        ) ==> r == Err::<(), CodecError>(CodecError::BufferFull),
        packet_error(packet@) is None && has_room(
            contents(*old(buffer)).len(),
            packet_bytes(packet@).len(),
        ) ==> r is Ok,
        r is Ok ==> contents(*final(buffer)) == contents(*old(buffer)) + packet_bytes(packet@),
        r is Err ==> contents(*final(buffer)) == contents(*old(buffer)),
{
    match packet {
        Packet::Connect(connect) => connect.to_buffer(buffer),
        Packet::Connack(connack) => connack.to_buffer(buffer),
        Packet::Publish(publish) => publish.to_buffer(buffer),
        Packet::Puback(pid) => write_acknowledgement(0b01000000, *pid, buffer),
        Packet::Pubrec(pid) => write_acknowledgement(0b01010000, *pid, buffer),
        Packet::Pubrel(pid) => write_acknowledgement(0b01100010, *pid, buffer),
        Packet::Pubcomp(pid) => write_acknowledgement(0b01110000, *pid, buffer),
        Packet::Subscribe(subscribe) => subscribe.to_buffer(buffer),
        Packet::Suback(suback) => suback.to_buffer(buffer),
        Packet::Unsubscribe(unsubscribe) => unsubscribe.to_buffer(buffer),
        Packet::Unsuback(pid) => write_acknowledgement(0b10110000, *pid, buffer),
        Packet::Pingreq => write_bare(0b11000000, buffer),
        Packet::Pingresp => write_bare(0b11010000, buffer),
        Packet::Disconnect => write_bare(0b11100000, buffer),
    }
}

} // verus!
