//! Every packet that can be written is read back as it was: the laws that
//! tie the readers of whole packets to the writers.

use crate::connect::{
    connack_body, connect_body, lemma_connect_body_len, lemma_protocol_name_bytes, Connack,
};
use crate::error::CodecError;
use crate::header::{Header, PacketType};
use crate::packet::{
    packet_bytes, packet_error, read_body_spec, read_connack_body_spec, read_connect_body_spec,
    read_packet_spec, read_publish_body_spec, read_suback_body_spec, read_subscribe_body_spec,
    read_unsubscribe_body_spec, PacketView,
};
use crate::publish::{
    dup_bit, pid_bytes, publish_body, publish_flags, qos_bits, read_publish_spec, read_qos_pid_spec,
    retain_bit, PublishView,
};
use crate::round_trip::{
    header_bytes, lemma_connack_round_trip, lemma_connect_round_trip, lemma_header_round_trip,
    lemma_string_round_trip, lemma_u16_round_trip, lemma_u8_round_trip,
};
use crate::subscribe::{
    codes_bytes, filters_bytes, filters_fit, read_codes_spec, read_filters_spec, read_suback_spec,
    read_subscribe_spec, read_topic_spec, read_topics_spec, read_unsubscribe_spec, suback_body,
    subscribe_body, topic_bytes, topics_bytes, topics_fit, unsubscribe_body, SubackView,
    SubscribeReturnCodes, SubscribeTopicView, SubscribeView, UnsubscribeView,
};
use crate::utils::{qos_of, QosPidView};
use crate::wire::{length_bytes, read_pid_spec, string_bytes, u16_bytes, MAX_FIELD, MAX_LENGTH};
use vstd::prelude::*;
use vstd::utf8::*;

verus! {

/// An identifier that is not zero is read back as it was written.
pub proof fn lemma_pid_round_trip(pid: u16, rest: Seq<u8>)
    requires
        pid != 0,
    ensures
        read_pid_spec(u16_bytes(pid) + rest) == (Ok::<u16, CodecError>(pid), rest),
{
    lemma_u16_round_trip(pid, rest);
}

/// The flags of a publish packet say how the message is delivered.
pub proof fn lemma_publish_flags_round_trip(v: PublishView)
    ensures
        publish_flags(v) < 16,
        dup_bit(publish_flags(v)) == v.dup,
        retain_bit(publish_flags(v)) == v.retain,
        qos_of(qos_bits(publish_flags(v))) == Some(v.qospid.qos()),
{
}

/// The body of a publish packet is read back, under the packet's flags, as
/// the packet that it was written from, where the identifier is not zero
/// and the topic fits its length prefix. The whole body is read.
pub proof fn lemma_publish_round_trip(v: PublishView)
    requires
        v.qospid.valid(),
        encode_utf8(v.topic_name).len() <= MAX_FIELD,
    ensures
        read_publish_spec(publish_flags(v), publish_body(v)) == (
            Ok::<PublishView, CodecError>(v),
            Seq::<u8>::empty(),
        ),
{
    lemma_publish_flags_round_trip(v);
    let after_topic = pid_bytes(v.qospid.pid()) + v.payload;
    assert(publish_body(v) =~= string_bytes(v.topic_name) + after_topic);
    lemma_string_round_trip(v.topic_name, after_topic);
    match v.qospid.pid() {
        None => {
            assert(after_topic =~= v.payload);
        },
        Some(pid) => {
            lemma_u16_round_trip(pid, v.payload);
        },
    }
    assert(read_qos_pid_spec(after_topic, v.qospid.qos()) == (
        Ok::<QosPidView, CodecError>(v.qospid),
        v.payload,
    ));
}

/// One requested topic whose filter fits is read back as it was written.
pub proof fn lemma_topic_round_trip(topic: SubscribeTopicView, rest: Seq<u8>)
    requires
        encode_utf8(topic.topic_path).len() <= MAX_FIELD,
    ensures
        read_topic_spec(topic_bytes(topic) + rest) == (
            Ok::<SubscribeTopicView, CodecError>(topic),
            rest,
        ),
        topic_bytes(topic).len() > 0,
{
    let after_path = seq![topic.qos.wire()] + rest;
    assert(topic_bytes(topic) + rest =~= string_bytes(topic.topic_path) + after_path);
    lemma_string_round_trip(topic.topic_path, after_path);
    lemma_u8_round_trip(topic.qos.wire(), rest);
    topic.qos.lemma_wire_round_trip();
}

/// Requested topics whose filters fit are read back as they were written.
pub proof fn lemma_topics_round_trip(topics: Seq<SubscribeTopicView>)
    requires
        topics_fit(topics),
    ensures
        read_topics_spec(topics_bytes(topics)) == (
            Ok::<Seq<SubscribeTopicView>, CodecError>(topics),
            Seq::<u8>::empty(),
        ),
    decreases topics.len(),
{
    if topics.len() == 0 {
        assert(topics =~= Seq::empty());
    } else {
        let others = topics.drop_first();
        assert forall|i: int| 0 <= i < others.len() implies encode_utf8(
            #[trigger] others[i].topic_path,
        ).len() <= MAX_FIELD by {
            assert(others[i] == topics[i + 1]);
        }
        lemma_topic_round_trip(topics[0], topics_bytes(others));
        lemma_topics_round_trip(others);
        assert(seq![topics[0]] + others =~= topics);
    }
}

/// The body of a request for topics is read back as the request that it was
/// written from, where the identifier is not zero, there is at least one
/// topic, and every filter fits its length prefix.
pub proof fn lemma_subscribe_round_trip(v: SubscribeView)
    requires
        v.pid != 0,
        v.topics.len() > 0,
        topics_fit(v.topics),
    ensures
        read_subscribe_spec(subscribe_body(v)) == (
            Ok::<SubscribeView, CodecError>(v),
            Seq::<u8>::empty(),
        ),
{
    lemma_pid_round_trip(v.pid, topics_bytes(v.topics));
    lemma_topic_round_trip(v.topics[0], topics_bytes(v.topics.drop_first()));
    lemma_topics_round_trip(v.topics);
}

/// Return codes are read back as they were written.
pub proof fn lemma_codes_round_trip(codes: Seq<SubscribeReturnCodes>)
    ensures
        read_codes_spec(codes_bytes(codes)) == (
            Ok::<Seq<SubscribeReturnCodes>, CodecError>(codes),
            Seq::<u8>::empty(),
        ),
    decreases codes.len(),
{
    if codes.len() == 0 {
        assert(codes =~= Seq::empty());
    } else {
        let others = codes.drop_first();
        assert(codes_bytes(codes).skip(1) =~= codes_bytes(others));
        codes[0].lemma_wire_round_trip();
        lemma_codes_round_trip(others);
        assert(seq![codes[0]] + others =~= codes);
    }
}

/// The body of an answer to a request for topics is read back as the answer
/// that it was written from, where the identifier is not zero.
pub proof fn lemma_suback_round_trip(v: SubackView)
    requires
        v.pid != 0,
    ensures
        read_suback_spec(suback_body(v)) == (Ok::<SubackView, CodecError>(v), Seq::<u8>::empty()),
{
    lemma_pid_round_trip(v.pid, codes_bytes(v.return_codes));
    lemma_codes_round_trip(v.return_codes);
}

/// Topic filters that fit are read back as they were written.
pub proof fn lemma_filters_round_trip(filters: Seq<Seq<char>>)
    requires
        filters_fit(filters),
    ensures
        read_filters_spec(filters_bytes(filters)) == (
            Ok::<Seq<Seq<char>>, CodecError>(filters),
            Seq::<u8>::empty(),
        ),
    decreases filters.len(),
{
    if filters.len() == 0 {
        assert(filters =~= Seq::empty());
    } else {
        let others = filters.drop_first();
        assert forall|i: int| 0 <= i < others.len() implies encode_utf8(
            #[trigger] others[i],
        ).len() <= MAX_FIELD by {
            assert(others[i] == filters[i + 1]);
        }
        lemma_string_round_trip(filters[0], filters_bytes(others));
        lemma_filters_round_trip(others);
        assert(seq![filters[0]] + others =~= filters);
    }
}

/// The body of a request to give topics up is read back as the request that
/// it was written from, where the identifier is not zero, there is at least
/// one filter, and every filter fits its length prefix.
pub proof fn lemma_unsubscribe_round_trip(v: UnsubscribeView)
    requires
        v.pid != 0,
        v.topics.len() > 0,
        filters_fit(v.topics),
    ensures
        read_unsubscribe_spec(unsubscribe_body(v)) == (
            Ok::<UnsubscribeView, CodecError>(v),
            Seq::<u8>::empty(),
        ),
{
    lemma_pid_round_trip(v.pid, filters_bytes(v.topics));
    lemma_string_round_trip(v.topics[0], filters_bytes(v.topics.drop_first()));
    lemma_filters_round_trip(v.topics);
}

/// The fixed header that a packet on the wire starts with.
pub open spec fn packet_header(v: PacketView) -> Header {
    match v {
        PacketView::Connect(connect) => Header {
            typ: PacketType::Connect,
            flags: 0,
            len: connect_body(connect).len() as usize,
        },
        PacketView::Connack(_) => Header { typ: PacketType::Connack, flags: 0, len: 2 },
        PacketView::Publish(publish) => Header {
            typ: PacketType::Publish,
            flags: publish_flags(publish),
            len: publish_body(publish).len() as usize,
        },
        PacketView::Puback(_) => Header { typ: PacketType::Puback, flags: 0, len: 2 },
        PacketView::Pubrec(_) => Header { typ: PacketType::Pubrec, flags: 0, len: 2 },
        PacketView::Pubrel(_) => Header { typ: PacketType::Pubrel, flags: 2, len: 2 },
        PacketView::Pubcomp(_) => Header { typ: PacketType::Pubcomp, flags: 0, len: 2 },
        PacketView::Subscribe(subscribe) => Header {
            typ: PacketType::Subscribe,
            flags: 2,
            len: subscribe_body(subscribe).len() as usize,
        },
        PacketView::Suback(suback) => Header {
            typ: PacketType::Suback,
            flags: 0,
            len: suback_body(suback).len() as usize,
        },
        PacketView::Unsubscribe(unsubscribe) => Header {
            typ: PacketType::Unsubscribe,
            flags: 2,
            len: unsubscribe_body(unsubscribe).len() as usize,
        },
        PacketView::Unsuback(_) => Header { typ: PacketType::Unsuback, flags: 0, len: 2 },
        PacketView::Pingreq => Header { typ: PacketType::Pingreq, flags: 0, len: 0 },
        PacketView::Pingresp => Header { typ: PacketType::Pingresp, flags: 0, len: 0 },
        PacketView::Disconnect => Header { typ: PacketType::Disconnect, flags: 0, len: 0 },
    }
}

/// The body that follows the fixed header of a packet on the wire.
pub open spec fn packet_body(v: PacketView) -> Seq<u8> {
    match v {
        PacketView::Connect(connect) => connect_body(connect),
        PacketView::Connack(connack) => connack_body(connack),
        PacketView::Publish(publish) => publish_body(publish),
        PacketView::Puback(pid) => u16_bytes(pid),
        PacketView::Pubrec(pid) => u16_bytes(pid),
        PacketView::Pubrel(pid) => u16_bytes(pid),
        PacketView::Pubcomp(pid) => u16_bytes(pid),
        PacketView::Subscribe(subscribe) => subscribe_body(subscribe),
        PacketView::Suback(suback) => suback_body(suback),
        PacketView::Unsubscribe(unsubscribe) => unsubscribe_body(unsubscribe),
        PacketView::Unsuback(pid) => u16_bytes(pid),
        PacketView::Pingreq => Seq::empty(),
        PacketView::Pingresp => Seq::empty(),
        PacketView::Disconnect => Seq::empty(),
    }
}

/// Whether a packet is one that a reader can return: its protocol is a
/// recognised pair, its identifier is not zero, and a list of topics that
/// must not be empty is not.
pub open spec fn packet_valid(v: PacketView) -> bool {
    match v {
        PacketView::Connect(connect) => connect.protocol.recognised(),
        PacketView::Connack(_) => true,
        PacketView::Publish(publish) => publish.qospid.valid(),
        PacketView::Puback(pid) => pid != 0,
        PacketView::Pubrec(pid) => pid != 0,
        PacketView::Pubrel(pid) => pid != 0,
        PacketView::Pubcomp(pid) => pid != 0,
        PacketView::Subscribe(subscribe) => subscribe.pid != 0 && subscribe.topics.len() > 0,
        PacketView::Suback(suback) => suback.pid != 0,
        PacketView::Unsubscribe(unsubscribe) => unsubscribe.pid != 0 && unsubscribe.topics.len()
            > 0,
        PacketView::Unsuback(pid) => pid != 0,
        PacketView::Pingreq => true,
        PacketView::Pingresp => true,
        PacketView::Disconnect => true,
    }
}

/// A packet that can be written is, on the wire, its fixed header followed
/// by its body, and the header announces the length of the body.
pub proof fn lemma_packet_layout(v: PacketView)
    requires
        packet_error(v) is None,
    ensures
        packet_bytes(v) == header_bytes(packet_header(v)) + packet_body(v),
        packet_header(v).len == packet_body(v).len(),
        packet_header(v).len <= MAX_LENGTH,
        packet_header(v).flags < 16,
{
    match v {
        PacketView::Connect(connect) => {
            lemma_connect_body_len(connect);
            lemma_protocol_name_bytes(connect.protocol);
        },
        PacketView::Publish(publish) => {
            lemma_publish_flags_round_trip(publish);
        },
        PacketView::Subscribe(_) => {},
        PacketView::Suback(_) => {},
        PacketView::Unsubscribe(_) => {},
        PacketView::Connack(connack) => {
            lemma_short_layout(0x20, 2, connack_body(connack));
        },
        PacketView::Puback(pid) => {
            lemma_short_layout(0x40, 2, u16_bytes(pid));
        },
        PacketView::Pubrec(pid) => {
            lemma_short_layout(0x50, 2, u16_bytes(pid));
        },
        PacketView::Pubrel(pid) => {
            lemma_short_layout(0x62, 2, u16_bytes(pid));
        },
        PacketView::Pubcomp(pid) => {
            lemma_short_layout(0x70, 2, u16_bytes(pid));
        },
        PacketView::Unsuback(pid) => {
            lemma_short_layout(0xb0, 2, u16_bytes(pid));
        },
        PacketView::Pingreq => {
            lemma_short_layout(0xc0, 0, Seq::empty());
        },
        PacketView::Pingresp => {
            lemma_short_layout(0xd0, 0, Seq::empty());
        },
        PacketView::Disconnect => {
            lemma_short_layout(0xe0, 0, Seq::empty());
        },
    }
}

/// A first byte and a length below 128 followed by a body are the first
/// byte, the remaining length and the body.
proof fn lemma_short_layout(first: u8, len: u8, body: Seq<u8>)
    requires
        len < 128,
    ensures
        seq![first, len] + body == seq![first] + length_bytes(len as nat) + body,
{
    assert(seq![first, len] + body =~= seq![first] + length_bytes(len as nat) + body);
}

/// The body of a connection request is read back as the request.
proof fn lemma_connect_body(v: PacketView)
    requires
        packet_valid(v),
        packet_error(v) is None,
        v is Connect,
    ensures
        read_body_spec(packet_header(v), packet_body(v)) == Ok::<PacketView, CodecError>(v),
{
    reveal(read_connect_body_spec);
    let empty = Seq::<u8>::empty();
    let connect = v->Connect_0;
    lemma_connect_round_trip(connect, empty);
    assert(connect_body(connect) + empty =~= connect_body(connect));
}

/// The body of an answer to a connection request is read back as the answer.
proof fn lemma_connack_body(v: PacketView)
    requires
        packet_valid(v),
        packet_error(v) is None,
        v is Connack,
    ensures
        read_body_spec(packet_header(v), packet_body(v)) == Ok::<PacketView, CodecError>(v),
{
    reveal(read_connack_body_spec);
    let empty = Seq::<u8>::empty();
    let connack = v->Connack_0;
    lemma_connack_round_trip(connack, empty);
    assert(connack_body(connack) + empty =~= connack_body(connack));
}

/// The body of a publish packet is read back as the packet.
proof fn lemma_publish_body(v: PacketView)
    requires
        packet_valid(v),
        packet_error(v) is None,
        v is Publish,
    ensures
        read_body_spec(packet_header(v), packet_body(v)) == Ok::<PacketView, CodecError>(v),
{
    reveal(read_publish_body_spec);
    lemma_publish_round_trip(v->Publish_0);
}

/// The body of a packet that holds an identifier and nothing else is read
/// back as the packet.
proof fn lemma_acknowledgement_body(v: PacketView)
    requires
        packet_valid(v),
        packet_error(v) is None,
        v is Puback || v is Pubrec || v is Pubrel || v is Pubcomp || v is Unsuback,
    ensures
        read_body_spec(packet_header(v), packet_body(v)) == Ok::<PacketView, CodecError>(v),
{
    let empty = Seq::<u8>::empty();
    let pid = match v {
        PacketView::Puback(pid) => pid,
        PacketView::Pubrec(pid) => pid,
        PacketView::Pubrel(pid) => pid,
        PacketView::Pubcomp(pid) => pid,
        PacketView::Unsuback(pid) => pid,
        _ => 1u16,
    };
    lemma_pid_round_trip(pid, empty);
    assert(u16_bytes(pid) + empty =~= u16_bytes(pid));
}

/// The body of a request for topics is read back as the request.
proof fn lemma_subscribe_body(v: PacketView)
    requires
        packet_valid(v),
        packet_error(v) is None,
        v is Subscribe,
    ensures
        read_body_spec(packet_header(v), packet_body(v)) == Ok::<PacketView, CodecError>(v),
{
    reveal(read_subscribe_body_spec);
    lemma_subscribe_round_trip(v->Subscribe_0);
}

/// The body of an answer to a request for topics is read back as the answer.
proof fn lemma_suback_body(v: PacketView)
    requires
        packet_valid(v),
        packet_error(v) is None,
        v is Suback,
    ensures
        read_body_spec(packet_header(v), packet_body(v)) == Ok::<PacketView, CodecError>(v),
{
    reveal(read_suback_body_spec);
    lemma_suback_round_trip(v->Suback_0);
}

/// The body of a request to give topics up is read back as the request.
proof fn lemma_unsubscribe_body(v: PacketView)
    requires
        packet_valid(v),
        packet_error(v) is None,
        v is Unsubscribe,
    ensures
        read_body_spec(packet_header(v), packet_body(v)) == Ok::<PacketView, CodecError>(v),
{
    reveal(read_unsubscribe_body_spec);
    lemma_unsubscribe_round_trip(v->Unsubscribe_0);
}

/// A packet that holds nothing is read back from its empty body.
proof fn lemma_bare_body(v: PacketView)
    requires
        packet_valid(v),
        packet_error(v) is None,
        v is Pingreq || v is Pingresp || v is Disconnect,
    ensures
        read_body_spec(packet_header(v), packet_body(v)) == Ok::<PacketView, CodecError>(v),
{
}

/// The body of a valid packet that can be written is read back, under the
/// packet's header, as the packet.
pub proof fn lemma_body_round_trip(v: PacketView)
    requires
        packet_valid(v),
        packet_error(v) is None,
    ensures
        read_body_spec(packet_header(v), packet_body(v)) == Ok::<PacketView, CodecError>(v),
{
    match v {
        PacketView::Connect(_) => lemma_connect_body(v),
        PacketView::Connack(_) => lemma_connack_body(v),
        PacketView::Publish(_) => lemma_publish_body(v),
        PacketView::Puback(_) => lemma_acknowledgement_body(v),
        PacketView::Pubrec(_) => lemma_acknowledgement_body(v),
        PacketView::Pubrel(_) => lemma_acknowledgement_body(v),
        PacketView::Pubcomp(_) => lemma_acknowledgement_body(v),
        PacketView::Subscribe(_) => lemma_subscribe_body(v),
        PacketView::Suback(_) => lemma_suback_body(v),
        PacketView::Unsubscribe(_) => lemma_unsubscribe_body(v),
        PacketView::Unsuback(_) => lemma_acknowledgement_body(v),
        PacketView::Pingreq => lemma_bare_body(v),
        PacketView::Pingresp => lemma_bare_body(v),
        PacketView::Disconnect => lemma_bare_body(v),
    }
}

/// Every valid packet that can be written is read back from its bytes as
/// it was, and the bytes that follow it are left.
pub proof fn lemma_packet_round_trip(v: PacketView, rest: Seq<u8>)
    requires
        packet_valid(v),
        packet_error(v) is None,
    ensures
        read_packet_spec(packet_bytes(v) + rest) == (Ok::<PacketView, CodecError>(v), rest),
{
    let header = packet_header(v);
    let body = packet_body(v);
    lemma_packet_layout(v);
    assert(packet_bytes(v) + rest =~= header_bytes(header) + (body + rest));
    lemma_header_round_trip(header, body + rest);
    assert((body + rest).subrange(0, header.len as int) =~= body);
    assert((body + rest).skip(header.len as int) =~= rest);
    lemma_body_round_trip(v);
}

} // verus!
