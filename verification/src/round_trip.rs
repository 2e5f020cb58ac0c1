//! What is written can be read back: each reader, given the bytes of a value
//! followed by any others, returns that value and leaves the others.

use crate::connect::{
    clean_session_bit, connack_body, connack_packet, connect_body, connect_flags, connect_packet,
    fields_fit, lemma_connect_body_len, lemma_protocol_name_bytes, optional_string_bytes,
    password_bit, read_connack_spec, read_connect_fields_spec, read_connect_spec,
    read_optional_string_spec, read_protocol_spec, read_will_spec, username_bit, will_bit,
    will_bytes, will_qos_bits, will_retain_bit, Connack, ConnectView,
};
use crate::error::CodecError;
use crate::header::{read_header_spec, Header, PacketType};
use crate::utils::{qos_of, LastWillView, Protocol};
use crate::wire::{
    field_bytes, length_bytes, read_bytes_spec, read_length_from, read_length_spec,
    read_string_spec, read_u16_spec, read_u8_spec, string_bytes, u16_bytes, MAX_FIELD, MAX_LENGTH,
};
use vstd::prelude::*;
use vstd::utf8::*;

verus! {

/// The numbers that a remaining length of `left` bytes can hold lie below
/// this one.
pub open spec fn length_limit(left: nat) -> nat
    decreases left,
{
    if left == 0 {
        1
    } else {
        128 * length_limit((left - 1) as nat)
    }
}

/// A byte that was written is read back.
pub proof fn lemma_u8_round_trip(byte: u8, rest: Seq<u8>)
    ensures
        read_u8_spec(seq![byte] + rest) == (Ok::<u8, CodecError>(byte), rest),
{
    assert((seq![byte] + rest).skip(1) =~= rest);
}

/// A 16-bit number that was written is read back.
pub proof fn lemma_u16_round_trip(n: u16, rest: Seq<u8>)
    ensures
        read_u16_spec(u16_bytes(n) + rest) == (Ok::<u16, CodecError>(n), rest),
{
    assert((u16_bytes(n) + rest).skip(2) =~= rest);
}

/// A remaining length that fits in `left` bytes, of which there is at least
/// one, is read back from them.
pub proof fn lemma_length_round_trip_within(n: nat, left: nat, rest: Seq<u8>)
    requires
        left >= 1,
        n < length_limit(left),
    ensures
        read_length_from(length_bytes(n) + rest, left) == (Ok::<nat, CodecError>(n), rest),
    decreases n,
{
    let s = length_bytes(n) + rest;
    if n < 128 {
        assert(s.skip(1) =~= rest);
    } else {
        assert(left >= 2) by {
            reveal_with_fuel(length_limit, 2);
        }
        assert(s.skip(1) =~= length_bytes(n / 128) + rest);
        lemma_length_round_trip_within(n / 128, (left - 1) as nat, rest);
    }
}

/// Every remaining length from 0 to 268,435,455 is read back as it was
/// written.
pub proof fn lemma_length_round_trip(n: nat, rest: Seq<u8>)
    requires
        n <= MAX_LENGTH,
    ensures
        read_length_spec(length_bytes(n) + rest) == (Ok::<nat, CodecError>(n), rest),
{
    assert(length_limit(4) == 268_435_456) by {
        reveal_with_fuel(length_limit, 5);
    }
    lemma_length_round_trip_within(n, 4, rest);
}

/// Four bytes that each announce another are no remaining length: a fifth
/// byte is never read.
pub proof fn lemma_length_fifth_byte(s: Seq<u8>)
    requires
        s.len() >= 4,
        s[0] >= 128,
        s[1] >= 128,
        s[2] >= 128,
        s[3] >= 128,
    ensures
        read_length_spec(s) == (Err::<nat, CodecError>(CodecError::MalformedLength), s.skip(4)),
{
    reveal_with_fuel(read_length_from, 5);
    assert(s.skip(1).skip(1).skip(1).skip(1) =~= s.skip(4));
}

/// The remaining length 0 is the single byte 0.
pub proof fn lemma_length_zero()
    ensures
        length_bytes(0) == seq![0u8],
{
}

/// A binary field of at most 65,535 bytes is read back as it was written.
pub proof fn lemma_bytes_round_trip(payload: Seq<u8>, rest: Seq<u8>)
    requires
        payload.len() <= MAX_FIELD,
    ensures
        read_bytes_spec(field_bytes(payload) + rest) == (Ok::<Seq<u8>, CodecError>(payload), rest),
{
    let s = field_bytes(payload) + rest;
    let n = payload.len() as u16;
    assert(s[0] * 256 + s[1] == n);
    assert(s.subrange(2, 2 + n) =~= payload);
    assert(s.skip(2 + n) =~= rest);
}

/// A text whose UTF-8 has at most 65,535 bytes is read back as it was
/// written.
pub proof fn lemma_string_round_trip(text: Seq<char>, rest: Seq<u8>)
    requires
        encode_utf8(text).len() <= MAX_FIELD,
    ensures
        read_string_spec(string_bytes(text) + rest) == (Ok::<Seq<char>, CodecError>(text), rest),
{
    reveal(crate::wire::is_text);
    reveal(crate::wire::text_of);
    lemma_bytes_round_trip(encode_utf8(text), rest);
    encode_utf8_valid_utf8(text);
    encode_utf8_decode_utf8(text);
}

/// Each connect flag says of a connection request what it was made from.
pub proof fn lemma_connect_flags_round_trip(v: ConnectView)
    ensures
        clean_session_bit(connect_flags(v)) == v.clean_session,
        will_bit(connect_flags(v)) == (v.last_will is Some),
        username_bit(connect_flags(v)) == (v.username is Some),
        password_bit(connect_flags(v)) == (v.password is Some),
        v.last_will is Some ==> qos_of(will_qos_bits(connect_flags(v))) == Some(
            v.last_will->Some_0.qos,
        ) && will_retain_bit(connect_flags(v)) == v.last_will->Some_0.retain,
{
}

/// A last will whose fields fit is read back as it was written, under any
/// flags that announce it.
pub proof fn lemma_will_round_trip(will: Option<LastWillView>, flags: u8, rest: Seq<u8>)
    requires
        will_bit(flags) == (will is Some),
        will is Some ==> {
            &&& encode_utf8(will->Some_0.topic).len() <= MAX_FIELD
            &&& will->Some_0.message.len() <= MAX_FIELD
            &&& qos_of(will_qos_bits(flags)) == Some(will->Some_0.qos)
            &&& will_retain_bit(flags) == will->Some_0.retain
        },
    ensures
        read_will_spec(will_bytes(will) + rest, flags) == (
            Ok::<Option<LastWillView>, CodecError>(will),
            rest,
        ),
{
    match will {
        None => {
            assert(will_bytes(will) + rest =~= rest);
        },
        Some(w) => {
            let after_topic = field_bytes(w.message) + rest;
            assert(will_bytes(will) + rest =~= string_bytes(w.topic) + after_topic);
            lemma_string_round_trip(w.topic, after_topic);
            lemma_bytes_round_trip(w.message, rest);
        },
    }
}

/// A text that may be absent is read back as it was written, where the
/// reader is told whether it is there.
pub proof fn lemma_optional_string_round_trip(text: Option<Seq<char>>, rest: Seq<u8>)
    requires
        text is Some ==> encode_utf8(text->Some_0).len() <= MAX_FIELD,
    ensures
        read_optional_string_spec(optional_string_bytes(text) + rest, text is Some) == (
            Ok::<Option<Seq<char>>, CodecError>(text),
            rest,
        ),
{
    match text {
        None => {
            assert(optional_string_bytes(text) + rest =~= rest);
        },
        Some(t) => {
            lemma_string_round_trip(t, rest);
        },
    }
}

/// Fields followed by other bytes are the first field followed by the rest.
proof fn lemma_fields_regrouped(
    keep_alive: Seq<u8>,
    client_id: Seq<u8>,
    will: Seq<u8>,
    username: Seq<u8>,
    password: Seq<u8>,
    rest: Seq<u8>,
)
    ensures
        (keep_alive + client_id + will + username + password) + rest == keep_alive + (client_id + (
        will + (username + (password + rest)))),
{
    assert((keep_alive + client_id + will + username + password) + rest =~= keep_alive + (
    client_id + (will + (username + (password + rest)))));
}

/// A body followed by other bytes is its protocol name and level followed
/// by the flags and what comes after them.
proof fn lemma_body_regrouped(
    name: Seq<u8>,
    level: Seq<u8>,
    flags: Seq<u8>,
    keep_alive: Seq<u8>,
    client_id: Seq<u8>,
    will: Seq<u8>,
    username: Seq<u8>,
    password: Seq<u8>,
    rest: Seq<u8>,
)
    ensures
        ((name + level + flags + keep_alive + client_id) + will + username + password) + rest
            == name + level + (flags + ((keep_alive + client_id + will + username + password)
            + rest)),
{
    assert(((name + level + flags + keep_alive + client_id) + will + username + password) + rest
        =~= name + level + (flags + ((keep_alive + client_id + will + username + password)
        + rest)));
}

/// A recognised protocol is read back from its name and level.
pub proof fn lemma_protocol_round_trip(protocol: Protocol, rest: Seq<u8>)
    requires
        protocol.recognised(),
    ensures
        read_protocol_spec(string_bytes(protocol.spec_name()) + seq![protocol.spec_level()] + rest)
            == (Ok::<Protocol, CodecError>(protocol), rest),
{
    let after_name = seq![protocol.spec_level()] + rest;
    assert(string_bytes(protocol.spec_name()) + seq![protocol.spec_level()] + rest
        =~= string_bytes(protocol.spec_name()) + after_name);
    lemma_protocol_name_bytes(protocol);
    lemma_string_round_trip(protocol.spec_name(), after_name);
    lemma_u8_round_trip(protocol.spec_level(), rest);
    protocol.lemma_name_level_round_trip();
}

/// The bytes that follow the connect flags in the body of a connection
/// request.
pub open spec fn connect_fields(v: ConnectView) -> Seq<u8> {
    u16_bytes(v.keep_alive) + string_bytes(v.client_id) + will_bytes(v.last_will)
        + optional_string_bytes(v.username) + optional_string_bytes(v.password)
}

/// What follows the connect flags is read back under the flags of the
/// request that it was written from.
pub proof fn lemma_connect_fields_round_trip(v: ConnectView, rest: Seq<u8>)
    requires
        fields_fit(v),
    ensures
        read_connect_fields_spec(connect_fields(v) + rest, v.protocol, connect_flags(v)) == (
            Ok::<ConnectView, CodecError>(v),
            rest,
        ),
{
    let flags = connect_flags(v);
    let after_username = optional_string_bytes(v.password) + rest;
    let after_will = optional_string_bytes(v.username) + after_username;
    let after_client_id = will_bytes(v.last_will) + after_will;
    let after_keep_alive = string_bytes(v.client_id) + after_client_id;
    lemma_fields_regrouped(
        u16_bytes(v.keep_alive),
        string_bytes(v.client_id),
        will_bytes(v.last_will),
        optional_string_bytes(v.username),
        optional_string_bytes(v.password),
        rest,
    );
    lemma_u16_round_trip(v.keep_alive, after_keep_alive);
    lemma_string_round_trip(v.client_id, after_client_id);
    lemma_connect_flags_round_trip(v);
    lemma_will_round_trip(v.last_will, flags, after_will);
    lemma_optional_string_round_trip(v.username, after_username);
    lemma_optional_string_round_trip(v.password, rest);
}

/// The body of a connection request is read back as the request that it was
/// written from, where the protocol is a recognised pair and every field
/// fits its length prefix; what follows the body is left.
pub proof fn lemma_connect_round_trip(v: ConnectView, rest: Seq<u8>)
    requires
        v.protocol.recognised(),
        fields_fit(v),
    ensures
        read_connect_spec(connect_body(v) + rest) == (Ok::<ConnectView, CodecError>(v), rest),
{
    let after_flags = connect_fields(v) + rest;
    let after_protocol = seq![connect_flags(v)] + after_flags;
    lemma_body_regrouped(
        string_bytes(v.protocol.spec_name()),
        seq![v.protocol.spec_level()],
        seq![connect_flags(v)],
        u16_bytes(v.keep_alive),
        string_bytes(v.client_id),
        will_bytes(v.last_will),
        optional_string_bytes(v.username),
        optional_string_bytes(v.password),
        rest,
    );
    lemma_protocol_round_trip(v.protocol, after_protocol);
    lemma_u8_round_trip(connect_flags(v), after_flags);
    lemma_connect_fields_round_trip(v, rest);
}

/// Where the will bit is clear, the bits for the will's quality of service
/// and for retaining it are not looked at: two flag bytes that differ only
/// in them are read alike.
pub proof fn lemma_will_bits_ignored(s: Seq<u8>, protocol: Protocol, a: u8, b: u8)
    requires
        !will_bit(a),
        !will_bit(b),
        clean_session_bit(a) == clean_session_bit(b),
        username_bit(a) == username_bit(b),
        password_bit(a) == password_bit(b),
    ensures
        read_connect_fields_spec(s, protocol, a) == read_connect_fields_spec(s, protocol, b),
        read_will_spec(s, a) == (Ok::<Option<LastWillView>, CodecError>(None), s),
{
}

/// The body of an answer to a connection request is read back as the answer
/// that it was written from.
pub proof fn lemma_connack_round_trip(connack: Connack, rest: Seq<u8>)
    ensures
        read_connack_spec(connack_body(connack) + rest) == (
            Ok::<Connack, CodecError>(connack),
            rest,
        ),
{
    let s = connack_body(connack) + rest;
    assert(s.skip(1).skip(1) =~= rest);
    connack.code.lemma_wire_round_trip();
}

/// The bytes of a fixed header: the kind in the high half of the first
/// byte, the flags in its low half, then the remaining length.
pub open spec fn header_bytes(header: Header) -> Seq<u8> {
    seq![(16 * header.typ.wire() + header.flags) as u8] + length_bytes(header.len as nat)
}

/// A fixed header with flags below 16 and a length of at most 268,435,455
/// is read back as it was written.
pub proof fn lemma_header_round_trip(header: Header, rest: Seq<u8>)
    requires
        header.flags < 16,
        header.len <= MAX_LENGTH,
    ensures
        read_header_spec(header_bytes(header) + rest) == (Ok::<Header, CodecError>(header), rest),
{
    let first = (16 * header.typ.wire() + header.flags) as u8;
    let after_first = length_bytes(header.len as nat) + rest;
    assert(header_bytes(header) + rest =~= seq![first] + after_first);
    lemma_u8_round_trip(first, after_first);
    header.typ.lemma_wire_round_trip();
    lemma_length_round_trip(header.len as nat, rest);
}

/// A connection request on the wire starts with a fixed header that names
/// its kind and the length of its body, and the body, read next, gives the
/// request back.
pub proof fn lemma_connect_packet_round_trip(v: ConnectView, rest: Seq<u8>)
    requires
        v.protocol.recognised(),
        fields_fit(v),
    ensures
        connect_body(v).len() <= MAX_LENGTH,
        read_header_spec(connect_packet(v) + rest) == (
            Ok::<Header, CodecError>(
                (Header {
                    typ: PacketType::Connect,
                    flags: 0,
                    len: connect_body(v).len() as usize,
                }),
            ),
            connect_body(v) + rest,
        ),
        read_connect_spec(connect_body(v) + rest) == (Ok::<ConnectView, CodecError>(v), rest),
{
    lemma_connect_body_len(v);
    lemma_protocol_name_bytes(v.protocol);
    let header = Header {
        typ: PacketType::Connect,
        flags: 0,
        len: connect_body(v).len() as usize,
    };
    assert(connect_packet(v) + rest =~= header_bytes(header) + (connect_body(v) + rest));
    lemma_header_round_trip(header, connect_body(v) + rest);
    lemma_connect_round_trip(v, rest);
}

/// An answer to a connection request on the wire starts with a fixed header
/// that names its kind and the length 2, and the body, read next, gives the
/// answer back.
pub proof fn lemma_connack_packet_round_trip(connack: Connack, rest: Seq<u8>)
    ensures
        read_header_spec(connack_packet(connack) + rest) == (
            Ok::<Header, CodecError>((Header { typ: PacketType::Connack, flags: 0, len: 2 })),
            connack_body(connack) + rest,
        ),
        read_connack_spec(connack_body(connack) + rest) == (
            Ok::<Connack, CodecError>(connack),
            rest,
        ),
{
    let header = Header { typ: PacketType::Connack, flags: 0, len: 2 };
    assert(connack_packet(connack) + rest =~= header_bytes(header) + (connack_body(connack)
        + rest));
    lemma_header_round_trip(header, connack_body(connack) + rest);
    lemma_connack_round_trip(connack, rest);
}

} // verus!
