//! The packet that opens a connection and the packet that answers it.

use crate::buffer::{contents, len};
use crate::decoder::{read_bytes, read_string, read_u16, read_u8};
use crate::encoder::{
    has_room, put_bytes, put_length, put_string, size_of_length, write_u16, write_u8,
};
use crate::error::CodecError;
use crate::utils::{
    protocol_of, qos_of, return_code_of, ConnectReturnCode, LastWill, LastWillView, Protocol, QoS,
};
use crate::wire::{
    field_bytes, length_bytes, read_bytes_spec, read_string_spec, read_u16_spec, read_u8_spec,
    string_bytes, u16_bytes, Outcome, MAX_FIELD,
};
use bytes::BytesMut;
use vstd::prelude::*;
use vstd::utf8::*;

verus! {

/// A request to open a connection.
#[derive(Debug, Clone, PartialEq)]
pub struct Connect {
    pub protocol: Protocol,
    pub keep_alive: u16,
    pub client_id: String,
    pub clean_session: bool,
    pub last_will: Option<LastWill>,
    pub username: Option<String>,
    pub password: Option<String>,
}

/// What a connection request holds, as plain values.
pub ghost struct ConnectView {
    pub protocol: Protocol,
    pub keep_alive: u16,
    pub client_id: Seq<char>,
    pub clean_session: bool,
    pub last_will: Option<LastWillView>,
    pub username: Option<Seq<char>>,
    pub password: Option<Seq<char>>,
}

impl View for Connect {
    type V = ConnectView;

    open spec fn view(&self) -> ConnectView {
        ConnectView {
            protocol: self.protocol,
            keep_alive: self.keep_alive,
            client_id: self.client_id@,
            clean_session: self.clean_session,
            last_will: match self.last_will {
                Some(will) => Some(will@),
                None => None,
            },
            username: match self.username {
                Some(text) => Some(text@),
                None => None,
            },
            password: match self.password {
                Some(text) => Some(text@),
                None => None,
            },
        }
    }
}

/// The answer to a connection request.
#[derive(Debug, Clone, Copy, PartialEq, Eq, Structural)]
pub struct Connack {
    pub session_present: bool,
    pub code: ConnectReturnCode,
}

/// Whether bit 1 of the connect flags, the clean-session bit, is set.
pub open spec fn clean_session_bit(flags: u8) -> bool {
    (flags / 2) % 2 == 1
}

/// Whether bit 2 of the connect flags, the will bit, is set.
pub open spec fn will_bit(flags: u8) -> bool {
    (flags / 4) % 2 == 1
}

/// Bits 3 and 4 of the connect flags: the will's quality of service.
pub open spec fn will_qos_bits(flags: u8) -> u8 {
    ((flags / 8) % 4) as u8
}

/// Whether bit 5 of the connect flags, the will-retain bit, is set.
pub open spec fn will_retain_bit(flags: u8) -> bool {
    (flags / 32) % 2 == 1
}

/// Whether bit 6 of the connect flags, the password bit, is set.
pub open spec fn password_bit(flags: u8) -> bool {
    (flags / 64) % 2 == 1
}

/// Whether bit 7 of the connect flags, the username bit, is set.
pub open spec fn username_bit(flags: u8) -> bool {
    flags / 128 == 1
}

/// Reads a protocol name and level, which must be a recognised pair.
pub open spec fn read_protocol_spec(s: Seq<u8>) -> Outcome<Protocol> {
    let (name, after_name) = read_string_spec(s);
    match name {
        Err(e) => (Err(e), after_name),
        Ok(name) => {
            let (level, after_level) = read_u8_spec(after_name);
            match level {
                Err(e) => (Err(e), after_level),
                Ok(level) => match protocol_of(name, level) {
                    Some(protocol) => (Ok(protocol), after_level),
                    None => (Err(CodecError::InvalidProtocol), after_level),
                },
            }
        },
    }
}

/// Reads the last will that the connect flags announce: nothing where the
/// will bit is clear, whatever the other will bits hold; else a topic and a
/// message, with the quality of service and the retain bit of the flags.
pub open spec fn read_will_spec(s: Seq<u8>, flags: u8) -> Outcome<Option<LastWillView>> {
    if !will_bit(flags) {
        (Ok(None), s)
    } else {
        let (topic, after_topic) = read_string_spec(s);
        match topic {
            Err(e) => (Err(e), after_topic),
            Ok(topic) => {
                let (message, after_message) = read_bytes_spec(after_topic);
                match message {
                    Err(e) => (Err(e), after_message),
                    Ok(message) => match qos_of(will_qos_bits(flags)) {
                        None => (Err(CodecError::InvalidEnumValue), after_message),
                        Some(qos) => (
                            Ok(
                                Some(
                                    LastWillView {
                                        topic,
                                        message,
                                        qos,
                                        retain: will_retain_bit(flags),
                                    },
                                ),
                            ),
                            after_message,
                        ),
                    },
                }
            },
        }
    }
}

/// Reads a text field where one is announced, and nothing where none is.
pub open spec fn read_optional_string_spec(s: Seq<u8>, present: bool) -> Outcome<
    Option<Seq<char>>,
> {
    if !present {
        (Ok(None), s)
    } else {
        let (text, rest) = read_string_spec(s);
        match text {
            Err(e) => (Err(e), rest),
            Ok(text) => (Ok(Some(text)), rest),
        }
    }
}

/// What follows the connect flags: the keep-alive time, the client's
/// identifier, and the fields that the flags announce, in the order will,
/// username, password.
pub open spec fn read_connect_fields_spec(s: Seq<u8>, protocol: Protocol, flags: u8) -> Outcome<
    ConnectView,
> {
    let (keep_alive, after_keep_alive) = read_u16_spec(s);
    match keep_alive {
        Err(e) => (Err(e), after_keep_alive),
        Ok(keep_alive) => {
            let (client_id, after_client_id) = read_string_spec(after_keep_alive);
            match client_id {
                Err(e) => (Err(e), after_client_id),
                Ok(client_id) => {
                    let (last_will, after_will) = read_will_spec(after_client_id, flags);
                    match last_will {
                        Err(e) => (Err(e), after_will),
                        Ok(last_will) => {
                            let (username, after_username) = read_optional_string_spec(
                                after_will,
                                username_bit(flags),
                            );
                            match username {
                                Err(e) => (Err(e), after_username),
                                Ok(username) => {
                                    let (password, after_password) = read_optional_string_spec(
                                        after_username,
                                        password_bit(flags),
                                    );
                                    match password {
                                        Err(e) => (Err(e), after_password),
                                        Ok(password) => (
                                            Ok(
                                                ConnectView {
                                                    protocol,
                                                    keep_alive,
                                                    client_id,
                                                    clean_session: clean_session_bit(flags),
                                                    last_will,
                                                    username,
                                                    password,
                                                },
                                            ),
                                            after_password,
                                        ),
                                    }
                                },
                            }
                        },
                    }
                },
            }
        },
    }
}

/// Reads the body of a connection request: protocol name and level, the
/// connect flags, and what follows them.
pub open spec fn read_connect_spec(s: Seq<u8>) -> Outcome<ConnectView> {
    let (protocol, after_protocol) = read_protocol_spec(s);
    match protocol {
        Err(e) => (Err(e), after_protocol),
        Ok(protocol) => {
            let (flags, after_flags) = read_u8_spec(after_protocol);
            match flags {
                Err(e) => (Err(e), after_flags),
                Ok(flags) => read_connect_fields_spec(after_flags, protocol, flags),
            }
        },
    }
}

/// Reads the body of an answer to a connection request: a byte whose lowest
/// bit says whether a session is present, and a return code.
pub open spec fn read_connack_spec(s: Seq<u8>) -> Outcome<Connack> {
    let (flags, after_flags) = read_u8_spec(s);
    match flags {
        Err(e) => (Err(e), after_flags),
        Ok(flags) => {
            let (code, after_code) = read_u8_spec(after_flags);
            match code {
                Err(e) => (Err(e), after_code),
                Ok(code) => match return_code_of(code) {
                    None => (Err(CodecError::InvalidEnumValue), after_code),
                    Some(code) => (
                        Ok((Connack { session_present: flags % 2 == 1, code })),
                        after_code,
                    ),
                },
            }
        },
    }
}

/// The connect flags that announce a last will: the will bit, the quality
/// of service in bits 3 and 4, and the retain bit.
pub open spec fn will_flags(will: Option<LastWillView>) -> nat {
    match will {
        None => 0,
        Some(will) => (4 + 8 * will.qos.wire() + if will.retain {
            32nat
        } else {
            0nat
        }) as nat,
    }
}

/// The connect flags of a connection request. Bit 0 is never set.
pub open spec fn connect_flags(v: ConnectView) -> u8 {
    ((if v.clean_session {
        2nat
    } else {
        0nat
    }) + will_flags(v.last_will) + (if v.password is Some {
        64nat
    } else {
        0nat
    }) + (if v.username is Some {
        128nat
    } else {
        0nat
    })) as u8
}

/// The bytes of a last will: its topic, then its message; nothing where
/// there is none.
pub open spec fn will_bytes(will: Option<LastWillView>) -> Seq<u8> {
    match will {
        None => Seq::empty(),
        Some(will) => string_bytes(will.topic) + field_bytes(will.message),
    }
}

/// The bytes of a text field that may be absent.
pub open spec fn optional_string_bytes(text: Option<Seq<char>>) -> Seq<u8> {
    match text {
        None => Seq::empty(),
        Some(text) => string_bytes(text),
    }
}

/// The fields that every connection request has: protocol name, protocol
/// level, connect flags, keep-alive time and client identifier.
pub open spec fn connect_fixed_part(v: ConnectView) -> Seq<u8> {
    string_bytes(v.protocol.spec_name()) + seq![v.protocol.spec_level()] + seq![connect_flags(v)]
        + u16_bytes(v.keep_alive) + string_bytes(v.client_id)
}

/// The body of a connection request: protocol name, protocol level, connect
/// flags, keep-alive time, client identifier, then, where present, the will,
/// the username and the password, in this order.
pub open spec fn connect_body(v: ConnectView) -> Seq<u8> {
    connect_fixed_part(v) + will_bytes(v.last_will) + optional_string_bytes(v.username)
        + optional_string_bytes(v.password)
}

/// A connection request on the wire: the byte 0x10, the length of the body,
/// and the body.
pub open spec fn connect_packet(v: ConnectView) -> Seq<u8> {
    seq![0x10u8] + length_bytes(connect_body(v).len()) + connect_body(v)
}

/// Whether every text and binary field of a connection request has at most
/// 65,535 bytes, so that its length can be written before it.
pub open spec fn fields_fit(v: ConnectView) -> bool {
    &&& encode_utf8(v.client_id).len() <= MAX_FIELD
    &&& match v.last_will {
        None => true,
        Some(will) => encode_utf8(will.topic).len() <= MAX_FIELD && will.message.len()
            <= MAX_FIELD,
    }
    &&& match v.username {
        None => true,
        Some(text) => encode_utf8(text).len() <= MAX_FIELD,
    }
    &&& match v.password {
        None => true,
        Some(text) => encode_utf8(text).len() <= MAX_FIELD,
    }
}

/// The body of an answer to a connection request.
pub open spec fn connack_body(connack: Connack) -> Seq<u8> {
    seq![
        if connack.session_present {
            1u8
        } else {
            0u8
        },
        connack.code.wire(),
    ]
}

/// An answer to a connection request on the wire: the byte 0x20, the length
/// 2, and the body.
pub open spec fn connack_packet(connack: Connack) -> Seq<u8> {
    seq![0x20u8, 2u8] + connack_body(connack)
}

/// The name of a protocol family takes as many bytes as it has letters.
pub proof fn lemma_protocol_name_bytes(protocol: Protocol)
    ensures
        encode_utf8(protocol.spec_name()).len() == protocol.spec_name().len(),
        protocol.spec_name().len() == 4 || protocol.spec_name().len() == 6,
{
    is_ascii_chars_encode_utf8(protocol.spec_name());
}

/// The length of a body is the sum of the lengths of its fields.
pub proof fn lemma_connect_body_len(v: ConnectView)
    ensures
        connect_fixed_part(v).len() == 2 + encode_utf8(v.protocol.spec_name()).len() + 1 + 1 + 2
            + 2 + encode_utf8(v.client_id).len(),
        connect_body(v).len() == connect_fixed_part(v).len() + will_bytes(v.last_will).len()
            + optional_string_bytes(v.username).len() + optional_string_bytes(v.password).len(),
        will_bytes(v.last_will).len() == match v.last_will {
            None => 0,
            Some(will) => 4 + encode_utf8(will.topic).len() + will.message.len(),
        },
        optional_string_bytes(v.username).len() == match v.username {
            None => 0,
            Some(text) => 2 + encode_utf8(text).len(),
        },
        optional_string_bytes(v.password).len() == match v.password {
            None => 0,
            Some(text) => 2 + encode_utf8(text).len(),
        },
{
}

/// The view of a last will that may be absent.
pub open spec fn will_view(will: Option<LastWill>) -> Option<LastWillView> {
    match will {
        Some(will) => Some(will@),
        None => None,
    }
}

/// The view of a text that may be absent.
pub open spec fn text_view(text: Option<String>) -> Option<Seq<char>> {
    match text {
        Some(text) => Some(text@),
        None => None,
    }
}

/// Appends a last will, where there is one: its topic, then its message.
fn write_will(will: &Option<LastWill>, buffer: &mut BytesMut)
    requires
        match *will {
            None => true,
            Some(will) => encode_utf8(will.topic@).len() <= MAX_FIELD && will.message@.len()
                <= MAX_FIELD,
        },
        has_room(contents(*old(buffer)).len(), will_bytes(will_view(*will)).len()),
    ensures
        contents(*final(buffer)) == contents(*old(buffer)) + will_bytes(will_view(*will)),
{
    match will {
        Some(last_will) => {
            put_string(last_will.topic.as_str(), buffer);
            put_bytes(last_will.message.as_slice(), buffer);
            assert(contents(*buffer) =~= contents(*old(buffer)) + will_bytes(will_view(*will)));
        },
        None => {
            assert(contents(*buffer) =~= contents(*old(buffer)) + will_bytes(will_view(*will)));
        },
    }
}

/// Appends a text field, where there is one.
fn write_optional_string(text: &Option<String>, buffer: &mut BytesMut)
    requires
        match *text {
            None => true,
            Some(text) => encode_utf8(text@).len() <= MAX_FIELD,
        },
        has_room(contents(*old(buffer)).len(), optional_string_bytes(text_view(*text)).len()),
    ensures
        contents(*final(buffer)) == contents(*old(buffer)) + optional_string_bytes(
            text_view(*text),
        ),
{
    match text {
        Some(text) => {
            put_string(text.as_str(), buffer);
        },
        None => {
            assert(contents(*buffer) =~= contents(*old(buffer)) + Seq::<u8>::empty());
        },
    }
}

/// Pieces appended one after the other make up what they make up when put
/// together first.
proof fn lemma_assembled(
    start: Seq<u8>,
    kind: Seq<u8>,
    length: Seq<u8>,
    fixed: Seq<u8>,
    will: Seq<u8>,
    username: Seq<u8>,
    password: Seq<u8>,
)
    ensures
        start + kind + length + fixed + will + username + password == start + (kind + length + (
        fixed + will + username + password)),
{
    assert(start + kind + length + fixed + will + username + password =~= start + (kind + length
        + (fixed + will + username + password)));
}

/// Reads a protocol name and level.
fn read_protocol(buffer: &mut BytesMut) -> (r: Result<Protocol, CodecError>)
    ensures
        (r, contents(*final(buffer))) == read_protocol_spec(contents(*old(buffer))),
{
    let name = match read_string(buffer) {
        Ok(name) => name,
        Err(e) => return Err(e),
    };
    let level = match read_u8(buffer) {
        Ok(level) => level,
        Err(e) => return Err(e),
    };
    Protocol::new(name.as_str(), level)
}

/// Reads the last will that the connect flags announce.
fn read_will(buffer: &mut BytesMut, flags: u8) -> (r: Result<Option<LastWill>, CodecError>)
    ensures
        match r {
            Ok(Some(will)) => read_will_spec(contents(*old(buffer)), flags).0 == Ok::<
                Option<LastWillView>,
                CodecError,
            >(Some(will@)),
            Ok(None) => read_will_spec(contents(*old(buffer)), flags).0 == Ok::<
                Option<LastWillView>,
                CodecError,
            >(None),
            Err(e) => read_will_spec(contents(*old(buffer)), flags).0 == Err::<
                Option<LastWillView>,
                CodecError,
            >(e),
        },
        contents(*final(buffer)) == read_will_spec(contents(*old(buffer)), flags).1,
{
    assert((flags & 0b100 != 0) == will_bit(flags)) by (bit_vector)
        requires
            will_bit(flags) == ((flags / 4) % 2 == 1),
    ;
    if flags & 0b100 == 0 {
        return Ok(None);
    }
    let topic = match read_string(buffer) {
        Ok(topic) => topic,
        Err(e) => return Err(e),
    };
    let message = match read_bytes(buffer) {
        Ok(message) => message,
        Err(e) => return Err(e),
    };
    assert((flags & 0b11000) >> 3 == (flags / 8) % 4) by (bit_vector);
    let qos = match QoS::from_u8((flags & 0b11000) >> 3) {
        Ok(qos) => qos,
        Err(e) => return Err(e),
    };
    assert((flags & 0b00100000 != 0) == will_retain_bit(flags)) by (bit_vector)
        requires
            will_retain_bit(flags) == ((flags / 32) % 2 == 1),
    ;
    Ok(Some(LastWill { topic, message, qos, retain: (flags & 0b00100000) != 0 }))
}

/// Reads a text field where one is announced.
fn read_optional_string(buffer: &mut BytesMut, present: bool) -> (r: Result<
    Option<String>,
    CodecError,
>)
    ensures
        match r {
            Ok(Some(text)) => read_optional_string_spec(contents(*old(buffer)), present).0 == Ok::<
                Option<Seq<char>>,
                CodecError,
            >(Some(text@)),
            Ok(None) => read_optional_string_spec(contents(*old(buffer)), present).0 == Ok::<
                Option<Seq<char>>,
                CodecError,
            >(None),
            Err(e) => read_optional_string_spec(contents(*old(buffer)), present).0 == Err::<
                Option<Seq<char>>,
                CodecError,
            >(e),
        },
        contents(*final(buffer)) == read_optional_string_spec(contents(*old(buffer)), present).1,
{
    if !present {
        return Ok(None);
    }
    match read_string(buffer) {
        Ok(text) => Ok(Some(text)),
        Err(e) => Err(e),
    }
}

impl Connect {
    /// Reads the body of a connection request off the front of the buffer.
    ///
    /// The fields that the connect flags announce are read in the order will,
    /// username, password. Where the will bit is clear, the other will bits
    /// are not looked at. On an error the buffer has lost what was read
    /// before the error showed.
    pub fn from_buffer(buffer: &mut BytesMut) -> (r: Result<Self, CodecError>)
        ensures
            match r {
                Ok(connect) => read_connect_spec(contents(*old(buffer))).0 == Ok::<
                    ConnectView,
                    CodecError,
                >(connect@),
                Err(e) => read_connect_spec(contents(*old(buffer))).0 == Err::<
                    ConnectView,
                    CodecError,
                >(e),
            },
            contents(*final(buffer)) == read_connect_spec(contents(*old(buffer))).1,
    {
        let protocol = match read_protocol(buffer) {
            Ok(protocol) => protocol,
            Err(e) => return Err(e),
        };
        let connect_flags = match read_u8(buffer) {
            Ok(flags) => flags,
            Err(e) => return Err(e),
        };
        let keep_alive = match read_u16(buffer) {
            Ok(keep_alive) => keep_alive,
            Err(e) => return Err(e),
        };
        let client_id = match read_string(buffer) {
            Ok(client_id) => client_id,
            Err(e) => return Err(e),
        };
        let last_will = match read_will(buffer, connect_flags) {
            Ok(last_will) => last_will,
            Err(e) => return Err(e),
        };
        assert((connect_flags & 0b10000000 != 0) == username_bit(connect_flags)) by (bit_vector)
            requires
                username_bit(connect_flags) == (connect_flags / 128 == 1),
        ;
        let username = match read_optional_string(buffer, connect_flags & 0b10000000 != 0) {
            Ok(username) => username,
            Err(e) => return Err(e),
        };
        assert((connect_flags & 0b01000000 != 0) == password_bit(connect_flags)) by (bit_vector)
            requires
                password_bit(connect_flags) == ((connect_flags / 64) % 2 == 1),
        ;
        let password = match read_optional_string(buffer, connect_flags & 0b01000000 != 0) {
            Ok(password) => password,
            Err(e) => return Err(e),
        };
        assert((connect_flags & 0b10 != 0) == clean_session_bit(connect_flags)) by (bit_vector)
            requires
                clean_session_bit(connect_flags) == ((connect_flags / 2) % 2 == 1),
        ;
        let clean_session = (connect_flags & 0b10) != 0;
        Ok(
            Connect {
                protocol,
                keep_alive,
                client_id,
                username,
                password,
                last_will,
                clean_session,
            },
        )
    }

    /// The connect flags that announce what the request holds.
    fn flags(&self) -> (connect_flags: u8)
        ensures
            connect_flags == self::connect_flags(self@),
    {
        let mut connect_flags: u8 = 0b00000000;
        if self.clean_session {
            assert(0u8 | 0b10 == 2) by (bit_vector);
            connect_flags = connect_flags | 0b10;
        }
        if self.username.is_some() {
            assert(connect_flags | 0b10000000 == connect_flags + 128) by (bit_vector)
                requires
                    connect_flags < 128,
            ;
            connect_flags = connect_flags | 0b10000000;
        }
        if self.password.is_some() {
            assert(connect_flags | 0b01000000 == connect_flags + 64) by (bit_vector)
                requires
                    (connect_flags / 64) % 2 == 0,
            ;
            connect_flags = connect_flags | 0b01000000;
        }
        let ghost without_will = connect_flags;
        assert(without_will == 0 || without_will == 2 || without_will == 64 || without_will == 66
            || without_will == 128 || without_will == 130 || without_will == 192 || without_will
            == 194);
        match &self.last_will {
            Some(last_will) => {
                let qos = last_will.qos.to_u8();
                assert(connect_flags | 0b00000100 == connect_flags + 4) by (bit_vector)
                    requires
                        (connect_flags / 4) % 2 == 0,
                ;
                connect_flags = connect_flags | 0b00000100;
                assert((connect_flags | (qos << 3)) == connect_flags + 8 * qos) by (bit_vector)
                    requires
                        (connect_flags / 8) % 4 == 0,
                        qos <= 2,
                ;
                connect_flags = connect_flags | (qos << 3);
                if last_will.retain {
                    assert(connect_flags | 0b00100000 == connect_flags + 32) by (bit_vector)
                        requires
                            (connect_flags / 32) % 2 == 0,
                    ;
                    connect_flags = connect_flags | 0b00100000;
                }
                assert(connect_flags == without_will + will_flags(self@.last_will));
            },
            None => {},
        }
        connect_flags
    }

    /// The number of bytes of the body, where every field fits its length
    /// prefix.
    fn body_length(&self) -> (r: Result<usize, CodecError>)
        ensures
            !fields_fit(self@) ==> r == Err::<usize, CodecError>(CodecError::FieldTooLong),
            fields_fit(self@) ==> r == Ok::<usize, CodecError>(connect_body(self@).len() as usize),
            fields_fit(self@) ==> connect_body(self@).len() <= 22 + 5 * MAX_FIELD,
    {
        proof {
            lemma_protocol_name_bytes(self.protocol);
            lemma_connect_body_len(self@);
        }
        let mut length: usize = 2 + self.protocol.name().as_bytes().len() + 1 + 1;
        if self.client_id.as_str().as_bytes().len() > MAX_FIELD {
            return Err(CodecError::FieldTooLong);
        }
        length += 2 + self.client_id.as_str().as_bytes().len();
        match &self.username {
            Some(username) => {
                if username.as_str().as_bytes().len() > MAX_FIELD {
                    return Err(CodecError::FieldTooLong);
                }
                length += username.as_str().as_bytes().len();
                length += 2;
            },
            None => {},
        }
        match &self.password {
            Some(password) => {
                if password.as_str().as_bytes().len() > MAX_FIELD {
                    return Err(CodecError::FieldTooLong);
                }
                length += password.as_str().as_bytes().len();
                length += 2;
            },
            None => {},
        }
        match &self.last_will {
            Some(last_will) => {
                if last_will.topic.as_str().as_bytes().len() > MAX_FIELD || last_will.message.len()
                    > MAX_FIELD {
                    return Err(CodecError::FieldTooLong);
                }
                length += last_will.message.len();
                length += last_will.topic.as_str().as_bytes().len();
                length += 4;
            },
            None => {},
        }
        length += 2;
        Ok(length)
    }

    /// Appends the fields that every connection request has.
    fn write_fixed_part(&self, connect_flags: u8, buffer: &mut BytesMut)
        requires
            connect_flags == self::connect_flags(self@),
            encode_utf8(self.client_id@).len() <= MAX_FIELD,
            has_room(contents(*old(buffer)).len(), connect_fixed_part(self@).len()),
        ensures
            contents(*final(buffer)) == contents(*old(buffer)) + connect_fixed_part(self@),
    {
        proof {
            lemma_protocol_name_bytes(self.protocol);
            lemma_connect_body_len(self@);
        }
        put_string(self.protocol.name(), buffer);
        write_u8(self.protocol.level(), buffer);
        write_u8(connect_flags, buffer);
        write_u16(self.keep_alive, buffer);
        put_string(self.client_id.as_str(), buffer);
        assert(contents(*buffer) =~= contents(*old(buffer)) + connect_fixed_part(self@));
    }

    /// Appends the connection request to the buffer: fixed header, remaining
    /// length and body.
    ///
    /// Nothing is written where a field is too long for its length prefix or
    /// where the buffer cannot take the packet.
    pub fn to_buffer(&self, buffer: &mut BytesMut) -> (r: Result<(), CodecError>)
        ensures
            !fields_fit(self@) ==> r == Err::<(), CodecError>(CodecError::FieldTooLong),
            fields_fit(self@) && !has_room(
                contents(*old(buffer)).len(),
                connect_packet(self@).len(),
            ) ==> r == Err::<(), CodecError>(CodecError::BufferFull),
            fields_fit(self@) && has_room(contents(*old(buffer)).len(), connect_packet(self@).len())
                ==> r is Ok,
            r is Ok ==> contents(*final(buffer)) == contents(*old(buffer)) + connect_packet(self@),
            r is Err ==> contents(*final(buffer)) == contents(*old(buffer)),
    {
        let header_u8: u8 = 0b00010000;
        let connect_flags = self.flags();
        let length = match self.body_length() {
            Ok(length) => length,
            Err(e) => return Err(e),
        };
        proof {
            lemma_connect_body_len(self@);
        }
        let size = size_of_length(length);
        if len(buffer) > usize::MAX - 1 - size - length {
            return Err(CodecError::BufferFull);
        }
        let ghost start = contents(*buffer);
        let ghost v = self@;
        assert(will_view(self.last_will) == v.last_will);
        assert(text_view(self.username) == v.username);
        assert(text_view(self.password) == v.password);
        write_u8(header_u8, buffer);
        put_length(length, buffer);
        self.write_fixed_part(connect_flags, buffer);
        write_will(&self.last_will, buffer);
        write_optional_string(&self.username, buffer);
        write_optional_string(&self.password, buffer);
        proof {
            lemma_assembled(
                start,
                seq![0x10u8],
                length_bytes(length as nat),
                connect_fixed_part(v),
                will_bytes(v.last_will),
                optional_string_bytes(v.username),
                optional_string_bytes(v.password),
            );
        }
        Ok(())
    }
}

impl Connack {
    /// Reads the body of an answer to a connection request off the front of
    /// the buffer: two bytes, of which the second must be a return code.
    pub fn from_buffer(buffer: &mut BytesMut) -> (r: Result<Self, CodecError>)
        ensures
            (r, contents(*final(buffer))) == read_connack_spec(contents(*old(buffer))),
    {
        let flags = match read_u8(buffer) {
            Ok(flags) => flags,
            Err(e) => return Err(e),
        };
        let return_code = match read_u8(buffer) {
            Ok(code) => code,
            Err(e) => return Err(e),
        };
        assert((flags & 0b1 == 1) == (flags % 2 == 1)) by (bit_vector);
        match ConnectReturnCode::from_u8(return_code) {
            Ok(code) => Ok(Connack { session_present: (flags & 0b1 == 1), code }),
            Err(e) => Err(e),
        }
    }

    /// Appends the answer to the buffer: fixed header, remaining length and
    /// body, four bytes in all. Nothing is written where the buffer cannot
    /// take them.
    pub fn to_buffer(&self, buffer: &mut BytesMut) -> (r: Result<(), CodecError>)
        ensures
            !has_room(contents(*old(buffer)).len(), 4) ==> r == Err::<(), CodecError>(
                CodecError::BufferFull,
            ) && contents(*final(buffer)) == contents(*old(buffer)),
            has_room(contents(*old(buffer)).len(), 4) ==> r is Ok && contents(*final(buffer))
                == contents(*old(buffer)) + connack_packet(*self),
    {
        if len(buffer) > usize::MAX - 4 {
            return Err(CodecError::BufferFull);
        }
        let flags: u8 = if self.session_present {
            0b1
        } else {
            0b0
        };
        write_u8(0b00100000, buffer);
        write_u8(2, buffer);
        write_u8(flags, buffer);
        write_u8(self.code.to_u8(), buffer);
        assert(contents(*buffer) =~= contents(*old(buffer)) + connack_packet(*self));
        Ok(())
    }
}

} // verus!
