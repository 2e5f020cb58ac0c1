//! The packet that carries an application message.

use crate::buffer::{contents, extend_from_slice, len, split_to, to_vec};
use crate::decoder::read_string;
use crate::encoder::{has_room, put_length, put_string, size_of_length, write_u8};
use crate::error::CodecError;
use crate::utils::{qos_of, PacketIdentifier, QoS, QosPid, QosPidView};
use crate::wire::{
    length_bytes, read_pid_spec, read_string_spec, string_bytes, u16_bytes, Outcome, MAX_FIELD,
    MAX_LENGTH,
};
use bytes::BytesMut;
use vstd::prelude::*;
use vstd::utf8::*;

verus! {

/// An application message on its way to or from a server.
#[derive(Debug, Clone, PartialEq)]
pub struct Publish {
    pub dup: bool,
    pub qospid: QosPid,
    pub retain: bool,
    pub topic_name: String,
    pub payload: Vec<u8>,
}

/// What a publish packet holds, as plain values.
pub ghost struct PublishView {
    pub dup: bool,
    pub qospid: QosPidView,
    pub retain: bool,
    pub topic_name: Seq<char>,
    pub payload: Seq<u8>,
}

impl View for Publish {
    type V = PublishView;

    open spec fn view(&self) -> PublishView {
        PublishView {
            dup: self.dup,
            qospid: self.qospid@,
            retain: self.retain,
            topic_name: self.topic_name@,
            payload: self.payload@,
        }
    }
}

/// Whether bit 3 of the header flags, the duplicate bit, is set.
pub open spec fn dup_bit(flags: u8) -> bool {
    (flags / 8) % 2 == 1
}

/// Bits 1 and 2 of the header flags: the quality of service.
pub open spec fn qos_bits(flags: u8) -> u8 {
    ((flags / 2) % 4) as u8
}

/// Whether bit 0 of the header flags, the retain bit, is set.
pub open spec fn retain_bit(flags: u8) -> bool {
    flags % 2 == 1
}

/// Reads the identifier that a quality of service calls for: none at the
/// lowest level, else a 16-bit number that is not zero.
pub open spec fn read_qos_pid_spec(s: Seq<u8>, qos: QoS) -> Outcome<QosPidView> {
    if qos == QoS::AtMostOnce {
        (Ok(QosPidView::AtMostOnce), s)
    } else {
        let (pid, rest) = read_pid_spec(s);
        match pid {
            Err(e) => (Err(e), rest),
            Ok(pid) => if qos == QoS::AtLeastOnce {
                (Ok(QosPidView::AtLeastOnce(pid)), rest)
            } else {
                (Ok(QosPidView::ExactlyOnce(pid)), rest)
            },
        }
    }
}

/// Reads the body of a publish packet under the flags of its header: the
/// topic, the identifier where the quality of service calls for one, and
/// all that is left as the payload. Nothing is read where the flags hold no
/// quality of service.
pub open spec fn read_publish_spec(flags: u8, s: Seq<u8>) -> Outcome<PublishView> {
    match qos_of(qos_bits(flags)) {
        None => (Err(CodecError::InvalidEnumValue), s),
        Some(qos) => {
            let (topic_name, after_topic) = read_string_spec(s);
            match topic_name {
                Err(e) => (Err(e), after_topic),
                Ok(topic_name) => {
                    let (qospid, after_pid) = read_qos_pid_spec(after_topic, qos);
                    match qospid {
                        Err(e) => (Err(e), after_pid),
                        Ok(qospid) => (
                            Ok(
                                PublishView {
                                    dup: dup_bit(flags),
                                    qospid,
                                    retain: retain_bit(flags),
                                    topic_name,
                                    payload: after_pid,
                                },
                            ),
                            Seq::empty(),
                        ),
                    }
                },
            }
        },
    }
}

/// The header flags of a publish packet.
pub open spec fn publish_flags(v: PublishView) -> u8 {
    ((if v.dup {
        8nat
    } else {
        0nat
    }) + 2 * v.qospid.qos().wire() + (if v.retain {
        1nat
    } else {
        0nat
    })) as u8
}

/// The bytes of an identifier that may be absent.
pub open spec fn pid_bytes(pid: Option<u16>) -> Seq<u8> {
    match pid {
        None => Seq::empty(),
        Some(pid) => u16_bytes(pid),
    }
}

/// The body of a publish packet: the topic, the identifier where there is
/// one, and the payload as it is.
pub open spec fn publish_body(v: PublishView) -> Seq<u8> {
    string_bytes(v.topic_name) + pid_bytes(v.qospid.pid()) + v.payload
}

/// A publish packet on the wire: a byte with the kind 3 and the flags, the
/// length of the body, and the body.
pub open spec fn publish_packet(v: PublishView) -> Seq<u8> {
    seq![(48 + publish_flags(v)) as u8] + length_bytes(publish_body(v).len()) + publish_body(v)
}

/// Whether a publish packet can be written: its topic fits a length prefix
/// and its body fits a remaining length.
pub open spec fn publish_fits(v: PublishView) -> bool {
    encode_utf8(v.topic_name).len() <= MAX_FIELD && publish_body(v).len() <= MAX_LENGTH
}

/// The length of a body is the sum of the lengths of its fields.
pub proof fn lemma_publish_body_len(v: PublishView)
    ensures
        publish_body(v).len() == 2 + encode_utf8(v.topic_name).len() + pid_bytes(
            v.qospid.pid(),
        ).len() + v.payload.len(),
        pid_bytes(v.qospid.pid()).len() == if v.qospid.pid() is Some {
            2nat
        } else {
            0nat
        },
{
}

/// Reads the identifier that a quality of service calls for.
fn read_qos_pid(buffer: &mut BytesMut, qos: QoS) -> (r: Result<QosPid, CodecError>)
    ensures
        match r {
            Ok(pair) => read_qos_pid_spec(contents(*old(buffer)), qos).0 == Ok::<
                QosPidView,
                CodecError,
            >(pair@),
            Err(e) => read_qos_pid_spec(contents(*old(buffer)), qos).0 == Err::<
                QosPidView,
                CodecError,
            >(e),
        },
        contents(*final(buffer)) == read_qos_pid_spec(contents(*old(buffer)), qos).1,
{
    match qos {
        QoS::AtMostOnce => Ok(QosPid::AtMostOnce),
        QoS::AtLeastOnce => match PacketIdentifier::from_buffer(buffer) {
            Ok(id) => Ok(QosPid::AtLeastOnce(id)),
            Err(e) => Err(e),
        },
        QoS::ExactlyOnce => match PacketIdentifier::from_buffer(buffer) {
            Ok(id) => Ok(QosPid::ExactlyOnce(id)),
            Err(e) => Err(e),
        },
    }
}

impl Publish {
    /// Reads the body of a publish packet, which is all that the buffer
    /// holds, under the flags of the packet's header.
    pub fn from_buffer(flags: u8, buffer: &mut BytesMut) -> (r: Result<Self, CodecError>)
        ensures
            match r {
                Ok(publish) => read_publish_spec(flags, contents(*old(buffer))).0 == Ok::<
                    PublishView,
                    CodecError,
                >(publish@),
                Err(e) => read_publish_spec(flags, contents(*old(buffer))).0 == Err::<
                    PublishView,
                    CodecError,
                >(e),
            },
            contents(*final(buffer)) == read_publish_spec(flags, contents(*old(buffer))).1,
    {
        assert((flags & 0b110) >> 1 == (flags / 2) % 4) by (bit_vector);
        let qos = match QoS::from_hd(flags) {
            Ok(qos) => qos,
            Err(e) => return Err(e),
        };
        let topic_name = match read_string(buffer) {
            Ok(topic_name) => topic_name,
            Err(e) => return Err(e),
        };
        let qospid = match read_qos_pid(buffer, qos) {
            Ok(qospid) => qospid,
            Err(e) => return Err(e),
        };
        let ghost left = contents(*buffer);
        let rest = split_to(buffer, len(buffer));
        let payload = to_vec(&rest);
        assert(payload@ =~= left);
        assert(contents(*buffer) =~= Seq::<u8>::empty());
        assert((flags & 0b1000 != 0) == dup_bit(flags)) by (bit_vector)
            requires
                dup_bit(flags) == ((flags / 8) % 2 == 1),
        ;
        assert((flags & 0b1 != 0) == retain_bit(flags)) by (bit_vector)
            requires
                retain_bit(flags) == (flags % 2 == 1),
        ;
        Ok(
            Publish {
                dup: flags & 0b1000 != 0,
                qospid,
                retain: flags & 0b1 != 0,
                topic_name,
                payload,
            },
        )
    }

    /// The header flags that say how the message is delivered.
    fn flags(&self) -> (flags: u8)
        ensures
            flags == publish_flags(self@),
            flags < 16,
    {
        let qos = self.qospid.qos().to_u8();
        assert(qos << 1 == 2 * qos) by (bit_vector)
            requires
                qos <= 2,
        ;
        let mut flags: u8 = qos << 1;
        if self.dup {
            assert(flags | 0b1000 == flags + 8) by (bit_vector)
                requires
                    flags < 8,
            ;
            flags = flags | 0b1000;
        }
        if self.retain {
            assert(flags | 0b1 == flags + 1) by (bit_vector)
                requires
                    flags % 2 == 0,
            ;
            flags = flags | 0b1;
        }
        flags
    }

    /// Appends the publish packet to the buffer: fixed header, remaining
    /// length and body.
    ///
    /// Nothing is written where the topic is too long for its length prefix,
    /// where the body is too long for a remaining length, or where the
    /// buffer cannot take the packet.
    pub fn to_buffer(&self, buffer: &mut BytesMut) -> (r: Result<(), CodecError>)
        ensures
            encode_utf8(self@.topic_name).len() > MAX_FIELD ==> r == Err::<(), CodecError>(
                CodecError::FieldTooLong,
            ),
            encode_utf8(self@.topic_name).len() <= MAX_FIELD && publish_body(self@).len()
                > MAX_LENGTH ==> r == Err::<(), CodecError>(CodecError::MalformedLength),
            publish_fits(self@) && !has_room(
                contents(*old(buffer)).len(),
                publish_packet(self@).len(),
            ) ==> r == Err::<(), CodecError>(CodecError::BufferFull),
            publish_fits(self@) && has_room(
                contents(*old(buffer)).len(),
                publish_packet(self@).len(),
            ) ==> r is Ok,
            r is Ok ==> contents(*final(buffer)) == contents(*old(buffer)) + publish_packet(self@),
            r is Err ==> contents(*final(buffer)) == contents(*old(buffer)),
    {
        proof {
            lemma_publish_body_len(self@);
        }
        let topic_len = self.topic_name.as_str().as_bytes().len();
        if topic_len > MAX_FIELD {
            return Err(CodecError::FieldTooLong);
        }
        let pid = self.qospid.pid();
        let pid_len: usize = if pid.is_some() {
            2
        } else {
            0
        };
        let fixed = 2 + topic_len + pid_len;
        if self.payload.len() > MAX_LENGTH - fixed {
            return Err(CodecError::MalformedLength);
        }
        let length = fixed + self.payload.len();
        let size = size_of_length(length);
        if len(buffer) > usize::MAX - 1 - size - length {
            return Err(CodecError::BufferFull);
        }
        let flags = self.flags();
        assert(0b00110000u8 | flags == 48 + flags) by (bit_vector)
            requires
                flags < 16,
        ;
        write_u8(0b00110000 | flags, buffer);
        put_length(length, buffer);
        put_string(self.topic_name.as_str(), buffer);
        let ghost with_topic = contents(*buffer);
        match pid {
            Some(id) => {
                id.to_buffer(buffer);
            },
            None => {},
        }
        assert(contents(*buffer) =~= with_topic + pid_bytes(self@.qospid.pid()));
        extend_from_slice(buffer, self.payload.as_slice());
        proof {
            lemma_publish_assembled(
                contents(*old(buffer)),
                seq![(48 + flags) as u8],
                length_bytes(length as nat),
                string_bytes(self@.topic_name),
                pid_bytes(self@.qospid.pid()),
                self@.payload,
            );
        }
        Ok(())
    }
}

/// Pieces appended one after the other make up what they make up when put
/// together first.
proof fn lemma_publish_assembled(
    start: Seq<u8>,
    kind: Seq<u8>,
    length: Seq<u8>,
    topic: Seq<u8>,
    pid: Seq<u8>,
    payload: Seq<u8>,
)
    ensures
        start + kind + length + topic + pid + payload == start + (kind + length + (topic + pid
            + payload)),
{
    assert(start + kind + length + topic + pid + payload =~= start + (kind + length + (topic + pid
        + payload)));
}

} // verus!
