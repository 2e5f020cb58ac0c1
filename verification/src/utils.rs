//! The scalar types that every packet shares.

use crate::buffer::contents;
use crate::decoder::read_u16;
use crate::encoder::{has_room, write_u16};
use crate::error::CodecError;
use crate::wire::{read_pid_spec, u16_bytes};
use bytes::BytesMut;
use vstd::prelude::*;
use vstd::utf8::*;

verus! {

/// A packet identifier: a 16-bit number that is never zero.
#[derive(Debug, Clone, Copy, PartialEq, Eq, PartialOrd, Ord, Hash)]
pub struct PacketIdentifier(u16);

impl View for PacketIdentifier {
    type V = u16;

    closed spec fn view(&self) -> u16 {
        self.0
    }
}

impl PacketIdentifier {
    #[verifier::type_invariant]
    spec fn nonzero(self) -> bool {
        self.0 != 0
    }

    /// The identifier for `u`, which zero does not have.
    pub fn new(u: u16) -> (r: Result<Self, CodecError>)
        ensures
            u == 0 ==> r == Err::<Self, CodecError>(CodecError::ZeroIdentifier),
            u != 0 ==> r is Ok && r->Ok_0@ == u,
    {
        if u == 0 {
            Err(CodecError::ZeroIdentifier)
        } else {
            Ok(PacketIdentifier(u))
        }
    }

    /// The number that the identifier was made from.
    pub fn get(self) -> (u: u16)
        ensures
            u == self@,
            u != 0,
    {
        proof {
            use_type_invariant(self);
        }
        self.0
    }

    /// Reads an identifier off the front of the buffer: a big-endian 16-bit
    /// number, which must not be zero.
    pub fn from_buffer(buffer: &mut BytesMut) -> (r: Result<Self, CodecError>)
        ensures
            match r {
                Ok(pid) => read_pid_spec(contents(*old(buffer))).0 == Ok::<u16, CodecError>(pid@),
                Err(e) => read_pid_spec(contents(*old(buffer))).0 == Err::<u16, CodecError>(e),
            },
            contents(*final(buffer)) == read_pid_spec(contents(*old(buffer))).1,
    {
        match read_u16(buffer) {
            Ok(number) => Self::new(number),
            Err(e) => Err(e),
        }
    }

    /// Appends the identifier to a buffer that can take it.
    pub(crate) fn to_buffer(self, buffer: &mut BytesMut)
        requires
            has_room(contents(*old(buffer)).len(), 2),
        ensures
            contents(*final(buffer)) == contents(*old(buffer)) + u16_bytes(self@),
    {
        write_u16(self.get(), buffer)
    }
}

/// The quality of service of a delivery.
#[derive(Debug, Clone, Copy, PartialEq, Eq, Structural)]
pub enum QoS {
    AtMostOnce,
    AtLeastOnce,
    ExactlyOnce,
}

/// The level that a wire value stands for, where it stands for one.
pub open spec fn qos_of(byte: u8) -> Option<QoS> {
    if byte == 0 {
        Some(QoS::AtMostOnce)
    } else if byte == 1 {
        Some(QoS::AtLeastOnce)
    } else if byte == 2 {
        Some(QoS::ExactlyOnce)
    } else {
        None
    }
}

impl QoS {
    /// The wire value of a level.
    pub open spec fn wire(self) -> u8 {
        match self {
            QoS::AtMostOnce => 0,
            QoS::AtLeastOnce => 1,
            QoS::ExactlyOnce => 2,
        }
    }

    /// The byte that stands for the level.
    pub fn to_u8(&self) -> (byte: u8)
        ensures
            byte == self.wire(),
    {
        match *self {
            QoS::AtMostOnce => 0,
            QoS::AtLeastOnce => 1,
            QoS::ExactlyOnce => 2,
        }
    }

    /// The level that a byte stands for; a byte above 2 stands for none.
    pub fn from_u8(byte: u8) -> (r: Result<QoS, CodecError>)
        ensures
            r == match qos_of(byte) {
                Some(q) => Ok::<QoS, CodecError>(q),
                None => Err(CodecError::InvalidEnumValue),
            },
    {
        match byte {
            0 => Ok(QoS::AtMostOnce),
            1 => Ok(QoS::AtLeastOnce),
            2 => Ok(QoS::ExactlyOnce),
            _ => Err(CodecError::InvalidEnumValue),
        }
    }

    /// The level in bits 1 and 2 of a fixed header's first byte.
    #[inline]
    pub fn from_hd(hd: u8) -> (r: Result<QoS, CodecError>)
        ensures
            r == match qos_of((hd / 2) % 4) {
                Some(q) => Ok::<QoS, CodecError>(q),
                None => Err(CodecError::InvalidEnumValue),
            },
    {
        assert((hd & 0b110) >> 1 == (hd / 2) % 4) by (bit_vector);
        Self::from_u8((hd & 0b110) >> 1)
    }

    /// Reading back the wire value of a level gives the level.
    pub proof fn lemma_wire_round_trip(self)
        ensures
            qos_of(self.wire()) == Some(self),
    {
    }
}

/// A quality of service together with the identifier that it calls for:
/// none at the lowest level, one at the other two.
#[derive(Debug, Clone, Copy, PartialEq, Eq)]
pub enum QosPid {
    AtMostOnce,
    AtLeastOnce(PacketIdentifier),
    ExactlyOnce(PacketIdentifier),
}

/// What a quality of service with its identifier holds, as plain values.
pub ghost enum QosPidView {
    AtMostOnce,
    AtLeastOnce(u16),
    ExactlyOnce(u16),
}

impl QosPidView {
    /// The quality of service.
    pub open spec fn qos(self) -> QoS {
        match self {
            QosPidView::AtMostOnce => QoS::AtMostOnce,
            QosPidView::AtLeastOnce(_) => QoS::AtLeastOnce,
            QosPidView::ExactlyOnce(_) => QoS::ExactlyOnce,
        }
    }

    /// The identifier, where there is one.
    pub open spec fn pid(self) -> Option<u16> {
        match self {
            QosPidView::AtMostOnce => None,
            QosPidView::AtLeastOnce(pid) => Some(pid),
            QosPidView::ExactlyOnce(pid) => Some(pid),
        }
    }

    /// Whether the identifier, where there is one, is not zero, as it is in
    /// the view of every value.
    pub open spec fn valid(self) -> bool {
        self.pid() != Some(0u16)
    }
}

/// What `from_u8u16` makes of a quality of service and a number.
pub open spec fn qos_pid_of(qos: u8, pid: u16) -> Result<QosPidView, CodecError> {
    if qos == 0 {
        Ok(QosPidView::AtMostOnce)
    } else if qos > 2 {
        Err(CodecError::InvalidEnumValue)
    } else if pid == 0 {
        Err(CodecError::ZeroIdentifier)
    } else if qos == 1 {
        Ok(QosPidView::AtLeastOnce(pid))
    } else {
        Ok(QosPidView::ExactlyOnce(pid))
    }
}

impl View for QosPid {
    type V = QosPidView;

    open spec fn view(&self) -> QosPidView {
        match *self {
            QosPid::AtMostOnce => QosPidView::AtMostOnce,
            QosPid::AtLeastOnce(pid) => QosPidView::AtLeastOnce(pid@),
            QosPid::ExactlyOnce(pid) => QosPidView::ExactlyOnce(pid@),
        }
    }
}

impl QosPid {
    /// The quality of service.
    pub fn qos(&self) -> (qos: QoS)
        ensures
            qos == self@.qos(),
    {
        match *self {
            QosPid::AtMostOnce => QoS::AtMostOnce,
            QosPid::AtLeastOnce(_) => QoS::AtLeastOnce,
            QosPid::ExactlyOnce(_) => QoS::ExactlyOnce,
        }
    }

    /// The identifier, where there is one; it is never zero.
    pub fn pid(&self) -> (pid: Option<PacketIdentifier>)
        ensures
            match pid {
                Some(id) => self@.pid() == Some(id@),
                None => self@.pid() is None,
            },
            self@.valid(),
    {
        match *self {
            QosPid::AtMostOnce => None,
            QosPid::AtLeastOnce(id) => {
                let number = id.get();
                Some(id)
            },
            QosPid::ExactlyOnce(id) => {
                let number = id.get();
                Some(id)
            },
        }
    }

    /// The pair for a quality of service and a number: the number is not
    /// looked at for the level 0 and must not be zero for the levels 1 and 2.
    pub fn from_u8u16(qos: u8, pid: u16) -> (r: Result<Self, CodecError>)
        ensures
            match r {
                Ok(pair) => qos_pid_of(qos, pid) == Ok::<QosPidView, CodecError>(pair@),
                Err(e) => qos_pid_of(qos, pid) == Err::<QosPidView, CodecError>(e),
            },
    {
        match qos {
            0 => Ok(QosPid::AtMostOnce),
            1 => match PacketIdentifier::new(pid) {
                Ok(id) => Ok(QosPid::AtLeastOnce(id)),
                Err(e) => Err(e),
            },
            2 => match PacketIdentifier::new(pid) {
                Ok(id) => Ok(QosPid::ExactlyOnce(id)),
                Err(e) => Err(e),
            },
            _ => Err(CodecError::InvalidEnumValue),
        }
    }
}

/// The answer of a server to a connection request.
#[derive(Debug, Clone, Copy, PartialEq, Eq, Structural)]
pub enum ConnectReturnCode {
    Accepted,
    RefusedProtocolVersion,
    RefusedIdentifierRejected,
    ServerUnavailable,
    BadUsernamePassword,
    NotAuthorized,
}

/// The return code that a wire value stands for, where it stands for one.
pub open spec fn return_code_of(byte: u8) -> Option<ConnectReturnCode> {
    if byte == 0 {
        Some(ConnectReturnCode::Accepted)
    } else if byte == 1 {
        Some(ConnectReturnCode::RefusedProtocolVersion)
    } else if byte == 2 {
        Some(ConnectReturnCode::RefusedIdentifierRejected)
    } else if byte == 3 {
        Some(ConnectReturnCode::ServerUnavailable)
    } else if byte == 4 {
        Some(ConnectReturnCode::BadUsernamePassword)
    } else if byte == 5 {
        Some(ConnectReturnCode::NotAuthorized)
    } else {
        None
    }
}

impl ConnectReturnCode {
    /// The wire value of a return code.
    pub open spec fn wire(self) -> u8 {
        match self {
            ConnectReturnCode::Accepted => 0,
            ConnectReturnCode::RefusedProtocolVersion => 1,
            ConnectReturnCode::RefusedIdentifierRejected => 2,
            ConnectReturnCode::ServerUnavailable => 3,
            ConnectReturnCode::BadUsernamePassword => 4,
            ConnectReturnCode::NotAuthorized => 5,
        }
    }

    /// The byte that stands for the return code.
    pub fn to_u8(&self) -> (byte: u8)
        ensures
            byte == self.wire(),
    {
        match *self {
            ConnectReturnCode::Accepted => 0,
            ConnectReturnCode::RefusedProtocolVersion => 1,
            ConnectReturnCode::RefusedIdentifierRejected => 2,
            ConnectReturnCode::ServerUnavailable => 3,
            ConnectReturnCode::BadUsernamePassword => 4,
            ConnectReturnCode::NotAuthorized => 5,
        }
    }

    /// The return code that a byte stands for; a byte above 5 stands for
    /// none.
    pub fn from_u8(byte: u8) -> (r: Result<ConnectReturnCode, CodecError>)
        ensures
            r == match return_code_of(byte) {
                Some(c) => Ok::<ConnectReturnCode, CodecError>(c),
                None => Err(CodecError::InvalidEnumValue),
            },
    {
        match byte {
            0 => Ok(ConnectReturnCode::Accepted),
            1 => Ok(ConnectReturnCode::RefusedProtocolVersion),
            2 => Ok(ConnectReturnCode::RefusedIdentifierRejected),
            3 => Ok(ConnectReturnCode::ServerUnavailable),
            4 => Ok(ConnectReturnCode::BadUsernamePassword),
            5 => Ok(ConnectReturnCode::NotAuthorized),
            _ => Err(CodecError::InvalidEnumValue),
        }
    }

    /// Reading back the wire value of a return code gives the return code.
    pub proof fn lemma_wire_round_trip(self)
        ensures
            return_code_of(self.wire()) == Some(self),
    {
    }
}

/// The protocol family that a client speaks, with its version level.
#[derive(Debug, Clone, Copy, PartialEq, Eq, Structural)]
pub enum Protocol {
    MQIsdp(u8),
    MQTT(u8),
}

/// The name of the older protocol family.
pub open spec fn mqisdp_name() -> Seq<char> {
    seq!['M', 'Q', 'I', 's', 'd', 'p']
}

/// The name of the newer protocol family.
pub open spec fn mqtt_name() -> Seq<char> {
    seq!['M', 'Q', 'T', 'T']
}

/// The protocol that a name and a level stand for: the two recognised pairs
/// are the older name with level 3 and the newer name with level 4.
pub open spec fn protocol_of(name: Seq<char>, level: u8) -> Option<Protocol> {
    if name == mqisdp_name() && level == 3 {
        Some(Protocol::MQIsdp(3))
    } else if name == mqtt_name() && level == 4 {
        Some(Protocol::MQTT(4))
    } else {
        None
    }
}

/// Whether two slices hold the same bytes.
fn same_bytes(a: &[u8], b: &[u8]) -> (same: bool)
    ensures
        same == (a@ == b@),
{
    if a.len() != b.len() {
        return false;
    }
    let mut i: usize = 0;
    while i < a.len()
        invariant
            a@.len() == b@.len(),
            i <= a@.len(),
            forall|j: int| 0 <= j < i ==> a@[j] == b@[j],
        decreases a@.len() - i,
    {
        if a[i] != b[i] {
            return false;
        }
        i += 1;
    }
    assert(a@ =~= b@);
    true
}

/// Two texts with the same UTF-8 encoding are the same text.
pub proof fn lemma_utf8_injective(a: Seq<char>, b: Seq<char>)
    requires
        encode_utf8(a) == encode_utf8(b),
    ensures
        a == b,
{
    encode_utf8_decode_utf8(a);
    encode_utf8_decode_utf8(b);
}

impl Protocol {
    /// The name that the variant stands for.
    pub open spec fn spec_name(self) -> Seq<char> {
        match self {
            Protocol::MQIsdp(_) => mqisdp_name(),
            Protocol::MQTT(_) => mqtt_name(),
        }
    }

    /// The level that the value carries.
    pub open spec fn spec_level(self) -> u8 {
        match self {
            Protocol::MQIsdp(level) => level,
            Protocol::MQTT(level) => level,
        }
    }

    /// Whether the value is one of the two recognised pairs, as every value
    /// is that `new` returns.
    pub open spec fn recognised(self) -> bool {
        self == Protocol::MQIsdp(3) || self == Protocol::MQTT(4)
    }

    /// The protocol for a name and a level, which must be a recognised pair.
    pub fn new(name: &str, level: u8) -> (r: Result<Protocol, CodecError>)
        ensures
            r == match protocol_of(name@, level) {
                Some(p) => Ok::<Protocol, CodecError>(p),
                None => Err(CodecError::InvalidProtocol),
            },
    {
        let bytes = name.as_bytes();
        let older = "MQIsdp";
        let newer = "MQTT";
        proof {
            reveal_strlit("MQIsdp");
            reveal_strlit("MQTT");
            assert(older@ =~= mqisdp_name());
            assert(newer@ =~= mqtt_name());
            if encode_utf8(name@) == encode_utf8(mqisdp_name()) {
                lemma_utf8_injective(name@, mqisdp_name());
            }
            if encode_utf8(name@) == encode_utf8(mqtt_name()) {
                lemma_utf8_injective(name@, mqtt_name());
            }
        }
        if same_bytes(bytes, older.as_bytes()) {
            if level == 3 {
                Ok(Protocol::MQIsdp(3))
            } else {
                Err(CodecError::InvalidProtocol)
            }
        } else if same_bytes(bytes, newer.as_bytes()) {
            if level == 4 {
                Ok(Protocol::MQTT(4))
            } else {
                Err(CodecError::InvalidProtocol)
            }
        } else {
            Err(CodecError::InvalidProtocol)
        }
    }

    /// The name of the protocol family.
    pub fn name(&self) -> (text: &'static str)
        ensures
            text@ == self.spec_name(),
    {
        proof {
            reveal_strlit("MQIsdp");
            reveal_strlit("MQTT");
            assert("MQIsdp"@ =~= mqisdp_name());
            assert("MQTT"@ =~= mqtt_name());
        }
        match *self {
            Protocol::MQIsdp(_) => "MQIsdp",
            Protocol::MQTT(_) => "MQTT",
        }
    }

    /// The version level.
    pub fn level(&self) -> (level: u8)
        ensures
            level == self.spec_level(),
    {
        match *self {
            Protocol::MQIsdp(level) => level,
            Protocol::MQTT(level) => level,
        }
    }

    /// A recognised pair is what its own name and level stand for.
    pub proof fn lemma_name_level_round_trip(self)
        requires
            self.recognised(),
        ensures
            protocol_of(self.spec_name(), self.spec_level()) == Some(self),
    {
        assert(mqisdp_name().len() != mqtt_name().len());
    }
}

/// The message that a server publishes for a client that goes away
/// without saying so.
#[derive(Debug, Clone, PartialEq)]
pub struct LastWill {
    pub topic: String,
    pub message: Vec<u8>,
    pub qos: QoS,
    pub retain: bool,
}

/// What a last will holds, as plain values.
pub ghost struct LastWillView {
    pub topic: Seq<char>,
    pub message: Seq<u8>,
    pub qos: QoS,
    pub retain: bool,
}

impl View for LastWill {
    type V = LastWillView;

    open spec fn view(&self) -> LastWillView {
        LastWillView {
            topic: self.topic@,
            message: self.message@,
            qos: self.qos,
            retain: self.retain,
        }
    }
}

} // verus!
