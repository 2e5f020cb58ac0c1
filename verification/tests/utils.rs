use mqtt_codec::{CodecError, ConnectReturnCode, PacketIdentifier, Protocol, QoS, QosPid};

#[test]
fn packet_identifier_zero_fails() {
    assert_eq!(PacketIdentifier::new(0), Err(CodecError::ZeroIdentifier));
}

#[test]
fn packet_identifier_keeps_its_value() {
    for u in [1u16, 2, 255, 256, 4660, 65534, 65535] {
        assert_eq!(PacketIdentifier::new(u).unwrap().get(), u);
    }
}

#[test]
fn packet_identifier_every_nonzero_value() {
    for u in 1..=u16::MAX {
        assert_eq!(PacketIdentifier::new(u).map(|id| id.get()), Ok(u));
    }
}

#[test]
fn packet_identifiers_compare_by_value() {
    let one = PacketIdentifier::new(1).unwrap();
    let two = PacketIdentifier::new(2).unwrap();
    assert!(one < two);
    assert_eq!(one, PacketIdentifier::new(1).unwrap());
    assert_ne!(one, two);
}

#[test]
fn qos_wire_values() {
    assert_eq!(QoS::AtMostOnce.to_u8(), 0);
    assert_eq!(QoS::AtLeastOnce.to_u8(), 1);
    assert_eq!(QoS::ExactlyOnce.to_u8(), 2);
    assert_eq!(QoS::from_u8(0), Ok(QoS::AtMostOnce));
    assert_eq!(QoS::from_u8(1), Ok(QoS::AtLeastOnce));
    assert_eq!(QoS::from_u8(2), Ok(QoS::ExactlyOnce));
}

#[test]
fn qos_above_two_is_invalid() {
    for byte in 3..=u8::MAX {
        assert_eq!(QoS::from_u8(byte), Err(CodecError::InvalidEnumValue));
    }
}

#[test]
fn qos_from_header_bits() {
    assert_eq!(QoS::from_hd(0b0000_0000), Ok(QoS::AtMostOnce));
    assert_eq!(QoS::from_hd(0b0000_0010), Ok(QoS::AtLeastOnce));
    assert_eq!(QoS::from_hd(0b0000_0100), Ok(QoS::ExactlyOnce));
    assert_eq!(QoS::from_hd(0b0000_0110), Err(CodecError::InvalidEnumValue));
    assert_eq!(QoS::from_hd(0b1111_1011), Ok(QoS::AtLeastOnce));
    assert_eq!(QoS::from_hd(0b0011_1001), Ok(QoS::AtMostOnce));
}

#[test]
fn qos_pid_pairs() {
    assert_eq!(QosPid::from_u8u16(0, 0), Ok(QosPid::AtMostOnce));
    assert_eq!(QosPid::from_u8u16(0, 17), Ok(QosPid::AtMostOnce));
    let id = PacketIdentifier::new(17).unwrap();
    assert_eq!(QosPid::from_u8u16(1, 17), Ok(QosPid::AtLeastOnce(id)));
    assert_eq!(QosPid::from_u8u16(2, 17), Ok(QosPid::ExactlyOnce(id)));
    assert_eq!(QosPid::from_u8u16(1, 0), Err(CodecError::ZeroIdentifier));
    assert_eq!(QosPid::from_u8u16(2, 0), Err(CodecError::ZeroIdentifier));
    assert_eq!(QosPid::from_u8u16(3, 17), Err(CodecError::InvalidEnumValue));
    assert_eq!(QosPid::from_u8u16(3, 0), Err(CodecError::InvalidEnumValue));
}

#[test]
fn protocol_recognised_pairs() {
    assert_eq!(Protocol::new("MQTT", 4), Ok(Protocol::MQTT(4)));
    assert_eq!(Protocol::new("MQIsdp", 3), Ok(Protocol::MQIsdp(3)));
}

#[test]
fn protocol_other_pairs_are_rejected() {
    assert_eq!(Protocol::new("MQTT", 3), Err(CodecError::InvalidProtocol));
    assert_eq!(Protocol::new("MQTT", 5), Err(CodecError::InvalidProtocol));
    assert_eq!(Protocol::new("MQIsdp", 4), Err(CodecError::InvalidProtocol));
    assert_eq!(Protocol::new("mqtt", 4), Err(CodecError::InvalidProtocol));
    assert_eq!(Protocol::new("MQT", 4), Err(CodecError::InvalidProtocol));
    assert_eq!(Protocol::new("MQTTT", 4), Err(CodecError::InvalidProtocol));
    assert_eq!(Protocol::new("", 4), Err(CodecError::InvalidProtocol));
}

#[test]
fn protocol_name_and_level() {
    assert_eq!(Protocol::MQTT(4).name(), "MQTT");
    assert_eq!(Protocol::MQTT(4).level(), 4);
    assert_eq!(Protocol::MQIsdp(3).name(), "MQIsdp");
    assert_eq!(Protocol::MQIsdp(3).level(), 3);
    assert_eq!(Protocol::MQTT(9).level(), 9);
}

#[test]
fn return_code_wire_values() {
    let codes = [
        ConnectReturnCode::Accepted,
        ConnectReturnCode::RefusedProtocolVersion,
        ConnectReturnCode::RefusedIdentifierRejected,
        ConnectReturnCode::ServerUnavailable,
        ConnectReturnCode::BadUsernamePassword,
        ConnectReturnCode::NotAuthorized,
    ];
    for (byte, code) in codes.iter().enumerate() {
        assert_eq!(code.to_u8(), byte as u8);
        assert_eq!(ConnectReturnCode::from_u8(byte as u8), Ok(*code));
    }
}

#[test]
fn return_code_above_five_is_invalid() {
    for byte in 6..=u8::MAX {
        assert_eq!(ConnectReturnCode::from_u8(byte), Err(CodecError::InvalidEnumValue));
    }
}
