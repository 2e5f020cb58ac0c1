use bytes::BytesMut;
use mqtt_codec::{
    CodecError, Connack, Connect, ConnectReturnCode, Header, LastWill, PacketType, Protocol, QoS,
};

fn sample_connect() -> Connect {
    Connect {
        protocol: Protocol::MQTT(4),
        keep_alive: 60,
        client_id: String::from("abc"),
        clean_session: true,
        last_will: None,
        username: None,
        password: None,
    }
}

fn full_connect() -> Connect {
    Connect {
        protocol: Protocol::MQTT(4),
        keep_alive: 300,
        client_id: String::from("client"),
        clean_session: false,
        last_will: Some(LastWill {
            topic: String::from("a/b"),
            message: vec![0xde, 0xad, 0x00],
            qos: QoS::ExactlyOnce,
            retain: true,
        }),
        username: Some(String::from("user")),
        password: Some(String::from("pw")),
    }
}

#[test]
fn it_works() {
    assert_eq!(2 + 2, 4);
}

#[test]
fn decode_connect_clean_session_only() {
    let mut buf = BytesMut::from(vec![
        0x00, 0x04, b'M', b'Q', b'T', b'T', 0x04, 0b0000_0010, 0x00, 0x3c, 0x00, 0x03, b'a', b'b',
        b'c',
    ]);
    let connect = Connect::from_buffer(&mut buf).unwrap();
    assert_eq!(connect, sample_connect());
    assert!(buf.is_empty());
}

#[test]
fn decode_connect_leaves_following_bytes() {
    let mut buf = BytesMut::from(vec![
        0x00, 0x04, b'M', b'Q', b'T', b'T', 0x04, 0b0000_0010, 0x00, 0x3c, 0x00, 0x03, b'a', b'b',
        b'c', 0xc0, 0x00,
    ]);
    let connect = Connect::from_buffer(&mut buf).unwrap();
    assert_eq!(connect, sample_connect());
    assert_eq!(&buf[..], &[0xc0, 0x00]);
}

#[test]
fn decode_connect_older_protocol() {
    let mut buf = BytesMut::from(vec![
        0x00, 0x06, b'M', b'Q', b'I', b's', b'd', b'p', 0x03, 0x00, 0x00, 0x0a, 0x00, 0x00,
    ]);
    let connect = Connect::from_buffer(&mut buf).unwrap();
    assert_eq!(connect.protocol, Protocol::MQIsdp(3));
    assert_eq!(connect.keep_alive, 10);
    assert_eq!(connect.client_id, "");
    assert!(!connect.clean_session);
}

#[test]
fn decode_connect_unknown_protocol() {
    let mut buf = BytesMut::from(vec![0x00, 0x04, b'M', b'Q', b'T', b'T', 0x05, 0x02, 0, 60, 0, 0]);
    assert_eq!(Connect::from_buffer(&mut buf), Err(CodecError::InvalidProtocol));
    let mut buf = BytesMut::from(vec![0x00, 0x04, b'M', b'Q', b'T', b'X', 0x04, 0x02, 0, 60, 0, 0]);
    assert_eq!(Connect::from_buffer(&mut buf), Err(CodecError::InvalidProtocol));
    let mut buf =
        BytesMut::from(vec![0x00, 0x06, b'M', b'Q', b'I', b's', b'd', b'p', 0x04, 0x02, 0, 60]);
    assert_eq!(Connect::from_buffer(&mut buf), Err(CodecError::InvalidProtocol));
}

#[test]
fn decode_connect_will_bits_without_will_are_ignored() {
    let mut buf = BytesMut::from(vec![
        0x00, 0x04, b'M', b'Q', b'T', b'T', 0x04, 0b0011_1010, 0x00, 0x3c, 0x00, 0x03, b'a', b'b',
        b'c',
    ]);
    let connect = Connect::from_buffer(&mut buf).unwrap();
    assert_eq!(connect, sample_connect());
}

#[test]
fn decode_connect_will_qos_three_is_rejected() {
    let mut buf = BytesMut::from(vec![
        0x00, 0x04, b'M', b'Q', b'T', b'T', 0x04, 0b0001_1100, 0x00, 0x3c, 0x00, 0x00, 0x00, 0x01,
        b't', 0x00, 0x01, 0x07, 0xff,
    ]);
    assert_eq!(Connect::from_buffer(&mut buf), Err(CodecError::InvalidEnumValue));
    assert_eq!(&buf[..], &[0xff]);
}

#[test]
fn decode_connect_short_field() {
    let mut buf = BytesMut::from(vec![
        0x00, 0x04, b'M', b'Q', b'T', b'T', 0x04, 0x02, 0x00, 0x3c, 0x00, 0x05, b'a', b'b',
    ]);
    assert_eq!(Connect::from_buffer(&mut buf), Err(CodecError::MalformedField));
    assert_eq!(&buf[..], &[b'a', b'b']);
}

#[test]
fn decode_connect_missing_fixed_fields() {
    let mut buf = BytesMut::from(vec![0x00, 0x04, b'M', b'Q', b'T', b'T']);
    assert_eq!(Connect::from_buffer(&mut buf), Err(CodecError::Truncated));
    let mut buf = BytesMut::from(vec![0x00, 0x04, b'M', b'Q', b'T', b'T', 0x04]);
    assert_eq!(Connect::from_buffer(&mut buf), Err(CodecError::Truncated));
    let mut buf = BytesMut::from(vec![0x00, 0x04, b'M', b'Q', b'T', b'T', 0x04, 0x02, 0x00]);
    assert_eq!(Connect::from_buffer(&mut buf), Err(CodecError::Truncated));
    let mut buf = BytesMut::new();
    assert_eq!(Connect::from_buffer(&mut buf), Err(CodecError::MalformedField));
}

#[test]
fn decode_connect_text_that_is_not_utf8() {
    let mut buf = BytesMut::from(vec![
        0x00, 0x04, b'M', b'Q', b'T', b'T', 0x04, 0x02, 0x00, 0x3c, 0x00, 0x02, 0xc3, 0x28,
    ]);
    assert_eq!(Connect::from_buffer(&mut buf), Err(CodecError::MalformedField));
}

#[test]
fn encode_connect_clean_session_only() {
    let mut buf = BytesMut::new();
    sample_connect().to_buffer(&mut buf).unwrap();
    assert_eq!(
        &buf[..],
        &[
            0x10, 15, 0x00, 0x04, b'M', b'Q', b'T', b'T', 0x04, 0b0000_0010, 0x00, 0x3c, 0x00,
            0x03, b'a', b'b', b'c',
        ]
    );
}

#[test]
fn encode_connect_appends() {
    let mut buf = BytesMut::from(vec![0xaa]);
    sample_connect().to_buffer(&mut buf).unwrap();
    assert_eq!(buf.len(), 18);
    assert_eq!(buf[0], 0xaa);
    assert_eq!(buf[1], 0x10);
}

#[test]
fn encode_connect_older_protocol_counts_its_name() {
    let connect = Connect {
        protocol: Protocol::MQIsdp(3),
        keep_alive: 1,
        client_id: String::new(),
        clean_session: false,
        last_will: None,
        username: None,
        password: None,
    };
    let mut buf = BytesMut::new();
    connect.to_buffer(&mut buf).unwrap();
    assert_eq!(
        &buf[..],
        &[0x10, 14, 0x00, 0x06, b'M', b'Q', b'I', b's', b'd', b'p', 0x03, 0x00, 0x00, 0x01, 0, 0]
    );
}

#[test]
fn encode_connect_with_will_username_password_in_order() {
    let mut buf = BytesMut::new();
    full_connect().to_buffer(&mut buf).unwrap();
    assert_eq!(
        &buf[..],
        &[
            0x10, 38, 0x00, 0x04, b'M', b'Q', b'T', b'T', 0x04, 0b1111_0100, 0x01, 0x2c, 0x00,
            0x06, b'c', b'l', b'i', b'e', b'n', b't', 0x00, 0x03, b'a', b'/', b'b', 0x00, 0x03,
            0xde, 0xad, 0x00, 0x00, 0x04, b'u', b's', b'e', b'r', 0x00, 0x02, b'p', b'w',
        ]
    );
}

#[test]
fn connect_with_will_username_password_round_trips() {
    let connect = full_connect();
    let mut buf = BytesMut::new();
    connect.to_buffer(&mut buf).unwrap();
    let header = Header::from_buffer(&mut buf).unwrap();
    assert_eq!(header, Header { typ: PacketType::Connect, flags: 0, len: 38 });
    assert_eq!(buf.len(), 38);
    let back = Connect::from_buffer(&mut buf).unwrap();
    assert_eq!(back, connect);
    let will = back.last_will.unwrap();
    assert_eq!(will.topic, "a/b");
    assert_eq!(will.message, vec![0xde, 0xad, 0x00]);
    assert_eq!(will.qos, QoS::ExactlyOnce);
    assert!(will.retain);
    assert_eq!(back.username.as_deref(), Some("user"));
    assert_eq!(back.password.as_deref(), Some("pw"));
    assert!(buf.is_empty());
}

#[test]
fn connect_round_trips_with_text_beyond_ascii() {
    let connect = Connect {
        protocol: Protocol::MQIsdp(3),
        keep_alive: 65535,
        client_id: String::from("caf\u{e9} \u{1f600}"),
        clean_session: true,
        last_will: Some(LastWill {
            topic: String::from("\u{4e2d}"),
            message: Vec::new(),
            qos: QoS::AtMostOnce,
            retain: false,
        }),
        username: None,
        password: Some(String::from("only a password")),
    };
    let mut buf = BytesMut::new();
    connect.to_buffer(&mut buf).unwrap();
    let header = Header::from_buffer(&mut buf).unwrap();
    assert_eq!(header.typ, PacketType::Connect);
    assert_eq!(header.len, buf.len());
    assert_eq!(Connect::from_buffer(&mut buf), Ok(connect));
    assert!(buf.is_empty());
}

#[test]
fn encode_connect_field_too_long() {
    let mut connect = sample_connect();
    connect.client_id = "x".repeat(65536);
    let mut buf = BytesMut::from(vec![1, 2, 3]);
    assert_eq!(connect.to_buffer(&mut buf), Err(CodecError::FieldTooLong));
    assert_eq!(&buf[..], &[1, 2, 3]);

    let mut connect = full_connect();
    connect.last_will.as_mut().unwrap().message = vec![0; 65536];
    assert_eq!(connect.to_buffer(&mut buf), Err(CodecError::FieldTooLong));
    assert_eq!(&buf[..], &[1, 2, 3]);
}

#[test]
fn encode_connect_longest_field_takes_three_length_bytes() {
    let mut connect = sample_connect();
    connect.client_id = "x".repeat(65535);
    let mut buf = BytesMut::new();
    connect.to_buffer(&mut buf).unwrap();
    // body: 12 bytes around a client identifier of 65535 bytes
    assert_eq!(buf.len(), 1 + 3 + 65547);
    assert_eq!(&buf[..4], &[0x10, 0x8b, 0x80, 0x04]);
    let header = Header::from_buffer(&mut buf).unwrap();
    assert_eq!(header.len, 65547);
    assert_eq!(Connect::from_buffer(&mut buf), Ok(connect));
}

#[test]
fn decode_connack_session_present_accepted() {
    let mut buf = BytesMut::from(vec![0x01, 0x00]);
    assert_eq!(
        Connack::from_buffer(&mut buf),
        Ok(Connack { session_present: true, code: ConnectReturnCode::Accepted })
    );
    assert!(buf.is_empty());
}

#[test]
fn decode_connack_undefined_code() {
    let mut buf = BytesMut::from(vec![0x00, 0x06]);
    assert_eq!(Connack::from_buffer(&mut buf), Err(CodecError::InvalidEnumValue));
}

#[test]
fn decode_connack_every_code() {
    let codes = [
        ConnectReturnCode::Accepted,
        ConnectReturnCode::RefusedProtocolVersion,
        ConnectReturnCode::RefusedIdentifierRejected,
        ConnectReturnCode::ServerUnavailable,
        ConnectReturnCode::BadUsernamePassword,
        ConnectReturnCode::NotAuthorized,
    ];
    for (byte, code) in codes.iter().enumerate() {
        let mut buf = BytesMut::from(vec![0x00, byte as u8, 0x77]);
        assert_eq!(
            Connack::from_buffer(&mut buf),
            Ok(Connack { session_present: false, code: *code })
        );
        assert_eq!(&buf[..], &[0x77]);
    }
}


#[test]
fn decode_connack_short() {
    let mut buf = BytesMut::from(vec![0x01]);
    assert_eq!(Connack::from_buffer(&mut buf), Err(CodecError::Truncated));
    let mut buf = BytesMut::new();
    assert_eq!(Connack::from_buffer(&mut buf), Err(CodecError::Truncated));
}

#[test]
fn connack_round_trips() {
    let connack = Connack { session_present: true, code: ConnectReturnCode::NotAuthorized };
    let mut buf = BytesMut::new();
    connack.to_buffer(&mut buf).unwrap();
    assert_eq!(&buf[..], &[0x20, 0x02, 0x01, 0x05]);
    let header = Header::from_buffer(&mut buf).unwrap();
    assert_eq!(header, Header { typ: PacketType::Connack, flags: 0, len: 2 });
    assert_eq!(Connack::from_buffer(&mut buf), Ok(connack));
    assert!(buf.is_empty());
}
