use bytes::BytesMut;
use mqtt_codec::{
    decode, encode, CodecError, Connack, Connect, ConnectReturnCode, LastWill, Packet,
    PacketIdentifier, Protocol, Publish, QoS, QosPid, Suback, Subscribe, SubscribeReturnCodes,
    SubscribeTopic, Unsubscribe,
};

fn pid(n: u16) -> PacketIdentifier {
    PacketIdentifier::new(n).unwrap()
}

fn encoded(packet: &Packet) -> Vec<u8> {
    let mut buf = BytesMut::new();
    encode(packet, &mut buf).unwrap();
    buf.to_vec()
}

fn decoded(bytes: &[u8]) -> Result<Packet, CodecError> {
    let mut buf = BytesMut::from(bytes.to_vec());
    decode(&mut buf)
}

fn every_kind() -> Vec<Packet> {
    vec![
        Packet::Connect(Connect {
            protocol: Protocol::MQTT(4),
            keep_alive: 30,
            client_id: String::from("id"),
            clean_session: true,
            last_will: Some(LastWill {
                topic: String::from("will"),
                message: vec![1, 2, 3],
                qos: QoS::AtLeastOnce,
                retain: false,
            }),
            username: Some(String::from("u")),
            password: None,
        }),
        Packet::Connack(Connack { session_present: false, code: ConnectReturnCode::Accepted }),
        Packet::Publish(Publish {
            dup: false,
            qospid: QosPid::AtMostOnce,
            retain: true,
            topic_name: String::from("t/0"),
            payload: vec![0xca, 0xfe],
        }),
        Packet::Publish(Publish {
            dup: true,
            qospid: QosPid::AtLeastOnce(pid(10)),
            retain: false,
            topic_name: String::from("t/1"),
            payload: Vec::new(),
        }),
        Packet::Publish(Publish {
            dup: true,
            qospid: QosPid::ExactlyOnce(pid(65535)),
            retain: true,
            topic_name: String::new(),
            payload: vec![0; 300],
        }),
        Packet::Puback(pid(1)),
        Packet::Pubrec(pid(2)),
        Packet::Pubrel(pid(3)),
        Packet::Pubcomp(pid(4)),
        Packet::Subscribe(Subscribe {
            pid: pid(258),
            topics: vec![
                SubscribeTopic { topic_path: String::from("a/+"), qos: QoS::AtMostOnce },
                SubscribeTopic { topic_path: String::from("b/#"), qos: QoS::ExactlyOnce },
            ],
        }),
        Packet::Suback(Suback {
            pid: pid(258),
            return_codes: vec![
                SubscribeReturnCodes::Success(QoS::AtMostOnce),
                SubscribeReturnCodes::Failure,
                SubscribeReturnCodes::Success(QoS::ExactlyOnce),
            ],
        }),
        Packet::Suback(Suback { pid: pid(9), return_codes: Vec::new() }),
        Packet::Unsubscribe(Unsubscribe {
            pid: pid(7),
            topics: vec![String::from("a/+"), String::from("b/#")],
        }),
        Packet::Unsuback(pid(7)),
        Packet::Pingreq,
        Packet::Pingresp,
        Packet::Disconnect,
    ]
}

#[test]
fn every_kind_of_packet_round_trips() {
    for packet in every_kind() {
        let mut buf = BytesMut::new();
        encode(&packet, &mut buf).unwrap();
        buf.extend_from_slice(&[0xc0, 0x00]);
        assert_eq!(decode(&mut buf), Ok(packet));
        assert_eq!(&buf[..], &[0xc0, 0x00]);
    }
}

#[test]
fn packets_are_read_one_after_the_other() {
    let packets = every_kind();
    let mut buf = BytesMut::new();
    for packet in &packets {
        encode(packet, &mut buf).unwrap();
    }
    for packet in packets {
        assert_eq!(decode(&mut buf), Ok(packet));
    }
    assert!(buf.is_empty());
    assert_eq!(decode(&mut buf), Err(CodecError::Truncated));
}

#[test]
fn publish_exact_bytes() {
    let packet = Packet::Publish(Publish {
        dup: true,
        qospid: QosPid::AtLeastOnce(pid(0x0102)),
        retain: true,
        topic_name: String::from("a/b"),
        payload: vec![b'h', b'i'],
    });
    assert_eq!(
        encoded(&packet),
        vec![0b0011_1011, 9, 0x00, 0x03, b'a', b'/', b'b', 0x01, 0x02, b'h', b'i']
    );
    let packet = Packet::Publish(Publish {
        dup: false,
        qospid: QosPid::AtMostOnce,
        retain: false,
        topic_name: String::from("a/b"),
        payload: vec![b'h', b'i'],
    });
    assert_eq!(encoded(&packet), vec![0b0011_0000, 7, 0x00, 0x03, b'a', b'/', b'b', b'h', b'i']);
    let packet = Packet::Publish(Publish {
        dup: false,
        qospid: QosPid::ExactlyOnce(pid(1)),
        retain: false,
        topic_name: String::new(),
        payload: Vec::new(),
    });
    assert_eq!(encoded(&packet), vec![0b0011_0100, 4, 0x00, 0x00, 0x00, 0x01]);
}

#[test]
fn publish_payload_is_what_is_left_of_the_body() {
    let packet = decoded(&[0x30, 6, 0x00, 0x01, b't', 9, 8, 7, 0xff]).unwrap();
    assert_eq!(
        packet,
        Packet::Publish(Publish {
            dup: false,
            qospid: QosPid::AtMostOnce,
            retain: false,
            topic_name: String::from("t"),
            payload: vec![9, 8, 7],
        })
    );
}

#[test]
fn publish_failures() {
    // both quality-of-service bits set
    assert_eq!(decoded(&[0x36, 3, 0x00, 0x01, b't']), Err(CodecError::InvalidEnumValue));
    // identifier zero
    assert_eq!(decoded(&[0x32, 5, 0x00, 0x01, b't', 0, 0]), Err(CodecError::ZeroIdentifier));
    // identifier missing
    assert_eq!(decoded(&[0x32, 4, 0x00, 0x01, b't', 0]), Err(CodecError::Truncated));
    // topic longer than the body
    assert_eq!(decoded(&[0x30, 3, 0x00, 0x05, b't']), Err(CodecError::MalformedField));
    // body longer than the buffer
    assert_eq!(decoded(&[0x30, 9, 0x00, 0x01, b't']), Err(CodecError::Truncated));
}

#[test]
fn publish_from_buffer_takes_the_whole_buffer() {
    let mut buf = BytesMut::from(vec![0x00, 0x01, b't', 0x12, 0x34, 5, 6]);
    let publish = Publish::from_buffer(0b1101, &mut buf).unwrap();
    assert_eq!(
        publish,
        Publish {
            dup: true,
            qospid: QosPid::ExactlyOnce(pid(0x1234)),
            retain: true,
            topic_name: String::from("t"),
            payload: vec![5, 6],
        }
    );
    assert!(buf.is_empty());
}

#[test]
fn publish_too_long() {
    let publish = Publish {
        dup: false,
        qospid: QosPid::AtMostOnce,
        retain: false,
        topic_name: "t".repeat(65_536),
        payload: Vec::new(),
    };
    let mut buf = BytesMut::new();
    assert_eq!(publish.to_buffer(&mut buf), Err(CodecError::FieldTooLong));
    assert!(buf.is_empty());
    let publish = Publish {
        dup: false,
        qospid: QosPid::AtLeastOnce(pid(1)),
        retain: false,
        topic_name: String::from("t"),
        payload: vec![0; 268_435_455 - 4],
    };
    assert_eq!(publish.to_buffer(&mut buf), Err(CodecError::MalformedLength));
    assert!(buf.is_empty());
}

#[test]
fn publish_with_a_length_of_four_bytes() {
    let publish = Publish {
        dup: false,
        qospid: QosPid::AtMostOnce,
        retain: false,
        topic_name: String::from("t"),
        payload: vec![7; 2_097_152 - 3],
    };
    let mut buf = BytesMut::new();
    publish.to_buffer(&mut buf).unwrap();
    assert_eq!(buf.len(), 5 + 2_097_152);
    assert_eq!(&buf[..8], &[0x30, 0x80, 0x80, 0x80, 0x01, 0x00, 0x01, b't']);
    assert_eq!(decode(&mut buf), Ok(Packet::Publish(publish)));
    assert!(buf.is_empty());
}

#[test]
fn acknowledgement_exact_bytes() {
    assert_eq!(encoded(&Packet::Puback(pid(0x0a0b))), vec![0x40, 2, 0x0a, 0x0b]);
    assert_eq!(encoded(&Packet::Pubrec(pid(1))), vec![0x50, 2, 0, 1]);
    assert_eq!(encoded(&Packet::Pubrel(pid(256))), vec![0x62, 2, 1, 0]);
    assert_eq!(encoded(&Packet::Pubcomp(pid(65535))), vec![0x70, 2, 0xff, 0xff]);
    assert_eq!(encoded(&Packet::Unsuback(pid(2))), vec![0xb0, 2, 0, 2]);
}

#[test]
fn acknowledgement_failures() {
    assert_eq!(decoded(&[0x40, 2, 0, 0]), Err(CodecError::ZeroIdentifier));
    assert_eq!(decoded(&[0x40, 1, 5]), Err(CodecError::Truncated));
    assert_eq!(decoded(&[0x40, 0]), Err(CodecError::Truncated));
    assert_eq!(decoded(&[0xb0, 3, 0, 1, 9]), Err(CodecError::TrailingData));
    assert_eq!(decoded(&[0x40, 2, 0]), Err(CodecError::Truncated));
}

#[test]
fn acknowledgement_flags_are_not_looked_at() {
    assert_eq!(decoded(&[0x60, 2, 0, 3]), Ok(Packet::Pubrel(pid(3))));
    assert_eq!(decoded(&[0x4f, 2, 0, 3]), Ok(Packet::Puback(pid(3))));
}

#[test]
fn bare_exact_bytes() {
    assert_eq!(encoded(&Packet::Pingreq), vec![0xc0, 0]);
    assert_eq!(encoded(&Packet::Pingresp), vec![0xd0, 0]);
    assert_eq!(encoded(&Packet::Disconnect), vec![0xe0, 0]);
}

#[test]
fn bare_failures() {
    assert_eq!(decoded(&[0xc1, 0]), Err(CodecError::InvalidEnumValue));
    assert_eq!(decoded(&[0xd0, 1, 0]), Err(CodecError::TrailingData));
    assert_eq!(decoded(&[0xe8, 1, 0]), Err(CodecError::InvalidEnumValue));
}

#[test]
fn subscribe_exact_bytes() {
    let packet = Packet::Subscribe(Subscribe {
        pid: pid(0x0102),
        topics: vec![
            SubscribeTopic { topic_path: String::from("a"), qos: QoS::AtLeastOnce },
            SubscribeTopic { topic_path: String::from("bc"), qos: QoS::ExactlyOnce },
        ],
    });
    assert_eq!(
        encoded(&packet),
        vec![0x82, 11, 0x01, 0x02, 0x00, 0x01, b'a', 1, 0x00, 0x02, b'b', b'c', 2]
    );
}

#[test]
fn subscribe_failures() {
    // no topic
    assert_eq!(decoded(&[0x82, 2, 0, 1]), Err(CodecError::Truncated));
    // identifier zero
    assert_eq!(decoded(&[0x82, 6, 0, 0, 0, 1, b'a', 0]), Err(CodecError::ZeroIdentifier));
    // quality of service 3
    assert_eq!(decoded(&[0x82, 6, 0, 1, 0, 1, b'a', 3]), Err(CodecError::InvalidEnumValue));
    // quality of service missing
    assert_eq!(decoded(&[0x82, 5, 0, 1, 0, 1, b'a']), Err(CodecError::Truncated));
    // second topic cut short
    assert_eq!(
        decoded(&[0x82, 9, 0, 1, 0, 1, b'a', 0, 0, 4, b'b']),
        Err(CodecError::MalformedField)
    );
}

#[test]
fn subscribe_without_topics_is_written_but_not_read_back() {
    let packet = Packet::Subscribe(Subscribe { pid: pid(1), topics: Vec::new() });
    let bytes = encoded(&packet);
    assert_eq!(bytes, vec![0x82, 2, 0, 1]);
    assert_eq!(decoded(&bytes), Err(CodecError::Truncated));
}

#[test]
fn subscribe_filter_too_long() {
    let subscribe = Subscribe {
        pid: pid(1),
        topics: vec![
            SubscribeTopic { topic_path: String::from("ok"), qos: QoS::AtMostOnce },
            SubscribeTopic { topic_path: "x".repeat(65_536), qos: QoS::AtMostOnce },
        ],
    };
    let mut buf = BytesMut::from(vec![5]);
    assert_eq!(subscribe.to_buffer(&mut buf), Err(CodecError::FieldTooLong));
    assert_eq!(&buf[..], &[5]);
}

#[test]
fn suback_exact_bytes() {
    let packet = Packet::Suback(Suback {
        pid: pid(3),
        return_codes: vec![
            SubscribeReturnCodes::Success(QoS::AtMostOnce),
            SubscribeReturnCodes::Success(QoS::AtLeastOnce),
            SubscribeReturnCodes::Success(QoS::ExactlyOnce),
            SubscribeReturnCodes::Failure,
        ],
    });
    assert_eq!(encoded(&packet), vec![0x90, 6, 0, 3, 0, 1, 2, 0x80]);
}

#[test]
fn suback_return_codes() {
    assert_eq!(SubscribeReturnCodes::from_u8(0), Ok(SubscribeReturnCodes::Success(QoS::AtMostOnce)));
    assert_eq!(SubscribeReturnCodes::from_u8(0x80), Ok(SubscribeReturnCodes::Failure));
    assert_eq!(SubscribeReturnCodes::Failure.to_u8(), 0x80);
    assert_eq!(SubscribeReturnCodes::Success(QoS::ExactlyOnce).to_u8(), 2);
    for byte in 3..=u8::MAX {
        if byte != 0x80 {
            assert_eq!(SubscribeReturnCodes::from_u8(byte), Err(CodecError::InvalidEnumValue));
        }
    }
}

#[test]
fn suback_failures() {
    assert_eq!(decoded(&[0x90, 3, 0, 1, 3]), Err(CodecError::InvalidEnumValue));
    assert_eq!(decoded(&[0x90, 4, 0, 1, 0, 0x81]), Err(CodecError::InvalidEnumValue));
    assert_eq!(decoded(&[0x90, 2, 0, 0]), Err(CodecError::ZeroIdentifier));
    assert_eq!(decoded(&[0x90, 1, 0]), Err(CodecError::Truncated));
}

#[test]
fn unsubscribe_exact_bytes() {
    let packet = Packet::Unsubscribe(Unsubscribe {
        pid: pid(0x0203),
        topics: vec![String::from("a"), String::from("bc")],
    });
    assert_eq!(
        encoded(&packet),
        vec![0xa2, 9, 0x02, 0x03, 0x00, 0x01, b'a', 0x00, 0x02, b'b', b'c']
    );
}

#[test]
fn unsubscribe_failures() {
    assert_eq!(decoded(&[0xa2, 2, 0, 1]), Err(CodecError::Truncated));
    assert_eq!(decoded(&[0xa2, 3, 0, 1, 0]), Err(CodecError::MalformedField));
    assert_eq!(decoded(&[0xa2, 5, 0, 0, 0, 1, b'a']), Err(CodecError::ZeroIdentifier));
    let unsubscribe = Unsubscribe { pid: pid(1), topics: vec!["x".repeat(65_536)] };
    let mut buf = BytesMut::new();
    assert_eq!(unsubscribe.to_buffer(&mut buf), Err(CodecError::FieldTooLong));
    assert!(buf.is_empty());
}

#[test]
fn decode_connect_packet() {
    let bytes = [
        0x10, 15, 0x00, 0x04, b'M', b'Q', b'T', b'T', 0x04, 0b0000_0010, 0x00, 0x3c, 0x00, 0x03,
        b'a', b'b', b'c',
    ];
    assert_eq!(
        decoded(&bytes),
        Ok(Packet::Connect(Connect {
            protocol: Protocol::MQTT(4),
            keep_alive: 60,
            client_id: String::from("abc"),
            clean_session: true,
            last_will: None,
            username: None,
            password: None,
        }))
    );
}

#[test]
fn decode_connack_packet() {
    assert_eq!(
        decoded(&[0x20, 2, 0x01, 0x00]),
        Ok(Packet::Connack(Connack { session_present: true, code: ConnectReturnCode::Accepted }))
    );
    assert_eq!(decoded(&[0x20, 2, 0x00, 0x06]), Err(CodecError::InvalidEnumValue));
}

#[test]
fn body_that_is_longer_than_its_packet_is_trailing_data() {
    let mut buf = BytesMut::from(vec![0x20, 3, 0x01, 0x00, 0x99, 0xc0, 0x00]);
    assert_eq!(decode(&mut buf), Err(CodecError::TrailingData));
    assert_eq!(&buf[..], &[0xc0, 0x00]);
    assert_eq!(decode(&mut buf), Ok(Packet::Pingreq));
}

#[test]
fn body_that_is_shorter_than_its_packet_fails_in_its_reader() {
    let mut buf = BytesMut::from(vec![0x20, 1, 0x01, 0xe0, 0x00]);
    assert_eq!(decode(&mut buf), Err(CodecError::Truncated));
    assert_eq!(&buf[..], &[0xe0, 0x00]);
}

#[test]
fn packet_that_is_cut_short_loses_its_header_only() {
    let mut buf = BytesMut::from(vec![0x30, 5, 0x00, 0x01]);
    assert_eq!(decode(&mut buf), Err(CodecError::Truncated));
    assert_eq!(&buf[..], &[0x00, 0x01]);
}

#[test]
fn unknown_kind_and_bad_length() {
    assert_eq!(decoded(&[0x00, 0]), Err(CodecError::InvalidEnumValue));
    assert_eq!(decoded(&[0xf0, 0]), Err(CodecError::InvalidEnumValue));
    assert_eq!(decoded(&[0x30, 0xff, 0xff, 0xff, 0xff, 0x01]), Err(CodecError::MalformedLength));
    assert_eq!(decoded(&[]), Err(CodecError::Truncated));
}
