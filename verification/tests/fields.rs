use bytes::BytesMut;
use mqtt_codec::decoder::{read_bytes, read_length, read_string};
use mqtt_codec::encoder::{write_bytes, write_length, write_string};
use mqtt_codec::{CodecError, Header, PacketType};

fn encoded_length(n: usize) -> Vec<u8> {
    let mut buf = BytesMut::new();
    write_length(n, &mut buf).unwrap();
    buf.to_vec()
}

#[test]
fn length_zero_is_one_zero_byte() {
    assert_eq!(encoded_length(0), vec![0x00]);
}

#[test]
fn length_exact_bytes() {
    assert_eq!(encoded_length(1), vec![0x01]);
    assert_eq!(encoded_length(127), vec![0x7f]);
    assert_eq!(encoded_length(128), vec![0x80, 0x01]);
    assert_eq!(encoded_length(321), vec![0xc1, 0x02]);
    assert_eq!(encoded_length(16_383), vec![0xff, 0x7f]);
    assert_eq!(encoded_length(16_384), vec![0x80, 0x80, 0x01]);
    assert_eq!(encoded_length(2_097_151), vec![0xff, 0xff, 0x7f]);
    assert_eq!(encoded_length(2_097_152), vec![0x80, 0x80, 0x80, 0x01]);
    assert_eq!(encoded_length(268_435_455), vec![0xff, 0xff, 0xff, 0x7f]);
}

#[test]
fn length_above_the_ceiling_is_not_written() {
    let mut buf = BytesMut::from(vec![9]);
    assert_eq!(write_length(268_435_456, &mut buf), Err(CodecError::MalformedLength));
    assert_eq!(write_length(usize::MAX, &mut buf), Err(CodecError::MalformedLength));
    assert_eq!(&buf[..], &[9]);
}

#[test]
fn length_round_trips() {
    let mut values = vec![0usize, 1, 127, 128, 129, 16_383, 16_384, 2_097_151, 2_097_152];
    values.push(268_435_455);
    let mut n = 3usize;
    while n < 268_435_455 {
        values.push(n);
        n = n * 7 + 5;
    }
    for n in values {
        let mut buf = BytesMut::new();
        write_length(n, &mut buf).unwrap();
        buf.extend_from_slice(&[0xee]);
        assert_eq!(read_length(&mut buf), Ok(n));
        assert_eq!(&buf[..], &[0xee]);
    }
}

#[test]
fn length_that_needs_a_fifth_byte_fails() {
    let mut buf = BytesMut::from(vec![0xff, 0xff, 0xff, 0xff]);
    assert_eq!(read_length(&mut buf), Err(CodecError::MalformedLength));
    let mut buf = BytesMut::from(vec![0x80, 0x80, 0x80, 0x80, 0x01]);
    assert_eq!(read_length(&mut buf), Err(CodecError::MalformedLength));
    assert_eq!(&buf[..], &[0x01]);
}

#[test]
fn length_that_ends_early_fails() {
    let mut buf = BytesMut::new();
    assert_eq!(read_length(&mut buf), Err(CodecError::MalformedLength));
    let mut buf = BytesMut::from(vec![0x80]);
    assert_eq!(read_length(&mut buf), Err(CodecError::MalformedLength));
    let mut buf = BytesMut::from(vec![0xff, 0x80, 0x80]);
    assert_eq!(read_length(&mut buf), Err(CodecError::MalformedLength));
}

#[test]
fn length_stops_at_the_first_byte_without_high_bit() {
    let mut buf = BytesMut::from(vec![0x05, 0xff, 0xff]);
    assert_eq!(read_length(&mut buf), Ok(5));
    assert_eq!(&buf[..], &[0xff, 0xff]);
    let mut buf = BytesMut::from(vec![0xc1, 0x02, 0x03]);
    assert_eq!(read_length(&mut buf), Ok(321));
    assert_eq!(&buf[..], &[0x03]);
    let mut buf = BytesMut::from(vec![0xff, 0xff, 0xff, 0x7f]);
    assert_eq!(read_length(&mut buf), Ok(268_435_455));
}

#[test]
fn string_exact_bytes() {
    let mut buf = BytesMut::new();
    write_string("abc", &mut buf).unwrap();
    assert_eq!(&buf[..], &[0x00, 0x03, b'a', b'b', b'c']);
    write_string("", &mut buf).unwrap();
    assert_eq!(&buf[..], &[0x00, 0x03, b'a', b'b', b'c', 0x00, 0x00]);
}

#[test]
fn string_length_counts_bytes_not_characters() {
    let mut buf = BytesMut::new();
    write_string("\u{e9}\u{20ac}", &mut buf).unwrap();
    assert_eq!(&buf[..], &[0x00, 0x05, 0xc3, 0xa9, 0xe2, 0x82, 0xac]);
    assert_eq!(read_string(&mut buf), Ok(String::from("\u{e9}\u{20ac}")));
}

#[test]
fn string_length_is_big_endian() {
    let text = "y".repeat(258);
    let mut buf = BytesMut::new();
    write_string(&text, &mut buf).unwrap();
    assert_eq!(&buf[..3], &[0x01, 0x02, b'y']);
    assert_eq!(buf.len(), 260);
    assert_eq!(read_string(&mut buf), Ok(text));
    assert!(buf.is_empty());
}

#[test]
fn string_of_the_longest_size() {
    let text = "z".repeat(65_535);
    let mut buf = BytesMut::new();
    write_string(&text, &mut buf).unwrap();
    assert_eq!(&buf[..2], &[0xff, 0xff]);
    assert_eq!(read_string(&mut buf), Ok(text));
}

#[test]
fn string_too_long_is_not_written() {
    let text = "z".repeat(65_536);
    let mut buf = BytesMut::from(vec![1]);
    assert_eq!(write_string(&text, &mut buf), Err(CodecError::FieldTooLong));
    assert_eq!(write_bytes(text.as_bytes(), &mut buf), Err(CodecError::FieldTooLong));
    assert_eq!(&buf[..], &[1]);
}

#[test]
fn string_read_leaves_the_rest() {
    let mut buf = BytesMut::from(vec![0x00, 0x02, b'h', b'i', 0x00, 0x01, b'!']);
    assert_eq!(read_string(&mut buf), Ok(String::from("hi")));
    assert_eq!(&buf[..], &[0x00, 0x01, b'!']);
    assert_eq!(read_string(&mut buf), Ok(String::from("!")));
    assert!(buf.is_empty());
}

#[test]
fn string_read_failures() {
    let mut buf = BytesMut::from(vec![0x00]);
    assert_eq!(read_string(&mut buf), Err(CodecError::MalformedField));
    assert_eq!(&buf[..], &[0x00]);
    let mut buf = BytesMut::from(vec![0x00, 0x03, b'a', b'b']);
    assert_eq!(read_string(&mut buf), Err(CodecError::MalformedField));
    assert_eq!(&buf[..], &[b'a', b'b']);
    let mut buf = BytesMut::from(vec![0x00, 0x01, 0xff, 0x33]);
    assert_eq!(read_string(&mut buf), Err(CodecError::MalformedField));
    assert_eq!(&buf[..], &[0x33]);
}

#[test]
fn bytes_round_trip() {
    let payload = vec![0x00, 0xff, 0x80, 0x7f];
    let mut buf = BytesMut::new();
    write_bytes(&payload, &mut buf).unwrap();
    assert_eq!(&buf[..], &[0x00, 0x04, 0x00, 0xff, 0x80, 0x7f]);
    buf.extend_from_slice(&[0x42]);
    assert_eq!(read_bytes(&mut buf), Ok(payload));
    assert_eq!(&buf[..], &[0x42]);
}

#[test]
fn bytes_read_failures() {
    let mut buf = BytesMut::new();
    assert_eq!(read_bytes(&mut buf), Err(CodecError::MalformedField));
    let mut buf = BytesMut::from(vec![0x01, 0x00, 0x05]);
    assert_eq!(read_bytes(&mut buf), Err(CodecError::MalformedField));
    assert_eq!(&buf[..], &[0x05]);
}

#[test]
fn header_kind_flags_and_length() {
    let mut buf = BytesMut::from(vec![0x3b, 0xc1, 0x02, 0x99]);
    assert_eq!(
        Header::from_buffer(&mut buf),
        Ok(Header { typ: PacketType::Publish, flags: 0x0b, len: 321 })
    );
    assert_eq!(&buf[..], &[0x99]);
    let mut buf = BytesMut::from(vec![0xe0, 0x00]);
    assert_eq!(
        Header::from_buffer(&mut buf),
        Ok(Header { typ: PacketType::Disconnect, flags: 0, len: 0 })
    );
}

#[test]
fn header_every_kind() {
    let kinds = [
        PacketType::Connect,
        PacketType::Connack,
        PacketType::Publish,
        PacketType::Puback,
        PacketType::Pubrec,
        PacketType::Pubrel,
        PacketType::Pubcomp,
        PacketType::Subscribe,
        PacketType::Suback,
        PacketType::Unsubscribe,
        PacketType::Unsuback,
        PacketType::Pingreq,
        PacketType::Pingresp,
        PacketType::Disconnect,
    ];
    for (i, kind) in kinds.iter().enumerate() {
        let nibble = (i + 1) as u8;
        assert_eq!(kind.to_u8(), nibble);
        assert_eq!(PacketType::from_u8(nibble), Ok(*kind));
        let mut buf = BytesMut::from(vec![nibble << 4, 0x00]);
        assert_eq!(Header::from_buffer(&mut buf).map(|h| h.typ), Ok(*kind));
    }
}

#[test]
fn header_failures() {
    let mut buf = BytesMut::new();
    assert_eq!(Header::from_buffer(&mut buf), Err(CodecError::Truncated));
    let mut buf = BytesMut::from(vec![0x00, 0x00]);
    assert_eq!(Header::from_buffer(&mut buf), Err(CodecError::InvalidEnumValue));
    assert_eq!(&buf[..], &[0x00]);
    let mut buf = BytesMut::from(vec![0xf0, 0x00]);
    assert_eq!(Header::from_buffer(&mut buf), Err(CodecError::InvalidEnumValue));
    assert_eq!(PacketType::from_u8(0), Err(CodecError::InvalidEnumValue));
    assert_eq!(PacketType::from_u8(15), Err(CodecError::InvalidEnumValue));
    let mut buf = BytesMut::from(vec![0x10]);
    assert_eq!(Header::from_buffer(&mut buf), Err(CodecError::MalformedLength));
    let mut buf = BytesMut::from(vec![0x10, 0xff, 0xff, 0xff, 0xff, 0x01]);
    assert_eq!(Header::from_buffer(&mut buf), Err(CodecError::MalformedLength));
}
