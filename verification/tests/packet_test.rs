use bytes::{BufMut, Bytes, BytesMut};
use iotd::protocol::packet::{
    decode_first_byte, decode_publish, decode_remaining_length, decode_string, decode_subscribe,
    decode_unsubscribe, encode_connack, encode_disconnect, encode_pingresp, encode_puback,
    encode_publish, encode_remaining_length, encode_string, encode_suback, encode_unsuback,
    ConnAckPacket, Decoded, Packet, PacketError, PacketType, PubAckPacket, PubCompPacket,
    PubRecPacket, PubRelPacket, PublishPacket, QoS, RemainingLength, SubAckPacket,
    UnsubAckPacket,
};
use std::io::Cursor;

/// Reads one whole packet from the front of `bytes`.
fn decode_frame(bytes: &[u8]) -> Decoded<Packet> {
    match Packet::decode(bytes) {
        Decoded::Value((p, _)) => Decoded::Value(p),
        Decoded::Error(e) => Decoded::Error(e),
        Decoded::Truncated => Decoded::Truncated,
    }
}

fn expect_packet(d: Decoded<Packet>) -> Packet {
    match d {
        Decoded::Value(p) => p,
        Decoded::Error(e) => panic!("decode error {:?}", e),
        Decoded::Truncated => panic!("truncated"),
    }
}

#[test]
fn test_connect_packet_encode_decode() {
    let mut buf = BytesMut::new();
    buf.put_u8(0x10);
    let mut payload = BytesMut::new();
    encode_string("MQTT", &mut payload);
    payload.put_u8(4);
    payload.put_u8(0x02);
    payload.put_u16(60);
    encode_string("test-client", &mut payload);
    encode_remaining_length(payload.len() as u32, &mut buf);
    buf.extend_from_slice(&payload);

    match expect_packet(decode_frame(&buf)) {
        Packet::Connect(decoded) => {
            assert_eq!(decoded.protocol_name, "MQTT");
            assert_eq!(decoded.protocol_level, 4);
            assert_eq!(decoded.clean_session, true);
            assert_eq!(decoded.keep_alive, 60);
            assert_eq!(decoded.client_id, "test-client");
            assert_eq!(decoded.will_flag, false);
        }
        _ => panic!("Expected CONNECT packet"),
    }
}

#[test]
fn test_connect_packet_with_will() {
    let mut buf = BytesMut::new();
    buf.put_u8(0x10);
    let mut payload = BytesMut::new();
    encode_string("MQTT", &mut payload);
    payload.put_u8(4);
    payload.put_u8(0x2C);
    payload.put_u16(30);
    encode_string("will-client", &mut payload);
    encode_string("last/will", &mut payload);
    payload.put_u16(7);
    payload.put_slice(b"goodbye");
    encode_remaining_length(payload.len() as u32, &mut buf);
    buf.extend_from_slice(&payload);

    match expect_packet(decode_frame(&buf)) {
        Packet::Connect(decoded) => {
            assert_eq!(decoded.protocol_name, "MQTT");
            assert_eq!(decoded.protocol_level, 4);
            assert_eq!(decoded.clean_session, false);
            assert_eq!(decoded.keep_alive, 30);
            assert_eq!(decoded.client_id, "will-client");
            assert_eq!(decoded.will_flag, true);
            assert!(matches!(decoded.will_qos, QoS::AtLeastOnce));
            assert_eq!(decoded.will_retain, true);
            assert_eq!(decoded.will_topic, Some("last/will".to_string()));
            assert_eq!(decoded.will_payload, Some(Bytes::from("goodbye")));
        }
        _ => panic!("Expected CONNECT packet"),
    }
}

#[test]
fn test_connack_packet_encode() {
    let packet = ConnAckPacket { session_present: true, return_code: 0x00 };
    let mut buf = BytesMut::new();
    encode_connack(&packet, &mut buf);
    assert_eq!(buf[0], 0x20);
    assert_eq!(buf[1], 2);
    assert_eq!(buf[2], 0x01);
    assert_eq!(buf[3], 0x00);
}

#[test]
fn test_publish_packet_encode_decode_qos0() {
    let original = PublishPacket {
        topic: "test/topic".to_string(),
        packet_id: None,
        payload: Bytes::from("Hello, MQTT!"),
        qos: QoS::AtMostOnce,
        retain: false,
        dup: false,
    };
    let mut buf = BytesMut::new();
    encode_publish(&original, &mut buf);
    let flags = buf[0] & 0x0F;
    let mut cursor = Cursor::new(&buf[2..]);
    let decoded = decode_publish(&mut cursor, flags).unwrap();
    assert_eq!(decoded.topic, original.topic);
    assert_eq!(decoded.packet_id, original.packet_id);
    assert_eq!(decoded.payload, original.payload);
    assert!(matches!(decoded.qos, QoS::AtMostOnce));
    assert_eq!(decoded.retain, original.retain);
    assert_eq!(decoded.dup, original.dup);
}

#[test]
fn test_publish_packet_encode_decode_qos1() {
    let original = PublishPacket {
        topic: "sensor/temp".to_string(),
        packet_id: Some(42),
        payload: Bytes::from("23.5"),
        qos: QoS::AtLeastOnce,
        retain: true,
        dup: true,
    };
    let mut buf = BytesMut::new();
    encode_publish(&original, &mut buf);
    assert_eq!(buf[0] & 0x01, 0x01);
    assert_eq!((buf[0] >> 1) & 0x03, 0x01);
    assert_eq!(buf[0] & 0x08, 0x08);
    let flags = buf[0] & 0x0F;
    let remaining_len_bytes = if buf[1] & 0x80 != 0 { 2 } else { 1 };
    let mut cursor = Cursor::new(&buf[(1 + remaining_len_bytes)..]);
    let decoded = decode_publish(&mut cursor, flags).unwrap();
    assert_eq!(decoded.topic, original.topic);
    assert_eq!(decoded.packet_id, original.packet_id);
    assert_eq!(decoded.payload, original.payload);
    assert!(matches!(decoded.qos, QoS::AtLeastOnce));
    assert_eq!(decoded.retain, original.retain);
    assert_eq!(decoded.dup, original.dup);
}

#[test]
fn test_puback_packet_encode() {
    let packet = PubAckPacket { packet_id: 12345 };
    let mut buf = BytesMut::new();
    encode_puback(&packet, &mut buf);
    assert_eq!(buf[0], 0x40);
    assert_eq!(buf[1], 2);
    assert_eq!(buf[2..4], [0x30, 0x39]);
}

#[test]
fn test_subscribe_packet_encode_decode() {
    let filters = vec![
        ("topic/1".to_string(), QoS::AtMostOnce),
        ("topic/2".to_string(), QoS::AtLeastOnce),
        ("topic/+".to_string(), QoS::ExactlyOnce),
    ];
    let mut buf = BytesMut::new();
    buf.put_u8(0x82);
    let mut payload = BytesMut::new();
    payload.put_u16(100);
    for (topic, qos) in &filters {
        encode_string(topic, &mut payload);
        payload.put_u8(*qos as u8);
    }
    encode_remaining_length(payload.len() as u32, &mut buf);
    buf.extend_from_slice(&payload);

    match expect_packet(decode_frame(&buf)) {
        Packet::Subscribe(decoded) => {
            assert_eq!(decoded.packet_id, 100);
            assert_eq!(decoded.topic_filters.len(), filters.len());
            for (i, (topic, qos)) in decoded.topic_filters.iter().enumerate() {
                assert_eq!(topic, &filters[i].0);
                assert_eq!(*qos as u8, filters[i].1 as u8);
            }
        }
        _ => panic!("Expected SUBSCRIBE packet"),
    }
}

#[test]
fn test_suback_packet_encode() {
    let packet = SubAckPacket { packet_id: 100, return_codes: vec![0x00, 0x01, 0x02, 0x80] };
    let mut buf = BytesMut::new();
    encode_suback(&packet, &mut buf);
    assert_eq!(buf[0], 0x90);
    assert_eq!(buf[1], 6);
    assert_eq!(buf[2..4], [0x00, 0x64]);
    assert_eq!(&buf[4..], &[0x00, 0x01, 0x02, 0x80]);
}

#[test]
fn test_unsubscribe_packet_encode_decode() {
    let filters = vec!["topic/1".to_string(), "topic/2".to_string(), "topic/+".to_string()];
    let mut buf = BytesMut::new();
    buf.put_u8(0xA2);
    let mut payload = BytesMut::new();
    payload.put_u16(200);
    for topic in &filters {
        encode_string(topic, &mut payload);
    }
    encode_remaining_length(payload.len() as u32, &mut buf);
    buf.extend_from_slice(&payload);

    match expect_packet(decode_frame(&buf)) {
        Packet::Unsubscribe(decoded) => {
            assert_eq!(decoded.packet_id, 200);
            assert_eq!(decoded.topic_filters, filters);
        }
        _ => panic!("Expected UNSUBSCRIBE packet"),
    }
}

#[test]
fn test_unsuback_packet_encode() {
    let packet = UnsubAckPacket { packet_id: 200 };
    let mut buf = BytesMut::new();
    encode_unsuback(&packet, &mut buf);
    assert_eq!(buf[0], 0xB0);
    assert_eq!(buf[1], 2);
    assert_eq!(buf[2..4], [0x00, 0xC8]);
}

#[test]
fn test_pingreq_packet_decode() {
    let buf = [0xC0u8, 0];
    match expect_packet(decode_frame(&buf)) {
        Packet::PingReq => {}
        _ => panic!("Expected PINGREQ packet"),
    }
}

#[test]
fn test_pingresp_packet_encode() {
    let mut buf = BytesMut::new();
    encode_pingresp(&mut buf);
    assert_eq!(buf[0], 0xD0);
    assert_eq!(buf[1], 0);
}

#[test]
fn test_disconnect_packet_decode() {
    let buf = [0xE0u8, 0];
    match expect_packet(decode_frame(&buf)) {
        Packet::Disconnect => {}
        _ => panic!("Expected DISCONNECT packet"),
    }
}

#[test]
fn test_disconnect_packet_encode() {
    let mut buf = BytesMut::new();
    encode_disconnect(&mut buf);
    assert_eq!(buf[0], 0xE0);
    assert_eq!(buf[1], 0);
}

#[test]
fn test_remaining_length_encoding() {
    let test_cases = vec![
        (0, vec![0x00]),
        (127, vec![0x7F]),
        (128, vec![0x80, 0x01]),
        (16383, vec![0xFF, 0x7F]),
        (16384, vec![0x80, 0x80, 0x01]),
        (2097151, vec![0xFF, 0xFF, 0x7F]),
        (2097152, vec![0x80, 0x80, 0x80, 0x01]),
        (268435455, vec![0xFF, 0xFF, 0xFF, 0x7F]),
    ];
    for (length, expected) in test_cases {
        let mut buf = BytesMut::new();
        encode_remaining_length(length, &mut buf);
        assert_eq!(buf.to_vec(), expected, "Failed for length {}", length);
    }
}

#[test]
fn test_remaining_length_decoding() {
    let test_cases = vec![
        (vec![0x00], 0),
        (vec![0x7F], 127),
        (vec![0x80, 0x01], 128),
        (vec![0xFF, 0x7F], 16383),
        (vec![0x80, 0x80, 0x01], 16384),
        (vec![0xFF, 0xFF, 0x7F], 2097151),
        (vec![0x80, 0x80, 0x80, 0x01], 2097152),
        (vec![0xFF, 0xFF, 0xFF, 0x7F], 268435455),
    ];
    for (bytes, expected) in test_cases {
        match decode_remaining_length(&bytes) {
            RemainingLength::Value(length, n) => {
                assert_eq!(length, expected);
                assert_eq!(n, bytes.len());
            }
            _ => panic!("expected a length"),
        }
    }
}

#[test]
fn test_invalid_remaining_length() {
    let bytes = vec![0xFF, 0xFF, 0xFF, 0xFF, 0x01];
    assert!(matches!(decode_remaining_length(&bytes), RemainingLength::Invalid));
}

#[test]
fn test_string_encoding_decoding() {
    let test_strings = vec!["", "MQTT", "Hello, World!", "测试中文", "🚀🔥💻"];
    for s in test_strings {
        let mut buf = BytesMut::new();
        encode_string(s, &mut buf);
        let mut cursor = Cursor::new(buf.as_ref());
        let decoded = decode_string(&mut cursor).unwrap();
        assert_eq!(decoded, s);
    }
}

#[test]
fn test_qos_values() {
    assert_eq!(QoS::AtMostOnce as u8, 0);
    assert_eq!(QoS::AtLeastOnce as u8, 1);
    assert_eq!(QoS::ExactlyOnce as u8, 2);
}

#[test]
fn test_packet_type_conversion() {
    let types = vec![
        (1, PacketType::Connect),
        (2, PacketType::ConnAck),
        (3, PacketType::Publish),
        (4, PacketType::PubAck),
        (5, PacketType::PubRec),
        (6, PacketType::PubRel),
        (7, PacketType::PubComp),
        (8, PacketType::Subscribe),
        (9, PacketType::SubAck),
        (10, PacketType::Unsubscribe),
        (11, PacketType::UnsubAck),
        (12, PacketType::PingReq),
        (13, PacketType::PingResp),
        (14, PacketType::Disconnect),
    ];
    for (value, expected) in types {
        let packet_type = PacketType::try_from(value).unwrap();
        assert_eq!(packet_type, expected);
        assert_eq!(packet_type as u8, value);
    }
    assert!(matches!(PacketType::try_from(15), Err(PacketError::InvalidPacketType(15))));
}

#[test]
fn test_publish_flags_combinations() {
    let test_cases = vec![
        (false, QoS::AtMostOnce, false, 0x30),
        (false, QoS::AtMostOnce, true, 0x31),
        (false, QoS::AtLeastOnce, false, 0x32),
        (false, QoS::AtLeastOnce, true, 0x33),
        (false, QoS::ExactlyOnce, false, 0x34),
        (false, QoS::ExactlyOnce, true, 0x35),
        (true, QoS::AtMostOnce, false, 0x38),
        (true, QoS::AtLeastOnce, true, 0x3B),
        (true, QoS::ExactlyOnce, true, 0x3D),
    ];
    for (dup, qos, retain, expected_flags) in test_cases {
        let packet = PublishPacket {
            topic: "test".to_string(),
            packet_id: if matches!(qos, QoS::AtMostOnce) { None } else { Some(1) },
            payload: Bytes::from("test"),
            qos,
            retain,
            dup,
        };
        let mut buf = BytesMut::new();
        encode_publish(&packet, &mut buf);
        assert_eq!(buf[0], expected_flags, "Failed for dup={}, qos={:?}, retain={}", dup, qos, retain);
    }
}

// ---------------------------------------------------------------------------
// Further cases
// ---------------------------------------------------------------------------

#[test]
fn publish_frame_reads_back_as_written() {
    let original = PublishPacket {
        topic: "a/b".to_string(),
        packet_id: Some(7),
        payload: Bytes::from(vec![1u8; 300]),
        qos: QoS::ExactlyOnce,
        retain: true,
        dup: false,
    };
    let mut buf = BytesMut::new();
    Packet::Publish(original.duplicate()).encode(&mut buf);
    match expect_packet(decode_frame(&buf)) {
        Packet::Publish(p) => {
            assert_eq!(p.topic, "a/b");
            assert_eq!(p.packet_id, Some(7));
            assert_eq!(p.payload.len(), 300);
            assert!(matches!(p.qos, QoS::ExactlyOnce));
            assert!(p.retain);
            assert!(!p.dup);
        }
        _ => panic!("expected PUBLISH"),
    }
}

#[test]
fn acknowledgement_frames_read_back_as_written() {
    for packet in [
        Packet::PubAck(PubAckPacket { packet_id: 9 }),
        Packet::PubRec(PubRecPacket { packet_id: 10 }),
        Packet::PubRel(PubRelPacket { packet_id: 11 }),
        Packet::PubComp(PubCompPacket { packet_id: 12 }),
    ] {
        let mut buf = BytesMut::new();
        packet.encode(&mut buf);
        let decoded = expect_packet(decode_frame(&buf));
        match (&packet, &decoded) {
            (Packet::PubAck(a), Packet::PubAck(b)) => assert_eq!(a.packet_id, b.packet_id),
            (Packet::PubRec(a), Packet::PubRec(b)) => assert_eq!(a.packet_id, b.packet_id),
            (Packet::PubRel(a), Packet::PubRel(b)) => assert_eq!(a.packet_id, b.packet_id),
            (Packet::PubComp(a), Packet::PubComp(b)) => assert_eq!(a.packet_id, b.packet_id),
            _ => panic!("kind changed"),
        }
    }
    let mut buf = BytesMut::new();
    encode_puback(&PubAckPacket { packet_id: 1 }, &mut buf);
    assert_eq!(buf.to_vec(), vec![0x40, 2, 0, 1]);
    let mut buf = BytesMut::new();
    Packet::PubRel(PubRelPacket { packet_id: 258 }).encode(&mut buf);
    assert_eq!(buf.to_vec(), vec![0x62, 2, 1, 2]);
}

#[test]
fn reserved_packet_types_are_rejected() {
    assert!(matches!(PacketType::try_from(0), Err(PacketError::InvalidPacketType(0))));
    assert!(matches!(decode_first_byte(0xF0), Err(PacketError::InvalidPacketType(15))));
    assert!(matches!(decode_first_byte(0x32), Ok((PacketType::Publish, 2))));
}

#[test]
fn broker_packets_from_a_client_are_rejected() {
    assert!(matches!(
        Packet::decode_body(PacketType::ConnAck, 0, &[0, 0]),
        Decoded::Error(PacketError::InvalidPacketType(2))
    ));
    assert!(matches!(
        Packet::decode_body(PacketType::PubAck, 0, &[0, 0, 0]),
        Decoded::Error(PacketError::InvalidPacketType(4))
    ));
}

#[test]
fn publish_with_qos_three_is_rejected() {
    let mut body = BytesMut::new();
    encode_string("t", &mut body);
    let mut cursor = Cursor::new(body.as_ref());
    assert!(matches!(decode_publish(&mut cursor, 0x06), Err(PacketError::InvalidPacketType(6))));
}

#[test]
fn subscribe_with_bad_qos_is_rejected() {
    let mut body = BytesMut::new();
    body.put_u16(1);
    encode_string("t", &mut body);
    body.put_u8(3);
    let mut cursor = Cursor::new(body.as_ref());
    assert!(matches!(decode_subscribe(&mut cursor), Err(PacketError::InvalidPacketType(3))));
}

#[test]
fn unsubscribe_with_short_string_is_incomplete() {
    let body = [0u8, 1, 0, 5, b'a'];
    let mut cursor = Cursor::new(&body[..]);
    assert!(matches!(decode_unsubscribe(&mut cursor), Err(PacketError::IncompletePacket)));
}

#[test]
fn invalid_utf8_string_is_rejected() {
    let body = [0u8, 2, 0xC3, 0x28];
    let mut cursor = Cursor::new(&body[..]);
    assert!(matches!(decode_string(&mut cursor), Err(PacketError::InvalidUtf8)));
}

#[test]
fn connect_with_will_qos_three_is_rejected() {
    let mut body = BytesMut::new();
    encode_string("MQTT", &mut body);
    body.put_u8(4);
    body.put_u8(0x1C);
    body.put_u16(10);
    encode_string("c", &mut body);
    assert!(matches!(
        Packet::decode_body(PacketType::Connect, 0, &body),
        Decoded::Error(PacketError::InvalidPacketFlags)
    ));
}

#[test]
fn truncated_connect_header_is_reported() {
    let mut body = BytesMut::new();
    encode_string("MQTT", &mut body);
    body.put_u8(4);
    assert!(matches!(Packet::decode_body(PacketType::Connect, 0, &body), Decoded::Truncated));
}

#[test]
fn connect_with_credentials_is_decoded() {
    let mut body = BytesMut::new();
    encode_string("MQTT", &mut body);
    body.put_u8(4);
    body.put_u8(0xC2);
    body.put_u16(10);
    encode_string("c1", &mut body);
    encode_string("user", &mut body);
    body.put_u16(4);
    body.put_slice(b"pass");
    match expect_packet(Packet::decode_body(PacketType::Connect, 0, &body)) {
        Packet::Connect(c) => {
            assert_eq!(c.username, Some("user".to_string()));
            assert_eq!(c.password, Some(Bytes::from("pass")));
            assert!(c.clean_session);
        }
        _ => panic!("expected CONNECT"),
    }
}

#[test]
fn incomplete_remaining_length_asks_for_more() {
    assert!(matches!(decode_remaining_length(&[0x80, 0x80]), RemainingLength::Incomplete));
    assert!(matches!(decode_remaining_length(&[]), RemainingLength::Incomplete));
}

#[test]
fn qos_min_is_the_lower_level() {
    assert!(matches!(QoS::ExactlyOnce.min(QoS::AtLeastOnce), QoS::AtLeastOnce));
    assert!(matches!(QoS::AtMostOnce.min(QoS::ExactlyOnce), QoS::AtMostOnce));
    assert!(matches!(QoS::from_u8(2), Some(QoS::ExactlyOnce)));
    assert!(QoS::from_u8(3).is_none());
}

#[test]
fn publish_frame_round_trip_consumes_exactly_the_frame() {
    let p = PublishPacket {
        topic: "a/b".to_string(),
        packet_id: Some(7),
        payload: Bytes::from_static(b"hello"),
        qos: QoS::AtLeastOnce,
        retain: true,
        dup: true,
    };
    let mut buf = BytesMut::new();
    Packet::Publish(p.duplicate()).encode(&mut buf);
    let frame_len = buf.len();
    buf.put_slice(&[0xC0, 0x00]);
    match Packet::decode(&buf) {
        Decoded::Value((Packet::Publish(q), n)) => {
            assert_eq!(n, frame_len);
            assert_eq!(q.topic, "a/b");
            assert_eq!(q.packet_id, Some(7));
            assert_eq!(&q.payload[..], b"hello");
            assert_eq!(q.qos, QoS::AtLeastOnce);
            assert!(q.retain);
            assert!(q.dup);
        }
        _ => panic!("expected a PUBLISH"),
    }
}

#[test]
fn frame_decoder_reports_short_and_bad_input() {
    assert!(matches!(Packet::decode(&[]), Decoded::Truncated));
    assert!(matches!(Packet::decode(&[0x40, 0x02, 0x00]), Decoded::Truncated));
    assert!(matches!(Packet::decode(&[0x40, 0x02, 0x00, 0x05]), Decoded::Value((Packet::PubAck(PubAckPacket { packet_id: 5 }), 4))));
    assert!(matches!(Packet::decode(&[0x00, 0x00]), Decoded::Error(PacketError::InvalidPacketType(0))));
    assert!(matches!(
        Packet::decode(&[0x30, 0xFF, 0xFF, 0xFF, 0xFF, 0x01]),
        Decoded::Error(PacketError::InvalidRemainingLength)
    ));
}

#[test]
fn remaining_length_round_trip_with_trailing_bytes() {
    for n in [0u32, 127, 128, 16383, 16384, 2097151, 2097152, 268435455] {
        let mut buf = BytesMut::new();
        encode_remaining_length(n, &mut buf);
        let used = buf.len();
        buf.put_slice(&[0x80, 0x01]);
        match decode_remaining_length(&buf) {
            RemainingLength::Value(v, k) => {
                assert_eq!(v, n);
                assert_eq!(k, used);
            }
            _ => panic!("expected a length"),
        }
    }
    assert!(matches!(decode_remaining_length(&[0xFF, 0xFF, 0xFF, 0xFF, 0x01]), RemainingLength::Invalid));
}
