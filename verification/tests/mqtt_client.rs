use stromzaehler2mqtt::mqtt_client::{
    connect_packet, encode_remaining_len, parse_connack, publish_packet, ConnackError,
};

#[test]
fn encode_remaining_len_single_byte() {
    let mut buf = Vec::new();
    encode_remaining_len(&mut buf, 0);
    assert_eq!(buf, &[0x00]);

    buf.clear();
    encode_remaining_len(&mut buf, 127);
    assert_eq!(buf, &[0x7f]);
}

#[test]
fn encode_remaining_len_two_bytes() {
    let mut buf = Vec::new();
    encode_remaining_len(&mut buf, 128);
    assert_eq!(buf, &[0x80, 0x01]);

    buf.clear();
    encode_remaining_len(&mut buf, 321);
    assert_eq!(buf, &[0xc1, 0x02]);
}

#[test]
fn connect_packet_structure() {
    let pkt = connect_packet("test");

    assert_eq!(pkt[0], 0x10); // CONNECT fixed header
    assert_eq!(&pkt[2..8], &[0x00, 0x04, b'M', b'Q', b'T', b'T']); // protocol name
    assert_eq!(pkt[8], 0x04); // protocol level 3.1.1
    assert_eq!(pkt[9], 0x02); // clean session
    assert_eq!(&pkt[10..12], &[0x00, 0x00]); // keep-alive 0
    assert_eq!(&pkt[12..], &[0x00, 0x04, b't', b'e', b's', b't']);
}

#[test]
fn publish_packet_no_retain() {
    let topic = "foo/bar";
    let payload = b"hello";
    let pkt = publish_packet(topic, payload, false);

    assert_eq!(pkt[0], 0x30); // PUBLISH, QoS 0, no retain
    let topic_len = ((pkt[2] as usize) << 8) | pkt[3] as usize;
    assert_eq!(topic_len, topic.len());
    assert_eq!(&pkt[4..4 + topic_len], topic.as_bytes());
    assert_eq!(&pkt[4 + topic_len..], payload);
}

#[test]
fn publish_packet_retain() {
    assert_eq!(publish_packet("a/b", b"1", true), &[0x31, 0x06, 0x00, 0x03, b'a', b'/', b'b', b'1']);
}

#[test]
fn parse_connack_accepts_success_packet() {
    assert!(parse_connack([0x20, 0x02, 0x00, 0x00]).is_ok());
}

#[test]
fn parse_connack_rejects_invalid_header() {
    let err = parse_connack([0x21, 0x02, 0x00, 0x00]).unwrap_err();
    assert!(matches!(err, ConnackError::InvalidData(_)));

    let err = parse_connack([0x20, 0x03, 0x00, 0x00]).unwrap_err();
    assert!(matches!(err, ConnackError::InvalidData(_)));
}

#[test]
fn parse_connack_rejects_broker_refusal() {
    let err = parse_connack([0x20, 0x02, 0x00, 0x05]).unwrap_err();
    assert!(matches!(err, ConnackError::ConnectionRefused(_)));
}

// Further cases of this library.

fn decode_remaining_len(bytes: &[u8]) -> (usize, usize) {
    let mut value = 0usize;
    let mut shift = 1usize;
    for (i, b) in bytes.iter().enumerate() {
        value += (*b as usize & 0x7f) * shift;
        if b & 0x80 == 0 {
            return (value, i + 1);
        }
        shift *= 128;
    }
    panic!("unterminated remaining length");
}

#[test]
fn remaining_len_roundtrips() {
    for n in [0usize, 1, 127, 128, 16383, 16384, 2_097_151, 2_097_152, 268_435_455] {
        let mut buf = vec![0xaa];
        encode_remaining_len(&mut buf, n);
        assert_eq!(buf[0], 0xaa);
        assert_eq!(decode_remaining_len(&buf[1..]), (n, buf.len() - 1), "{n}");
    }
    let mut buf = Vec::new();
    encode_remaining_len(&mut buf, 16384);
    assert_eq!(buf, &[0x80, 0x80, 0x01]);
}

#[test]
fn connack_errors_carry_the_offending_byte() {
    assert_eq!(parse_connack([0x21, 0x02, 0x00, 0x00]), Err(ConnackError::InvalidData(0x21)));
    assert_eq!(parse_connack([0x20, 0x03, 0x00, 0x07]), Err(ConnackError::InvalidData(0x20)));
    assert_eq!(parse_connack([0x20, 0x02, 0x01, 0x05]), Err(ConnackError::ConnectionRefused(5)));
    assert_eq!(parse_connack([0x20, 0x02, 0x01, 0x00]), Ok(()));
}

#[test]
fn long_packets_use_multi_byte_lengths() {
    let topic = "t".repeat(200);
    let pkt = publish_packet(&topic, b"xy", false);
    // remaining length 2 + 200 + 2 = 204 = 0xcc 0x01
    assert_eq!(&pkt[..5], &[0x30, 0xcc, 0x01, 0x00, 200]);
    assert_eq!(pkt.len(), 3 + 204);

    let id = "c".repeat(300);
    let pkt = connect_packet(&id);
    // remaining length 12 + 300 = 312 = 0xb8 0x02
    assert_eq!(&pkt[..3], &[0x10, 0xb8, 0x02]);
    assert_eq!(&pkt[13..15], &[0x01, 0x2c]);
    assert_eq!(pkt.len(), 3 + 312);
}
