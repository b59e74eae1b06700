use embassy_mqtt_lite::{
    build_subscribe_packet, encode_remaining_length, parse_suback, publish_layout,
    push_string_field, PacketBuilder, SubackResult, MAX_PACKET_SIZE,
};

#[test]
fn remaining_length_zero() {
    let mut b = PacketBuilder::new();
    encode_remaining_length(0, &mut b).unwrap();
    assert_eq!(b.as_slice(), &[0x00]);
}

#[test]
fn remaining_length_single_byte_max() {
    let mut b = PacketBuilder::new();
    encode_remaining_length(127, &mut b).unwrap();
    assert_eq!(b.as_slice(), &[0x7F]);
}

#[test]
fn remaining_length_two_bytes() {
    let mut b = PacketBuilder::new();
    encode_remaining_length(200, &mut b).unwrap();
    assert_eq!(b.as_slice(), &[0xC8, 0x01]);
}

#[test]
fn remaining_length_three_bytes() {
    let mut b = PacketBuilder::new();
    encode_remaining_length(16384, &mut b).unwrap();
    assert_eq!(b.as_slice(), &[0x80, 0x80, 0x01]);
}

#[test]
fn string_field_encoding() {
    let mut b = PacketBuilder::new();
    push_string_field(&mut b, b"MQTT").unwrap();
    assert_eq!(b.as_slice(), &[0x00, 0x04, b'M', b'Q', b'T', b'T']);
}

#[test]
fn packet_builder_rejects_overflow() {
    let mut b = PacketBuilder::new();
    let big = [0u8; MAX_PACKET_SIZE + 1];
    assert!(b.extend(&big).is_err());
}

#[test]
fn subscribe_packet_encoding() {
    let packet = build_subscribe_packet("home/clim", 1).unwrap();
    let expected = [
        0x82, 0x0E, // SUBSCRIBE, remaining length = 14
        0x00, 0x01, // packet identifier = 1
        0x00, 0x09, b'h', b'o', b'm', b'e', b'/', b'c', b'l', b'i', b'm', // topic filter
        0x00, // QoS asked for = 0
    ];
    assert_eq!(packet.as_slice(), &expected);
}

#[test]
fn suback_accepted() {
    let body = [0x00, 0x01, 0x00]; // packet id + return code 0 (QoS 0 granted)
    assert_eq!(parse_suback(0x90, &body), SubackResult::Accepted);
}

#[test]
fn suback_refused() {
    let body = [0x00, 0x01, 0x80];
    assert_eq!(parse_suback(0x90, &body), SubackResult::Refused);
}

#[test]
fn suback_wrong_header_type() {
    let body = [0x00, 0x01, 0x00];
    assert_eq!(parse_suback(0x20, &body), SubackResult::Invalid); // no SUBACK
}

#[test]
fn suback_body_too_short() {
    let body = [0x00, 0x01];
    assert_eq!(parse_suback(0x90, &body), SubackResult::Invalid);
}

#[test]
fn publish_layout_qos0() {
    let buf = [0x00, 0x03, b'a', b'/', b'b', b'h', b'i'];
    let (topic_len, payload_start) = publish_layout(0x30, &buf).unwrap();
    assert_eq!(topic_len, 3);
    assert_eq!(payload_start, 5);
    assert_eq!(&buf[payload_start..], b"hi");
}

#[test]
fn publish_layout_qos1_skips_packet_identifier() {
    let buf = [0x00, 0x03, b'a', b'/', b'b', 0x00, 0x2A, b'h', b'i'];
    let (topic_len, payload_start) = publish_layout(0x32, &buf).unwrap();
    assert_eq!(topic_len, 3);
    assert_eq!(payload_start, 7);
    assert_eq!(&buf[payload_start..], b"hi");
}

#[test]
fn publish_layout_rejects_truncated_buffer() {
    let buf = [0x00, 0x05, b'a', b'b']; // announces a topic of 5 bytes, but the buffer is too short
    assert!(publish_layout(0x30, &buf).is_err());
}
