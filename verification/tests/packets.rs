use embassy_mqtt_lite::exchange::Answer;
use embassy_mqtt_lite::fields::{u16_from_be_bytes, u16_to_be_bytes};
use embassy_mqtt_lite::packet::frame_packet;
use embassy_mqtt_lite::ping::{build_pingreq_packet, is_pingresp};
use embassy_mqtt_lite::publish::is_publish;
use embassy_mqtt_lite::{
    build_connect_packet, build_publish_packet, build_subscribe_packet, encode_remaining_length,
    next_packet_id, parse_connack, parse_publish, parse_suback, publish_layout, push_string_field,
    ConnackResult, ConnectOptions, LastWill, LengthProgress, MqttError, PacketBuilder,
    RemainingLengthReader, Request, Step, SubackResult, MAX_PACKET_SIZE,
};

/// A packet that `n` bytes have been appended to.
fn filled(n: usize) -> PacketBuilder {
    let mut b = PacketBuilder::new();
    b.extend(&vec![0xAA; n]).unwrap();
    b
}

/// What a reader makes of `bytes`: the number, and how many bytes it took.
fn read_length(bytes: &[u8]) -> Option<Result<(usize, usize), ()>> {
    let mut reader = RemainingLengthReader::new();
    for (i, byte) in bytes.iter().enumerate() {
        match reader.accept(*byte) {
            LengthProgress::More(next) => reader = next,
            LengthProgress::Complete(n) => return Some(Ok((n, i + 1))),
            LengthProgress::Malformed => return Some(Err(())),
        }
    }
    None
}

fn encoded(n: usize) -> Vec<u8> {
    let mut b = PacketBuilder::new();
    encode_remaining_length(n, &mut b).unwrap();
    b.as_slice().to_vec()
}

#[test]
fn new_builder_is_empty() {
    let b = PacketBuilder::new();
    assert_eq!(b.len(), 0);
    assert!(b.as_slice().is_empty());
}

#[test]
fn push_fills_to_the_last_byte_and_then_refuses() {
    let mut b = filled(MAX_PACKET_SIZE - 1);
    assert_eq!(b.push(0x55), Ok(()));
    assert_eq!(b.len(), 256);
    assert_eq!(b.as_slice()[255], 0x55);
    let before = b.as_slice().to_vec();
    assert_eq!(b.push(0x66), Err(()));
    assert_eq!(b.as_slice(), &before[..]);
}

#[test]
fn extend_appends_all_or_nothing() {
    let mut b = filled(250);
    assert_eq!(b.extend(&[1, 2, 3, 4, 5, 6, 7]), Err(()));
    assert_eq!(b.len(), 250);
    assert_eq!(b.extend(&[1, 2, 3, 4, 5, 6]), Ok(()));
    assert_eq!(&b.as_slice()[248..], &[0xAA, 0xAA, 1, 2, 3, 4, 5, 6]);
    assert_eq!(b.extend(&[]), Ok(()));
    assert_eq!(b.len(), 256);
}

#[test]
fn string_field_leaves_its_length_behind_where_the_string_does_not_fit() {
    let mut b = filled(253);
    assert_eq!(push_string_field(&mut b, b"ab"), Err(()));
    assert_eq!(&b.as_slice()[253..], &[0x00, 0x02]);
    let mut b = filled(255);
    assert_eq!(push_string_field(&mut b, b"ab"), Err(()));
    assert_eq!(b.len(), 255);
    let mut b = PacketBuilder::new();
    assert_eq!(push_string_field(&mut b, &vec![0u8; 65537]), Err(()));
    assert_eq!(b.as_slice(), &[0x00, 0x01]);
}

#[test]
fn string_field_of_the_empty_string() {
    let mut b = PacketBuilder::new();
    push_string_field(&mut b, b"").unwrap();
    assert_eq!(b.as_slice(), &[0x00, 0x00]);
}

#[test]
fn two_byte_integers() {
    assert_eq!(u16_to_be_bytes(0x1234), [0x12, 0x34]);
    assert_eq!(u16_from_be_bytes(0x12, 0x34), 0x1234);
    assert_eq!(u16_from_be_bytes(0xFF, 0xFF), 65535);
}

#[test]
fn remaining_length_leaves_behind_what_fits() {
    let mut b = filled(255);
    assert_eq!(encode_remaining_length(200, &mut b), Err(()));
    assert_eq!(b.len(), 256);
    assert_eq!(b.as_slice()[255], 0xC8);
    let mut b = filled(256);
    assert_eq!(encode_remaining_length(0, &mut b), Err(()));
    assert_eq!(b.len(), 256);
}

#[test]
fn remaining_length_round_trip() {
    for n in [0, 1, 127, 128, 200, 16383, 16384, 2_097_151, 2_097_152, 268_435_455] {
        let mut bytes = encoded(n);
        let size = bytes.len();
        bytes.extend([0x12, 0x80]);
        assert_eq!(read_length(&bytes), Some(Ok((n, size))));
    }
    assert_eq!(encoded(268_435_455), vec![0xFF, 0xFF, 0xFF, 0x7F]);
}

#[test]
fn remaining_length_of_five_bytes_is_malformed() {
    assert_eq!(encoded(268_435_456), vec![0x80, 0x80, 0x80, 0x80, 0x01]);
    assert_eq!(read_length(&encoded(268_435_456)), Some(Err(())));
    assert_eq!(read_length(&[0xFF, 0xFF, 0xFF, 0xFF]), Some(Err(())));
}

#[test]
fn remaining_length_cut_off() {
    assert_eq!(read_length(&[0x80, 0x80, 0x80]), None);
    assert_eq!(read_length(&[]), None);
}

#[test]
fn remaining_length_longer_than_needed_is_accepted() {
    assert_eq!(read_length(&[0x85, 0x00]), Some(Ok((5, 2))));
}

#[test]
fn remaining_length_that_does_not_end_in_zero_is_canonical() {
    for bytes in [
        vec![0x00],
        vec![0xC8, 0x01],
        vec![0x80, 0x80, 0x01],
        vec![0xFF, 0x80, 0x80, 0x7F],
    ] {
        let (n, size) = read_length(&bytes).unwrap().unwrap();
        assert_eq!(size, bytes.len());
        assert_eq!(encoded(n), bytes);
    }
}

#[test]
fn framing_counts_the_body() {
    let packet = frame_packet(0x30, &[1, 2], &[3; 198]).unwrap();
    assert_eq!(&packet.as_slice()[..6], &[0x30, 0xC8, 0x01, 1, 2, 3]);
    assert_eq!(packet.len(), 203);
    assert!(frame_packet(0x30, &[0; 253], &[]).is_ok());
    assert!(frame_packet(0x30, &[0; 253], &[0]).is_err());
}

#[test]
fn connect_packet_without_options() {
    let packet = build_connect_packet("esp32", 60, &ConnectOptions::default()).unwrap();
    let expected = [
        0x10, 0x11, 0x00, 0x04, b'M', b'Q', b'T', b'T', 0x04, 0x02, 0x00, 0x3C, 0x00, 0x05, b'e',
        b's', b'p', b'3', b'2',
    ];
    assert_eq!(packet.as_slice(), &expected);
}

#[test]
fn connect_packet_with_all_options() {
    let options = ConnectOptions {
        username: Some("u"),
        password: Some(b"pw"),
        last_will: Some(LastWill { topic: "t", message: b"off", retain: true }),
    };
    let packet = build_connect_packet("c", 0x0102, &options).unwrap();
    let expected = [
        0x10, 0x1C, 0x00, 0x04, b'M', b'Q', b'T', b'T', 0x04, 0xE6, 0x01, 0x02, // header
        0x00, 0x01, b'c', // client identifier
        0x00, 0x01, b't', 0x00, 0x03, b'o', b'f', b'f', // Last Will
        0x00, 0x01, b'u', // user name
        0x00, 0x02, b'p', b'w', // password
    ];
    assert_eq!(packet.as_slice(), &expected);
}

#[test]
fn connect_flags_follow_the_options() {
    let flags = |username, password, last_will| {
        let options = ConnectOptions { username, password, last_will };
        build_connect_packet("c", 1, &options).unwrap().as_slice()[9]
    };
    let will = |retain| Some(LastWill { topic: "t", message: b"m", retain });
    assert_eq!(flags(None, None, None), 0x02);
    assert_eq!(flags(Some("u"), None, None), 0x82);
    assert_eq!(flags(None, Some(&b"p"[..]), None), 0x42);
    assert_eq!(flags(None, None, will(false)), 0x06);
    assert_eq!(flags(None, None, will(true)), 0x26);
    assert_eq!(flags(Some("u"), Some(&b"p"[..]), will(false)), 0xC6);
}

#[test]
fn connect_packets_of_different_options_differ() {
    let options = |username, password| ConnectOptions { username, password, last_will: None };
    let a = build_connect_packet("c", 1, &options(Some("x"), None)).unwrap();
    let b = build_connect_packet("c", 1, &options(None, Some(&b"x"[..]))).unwrap();
    assert_ne!(a.as_slice(), b.as_slice());
}

#[test]
fn connect_packet_of_the_greatest_size() {
    let fits = "x".repeat(241);
    let packet = build_connect_packet(&fits, 60, &ConnectOptions::default()).unwrap();
    assert_eq!(packet.len(), 256);
    let long = "x".repeat(242);
    assert!(build_connect_packet(&long, 60, &ConnectOptions::default()).is_err());
}

#[test]
fn connect_packet_too_large_for_each_field() {
    let long = "x".repeat(300);
    let message = [0u8; 300];
    let with = |username, password, last_will| {
        build_connect_packet("c", 60, &ConnectOptions { username, password, last_will }).is_err()
    };
    assert!(build_connect_packet(&long, 60, &ConnectOptions::default()).is_err());
    assert!(with(Some(&long[..]), None, None));
    assert!(with(None, Some(&message[..]), None));
    assert!(with(None, None, Some(LastWill { topic: &long, message: b"", retain: false })));
    assert!(with(None, None, Some(LastWill { topic: "t", message: &message, retain: false })));
}

#[test]
fn default_options_are_empty() {
    let options = ConnectOptions::default();
    assert!(options.username.is_none());
    assert!(options.password.is_none());
    assert!(options.last_will.is_none());
}

#[test]
fn connack_results() {
    assert_eq!(parse_connack([0x20, 0x02, 0x00, 0x00]), ConnackResult::Accepted);
    assert_eq!(parse_connack([0x20, 0x02, 0x01, 0x00]), ConnackResult::Accepted);
    assert_eq!(parse_connack([0x20, 0x02, 0x00, 0x05]), ConnackResult::Refused(5));
    assert_eq!(parse_connack([0x30, 0x02, 0x00, 0x00]), ConnackResult::Invalid);
    assert_eq!(parse_connack([0x20, 0x03, 0x00, 0x05]), ConnackResult::Invalid);
}

#[test]
fn publish_packet_encoding() {
    let packet = build_publish_packet("a/b", b"hi").unwrap();
    assert_eq!(packet.as_slice(), &[0x30, 0x07, 0x00, 0x03, b'a', b'/', b'b', b'h', b'i']);
    let packet = build_publish_packet("é", b"").unwrap();
    assert_eq!(packet.as_slice(), &[0x30, 0x04, 0x00, 0x02, 0xC3, 0xA9]);
}

#[test]
fn publish_packet_of_the_greatest_size() {
    assert_eq!(build_publish_packet("t", &[7; 250]).unwrap().len(), 256);
    assert!(build_publish_packet("t", &[7; 251]).is_err());
    assert!(build_publish_packet(&"t".repeat(300), b"").is_err());
}

#[test]
fn publish_headers() {
    assert!(is_publish(0x30));
    assert!(is_publish(0x3F));
    assert!(!is_publish(0xD0));
    assert!(!is_publish(0x40));
}

#[test]
fn publish_body_round_trip() {
    let packet = build_publish_packet("maison/été", b"21.5").unwrap();
    let message = parse_publish(0x30, &packet.as_slice()[2..]).unwrap();
    assert_eq!(message.topic, "maison/été");
    assert_eq!(message.payload, b"21.5");
}

#[test]
fn publish_body_with_packet_identifier() {
    let body = [0x00, 0x01, b't', 0x12, 0x34, b'x'];
    for header in [0x32, 0x34, 0x36] {
        let message = parse_publish(header, &body).unwrap();
        assert_eq!(message.topic, "t");
        assert_eq!(message.payload, b"x");
    }
}

#[test]
fn publish_body_cut_off() {
    let body = [0x00, 0x01, b't', 0x12, 0x34, b'x'];
    for len in 0..5 {
        assert!(parse_publish(0x32, &body[..len]).is_err());
    }
    assert!(parse_publish(0x32, &body[..5]).is_ok());
    assert!(publish_layout(0x30, &[0x00]).is_err());
}

#[test]
fn publish_topic_has_to_be_utf8() {
    assert!(parse_publish(0x30, &[0x00, 0x01, 0xFF, b'x']).is_err());
    assert!(parse_publish(0x30, &[0x00, 0x02, 0xC3, b'x']).is_err());
    let message = parse_publish(0x30, &[0x00, 0x00, 0xFF]);
    assert_eq!(message.unwrap().topic, "");
}

#[test]
fn subscribe_packet_of_the_greatest_size() {
    assert_eq!(build_subscribe_packet(&"t".repeat(248), 1).unwrap().len(), 256);
    assert!(build_subscribe_packet(&"t".repeat(249), 1).is_err());
    assert!(build_subscribe_packet(&"t".repeat(254), 1).is_err());
    assert!(build_subscribe_packet(&"t".repeat(255), 1).is_err());
}

#[test]
fn subscribe_packets_of_different_requests_differ() {
    let a = build_subscribe_packet("ab", 1).unwrap();
    let b = build_subscribe_packet("ab", 2).unwrap();
    let c = build_subscribe_packet("abc", 1).unwrap();
    assert_ne!(a.as_slice(), b.as_slice());
    assert_ne!(a.as_slice(), c.as_slice());
}

#[test]
fn packet_identifiers_cycle_without_zero() {
    assert_eq!(next_packet_id(1), 2);
    assert_eq!(next_packet_id(65534), 65535);
    assert_eq!(next_packet_id(65535), 1);
    let mut id = 7;
    for count in 1..65535 {
        id = next_packet_id(id);
        assert!(id != 0 && id != 7, "after {} steps", count);
    }
    assert_eq!(next_packet_id(id), 7);
}

#[test]
fn suback_return_codes() {
    assert_eq!(parse_suback(0x90, &[0, 1, 2]), SubackResult::Accepted);
    assert_eq!(parse_suback(0x90, &[0, 1, 0x80, 0]), SubackResult::Refused);
    assert_eq!(parse_suback(0x91, &[0, 1, 0]), SubackResult::Invalid);
}

#[test]
fn ping_packets() {
    assert_eq!(build_pingreq_packet().as_slice(), &[0xC0, 0x00]);
    assert!(is_pingresp([0xD0, 0x00]));
    assert!(!is_pingresp([0xD0, 0x01]));
    assert!(!is_pingresp([0xC0, 0x00]));
}

#[test]
fn transport_errors_become_client_errors() {
    assert!(matches!(MqttError::from("broken"), MqttError::Io("broken")));
    let request = Request::new(build_pingreq_packet(), Answer::Pingresp);
    assert!(matches!(request.sent(Err("broken")), Step::Done(Err(MqttError::Io("broken")))));
}
