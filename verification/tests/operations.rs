use embassy_mqtt_lite::{
    build_connect_packet, build_publish_packet, build_subscribe_packet, ConnectOptions,
    IncomingMessage, LastWill, MqttClient, MqttError, ReceiveStep, Step,
};

/// A transport that delivers `input` and then fails, and that fails to write where told so.
struct Transport {
    input: Vec<u8>,
    output: Vec<u8>,
    broken: bool,
}

type Failure = MqttError<&'static str>;

impl Transport {
    fn new(input: &[u8]) -> Self {
        Transport { input: input.to_vec(), output: Vec::new(), broken: false }
    }

    fn write(&mut self, bytes: &[u8]) -> Result<(), &'static str> {
        if self.broken {
            return Err("broken");
        }
        self.output.extend_from_slice(bytes);
        Ok(())
    }

    fn read(&mut self, n: usize) -> Option<Vec<u8>> {
        if self.input.len() < n {
            self.input.clear();
            return None;
        }
        Some(self.input.drain(..n).collect())
    }

    fn exchange(&mut self, mut step: Step<&'static str>) -> Result<(), Failure> {
        loop {
            step = match step {
                Step::Send(request) => {
                    let written = self.write(request.bytes());
                    request.sent(written)
                }
                Step::Fetch(reply) => {
                    let bytes = self.read(reply.wanted());
                    reply.fetched(bytes.as_deref())
                }
                Step::Done(result) => return result,
            };
        }
    }

    fn receive<'buf>(
        &mut self,
        client: &MqttClient,
        buf: &'buf mut [u8],
    ) -> Result<IncomingMessage<'buf>, Failure> {
        let mut step = client.receive(buf.len());
        loop {
            step = match step {
                ReceiveStep::Head(head) => head.fetched(self.read(1).map(|b| b[0])),
                ReceiveStep::Skip(body) => {
                    let read = self.read(body.len());
                    body.fetched(read.is_some())
                }
                ReceiveStep::Body(body) => {
                    let len = body.len();
                    return match self.read(len) {
                        Some(bytes) => {
                            buf[..len].copy_from_slice(&bytes);
                            body.fetched(Some(&buf[..len]))
                        }
                        None => body.fetched(None),
                    };
                }
                ReceiveStep::Failed(error) => return Err(error),
            };
        }
    }
}

fn subscribe_with(input: &[u8]) -> (Result<(), Failure>, Vec<u8>) {
    let mut transport = Transport::new(input);
    let mut client = MqttClient::new();
    let result = transport.exchange(client.subscribe("home/clim"));
    (result, transport.input)
}

fn receive_error(input: &[u8], capacity: usize) -> Failure {
    let mut buf = vec![0u8; capacity];
    match Transport::new(input).receive(&MqttClient::new(), &mut buf) {
        Ok(_) => panic!("a message was received"),
        Err(error) => error,
    }
}

#[test]
fn connect_is_accepted() {
    let mut transport = Transport::new(&[0x20, 0x02, 0x00, 0x00, 0x99]);
    let client = MqttClient::new();
    assert!(transport.exchange(client.connect("mon-client-esp32", 60)).is_ok());
    assert_eq!(&transport.output[..4], &[0x10, 28, 0x00, 0x04]);
    assert_eq!(transport.output.len(), 30);
    assert_eq!(transport.input, vec![0x99]);
}

#[test]
fn connect_with_options_is_accepted() {
    let options = ConnectOptions {
        username: Some("mon_user"),
        password: Some(b"mon_mdp"),
        last_will: Some(LastWill {
            topic: "capteurs/salon/status",
            message: b"offline",
            retain: true,
        }),
    };
    let mut transport = Transport::new(&[0x20, 0x02, 0x00, 0x00]);
    let client = MqttClient::new();
    assert!(transport.exchange(client.connect_with_options("esp32-salon", 60, &options)).is_ok());
    assert_eq!(transport.output[9], 0xE6);
    assert_eq!(transport.output.len(), 2 + 10 + 13 + 23 + 9 + 10 + 9);
}

#[test]
fn connect_without_options_is_connect_with_default_options() {
    let client = MqttClient::new();
    let mut a = Transport::new(&[]);
    let mut b = Transport::new(&[]);
    let _ = a.exchange(client.connect("c", 5));
    let _ = b.exchange(client.connect_with_options("c", 5, &ConnectOptions::default()));
    assert_eq!(a.output, b.output);
}

#[test]
fn connect_is_refused_with_the_return_code() {
    let mut transport = Transport::new(&[0x20, 0x02, 0x00, 0x04]);
    let result = transport.exchange(MqttClient::new().connect("c", 60));
    assert!(matches!(result, Err(MqttError::ConnectionRefused(4))));
}

#[test]
fn connect_with_an_invalid_or_missing_connack() {
    for input in [&[0x21, 0x02, 0x00, 0x00][..], &[0x20, 0x02, 0x00][..], &[][..]] {
        let mut transport = Transport::new(input);
        let result = transport.exchange(MqttClient::new().connect("c", 60));
        assert!(matches!(result, Err(MqttError::ConnackInvalid)));
    }
}

#[test]
fn connect_too_large_sends_nothing() {
    let mut transport = Transport::new(&[0x20, 0x02, 0x00, 0x00]);
    let result = transport.exchange(MqttClient::new().connect(&"x".repeat(300), 60));
    assert!(matches!(result, Err(MqttError::PacketTooLarge)));
    assert!(transport.output.is_empty());
    assert_eq!(transport.input.len(), 4);
}

#[test]
fn a_write_that_fails_ends_every_request() {
    let mut transport = Transport::new(&[0x20, 0x02, 0x00, 0x00]);
    transport.broken = true;
    let mut client = MqttClient::new();
    for step in [
        client.connect("c", 60),
        client.publish("t", b"p"),
        client.ping(),
        client.subscribe("t"),
    ] {
        assert!(matches!(transport.exchange(step), Err(MqttError::Io("broken"))));
    }
    assert_eq!(transport.input.len(), 4);
}

#[test]
fn every_request_writes_its_packet_once() {
    let mut client = MqttClient::new();
    for input in [&[][..], &[0x20, 0x02, 0x00, 0x00][..], &[0x90, 0x03, 0x00, 0x02, 0x00][..]] {
        let packet = build_publish_packet("t", b"p").unwrap();
        let mut transport = Transport::new(input);
        let _ = transport.exchange(client.publish("t", b"p"));
        assert_eq!(transport.output, packet.as_slice());

        let packet = build_connect_packet("c", 9, &ConnectOptions::default()).unwrap();
        let mut transport = Transport::new(input);
        let _ = transport.exchange(client.connect("c", 9));
        assert_eq!(transport.output, packet.as_slice());

        let mut transport = Transport::new(input);
        let _ = transport.exchange(client.ping());
        assert_eq!(transport.output, vec![0xC0, 0x00]);

        let mut transport = Transport::new(input);
        let _ = transport.exchange(client.subscribe("t"));
        let packet = build_subscribe_packet("t", client.packet_id()).unwrap();
        assert_eq!(transport.output, packet.as_slice());
    }
}

#[test]
fn publish_waits_for_nothing() {
    let mut transport = Transport::new(&[1, 2, 3]);
    let client = MqttClient::new();
    assert!(transport.exchange(client.publish("maison/salon/temperature", b"21.5")).is_ok());
    assert_eq!(transport.output.len(), 32);
    assert_eq!(transport.input, vec![1, 2, 3]);
    let result = transport.exchange(client.publish("t", &[0; 300]));
    assert!(matches!(result, Err(MqttError::PacketTooLarge)));
}

#[test]
fn ping_is_answered_or_fails() {
    let mut transport = Transport::new(&[0xD0, 0x00, 0x01]);
    assert!(transport.exchange(MqttClient::new().ping()).is_ok());
    assert_eq!(transport.output, vec![0xC0, 0x00]);
    assert_eq!(transport.input, vec![0x01]);
    for input in [&[0xD0, 0x01][..], &[0x30, 0x00][..], &[0xD0][..]] {
        let result = Transport::new(input).exchange(MqttClient::new().ping());
        assert!(matches!(result, Err(MqttError::PingFailed)));
    }
}

#[test]
fn subscribe_is_accepted() {
    let (result, rest) = subscribe_with(&[0x90, 0x03, 0x00, 0x02, 0x00, 0x77]);
    assert!(result.is_ok());
    assert_eq!(rest, vec![0x77]);
    let (result, rest) = subscribe_with(&[0x90, 0x08, 0, 2, 0, 1, 1, 1, 1, 1]);
    assert!(result.is_ok());
    assert!(rest.is_empty());
}

#[test]
fn subscribe_is_refused() {
    let (result, rest) = subscribe_with(&[0x90, 0x03, 0x00, 0x02, 0x80, 0x77]);
    assert!(matches!(result, Err(MqttError::SubscribeFailed)));
    assert_eq!(rest, vec![0x77]);
}

#[test]
fn subscribe_with_an_invalid_suback() {
    for input in [
        &[][..],
        &[0x90, 0x02, 0x00, 0x02][..],
        &[0x90, 0x09, 0, 2, 0, 0, 0, 0, 0, 0, 0][..],
        &[0x90, 0x03, 0x00, 0x02][..],
        &[0x20, 0x03, 0x00, 0x02, 0x00][..],
    ] {
        let (result, _) = subscribe_with(input);
        assert!(matches!(result, Err(MqttError::SubackInvalid)));
    }
}

#[test]
fn subscribe_with_a_broken_length() {
    let (result, _) = subscribe_with(&[0x90, 0x83]);
    assert!(matches!(result, Err(MqttError::UnexpectedPacket)));
    let (result, rest) = subscribe_with(&[0x90, 0x83, 0x80, 0x80, 0x80, 0x11]);
    assert!(matches!(result, Err(MqttError::UnexpectedPacket)));
    assert_eq!(rest, vec![0x11]);
    let (result, _) = subscribe_with(&[0x90, 0x83, 0x00, 0x00, 0x02, 0x00]);
    assert!(result.is_ok());
}

#[test]
fn subscribe_counts_packet_identifiers() {
    let mut client = MqttClient::new();
    assert_eq!(client.packet_id(), 1);
    let mut transport = Transport::new(&[0x90, 0x03, 0x00, 0x02, 0x00]);
    assert!(transport.exchange(client.subscribe("t")).is_ok());
    assert_eq!(client.packet_id(), 2);
    assert_eq!(transport.output, vec![0x82, 0x06, 0x00, 0x02, 0x00, 0x01, b't', 0x00]);
    let result = transport.exchange(client.subscribe(&"t".repeat(300)));
    assert!(matches!(result, Err(MqttError::PacketTooLarge)));
    assert_eq!(client.packet_id(), 3);
    for _ in 3..65535 {
        let _: Step<&'static str> = client.subscribe("t");
    }
    assert_eq!(client.packet_id(), 65535);
    let _: Step<&'static str> = client.subscribe("t");
    assert_eq!(client.packet_id(), 1);
}

#[test]
fn receive_gets_what_was_published() {
    let packet = build_publish_packet("capteurs/été", b"21.5").unwrap();
    let mut input = packet.as_slice().to_vec();
    input.push(0x42);
    let mut transport = Transport::new(&input);
    let mut buf = [0u8; 64];
    let message = transport.receive(&MqttClient::new(), &mut buf).unwrap();
    assert_eq!(message.topic, "capteurs/été");
    assert_eq!(message.payload, b"21.5");
    assert_eq!(transport.input, vec![0x42]);
}

#[test]
fn receive_gets_messages_in_order() {
    let client = MqttClient::new();
    let mut sender = Transport::new(&[]);
    for (topic, payload) in [("a", &b"1"[..]), ("b", &b""[..]), ("a", &b"333"[..])] {
        assert!(sender.exchange(client.publish(topic, payload)).is_ok());
    }
    let mut receiver = Transport::new(&sender.output);
    let mut buf = [0u8; 256];
    for (topic, payload) in [("a", &b"1"[..]), ("b", &b""[..]), ("a", &b"333"[..])] {
        let message = receiver.receive(&client, &mut buf).unwrap();
        assert_eq!(message.topic, topic);
        assert_eq!(message.payload, payload);
    }
    assert!(receiver.input.is_empty());
}

#[test]
fn receive_skips_other_packets() {
    let input = [
        0xD0, 0x00, // PINGRESP
        0x90, 0x03, 0x00, 0x02, 0x00, // SUBACK
        0x32, 0x06, 0x00, 0x01, b't', 0x00, 0x09, b'x', // PUBLISH with QoS 1
    ];
    let mut buf = [0u8; 6];
    let message = Transport::new(&input).receive(&MqttClient::new(), &mut buf).unwrap();
    assert_eq!(message.topic, "t");
    assert_eq!(message.payload, b"x");
}

#[test]
fn receive_needs_room_for_the_body() {
    let packet = build_publish_packet("t", b"hello").unwrap();
    assert!(matches!(receive_error(packet.as_slice(), 7), MqttError::PacketTooLarge));
    assert!(matches!(receive_error(&[0x90, 0x03, 0, 1, 0], 2), MqttError::PacketTooLarge));
    let mut buf = [0u8; 8];
    assert!(Transport::new(packet.as_slice()).receive(&MqttClient::new(), &mut buf).is_ok());
}

#[test]
fn receive_rejects_a_length_of_more_than_four_bytes() {
    let mut transport = Transport::new(&[0x30, 0xFF, 0xFF, 0xFF, 0xFF, 0x00]);
    let mut buf = [0u8; 9];
    let result = transport.receive(&MqttClient::new(), &mut buf);
    assert!(matches!(result, Err(MqttError::UnexpectedPacket)));
    assert_eq!(transport.input, vec![0x00]);
}

#[test]
fn receive_gets_messages_of_any_qos_in_order() {
    let input = [
        0x31, 0x04, 0x00, 0x01, b'a', b'1', // QoS 0, retained
        0x3B, 0x06, 0x00, 0x01, b'b', 0x00, 0x07, b'2', // QoS 1, duplicate, retained
        0x34, 0x05, 0x00, 0x01, b'c', 0x00, 0x08, // QoS 2
        0x77,
    ];
    let client = MqttClient::new();
    let mut transport = Transport::new(&input);
    let mut buf = [0u8; 6];
    for (topic, payload) in [("a", &b"1"[..]), ("b", &b"2"[..]), ("c", &b""[..])] {
        let message = transport.receive(&client, &mut buf).unwrap();
        assert_eq!(message.topic, topic);
        assert_eq!(message.payload, payload);
    }
    assert_eq!(transport.input, vec![0x77]);
}

#[test]
fn receive_gets_messages_between_other_packets() {
    let input = [
        0xD0, 0x00, // PINGRESP
        0x30, 0x84, 0x80, 0x00, 0x00, 0x01, b'a', b'1', // PUBLISH, length on three bytes
        0x90, 0x83, 0x80, 0x80, 0x00, 0x00, 0x02, 0x00, // SUBACK, length on four bytes
        0xD0, 0x80, 0x00, // PINGRESP, length on two bytes
        0x32, 0x06, 0x00, 0x01, b'b', 0x00, 0x07, b'2', // PUBLISH with QoS 1
        0xD0, 0x00, // PINGRESP
    ];
    let client = MqttClient::new();
    let mut transport = Transport::new(&input);
    let mut buf = [0u8; 6];
    for (topic, payload) in [("a", b"1"), ("b", b"2")] {
        let message = transport.receive(&client, &mut buf).unwrap();
        assert_eq!(message.topic, topic);
        assert_eq!(message.payload, payload);
    }
    assert_eq!(transport.input, vec![0xD0, 0x00]);
    assert!(transport.output.is_empty());
}

#[test]
fn receive_fails_where_the_transport_does() {
    for input in [
        &[][..],
        &[0x30][..],
        &[0x30, 0x80][..],
        &[0x30, 0x04, 0x00, 0x01][..],
        &[0xD0, 0x01][..],
        &[0xD0, 0x00][..],
    ] {
        assert!(matches!(receive_error(input, 16), MqttError::UnexpectedPacket));
    }
}

#[test]
fn receive_rejects_malformed_messages() {
    for input in [
        &[0x30, 0x00][..],
        &[0x30, 0x01, 0x00][..],
        &[0x30, 0x03, 0x00, 0x05, b'a'][..],
        &[0x32, 0x04, 0x00, 0x01, b'a', 0x00][..],
        &[0x30, 0x03, 0x00, 0x01, 0xFF][..],
    ] {
        assert!(matches!(receive_error(input, 16), MqttError::UnexpectedPacket));
    }
}

#[test]
fn too_few_bytes_count_as_a_failed_read() {
    let client = MqttClient::new();
    let step: Step<()> = match client.ping::<()>() {
        Step::Send(request) => request.sent(Ok(())),
        _ => panic!("a ping sends first"),
    };
    match step {
        Step::Fetch(reply) => {
            assert_eq!(reply.wanted(), 2);
            let step: Step<()> = reply.fetched(Some(&[0xD0]));
            assert!(matches!(step, Step::Done(Err(MqttError::PingFailed))));
        }
        _ => panic!("a ping waits for an answer"),
    }
}
