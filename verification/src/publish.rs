//! Messages: the PUBLISH packet, sent with QoS 0 and received with any.

use crate::builder::{PacketBuilder, MAX_PACKET_SIZE};
use crate::fields;
use crate::fields::{push_string_field, u16_from_be_bytes};
use crate::packet;
use crate::packet::frame_packet;
use vstd::prelude::*;
use vstd::string::StringSliceAdditionalSpecFns;

verus! {

/// The header byte of a PUBLISH packet with QoS 0, neither a duplicate nor retained.
pub const PUBLISH: u8 = 0x30;

/// A message received from the broker on a topic subscribed to.
pub struct IncomingMessage<'buf> {
    pub topic: &'buf str,
    pub payload: &'buf [u8],
}

/// What an [`IncomingMessage`] says.
pub struct MessageView {
    pub topic: Seq<char>,
    pub payload: Seq<u8>,
}

impl<'buf> View for IncomingMessage<'buf> {
    type V = MessageView;

    open spec fn view(&self) -> MessageView {
        MessageView { topic: self.topic@, payload: self.payload@ }
    }
}

// ---------------------------------------------------------------------------
// Sending
// ---------------------------------------------------------------------------

/// The body of a PUBLISH packet with QoS 0: the topic, then the payload.
pub open spec fn publish_body(topic: Seq<char>, payload: Seq<u8>) -> Seq<u8> {
    fields::string_field(vstd::utf8::encode_utf8(topic)) + payload
}

/// The PUBLISH packet that carries `payload` with QoS 0.
pub open spec fn publish_packet(topic: Seq<char>, payload: Seq<u8>) -> Seq<u8> {
    packet::framed(PUBLISH, publish_body(topic, payload))
}

/// Builds the PUBLISH packet that carries `payload` with QoS 0.
///
/// Fails exactly where the packet is longer than `MAX_PACKET_SIZE`.
pub fn build_publish_packet(topic: &str, payload: &[u8]) -> (result: Result<PacketBuilder, ()>)
    ensures
        result is Ok <==> publish_packet(topic@, payload@).len() <= MAX_PACKET_SIZE,
        result matches Ok(packet) ==> packet@ == publish_packet(topic@, payload@),
{
    let mut variable_header = PacketBuilder::new();
    if push_string_field(&mut variable_header, topic.as_bytes()).is_err() {
        return Err(());
    }
    assert(variable_header@ =~= fields::string_field(vstd::utf8::encode_utf8(topic@)));
    frame_packet(PUBLISH, variable_header.as_slice(), payload)
}

// ---------------------------------------------------------------------------
// Receiving
// ---------------------------------------------------------------------------

/// Whether a header byte is that of a PUBLISH packet.
pub open spec fn is_publish_header(header_byte: u8) -> bool {
    header_byte / 16 == 3
}

/// The QoS that the header byte of a PUBLISH packet names.
pub open spec fn publish_qos(header_byte: u8) -> u8 {
    (header_byte / 2) % 4
}

/// The length of the topic in the body of a PUBLISH packet.
pub open spec fn publish_topic_len(body: Seq<u8>) -> nat {
    fields::be16_value(body[0], body[1])
}

/// The bytes of the topic in the body of a PUBLISH packet.
pub open spec fn publish_topic(body: Seq<u8>) -> Seq<u8> {
    body.subrange(2, 2 + publish_topic_len(body) as int)
}

/// Where the payload starts in the body of a PUBLISH packet: behind the topic and, with a QoS
/// above 0, behind the packet identifier.
pub open spec fn publish_payload_start(header_byte: u8, body: Seq<u8>) -> nat {
    2 + publish_topic_len(body) + (if publish_qos(header_byte) > 0 {
        2nat
    } else {
        0nat
    })
}

/// Whether the body of a PUBLISH packet is long enough for what it announces.
pub open spec fn publish_complete(header_byte: u8, body: Seq<u8>) -> bool {
    body.len() >= 2 && publish_payload_start(header_byte, body) <= body.len()
}

/// The message that a PUBLISH packet carries, if it is well formed and its topic is UTF-8.
pub open spec fn publish_message(header_byte: u8, body: Seq<u8>) -> Option<MessageView> {
    let topic = publish_topic(body);
    if publish_complete(header_byte, body) && vstd::utf8::valid_utf8(topic) {
        Some(
            MessageView {
                topic: vstd::utf8::decode_utf8(topic),
                payload: body.skip(publish_payload_start(header_byte, body) as int),
            },
        )
    } else {
        None
    }
}

/// Whether a packet with this header byte is a PUBLISH.
pub fn is_publish(header_byte: u8) -> (result: bool)
    ensures
        result == is_publish_header(header_byte),
{
    assert(header_byte & 0xF0 == 0x30 <==> header_byte / 16 == 3) by (bit_vector);
    header_byte & 0xF0 == 0x30
}

/// The length of the topic and the offset of the payload in the body of a PUBLISH packet.
///
/// Fails exactly where the body is too short for what it announces.
pub fn publish_layout(header_byte: u8, buf: &[u8]) -> (result: Result<(usize, usize), ()>)
    ensures
        result is Ok <==> publish_complete(header_byte, buf@),
        result matches Ok((topic_len, payload_start)) ==> topic_len == publish_topic_len(buf@)
            && payload_start == publish_payload_start(header_byte, buf@),
{
    if buf.len() < 2 {
        return Err(());
    }
    let topic_len: usize = u16_from_be_bytes(buf[0], buf[1]) as usize;
    assert((header_byte >> 1) & 0x03 == (header_byte / 2) % 4) by (bit_vector);
    let qos: u8 = (header_byte >> 1) & 0x03;
    let mut payload_start: usize = 2 + topic_len;
    if qos > 0 {
        payload_start += 2;
    }
    if payload_start > buf.len() {
        return Err(());
    }
    Ok((topic_len, payload_start))
}

/// Reads bytes as a string by way of `core::str::from_utf8`, which gives a string exactly where
/// the bytes are valid UTF-8; the string is then encoded by those very bytes.
#[verifier::external_body]
fn str_from_utf8(bytes: &[u8]) -> (result: Option<&str>)
    ensures
        result is Some <==> vstd::utf8::valid_utf8(bytes@),
        result matches Some(s) ==> s.spec_bytes() == bytes@,
{
    match core::str::from_utf8(bytes) {
        Ok(s) => Some(s),
        Err(_) => None,
    }
}

/// The message that a PUBLISH packet carries.
///
/// Fails exactly where the body is too short for what it announces or the topic is not UTF-8.
pub fn parse_publish<'buf>(header_byte: u8, body: &'buf [u8]) -> (result: Result<
    IncomingMessage<'buf>,
    (),
>)
    ensures
        match publish_message(header_byte, body@) {
            Some(message) => result matches Ok(m) && m@ == message,
            None => result is Err,
        },
{
    let (topic_len, payload_start) = match publish_layout(header_byte, body) {
        Ok(layout) => layout,
        Err(_) => return Err(()),
    };
    let (topic_and_rest, payload) = body.split_at(payload_start);
    let topic_bytes = &topic_and_rest[2..2 + topic_len];
    assert(topic_bytes@ =~= publish_topic(body@));
    assert(payload@ =~= body@.skip(payload_start as int));
    match str_from_utf8(topic_bytes) {
        Some(topic) => {
            proof {
                vstd::utf8::encode_utf8_decode_utf8(topic@);
            }
            Ok(IncomingMessage { topic, payload })
        },
        None => Err(()),
    }
}

/// Reading undoes writing: the body that a message is sent with carries that message, whatever
/// the flags beside QoS 0. The topic has to fit its two-byte length.
pub proof fn law_publish_round_trip(header_byte: u8, topic: Seq<char>, payload: Seq<u8>)
    requires
        vstd::utf8::encode_utf8(topic).len() < 65536,
        publish_qos(header_byte) == 0,
    ensures
        publish_message(header_byte, publish_body(topic, payload)) == Some(
            MessageView { topic, payload },
        ),
{
    let bytes = vstd::utf8::encode_utf8(topic);
    let body = publish_body(topic, payload);
    assert(publish_topic_len(body) == bytes.len());
    assert(publish_topic(body) =~= bytes);
    assert(body.skip(2 + bytes.len() as int) =~= payload);
    vstd::utf8::encode_utf8_valid_utf8(topic);
    vstd::utf8::encode_utf8_decode_utf8(topic);
}

/// With a QoS above 0, the packet identifier between topic and payload is skipped.
pub proof fn law_publish_skips_packet_id(
    header_byte: u8,
    topic: Seq<char>,
    packet_id: u16,
    payload: Seq<u8>,
)
    requires
        vstd::utf8::encode_utf8(topic).len() < 65536,
        publish_qos(header_byte) > 0,
    ensures
        publish_message(
            header_byte,
            publish_body(topic, fields::be16(packet_id as nat) + payload),
        ) == Some(MessageView { topic, payload }),
{
    let bytes = vstd::utf8::encode_utf8(topic);
    let body = publish_body(topic, fields::be16(packet_id as nat) + payload);
    assert(publish_topic_len(body) == bytes.len());
    assert(publish_topic(body) =~= bytes);
    assert(body.skip(4 + bytes.len() as int) =~= payload);
    vstd::utf8::encode_utf8_valid_utf8(topic);
    vstd::utf8::encode_utf8_decode_utf8(topic);
}

/// A body cut off before its payload carries no message.
pub proof fn law_truncated_publish_is_rejected(header_byte: u8, body: Seq<u8>, len: nat)
    requires
        publish_complete(header_byte, body),
        len < publish_payload_start(header_byte, body),
    ensures
        publish_message(header_byte, body.take(len as int)) is None,
{
}

} // verus!
