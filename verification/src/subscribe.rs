//! Subscriptions: the SUBSCRIBE packet and the SUBACK that answers it.

use crate::builder::{PacketBuilder, MAX_PACKET_SIZE};
use crate::fields;
use crate::fields::{push_string_field, u16_to_be_bytes};
use crate::packet;
use crate::packet::frame_packet;
use vstd::prelude::*;

verus! {

/// The header byte of a SUBSCRIBE packet, with the flags that the protocol fixes.
pub const SUBSCRIBE: u8 = 0x82;

/// The body of a SUBSCRIBE packet: the packet identifier, the topic filter and the QoS asked for,
/// which is 0.
pub open spec fn subscribe_body(topic: Seq<char>, packet_id: u16) -> Seq<u8> {
    fields::be16(packet_id as nat) + (fields::string_field(vstd::utf8::encode_utf8(topic)) + seq![
        0x00u8,
    ])
}

/// The SUBSCRIBE packet that asks for a topic with QoS 0.
pub open spec fn subscribe_packet(topic: Seq<char>, packet_id: u16) -> Seq<u8> {
    packet::framed(SUBSCRIBE, subscribe_body(topic, packet_id))
}

/// Builds the SUBSCRIBE packet that asks for a topic with QoS 0.
///
/// Fails exactly where the packet is longer than `MAX_PACKET_SIZE`.
pub fn build_subscribe_packet(topic: &str, packet_id: u16) -> (result: Result<PacketBuilder, ()>)
    ensures
        result is Ok <==> subscribe_packet(topic@, packet_id).len() <= MAX_PACKET_SIZE,
        result matches Ok(packet) ==> packet@ == subscribe_packet(topic@, packet_id),
{
    let mut variable_header = PacketBuilder::new();
    if variable_header.extend(&u16_to_be_bytes(packet_id)).is_err() {
        return Err(());
    }
    assert(variable_header@ =~= fields::be16(packet_id as nat));

    let mut payload = PacketBuilder::new();
    if push_string_field(&mut payload, topic.as_bytes()).is_err() || payload.push(0x00).is_err() {
        return Err(());
    }
    assert(payload@ =~= fields::string_field(vstd::utf8::encode_utf8(topic@)) + seq![0x00u8]);

    frame_packet(SUBSCRIBE, variable_header.as_slice(), payload.as_slice())
}

/// The packet identifier that follows `packet_id`: one more, and 1 behind the greatest, so that 0
/// is never used.
pub open spec fn packet_id_after(packet_id: u16) -> u16 {
    if packet_id == u16::MAX {
        1
    } else {
        (packet_id + 1) as u16
    }
}

/// The packet identifier that follows `packet_id`.
pub fn next_packet_id(packet_id: u16) -> (next: u16)
    ensures
        next == packet_id_after(packet_id),
{
    packet_id.wrapping_add(1).max(1)
}

/// The packet identifier that `count` subscriptions behind `packet_id` use.
pub open spec fn packet_id_after_many(packet_id: u16, count: nat) -> u16
    decreases count,
{
    if count == 0 {
        packet_id
    } else {
        packet_id_after(packet_id_after_many(packet_id, (count - 1) as nat))
    }
}

/// Packet identifiers run through 1 to 65535 and start over: none is 0, and none comes back before
/// all the others have been used.
pub proof fn law_packet_ids_cycle(packet_id: u16, count: nat)
    requires
        packet_id != 0,
    ensures
        packet_id_after_many(packet_id, count) == 1 + (packet_id - 1 + count) % 65535,
        packet_id_after_many(packet_id, count) != 0,
        packet_id_after_many(packet_id, count) == packet_id <==> count % 65535 == 0,
    decreases count,
{
    if count > 0 {
        law_packet_ids_cycle(packet_id, (count - 1) as nat);
    }
}

/// What a SUBACK says.
#[derive(Debug, PartialEq, Eq, Structural)]
pub enum SubackResult {
    /// The subscription is accepted.
    Accepted,
    /// The subscription is refused.
    Refused,
    /// The packet is no SUBACK, or too short for one.
    Invalid,
}

/// What a packet says, taken as a SUBACK: its header byte is 0x90, and the return code behind the
/// packet identifier is 0x80 where the subscription is refused.
pub open spec fn suback_result(header_byte: u8, body: Seq<u8>) -> SubackResult {
    if header_byte != 0x90 || body.len() < 3 {
        SubackResult::Invalid
    } else if body[2] == 0x80 {
        SubackResult::Refused
    } else {
        SubackResult::Accepted
    }
}

/// Reads a SUBACK.
pub fn parse_suback(header_byte: u8, body: &[u8]) -> (result: SubackResult)
    ensures
        result == suback_result(header_byte, body@),
{
    if header_byte != 0x90 || body.len() < 3 {
        return SubackResult::Invalid;
    }
    if body[2] == 0x80 {
        return SubackResult::Refused;
    }
    SubackResult::Accepted
}

/// Subscriptions that differ in the topic or in the packet identifier are asked for by different
/// packets.
pub proof fn law_subscribe_packet_is_faithful(
    topic1: Seq<char>,
    id1: u16,
    topic2: Seq<char>,
    id2: u16,
)
    requires
        subscribe_packet(topic1, id1).len() <= MAX_PACKET_SIZE,
        subscribe_packet(topic1, id1) == subscribe_packet(topic2, id2),
    ensures
        topic1 == topic2,
        id1 == id2,
{
    let body1 = subscribe_body(topic1, id1);
    let body2 = subscribe_body(topic2, id2);
    packet::lemma_framed_body(SUBSCRIBE, body1, body2);
    let bytes1 = vstd::utf8::encode_utf8(topic1);
    let bytes2 = vstd::utf8::encode_utf8(topic2);
    fields::lemma_be16_prefix(id1 as nat, body1.skip(2), id2 as nat, body2.skip(2));
    assert(body1 =~= fields::be16(id1 as nat) + body1.skip(2));
    assert(body2 =~= fields::be16(id2 as nat) + body2.skip(2));
    assert(body1.skip(2) =~= fields::string_field(bytes1) + seq![0x00u8]);
    assert(body2.skip(2) =~= fields::string_field(bytes2) + seq![0x00u8]);
    fields::lemma_string_field_prefix(bytes1, seq![0x00u8], bytes2, seq![0x00u8]);
    vstd::utf8::encode_utf8_decode_utf8(topic1);
    vstd::utf8::encode_utf8_decode_utf8(topic2);
}

} // verus!
