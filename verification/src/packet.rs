//! How a control packet is framed: a header byte, the Remaining Length, and the body it counts.

use crate::builder::{PacketBuilder, MAX_PACKET_SIZE};
use crate::remaining_length;
use crate::remaining_length::{encode_remaining_length, LengthField};
use vstd::prelude::*;

verus! {

/// The control packet with this header byte and this body.
pub open spec fn framed(header: u8, body: Seq<u8>) -> Seq<u8> {
    seq![header] + remaining_length::remaining_length_bytes(body.len()) + body
}

/// Frames a packet whose body is `head` followed by `tail`.
///
/// Fails exactly where the packet is longer than `MAX_PACKET_SIZE`.
pub fn frame_packet(header: u8, head: &[u8], tail: &[u8]) -> (result: Result<PacketBuilder, ()>)
    ensures
        result is Ok <==> framed(header, head@ + tail@).len() <= MAX_PACKET_SIZE,
        result matches Ok(packet) ==> packet@ == framed(header, head@ + tail@),
{
    let ghost body = head@ + tail@;
    let ghost length = remaining_length::remaining_length_bytes(body.len());
    let body_len: usize = match head.len().checked_add(tail.len()) {
        Some(n) => n,
        None => return Err(()),
    };
    let mut packet = PacketBuilder::new();
    if packet.push(header).is_err() || encode_remaining_length(body_len, &mut packet).is_err() {
        return Err(());
    }
    assert(packet@ =~= seq![header] + length);
    if packet.extend(head).is_err() || packet.extend(tail).is_err() {
        return Err(());
    }
    assert(packet@ =~= framed(header, body));
    Ok(packet)
}

/// The control packet with this header byte, this Remaining Length and this body.
pub open spec fn framed_with(header: u8, length: Seq<u8>, body: Seq<u8>) -> Seq<u8> {
    seq![header] + length + body
}

/// The Remaining Length of a packet counts its body: it stands right behind the header byte, and
/// what follows it is the body, then whatever comes behind the packet. The field may be longer than
/// it needs to be.
pub proof fn law_framing(header: u8, length: Seq<u8>, body: Seq<u8>, rest: Seq<u8>)
    requires
        remaining_length::encodes_length(length, body.len()),
    ensures
        ({
            let stream = framed_with(header, length, body) + rest;
            &&& stream[0] == header
            &&& remaining_length::length_field(stream.skip(1)) == (LengthField::Value {
                value: body.len(),
                size: length.len(),
            })
            &&& stream.skip(1).skip(length.len() as int) == body + rest
            &&& framed_with(header, length, body).len() == 1 + length.len() + body.len()
        }),
{
    let stream = framed_with(header, length, body) + rest;
    remaining_length::law_length_field_is_self_delimiting(length, body.len(), body + rest);
    assert(stream.skip(1) =~= length + (body + rest));
    assert(stream.skip(1).skip(length.len() as int) =~= body + rest);
}

/// Packets are built with a Remaining Length that counts their body.
pub proof fn law_built_packets_are_framed(header: u8, body: Seq<u8>)
    requires
        body.len() < 268_435_456,
    ensures
        framed(header, body) == framed_with(
            header,
            remaining_length::remaining_length_bytes(body.len()),
            body,
        ),
        remaining_length::encodes_length(
            remaining_length::remaining_length_bytes(body.len()),
            body.len(),
        ),
{
    remaining_length::law_written_length_is_complete(body.len());
}

/// Packets of the same type that are equal, and not too long to be built, have the same body.
pub proof fn lemma_framed_body(header: u8, body1: Seq<u8>, body2: Seq<u8>)
    requires
        framed(header, body1).len() <= MAX_PACKET_SIZE,
        framed(header, body1) == framed(header, body2),
    ensures
        body1 == body2,
        body1.len() < MAX_PACKET_SIZE,
{
    let length1 = remaining_length::remaining_length_bytes(body1.len());
    let length2 = remaining_length::remaining_length_bytes(body2.len());
    law_built_packets_are_framed(header, body1);
    law_built_packets_are_framed(header, body2);
    law_framing(header, length1, body1, Seq::empty());
    law_framing(header, length2, body2, Seq::empty());
    assert(body1 + Seq::<u8>::empty() =~= body1);
    assert(body2 + Seq::<u8>::empty() =~= body2);
}

} // verus!
