//! Keep-alive: the PINGREQ packet and the PINGRESP that answers it.

use crate::builder::PacketBuilder;
use crate::packet;
use vstd::prelude::*;

verus! {

/// The PINGREQ packet, which has no body.
pub open spec fn pingreq_packet() -> Seq<u8> {
    seq![0xC0, 0x00]
}

/// The PINGRESP packet, which has no body.
pub open spec fn pingresp_packet() -> Seq<u8> {
    seq![0xD0, 0x00]
}

/// Builds the PINGREQ packet.
pub fn build_pingreq_packet() -> (packet: PacketBuilder)
    ensures
        packet@ == pingreq_packet(),
{
    let mut packet = PacketBuilder::new();
    let _ = packet.push(0xC0);
    let _ = packet.push(0x00);
    assert(packet@ =~= pingreq_packet());
    packet
}

/// Whether two bytes are a PINGRESP.
pub fn is_pingresp(pingresp: [u8; 2]) -> (result: bool)
    ensures
        result == (pingresp@ == pingresp_packet()),
{
    let result = pingresp[0] == 0xD0 && pingresp[1] == 0x00;
    assert(result ==> pingresp@ =~= pingresp_packet());
    assert(pingresp@ == pingresp_packet() ==> pingresp@[0] == 0xD0 && pingresp@[1] == 0x00);
    result
}

/// Both packets are framed like any other, with an empty body; so a PINGRESP that comes in while
/// the client waits for a message is skipped.
pub proof fn law_ping_packets_are_framed()
    ensures
        pingreq_packet() == packet::framed(0xC0, Seq::empty()),
        pingresp_packet() == packet::framed(0xD0, Seq::empty()),
{
    assert(pingreq_packet() =~= packet::framed(0xC0, Seq::empty()));
    assert(pingresp_packet() =~= packet::framed(0xD0, Seq::empty()));
}

} // verus!
