//! What can go wrong while the client talks to a broker.

use vstd::prelude::*;

verus! {

/// Errors of the MQTT client. `E` is the error of the transport.
#[derive(Debug)]
pub enum MqttError<E> {
    /// The transport failed (TCP, TLS, etc.).
    Io(E),
    /// A packet to be sent is longer than `MAX_PACKET_SIZE`, or the body of a well-formed packet
    /// that comes in is longer than the buffer of the receiver.
    PacketTooLarge,
    /// The broker did not answer with a valid CONNACK.
    ConnackInvalid,
    /// The broker refused the connection, with this CONNACK return code.
    ConnectionRefused(u8),
    /// The answer to a PINGREQ is not a valid PINGRESP.
    PingFailed,
    /// The SUBACK received is invalid or malformed.
    SubackInvalid,
    /// The broker refused the subscription (SUBACK return code 0x80).
    SubscribeFailed,
    /// A packet came in that was not expected, or that is malformed: cut off, with a Remaining
    /// Length that does not end where it has to, or with a body that does not hold what it says.
    UnexpectedPacket,
}

impl<E> From<E> for MqttError<E> {
    fn from(e: E) -> (error: Self) {
        MqttError::Io(e)
    }
}

impl<E> vstd::std_specs::convert::FromSpecImpl<E> for MqttError<E> {
    open spec fn obeys_from_spec() -> bool {
        true
    }

    open spec fn from_spec(e: E) -> Self {
        MqttError::Io(e)
    }
}

/// An error of the transport is kept as it is.
pub proof fn law_transport_error_is_kept<E>(e: E)
    ensures
        <MqttError<E> as vstd::std_specs::convert::FromSpec<E>>::obeys_from_spec(),
        <MqttError<E> as vstd::std_specs::convert::FromSpec<E>>::from_spec(e) == MqttError::Io(e),
{
}

} // verus!
