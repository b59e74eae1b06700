//! The client: what it keeps between requests, and how each request starts.

use crate::builder::MAX_PACKET_SIZE;
use crate::connect;
use crate::connect::{build_connect_packet, ConnectOptions};
use crate::error::MqttError;
use crate::exchange::{Answer, Request, RequestView, Step, StepView};
use crate::ping;
use crate::ping::build_pingreq_packet;
use crate::publish;
use crate::publish::build_publish_packet;
use crate::receive::{HeadView, PacketHead, ReceiveStep, ReceiveView};
use crate::subscribe;
use crate::subscribe::{build_subscribe_packet, next_packet_id};
use vstd::prelude::*;

verus! {

/// A minimal MQTT client. Its view is the packet identifier used last, 1 at first and never 0.
///
/// The client does no input or output: a request gives the first [`Step`] of an exchange, or, for
/// [`MqttClient::receive`], the first [`ReceiveStep`].
pub struct MqttClient {
    packet_id: u16,
}

impl View for MqttClient {
    type V = u16;

    closed spec fn view(&self) -> u16 {
        self.packet_id
    }
}

/// The first step of a request: its packet is sent if it is not too long, and refused otherwise.
pub open spec fn request_step<E>(packet: Seq<u8>, answer: Answer) -> StepView<E> {
    if packet.len() <= MAX_PACKET_SIZE {
        StepView::Send(RequestView { bytes: packet, answer })
    } else {
        StepView::Done(Err(MqttError::PacketTooLarge))
    }
}

impl MqttClient {
    #[verifier::type_invariant]
    spec fn well_formed(self) -> bool {
        self.packet_id != 0
    }

    /// A client for a transport that is already connected (TCP socket, etc.).
    pub fn new() -> (client: Self)
        ensures
            client@ == 1,
    {
        MqttClient { packet_id: 1 }
    }

    /// The packet identifier used last.
    pub fn packet_id(&self) -> (id: u16)
        ensures
            id == self@,
            id != 0,
    {
        proof {
            use_type_invariant(self);
        }
        self.packet_id
    }

    /// Sends a CONNECT (Clean Session) and waits for the CONNACK, with neither authentication nor
    /// Last Will.
    pub fn connect<E>(&self, client_id: &str, keep_alive_secs: u16) -> (step: Step<E>)
        ensures
            step@ == request_step::<E>(
                connect::connect_packet(client_id@, keep_alive_secs, connect::no_options()),
                Answer::Connack,
            ),
    {
        self.connect_with_options(client_id, keep_alive_secs, &ConnectOptions::default())
    }

    /// Sends a CONNECT (Clean Session) with options (authentication, Last Will) and waits for the
    /// CONNACK.
    pub fn connect_with_options<E>(
        &self,
        client_id: &str,
        keep_alive_secs: u16,
        options: &ConnectOptions<'_>,
    ) -> (step: Step<E>)
        ensures
            step@ == request_step::<E>(
                connect::connect_packet(client_id@, keep_alive_secs, options@),
                Answer::Connack,
            ),
    {
        match build_connect_packet(client_id, keep_alive_secs, options) {
            Ok(packet) => Step::Send(Request::new(packet, Answer::Connack)),
            Err(_) => Step::Done(Err(MqttError::PacketTooLarge)),
        }
    }

    /// Publishes a message with QoS 0 (fire and forget).
    pub fn publish<E>(&self, topic: &str, payload: &[u8]) -> (step: Step<E>)
        ensures
            step@ == request_step::<E>(
                publish::publish_packet(topic@, payload@),
                Answer::Nothing,
            ),
    {
        match build_publish_packet(topic, payload) {
            Ok(packet) => Step::Send(Request::new(packet, Answer::Nothing)),
            Err(_) => Step::Done(Err(MqttError::PacketTooLarge)),
        }
    }

    /// Sends a PINGREQ and waits for the PINGRESP.
    ///
    /// To be called before the keep-alive time of the connection has passed without any other
    /// packet sent, lest the broker take the client for dead.
    pub fn ping<E>(&self) -> (step: Step<E>)
        ensures
            step@ == StepView::<E>::Send(
                RequestView { bytes: ping::pingreq_packet(), answer: Answer::Pingresp },
            ),
    {
        Step::Send(Request::new(build_pingreq_packet(), Answer::Pingresp))
    }

    /// Subscribes to a topic with QoS 0, under the next packet identifier, and waits for the
    /// SUBACK. The identifier counts as used even where the packet is too long.
    pub fn subscribe<E>(&mut self, topic: &str) -> (step: Step<E>)
        ensures
            final(self)@ == subscribe::packet_id_after(old(self)@),
            step@ == request_step::<E>(
                subscribe::subscribe_packet(topic@, final(self)@),
                Answer::Suback,
            ),
    {
        self.packet_id = next_packet_id(self.packet_id);
        match build_subscribe_packet(topic, self.packet_id) {
            Ok(packet) => Step::Send(Request::new(packet, Answer::Suback)),
            Err(_) => Step::Done(Err(MqttError::PacketTooLarge)),
        }
    }

    /// Waits for the next message, whose packet may have a body of up to `capacity` bytes.
    pub fn receive<E>(&self, capacity: usize) -> (step: ReceiveStep<E>)
        ensures
            step@ == ReceiveView::<E>::Head(HeadView::Header { capacity: capacity as nat }),
    {
        ReceiveStep::Head(PacketHead::new(capacity))
    }
}

} // verus!
