//! A minimal MQTT v3.1.1 client, verified, without input or output of its own.
//!
//! It supports QoS 0 (fire and forget), authentication by user name and password, the Last Will
//! and Testament, the keep-alive by PINGREQ, subscriptions (SUBSCRIBE) and the reception of
//! messages (incoming PUBLISH). Packets are built in buffers of fixed size; nothing is allocated
//! on the heap.
//!
//! [`MqttClient`] starts every operation, and each operation tells the caller, step by step, what
//! to write to the transport and what to read from it:
//!
//! - [`exchange`] holds the steps of a request and its answer,
//! - [`receive`] those of waiting for a message,
//! - [`session`] what whole operations come to, as laws over the bytes that a transport delivers,
//! - [`outcomes`] how each operation ends, for every stream of such bytes.
//!
//! The packets themselves are in [`connect`], [`publish`], [`subscribe`] and [`ping`], on top of
//! [`packet`] (framing), [`fields`] and [`remaining_length`] (encodings) and [`builder`] (the
//! buffer). [`wire`] says where each packet has what, byte by byte, and what a broker reads in it.

#![allow(unused_imports)]

pub mod builder;
pub mod client;
pub mod connect;
pub mod error;
pub mod exchange;
pub mod fields;
pub mod outcomes;
pub mod packet;
pub mod ping;
pub mod publish;
pub mod receive;
pub mod remaining_length;
pub mod session;
pub mod subscribe;
pub mod wire;

pub use builder::{PacketBuilder, MAX_PACKET_SIZE};
pub use client::MqttClient;
pub use connect::{build_connect_packet, parse_connack, ConnackResult, ConnectOptions, LastWill};
pub use error::MqttError;
pub use exchange::{Reply, Request, Step, MAX_REPLY_SIZE};
pub use fields::push_string_field;
pub use publish::{build_publish_packet, parse_publish, publish_layout, IncomingMessage};
pub use receive::{OtherBody, PacketHead, PublishBody, ReceiveStep};
pub use remaining_length::{encode_remaining_length, LengthProgress, RemainingLengthReader};
pub use subscribe::{build_subscribe_packet, next_packet_id, parse_suback, SubackResult};
