//! Waiting for the next message: what the transport has to read, and what becomes of it.
//!
//! Packets are read one after the other. Those that are no PUBLISH are read to their end and
//! dropped; the first PUBLISH is handed over.

use crate::error::MqttError;
use crate::publish;
use crate::publish::{is_publish, parse_publish, IncomingMessage, MessageView};
use crate::remaining_length;
use crate::remaining_length::{LengthProgress, LengthState, RemainingLengthReader};
use vstd::prelude::*;

verus! {

/// The part of the head of a packet that is to be read next.
enum Awaited {
    Header,
    Length { header: u8, length: RemainingLengthReader },
}

/// The head of a packet, which is being read: its header byte and its Remaining Length.
pub struct PacketHead {
    capacity: usize,
    awaited: Awaited,
}

/// The body of a packet that is no PUBLISH, which is to be read and dropped.
pub struct OtherBody {
    capacity: usize,
    len: usize,
}

/// The body of a PUBLISH packet, which is to be read and handed over.
pub struct PublishBody {
    header: u8,
    len: usize,
}

/// What comes next on the way to a message.
pub enum ReceiveStep<E> {
    /// Read one byte, and report with [`PacketHead::fetched`].
    Head(PacketHead),
    /// Read exactly the body, and report with [`OtherBody::fetched`].
    Skip(OtherBody),
    /// Read exactly the body, and report with [`PublishBody::fetched`].
    Body(PublishBody),
    /// Nothing: no message can be had.
    Failed(MqttError<E>),
}

// ---------------------------------------------------------------------------
// Model
// ---------------------------------------------------------------------------

/// What a [`PacketHead`] waits for. `capacity` is the length of the longest body that can be taken
/// in.
pub enum HeadView {
    /// The header byte.
    Header { capacity: nat },
    /// The next byte of the Remaining Length, behind the bytes `read`.
    Length { capacity: nat, header: u8, read: Seq<u8> },
}

/// What an [`OtherBody`] says.
pub struct OtherBodyView {
    pub capacity: nat,
    pub len: nat,
}

/// What a [`PublishBody`] says.
pub struct PublishBodyView {
    pub header: u8,
    pub len: nat,
}

/// What a [`ReceiveStep`] says.
pub enum ReceiveView<E> {
    Head(HeadView),
    Skip(OtherBodyView),
    Body(PublishBodyView),
    Failed(MqttError<E>),
}

impl View for PacketHead {
    type V = HeadView;

    closed spec fn view(&self) -> HeadView {
        match self.awaited {
            Awaited::Header => HeadView::Header { capacity: self.capacity as nat },
            Awaited::Length { header, length } => HeadView::Length {
                capacity: self.capacity as nat,
                header,
                read: length@,
            },
        }
    }
}

impl View for OtherBody {
    type V = OtherBodyView;

    closed spec fn view(&self) -> OtherBodyView {
        OtherBodyView { capacity: self.capacity as nat, len: self.len as nat }
    }
}

impl View for PublishBody {
    type V = PublishBodyView;

    closed spec fn view(&self) -> PublishBodyView {
        PublishBodyView { header: self.header, len: self.len as nat }
    }
}

impl<E> View for ReceiveStep<E> {
    type V = ReceiveView<E>;

    open spec fn view(&self) -> ReceiveView<E> {
        match *self {
            ReceiveStep::Head(head) => ReceiveView::Head(head@),
            ReceiveStep::Skip(body) => ReceiveView::Skip(body@),
            ReceiveStep::Body(body) => ReceiveView::Body(body@),
            ReceiveStep::Failed(error) => ReceiveView::Failed(error),
        }
    }
}

/// How receiving goes on once the head of a packet is known.
pub open spec fn after_head<E>(capacity: nat, header: u8, len: nat) -> ReceiveView<E> {
    if len > capacity {
        ReceiveView::Failed(MqttError::PacketTooLarge)
    } else if publish::is_publish_header(header) {
        ReceiveView::Body(PublishBodyView { header, len })
    } else {
        ReceiveView::Skip(OtherBodyView { capacity, len })
    }
}

impl HeadView {
    /// How receiving goes on with the next byte of the head.
    pub open spec fn after_reading<E>(self, byte: u8) -> ReceiveView<E> {
        match self {
            HeadView::Header { capacity } => ReceiveView::Head(
                HeadView::Length { capacity, header: byte, read: Seq::empty() },
            ),
            HeadView::Length { capacity, header, read } => match remaining_length::length_state(
                read.push(byte),
            ) {
                LengthState::More(longer) => ReceiveView::Head(
                    HeadView::Length { capacity, header, read: longer },
                ),
                LengthState::Complete(len) => after_head(capacity, header, len),
                LengthState::Malformed => ReceiveView::Failed(MqttError::UnexpectedPacket),
            },
        }
    }

    /// How receiving goes on with what the transport gave: a byte, or nothing where it failed.
    pub open spec fn after_fetching<E>(self, byte: Option<u8>) -> ReceiveView<E> {
        match byte {
            Some(byte) => self.after_reading(byte),
            None => ReceiveView::Failed(MqttError::UnexpectedPacket),
        }
    }
}

impl PublishBodyView {
    /// How receiving ends with the body of a PUBLISH.
    pub open spec fn after_reading<E>(self, body: Seq<u8>) -> Result<MessageView, MqttError<E>> {
        match publish::publish_message(self.header, body) {
            Some(message) => Ok(message),
            None => Err(MqttError::UnexpectedPacket),
        }
    }

    /// How receiving ends with what the transport gave: the body, or too little of it, or an error,
    /// which is as good as nothing.
    pub open spec fn after_fetching<E>(self, body: Option<Seq<u8>>) -> Result<
        MessageView,
        MqttError<E>,
    > {
        match body {
            Some(body) => if body.len() == self.len {
                self.after_reading(body)
            } else {
                Err(MqttError::UnexpectedPacket)
            },
            None => Err(MqttError::UnexpectedPacket),
        }
    }
}

impl OtherBodyView {
    /// How receiving goes on once the body is read, or where it cannot be.
    pub open spec fn after_fetching<E>(self, read: bool) -> ReceiveView<E> {
        if read {
            ReceiveView::Head(HeadView::Header { capacity: self.capacity })
        } else {
            ReceiveView::Failed(MqttError::UnexpectedPacket)
        }
    }
}

/// What the result of a receive says.
pub open spec fn message_result<'buf, E>(
    result: Result<IncomingMessage<'buf>, MqttError<E>>,
) -> Result<MessageView, MqttError<E>> {
    match result {
        Ok(message) => Ok(message@),
        Err(error) => Err(error),
    }
}

// ---------------------------------------------------------------------------
// Steps
// ---------------------------------------------------------------------------

impl PacketHead {
    /// The head of the next packet, whose body may be up to `capacity` bytes long.
    pub fn new(capacity: usize) -> (head: Self)
        ensures
            head@ == (HeadView::Header { capacity: capacity as nat }),
    {
        PacketHead { capacity, awaited: Awaited::Header }
    }

    /// Goes on with the byte that the transport gave, or `None` where it failed.
    pub fn fetched<E>(self, byte: Option<u8>) -> (step: ReceiveStep<E>)
        ensures
            step@ == self@.after_fetching::<E>(byte),
    {
        let byte: u8 = match byte {
            Some(byte) => byte,
            None => return ReceiveStep::Failed(MqttError::UnexpectedPacket),
        };
        let capacity: usize = self.capacity;
        match self.awaited {
            Awaited::Header => ReceiveStep::Head(
                PacketHead {
                    capacity,
                    awaited: Awaited::Length { header: byte, length: RemainingLengthReader::new() },
                },
            ),
            Awaited::Length { header, length } => match length.accept(byte) {
                LengthProgress::More(length) => ReceiveStep::Head(
                    PacketHead { capacity, awaited: Awaited::Length { header, length } },
                ),
                LengthProgress::Complete(len) => if len > capacity {
                    ReceiveStep::Failed(MqttError::PacketTooLarge)
                } else if is_publish(header) {
                    ReceiveStep::Body(PublishBody { header, len })
                } else {
                    ReceiveStep::Skip(OtherBody { capacity, len })
                },
                LengthProgress::Malformed => ReceiveStep::Failed(MqttError::UnexpectedPacket),
            },
        }
    }
}

impl OtherBody {
    /// How many bytes the body has.
    pub fn len(&self) -> (n: usize)
        ensures
            n == self@.len,
    {
        self.len
    }

    /// Goes on with the next packet once the body is read, or ends where the transport failed.
    pub fn fetched<E>(self, read: bool) -> (step: ReceiveStep<E>)
        ensures
            step@ == self@.after_fetching::<E>(read),
    {
        if read {
            ReceiveStep::Head(PacketHead::new(self.capacity))
        } else {
            ReceiveStep::Failed(MqttError::UnexpectedPacket)
        }
    }
}

impl PublishBody {
    /// How many bytes the body has.
    pub fn len(&self) -> (n: usize)
        ensures
            n == self@.len,
    {
        self.len
    }

    /// Ends with the message that the body carries. `None` is for a transport that failed; any
    /// other number of bytes than the body has counts as a failure too.
    pub fn fetched<'buf, E>(self, body: Option<&'buf [u8]>) -> (result: Result<
        IncomingMessage<'buf>,
        MqttError<E>,
    >)
        ensures
            message_result(result) == self@.after_fetching::<E>(
                match body {
                    Some(body) => Some(body@),
                    None => None,
                },
            ),
    {
        let body = match body {
            Some(body) => body,
            None => return Err(MqttError::UnexpectedPacket),
        };
        if body.len() != self.len {
            return Err(MqttError::UnexpectedPacket);
        }
        match parse_publish(self.header, body) {
            Ok(message) => Ok(message),
            Err(_) => Err(MqttError::UnexpectedPacket),
        }
    }
}

} // verus!
