//! What the transport has to do for a request, and what becomes of it.
//!
//! A request is a packet to write and, most often, an answer to read. [`Step`] says what comes
//! next; reporting how that went gives the next step, until the exchange is done.

use crate::builder::{PacketBuilder, MAX_PACKET_SIZE};
use crate::connect;
use crate::connect::{parse_connack, ConnackResult};
use crate::error::MqttError;
use crate::ping;
use crate::ping::is_pingresp;
use crate::remaining_length;
use crate::remaining_length::{LengthProgress, LengthState, RemainingLengthReader};
use crate::subscribe;
use crate::subscribe::{parse_suback, SubackResult};
use vstd::prelude::*;

verus! {

/// The greatest number of bytes that an exchange reads at once.
pub const MAX_REPLY_SIZE: usize = 8;

/// The answer that a request calls for.
#[derive(Clone, Copy, Debug, PartialEq, Eq, Structural)]
pub enum Answer {
    /// None: the request is done once it is written.
    Nothing,
    /// A CONNACK.
    Connack,
    /// A PINGRESP.
    Pingresp,
    /// A SUBACK.
    Suback,
}

/// A packet to write, and the answer that it calls for.
pub struct Request {
    packet: PacketBuilder,
    answer: Answer,
}

/// The part of an answer that is to be read next.
enum Awaited {
    Connack,
    Pingresp,
    SubackHeader,
    SubackLength { header: u8, length: RemainingLengthReader },
    SubackBody { header: u8, len: usize },
}

/// An answer that is being read.
pub struct Reply {
    awaited: Awaited,
}

/// What comes next in an exchange.
pub enum Step<E> {
    /// Write the bytes of the request, and report with [`Request::sent`].
    Send(Request),
    /// Read exactly the bytes wanted, and report with [`Reply::fetched`].
    Fetch(Reply),
    /// Nothing: this is how the exchange ended.
    Done(Result<(), MqttError<E>>),
}

// ---------------------------------------------------------------------------
// Model
// ---------------------------------------------------------------------------

/// What a [`Request`] says.
pub struct RequestView {
    pub bytes: Seq<u8>,
    pub answer: Answer,
}

/// What a [`Reply`] waits for.
pub enum ReplyView {
    /// The four bytes of a CONNACK.
    Connack,
    /// The two bytes of a PINGRESP.
    Pingresp,
    /// The header byte of a SUBACK.
    SubackHeader,
    /// The next byte of the Remaining Length of a SUBACK, behind the bytes `read`.
    SubackLength { header: u8, read: Seq<u8> },
    /// The body of a SUBACK.
    SubackBody { header: u8, len: nat },
}

/// What a [`Step`] says.
pub enum StepView<E> {
    Send(RequestView),
    Fetch(ReplyView),
    Done(Result<(), MqttError<E>>),
}

impl View for Request {
    type V = RequestView;

    closed spec fn view(&self) -> RequestView {
        RequestView { bytes: self.packet@, answer: self.answer }
    }
}

impl View for Reply {
    type V = ReplyView;

    closed spec fn view(&self) -> ReplyView {
        match self.awaited {
            Awaited::Connack => ReplyView::Connack,
            Awaited::Pingresp => ReplyView::Pingresp,
            Awaited::SubackHeader => ReplyView::SubackHeader,
            Awaited::SubackLength { header, length } => ReplyView::SubackLength {
                header,
                read: length@,
            },
            Awaited::SubackBody { header, len } => ReplyView::SubackBody {
                header,
                len: len as nat,
            },
        }
    }
}

impl<E> View for Step<E> {
    type V = StepView<E>;

    open spec fn view(&self) -> StepView<E> {
        match *self {
            Step::Send(request) => StepView::Send(request@),
            Step::Fetch(reply) => StepView::Fetch(reply@),
            Step::Done(result) => StepView::Done(result),
        }
    }
}

/// How an exchange goes on with how the write of its request ended: a write that failed ends the
/// exchange with the error of the transport.
pub open spec fn after_sending<E>(answer: Answer, written: Result<(), E>) -> StepView<E> {
    match written {
        Ok(()) => match answer {
            Answer::Nothing => StepView::Done(Ok(())),
            Answer::Connack => StepView::Fetch(ReplyView::Connack),
            Answer::Pingresp => StepView::Fetch(ReplyView::Pingresp),
            Answer::Suback => StepView::Fetch(ReplyView::SubackHeader),
        },
        Err(e) => StepView::Done(Err(MqttError::Io(e))),
    }
}

/// How a connection attempt ends with the CONNACK `connack`.
pub open spec fn connack_outcome<E>(connack: Seq<u8>) -> Result<(), MqttError<E>> {
    match connect::connack_result(connack) {
        ConnackResult::Accepted => Ok(()),
        ConnackResult::Refused(code) => Err(MqttError::ConnectionRefused(code)),
        ConnackResult::Invalid => Err(MqttError::ConnackInvalid),
    }
}

/// How a ping ends with the answer `pingresp`.
pub open spec fn pingresp_outcome<E>(pingresp: Seq<u8>) -> Result<(), MqttError<E>> {
    if pingresp == ping::pingresp_packet() {
        Ok(())
    } else {
        Err(MqttError::PingFailed)
    }
}

/// How a subscription ends with a packet of this header byte and this body.
pub open spec fn suback_outcome<E>(header: u8, body: Seq<u8>) -> Result<(), MqttError<E>> {
    match subscribe::suback_result(header, body) {
        SubackResult::Accepted => Ok(()),
        SubackResult::Refused => Err(MqttError::SubscribeFailed),
        SubackResult::Invalid => Err(MqttError::SubackInvalid),
    }
}

impl ReplyView {
    /// How many bytes are to be read next.
    pub open spec fn wanted(self) -> nat {
        match self {
            ReplyView::Connack => 4,
            ReplyView::Pingresp => 2,
            ReplyView::SubackHeader => 1,
            ReplyView::SubackLength { .. } => 1,
            ReplyView::SubackBody { len, .. } => len,
        }
    }

    /// How the exchange ends where they cannot be read.
    pub open spec fn read_error<E>(self) -> MqttError<E> {
        match self {
            ReplyView::Connack => MqttError::ConnackInvalid,
            ReplyView::Pingresp => MqttError::PingFailed,
            ReplyView::SubackHeader => MqttError::SubackInvalid,
            ReplyView::SubackLength { .. } => MqttError::UnexpectedPacket,
            ReplyView::SubackBody { .. } => MqttError::SubackInvalid,
        }
    }

    /// How the exchange goes on with the bytes wanted.
    pub open spec fn after_reading<E>(self, bytes: Seq<u8>) -> StepView<E> {
        match self {
            ReplyView::Connack => StepView::Done(connack_outcome(bytes)),
            ReplyView::Pingresp => StepView::Done(pingresp_outcome(bytes)),
            ReplyView::SubackHeader => StepView::Fetch(
                ReplyView::SubackLength { header: bytes[0], read: Seq::empty() },
            ),
            ReplyView::SubackLength { header, read } => match remaining_length::length_state(
                read.push(bytes[0]),
            ) {
                LengthState::More(longer) => StepView::Fetch(
                    ReplyView::SubackLength { header, read: longer },
                ),
                LengthState::Complete(len) => if 3 <= len <= MAX_REPLY_SIZE {
                    StepView::Fetch(ReplyView::SubackBody { header, len })
                } else {
                    StepView::Done(Err(MqttError::SubackInvalid))
                },
                LengthState::Malformed => StepView::Done(Err(MqttError::UnexpectedPacket)),
            },
            ReplyView::SubackBody { header, .. } => StepView::Done(suback_outcome(header, bytes)),
        }
    }

    /// How the exchange goes on with what the transport gave: the bytes wanted, or too few, or an
    /// error, which is as good as none.
    pub open spec fn after_fetching<E>(self, bytes: Option<Seq<u8>>) -> StepView<E> {
        match bytes {
            Some(bytes) => if bytes.len() == self.wanted() {
                self.after_reading(bytes)
            } else {
                StepView::Done(Err(self.read_error()))
            },
            None => StepView::Done(Err(self.read_error())),
        }
    }
}

// ---------------------------------------------------------------------------
// Steps
// ---------------------------------------------------------------------------

impl Request {
    /// A request that writes `packet` and calls for `answer`.
    pub fn new(packet: PacketBuilder, answer: Answer) -> (request: Self)
        ensures
            request@ == (RequestView { bytes: packet@, answer }),
    {
        Request { packet, answer }
    }

    /// The bytes to write.
    pub fn bytes(&self) -> (bytes: &[u8])
        ensures
            bytes@ == self@.bytes,
            bytes@.len() <= MAX_PACKET_SIZE,
    {
        self.packet.as_slice()
    }

    /// Goes on once the bytes are written, or ends with the error of the transport.
    pub fn sent<E>(self, written: Result<(), E>) -> (step: Step<E>)
        ensures
            step@ == after_sending::<E>(self@.answer, written),
    {
        if let Err(e) = written {
            return Step::Done(Err(MqttError::from(e)));
        }
        match self.answer {
            Answer::Nothing => Step::Done(Ok(())),
            Answer::Connack => Step::Fetch(Reply { awaited: Awaited::Connack }),
            Answer::Pingresp => Step::Fetch(Reply { awaited: Awaited::Pingresp }),
            Answer::Suback => Step::Fetch(Reply { awaited: Awaited::SubackHeader }),
        }
    }
}

impl Reply {
    #[verifier::type_invariant]
    spec fn well_formed(self) -> bool {
        self.awaited matches Awaited::SubackBody { len, .. } ==> 3 <= len <= MAX_REPLY_SIZE
    }

    /// How many bytes are to be read next.
    pub fn wanted(&self) -> (n: usize)
        ensures
            n == self@.wanted(),
            1 <= n <= MAX_REPLY_SIZE,
    {
        proof {
            use_type_invariant(self);
        }
        match &self.awaited {
            Awaited::Connack => 4,
            Awaited::Pingresp => 2,
            Awaited::SubackHeader => 1,
            Awaited::SubackLength { .. } => 1,
            Awaited::SubackBody { len, .. } => *len,
        }
    }

    /// How the exchange ends where the bytes wanted cannot be read.
    fn failed<E>(&self) -> (step: Step<E>)
        ensures
            step@ == StepView::<E>::Done(Err(self@.read_error())),
    {
        match &self.awaited {
            Awaited::Connack => Step::Done(Err(MqttError::ConnackInvalid)),
            Awaited::Pingresp => Step::Done(Err(MqttError::PingFailed)),
            Awaited::SubackHeader => Step::Done(Err(MqttError::SubackInvalid)),
            Awaited::SubackLength { .. } => Step::Done(Err(MqttError::UnexpectedPacket)),
            Awaited::SubackBody { .. } => Step::Done(Err(MqttError::SubackInvalid)),
        }
    }

    /// Goes on with what the transport gave: the bytes wanted, or `None` where it failed. Any
    /// other number of bytes counts as a failure too.
    pub fn fetched<E>(self, bytes: Option<&[u8]>) -> (step: Step<E>)
        ensures
            step@ == self@.after_fetching::<E>(
                match bytes {
                    Some(bytes) => Some(bytes@),
                    None => None,
                },
            ),
    {
        let bytes = match bytes {
            Some(bytes) => bytes,
            None => return self.failed(),
        };
        if bytes.len() != self.wanted() {
            return self.failed();
        }
        match self.awaited {
            Awaited::Connack => {
                let connack = [bytes[0], bytes[1], bytes[2], bytes[3]];
                assert(connack@ =~= bytes@);
                Step::Done(
                    match parse_connack(connack) {
                        ConnackResult::Accepted => Ok(()),
                        ConnackResult::Refused(code) => Err(MqttError::ConnectionRefused(code)),
                        ConnackResult::Invalid => Err(MqttError::ConnackInvalid),
                    },
                )
            },
            Awaited::Pingresp => {
                let pingresp = [bytes[0], bytes[1]];
                assert(pingresp@ =~= bytes@);
                if is_pingresp(pingresp) {
                    Step::Done(Ok(()))
                } else {
                    Step::Done(Err(MqttError::PingFailed))
                }
            },
            Awaited::SubackHeader => Step::Fetch(
                Reply {
                    awaited: Awaited::SubackLength {
                        header: bytes[0],
                        length: RemainingLengthReader::new(),
                    },
                },
            ),
            Awaited::SubackLength { header, length } => match length.accept(bytes[0]) {
                LengthProgress::More(length) => Step::Fetch(
                    Reply { awaited: Awaited::SubackLength { header, length } },
                ),
                LengthProgress::Complete(len) => if 3 <= len && len <= MAX_REPLY_SIZE {
                    Step::Fetch(Reply { awaited: Awaited::SubackBody { header, len } })
                } else {
                    Step::Done(Err(MqttError::SubackInvalid))
                },
                LengthProgress::Malformed => Step::Done(Err(MqttError::UnexpectedPacket)),
            },
            Awaited::SubackBody { header, .. } => Step::Done(
                match parse_suback(header, bytes) {
                    SubackResult::Accepted => Ok(()),
                    SubackResult::Refused => Err(MqttError::SubscribeFailed),
                    SubackResult::Invalid => Err(MqttError::SubackInvalid),
                },
            ),
        }
    }
}

} // verus!
