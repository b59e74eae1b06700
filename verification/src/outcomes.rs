//! How each operation ends, told by the bytes that come in.
//!
//! [`session`](crate::session) performs the steps of an operation on a stream; here stands what
//! becomes of each stream, and what one step does.

use crate::client;
use crate::connect;
use crate::connect::ConnectOptionsView;
use crate::error::MqttError;
use crate::exchange;
use crate::exchange::{Answer, ReplyView, RequestView, Step, StepView};
use crate::ping;
use crate::publish;
use crate::publish::{IncomingMessage, MessageView};
use crate::receive;
use crate::receive::{HeadView, OtherBodyView, PublishBodyView, ReceiveStep, ReceiveView};
use crate::remaining_length;
use crate::remaining_length::LengthField;
use crate::session;
use crate::session::Outcome;
use crate::subscribe;
use crate::wire;
use vstd::prelude::*;

verus! {

// ---------------------------------------------------------------------------
// Steps
// ---------------------------------------------------------------------------

/// What a step says is what it holds.
pub proof fn law_step_view<E>(step: Step<E>)
    ensures
        step matches Step::Send(request) ==> step@ == StepView::<E>::Send(request@),
        step matches Step::Fetch(reply) ==> step@ == StepView::<E>::Fetch(reply@),
        step matches Step::Done(result) ==> step@ == StepView::<E>::Done(result),
{
}

/// What a step of receiving says is what it holds, and the result of a receive is its message or
/// its error.
pub proof fn law_receive_step_view<'buf, E>(
    step: ReceiveStep<E>,
    message: IncomingMessage<'buf>,
    error: MqttError<E>,
)
    ensures
        step matches ReceiveStep::Head(head) ==> step@ == ReceiveView::<E>::Head(head@),
        step matches ReceiveStep::Skip(body) ==> step@ == ReceiveView::<E>::Skip(body@),
        step matches ReceiveStep::Body(body) ==> step@ == ReceiveView::<E>::Body(body@),
        step matches ReceiveStep::Failed(e) ==> step@ == ReceiveView::<E>::Failed(e),
        receive::message_result::<E>(Ok(message)) == Ok::<MessageView, MqttError<E>>(
            MessageView { topic: message.topic@, payload: message.payload@ },
        ),
        receive::message_result::<E>(Err(error)) == Err::<MessageView, MqttError<E>>(error),
{
}

/// A request starts with its packet, as it is, if that is not longer than 256 bytes, and is refused
/// otherwise.
pub proof fn law_first_step<E>(packet: Seq<u8>, answer: Answer)
    ensures
        client::request_step::<E>(packet, answer) == (if packet.len() <= 256 {
            StepView::<E>::Send(RequestView { bytes: packet, answer })
        } else {
            StepView::<E>::Done(Err(MqttError::PacketTooLarge))
        }),
{
}

/// One step of an exchange: a write that succeeds is followed by the answer called for, one that
/// fails by the end; a read takes the bytes wanted off the stream, or all of them where they are too
/// few, and then counts as failed; and what is done stays as it is.
pub proof fn law_exchange_step<E>(step: StepView<E>, stream: Seq<u8>, written: Result<(), E>)
    ensures
        match step {
            StepView::Send(request) => {
                let next = exchange::after_sending::<E>(request.answer, written);
                &&& next !is Send
                &&& session::run_exchange(step, stream, written) == session::run_exchange(
                    next,
                    stream,
                    written,
                )
                &&& session::exchange_writes(step, stream, written) == seq![request.bytes]
                    + session::exchange_writes(next, stream, written)
            },
            StepView::Fetch(reply) => {
                let enough = reply.wanted() <= stream.len();
                let next = reply.after_fetching::<E>(
                    if enough {
                        Some(stream.take(reply.wanted() as int))
                    } else {
                        None
                    },
                );
                let rest = if enough {
                    stream.skip(reply.wanted() as int)
                } else {
                    Seq::empty()
                };
                &&& next !is Send
                &&& session::run_exchange(step, stream, written) == session::run_exchange(
                    next,
                    rest,
                    written,
                )
                &&& session::exchange_writes(step, stream, written) == session::exchange_writes(
                    next,
                    rest,
                    written,
                )
            },
            StepView::Done(result) => {
                &&& session::run_exchange(step, stream, written) == (Outcome::<(), E> {
                    result,
                    rest: stream,
                })
                &&& session::exchange_writes(step, stream, written) == Seq::<Seq<u8>>::empty()
            },
        },
{
}

/// One step of receiving: a read takes the bytes wanted off the stream, or all of them where they
/// are too few, and then counts as failed.
pub proof fn law_receive_step<E>(step: ReceiveView<E>, stream: Seq<u8>)
    ensures
        session::run_receive(step, stream) == (match step {
            ReceiveView::Head(head) => if stream.len() >= 1 {
                session::run_receive(head.after_fetching::<E>(Some(stream[0])), stream.skip(1))
            } else {
                session::run_receive(head.after_fetching::<E>(None), Seq::empty())
            },
            ReceiveView::Skip(body) => if stream.len() >= body.len {
                session::run_receive(
                    body.after_fetching::<E>(true),
                    stream.skip(body.len as int),
                )
            } else {
                session::run_receive(body.after_fetching::<E>(false), Seq::empty())
            },
            ReceiveView::Body(body) => if stream.len() >= body.len {
                Outcome {
                    result: body.after_fetching::<E>(Some(stream.take(body.len as int))),
                    rest: stream.skip(body.len as int),
                }
            } else {
                Outcome { result: body.after_fetching::<E>(None), rest: Seq::empty() }
            },
            ReceiveView::Failed(error) => Outcome { result: Err(error), rest: stream },
        }),
{
}

/// A read that fails ends the exchange with the error of the answer that was awaited; one that gives
/// another number of bytes than were wanted counts as failed.
pub proof fn law_failed_read_ends_the_exchange<E>(
    header: u8,
    read: Seq<u8>,
    len: nat,
    reply: ReplyView,
    bytes: Seq<u8>,
)
    ensures
        ReplyView::Connack.after_fetching::<E>(None) == StepView::<E>::Done(
            Err(MqttError::ConnackInvalid),
        ),
        ReplyView::Pingresp.after_fetching::<E>(None) == StepView::<E>::Done(
            Err(MqttError::PingFailed),
        ),
        ReplyView::SubackHeader.after_fetching::<E>(None) == StepView::<E>::Done(
            Err(MqttError::SubackInvalid),
        ),
        (ReplyView::SubackLength { header, read }).after_fetching::<E>(None) == StepView::<
            E,
        >::Done(Err(MqttError::UnexpectedPacket)),
        (ReplyView::SubackBody { header, len }).after_fetching::<E>(None) == StepView::<E>::Done(
            Err(MqttError::SubackInvalid),
        ),
        bytes.len() != reply.wanted() ==> reply.after_fetching::<E>(Some(bytes))
            == reply.after_fetching::<E>(None),
{
}

/// A read that fails ends receiving with the same error everywhere; one that gives another number of
/// bytes than the body has counts as failed.
pub proof fn law_failed_read_ends_receiving<E>(
    head: HeadView,
    other: OtherBodyView,
    publish: PublishBodyView,
    bytes: Seq<u8>,
)
    ensures
        head.after_fetching::<E>(None) == ReceiveView::<E>::Failed(MqttError::UnexpectedPacket),
        other.after_fetching::<E>(false) == ReceiveView::<E>::Failed(MqttError::UnexpectedPacket),
        publish.after_fetching::<E>(None) == Err::<MessageView, MqttError<E>>(
            MqttError::UnexpectedPacket,
        ),
        bytes.len() != publish.len ==> publish.after_fetching::<E>(Some(bytes)) == Err::<
            MessageView,
            MqttError<E>,
        >(MqttError::UnexpectedPacket),
{
}

// ---------------------------------------------------------------------------
// Requests
// ---------------------------------------------------------------------------

/// How a connection ends with each stream. Four bytes are taken off it. They have to be there, and
/// to start with 0x20 and 0x02, for the answer to be valid; the fourth is then the return code,
/// which accepts where it is 0 and refuses otherwise, and the third does not matter.
pub proof fn law_connect_outcome<E>(
    client_id: Seq<char>,
    keep_alive_secs: u16,
    options: ConnectOptionsView,
    stream: Seq<u8>,
)
    requires
        connect::connect_packet(client_id, keep_alive_secs, options).len() <= 256,
    ensures
        session::run_exchange(
            client::request_step::<E>(
                connect::connect_packet(client_id, keep_alive_secs, options),
                Answer::Connack,
            ),
            stream,
            Ok(()),
        ) == session::connack_from::<E>(stream),
        session::connack_from::<E>(stream) == (Outcome::<(), E> {
            result: if stream.len() < 4 || stream[0] != 0x20 || stream[1] != 0x02 {
                Err(MqttError::ConnackInvalid)
            } else if stream[3] != 0 {
                Err(MqttError::ConnectionRefused(stream[3]))
            } else {
                Ok(())
            },
            rest: if stream.len() < 4 {
                Seq::empty()
            } else {
                stream.skip(4)
            },
        }),
{
    session::law_connect::<E>(client_id, keep_alive_secs, options, stream);
}

/// A connection is refused with exactly the return code that the broker gave.
pub proof fn law_refusal_names_the_code<E>(flags: u8, code: u8, rest: Seq<u8>)
    requires
        code != 0,
    ensures
        session::connack_from::<E>(seq![0x20u8, 0x02, flags, code] + rest) == (Outcome::<(), E> {
            result: Err(MqttError::ConnectionRefused(code)),
            rest,
        }),
{
    let stream = seq![0x20u8, 0x02, flags, code] + rest;
    assert(stream.skip(4) =~= rest);
    assert(stream.take(4) =~= seq![0x20u8, 0x02, flags, code]);
}

/// How a ping ends with each stream. Two bytes are taken off it; it succeeds where they are 0xD0 and
/// 0x00, and fails otherwise.
pub proof fn law_ping_outcome<E>(stream: Seq<u8>)
    ensures
        session::run_exchange(
            StepView::<E>::Send(
                RequestView { bytes: ping::pingreq_packet(), answer: Answer::Pingresp },
            ),
            stream,
            Ok(()),
        ) == (Outcome::<(), E> {
            result: if stream.len() >= 2 && stream[0] == 0xD0 && stream[1] == 0x00 {
                Ok(())
            } else {
                Err(MqttError::PingFailed)
            },
            rest: if stream.len() < 2 {
                Seq::empty()
            } else {
                stream.skip(2)
            },
        }),
{
    session::law_ping::<E>(stream);
}

/// How a subscription ends with each stream. The header byte, the Remaining Length and the body of
/// the next packet are taken off it. A length that is cut off or malformed is an unexpected packet;
/// a body of less than three or more than eight bytes, or one that is cut off, or a header byte
/// other than 0x90, is an invalid SUBACK; and the third byte of the body refuses where it is 0x80.
#[verifier::spinoff_prover]
pub proof fn law_subscribe_outcome<E>(topic: Seq<char>, packet_id: u16, stream: Seq<u8>)
    requires
        subscribe::subscribe_packet(topic, packet_id).len() <= 256,
    ensures
        session::run_exchange(
            client::request_step::<E>(
                subscribe::subscribe_packet(topic, packet_id),
                Answer::Suback,
            ),
            stream,
            Ok(()),
        ) == (if stream.len() == 0 {
            Outcome::<(), E> { result: Err(MqttError::SubackInvalid), rest: Seq::empty() }
        } else {
            match remaining_length::length_field(stream.skip(1)) {
                LengthField::Incomplete => Outcome::<(), E> {
                    result: Err(MqttError::UnexpectedPacket),
                    rest: Seq::empty(),
                },
                LengthField::Malformed => Outcome::<(), E> {
                    result: Err(MqttError::UnexpectedPacket),
                    rest: stream.skip(5),
                },
                LengthField::Value { value, size } => if value < 3 || value > 8 {
                    Outcome::<(), E> {
                        result: Err(MqttError::SubackInvalid),
                        rest: stream.skip(1 + size as int),
                    }
                } else if stream.len() < 1 + size + value {
                    Outcome::<(), E> { result: Err(MqttError::SubackInvalid), rest: Seq::empty() }
                } else {
                    Outcome::<(), E> {
                        result: if stream[0] != 0x90 {
                            Err(MqttError::SubackInvalid)
                        } else if stream[size + 3int] == 0x80 {
                            Err(MqttError::SubscribeFailed)
                        } else {
                            Ok(())
                        },
                        rest: stream.skip(1 + size + value as int),
                    }
                },
            }
        }),
{
    session::law_subscribe::<E>(topic, packet_id, stream);
    if stream.len() >= 1 {
        let behind = stream.skip(1);
        wire::law_length_field_bytes(behind);
        match remaining_length::length_field(behind) {
            LengthField::Incomplete => {},
            LengthField::Malformed => {
                assert(behind.skip(4) =~= stream.skip(5));
            },
            LengthField::Value { value, size } => {
                let rest = behind.skip(size as int);
                assert(rest =~= stream.skip(1 + size as int));
                if value <= rest.len() {
                    assert(rest.skip(value as int) =~= stream.skip(1 + size + value as int));
                }
            },
        }
    }
}

// ---------------------------------------------------------------------------
// Messages
// ---------------------------------------------------------------------------

/// How receiving ends with each stream. The header byte, the Remaining Length and the body of the
/// next packet are taken off it. A packet that is cut off, or whose length is malformed, is
/// unexpected; one whose body is longer than the receiver can take is too large; one with another
/// header byte than those from 0x30 to 0x3F is dropped, and receiving goes on behind it; and one
/// with such a header byte gives its message, or is unexpected where it carries none.
#[verifier::spinoff_prover]
pub proof fn law_receive_outcome<E>(stream: Seq<u8>, capacity: nat)
    ensures
        session::run_receive(ReceiveView::<E>::Head(HeadView::Header { capacity }), stream) == (
        if stream.len() == 0 {
            Outcome::<MessageView, E> {
                result: Err(MqttError::UnexpectedPacket),
                rest: Seq::empty(),
            }
        } else {
            match remaining_length::length_field(stream.skip(1)) {
                LengthField::Incomplete => Outcome::<MessageView, E> {
                    result: Err(MqttError::UnexpectedPacket),
                    rest: Seq::empty(),
                },
                LengthField::Malformed => Outcome::<MessageView, E> {
                    result: Err(MqttError::UnexpectedPacket),
                    rest: stream.skip(5),
                },
                LengthField::Value { value, size } => {
                    let start = 1 + size as int;
                    let end = start + value;
                    if value > capacity {
                        Outcome::<MessageView, E> {
                            result: Err(MqttError::PacketTooLarge),
                            rest: stream.skip(start),
                        }
                    } else if stream.len() < end {
                        Outcome::<MessageView, E> {
                            result: Err(MqttError::UnexpectedPacket),
                            rest: Seq::empty(),
                        }
                    } else if stream[0] < 0x30 || stream[0] > 0x3F {
                        session::run_receive(
                            ReceiveView::<E>::Head(HeadView::Header { capacity }),
                            stream.skip(end),
                        )
                    } else {
                        Outcome::<MessageView, E> {
                            result: match publish::publish_message(
                                stream[0],
                                stream.subrange(start, end),
                            ) {
                                Some(message) => Ok(message),
                                None => Err(MqttError::UnexpectedPacket),
                            },
                            rest: stream.skip(end),
                        }
                    }
                },
            }
        }),
{
    session::law_receive::<E>(stream, capacity);
    if stream.len() >= 1 {
        let behind = stream.skip(1);
        wire::law_length_field_bytes(behind);
        match remaining_length::length_field(behind) {
            LengthField::Incomplete => {},
            LengthField::Malformed => {
                assert(behind.skip(4) =~= stream.skip(5));
            },
            LengthField::Value { value, size } => {
                let start = 1 + size as int;
                let rest = behind.skip(size as int);
                assert(rest =~= stream.skip(start));
                if value <= rest.len() {
                    assert(rest.skip(value as int) =~= stream.skip(start + value));
                    assert(rest.take(value as int) =~= stream.subrange(start, start + value));
                    session::law_receive::<E>(stream.skip(start + value), capacity);
                }
            },
        }
    }
}

} // verus!
