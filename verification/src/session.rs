//! Whole operations, from the first step to the last.
//!
//! The transport is taken as a stream, the bytes that it will deliver before it fails, and as the
//! way in which a write to it ends. A read of more bytes than are left takes them all and fails.
//! Each operation is then a function of the two, to its result and to the part of the stream that
//! it leaves unread. What it writes is such a function too; receiving has no step that writes.

use crate::builder::MAX_PACKET_SIZE;
use crate::client;
use crate::connect;
use crate::connect::ConnectOptionsView;
use crate::error::MqttError;
use crate::exchange;
use crate::exchange::{Answer, ReplyView, RequestView, StepView, MAX_REPLY_SIZE};
use crate::packet;
use crate::ping;
use crate::publish;
use crate::publish::MessageView;
use crate::receive;
use crate::receive::{HeadView, ReceiveView};
use crate::remaining_length;
use crate::remaining_length::{LengthField, LengthState};
use crate::subscribe;
use crate::subscribe::SubackResult;
use vstd::prelude::*;

verus! {

/// How an operation ended, and what it left unread.
pub struct Outcome<T, E> {
    pub result: Result<T, MqttError<E>>,
    pub rest: Seq<u8>,
}

/// The outcome of a read that failed: nothing is left.
pub open spec fn failed_read<T, E>(error: MqttError<E>) -> Outcome<T, E> {
    Outcome { result: Err(error), rest: Seq::empty() }
}

// ---------------------------------------------------------------------------
// Requests
// ---------------------------------------------------------------------------

/// How far an exchange is from its end, among steps that read nothing.
pub open spec fn step_rank<E>(step: StepView<E>) -> nat {
    match step {
        StepView::Send(_) => 2,
        StepView::Fetch(_) => 1,
        StepView::Done(_) => 0,
    }
}

/// The outcome of an exchange that goes on with `step`, each step performed on the stream, and
/// each write ending as `written` says.
pub open spec fn run_exchange<E>(
    step: StepView<E>,
    stream: Seq<u8>,
    written: Result<(), E>,
) -> Outcome<(), E>
    decreases stream.len(), step_rank(step),
{
    match step {
        StepView::Send(request) => run_exchange(
            exchange::after_sending::<E>(request.answer, written),
            stream,
            written,
        ),
        StepView::Fetch(reply) => if stream.len() < reply.wanted() {
            run_exchange(reply.after_fetching::<E>(None), Seq::empty(), written)
        } else {
            run_exchange(
                reply.after_fetching::<E>(Some(stream.take(reply.wanted() as int))),
                stream.skip(reply.wanted() as int),
                written,
            )
        },
        StepView::Done(result) => Outcome { result, rest: stream },
    }
}

/// What the same exchange hands to the transport to write, one write behind the other.
pub open spec fn exchange_writes<E>(
    step: StepView<E>,
    stream: Seq<u8>,
    written: Result<(), E>,
) -> Seq<Seq<u8>>
    decreases stream.len(), step_rank(step),
{
    match step {
        StepView::Send(request) => seq![request.bytes] + exchange_writes(
            exchange::after_sending::<E>(request.answer, written),
            stream,
            written,
        ),
        StepView::Fetch(reply) => if stream.len() < reply.wanted() {
            exchange_writes(reply.after_fetching::<E>(None), Seq::empty(), written)
        } else {
            exchange_writes(
                reply.after_fetching::<E>(Some(stream.take(reply.wanted() as int))),
                stream.skip(reply.wanted() as int),
                written,
            )
        },
        StepView::Done(_) => Seq::empty(),
    }
}

/// The outcome of waiting for a CONNACK.
pub open spec fn connack_from<E>(stream: Seq<u8>) -> Outcome<(), E> {
    if stream.len() < 4 {
        failed_read(MqttError::ConnackInvalid)
    } else {
        Outcome { result: exchange::connack_outcome(stream.take(4)), rest: stream.skip(4) }
    }
}

/// The outcome of waiting for a PINGRESP.
pub open spec fn pingresp_from<E>(stream: Seq<u8>) -> Outcome<(), E> {
    if stream.len() < 2 {
        failed_read(MqttError::PingFailed)
    } else {
        Outcome { result: exchange::pingresp_outcome(stream.take(2)), rest: stream.skip(2) }
    }
}

/// The outcome of waiting for a SUBACK behind its header byte.
pub open spec fn suback_body_from<E>(header: u8, field: LengthField, stream: Seq<u8>) -> Outcome<
    (),
    E,
> {
    match field {
        LengthField::Incomplete => failed_read(MqttError::UnexpectedPacket),
        LengthField::Malformed => Outcome {
            result: Err(MqttError::UnexpectedPacket),
            rest: stream.skip(remaining_length::MAX_LENGTH_BYTES as int),
        },
        LengthField::Value { value, size } => {
            let rest = stream.skip(size as int);
            if value < 3 || value > MAX_REPLY_SIZE {
                Outcome { result: Err(MqttError::SubackInvalid), rest }
            } else if rest.len() < value {
                failed_read(MqttError::SubackInvalid)
            } else {
                Outcome {
                    result: exchange::suback_outcome(header, rest.take(value as int)),
                    rest: rest.skip(value as int),
                }
            }
        },
    }
}

/// The outcome of waiting for a SUBACK.
pub open spec fn suback_from<E>(stream: Seq<u8>) -> Outcome<(), E> {
    if stream.len() < 1 {
        failed_read(MqttError::SubackInvalid)
    } else {
        suback_body_from(stream[0], remaining_length::length_field(stream.skip(1)), stream.skip(1))
    }
}

/// A request writes its packet, once, and nothing else, whatever the transport delivers and however
/// the write ends; a request whose packet is too long writes nothing.
pub proof fn law_request_writes_its_packet<E>(
    packet: Seq<u8>,
    answer: Answer,
    stream: Seq<u8>,
    written: Result<(), E>,
)
    ensures
        exchange_writes(client::request_step::<E>(packet, answer), stream, written) == (
        if packet.len() <= MAX_PACKET_SIZE {
            seq![packet]
        } else {
            Seq::<Seq<u8>>::empty()
        }),
{
    if packet.len() <= MAX_PACKET_SIZE {
        let next = exchange::after_sending::<E>(answer, written);
        if let StepView::Fetch(reply) = next {
            lemma_reply_writes_nothing::<E>(reply, stream, written);
        }
        assert(exchange_writes(next, stream, written) =~= Seq::<Seq<u8>>::empty());
        assert(seq![packet] + Seq::<Seq<u8>>::empty() =~= seq![packet]);
    }
}

/// Reading an answer writes nothing.
proof fn lemma_reply_writes_nothing<E>(
    reply: ReplyView,
    stream: Seq<u8>,
    written: Result<(), E>,
)
    ensures
        exchange_writes(StepView::<E>::Fetch(reply), stream, written)
            == Seq::<Seq<u8>>::empty(),
    decreases stream.len(),
{
    let wanted = reply.wanted() as int;
    if stream.len() < wanted {
        let next = reply.after_fetching::<E>(None);
        assert(exchange_writes(next, Seq::empty(), written) == Seq::<Seq<u8>>::empty());
    } else {
        let next = reply.after_fetching::<E>(Some(stream.take(wanted)));
        if let StepView::Fetch(following) = next {
            lemma_reply_writes_nothing::<E>(following, stream.skip(wanted), written);
        } else {
            assert(exchange_writes(next, stream.skip(wanted), written)
                == Seq::<Seq<u8>>::empty());
        }
    }
}

/// A write that fails ends the request with the error of the transport, and nothing is read.
pub proof fn law_failed_write_ends_the_request<E>(
    packet: Seq<u8>,
    answer: Answer,
    stream: Seq<u8>,
    error: E,
)
    requires
        packet.len() <= MAX_PACKET_SIZE,
    ensures
        run_exchange(client::request_step::<E>(packet, answer), stream, Err(error)) == (Outcome::<
            (),
            E,
        > { result: Err(MqttError::Io(error)), rest: stream }),
{
    reveal_with_fuel(run_exchange, 2);
}

/// A request whose packet is too long is refused, and nothing is read for it.
pub proof fn law_too_large_is_refused<E>(
    packet: Seq<u8>,
    answer: Answer,
    stream: Seq<u8>,
    written: Result<(), E>,
)
    requires
        packet.len() > MAX_PACKET_SIZE,
    ensures
        client::request_step::<E>(packet, answer) == StepView::<E>::Done(
            Err(MqttError::PacketTooLarge),
        ),
        run_exchange(client::request_step::<E>(packet, answer), stream, written) == (Outcome::<
            (),
            E,
        > { result: Err(MqttError::PacketTooLarge), rest: stream }),
{
}

/// A ping is a request whose packet fits.
pub proof fn law_ping_fits<E>()
    ensures
        client::request_step::<E>(ping::pingreq_packet(), Answer::Pingresp) == StepView::<E>::Send(
            RequestView { bytes: ping::pingreq_packet(), answer: Answer::Pingresp },
        ),
{
}

/// A connection whose packet fits ends as the four bytes of the answer say, and is accepted only
/// with return code 0.
pub proof fn law_connect<E>(
    client_id: Seq<char>,
    keep_alive_secs: u16,
    options: ConnectOptionsView,
    stream: Seq<u8>,
)
    requires
        connect::connect_packet(client_id, keep_alive_secs, options).len() <= MAX_PACKET_SIZE,
    ensures
        run_exchange(
            client::request_step::<E>(
                connect::connect_packet(client_id, keep_alive_secs, options),
                Answer::Connack,
            ),
            stream,
            Ok(()),
        ) == connack_from::<E>(stream),
        connack_from::<E>(stream).result is Ok <==> stream.len() >= 4 && stream[0] == 0x20
            && stream[1] == 0x02 && stream[3] == 0x00,
{
    reveal_with_fuel(run_exchange, 4);
}

/// A message whose packet fits is published without waiting for anything.
pub proof fn law_publish<E>(topic: Seq<char>, payload: Seq<u8>, stream: Seq<u8>)
    requires
        publish::publish_packet(topic, payload).len() <= MAX_PACKET_SIZE,
    ensures
        run_exchange(
            client::request_step::<E>(publish::publish_packet(topic, payload), Answer::Nothing),
            stream,
            Ok(()),
        ) == (Outcome::<(), E> { result: Ok(()), rest: stream }),
{
    reveal_with_fuel(run_exchange, 3);
}

/// A ping succeeds exactly where the next two bytes are a PINGRESP.
pub proof fn law_ping<E>(stream: Seq<u8>)
    ensures
        run_exchange(
            StepView::<E>::Send(
                RequestView { bytes: ping::pingreq_packet(), answer: Answer::Pingresp },
            ),
            stream,
            Ok(()),
        ) == pingresp_from::<E>(stream),
        pingresp_from::<E>(stream).result is Ok <==> stream.len() >= 2 && stream[0] == 0xD0
            && stream[1] == 0x00,
{
    reveal_with_fuel(run_exchange, 4);
    if stream.len() >= 2 {
        let pingresp = stream.take(2);
        if stream[0] == 0xD0 && stream[1] == 0x00 {
            assert(pingresp =~= ping::pingresp_packet());
        } else {
            assert(pingresp[0] != 0xD0 || pingresp[1] != 0x00);
        }
    }
}

/// A subscription whose packet fits ends as the packet that comes next says. It succeeds exactly
/// where that packet is a SUBACK, all there, with a body of three to eight bytes and a return code
/// other than 0x80.
#[verifier::spinoff_prover]
pub proof fn law_subscribe<E>(topic: Seq<char>, packet_id: u16, stream: Seq<u8>)
    requires
        subscribe::subscribe_packet(topic, packet_id).len() <= MAX_PACKET_SIZE,
    ensures
        run_exchange(
            client::request_step::<E>(
                subscribe::subscribe_packet(topic, packet_id),
                Answer::Suback,
            ),
            stream,
            Ok(()),
        ) == suback_from::<E>(stream),
        suback_from::<E>(stream).result is Ok <==> {
            &&& stream.len() >= 1
            &&& stream[0] == 0x90
            &&& remaining_length::length_field(stream.skip(1)) matches LengthField::Value {
                value,
                size,
            }
            &&& 3 <= value <= MAX_REPLY_SIZE
            &&& 1 + size + value <= stream.len()
            &&& subscribe::suback_result(
                stream[0],
                stream.subrange(1 + size as int, 1 + size + value as int),
            ) == SubackResult::Accepted
        },
{
    reveal_with_fuel(run_exchange, 3);
    if stream.len() >= 1 {
        let header = stream[0];
        let behind = stream.skip(1);
        remaining_length::law_length_canonical(behind);
        if let LengthField::Value { value, size } = remaining_length::length_field(behind) {
            let rest = behind.skip(size as int);
            if value <= rest.len() {
                assert(rest.take(value as int) =~= stream.subrange(
                    1 + size as int,
                    1 + size + value as int,
                ));
            }
        }
        assert(stream.take(1)[0] == header);
        lemma_suback_length::<E>(header, Seq::empty(), behind);
        remaining_length::law_reader_finds_length_field(behind);
    }
}

/// An exchange ends with a read that fails.
proof fn lemma_exchange_fails<E>(error: MqttError<E>)
    ensures
        run_exchange(StepView::<E>::Done(Err(error)), Seq::empty(), Ok(())) == failed_read::<(), E>(
            error,
        ),
{
}

/// Reading the Remaining Length of a SUBACK, and then its body.
#[verifier::spinoff_prover]
proof fn lemma_suback_length<E>(header: u8, read: Seq<u8>, stream: Seq<u8>)
    requires
        read.len() < remaining_length::MAX_LENGTH_BYTES,
    ensures
        run_exchange(
            StepView::<E>::Fetch(ReplyView::SubackLength { header, read }),
            stream,
            Ok(()),
        ) == match remaining_length::read_length(read, stream) {
            LengthField::Malformed => Outcome {
                result: Err(MqttError::UnexpectedPacket),
                rest: stream.skip(remaining_length::MAX_LENGTH_BYTES - read.len()),
            },
            field => suback_body_from::<E>(header, field, stream),
        },
    decreases stream.len(),
{
    lemma_exchange_fails::<E>(MqttError::UnexpectedPacket);
    lemma_exchange_fails::<E>(MqttError::SubackInvalid);
    if stream.len() >= 1 {
        let reply = ReplyView::SubackLength { header, read };
        let next = reply.after_reading::<E>(stream.take(1));
        let behind = stream.skip(1);
        assert(stream.take(1)[0] == stream[0]);
        assert(behind =~= stream.drop_first());
        assert(run_exchange(StepView::<E>::Fetch(reply), stream, Ok(())) == run_exchange(
            next,
            behind,
            Ok(()),
        ));
        let longer = read.push(stream[0]);
        match remaining_length::length_state(longer) {
            LengthState::More(_) => {
                lemma_suback_length::<E>(header, longer, behind);
                remaining_length::lemma_read_length_bounds(longer, behind);
                match remaining_length::read_length(longer, behind) {
                    LengthField::Value { value, size } => {
                        assert(behind.skip(size as int) =~= stream.skip(size as int + 1));
                    },
                    LengthField::Incomplete => {},
                    LengthField::Malformed => {
                        let left = remaining_length::MAX_LENGTH_BYTES - longer.len();
                        assert(behind.skip(left) =~= stream.skip(left + 1));
                    },
                }
            },
            LengthState::Complete(value) => {
                reveal_with_fuel(run_exchange, 2);
            },
            LengthState::Malformed => {},
        }
    }
}

/// A SUBACK with a body of three to eight bytes decides the subscription by its return code, and
/// what follows it is left unread.
pub proof fn law_suback_decides<E>(length: Seq<u8>, body: Seq<u8>, rest: Seq<u8>)
    requires
        remaining_length::encodes_length(length, body.len()),
        3 <= body.len() <= MAX_REPLY_SIZE,
    ensures
        suback_from::<E>(packet::framed_with(0x90, length, body) + rest) == (Outcome::<(), E> {
            result: if body[2] == 0x80 {
                Err(MqttError::SubscribeFailed)
            } else {
                Ok(())
            },
            rest,
        }),
{
    packet::law_framing(0x90, length, body, rest);
    assert((body + rest).take(body.len() as int) =~= body);
    assert((body + rest).skip(body.len() as int) =~= rest);
}

// ---------------------------------------------------------------------------
// Receiving
// ---------------------------------------------------------------------------

/// How far receiving is from its end, among steps that read nothing.
pub open spec fn receive_rank<E>(step: ReceiveView<E>) -> nat {
    match step {
        ReceiveView::Skip(_) => 2,
        ReceiveView::Head(_) => 1,
        ReceiveView::Body(_) => 0,
        ReceiveView::Failed(_) => 0,
    }
}

/// The outcome of receiving that goes on with `step`, each step performed on the stream.
pub open spec fn run_receive<E>(step: ReceiveView<E>, stream: Seq<u8>) -> Outcome<MessageView, E>
    decreases stream.len(), receive_rank(step),
{
    match step {
        ReceiveView::Head(head) => if stream.len() < 1 {
            run_receive(head.after_fetching::<E>(None), Seq::empty())
        } else {
            run_receive(head.after_fetching::<E>(Some(stream[0])), stream.skip(1))
        },
        ReceiveView::Skip(body) => if stream.len() < body.len {
            run_receive(body.after_fetching::<E>(false), Seq::empty())
        } else {
            run_receive(body.after_fetching::<E>(true), stream.skip(body.len as int))
        },
        ReceiveView::Body(body) => if stream.len() < body.len {
            Outcome { result: body.after_fetching::<E>(None), rest: Seq::empty() }
        } else {
            Outcome {
                result: body.after_fetching::<E>(Some(stream.take(body.len as int))),
                rest: stream.skip(body.len as int),
            }
        },
        ReceiveView::Failed(error) => Outcome { result: Err(error), rest: stream },
    }
}

/// The message of the first PUBLISH packet in the stream, behind packets of other types, none of
/// which has a body longer than `capacity`.
pub open spec fn next_message<E>(stream: Seq<u8>, capacity: nat) -> Outcome<MessageView, E>
    decreases stream.len(),
{
    if stream.len() < 1 {
        failed_read(MqttError::UnexpectedPacket)
    } else {
        match remaining_length::length_field(stream.skip(1)) {
            LengthField::Incomplete => failed_read(MqttError::UnexpectedPacket),
            LengthField::Malformed => Outcome {
                result: Err(MqttError::UnexpectedPacket),
                rest: stream.skip(1).skip(remaining_length::MAX_LENGTH_BYTES as int),
            },
            LengthField::Value { value, size } => {
                let rest = stream.skip(1).skip(size as int);
                if value > capacity {
                    Outcome { result: Err(MqttError::PacketTooLarge), rest }
                } else if rest.len() < value {
                    failed_read(MqttError::UnexpectedPacket)
                } else if !publish::is_publish_header(stream[0]) {
                    next_message(rest.skip(value as int), capacity)
                } else {
                    Outcome {
                        result: match publish::publish_message(
                            stream[0],
                            rest.take(value as int),
                        ) {
                            Some(message) => Ok(message),
                            None => Err(MqttError::UnexpectedPacket),
                        },
                        rest: rest.skip(value as int),
                    }
                }
            },
        }
    }
}

/// Receiving gives the message of the first PUBLISH packet in the stream.
#[verifier::spinoff_prover]
pub proof fn law_receive<E>(stream: Seq<u8>, capacity: nat)
    ensures
        run_receive(ReceiveView::<E>::Head(HeadView::Header { capacity }), stream)
            == next_message::<E>(stream, capacity),
    decreases stream.len(),
{
    lemma_receive_fails::<E>();
    if stream.len() >= 1 {
        let header = stream[0];
        let behind = stream.skip(1);
        lemma_receive_length::<E>(capacity, header, Seq::empty(), behind);
        remaining_length::law_reader_finds_length_field(behind);
        remaining_length::lemma_read_length_bounds(Seq::empty(), behind);
        if let LengthField::Value { value, size } = remaining_length::length_field(behind) {
            let rest = behind.skip(size as int);
            if value <= capacity && value <= rest.len() && !publish::is_publish_header(header) {
                law_receive::<E>(rest.skip(value as int), capacity);
            }
        }
    }
}

/// Receiving ends with a read that fails.
proof fn lemma_receive_fails<E>()
    ensures
        run_receive(
            ReceiveView::<E>::Failed(MqttError::UnexpectedPacket),
            Seq::empty(),
        ) == failed_read::<MessageView, E>(MqttError::UnexpectedPacket),
{
}

/// Reading the Remaining Length of a packet leads to its body.
#[verifier::spinoff_prover]
proof fn lemma_receive_length<E>(capacity: nat, header: u8, read: Seq<u8>, stream: Seq<u8>)
    requires
        read.len() < remaining_length::MAX_LENGTH_BYTES,
    ensures
        run_receive(
            ReceiveView::<E>::Head(HeadView::Length { capacity, header, read }),
            stream,
        ) == match remaining_length::read_length(read, stream) {
            LengthField::Incomplete => failed_read(MqttError::UnexpectedPacket),
            LengthField::Malformed => Outcome {
                result: Err(MqttError::UnexpectedPacket),
                rest: stream.skip(remaining_length::MAX_LENGTH_BYTES - read.len()),
            },
            LengthField::Value { value, size } => run_receive(
                receive::after_head::<E>(capacity, header, value),
                stream.skip(size as int),
            ),
        },
    decreases stream.len(),
{
    lemma_receive_fails::<E>();
    if stream.len() >= 1 {
        let head = HeadView::Length { capacity, header, read };
        let next = head.after_reading::<E>(stream[0]);
        let behind = stream.skip(1);
        assert(behind =~= stream.drop_first());
        assert(run_receive(ReceiveView::<E>::Head(head), stream) == run_receive(next, behind));
        let longer = read.push(stream[0]);
        match remaining_length::length_state(longer) {
            LengthState::More(_) => {
                lemma_receive_length::<E>(capacity, header, longer, behind);
                remaining_length::lemma_read_length_bounds(longer, behind);
                match remaining_length::read_length(longer, behind) {
                    LengthField::Value { value, size } => {
                        assert(behind.skip(size as int) =~= stream.skip(size as int + 1));
                    },
                    LengthField::Incomplete => {},
                    LengthField::Malformed => {
                        let left = remaining_length::MAX_LENGTH_BYTES - longer.len();
                        assert(behind.skip(left) =~= stream.skip(left + 1));
                    },
                }
            },
            LengthState::Complete(_) => {},
            LengthState::Malformed => {},
        }
    }
}

/// A packet whose Remaining Length does not end within four bytes is malformed, for a receiver and
/// for a subscriber alike; what comes behind the fourth byte is left unread.
pub proof fn law_endless_length_is_malformed<E>(stream: Seq<u8>, capacity: nat)
    requires
        stream.len() >= 5,
        forall|i: int| 1 <= i < 5 ==> stream[i] >= 128,
    ensures
        next_message::<E>(stream, capacity) == (Outcome::<MessageView, E> {
            result: Err(MqttError::UnexpectedPacket),
            rest: stream.skip(5),
        }),
        suback_from::<E>(stream) == (Outcome::<(), E> {
            result: Err(MqttError::UnexpectedPacket),
            rest: stream.skip(5),
        }),
{
    reveal_with_fuel(remaining_length::continuation_run, 5);
    assert(stream.skip(1).skip(4) =~= stream.skip(5));
}

/// A PUBLISH packet of any QoS and any flags ends the wait: its message is handed over, or the
/// packet is malformed, and nothing behind it is read. Where its body does not fit the receiver's
/// buffer, the receiver says so and leaves the body unread.
pub proof fn law_publish_packet_ends_the_wait<E>(
    header: u8,
    length: Seq<u8>,
    body: Seq<u8>,
    rest: Seq<u8>,
    capacity: nat,
)
    requires
        publish::is_publish_header(header),
        remaining_length::encodes_length(length, body.len()),
    ensures
        next_message::<E>(packet::framed_with(header, length, body) + rest, capacity) == (
        if body.len() > capacity {
            Outcome::<MessageView, E> { result: Err(MqttError::PacketTooLarge), rest: body + rest }
        } else {
            Outcome::<MessageView, E> {
                result: match publish::publish_message(header, body) {
                    Some(message) => Ok(message),
                    None => Err(MqttError::UnexpectedPacket),
                },
                rest,
            }
        }),
{
    packet::law_framing(header, length, body, rest);
    assert((body + rest).take(body.len() as int) =~= body);
    assert((body + rest).skip(body.len() as int) =~= rest);
}

/// What is published is what is received: a client that reads the PUBLISH packet of a message gets
/// that message, and nothing behind the packet is read. The body of the packet has to fit the
/// receiver's buffer; where it does not, the receiver says so.
pub proof fn law_published_is_received<E>(
    topic: Seq<char>,
    payload: Seq<u8>,
    rest: Seq<u8>,
    capacity: nat,
)
    requires
        vstd::utf8::encode_utf8(topic).len() < 65536,
        publish::publish_body(topic, payload).len() < 268_435_456,
    ensures
        ({
            let body = publish::publish_body(topic, payload);
            next_message::<E>(publish::publish_packet(topic, payload) + rest, capacity) == (
            if body.len() <= capacity {
                Outcome::<MessageView, E> { result: Ok(MessageView { topic, payload }), rest }
            } else {
                Outcome::<MessageView, E> {
                    result: Err(MqttError::PacketTooLarge),
                    rest: body + rest,
                }
            })
        }),
{
    let body = publish::publish_body(topic, payload);
    let length = remaining_length::remaining_length_bytes(body.len());
    packet::law_built_packets_are_framed(publish::PUBLISH, body);
    law_publish_packet_ends_the_wait::<E>(publish::PUBLISH, length, body, rest, capacity);
    publish::law_publish_round_trip(publish::PUBLISH, topic, payload);
}

/// A packet that is no PUBLISH is skipped as a whole: receiving goes on as if it had not been
/// there.
pub proof fn law_other_packets_are_skipped<E>(
    header: u8,
    length: Seq<u8>,
    body: Seq<u8>,
    rest: Seq<u8>,
    capacity: nat,
)
    requires
        !publish::is_publish_header(header),
        remaining_length::encodes_length(length, body.len()),
        body.len() <= capacity,
    ensures
        next_message::<E>(packet::framed_with(header, length, body) + rest, capacity)
            == next_message::<E>(rest, capacity),
{
    packet::law_framing(header, length, body, rest);
    assert((body + rest).skip(body.len() as int) =~= rest);
}

/// A control packet: its header byte, its Remaining Length and its body.
pub struct PacketView {
    pub header: u8,
    pub length: Seq<u8>,
    pub body: Seq<u8>,
}

impl PacketView {
    /// Whether the packet is a PUBLISH.
    pub open spec fn is_publish(self) -> bool {
        publish::is_publish_header(self.header)
    }

    /// Whether the packet can be taken in with a buffer of `capacity` bytes: its Remaining Length
    /// counts its body, the body fits, and a PUBLISH carries a message.
    pub open spec fn fits(self, capacity: nat) -> bool {
        &&& remaining_length::encodes_length(self.length, self.body.len())
        &&& self.body.len() <= capacity
        &&& self.is_publish() ==> publish::publish_message(self.header, self.body) is Some
    }
}

/// The bytes of a series of packets, one behind the other.
pub open spec fn packet_stream(packets: Seq<PacketView>) -> Seq<u8>
    decreases packets.len(),
{
    if packets.len() == 0 {
        Seq::empty()
    } else {
        packet::framed_with(packets[0].header, packets[0].length, packets[0].body) + packet_stream(
            packets.drop_first(),
        )
    }
}

/// The messages of the PUBLISH packets in a series of packets.
pub open spec fn messages_of(packets: Seq<PacketView>) -> Seq<MessageView>
    decreases packets.len(),
{
    if packets.len() == 0 {
        Seq::empty()
    } else if packets[0].is_publish() {
        seq![publish::publish_message(packets[0].header, packets[0].body)->0] + messages_of(
            packets.drop_first(),
        )
    } else {
        messages_of(packets.drop_first())
    }
}

/// The packets behind the last PUBLISH of a series: all of them where it has none.
pub open spec fn behind_last_publish(packets: Seq<PacketView>) -> Seq<PacketView>
    decreases packets.len(),
{
    if messages_of(packets).len() == 0 {
        packets
    } else {
        behind_last_publish(packets.drop_first())
    }
}

/// The packets that a series of messages is published with.
pub open spec fn packets_of(messages: Seq<MessageView>) -> Seq<PacketView> {
    Seq::new(
        messages.len(),
        |i: int|
            {
                let body = publish::publish_body(messages[i].topic, messages[i].payload);
                PacketView {
                    header: publish::PUBLISH,
                    length: remaining_length::remaining_length_bytes(body.len()),
                    body,
                }
            },
    )
}

/// The messages of `count` receives, one after the other, up to the first that fails.
pub open spec fn next_messages<E>(count: nat, stream: Seq<u8>, capacity: nat) -> Outcome<
    Seq<MessageView>,
    E,
>
    decreases count,
{
    if count == 0 {
        Outcome { result: Ok(Seq::empty()), rest: stream }
    } else {
        let first = next_message::<E>(stream, capacity);
        match first.result {
            Ok(message) => {
                let others = next_messages::<E>((count - 1) as nat, first.rest, capacity);
                Outcome {
                    result: match others.result {
                        Ok(messages) => Ok(seq![message] + messages),
                        Err(error) => Err(error),
                    },
                    rest: others.rest,
                }
            },
            Err(error) => Outcome { result: Err(error), rest: first.rest },
        }
    }
}

/// In a series of packets of any type, as many receives as there are PUBLISH packets give exactly
/// their messages, whole, in order and each once. What stands behind the last PUBLISH is left
/// unread. The PUBLISH packets may have any QoS and any flags, and every packet any complete
/// Remaining Length.
pub proof fn law_messages_arrive_in_order<E>(
    packets: Seq<PacketView>,
    rest: Seq<u8>,
    capacity: nat,
)
    requires
        forall|i: int| 0 <= i < packets.len() ==> (#[trigger] packets[i]).fits(capacity),
    ensures
        next_messages::<E>(
            messages_of(packets).len(),
            packet_stream(packets) + rest,
            capacity,
        ) == (Outcome::<Seq<MessageView>, E> {
            result: Ok(messages_of(packets)),
            rest: packet_stream(behind_last_publish(packets)) + rest,
        }),
    decreases packets.len(),
{
    let messages = messages_of(packets);
    if messages.len() == 0 {
        assert(messages =~= Seq::<MessageView>::empty());
    } else {
        let first = packets[0];
        let others = packets.drop_first();
        let behind = packet_stream(others) + rest;
        assert(first.fits(capacity));
        assert forall|i: int| 0 <= i < others.len() implies (#[trigger] others[i]).fits(
            capacity,
        ) by {
            assert(others[i] == packets[i + 1]);
        }
        assert(packet_stream(packets) + rest =~= packet::framed_with(
            first.header,
            first.length,
            first.body,
        ) + behind);
        law_messages_arrive_in_order::<E>(others, rest, capacity);
        if first.is_publish() {
            law_publish_packet_ends_the_wait::<E>(
                first.header,
                first.length,
                first.body,
                behind,
                capacity,
            );
            assert(messages.len() == messages_of(others).len() + 1);
        } else {
            law_other_packets_are_skipped::<E>(
                first.header,
                first.length,
                first.body,
                behind,
                capacity,
            );
        }
    }
}

/// Messages that are published one after the other are received unchanged and in order.
pub proof fn law_published_messages_arrive_in_order<E>(
    messages: Seq<MessageView>,
    rest: Seq<u8>,
    capacity: nat,
)
    requires
        forall|i: int|
            0 <= i < messages.len() ==> {
                &&& vstd::utf8::encode_utf8((#[trigger] messages[i]).topic).len() < 65536
                &&& publish::publish_body(messages[i].topic, messages[i].payload).len()
                    < 268_435_456
                &&& publish::publish_body(messages[i].topic, messages[i].payload).len() <= capacity
            },
    ensures
        next_messages::<E>(
            messages.len(),
            packet_stream(packets_of(messages)) + rest,
            capacity,
        ) == (Outcome::<Seq<MessageView>, E> { result: Ok(messages), rest }),
{
    let packets = packets_of(messages);
    assert forall|i: int| 0 <= i < packets.len() implies (#[trigger] packets[i]).fits(
        capacity,
    ) by {
        let message = messages[i];
        publish::law_publish_round_trip(publish::PUBLISH, message.topic, message.payload);
        remaining_length::law_written_length_is_complete(packets[i].body.len());
    }
    lemma_packets_of(messages);
    law_messages_arrive_in_order::<E>(packets, rest, capacity);
    assert(packet_stream(Seq::<PacketView>::empty()) + rest =~= rest);
}

/// The packets of a series of messages carry these messages, and the last of them is a PUBLISH.
proof fn lemma_packets_of(messages: Seq<MessageView>)
    requires
        forall|i: int|
            0 <= i < messages.len() ==> vstd::utf8::encode_utf8(
                (#[trigger] messages[i]).topic,
            ).len() < 65536,
    ensures
        messages_of(packets_of(messages)) == messages,
        behind_last_publish(packets_of(messages)) == Seq::<PacketView>::empty(),
    decreases messages.len(),
{
    let packets = packets_of(messages);
    if messages.len() == 0 {
        assert(messages_of(packets) =~= messages);
        assert(packets =~= Seq::<PacketView>::empty());
    } else {
        let first = messages[0];
        let others = messages.drop_first();
        assert(packets.drop_first() =~= packets_of(others));
        assert forall|i: int| 0 <= i < others.len() implies vstd::utf8::encode_utf8(
            (#[trigger] others[i]).topic,
        ).len() < 65536 by {
            assert(others[i] == messages[i + 1]);
        }
        lemma_packets_of(others);
        publish::law_publish_round_trip(publish::PUBLISH, first.topic, first.payload);
        assert(seq![first] + others =~= messages);
    }
}

} // verus!
