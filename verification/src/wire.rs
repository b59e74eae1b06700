//! The wire format, byte by byte: where each packet has what, as a broker reads it.

use crate::builder::MAX_PACKET_SIZE;
use crate::connect;
use crate::connect::{ConnackResult, ConnectOptions, ConnectOptionsView, LastWillView};
use crate::fields;
use crate::packet;
use crate::ping;
use crate::publish;
use crate::publish::{IncomingMessage, MessageView};
use crate::remaining_length;
use crate::remaining_length::{LengthField, LengthProgress, LengthState};
use crate::subscribe;
use crate::subscribe::SubackResult;
use vstd::arithmetic::power::pow;
use vstd::prelude::*;

verus! {

// ---------------------------------------------------------------------------
// Fields
// ---------------------------------------------------------------------------

/// No packet that is built is longer than 256 bytes.
pub proof fn law_packet_limit()
    ensures
        MAX_PACKET_SIZE == 256,
{
}

/// Two bytes hold the low sixteen bits of a number, the more significant byte first.
pub proof fn law_be16(n: nat, high: u8, low: u8)
    ensures
        fields::be16(n).len() == 2,
        fields::be16(n)[0] * 256 + fields::be16(n)[1] == n % 65536,
        fields::be16_value(high, low) == high * 256 + low,
{
}

/// A string field is the length of the string on two bytes, then the string, and nothing else.
pub proof fn law_string_field(s: Seq<u8>)
    ensures
        fields::string_field(s).len() == 2 + s.len(),
        fields::string_field(s)[0] * 256 + fields::string_field(s)[1] == s.len() % 65536,
        fields::string_field(s).skip(2) == s,
{
    assert(fields::string_field(s).skip(2) =~= s);
}

/// A string field within other bytes stands where it was put.
proof fn lemma_field_within(front: Seq<u8>, s: Seq<u8>, rest: Seq<u8>)
    ensures
        ({
            let whole = front + (fields::string_field(s) + rest);
            let at = front.len() as int;
            &&& whole.len() == at + 2 + s.len() + rest.len()
            &&& whole[at] * 256 + whole[at + 1] == s.len() % 65536
            &&& whole.subrange(at + 2, at + 2 + s.len()) == s
            &&& whole.skip(at + 2 + s.len()) == rest
        }),
{
    let whole = front + (fields::string_field(s) + rest);
    let at = front.len() as int;
    law_string_field(s);
    assert(whole[at] == fields::string_field(s)[0]);
    assert(whole[at + 1] == fields::string_field(s)[1]);
    assert(whole.subrange(at + 2, at + 2 + s.len()) =~= s);
    assert(whole.skip(at + 2 + s.len()) =~= rest);
}

// ---------------------------------------------------------------------------
// Remaining Length
// ---------------------------------------------------------------------------

/// The bytes of a Remaining Length are the digits of the number to the base 128, the least
/// significant first, as many as the number needs; the high bit is set on all but the last.
pub proof fn law_length_digits(n: nat)
    ensures
        ({
            let bytes = remaining_length::remaining_length_bytes(n);
            &&& bytes.len() >= 1
            &&& n < pow(128, bytes.len())
            &&& bytes.len() > 1 ==> n >= pow(128, (bytes.len() - 1) as nat)
            &&& forall|i: int|
                0 <= i < bytes.len() ==> (#[trigger] bytes[i]) as int % 128 == (n as int / pow(
                    128,
                    i as nat,
                )) % 128
            &&& forall|i: int|
                0 <= i < bytes.len() ==> ((#[trigger] bytes[i]) >= 128 <==> i + 1 < bytes.len())
        }),
    decreases n,
{
    let bytes = remaining_length::remaining_length_bytes(n);
    vstd::arithmetic::power::lemma_pow0(128);
    vstd::arithmetic::power::lemma_pow1(128);
    if n < 128 {
    } else {
        let tail = remaining_length::remaining_length_bytes(n / 128);
        law_length_digits(n / 128);
        assert(bytes.len() == tail.len() + 1);
        lemma_shift(n, tail.len());
        lemma_shift(n, (tail.len() - 1) as nat);
        assert forall|i: int| 0 <= i < bytes.len() implies (#[trigger] bytes[i]) as int % 128 == (
        n as int / pow(128, i as nat)) % 128 && (bytes[i] >= 128 <==> i + 1 < bytes.len()) by {
            if i > 0 {
                assert(bytes[i] == tail[i - 1]);
                lemma_shift(n, (i - 1) as nat);
            }
        }
    }
}

/// Dropping the last digit to the base 128 shifts the others by one place.
proof fn lemma_shift(n: nat, k: nat)
    ensures
        (n / 128) as int / pow(128, k) == n as int / pow(128, k + 1),
        n / 128 < pow(128, k) <==> n < pow(128, k + 1),
        pow(128, k) > 0,
{
    let weight = pow(128, k);
    vstd::arithmetic::power::lemma_pow_positive(128, k);
    vstd::arithmetic::power::lemma_pow_adds(128, 1, k);
    vstd::arithmetic::power::lemma_pow1(128);
    assert(pow(128, k + 1) == 128 * weight);
    vstd::arithmetic::div_mod::lemma_div_denominator(n as int, 128, weight);
    assert(n / 128 < weight <==> n < 128 * weight);
}

/// What the front of a stream holds, taken as a Remaining Length: the field ends with its first
/// byte below 128, which has to be one of the first four.
pub proof fn law_length_field_bytes(stream: Seq<u8>)
    ensures
        remaining_length::length_field(stream) == (if stream.len() >= 1 && stream[0] < 128 {
            LengthField::Value { value: stream[0] as nat, size: 1 }
        } else if stream.len() >= 2 && stream[1] < 128 {
            LengthField::Value {
                value: ((stream[0] - 128) + 128 * stream[1]) as nat,
                size: 2,
            }
        } else if stream.len() >= 3 && stream[1] >= 128 && stream[2] < 128 {
            LengthField::Value {
                value: ((stream[0] - 128) + 128 * (stream[1] - 128) + 16384 * stream[2]) as nat,
                size: 3,
            }
        } else if stream.len() >= 4 && stream[1] >= 128 && stream[2] >= 128 && stream[3] < 128 {
            LengthField::Value {
                value: ((stream[0] - 128) + 128 * (stream[1] - 128) + 16384 * (stream[2] - 128)
                    + 2097152 * stream[3]) as nat,
                size: 4,
            }
        } else if stream.len() >= 4 {
            LengthField::Malformed
        } else {
            LengthField::Incomplete
        }),
{
    reveal_with_fuel(remaining_length::continuation_run, 5);
    let run = remaining_length::continuation_run(stream);
    if run < 4 && run < stream.len() {
        lemma_value_of_few(stream.take(run as int + 1));
    }
}

/// The number that up to four bytes stand for.
proof fn lemma_value_of_few(bytes: Seq<u8>)
    requires
        1 <= bytes.len() <= 4,
    ensures
        remaining_length::remaining_length_value(bytes) == (bytes[0] % 128) + (if bytes.len() >= 2 {
            128 * (bytes[1] % 128)
        } else {
            0
        }) + (if bytes.len() >= 3 {
            16384 * (bytes[2] % 128)
        } else {
            0
        }) + (if bytes.len() >= 4 {
            2097152 * (bytes[3] % 128)
        } else {
            0
        }),
{
    reveal_with_fuel(remaining_length::remaining_length_value, 5);
}

/// Where a reader stands after its first bytes: done with a byte below 128, at a loss after four
/// bytes that are not, and waiting for more before.
pub proof fn law_length_state_bytes(bytes: Seq<u8>)
    requires
        1 <= bytes.len() <= 4,
    ensures
        remaining_length::length_state(bytes) == (if bytes.last() >= 128 && bytes.len() < 4 {
            LengthState::More(bytes)
        } else if bytes.last() >= 128 {
            LengthState::Malformed
        } else {
            LengthState::Complete(
                ((bytes[0] % 128) + (if bytes.len() >= 2 {
                    128 * (bytes[1] % 128)
                } else {
                    0
                }) + (if bytes.len() >= 3 {
                    16384 * (bytes[2] % 128)
                } else {
                    0
                }) + (if bytes.len() >= 4 {
                    2097152 * (bytes[3] % 128)
                } else {
                    0
                })) as nat,
            )
        }),
{
    lemma_value_of_few(bytes);
}

/// A complete field is one that stands for its number and has no byte too many.
pub proof fn law_encodes_length(bytes: Seq<u8>, n: nat)
    ensures
        remaining_length::encodes_length(bytes, n) <==> remaining_length::length_field(bytes) == (
        LengthField::Value { value: n, size: bytes.len() }),
{
}

/// What a reader reports is what it found.
pub proof fn law_length_progress(progress: LengthProgress)
    ensures
        progress matches LengthProgress::More(reader) ==> progress@ == LengthState::More(reader@),
        progress matches LengthProgress::Complete(n) ==> progress@ == LengthState::Complete(
            n as nat,
        ),
        progress is Malformed ==> progress@ == LengthState::Malformed,
{
}

// ---------------------------------------------------------------------------
// Framing
// ---------------------------------------------------------------------------

/// A packet is its header byte, its Remaining Length and its body, and nothing else.
pub proof fn law_packet_layout(header: u8, length: Seq<u8>, body: Seq<u8>)
    ensures
        ({
            let whole = packet::framed_with(header, length, body);
            &&& whole.len() == 1 + length.len() + body.len()
            &&& whole[0] == header
            &&& whole.subrange(1, 1 + length.len() as int) == length
            &&& whole.skip(1 + length.len() as int) == body
        }),
        packet::framed(header, body) == packet::framed_with(
            header,
            remaining_length::remaining_length_bytes(body.len()),
            body,
        ),
{
    let whole = packet::framed_with(header, length, body);
    assert(whole.subrange(1, 1 + length.len() as int) =~= length);
    assert(whole.skip(1 + length.len() as int) =~= body);
}

/// What a broker reads in one whole packet: its header byte and its body.
pub open spec fn read_packet(bytes: Seq<u8>) -> Option<(u8, Seq<u8>)> {
    match remaining_length::length_field(bytes.skip(1)) {
        LengthField::Value { value, size } => if bytes.len() == 1 + size + value {
            Some((bytes[0], bytes.skip(1 + size as int)))
        } else {
            None
        },
        _ => None,
    }
}

/// A packet is read back as the header byte and the body that it was framed from.
proof fn lemma_read_packet(header: u8, body: Seq<u8>)
    requires
        body.len() < 268435456,
    ensures
        read_packet(packet::framed(header, body)) == Some((header, body)),
{
    let whole = packet::framed(header, body);
    let length = remaining_length::remaining_length_bytes(body.len());
    remaining_length::law_length_round_trip(body.len(), body);
    assert(whole.skip(1) =~= length + body);
    assert(whole.skip(1 + length.len() as int) =~= body);
}

/// The body of a packet that is built stands at its end, behind the header byte and the length.
proof fn lemma_body_of(header: u8, body: Seq<u8>)
    ensures
        ({
            let whole = packet::framed(header, body);
            let start = whole.len() - body.len();
            &&& start >= 2
            &&& whole.take(start) == seq![header] + remaining_length::remaining_length_bytes(
                body.len(),
            )
            &&& whole.skip(start) == body
        }),
{
    let whole = packet::framed(header, body);
    let start = whole.len() - body.len();
    law_length_digits(body.len());
    assert(whole.take(start) =~= seq![header] + remaining_length::remaining_length_bytes(
        body.len(),
    ));
    assert(whole.skip(start) =~= body);
}

// ---------------------------------------------------------------------------
// CONNECT
// ---------------------------------------------------------------------------

/// What a broker reads in a length-prefixed field at the front of `bytes`: its contents, and what
/// is behind it.
pub open spec fn read_field(bytes: Seq<u8>) -> Option<(Seq<u8>, Seq<u8>)> {
    if bytes.len() < 2 || bytes.len() < 2 + bytes[0] * 256 + bytes[1] {
        None
    } else {
        let end = 2 + bytes[0] * 256 + bytes[1];
        Some((bytes.subrange(2, end), bytes.skip(end)))
    }
}

/// What a broker reads in a field that is there only where its flag is set.
pub open spec fn read_optional_field(present: bool, bytes: Seq<u8>) -> Option<
    (Option<Seq<u8>>, Seq<u8>),
> {
    if !present {
        Some((None, bytes))
    } else {
        match read_field(bytes) {
            Some((value, rest)) => Some((Some(value), rest)),
            None => None,
        }
    }
}

/// What a broker reads in the fields of a Last Will, which are there only where its flag is set.
pub open spec fn read_will(present: bool, retain: bool, bytes: Seq<u8>) -> Option<
    (Option<LastWillView>, Seq<u8>),
> {
    if !present {
        Some((None, bytes))
    } else {
        match read_field(bytes) {
            Some((topic, behind_topic)) => match read_field(behind_topic) {
                Some((message, rest)) => Some(
                    (
                        Some(
                            LastWillView {
                                topic: vstd::utf8::decode_utf8(topic),
                                message,
                                retain,
                            },
                        ),
                        rest,
                    ),
                ),
                None => None,
            },
            None => None,
        }
    }
}

/// What a broker reads in the payload of a CONNECT packet with these flags: the client identifier,
/// the topic and the message of the Last Will with flag 0x04, the user name with flag 0x80 and the
/// password with flag 0x40, in this order, and nothing behind them.
pub open spec fn read_connect_payload(flags: u8, payload: Seq<u8>) -> Option<
    (Seq<char>, ConnectOptionsView),
> {
    match read_field(payload) {
        Some((client_id, behind_id)) => match read_will(
            flags & 0x04 != 0,
            flags & 0x20 != 0,
            behind_id,
        ) {
            Some((last_will, behind_will)) => match read_optional_field(
                flags & 0x80 != 0,
                behind_will,
            ) {
                Some((username, behind_username)) => match read_optional_field(
                    flags & 0x40 != 0,
                    behind_username,
                ) {
                    Some((password, rest)) => if rest.len() == 0 {
                        Some(
                            (
                                vstd::utf8::decode_utf8(client_id),
                                ConnectOptionsView {
                                    username: match username {
                                        Some(name) => Some(vstd::utf8::decode_utf8(name)),
                                        None => None,
                                    },
                                    password,
                                    last_will,
                                },
                            ),
                        )
                    } else {
                        None
                    },
                    None => None,
                },
                None => None,
            },
            None => None,
        },
        None => None,
    }
}

/// What a broker learns from a CONNECT packet.
pub struct ConnectRequestView {
    pub client_id: Seq<char>,
    pub keep_alive_secs: nat,
    pub clean_session: bool,
    pub options: ConnectOptionsView,
}

/// What a broker reads in the body of a CONNECT packet: ten bytes of variable header, which name
/// the protocol and its level, then the flags and the keep-alive time; then the payload.
pub open spec fn read_connect(body: Seq<u8>) -> Option<ConnectRequestView> {
    if body.len() < 10 || body.take(7) != seq![0x00u8, 0x04, 0x4D, 0x51, 0x54, 0x54, 0x04] {
        None
    } else {
        match read_connect_payload(body[7], body.skip(10)) {
            Some((client_id, options)) => Some(
                ConnectRequestView {
                    client_id,
                    keep_alive_secs: (body[8] * 256 + body[9]) as nat,
                    clean_session: body[7] & 0x02 != 0,
                    options,
                },
            ),
            None => None,
        }
    }
}

/// A string field is read back as what it was written from, and what is behind it is left.
proof fn lemma_read_field(s: Seq<u8>, rest: Seq<u8>)
    requires
        s.len() < 65536,
    ensures
        read_field(fields::string_field(s) + rest) == Some((s, rest)),
{
    let whole = fields::string_field(s) + rest;
    lemma_field_within(Seq::empty(), s, rest);
    assert(Seq::<u8>::empty() + whole =~= whole);
}

/// The same of a field that is there only where its flag is set.
proof fn lemma_read_optional_field(value: Option<Seq<u8>>, rest: Seq<u8>)
    requires
        value matches Some(s) ==> s.len() < 65536,
    ensures
        read_optional_field(value is Some, connect::optional_field(value) + rest) == Some(
            (value, rest),
        ),
{
    match value {
        Some(s) => lemma_read_field(s, rest),
        None => {
            assert(Seq::<u8>::empty() + rest =~= rest);
        },
    }
}

/// The same of the fields of a Last Will.
proof fn lemma_read_will(will: Option<LastWillView>, rest: Seq<u8>)
    requires
        will matches Some(w) ==> vstd::utf8::encode_utf8(w.topic).len() < 65536 && w.message.len()
            < 65536,
    ensures
        read_will(
            will is Some,
            will is Some && will->0.retain,
            connect::will_fields(will) + rest,
        ) == Some((will, rest)),
{
    match will {
        Some(w) => {
            let topic = vstd::utf8::encode_utf8(w.topic);
            assert(connect::will_fields(will) + rest =~= fields::string_field(topic) + (
            fields::string_field(w.message) + rest));
            lemma_read_field(topic, fields::string_field(w.message) + rest);
            lemma_read_field(w.message, rest);
            vstd::utf8::encode_utf8_decode_utf8(w.topic);
        },
        None => {
            assert(Seq::<u8>::empty() + rest =~= rest);
        },
    }
}

/// The payload of a CONNECT packet is read back as what it was written from.
proof fn lemma_read_connect_payload(client_id: Seq<char>, options: ConnectOptionsView)
    requires
        vstd::utf8::encode_utf8(client_id).len() < 65536,
        options.last_will matches Some(w) ==> vstd::utf8::encode_utf8(w.topic).len() < 65536
            && w.message.len() < 65536,
        options.username matches Some(name) ==> vstd::utf8::encode_utf8(name).len() < 65536,
        options.password matches Some(password) ==> password.len() < 65536,
    ensures
        read_connect_payload(
            connect::connect_flags(options),
            connect::connect_payload(client_id, options),
        ) == Some((client_id, options)),
{
    let id = vstd::utf8::encode_utf8(client_id);
    let will_part = connect::will_fields(options.last_will);
    let username: Option<Seq<u8>> = match options.username {
        Some(name) => Some(vstd::utf8::encode_utf8(name)),
        None => None,
    };
    let username_part = connect::optional_field(username);
    let password_part = connect::optional_field(options.password);
    assert(username_part == connect::username_field(options.username));
    let behind_id = will_part + (username_part + password_part);
    assert(connect::connect_payload(client_id, options) =~= fields::string_field(id) + behind_id);
    connect::law_connect_flags(options);
    lemma_read_field(id, behind_id);
    lemma_read_will(options.last_will, username_part + password_part);
    lemma_read_optional_field(username, password_part);
    lemma_read_optional_field(options.password, Seq::empty());
    assert(password_part + Seq::<u8>::empty() =~= password_part);
    vstd::utf8::encode_utf8_decode_utf8(client_id);
    if let Some(name) = options.username {
        vstd::utf8::encode_utf8_decode_utf8(name);
    }
}

/// The ten bytes of the variable header of a CONNECT packet, in front of the payload.
proof fn lemma_connect_head(keep_alive_secs: u16, options: ConnectOptionsView, payload: Seq<u8>)
    ensures
        ({
            let body = connect::connect_variable_header(keep_alive_secs, options) + payload;
            &&& body.len() == 10 + payload.len()
            &&& body.take(7) == seq![0x00u8, 0x04, 0x4D, 0x51, 0x54, 0x54, 0x04]
            &&& body[7] == connect::connect_flags(options)
            &&& body[8] * 256 + body[9] == keep_alive_secs
            &&& body.skip(10) == payload
        }),
{
    let body = connect::connect_variable_header(keep_alive_secs, options) + payload;
    law_be16(keep_alive_secs as nat, 0, 0);
    assert(body[8] == fields::be16(keep_alive_secs as nat)[0]);
    assert(body[9] == fields::be16(keep_alive_secs as nat)[1]);
    assert(body.take(7) =~= seq![0x00u8, 0x04, 0x4D, 0x51, 0x54, 0x54, 0x04]);
    assert(body.skip(10) =~= payload);
}

/// The length of the payload of a CONNECT packet.
proof fn lemma_connect_payload_len(client_id: Seq<char>, options: ConnectOptionsView)
    ensures
        connect::connect_payload(client_id, options).len() == 2 + vstd::utf8::encode_utf8(
            client_id,
        ).len() + (match options.last_will {
            Some(w) => 4 + vstd::utf8::encode_utf8(w.topic).len() + w.message.len(),
            None => 0,
        }) + (match options.username {
            Some(name) => 2 + vstd::utf8::encode_utf8(name).len(),
            None => 0,
        }) + (match options.password {
            Some(password) => 2 + password.len(),
            None => 0,
        }),
{
}

/// A broker reads in a CONNECT packet exactly what was asked for: the client identifier, the
/// keep-alive time, a clean session, and each option in its place. Every field has to fit its
/// two-byte length.
pub proof fn law_broker_reads_connect(
    client_id: Seq<char>,
    keep_alive_secs: u16,
    options: ConnectOptionsView,
)
    requires
        vstd::utf8::encode_utf8(client_id).len() < 65536,
        options.last_will matches Some(w) ==> vstd::utf8::encode_utf8(w.topic).len() < 65536
            && w.message.len() < 65536,
        options.username matches Some(name) ==> vstd::utf8::encode_utf8(name).len() < 65536,
        options.password matches Some(password) ==> password.len() < 65536,
    ensures
        ({
            &&& read_packet(
                connect::connect_packet(client_id, keep_alive_secs, options),
            ) matches Some((header, body))
            &&& header == 0x10
            &&& read_connect(body) == Some(
                ConnectRequestView {
                    client_id,
                    keep_alive_secs: keep_alive_secs as nat,
                    clean_session: true,
                    options,
                },
            )
        }),
{
    let head = connect::connect_variable_header(keep_alive_secs, options);
    let payload = connect::connect_payload(client_id, options);
    let body = head + payload;
    lemma_connect_head(keep_alive_secs, options, payload);
    lemma_connect_payload_len(client_id, options);
    lemma_read_packet(0x10, body);
    lemma_read_connect_payload(client_id, options);
    connect::law_connect_flags(options);
}

/// How a CONNECT packet starts, byte for byte: the header byte and the length of the body, then the
/// name and the level of the protocol, the flags and the keep-alive time. The body is as long as
/// the fields that it holds, each behind a length on two bytes; an option that is not there takes
/// no room.
#[verifier::spinoff_prover]
pub proof fn law_connect_head(
    client_id: Seq<char>,
    keep_alive_secs: u16,
    options: ConnectOptionsView,
)
    ensures
        ({
            let len = 12 + vstd::utf8::encode_utf8(client_id).len() + (match options.last_will {
                Some(w) => 4 + vstd::utf8::encode_utf8(w.topic).len() + w.message.len(),
                None => 0,
            }) + (match options.username {
                Some(name) => 2 + vstd::utf8::encode_utf8(name).len(),
                None => 0,
            }) + (match options.password {
                Some(password) => 2 + password.len(),
                None => 0,
            });
            let whole = connect::connect_packet(client_id, keep_alive_secs, options);
            let start = whole.len() - len;
            let body = whole.skip(start);
            &&& start >= 2
            &&& whole.take(start) == seq![0x10u8] + remaining_length::remaining_length_bytes(len)
            &&& body.take(7) == seq![0x00u8, 0x04, 0x4D, 0x51, 0x54, 0x54, 0x04]
            &&& body[7] == 2 + (if options.last_will is Some {
                4int
            } else {
                0
            }) + (if options.last_will is Some && options.last_will->0.retain {
                32int
            } else {
                0
            }) + (if options.username is Some {
                128int
            } else {
                0
            }) + (if options.password is Some {
                64int
            } else {
                0
            })
            &&& body[8] * 256 + body[9] == keep_alive_secs
        }),
{
    let head = connect::connect_variable_header(keep_alive_secs, options);
    let payload = connect::connect_payload(client_id, options);
    lemma_connect_head(keep_alive_secs, options, payload);
    lemma_connect_payload_len(client_id, options);
    lemma_body_of(0x10, head + payload);
}

/// Where the payload of a CONNECT packet has what, byte for byte: the client identifier, the topic
/// and the message of the Last Will, the user name and the password, in this order, each behind its
/// length on two bytes. The last of them ends the packet.
#[verifier::spinoff_prover]
pub proof fn law_connect_payload(
    client_id: Seq<char>,
    keep_alive_secs: u16,
    options: ConnectOptionsView,
)
    ensures
        ({
            let id = vstd::utf8::encode_utf8(client_id);
            let will_at = 12 + id.len() as int;
            let username_at = will_at + (match options.last_will {
                Some(w) => 4 + vstd::utf8::encode_utf8(w.topic).len() + w.message.len() as int,
                None => 0,
            });
            let password_at = username_at + (match options.username {
                Some(name) => 2 + vstd::utf8::encode_utf8(name).len() as int,
                None => 0,
            });
            let len = password_at + (match options.password {
                Some(password) => 2 + password.len() as int,
                None => 0,
            });
            let whole = connect::connect_packet(client_id, keep_alive_secs, options);
            let start = whole.len() - len;
            let body = whole.skip(start);
            &&& body.len() == len
            &&& body[10] * 256 + body[11] == id.len() % 65536
            &&& body.subrange(12, will_at) == id
            &&& options.last_will matches Some(w) ==> {
                let topic = vstd::utf8::encode_utf8(w.topic);
                let message_at = will_at + 2 + topic.len();
                &&& body[will_at] * 256 + body[will_at + 1] == topic.len() % 65536
                &&& body.subrange(will_at + 2, message_at) == topic
                &&& body[message_at] * 256 + body[message_at + 1] == w.message.len() % 65536
                &&& body.subrange(message_at + 2, message_at + 2 + w.message.len()) == w.message
            }
            &&& options.username matches Some(name) ==> {
                let name = vstd::utf8::encode_utf8(name);
                &&& body[username_at] * 256 + body[username_at + 1] == name.len() % 65536
                &&& body.subrange(username_at + 2, username_at + 2 + name.len()) == name
            }
            &&& options.password matches Some(password) ==> {
                &&& body[password_at] * 256 + body[password_at + 1] == password.len() % 65536
                &&& body.subrange(password_at + 2, password_at + 2 + password.len()) == password
            }
        }),
{
    let head = connect::connect_variable_header(keep_alive_secs, options);
    let payload = connect::connect_payload(client_id, options);
    let will_at = 12 + vstd::utf8::encode_utf8(client_id).len() as int;
    let username_at = will_at + (match options.last_will {
        Some(w) => 4 + vstd::utf8::encode_utf8(w.topic).len() + w.message.len() as int,
        None => 0,
    });
    let password_at = username_at + (match options.username {
        Some(name) => 2 + vstd::utf8::encode_utf8(name).len() as int,
        None => 0,
    });
    let len = password_at + (match options.password {
        Some(password) => 2 + password.len() as int,
        None => 0,
    });
    let whole = connect::connect_packet(client_id, keep_alive_secs, options);
    let body = whole.skip(whole.len() - len);
    assert(head.len() == 10);
    assert(body == head + payload && body.len() == len) by {
        lemma_connect_payload_len(client_id, options);
        lemma_body_of(0x10, head + payload);
    }
    lemma_place_of_id(client_id, options, head, body);
    lemma_place_of_will_in_connect(client_id, options, head, body, will_at);
    lemma_place_of_username(client_id, options, head, body, username_at);
    lemma_place_of_password(client_id, options, head, body, password_at);
}

/// The body of a CONNECT packet, cut in front of each part of its payload.
proof fn lemma_connect_cuts(client_id: Seq<char>, options: ConnectOptionsView, head: Seq<u8>)
    ensures
        ({
            let body = head + connect::connect_payload(client_id, options);
            let id_part = fields::string_field(vstd::utf8::encode_utf8(client_id));
            let will_part = connect::will_fields(options.last_will);
            let username_part = connect::username_field(options.username);
            let password_part = connect::optional_field(options.password);
            &&& body == head + (id_part + (will_part + (username_part + password_part)))
            &&& body == head + id_part + (will_part + (username_part + password_part))
            &&& body == head + id_part + will_part + (username_part + password_part)
            &&& body == head + id_part + will_part + username_part + password_part
        }),
{
    lemma_regroup(
        head,
        fields::string_field(vstd::utf8::encode_utf8(client_id)),
        connect::will_fields(options.last_will),
        connect::username_field(options.username),
        connect::optional_field(options.password),
    );
}

/// Where the client identifier stands in a CONNECT packet.
proof fn lemma_place_of_id(
    client_id: Seq<char>,
    options: ConnectOptionsView,
    head: Seq<u8>,
    body: Seq<u8>,
)
    requires
        body == head + connect::connect_payload(client_id, options),
    ensures
        ({
            let id = vstd::utf8::encode_utf8(client_id);
            let at = head.len() as int;
            &&& body[at] * 256 + body[at + 1] == id.len() % 65536
            &&& body.subrange(at + 2, at + 2 + id.len()) == id
        }),
{
    lemma_connect_cuts(client_id, options, head);
    lemma_field_within(
        head,
        vstd::utf8::encode_utf8(client_id),
        connect::will_fields(options.last_will) + (connect::username_field(options.username)
            + connect::optional_field(options.password)),
    );
}

/// Where the topic and the message of a Last Will stand behind `front`.
proof fn lemma_place_of_will(front: Seq<u8>, will: LastWillView, rest: Seq<u8>)
    ensures
        ({
            let whole = front + (connect::will_fields(Some(will)) + rest);
            let topic = vstd::utf8::encode_utf8(will.topic);
            let at = front.len() as int;
            let message_at = at + 2 + topic.len();
            &&& whole[at] * 256 + whole[at + 1] == topic.len() % 65536
            &&& whole.subrange(at + 2, message_at) == topic
            &&& whole[message_at] * 256 + whole[message_at + 1] == will.message.len() % 65536
            &&& whole.subrange(message_at + 2, message_at + 2 + will.message.len())
                == will.message
        }),
{
    let topic = vstd::utf8::encode_utf8(will.topic);
    let topic_part = fields::string_field(topic);
    let message_part = fields::string_field(will.message);
    let whole = front + (topic_part + message_part + rest);
    assert(topic_part + message_part + rest =~= topic_part + (message_part + rest));
    assert(whole =~= front + topic_part + (message_part + rest));
    lemma_field_within(front, topic, message_part + rest);
    lemma_field_within(front + topic_part, will.message, rest);
}

/// How long the parts of the payload of a CONNECT packet are.
proof fn lemma_part_lengths(client_id: Seq<char>, options: ConnectOptionsView)
    ensures
        fields::string_field(vstd::utf8::encode_utf8(client_id)).len() == 2
            + vstd::utf8::encode_utf8(client_id).len(),
        connect::will_fields(options.last_will).len() == (match options.last_will {
            Some(w) => 4 + vstd::utf8::encode_utf8(w.topic).len() + w.message.len(),
            None => 0,
        }),
        connect::username_field(options.username).len() == (match options.username {
            Some(name) => 2 + vstd::utf8::encode_utf8(name).len(),
            None => 0,
        }),
{
}

/// Where the Last Will stands in a CONNECT packet.
proof fn lemma_place_of_will_in_connect(
    client_id: Seq<char>,
    options: ConnectOptionsView,
    head: Seq<u8>,
    body: Seq<u8>,
    at: int,
)
    requires
        body == head + connect::connect_payload(client_id, options),
        at == head.len() + 2 + vstd::utf8::encode_utf8(client_id).len(),
    ensures
        options.last_will matches Some(w) ==> {
            let topic = vstd::utf8::encode_utf8(w.topic);
            let message_at = at + 2 + topic.len();
            &&& body[at] * 256 + body[at + 1] == topic.len() % 65536
            &&& body.subrange(at + 2, message_at) == topic
            &&& body[message_at] * 256 + body[message_at + 1] == w.message.len() % 65536
            &&& body.subrange(message_at + 2, message_at + 2 + w.message.len()) == w.message
        },
{
    let front = head + fields::string_field(vstd::utf8::encode_utf8(client_id));
    let rest = connect::username_field(options.username) + connect::optional_field(
        options.password,
    );
    lemma_connect_cuts(client_id, options, head);
    lemma_part_lengths(client_id, options);
    if let Some(w) = options.last_will {
        lemma_place_of_will(front, w, rest);
    }
}

/// Where the user name stands in a CONNECT packet.
proof fn lemma_place_of_username(
    client_id: Seq<char>,
    options: ConnectOptionsView,
    head: Seq<u8>,
    body: Seq<u8>,
    at: int,
)
    requires
        body == head + connect::connect_payload(client_id, options),
        at == head.len() + 2 + vstd::utf8::encode_utf8(client_id).len() + (
        match options.last_will {
            Some(w) => 4 + vstd::utf8::encode_utf8(w.topic).len() + w.message.len(),
            None => 0,
        }),
    ensures
        options.username matches Some(name) ==> {
            let name = vstd::utf8::encode_utf8(name);
            &&& body[at] * 256 + body[at + 1] == name.len() % 65536
            &&& body.subrange(at + 2, at + 2 + name.len()) == name
        },
{
    let front = head + fields::string_field(vstd::utf8::encode_utf8(client_id))
        + connect::will_fields(options.last_will);
    lemma_connect_cuts(client_id, options, head);
    lemma_part_lengths(client_id, options);
    if let Some(name) = options.username {
        lemma_field_within(
            front,
            vstd::utf8::encode_utf8(name),
            connect::optional_field(options.password),
        );
    }
}

/// Where the password stands in a CONNECT packet.
proof fn lemma_place_of_password(
    client_id: Seq<char>,
    options: ConnectOptionsView,
    head: Seq<u8>,
    body: Seq<u8>,
    at: int,
)
    requires
        body == head + connect::connect_payload(client_id, options),
        at == head.len() + 2 + vstd::utf8::encode_utf8(client_id).len() + (
        match options.last_will {
            Some(w) => 4 + vstd::utf8::encode_utf8(w.topic).len() + w.message.len(),
            None => 0,
        }) + (match options.username {
            Some(name) => 2 + vstd::utf8::encode_utf8(name).len(),
            None => 0,
        }),
    ensures
        options.password matches Some(password) ==> {
            &&& body[at] * 256 + body[at + 1] == password.len() % 65536
            &&& body.subrange(at + 2, at + 2 + password.len()) == password
        },
{
    let front = head + fields::string_field(vstd::utf8::encode_utf8(client_id))
        + connect::will_fields(options.last_will) + connect::username_field(options.username);
    lemma_connect_cuts(client_id, options, head);
    lemma_part_lengths(client_id, options);
    if let Some(password) = options.password {
        let field = fields::string_field(password);
        assert(field + Seq::<u8>::empty() =~= field);
        lemma_field_within(front, password, Seq::empty());
    }
}

/// The same bytes, cut behind the first, the second, the third or the fourth of five parts.
proof fn lemma_regroup(a: Seq<u8>, b: Seq<u8>, c: Seq<u8>, d: Seq<u8>, e: Seq<u8>)
    ensures
        a + (b + c + d + e) == a + (b + (c + (d + e))),
        a + (b + c + d + e) == a + b + (c + (d + e)),
        a + (b + c + d + e) == a + b + c + (d + e),
        a + (b + c + d + e) == a + b + c + d + e,
{
    assert(b + c + d + e =~= b + (c + (d + e)));
    assert(a + (b + (c + (d + e))) =~= a + b + (c + (d + e)));
    assert(a + b + (c + (d + e)) =~= a + b + c + (d + e));
    assert(a + b + c + (d + e) =~= a + b + c + d + e);
}

/// What options say is what their fields hold; those that are made by default hold nothing.
pub proof fn law_options_view(options: ConnectOptions<'_>)
    ensures
        match options.username {
            Some(name) => options@.username == Some(name@),
            None => options@.username is None,
        },
        match options.password {
            Some(password) => options@.password == Some(password@),
            None => options@.password is None,
        },
        match options.last_will {
            Some(will) => options@.last_will == Some(
                LastWillView { topic: will.topic@, message: will.message@, retain: will.retain },
            ),
            None => options@.last_will is None,
        },
        connect::no_options() == (ConnectOptionsView {
            username: None,
            password: None,
            last_will: None,
        }),
{
}

/// What four bytes say, taken as a CONNACK: they have to start with 0x20 and 0x02, and the last of
/// them is the return code, whatever the third.
pub proof fn law_connack_bytes(connack: Seq<u8>, code: u8)
    ensures
        connect::connack_result(connack) == ConnackResult::Accepted <==> connack[0] == 0x20
            && connack[1] == 0x02 && connack[3] == 0,
        connect::connack_result(connack) == ConnackResult::Refused(code) <==> connack[0] == 0x20
            && connack[1] == 0x02 && connack[3] == code && code != 0,
        connect::connack_result(connack) == ConnackResult::Invalid <==> connack[0] != 0x20
            || connack[1] != 0x02,
{
}

// ---------------------------------------------------------------------------
// PUBLISH
// ---------------------------------------------------------------------------

/// Where a PUBLISH packet has what, byte for byte: the header byte of QoS 0, not a duplicate and
/// not retained; the length of the body; the length of the topic on two bytes, the topic, and the
/// payload up to the end.
pub proof fn law_publish_layout(topic: Seq<char>, payload: Seq<u8>)
    ensures
        ({
            let name = vstd::utf8::encode_utf8(topic);
            let len = 2 + name.len() + payload.len();
            let whole = publish::publish_packet(topic, payload);
            let start = whole.len() - len;
            let body = whole.skip(start);
            &&& start >= 2
            &&& whole[0] == 0x30
            &&& whole.take(start) == seq![0x30u8] + remaining_length::remaining_length_bytes(len)
            &&& body == publish::publish_body(topic, payload)
            &&& body[0] * 256 + body[1] == name.len() % 65536
            &&& forall|i: int| 0 <= i < name.len() ==> #[trigger] body[i + 2] == name[i]
            &&& body.skip(2 + name.len() as int) == payload
        }),
{
    let name = vstd::utf8::encode_utf8(topic);
    let body = publish::publish_body(topic, payload);
    let whole = publish::publish_packet(topic, payload);
    let start = whole.len() - body.len();
    lemma_body_of(0x30, body);
    lemma_field_within(Seq::empty(), name, payload);
    assert(Seq::<u8>::empty() + body =~= body);
    assert(whole.take(start)[0] == whole[0]);
    assert forall|i: int| 0 <= i < name.len() implies #[trigger] body[i + 2] == name[i] by {
        assert(body.subrange(2, 2 + name.len() as int)[i] == body[i + 2]);
    }
}

/// What a receiver takes a PUBLISH packet for, in terms of its bytes alone: the length of the topic
/// on two bytes, the topic, two bytes of packet identifier with a QoS above 0, whatever they are,
/// and the payload up to the end. A body that ends before its payload starts, or whose topic is not
/// UTF-8, carries no message.
pub proof fn law_publish_bytes(header_byte: u8, body: Seq<u8>)
    ensures
        ({
            let topic_end = 2 + body[0] * 256 + body[1];
            let payload_at = if (header_byte / 2) % 4 == 0 {
                topic_end
            } else {
                topic_end + 2
            };
            publish::publish_message(header_byte, body) == (if body.len() < 2 || body.len()
                < payload_at || !vstd::utf8::valid_utf8(body.subrange(2, topic_end)) {
                None
            } else {
                Some(
                    MessageView {
                        topic: vstd::utf8::decode_utf8(body.subrange(2, topic_end)),
                        payload: body.skip(payload_at),
                    },
                )
            })
        }),
{
}

/// What a receiver takes from the body of a PUBLISH packet, for any topic that fits its two-byte
/// length and any payload: with QoS 0 the payload follows the topic, and with a QoS above 0 it
/// follows two more bytes, whatever they are.
pub proof fn law_publish_on_the_wire(
    header_byte: u8,
    topic: Seq<char>,
    packet_id: Seq<u8>,
    payload: Seq<u8>,
)
    requires
        vstd::utf8::encode_utf8(topic).len() < 65536,
        packet_id.len() == if (header_byte / 2) % 4 == 0 {
            0int
        } else {
            2
        },
    ensures
        ({
            let name = vstd::utf8::encode_utf8(topic);
            publish::publish_message(
                header_byte,
                seq![(name.len() / 256) as u8, (name.len() % 256) as u8] + name + packet_id
                    + payload,
            ) == Some(MessageView { topic, payload })
        }),
{
    let name = vstd::utf8::encode_utf8(topic);
    let body = seq![(name.len() / 256) as u8, (name.len() % 256) as u8] + name + packet_id
        + payload;
    law_publish_bytes(header_byte, body);
    assert(body[0] * 256 + body[1] == name.len());
    assert(body.subrange(2, 2 + name.len() as int) =~= name);
    assert(body.skip(2 + name.len() as int + packet_id.len()) =~= payload);
    vstd::utf8::encode_utf8_valid_utf8(topic);
    vstd::utf8::encode_utf8_decode_utf8(topic);
}

/// What the parts of a received PUBLISH packet are, in terms of its bytes alone: the header bytes
/// from 0x30 to 0x3F are those of a PUBLISH, and the body has to reach as far as the topic and, with
/// a QoS above 0, the packet identifier do.
pub proof fn law_publish_parts(header_byte: u8, body: Seq<u8>)
    ensures
        publish::is_publish_header(header_byte) <==> 0x30 <= header_byte <= 0x3F,
        publish::publish_qos(header_byte) == (header_byte & 0x06) >> 1u8,
        publish::publish_topic_len(body) == body[0] * 256 + body[1],
        publish::publish_topic(body) == body.subrange(2, 2 + body[0] * 256 + body[1]),
        publish::publish_payload_start(header_byte, body) == body[0] * 256 + body[1] + (if (
        header_byte / 2) % 4 == 0 {
            2int
        } else {
            4
        }),
        publish::publish_complete(header_byte, body) <==> body.len() >= 2 && body.len() >= body[0]
            * 256 + body[1] + (if (header_byte / 2) % 4 == 0 {
            2int
        } else {
            4
        }),
{
    assert((header_byte & 0x06) >> 1u8 == (header_byte / 2) % 4) by (bit_vector);
}

/// What a message says is what its fields hold.
pub proof fn law_message_view(message: IncomingMessage<'_>)
    ensures
        message@ == (MessageView { topic: message.topic@, payload: message.payload@ }),
{
}

// ---------------------------------------------------------------------------
// SUBSCRIBE
// ---------------------------------------------------------------------------

/// Where a SUBSCRIBE packet has what, byte for byte: the header byte and the length of the body,
/// the packet identifier, the length of the topic on two bytes, the topic, and a QoS of 0, which
/// ends the packet.
pub proof fn law_subscribe_layout(topic: Seq<char>, packet_id: u16)
    ensures
        ({
            let name = vstd::utf8::encode_utf8(topic);
            let len = 5 + name.len();
            let whole = subscribe::subscribe_packet(topic, packet_id);
            let start = whole.len() - len;
            let body = whole.skip(start);
            &&& start >= 2
            &&& whole[0] == 0x82
            &&& whole.take(start) == seq![0x82u8] + remaining_length::remaining_length_bytes(len)
            &&& body == subscribe::subscribe_body(topic, packet_id)
            &&& body[0] * 256 + body[1] == packet_id
            &&& body[2] * 256 + body[3] == name.len() % 65536
            &&& body.subrange(4, 4 + name.len() as int) == name
            &&& body.last() == 0
        }),
{
    let name = vstd::utf8::encode_utf8(topic);
    let body = subscribe::subscribe_body(topic, packet_id);
    let whole = subscribe::subscribe_packet(topic, packet_id);
    let id = fields::be16(packet_id as nat);
    law_be16(packet_id as nat, 0, 0);
    lemma_field_within(id, name, seq![0x00u8]);
    lemma_body_of(0x82, body);
    assert(body[0] == id[0] && body[1] == id[1]);
    assert(whole.take(whole.len() - body.len())[0] == whole[0]);
}

/// What a broker reads in the body of a SUBSCRIBE packet: two bytes of packet identifier, one topic
/// filter and the QoS asked for, and nothing behind it.
pub open spec fn read_subscribe(body: Seq<u8>) -> Option<(nat, Seq<char>, u8)> {
    if body.len() < 2 {
        None
    } else {
        match read_field(body.skip(2)) {
            Some((topic, rest)) => if rest.len() == 1 {
                Some(
                    (
                        (body[0] * 256 + body[1]) as nat,
                        vstd::utf8::decode_utf8(topic),
                        rest[0],
                    ),
                )
            } else {
                None
            },
            None => None,
        }
    }
}

/// A broker reads in a SUBSCRIBE packet exactly what was asked for: the packet identifier, the topic
/// and QoS 0. The topic has to fit its two-byte length.
#[verifier::spinoff_prover]
pub proof fn law_broker_reads_subscribe(topic: Seq<char>, packet_id: u16)
    requires
        vstd::utf8::encode_utf8(topic).len() < 65536,
    ensures
        ({
            &&& read_packet(subscribe::subscribe_packet(topic, packet_id)) matches Some(
                (header, body),
            )
            &&& header == 0x82
            &&& read_subscribe(body) == Some((packet_id as nat, topic, 0u8))
        }),
{
    let name = vstd::utf8::encode_utf8(topic);
    let body = subscribe::subscribe_body(topic, packet_id);
    let id = fields::be16(packet_id as nat);
    let behind_id = fields::string_field(name) + seq![0x00u8];
    assert(body.len() == 5 + name.len());
    lemma_read_packet(0x82, body);
    lemma_read_field(name, seq![0x00u8]);
    law_be16(packet_id as nat, 0, 0);
    assert(body.skip(2) =~= behind_id);
    assert(body[0] == id[0] && body[1] == id[1]);
    assert(read_field(body.skip(2)) == Some((name, seq![0x00u8])));
    vstd::utf8::encode_utf8_decode_utf8(topic);
}

/// A broker reads in a PUBLISH packet exactly what was published: QoS 0, neither a duplicate nor
/// retained, with the topic and, up to the end, the payload. The topic has to fit its two-byte
/// length, and the packet its own.
pub proof fn law_broker_reads_publish(topic: Seq<char>, payload: Seq<u8>)
    requires
        vstd::utf8::encode_utf8(topic).len() < 65536,
        2 + vstd::utf8::encode_utf8(topic).len() + payload.len() < 268435456,
    ensures
        ({
            &&& read_packet(publish::publish_packet(topic, payload)) matches Some((header, body))
            &&& header == 0x30
            &&& read_field(body) == Some((vstd::utf8::encode_utf8(topic), payload))
        }),
{
    let body = publish::publish_body(topic, payload);
    lemma_read_packet(0x30, body);
    lemma_read_field(vstd::utf8::encode_utf8(topic), payload);
}

/// The packet identifier that follows another is one more, and 1 behind 65535.
pub proof fn law_next_packet_id(packet_id: u16)
    ensures
        subscribe::packet_id_after(packet_id) == (if packet_id < 65535 {
            packet_id + 1
        } else {
            1
        }),
{
}

/// What a packet says, taken as a SUBACK: its header byte has to be 0x90 and its body three bytes
/// or more, of which the third refuses where it is 0x80, and accepts otherwise.
pub proof fn law_suback_bytes(header_byte: u8, body: Seq<u8>)
    ensures
        subscribe::suback_result(header_byte, body) == SubackResult::Accepted <==> header_byte
            == 0x90 && body.len() >= 3 && body[2] != 0x80,
        subscribe::suback_result(header_byte, body) == SubackResult::Refused <==> header_byte
            == 0x90 && body.len() >= 3 && body[2] == 0x80,
        subscribe::suback_result(header_byte, body) == SubackResult::Invalid <==> header_byte
            != 0x90 || body.len() < 3,
{
}

// ---------------------------------------------------------------------------
// Pings
// ---------------------------------------------------------------------------

/// The two bytes of a PINGREQ, and those of a PINGRESP.
pub proof fn law_ping_bytes()
    ensures
        ping::pingreq_packet() == seq![0xC0u8, 0x00],
        ping::pingresp_packet() == seq![0xD0u8, 0x00],
{
}

} // verus!
