//! Opening a session: the CONNECT packet and the CONNACK that answers it.

use crate::builder::{PacketBuilder, MAX_PACKET_SIZE};
use crate::fields;
use crate::fields::{push_string_field, u16_to_be_bytes};
use crate::packet;
use crate::packet::frame_packet;
use vstd::prelude::*;

verus! {

/// The header byte of a CONNECT packet.
pub const CONNECT: u8 = 0x10;

/// Optional parts of a connection: authentication and Last Will.
pub struct ConnectOptions<'a> {
    pub username: Option<&'a str>,
    pub password: Option<&'a [u8]>,
    pub last_will: Option<LastWill<'a>>,
}

/// A message that the broker publishes by itself where the connection is lost abnormally (crash,
/// power cut, keep-alive timeout).
pub struct LastWill<'a> {
    pub topic: &'a str,
    pub message: &'a [u8],
    pub retain: bool,
}

/// What a [`LastWill`] says.
pub struct LastWillView {
    pub topic: Seq<char>,
    pub message: Seq<u8>,
    pub retain: bool,
}

/// What [`ConnectOptions`] say.
pub struct ConnectOptionsView {
    pub username: Option<Seq<char>>,
    pub password: Option<Seq<u8>>,
    pub last_will: Option<LastWillView>,
}

impl<'a> View for LastWill<'a> {
    type V = LastWillView;

    open spec fn view(&self) -> LastWillView {
        LastWillView { topic: self.topic@, message: self.message@, retain: self.retain }
    }
}

impl<'a> View for ConnectOptions<'a> {
    type V = ConnectOptionsView;

    open spec fn view(&self) -> ConnectOptionsView {
        ConnectOptionsView {
            username: match self.username {
                Some(username) => Some(username@),
                None => None,
            },
            password: match self.password {
                Some(password) => Some(password@),
                None => None,
            },
            last_will: match self.last_will {
                Some(will) => Some(will@),
                None => None,
            },
        }
    }
}

/// No authentication and no Last Will.
pub open spec fn no_options() -> ConnectOptionsView {
    ConnectOptionsView { username: None, password: None, last_will: None }
}

impl<'a> Default for ConnectOptions<'a> {
    fn default() -> (options: Self)
        ensures
            options@ == no_options(),
    {
        ConnectOptions { username: None, password: None, last_will: None }
    }
}

/// The connect flags: Clean Session always, and one flag for each option that is there. The Last
/// Will is of QoS 0.
pub open spec fn connect_flags(options: ConnectOptionsView) -> u8 {
    let will: int = match options.last_will {
        Some(will) => if will.retain {
            0x24
        } else {
            0x04
        },
        None => 0,
    };
    let username: int = if options.username is Some {
        0x80
    } else {
        0
    };
    let password: int = if options.password is Some {
        0x40
    } else {
        0
    };
    (0x02 + will + username + password) as u8
}

/// The string field of an optional value, or nothing.
pub open spec fn optional_field(value: Option<Seq<u8>>) -> Seq<u8> {
    match value {
        Some(value) => fields::string_field(value),
        None => Seq::empty(),
    }
}

/// The string fields of an optional Last Will, or nothing.
pub open spec fn will_fields(will: Option<LastWillView>) -> Seq<u8> {
    match will {
        Some(will) => fields::string_field(vstd::utf8::encode_utf8(will.topic))
            + fields::string_field(will.message),
        None => Seq::empty(),
    }
}

/// The string field of an optional user name, or nothing.
pub open spec fn username_field(username: Option<Seq<char>>) -> Seq<u8> {
    match username {
        Some(username) => fields::string_field(vstd::utf8::encode_utf8(username)),
        None => Seq::empty(),
    }
}

/// The variable header of a CONNECT packet: the protocol name "MQTT", the protocol level 4, the
/// flags and the keep-alive time.
pub open spec fn connect_variable_header(
    keep_alive_secs: u16,
    options: ConnectOptionsView,
) -> Seq<u8> {
    seq![0x00, 0x04, 0x4D, 0x51, 0x54, 0x54, 0x04, connect_flags(options)] + fields::be16(
        keep_alive_secs as nat,
    )
}

/// The payload of a CONNECT packet: the client identifier, then the options that are there.
pub open spec fn connect_payload(client_id: Seq<char>, options: ConnectOptionsView) -> Seq<u8> {
    fields::string_field(vstd::utf8::encode_utf8(client_id)) + will_fields(options.last_will)
        + username_field(options.username) + optional_field(options.password)
}

/// The CONNECT packet that asks for a clean session.
pub open spec fn connect_packet(
    client_id: Seq<char>,
    keep_alive_secs: u16,
    options: ConnectOptionsView,
) -> Seq<u8> {
    packet::framed(
        CONNECT,
        connect_variable_header(keep_alive_secs, options) + connect_payload(client_id, options),
    )
}

/// The flags of the options that are there.
fn flags_of(options: &ConnectOptions<'_>) -> (flags: u8)
    ensures
        flags == connect_flags(options@),
{
    let mut flags: u8 = 0x02;
    if let Some(will) = &options.last_will {
        flags |= 0x04;
        if will.retain {
            flags |= 0x20;
        }
    }
    if options.username.is_some() {
        flags |= 0x80;
    }
    if options.password.is_some() {
        flags |= 0x40;
    }
    proof {
        assert(0x02u8 | 0x04 == 0x06 && 0x06u8 | 0x20 == 0x26) by (bit_vector);
        assert(0x02u8 | 0x80 == 0x82 && 0x06u8 | 0x80 == 0x86 && 0x26u8 | 0x80 == 0xA6)
            by (bit_vector);
        assert(0x02u8 | 0x40 == 0x42 && 0x06u8 | 0x40 == 0x46 && 0x26u8 | 0x40 == 0x66)
            by (bit_vector);
        assert(0x82u8 | 0x40 == 0xC2 && 0x86u8 | 0x40 == 0xC6 && 0xA6u8 | 0x40 == 0xE6)
            by (bit_vector);
    }
    flags
}

/// Builds the CONNECT packet that asks for a clean session.
///
/// Fails exactly where the packet is longer than `MAX_PACKET_SIZE`.
pub fn build_connect_packet(
    client_id: &str,
    keep_alive_secs: u16,
    options: &ConnectOptions<'_>,
) -> (result: Result<PacketBuilder, ()>)
    ensures
        result is Ok <==> connect_packet(client_id@, keep_alive_secs, options@).len()
            <= MAX_PACKET_SIZE,
        result matches Ok(packet) ==> packet@ == connect_packet(
            client_id@,
            keep_alive_secs,
            options@,
        ),
{
    let ghost id_field = fields::string_field(vstd::utf8::encode_utf8(client_id@));
    let ghost will_part = will_fields(options@.last_will);
    let ghost username_part = username_field(options@.username);
    let ghost password_part = optional_field(options@.password);
    assert(connect_payload(client_id@, options@) == id_field + will_part + username_part
        + password_part);

    let mut variable_header = PacketBuilder::new();
    let protocol: [u8; 7] = [0x00, 0x04, 0x4D, 0x51, 0x54, 0x54, 0x04];
    if variable_header.extend(&protocol).is_err()
        || variable_header.push(flags_of(options)).is_err()
        || variable_header.extend(&u16_to_be_bytes(keep_alive_secs)).is_err() {
        return Err(());
    }
    assert(variable_header@ =~= connect_variable_header(keep_alive_secs, options@));

    let mut payload = PacketBuilder::new();
    if push_string_field(&mut payload, client_id.as_bytes()).is_err() {
        return Err(());
    }
    assert(payload@ =~= id_field);
    if let Some(will) = &options.last_will {
        if push_string_field(&mut payload, will.topic.as_bytes()).is_err() {
            return Err(());
        }
        if push_string_field(&mut payload, will.message).is_err() {
            return Err(());
        }
    }
    assert(payload@ =~= id_field + will_part);
    if let Some(username) = options.username {
        if push_string_field(&mut payload, username.as_bytes()).is_err() {
            return Err(());
        }
    }
    assert(payload@ =~= id_field + will_part + username_part);
    if let Some(password) = options.password {
        if push_string_field(&mut payload, password).is_err() {
            return Err(());
        }
    }
    assert(payload@ =~= connect_payload(client_id@, options@));
    frame_packet(CONNECT, variable_header.as_slice(), payload.as_slice())
}

/// What a CONNACK says.
#[derive(Debug, PartialEq, Eq, Structural)]
pub enum ConnackResult {
    /// The connection is accepted.
    Accepted,
    /// The connection is refused, with this return code.
    Refused(u8),
    /// The packet is no CONNACK.
    Invalid,
}

/// Reads a CONNACK: a header byte 0x20, a Remaining Length of 2, a byte of flags and the return
/// code, which is zero where the connection is accepted.
pub fn parse_connack(connack: [u8; 4]) -> (result: ConnackResult)
    ensures
        result == connack_result(connack@),
{
    if connack[0] != 0x20 || connack[1] != 0x02 {
        return ConnackResult::Invalid;
    }
    if connack[3] != 0x00 {
        return ConnackResult::Refused(connack[3]);
    }
    ConnackResult::Accepted
}

/// What the four bytes of a CONNACK say.
pub open spec fn connack_result(connack: Seq<u8>) -> ConnackResult {
    if connack[0] != 0x20 || connack[1] != 0x02 {
        ConnackResult::Invalid
    } else if connack[3] == 0 {
        ConnackResult::Accepted
    } else {
        ConnackResult::Refused(connack[3])
    }
}

// ---------------------------------------------------------------------------
// What a CONNECT packet gives away
// ---------------------------------------------------------------------------

/// What each connect flag means: a clean session is always asked for, the Last Will has QoS 0, the
/// reserved bit is 0, and the other flags are set exactly where their option is there.
pub proof fn law_connect_flags(options: ConnectOptionsView)
    ensures
        connect_flags(options) & 0x02 == 0x02,
        connect_flags(options) & 0x18 == 0,
        connect_flags(options) & 0x01 == 0,
        connect_flags(options) & 0x04 != 0 <==> options.last_will is Some,
        connect_flags(options) & 0x20 != 0 <==> options.last_will is Some
            && options.last_will->0.retain,
        connect_flags(options) & 0x80 != 0 <==> options.username is Some,
        connect_flags(options) & 0x40 != 0 <==> options.password is Some,
{
    let flags = connect_flags(options);
    assert(flags & 0x02 == 0x02 <==> (flags / 2) % 2 == 1) by (bit_vector);
    assert(flags & 0x18 == 0 <==> (flags / 8) % 4 == 0) by (bit_vector);
    assert(flags & 0x01 == 0 <==> flags % 2 == 0) by (bit_vector);
    assert(flags & 0x04 != 0 <==> (flags / 4) % 2 == 1) by (bit_vector);
    assert(flags & 0x20 != 0 <==> (flags / 32) % 2 == 1) by (bit_vector);
    assert(flags & 0x80 != 0 <==> flags / 128 == 1) by (bit_vector);
    assert(flags & 0x40 != 0 <==> (flags / 64) % 2 == 1) by (bit_vector);
}

/// Whether two choices of options have the same options set, and the same retain flag.
spec fn same_shape(options1: ConnectOptionsView, options2: ConnectOptionsView) -> bool {
    &&& options1.username is Some <==> options2.username is Some
    &&& options1.password is Some <==> options2.password is Some
    &&& options1.last_will is Some <==> options2.last_will is Some
    &&& options1.last_will is Some ==> options1.last_will->0.retain
        == options2.last_will->0.retain
}

/// Connections that differ in the client identifier, the keep-alive time or any option are asked
/// for by different packets.
pub proof fn law_connect_packet_is_faithful(
    client_id1: Seq<char>,
    keep_alive1: u16,
    options1: ConnectOptionsView,
    client_id2: Seq<char>,
    keep_alive2: u16,
    options2: ConnectOptionsView,
)
    requires
        connect_packet(client_id1, keep_alive1, options1).len() <= MAX_PACKET_SIZE,
        connect_packet(client_id1, keep_alive1, options1) == connect_packet(
            client_id2,
            keep_alive2,
            options2,
        ),
    ensures
        client_id1 == client_id2,
        keep_alive1 == keep_alive2,
        options1 == options2,
{
    let header1 = connect_variable_header(keep_alive1, options1);
    let header2 = connect_variable_header(keep_alive2, options2);
    let payload1 = connect_payload(client_id1, options1);
    let payload2 = connect_payload(client_id2, options2);
    packet::lemma_framed_body(CONNECT, header1 + payload1, header2 + payload2);
    assert((header1 + payload1).take(10) =~= header1);
    assert((header2 + payload2).take(10) =~= header2);
    assert((header1 + payload1).skip(10) =~= payload1);
    assert((header2 + payload2).skip(10) =~= payload2);
    lemma_variable_header_tells(keep_alive1, options1, keep_alive2, options2);
    lemma_payload_tells(client_id1, options1, client_id2, options2);
}

/// The variable header tells the keep-alive time and which options there are.
proof fn lemma_variable_header_tells(
    keep_alive1: u16,
    options1: ConnectOptionsView,
    keep_alive2: u16,
    options2: ConnectOptionsView,
)
    requires
        connect_variable_header(keep_alive1, options1) == connect_variable_header(
            keep_alive2,
            options2,
        ),
    ensures
        keep_alive1 == keep_alive2,
        same_shape(options1, options2),
{
    let header1 = connect_variable_header(keep_alive1, options1);
    let header2 = connect_variable_header(keep_alive2, options2);
    assert(header1[7] == connect_flags(options1) && header2[7] == connect_flags(options2));
    assert(header1.skip(8) =~= fields::be16(keep_alive1 as nat) + Seq::<u8>::empty());
    assert(header2.skip(8) =~= fields::be16(keep_alive2 as nat) + Seq::<u8>::empty());
    fields::lemma_be16_prefix(
        keep_alive1 as nat,
        Seq::empty(),
        keep_alive2 as nat,
        Seq::empty(),
    );
}

/// Four parts of a payload, taken as one part and what follows it.
proof fn lemma_regroup(a: Seq<u8>, b: Seq<u8>, c: Seq<u8>, d: Seq<u8>)
    ensures
        a + b + c + d == a + (b + (c + d)),
{
    assert(a + b + c + d =~= a + (b + (c + d)));
}

/// The payload tells the client identifier and what the options hold.
proof fn lemma_payload_tells(
    client_id1: Seq<char>,
    options1: ConnectOptionsView,
    client_id2: Seq<char>,
    options2: ConnectOptionsView,
)
    requires
        connect_payload(client_id1, options1) == connect_payload(client_id2, options2),
        connect_payload(client_id1, options1).len() < 65536,
        same_shape(options1, options2),
    ensures
        client_id1 == client_id2,
        options1 == options2,
{
    let id1 = vstd::utf8::encode_utf8(client_id1);
    let id2 = vstd::utf8::encode_utf8(client_id2);
    let will1 = will_fields(options1.last_will);
    let will2 = will_fields(options2.last_will);
    let credentials1 = username_field(options1.username) + optional_field(options1.password);
    let credentials2 = username_field(options2.username) + optional_field(options2.password);
    lemma_regroup(
        fields::string_field(id1),
        will1,
        username_field(options1.username),
        optional_field(options1.password),
    );
    lemma_regroup(
        fields::string_field(id2),
        will2,
        username_field(options2.username),
        optional_field(options2.password),
    );
    fields::lemma_string_field_prefix(id1, will1 + credentials1, id2, will2 + credentials2);
    vstd::utf8::encode_utf8_decode_utf8(client_id1);
    vstd::utf8::encode_utf8_decode_utf8(client_id2);
    lemma_will_fields_prefix(options1.last_will, credentials1, options2.last_will, credentials2);
    lemma_credentials_tell(options1, options2);
}

/// The fields behind the Last Will tell the user name and the password.
proof fn lemma_credentials_tell(options1: ConnectOptionsView, options2: ConnectOptionsView)
    requires
        username_field(options1.username) + optional_field(options1.password) == username_field(
            options2.username,
        ) + optional_field(options2.password),
        (username_field(options1.username) + optional_field(options1.password)).len() < 65536,
        same_shape(options1, options2),
    ensures
        options1.username == options2.username,
        options1.password == options2.password,
{
    let password1 = optional_field(options1.password);
    let password2 = optional_field(options2.password);
    if options1.username is Some {
        let username1 = options1.username->0;
        let username2 = options2.username->0;
        fields::lemma_string_field_prefix(
            vstd::utf8::encode_utf8(username1),
            password1,
            vstd::utf8::encode_utf8(username2),
            password2,
        );
        vstd::utf8::encode_utf8_decode_utf8(username1);
        vstd::utf8::encode_utf8_decode_utf8(username2);
    } else {
        assert(username_field(options1.username) + password1 =~= password1);
        assert(username_field(options2.username) + password2 =~= password2);
    }
    if options1.password is Some {
        assert(password1 =~= password1 + Seq::<u8>::empty());
        assert(password2 =~= password2 + Seq::<u8>::empty());
        fields::lemma_string_field_prefix(
            options1.password->0,
            Seq::empty(),
            options2.password->0,
            Seq::empty(),
        );
    }
}

/// The fields of a Last Will at the front of bytes can be told from what follows them.
proof fn lemma_will_fields_prefix(
    will1: Option<LastWillView>,
    rest1: Seq<u8>,
    will2: Option<LastWillView>,
    rest2: Seq<u8>,
)
    requires
        will1 is Some <==> will2 is Some,
        will1 is Some ==> will1->0.retain == will2->0.retain,
        will_fields(will1).len() < 65536,
        will_fields(will2).len() < 65536,
        will_fields(will1) + rest1 == will_fields(will2) + rest2,
    ensures
        will1 == will2,
        rest1 == rest2,
{
    if will1 is Some {
        let topic1 = vstd::utf8::encode_utf8(will1->0.topic);
        let topic2 = vstd::utf8::encode_utf8(will2->0.topic);
        let behind1 = fields::string_field(will1->0.message) + rest1;
        let behind2 = fields::string_field(will2->0.message) + rest2;
        assert(will_fields(will1) + rest1 =~= fields::string_field(topic1) + behind1);
        assert(will_fields(will2) + rest2 =~= fields::string_field(topic2) + behind2);
        fields::lemma_string_field_prefix(topic1, behind1, topic2, behind2);
        fields::lemma_string_field_prefix(will1->0.message, rest1, will2->0.message, rest2);
        vstd::utf8::encode_utf8_decode_utf8(will1->0.topic);
        vstd::utf8::encode_utf8_decode_utf8(will2->0.topic);
    } else {
        assert(will_fields(will1) + rest1 =~= rest1);
        assert(will_fields(will2) + rest2 =~= rest2);
    }
}

} // verus!
