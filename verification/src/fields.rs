//! Two-byte integers and length-prefixed string fields.

use crate::builder::{PacketBuilder, MAX_PACKET_SIZE};
use vstd::prelude::*;

verus! {

/// The low sixteen bits of `n`, most significant byte first.
pub open spec fn be16(n: nat) -> Seq<u8> {
    seq![((n / 256) % 256) as u8, (n % 256) as u8]
}

/// The integer that two bytes stand for, most significant byte first.
pub open spec fn be16_value(high: u8, low: u8) -> nat {
    (high * 256 + low) as nat
}

/// A string field: the length of `s` on two bytes, then `s` itself.
pub open spec fn string_field(s: Seq<u8>) -> Seq<u8> {
    be16(s.len()) + s
}

/// Splits `n` into its two bytes, most significant first.
pub fn u16_to_be_bytes(n: u16) -> (bytes: [u8; 2])
    ensures
        bytes@ == be16(n as nat),
{
    let bytes = [(n / 256) as u8, (n % 256) as u8];
    assert(bytes@ =~= be16(n as nat));
    bytes
}

/// Joins two bytes, most significant first.
pub fn u16_from_be_bytes(high: u8, low: u8) -> (n: u16)
    ensures
        n == be16_value(high, low),
{
    (high as u16) * 256 + (low as u16)
}

/// Appends the string field of `s`.
///
/// Where the two length bytes fit and the string does not, the length bytes stay behind.
pub fn push_string_field(builder: &mut PacketBuilder, s: &[u8]) -> (result: Result<(), ()>)
    ensures
        result is Ok <==> old(builder)@.len() + string_field(s@).len() <= MAX_PACKET_SIZE,
        result is Ok ==> final(builder)@ == old(builder)@ + string_field(s@),
        result is Err ==> final(builder)@ == old(builder)@ + (if old(builder)@.len() + 2
            <= MAX_PACKET_SIZE {
            be16(s@.len())
        } else {
            Seq::<u8>::empty()
        }),
        final(builder)@.len() <= MAX_PACKET_SIZE,
{
    let length = u16_to_be_bytes((s.len() % 65536) as u16);
    assert(length@ =~= be16(s@.len()));
    if builder.extend(&length).is_err() {
        assert(builder@ =~= old(builder)@ + Seq::<u8>::empty());
        return Err(());
    }
    let result = builder.extend(s);
    assert(old(builder)@ + be16(s@.len()) + s@ =~= old(builder)@ + string_field(s@));
    result
}

/// A two-byte integer at the front of bytes can be told from what follows it.
pub proof fn lemma_be16_prefix(n1: nat, rest1: Seq<u8>, n2: nat, rest2: Seq<u8>)
    requires
        n1 < 65536,
        n2 < 65536,
    ensures
        be16(n1) + rest1 == be16(n2) + rest2 ==> n1 == n2 && rest1 == rest2,
{
    let whole1 = be16(n1) + rest1;
    let whole2 = be16(n2) + rest2;
    if whole1 == whole2 {
        assert(whole1[0] == whole2[0] && whole1[1] == whole2[1]);
        assert(whole1.skip(2) =~= rest1);
        assert(whole2.skip(2) =~= rest2);
    }
}

/// A string field at the front of bytes can be told from what follows it.
pub proof fn lemma_string_field_prefix(s1: Seq<u8>, rest1: Seq<u8>, s2: Seq<u8>, rest2: Seq<u8>)
    requires
        s1.len() < 65536,
        s2.len() < 65536,
    ensures
        string_field(s1) + rest1 == string_field(s2) + rest2 ==> s1 == s2 && rest1 == rest2,
{
    let whole1 = string_field(s1) + rest1;
    let whole2 = string_field(s2) + rest2;
    if whole1 == whole2 {
        assert(whole1 =~= be16(s1.len()) + (s1 + rest1));
        assert(whole2 =~= be16(s2.len()) + (s2 + rest2));
        lemma_be16_prefix(s1.len(), s1 + rest1, s2.len(), s2 + rest2);
        assert((s1 + rest1).take(s1.len() as int) =~= s1);
        assert((s2 + rest2).take(s2.len() as int) =~= s2);
        assert((s1 + rest1).skip(s1.len() as int) =~= rest1);
        assert((s2 + rest2).skip(s2.len() as int) =~= rest2);
    }
}

} // verus!
