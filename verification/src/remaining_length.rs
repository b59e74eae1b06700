//! The variable-length "Remaining Length" field: writing it, and reading it a byte at a time.

use crate::builder::{PacketBuilder, MAX_PACKET_SIZE};
use vstd::prelude::*;

verus! {

/// The greatest number of bytes of a Remaining Length that a reader accepts.
pub const MAX_LENGTH_BYTES: usize = 4;

/// The Remaining Length encoding of `n`: seven bits a byte, least significant first, the high bit
/// set on every byte but the last.
pub open spec fn remaining_length_bytes(n: nat) -> Seq<u8>
    decreases n,
{
    if n < 128 {
        seq![n as u8]
    } else {
        seq![(128 + n % 128) as u8] + remaining_length_bytes(n / 128)
    }
}

/// Appends the Remaining Length encoding of `len`.
///
/// Where it does not fit, the bytes that do fit stay behind.
pub fn encode_remaining_length(len: usize, out: &mut PacketBuilder) -> (result: Result<(), ()>)
    ensures
        result is Ok <==> old(out)@.len() + remaining_length_bytes(len as nat).len()
            <= MAX_PACKET_SIZE,
        result is Ok ==> final(out)@ == old(out)@ + remaining_length_bytes(len as nat),
        result is Err ==> final(out)@ == (old(out)@ + remaining_length_bytes(len as nat)).take(
            MAX_PACKET_SIZE as int,
        ),
        final(out)@.len() <= MAX_PACKET_SIZE,
{
    let ghost target = old(out)@ + remaining_length_bytes(len as nat);
    let mut rest: usize = len;
    assert(target =~= out@ + remaining_length_bytes(rest as nat));
    loop
        invariant
            target == old(out)@ + remaining_length_bytes(len as nat),
            target == out@ + remaining_length_bytes(rest as nat),
        decreases rest,
    {
        let ghost before = out@;
        let ghost todo = remaining_length_bytes(rest as nat);
        let mut byte: u8 = (rest % 128) as u8;
        let next: usize = rest / 128;
        if next > 0 {
            assert(byte < 128 ==> byte | 0x80 == 128 + byte) by (bit_vector);
            byte |= 0x80;
        }
        assert(todo.len() >= 1 && todo[0] == byte);
        if out.push(byte).is_err() {
            assert(target.len() > MAX_PACKET_SIZE);
            assert(out@ =~= target.take(MAX_PACKET_SIZE as int));
            return Err(());
        }
        if next == 0 {
            assert(out@ =~= target);
            return Ok(());
        }
        assert(out@ + remaining_length_bytes(next as nat) =~= target);
        rest = next;
    }
}

/// The integer that Remaining Length bytes stand for: the low seven bits of each byte, least
/// significant byte first.
pub open spec fn remaining_length_value(bytes: Seq<u8>) -> nat
    decreases bytes.len(),
{
    if bytes.len() == 0 {
        0
    } else {
        (bytes[0] % 128) as nat + 128 * remaining_length_value(bytes.drop_first())
    }
}

/// What the weight of the byte at position `k` is.
pub open spec fn place_value(k: nat) -> nat
    decreases k,
{
    if k == 0 {
        1
    } else {
        128 * place_value((k - 1) as nat)
    }
}

/// How far a Remaining Length has been read.
pub enum LengthState {
    /// These bytes have been read and more have to follow.
    More(Seq<u8>),
    /// The field is complete and stands for this number.
    Complete(nat),
    /// The field is longer than the protocol allows.
    Malformed,
}

/// Where reading a Remaining Length stands after `bytes`, of which none but the last ends the
/// field.
pub open spec fn length_state(bytes: Seq<u8>) -> LengthState
    recommends
        bytes.len() > 0,
{
    if bytes.last() < 128 {
        LengthState::Complete(remaining_length_value(bytes))
    } else if bytes.len() >= MAX_LENGTH_BYTES {
        LengthState::Malformed
    } else {
        LengthState::More(bytes)
    }
}

/// A Remaining Length that is being read. Its view is the bytes read so far.
pub struct RemainingLengthReader {
    multiplier: usize,
    value: usize,
    read: Ghost<Seq<u8>>,
}

/// What follows from one more byte of a Remaining Length.
pub enum LengthProgress {
    /// The byte announces another one.
    More(RemainingLengthReader),
    /// The byte was the last one; this is the number read.
    Complete(usize),
    /// The byte announces another one where no more are allowed.
    Malformed,
}

impl View for RemainingLengthReader {
    type V = Seq<u8>;

    closed spec fn view(&self) -> Seq<u8> {
        self.read@
    }
}

impl View for LengthProgress {
    type V = LengthState;

    open spec fn view(&self) -> LengthState {
        match self {
            LengthProgress::More(reader) => LengthState::More(reader@),
            LengthProgress::Complete(n) => LengthState::Complete(*n as nat),
            LengthProgress::Malformed => LengthState::Malformed,
        }
    }
}

impl RemainingLengthReader {
    #[verifier::type_invariant]
    spec fn well_formed(self) -> bool {
        &&& self.read@.len() < MAX_LENGTH_BYTES
        &&& self.multiplier == place_value(self.read@.len())
        &&& self.value == remaining_length_value(self.read@)
        &&& self.value < self.multiplier
    }

    /// A reader that has read nothing yet.
    pub fn new() -> (reader: Self)
        ensures
            reader@ == Seq::<u8>::empty(),
    {
        RemainingLengthReader { multiplier: 1, value: 0, read: Ghost(Seq::empty()) }
    }

    /// Takes in the next byte of the field.
    pub fn accept(self, byte: u8) -> (progress: LengthProgress)
        ensures
            progress@ == length_state(self@.push(byte)),
    {
        proof {
            use_type_invariant(&self);
            reveal_with_fuel(place_value, 5);
            lemma_value_push(self.read@, byte);
            assert(byte & 0x7F == byte % 128) by (bit_vector);
            assert(byte & 0x80 == 0 <==> byte < 128) by (bit_vector);
            let low = byte % 128;
            let weight = self.multiplier;
            assert(low * weight + weight <= 128 * weight) by (nonlinear_arith)
                requires
                    0 <= low < 128,
                    0 <= weight,
            ;
        }
        let value: usize = self.value + ((byte & 0x7F) as usize) * self.multiplier;
        if byte & 0x80 == 0 {
            return LengthProgress::Complete(value);
        }
        let multiplier: usize = self.multiplier * 128;
        if multiplier > 128 * 128 * 128 {
            return LengthProgress::Malformed;
        }
        LengthProgress::More(
            RemainingLengthReader { multiplier, value, read: Ghost(self.read@.push(byte)) },
        )
    }
}

/// A byte appended to a Remaining Length adds its low seven bits, weighted by its position.
proof fn lemma_value_push(bytes: Seq<u8>, byte: u8)
    ensures
        remaining_length_value(bytes.push(byte)) == remaining_length_value(bytes) + (byte % 128)
            * place_value(bytes.len()),
    decreases bytes.len(),
{
    let longer = bytes.push(byte);
    let low = (byte % 128) as nat;
    if bytes.len() == 0 {
        assert(longer.drop_first() =~= bytes);
        assert(low * place_value(0) == low) by {
            assert(place_value(0) == 1);
            vstd::arithmetic::mul::lemma_mul_basics(low as int);
        }
    } else {
        assert(longer.drop_first() =~= bytes.drop_first().push(byte));
        lemma_value_push(bytes.drop_first(), byte);
        let weight = place_value((bytes.len() - 1) as nat);
        assert(128 * (low * weight) == low * (128 * weight)) by (nonlinear_arith);
        assert(remaining_length_value(longer) == (bytes[0] % 128) as nat + 128 * (
        remaining_length_value(bytes.drop_first()) + low * weight));
    }
}

// ---------------------------------------------------------------------------
// The field at the front of a stream
// ---------------------------------------------------------------------------

/// What the front of a stream of bytes holds, taken as a Remaining Length.
pub enum LengthField {
    /// The stream ends before the field does.
    Incomplete,
    /// The field is longer than the protocol allows.
    Malformed,
    /// The first `size` bytes are the field and stand for `value`.
    Value { value: nat, size: nat },
}

/// How many bytes at the front of `stream` have their high bit set.
pub open spec fn continuation_run(stream: Seq<u8>) -> nat
    decreases stream.len(),
{
    if stream.len() > 0 && stream[0] >= 128 {
        1 + continuation_run(stream.drop_first())
    } else {
        0
    }
}

/// The Remaining Length at the front of `stream`.
pub open spec fn length_field(stream: Seq<u8>) -> LengthField {
    let run = continuation_run(stream);
    if run >= MAX_LENGTH_BYTES {
        LengthField::Malformed
    } else if run >= stream.len() {
        LengthField::Incomplete
    } else {
        LengthField::Value {
            value: remaining_length_value(stream.take(run as int + 1)),
            size: run + 1,
        }
    }
}

/// What a reader that has taken in `read` makes of `stream`, one byte after the other, together
/// with how many bytes of `stream` it took.
pub open spec fn read_length(read: Seq<u8>, stream: Seq<u8>) -> LengthField
    decreases stream.len(),
{
    if stream.len() == 0 {
        LengthField::Incomplete
    } else {
        match length_state(read.push(stream[0])) {
            LengthState::More(longer) => match read_length(longer, stream.drop_first()) {
                LengthField::Value { value, size } => LengthField::Value { value, size: size + 1 },
                other => other,
            },
            LengthState::Complete(value) => LengthField::Value { value, size: 1 },
            LengthState::Malformed => LengthField::Malformed,
        }
    }
}

/// A reader takes no more bytes than there are.
pub proof fn lemma_read_length_bounds(read: Seq<u8>, stream: Seq<u8>)
    requires
        read.len() < MAX_LENGTH_BYTES,
    ensures
        match read_length(read, stream) {
            LengthField::Incomplete => true,
            LengthField::Malformed => MAX_LENGTH_BYTES <= read.len() + stream.len(),
            LengthField::Value { size, .. } => 1 <= size <= stream.len(),
        },
    decreases stream.len(),
{
    if stream.len() > 0 {
        let longer = read.push(stream[0]);
        if longer.len() < MAX_LENGTH_BYTES {
            lemma_read_length_bounds(longer, stream.drop_first());
        }
    }
}

/// Reading the field a byte at a time finds the field at the front of the stream.
pub proof fn law_reader_finds_length_field(stream: Seq<u8>)
    ensures
        read_length(Seq::empty(), stream) == length_field(stream),
{
    lemma_reader_continues(Seq::empty(), stream);
    assert(Seq::<u8>::empty() + stream =~= stream);
}

/// A reader in the middle of a field gives what is left of the field of the whole stream.
proof fn lemma_reader_continues(read: Seq<u8>, stream: Seq<u8>)
    requires
        read.len() < MAX_LENGTH_BYTES,
        forall|i: int| 0 <= i < read.len() ==> read[i] >= 128,
    ensures
        match length_field(read + stream) {
            LengthField::Value { value, size } => size > read.len() && read_length(read, stream)
                == (LengthField::Value { value, size: (size - read.len()) as nat }),
            other => read_length(read, stream) == other,
        },
    decreases stream.len(),
{
    let whole = read + stream;
    lemma_run_prefix(read, stream);
    if stream.len() == 0 {
    } else {
        let longer = read.push(stream[0]);
        assert(longer + stream.drop_first() =~= whole);
        if stream[0] < 128 {
            assert(whole.take(read.len() as int + 1) =~= longer);
        } else if longer.len() < MAX_LENGTH_BYTES {
            lemma_reader_continues(longer, stream.drop_first());
        } else {
        }
    }
}

/// A front of bytes with the high bit set lengthens the run by as many.
proof fn lemma_run_prefix(front: Seq<u8>, stream: Seq<u8>)
    requires
        forall|i: int| 0 <= i < front.len() ==> front[i] >= 128,
    ensures
        continuation_run(front + stream) == front.len() + continuation_run(stream),
    decreases front.len(),
{
    if front.len() == 0 {
        assert(front + stream =~= stream);
    } else {
        assert((front + stream).drop_first() =~= front.drop_first() + stream);
        lemma_run_prefix(front.drop_first(), stream);
    }
}

/// Reading undoes writing: whatever follows it, the encoding of a number of at most four
/// seven-bit groups reads back as that number, and no byte more is taken. The encoding of a
/// greater number is refused.
pub proof fn law_length_round_trip(n: nat, rest: Seq<u8>)
    ensures
        n < 268_435_456 ==> length_field(remaining_length_bytes(n) + rest) == (LengthField::Value {
            value: n,
            size: remaining_length_bytes(n).len(),
        }),
        n >= 268_435_456 ==> length_field(remaining_length_bytes(n) + rest)
            == LengthField::Malformed,
{
    let bytes = remaining_length_bytes(n);
    lemma_encoding(n, rest);
    law_length_size(n, 4);
    reveal_with_fuel(place_value, 5);
    assert((bytes + rest).take(bytes.len() as int) =~= bytes);
}

/// Whether `bytes` are a complete Remaining Length, of at most four bytes, that stands for `n`. Any
/// number of bytes will do: a field may be longer than it needs to be.
pub open spec fn encodes_length(bytes: Seq<u8>, n: nat) -> bool {
    length_field(bytes) == (LengthField::Value { value: n, size: bytes.len() })
}

/// A complete field is read the same whatever follows it.
pub proof fn law_length_field_is_self_delimiting(bytes: Seq<u8>, n: nat, rest: Seq<u8>)
    requires
        encodes_length(bytes, n),
    ensures
        length_field(bytes + rest) == (LengthField::Value { value: n, size: bytes.len() }),
{
    lemma_run_extends(bytes, rest);
    assert((bytes + rest).take(bytes.len() as int) =~= bytes.take(bytes.len() as int));
}

/// A run that ends within `front` ends at the same place whatever follows.
proof fn lemma_run_extends(front: Seq<u8>, rest: Seq<u8>)
    requires
        continuation_run(front) < front.len(),
    ensures
        continuation_run(front + rest) == continuation_run(front),
    decreases front.len(),
{
    if front[0] >= 128 {
        assert((front + rest).drop_first() =~= front.drop_first() + rest);
        lemma_run_extends(front.drop_first(), rest);
    }
}

/// The encoding that is written is a complete field.
pub proof fn law_written_length_is_complete(n: nat)
    requires
        n < 268_435_456,
    ensures
        encodes_length(remaining_length_bytes(n), n),
{
    law_length_round_trip(n, Seq::empty());
    assert(remaining_length_bytes(n) + Seq::<u8>::empty() =~= remaining_length_bytes(n));
}

/// What the encoding of `n` stands for, and where it ends.
proof fn lemma_encoding(n: nat, rest: Seq<u8>)
    ensures
        remaining_length_bytes(n).len() >= 1,
        remaining_length_value(remaining_length_bytes(n)) == n,
        continuation_run(remaining_length_bytes(n) + rest) == remaining_length_bytes(n).len() - 1,
    decreases n,
{
    let bytes = remaining_length_bytes(n);
    if n < 128 {
        assert(bytes.drop_first() =~= Seq::<u8>::empty());
        reveal_with_fuel(remaining_length_value, 2);
    } else {
        let tail = remaining_length_bytes(n / 128);
        lemma_encoding(n / 128, rest);
        assert(bytes.drop_first() =~= tail);
        assert((bytes + rest).drop_first() =~= tail + rest);
    }
}

/// A number takes at most `k` bytes exactly where it is below the `k`-th power of 128.
pub proof fn law_length_size(n: nat, k: nat)
    requires
        k >= 1,
    ensures
        remaining_length_bytes(n).len() <= k <==> n < place_value(k),
    decreases k,
{
    reveal_with_fuel(place_value, 2);
    if n < 128 {
        lemma_place_value_grows(k);
    } else if k == 1 {
        lemma_encoding(n / 128, Seq::empty());
    } else {
        law_length_size(n / 128, (k - 1) as nat);
        let weight = place_value((k - 1) as nat);
        assert(n / 128 < weight <==> n < 128 * weight);
    }
}

proof fn lemma_place_value_grows(k: nat)
    requires
        k >= 1,
    ensures
        place_value(k) >= 128,
    decreases k,
{
    reveal_with_fuel(place_value, 2);
    if k > 1 {
        lemma_place_value_grows((k - 1) as nat);
    }
}

/// Writing undoes reading where the field does not end in a byte that adds nothing: the number
/// read is encoded by the very bytes that it was read from.
pub proof fn law_length_canonical(stream: Seq<u8>)
    ensures
        length_field(stream) matches LengthField::Value { value, size } ==> {
            &&& 1 <= size <= MAX_LENGTH_BYTES
            &&& size <= stream.len()
            &&& value < 268_435_456
            &&& (size == 1 || stream[size - 1] != 0) ==> stream.take(size as int)
                == remaining_length_bytes(value)
        },
{
    if let LengthField::Value { value, size } = length_field(stream) {
        lemma_run_bytes(stream);
        let bytes = stream.take(size as int);
        lemma_value_bound(bytes);
        reveal_with_fuel(place_value, 5);
        lemma_place_value_monotonic(size, 4);
        if size == 1 || stream[size - 1] != 0 {
            lemma_canonical(bytes);
        }
    }
}

proof fn lemma_run_bytes(stream: Seq<u8>)
    ensures
        continuation_run(stream) <= stream.len(),
        forall|i: int| 0 <= i < continuation_run(stream) ==> stream[i] >= 128,
        continuation_run(stream) < stream.len() ==> stream[continuation_run(stream) as int] < 128,
    decreases stream.len(),
{
    if stream.len() > 0 && stream[0] >= 128 {
        let tail = stream.drop_first();
        lemma_run_bytes(tail);
        assert forall|i: int| 0 <= i < continuation_run(stream) implies stream[i] >= 128 by {
            if i > 0 {
                assert(tail[i - 1] >= 128);
            }
        }
    }
}

proof fn lemma_value_bound(bytes: Seq<u8>)
    ensures
        remaining_length_value(bytes) < place_value(bytes.len()),
    decreases bytes.len(),
{
    if bytes.len() > 0 {
        lemma_value_bound(bytes.drop_first());
    }
}

proof fn lemma_place_value_monotonic(j: nat, k: nat)
    requires
        j <= k,
    ensures
        place_value(j) <= place_value(k),
    decreases k,
{
    if j < k {
        lemma_place_value_monotonic(j, (k - 1) as nat);
    }
}

proof fn lemma_canonical(bytes: Seq<u8>)
    requires
        bytes.len() >= 1,
        forall|i: int| 0 <= i < bytes.len() - 1 ==> bytes[i] >= 128,
        bytes.last() < 128,
        bytes.len() == 1 || bytes.last() != 0,
    ensures
        remaining_length_bytes(remaining_length_value(bytes)) == bytes,
        bytes.len() > 1 ==> remaining_length_value(bytes) >= 128,
        bytes.last() != 0 ==> remaining_length_value(bytes) > 0,
    decreases bytes.len(),
{
    let tail = bytes.drop_first();
    let n = remaining_length_value(bytes);
    if bytes.len() == 1 {
        assert(tail =~= Seq::<u8>::empty());
        assert(remaining_length_value(tail) == 0);
        assert(remaining_length_bytes(n) =~= bytes);
    } else {
        assert(tail.last() == bytes.last());
        lemma_canonical(tail);
        assert(n / 128 == remaining_length_value(tail));
        assert(remaining_length_bytes(n) =~= bytes);
    }
}

} // verus!
