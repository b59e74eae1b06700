//! A packet buffer of fixed size, filled from the front without any heap allocation.

use vstd::prelude::*;

verus! {

/// The greatest number of bytes of a packet that this crate builds.
pub const MAX_PACKET_SIZE: usize = 256;

/// A packet under construction. Its view is the bytes appended so far.
pub struct PacketBuilder {
    buf: [u8; MAX_PACKET_SIZE],
    len: usize,
}

impl View for PacketBuilder {
    type V = Seq<u8>;

    closed spec fn view(&self) -> Seq<u8> {
        self.buf@.subrange(0, self.len as int)
    }
}

impl PacketBuilder {
    #[verifier::type_invariant]
    spec fn well_formed(self) -> bool {
        self.len <= MAX_PACKET_SIZE
    }

    /// An empty packet.
    pub fn new() -> (packet: Self)
        ensures
            packet@ == Seq::<u8>::empty(),
    {
        let packet = PacketBuilder { buf: [0u8; MAX_PACKET_SIZE], len: 0 };
        assert(packet@ =~= Seq::<u8>::empty());
        packet
    }

    /// The number of bytes appended so far.
    pub fn len(&self) -> (n: usize)
        ensures
            n == self@.len(),
            n <= MAX_PACKET_SIZE,
    {
        proof {
            use_type_invariant(self);
        }
        self.len
    }

    /// Appends one byte. A full packet refuses it and stays as it is.
    pub fn push(&mut self, byte: u8) -> (result: Result<(), ()>)
        ensures
            result is Ok <==> old(self)@.len() < MAX_PACKET_SIZE,
            result is Ok ==> final(self)@ == old(self)@.push(byte),
            result is Err ==> final(self)@ == old(self)@,
            final(self)@.len() <= MAX_PACKET_SIZE,
    {
        proof {
            use_type_invariant(&*self);
        }
        if self.len >= MAX_PACKET_SIZE {
            return Err(());
        }
        self.buf[self.len] = byte;
        self.len += 1;
        assert(self@ =~= old(self)@.push(byte));
        Ok(())
    }

    /// Appends all of `bytes`. Where they do not fit, none is appended.
    pub fn extend(&mut self, bytes: &[u8]) -> (result: Result<(), ()>)
        ensures
            result is Ok <==> old(self)@.len() + bytes@.len() <= MAX_PACKET_SIZE,
            result is Ok ==> final(self)@ == old(self)@ + bytes@,
            result is Err ==> final(self)@ == old(self)@,
            final(self)@.len() <= MAX_PACKET_SIZE,
    {
        proof {
            use_type_invariant(&*self);
        }
        if bytes.len() > MAX_PACKET_SIZE - self.len {
            return Err(());
        }
        let start: usize = self.len;
        let mut i: usize = 0;
        while i < bytes.len()
            invariant
                i <= bytes@.len(),
                start + bytes@.len() <= MAX_PACKET_SIZE,
                old(self)@.len() == start,
                self.len == start + i,
                self@ == old(self)@ + bytes@.take(i as int),
            decreases bytes@.len() - i,
        {
            let ghost before = self@;
            self.buf[self.len] = bytes[i];
            self.len += 1;
            assert(self@ =~= before.push(bytes@[i as int]));
            assert(self@ =~= old(self)@ + bytes@.take(i + 1));
            i += 1;
        }
        assert(bytes@.take(i as int) =~= bytes@);
        Ok(())
    }

    /// The bytes appended so far.
    pub fn as_slice(&self) -> (bytes: &[u8])
        ensures
            bytes@ == self@,
            bytes@.len() <= MAX_PACKET_SIZE,
    {
        proof {
            use_type_invariant(self);
        }
        &self.buf[0..self.len]
    }
}

} // verus!
