use crate::error::DecodeError;
use byteorder::ByteOrder;
use vstd::prelude::*;
use vstd::slice::slice_subrange;

verus! {

/// What a [`Reader`] stands for: the whole byte source and how much of it
/// has been consumed.
pub struct ReaderView {
    pub source: Seq<u8>,
    pub position: nat,
}

/// The unsigned 32-bit integer that the first four bytes spell, most
/// significant byte first.
pub open spec fn be_u32(bytes: Seq<u8>) -> u32
    recommends
        bytes.len() >= 4,
{
    (bytes[0] * 0x100_0000 + bytes[1] * 0x1_0000 + bytes[2] * 0x100 + bytes[3]) as u32
}

/// Calls `byteorder::BigEndian::read_u32`, which takes the first four bytes
/// of `bytes` as a big-endian integer. That function panics on a shorter
/// slice; `requires` leaves those out.
#[verifier::external_body]
fn big_endian_u32(bytes: &[u8]) -> (value: u32)
    requires
        bytes@.len() >= 4,
    ensures
        value == be_u32(bytes@),
{
    byteorder::BigEndian::read_u32(bytes)
}

/// A sequential byte source over a slice. A read either succeeds and
/// consumes exactly what it returns, or fails with
/// [`DecodeError::UnexpectedEof`] and consumes nothing.
pub struct Reader<'a> {
    data: &'a [u8],
    pos: usize,
}

impl<'a> View for Reader<'a> {
    type V = ReaderView;

    // The position never passes the end of the source. The view says so of
    // every reader by itself, so that contracts can rely on it without a
    // reader at hand to call the invariant on.
    closed spec fn view(&self) -> ReaderView {
        ReaderView {
            source: self.data@,
            position: if self.pos <= self.data@.len() {
                self.pos as nat
            } else {
                self.data@.len()
            },
        }
    }
}

impl<'a> Reader<'a> {
    #[verifier::type_invariant]
    spec fn in_bounds(self) -> bool {
        self.pos <= self.data@.len()
    }

    /// A reader never stands beyond the end of its source.
    pub proof fn lemma_position_in_source(&self)
        ensures
            self@.position <= self@.source.len(),
    {
    }

    /// A reader at the start of `data`.
    pub fn new(data: &'a [u8]) -> (reader: Reader<'a>)
        ensures
            reader@.source == data@,
            reader@.position == 0,
    {
        Reader { data, pos: 0 }
    }

    /// The number of bytes consumed so far.
    pub fn position(&self) -> (position: usize)
        ensures
            position == self@.position,
    {
        proof {
            use_type_invariant(self);
        }
        self.pos
    }

    /// Reads one byte.
    pub fn read_u8(&mut self) -> (result: Result<u8, DecodeError>)
        ensures
            final(self)@.source == old(self)@.source,
            old(self)@.position < old(self)@.source.len() ==> result == Ok::<u8, DecodeError>(
                old(self)@.source[old(self)@.position as int],
            ) && final(self)@.position == old(self)@.position + 1,
            old(self)@.position >= old(self)@.source.len() ==> result == Err::<u8, DecodeError>(
                DecodeError::UnexpectedEof,
            ) && final(self)@.position == old(self)@.position,
    {
        proof {
            use_type_invariant(&*self);
        }
        if self.pos < self.data.len() {
            let byte = self.data[self.pos];
            self.pos = self.pos + 1;
            Ok(byte)
        } else {
            Err(DecodeError::UnexpectedEof)
        }
    }

    /// Reads exactly `count` bytes and hands them out as a slice of the
    /// source.
    pub fn read_exact(&mut self, count: usize) -> (result: Result<&'a [u8], DecodeError>)
        ensures
            final(self)@.source == old(self)@.source,
            old(self)@.position + count <= old(self)@.source.len() ==> result is Ok
                && result->Ok_0@ == old(self)@.source.subrange(
                old(self)@.position as int,
                old(self)@.position + count,
            ) && final(self)@.position == old(self)@.position + count,
            old(self)@.position + count > old(self)@.source.len() ==> result == Err::<
                &'a [u8],
                DecodeError,
            >(DecodeError::UnexpectedEof) && final(self)@.position == old(self)@.position,
    {
        proof {
            use_type_invariant(&*self);
        }
        if count <= self.data.len() - self.pos {
            let bytes = slice_subrange(self.data, self.pos, self.pos + count);
            self.pos = self.pos + count;
            Ok(bytes)
        } else {
            Err(DecodeError::UnexpectedEof)
        }
    }

    /// Reads four bytes as a big-endian unsigned integer.
    pub fn read_u32_be(&mut self) -> (result: Result<u32, DecodeError>)
        ensures
            final(self)@.source == old(self)@.source,
            old(self)@.position + 4 <= old(self)@.source.len() ==> result == Ok::<
                u32,
                DecodeError,
            >(be_u32(old(self)@.source.skip(old(self)@.position as int)))
                && final(self)@.position == old(self)@.position + 4,
            old(self)@.position + 4 > old(self)@.source.len() ==> result == Err::<
                u32,
                DecodeError,
            >(DecodeError::UnexpectedEof) && final(self)@.position == old(self)@.position,
    {
        match self.read_exact(4) {
            Ok(bytes) => Ok(big_endian_u32(bytes)),
            Err(e) => Err(e),
        }
    }
}

} // verus!
