//! A cursor over the bytes of a document, with a one-byte peek.

use vstd::prelude::*;
use crate::error::TdfError;

verus! {

/// The byte at `pos`, or the error of reading past the end.
pub open spec fn byte_at(bytes: Seq<u8>, pos: int) -> Result<u8, TdfError> {
    if 0 <= pos < bytes.len() {
        Ok(bytes[pos])
    } else {
        Err(TdfError::TruncatedInput { offset: pos as usize })
    }
}

/// The `count` bytes from `pos` on, or the error of reading past the end.
pub open spec fn bytes_at(bytes: Seq<u8>, pos: int, count: int) -> Result<Seq<u8>, TdfError> {
    if 0 <= pos && 0 <= count && pos + count <= bytes.len() {
        Ok(bytes.subrange(pos, pos + count))
    } else {
        Err(TdfError::TruncatedInput { offset: pos as usize })
    }
}

/// The bytes of a document and the offset of the next byte to read.
pub struct ByteReader<'a> {
    pub bytes: &'a [u8],
    pub pos: usize,
}

impl<'a> ByteReader<'a> {
    /// A reader at the start of `bytes`.
    pub fn new(bytes: &'a [u8]) -> (reader: Self)
        ensures
            reader.bytes@ == bytes@,
            reader.pos == 0,
    {
        ByteReader { bytes, pos: 0 }
    }

    /// The next byte, which stays unread; `None` at the end of the input.
    pub fn peek(&self) -> (byte: Option<u8>)
        ensures
            byte == byte_at(self.bytes@, self.pos as int).ok(),
    {
        if self.pos < self.bytes.len() {
            Some(self.bytes[self.pos])
        } else {
            None
        }
    }

    /// Reads one byte.
    pub fn read_u8(&mut self) -> (byte: Result<u8, TdfError>)
        ensures
            final(self).bytes@ == old(self).bytes@,
            byte == byte_at(old(self).bytes@, old(self).pos as int),
            final(self).pos == old(self).pos + (if byte is Ok { 1int } else { 0int }),
    {
        if self.pos < self.bytes.len() {
            let byte = self.bytes[self.pos];
            self.pos += 1;
            Ok(byte)
        } else {
            Err(TdfError::TruncatedInput { offset: self.pos })
        }
    }

    /// Reads `count` bytes.
    pub fn read_exact(&mut self, count: usize) -> (read: Result<Vec<u8>, TdfError>)
        ensures
            final(self).bytes@ == old(self).bytes@,
            match bytes_at(old(self).bytes@, old(self).pos as int, count as int) {
                Ok(taken) => read is Ok && read->Ok_0@ == taken && final(self).pos == old(self).pos
                    + count,
                Err(e) => read == Err::<Vec<u8>, TdfError>(e) && final(self).pos == old(self).pos,
            },
    {
        if self.pos > self.bytes.len() || count > self.bytes.len() - self.pos {
            return Err(TdfError::TruncatedInput { offset: self.pos });
        }
        let mut taken: Vec<u8> = Vec::new();
        let start = self.pos;
        let mut i: usize = 0;
        while i < count
            invariant
                i <= count,
                start + count <= self.bytes.len(),
                taken@ == self.bytes@.subrange(start as int, start + i),
            decreases count - i,
        {
            taken.push(self.bytes[start + i]);
            i += 1;
        }
        self.pos = start + count;
        Ok(taken)
    }
}

} // verus!
