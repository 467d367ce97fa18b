//! A cursor over a byte buffer: the only thing that moves through the input.

use crate::layout::le_u32;
use crate::runtime::error::RuntimeError;
use vstd::prelude::*;
use vstd::slice::slice_subrange;

verus! {

/// An owned byte buffer and a read offset into it.
///
/// Every read advances the offset by the number of bytes it hands out, or
/// fails with `UnexpectedEndOfInput` and leaves the cursor where it was. The
/// buffer itself never changes, and nothing seeks backwards.
pub struct Reader {
    data: Vec<u8>,
    pos: usize,
}

impl Reader {
    #[verifier::type_invariant]
    spec fn in_bounds(self) -> bool {
        self.pos <= self.data.len()
    }

    /// The bytes of the buffer, read and unread.
    pub closed spec fn buffer(&self) -> Seq<u8> {
        self.data@
    }

    /// The offset of the next byte to be read.
    pub closed spec fn offset(&self) -> nat {
        self.pos as nat
    }

    /// `self` is what became of `before` through reads alone: the buffer is
    /// the same, and the cursor has neither moved backwards nor left the buffer.
    pub open spec fn follows(self, before: Reader) -> bool {
        &&& self.buffer() == before.buffer()
        &&& before.offset() <= self.offset() <= self.buffer().len()
    }

    /// A cursor at the start of `binary`.
    pub fn new(binary: Vec<u8>) -> (reader: Reader)
        ensures
            reader.buffer() == binary@,
            reader.offset() == 0,
    {
        Reader { data: binary, pos: 0 }
    }

    /// The length of the whole buffer.
    pub fn len(&self) -> (n: usize)
        ensures
            n == self.buffer().len(),
    {
        self.data.len()
    }

    /// The number of bytes not yet read.
    pub fn remaining(&self) -> (n: usize)
        ensures
            self.offset() <= self.buffer().len(),
            n == self.buffer().len() - self.offset(),
    {
        proof {
            use_type_invariant(self);
        }
        self.data.len() - self.pos
    }

    /// Reads one byte.
    pub fn byte(&mut self) -> (r: Result<u8, RuntimeError>)
        ensures
            final(self).follows(*old(self)),
            match r {
                Ok(b) => {
                    &&& old(self).offset() < old(self).buffer().len()
                    &&& b == old(self).buffer()[old(self).offset() as int]
                    &&& final(self).offset() == old(self).offset() + 1
                },
                Err(e) => {
                    &&& e == RuntimeError::UnexpectedEndOfInput
                    &&& old(self).offset() == old(self).buffer().len()
                    &&& final(self).offset() == old(self).offset()
                },
            },
    {
        proof {
            use_type_invariant(&*self);
        }
        if self.pos < self.data.len() {
            let b: u8 = self.data[self.pos];
            self.pos = self.pos + 1;
            Ok(b)
        } else {
            Err(RuntimeError::UnexpectedEndOfInput)
        }
    }

    /// Reads four bytes as a little-endian 32-bit integer.
    pub fn dword(&mut self) -> (r: Result<u32, RuntimeError>)
        ensures
            final(self).follows(*old(self)),
            match r {
                Ok(v) => {
                    let s = old(self).buffer();
                    let p = old(self).offset() as int;
                    &&& p + 4 <= s.len()
                    &&& v == le_u32(s[p], s[p + 1], s[p + 2], s[p + 3])
                    &&& final(self).offset() == p + 4
                },
                Err(e) => {
                    &&& e == RuntimeError::UnexpectedEndOfInput
                    &&& old(self).offset() + 4 > old(self).buffer().len()
                    &&& final(self).offset() == old(self).offset()
                },
            },
    {
        proof {
            use_type_invariant(&*self);
        }
        if self.data.len() - self.pos < 4 {
            return Err(RuntimeError::UnexpectedEndOfInput);
        }
        let b0: u32 = self.data[self.pos] as u32;
        let b1: u32 = self.data[self.pos + 1] as u32;
        let b2: u32 = self.data[self.pos + 2] as u32;
        let b3: u32 = self.data[self.pos + 3] as u32;
        self.pos = self.pos + 4;
        Ok(b0 + 256 * b1 + 65536 * b2 + 16777216 * b3)
    }

    /// Reads `n` bytes and hands them out as a slice of the buffer.
    pub fn bytes(&mut self, n: usize) -> (r: Result<&[u8], RuntimeError>)
        ensures
            final(self).follows(*old(self)),
            match r {
                Ok(out) => {
                    let s = old(self).buffer();
                    let p = old(self).offset() as int;
                    &&& p + n <= s.len()
                    &&& out@ == s.subrange(p, p + n)
                    &&& final(self).offset() == p + n
                },
                Err(e) => {
                    &&& e == RuntimeError::UnexpectedEndOfInput
                    &&& old(self).offset() + n > old(self).buffer().len()
                    &&& final(self).offset() == old(self).offset()
                },
            },
    {
        proof {
            use_type_invariant(&*self);
        }
        if self.data.len() - self.pos < n {
            return Err(RuntimeError::UnexpectedEndOfInput);
        }
        let start: usize = self.pos;
        self.pos = self.pos + n;
        Ok(slice_subrange(self.data.as_slice(), start, start + n))
    }
}

} // verus!
