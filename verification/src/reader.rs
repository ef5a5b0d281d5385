//! Sequential big-endian reader over an immutable byte buffer.
//!
//! Each read fails with `UnexpectedEof` when fewer bytes remain than it
//! requires, and the position advances only on success. The spec
//! functions `spec_read_*` say exactly what each operation returns and
//! where it leaves the position; every reader method is proved against
//! them.

use vstd::prelude::*;

use crate::error::DecodeError;

verus! {

/// The big-endian 16-bit value formed by the two bytes at `i`.
pub open spec fn u16_be(d: Seq<u8>, i: int) -> u16
    recommends
        0 <= i,
        i + 2 <= d.len(),
{
    ((d[i] as int) * 0x100 + (d[i + 1] as int)) as u16
}

/// The big-endian 32-bit value formed by the four bytes at `i`.
pub open spec fn u32_be(d: Seq<u8>, i: int) -> u32
    recommends
        0 <= i,
        i + 4 <= d.len(),
{
    ((d[i] as int) * 0x1000000 + (d[i + 1] as int) * 0x10000 + (d[i + 2] as int) * 0x100 + (d[i
        + 3] as int)) as u32
}

/// Reading one byte at `pos`: the byte and the next position, or
/// `UnexpectedEof` when the buffer is exhausted.
pub open spec fn spec_read_u8(d: Seq<u8>, pos: int) -> Result<(u8, int), DecodeError> {
    if pos + 1 <= d.len() {
        Ok((d[pos], pos + 1))
    } else {
        Err(DecodeError::UnexpectedEof)
    }
}

/// Reading a big-endian 16-bit value at `pos`.
pub open spec fn spec_read_u16(d: Seq<u8>, pos: int) -> Result<(u16, int), DecodeError> {
    if pos + 2 <= d.len() {
        Ok((u16_be(d, pos), pos + 2))
    } else {
        Err(DecodeError::UnexpectedEof)
    }
}

/// Reading a big-endian 32-bit value at `pos`.
pub open spec fn spec_read_u32(d: Seq<u8>, pos: int) -> Result<(u32, int), DecodeError> {
    if pos + 4 <= d.len() {
        Ok((u32_be(d, pos), pos + 4))
    } else {
        Err(DecodeError::UnexpectedEof)
    }
}

/// Reading `n` raw bytes at `pos`.
pub open spec fn spec_read_bytes(d: Seq<u8>, pos: int, n: int) -> Result<
    (Seq<u8>, int),
    DecodeError,
> {
    if pos + n <= d.len() {
        Ok((d.subrange(pos, pos + n), pos + n))
    } else {
        Err(DecodeError::UnexpectedEof)
    }
}

/// Skipping `n` bytes at `pos`: the position past them, or
/// `UnexpectedEof` when fewer than `n` remain.
pub open spec fn spec_skip(d: Seq<u8>, pos: int, n: int) -> Result<int, DecodeError> {
    if pos + n <= d.len() {
        Ok(pos + n)
    } else {
        Err(DecodeError::UnexpectedEof)
    }
}

/// Sequential reader: an immutable byte buffer and a position into it.
pub struct Reader<'a> {
    data: &'a [u8],
    pos: usize,
}

impl<'a> Reader<'a> {
    /// The whole underlying buffer.
    pub closed spec fn bytes(&self) -> Seq<u8> {
        self.data@
    }

    /// The current position.
    pub closed spec fn position(&self) -> int {
        self.pos as int
    }

    /// The position never passes the end of the buffer.
    pub open spec fn wf(&self) -> bool {
        0 <= self.position() <= self.bytes().len()
    }

    /// A reader positioned at the start of `data`.
    pub fn new(data: &'a [u8]) -> (r: Reader<'a>)
        ensures
            r.bytes() == data@,
            r.position() == 0,
            r.wf(),
    {
        Reader { data, pos: 0 }
    }

    /// The current position, for error reporting.
    pub fn pos(&self) -> (p: usize)
        ensures
            p == self.position(),
    {
        self.pos
    }

    /// How many bytes remain to be read.
    pub fn remaining(&self) -> (n: usize)
        requires
            self.wf(),
        ensures
            n == self.bytes().len() - self.position(),
    {
        self.data.len() - self.pos
    }

    /// Reads one byte.
    pub fn read_u8(&mut self) -> (r: Result<u8, DecodeError>)
        requires
            old(self).wf(),
        ensures
            final(self).wf(),
            final(self).bytes() == old(self).bytes(),
            match spec_read_u8(old(self).bytes(), old(self).position()) {
                Ok((v, p)) => r == Ok::<u8, DecodeError>(v) && final(self).position() == p,
                Err(e) => r == Err::<u8, DecodeError>(e) && final(self).position() == old(
                    self,
                ).position(),
            },
    {
        if self.data.len() - self.pos >= 1 {
            let b = self.data[self.pos];
            self.pos = self.pos + 1;
            Ok(b)
        } else {
            Err(DecodeError::UnexpectedEof)
        }
    }

    /// Reads a big-endian 16-bit value.
    pub fn read_u16(&mut self) -> (r: Result<u16, DecodeError>)
        requires
            old(self).wf(),
        ensures
            final(self).wf(),
            final(self).bytes() == old(self).bytes(),
            match spec_read_u16(old(self).bytes(), old(self).position()) {
                Ok((v, p)) => r == Ok::<u16, DecodeError>(v) && final(self).position() == p,
                Err(e) => r == Err::<u16, DecodeError>(e) && final(self).position() == old(
                    self,
                ).position(),
            },
    {
        if self.data.len() - self.pos >= 2 {
            let b0 = self.data[self.pos];
            let b1 = self.data[self.pos + 1];
            self.pos = self.pos + 2;
            Ok((b0 as u16) * 0x100 + (b1 as u16))
        } else {
            Err(DecodeError::UnexpectedEof)
        }
    }

    /// Reads a big-endian 32-bit value.
    pub fn read_u32(&mut self) -> (r: Result<u32, DecodeError>)
        requires
            old(self).wf(),
        ensures
            final(self).wf(),
            final(self).bytes() == old(self).bytes(),
            match spec_read_u32(old(self).bytes(), old(self).position()) {
                Ok((v, p)) => r == Ok::<u32, DecodeError>(v) && final(self).position() == p,
                Err(e) => r == Err::<u32, DecodeError>(e) && final(self).position() == old(
                    self,
                ).position(),
            },
    {
        if self.data.len() - self.pos >= 4 {
            let b0 = self.data[self.pos];
            let b1 = self.data[self.pos + 1];
            let b2 = self.data[self.pos + 2];
            let b3 = self.data[self.pos + 3];
            self.pos = self.pos + 4;
            Ok((b0 as u32) * 0x1000000 + (b1 as u32) * 0x10000 + (b2 as u32) * 0x100 + (b3 as u32))
        } else {
            Err(DecodeError::UnexpectedEof)
        }
    }

    /// Reads `n` raw bytes into a fresh vector.
    pub fn read_bytes(&mut self, n: usize) -> (r: Result<Vec<u8>, DecodeError>)
        requires
            old(self).wf(),
        ensures
            final(self).wf(),
            final(self).bytes() == old(self).bytes(),
            match spec_read_bytes(old(self).bytes(), old(self).position(), n as int) {
                Ok((v, p)) => r is Ok && r->Ok_0@ == v && final(self).position() == p,
                Err(e) => r == Err::<Vec<u8>, DecodeError>(e) && final(self).position() == old(
                    self,
                ).position(),
            },
    {
        if self.data.len() - self.pos >= n {
            let mut out: Vec<u8> = Vec::new();
            let mut i: usize = 0;
            while i < n
                invariant
                    i <= n,
                    self.pos + n <= self.data.len(),
                    out@ == self.data@.subrange(self.pos as int, self.pos + i),
                decreases n - i,
            {
                out.push(self.data[self.pos + i]);
                i = i + 1;
                proof {
                    assert(out@ =~= self.data@.subrange(self.pos as int, self.pos + i));
                }
            }
            self.pos = self.pos + n;
            Ok(out)
        } else {
            Err(DecodeError::UnexpectedEof)
        }
    }

    /// Skips `n` bytes without retaining them.
    pub fn skip(&mut self, n: usize) -> (r: Result<(), DecodeError>)
        requires
            old(self).wf(),
        ensures
            final(self).wf(),
            final(self).bytes() == old(self).bytes(),
            match spec_skip(old(self).bytes(), old(self).position(), n as int) {
                Ok(p) => r == Ok::<(), DecodeError>(()) && final(self).position() == p,
                Err(e) => r == Err::<(), DecodeError>(e) && final(self).position() == old(
                    self,
                ).position(),
            },
    {
        if self.data.len() - self.pos >= n {
            self.pos = self.pos + n;
            Ok(())
        } else {
            Err(DecodeError::UnexpectedEof)
        }
    }
}

} // verus!
