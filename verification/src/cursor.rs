//! A forward-only view over an immutable byte buffer.
//!
//! All fixed-width reads and length-bounded slice reads of the decoder go
//! through [`Cursor`]. A read that asks for more bytes than remain fails
//! with [`DecodeErrorKind::UnexpectedEof`] at the position where the read
//! began, and leaves the cursor where it stood.

use vstd::prelude::*;

use crate::error::{DecodeError, DecodeErrorKind, SpecDecodeError};

verus! {

/// The insufficient-data error at position `pos`.
pub open spec fn spec_eof(pos: int) -> SpecDecodeError {
    SpecDecodeError { kind: DecodeErrorKind::UnexpectedEof, offset: pos }
}

/// The big-endian 16-bit value of the two bytes at `pos`.
pub open spec fn spec_be_u16(data: Seq<u8>, pos: int) -> u16 {
    (data[pos] * 0x100 + data[pos + 1]) as u16
}

/// The big-endian 32-bit value of the four bytes at `pos`.
pub open spec fn spec_be_u32(data: Seq<u8>, pos: int) -> u32 {
    (data[pos] * 0x100_0000 + data[pos + 1] * 0x1_0000 + data[pos + 2] * 0x100
        + data[pos + 3]) as u32
}

/// Reading one byte at `pos`: the byte and the new position.
pub open spec fn spec_read_u8(data: Seq<u8>, pos: int) -> Result<(u8, int), SpecDecodeError> {
    if pos + 1 <= data.len() {
        Ok((data[pos], pos + 1))
    } else {
        Err(spec_eof(pos))
    }
}

/// Reading a big-endian 16-bit value at `pos`.
pub open spec fn spec_read_u16(data: Seq<u8>, pos: int) -> Result<(u16, int), SpecDecodeError> {
    if pos + 2 <= data.len() {
        Ok((spec_be_u16(data, pos), pos + 2))
    } else {
        Err(spec_eof(pos))
    }
}

/// Reading a big-endian 32-bit value at `pos`.
pub open spec fn spec_read_u32(data: Seq<u8>, pos: int) -> Result<(u32, int), SpecDecodeError> {
    if pos + 4 <= data.len() {
        Ok((spec_be_u32(data, pos), pos + 4))
    } else {
        Err(spec_eof(pos))
    }
}

/// The big-endian 64-bit value of the eight bytes at `pos`.
pub open spec fn spec_be_u64(data: Seq<u8>, pos: int) -> u64 {
    (spec_be_u32(data, pos) * 0x1_0000_0000 + spec_be_u32(data, pos + 4)) as u64
}

/// Reading a big-endian 64-bit value at `pos`.
pub open spec fn spec_read_u64(data: Seq<u8>, pos: int) -> Result<(u64, int), SpecDecodeError> {
    if pos + 8 <= data.len() {
        Ok((spec_be_u64(data, pos), pos + 8))
    } else {
        Err(spec_eof(pos))
    }
}

/// Reading the `n` bytes at `pos` verbatim.
pub open spec fn spec_read_bytes(data: Seq<u8>, pos: int, n: int) -> Result<
    (Seq<u8>, int),
    SpecDecodeError,
> {
    if pos + n <= data.len() {
        Ok((data.subrange(pos, pos + n), pos + n))
    } else {
        Err(spec_eof(pos))
    }
}

/// A forward-only cursor over an immutable byte buffer: the buffer and the
/// position of the next unread byte.
pub struct Cursor<'a> {
    pub data: &'a [u8],
    pub pos: usize,
}

impl<'a> Cursor<'a> {
    /// The position never runs past the end of the buffer.
    pub open spec fn wf(&self) -> bool {
        self.pos <= self.data@.len()
    }

    /// A cursor standing at the start of `data`.
    pub fn new(data: &'a [u8]) -> (c: Cursor<'a>)
        ensures
            c.data@ == data@,
            c.pos == 0,
            c.wf(),
    {
        Cursor { data, pos: 0 }
    }

    /// How many bytes remain unread.
    pub fn remaining(&self) -> (n: usize)
        requires
            self.wf(),
        ensures
            n == self.data@.len() - self.pos,
    {
        self.data.len() - self.pos
    }

    /// Read one byte and advance by 1.
    pub fn read_u8(&mut self) -> (r: Result<u8, DecodeError>)
        requires
            old(self).wf(),
        ensures
            final(self).data@ == old(self).data@,
            final(self).wf(),
            match r {
                Ok(v) => {
                    &&& spec_read_u8(old(self).data@, old(self).pos as int) matches Ok(s)
                    &&& s == (v, final(self).pos as int)
                },
                Err(e) => {
                    &&& spec_read_u8(old(self).data@, old(self).pos as int) matches Err(se)
                    &&& se == e@
                    &&& final(self).pos == old(self).pos
                },
            },
    {
        if self.data.len() - self.pos >= 1 {
            let v = self.data[self.pos];
            self.pos = self.pos + 1;
            Ok(v)
        } else {
            Err(DecodeError { kind: DecodeErrorKind::UnexpectedEof, offset: self.pos })
        }
    }

    /// Read a big-endian 16-bit value and advance by 2.
    pub fn read_u16(&mut self) -> (r: Result<u16, DecodeError>)
        requires
            old(self).wf(),
        ensures
            final(self).data@ == old(self).data@,
            final(self).wf(),
            match r {
                Ok(v) => {
                    &&& spec_read_u16(old(self).data@, old(self).pos as int) matches Ok(s)
                    &&& s == (v, final(self).pos as int)
                },
                Err(e) => {
                    &&& spec_read_u16(old(self).data@, old(self).pos as int) matches Err(se)
                    &&& se == e@
                    &&& final(self).pos == old(self).pos
                },
            },
    {
        if self.data.len() - self.pos >= 2 {
            let b0 = self.data[self.pos];
            let b1 = self.data[self.pos + 1];
            let v: u16 = (b0 as u16) * 0x100 + (b1 as u16);
            self.pos = self.pos + 2;
            Ok(v)
        } else {
            Err(DecodeError { kind: DecodeErrorKind::UnexpectedEof, offset: self.pos })
        }
    }

    /// Read a big-endian 32-bit value and advance by 4.
    pub fn read_u32(&mut self) -> (r: Result<u32, DecodeError>)
        requires
            old(self).wf(),
        ensures
            final(self).data@ == old(self).data@,
            final(self).wf(),
            match r {
                Ok(v) => {
                    &&& spec_read_u32(old(self).data@, old(self).pos as int) matches Ok(s)
                    &&& s == (v, final(self).pos as int)
                },
                Err(e) => {
                    &&& spec_read_u32(old(self).data@, old(self).pos as int) matches Err(se)
                    &&& se == e@
                    &&& final(self).pos == old(self).pos
                },
            },
    {
        if self.data.len() - self.pos >= 4 {
            let b0 = self.data[self.pos];
            let b1 = self.data[self.pos + 1];
            let b2 = self.data[self.pos + 2];
            let b3 = self.data[self.pos + 3];
            let v: u32 = (b0 as u32) * 0x100_0000 + (b1 as u32) * 0x1_0000 + (b2 as u32) * 0x100
                + (b3 as u32);
            self.pos = self.pos + 4;
            Ok(v)
        } else {
            Err(DecodeError { kind: DecodeErrorKind::UnexpectedEof, offset: self.pos })
        }
    }

    /// Read a big-endian 64-bit value and advance by 8.
    pub fn read_u64(&mut self) -> (r: Result<u64, DecodeError>)
        requires
            old(self).wf(),
        ensures
            final(self).data@ == old(self).data@,
            final(self).wf(),
            match r {
                Ok(v) => {
                    &&& spec_read_u64(old(self).data@, old(self).pos as int) matches Ok(s)
                    &&& s == (v, final(self).pos as int)
                },
                Err(e) => {
                    &&& spec_read_u64(old(self).data@, old(self).pos as int) matches Err(se)
                    &&& se == e@
                    &&& final(self).pos == old(self).pos
                },
            },
    {
        if self.data.len() - self.pos >= 8 {
            let hi = match self.read_u32() {
                Ok(v) => v,
                Err(e) => (return Err(e)),
            };
            let lo = match self.read_u32() {
                Ok(v) => v,
                Err(e) => (return Err(e)),
            };
            Ok((hi as u64) * 0x1_0000_0000 + (lo as u64))
        } else {
            Err(DecodeError { kind: DecodeErrorKind::UnexpectedEof, offset: self.pos })
        }
    }

    /// Read the next `n` bytes verbatim and advance by `n`.
    pub fn take(&mut self, n: usize) -> (r: Result<Vec<u8>, DecodeError>)
        requires
            old(self).wf(),
        ensures
            final(self).data@ == old(self).data@,
            final(self).wf(),
            match r {
                Ok(v) => {
                    &&& spec_read_bytes(old(self).data@, old(self).pos as int, n as int)
                        matches Ok(s)
                    &&& s == (v@, final(self).pos as int)
                },
                Err(e) => {
                    &&& spec_read_bytes(old(self).data@, old(self).pos as int, n as int)
                        matches Err(se)
                    &&& se == e@
                    &&& final(self).pos == old(self).pos
                },
            },
    {
        if self.data.len() - self.pos >= n {
            let mut out: Vec<u8> = Vec::new();
            let mut i: usize = 0;
            while i < n
                invariant
                    self.wf(),
                    self.data@ == old(self).data@,
                    self.pos == old(self).pos,
                    i <= n,
                    n <= self.data@.len() - self.pos,
                    self.data@.len() <= usize::MAX,
                    out@ == self.data@.subrange(self.pos as int, self.pos + i as int),
                decreases n - i,
            {
                out.push(self.data[self.pos + i]);
                i = i + 1;
                proof {
                    assert(out@ =~= self.data@.subrange(self.pos as int, self.pos + i as int));
                }
            }
            self.pos = self.pos + n;
            Ok(out)
        } else {
            Err(DecodeError { kind: DecodeErrorKind::UnexpectedEof, offset: self.pos })
        }
    }
}

/// Reading from a prefix of the buffer: a read that ends inside the
/// prefix gives the same result; one that runs past it fails for want of
/// input.
pub proof fn lemma_prefix_read_u8(data: Seq<u8>, k: int, pos: int)
    requires
        0 <= pos <= k <= data.len(),
    ensures
        spec_read_u8(data, pos) matches Ok(s) ==> pos + 1 <= s.1 <= data.len(),
        spec_read_u8(data, pos) matches Ok(s) ==> (if s.1 <= k {
            spec_read_u8(data.take(k), pos) == spec_read_u8(data, pos)
        } else {
            spec_read_u8(data.take(k), pos) matches Err(e)
                && crate::error::spec_is_exhaustion_error(e)
        }),
{
}

/// Reading a 16-bit value from a prefix of the buffer.
pub proof fn lemma_prefix_read_u16(data: Seq<u8>, k: int, pos: int)
    requires
        0 <= pos <= k <= data.len(),
    ensures
        spec_read_u16(data, pos) matches Ok(s) ==> pos + 2 <= s.1 <= data.len(),
        spec_read_u16(data, pos) matches Ok(s) ==> (if s.1 <= k {
            spec_read_u16(data.take(k), pos) == spec_read_u16(data, pos)
        } else {
            spec_read_u16(data.take(k), pos) matches Err(e)
                && crate::error::spec_is_exhaustion_error(e)
        }),
{
}

/// Reading a 32-bit value from a prefix of the buffer.
pub proof fn lemma_prefix_read_u32(data: Seq<u8>, k: int, pos: int)
    requires
        0 <= pos <= k <= data.len(),
    ensures
        spec_read_u32(data, pos) matches Ok(s) ==> pos + 4 <= s.1 <= data.len(),
        spec_read_u32(data, pos) matches Ok(s) ==> (if s.1 <= k {
            spec_read_u32(data.take(k), pos) == spec_read_u32(data, pos)
        } else {
            spec_read_u32(data.take(k), pos) matches Err(e)
                && crate::error::spec_is_exhaustion_error(e)
        }),
{
}

/// Reading a 64-bit value from a prefix of the buffer.
pub proof fn lemma_prefix_read_u64(data: Seq<u8>, k: int, pos: int)
    requires
        0 <= pos <= k <= data.len(),
    ensures
        spec_read_u64(data, pos) matches Ok(s) ==> pos + 8 <= s.1 <= data.len(),
        spec_read_u64(data, pos) matches Ok(s) ==> (if s.1 <= k {
            spec_read_u64(data.take(k), pos) == spec_read_u64(data, pos)
        } else {
            spec_read_u64(data.take(k), pos) matches Err(e)
                && crate::error::spec_is_exhaustion_error(e)
        }),
{
}

/// Reading `n` verbatim bytes from a prefix of the buffer.
pub proof fn lemma_prefix_read_bytes(data: Seq<u8>, k: int, pos: int, n: int)
    requires
        0 <= pos <= k <= data.len(),
        0 <= n,
    ensures
        spec_read_bytes(data, pos, n) matches Ok(s) ==> pos + n <= s.1 <= data.len(),
        spec_read_bytes(data, pos, n) matches Ok(s) ==> (if s.1 <= k {
            spec_read_bytes(data.take(k), pos, n) == spec_read_bytes(data, pos, n)
        } else {
            spec_read_bytes(data.take(k), pos, n) matches Err(e)
                && crate::error::spec_is_exhaustion_error(e)
        }),
{
    if pos + n <= data.len() && pos + n <= k {
        assert(data.take(k).subrange(pos, pos + n) =~= data.subrange(pos, pos + n));
    }
}

} // verus!
