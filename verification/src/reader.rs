//! A cursor over a byte buffer, with length-checked little-endian reads.

use vstd::prelude::*;

verus! {

/// Why a read did not happen.
#[derive(Clone, Copy, Debug, PartialEq, Eq)]
pub enum ReadError {
    /// Fewer bytes were left than the read asked for.
    UnexpectedEnd,
}

/// `n` bytes can be read from `s` at `pos`.
pub open spec fn fits(s: Seq<u8>, pos: int, n: int) -> bool {
    0 <= pos && 0 <= n && pos + n <= s.len()
}

/// The two bytes of `s` at `pos` as a little-endian number.
pub open spec fn le_u16_at(s: Seq<u8>, pos: int) -> u16
    recommends
        fits(s, pos, 2),
{
    (s[pos] + s[pos + 1] * 0x100) as u16
}

/// The four bytes of `s` at `pos` as a little-endian number.
pub open spec fn le_u32_at(s: Seq<u8>, pos: int) -> u32
    recommends
        fits(s, pos, 4),
{
    (s[pos] + s[pos + 1] * 0x100 + s[pos + 2] * 0x1_0000 + s[pos + 3] * 0x100_0000) as u32
}

/// The eight bytes of `s` at `pos` as a little-endian number.
pub open spec fn le_u64_at(s: Seq<u8>, pos: int) -> u64
    recommends
        fits(s, pos, 8),
{
    (le_u32_at(s, pos) + le_u32_at(s, pos + 4) * 0x1_0000_0000) as u64
}

/// The two's-complement reading of a 16-bit pattern.
pub open spec fn signed16(u: u16) -> i16 {
    if u >= 0x8000 {
        (u - 0x1_0000) as i16
    } else {
        u as i16
    }
}

/// The two's-complement reading of a 32-bit pattern.
pub open spec fn signed32(u: u32) -> i32 {
    if u >= 0x8000_0000 {
        (u - 0x1_0000_0000) as i32
    } else {
        u as i32
    }
}

/// The two's-complement reading of a 64-bit pattern.
pub open spec fn signed64(u: u64) -> i64 {
    if u >= 0x8000_0000_0000_0000 {
        (u - 0x1_0000_0000_0000_0000) as i64
    } else {
        u as i64
    }
}

/// The length-prefixed string of `s` at `pos`, with the position behind it:
/// a 32-bit length, then that many bytes as they are.
pub open spec fn string_at(s: Seq<u8>, pos: int) -> Option<(Seq<u8>, int)> {
    if fits(s, pos, 4) && fits(s, pos + 4, le_u32_at(s, pos) as int) {
        let end = pos + 4 + le_u32_at(s, pos);
        Some((s.subrange(pos + 4, end), end))
    } else {
        None
    }
}

/// A buffer and the position of the next unread byte.
pub struct Reader<'a> {
    pub buf: &'a [u8],
    pub pos: usize,
}

impl<'a> Reader<'a> {
    /// The cursor lies within the buffer or at its end.
    pub open spec fn wf(&self) -> bool {
        self.pos <= self.buf@.len()
    }

    /// `n` bytes are left to read.
    pub open spec fn can_read(&self, n: int) -> bool {
        fits(self.buf@, self.pos as int, n)
    }

    /// `next` is this reader moved on by `n` bytes over the same buffer.
    pub open spec fn moved_to(&self, next: &Self, n: int) -> bool {
        &&& next.buf@ == self.buf@
        &&& next.pos == self.pos + n
        &&& next.wf()
    }

    /// A reader at the start of `buf`.
    pub fn new(buf: &'a [u8]) -> (r: Self)
        ensures
            r.wf(),
            r.buf@ == buf@,
            r.pos == 0,
    {
        Reader { buf, pos: 0 }
    }

    /// The position of the next unread byte.
    pub fn position(&self) -> (p: usize)
        ensures
            p == self.pos,
    {
        self.pos
    }

    /// The number of bytes not yet read.
    pub fn remaining(&self) -> (n: usize)
        requires
            self.wf(),
        ensures
            n == self.buf@.len() - self.pos,
    {
        self.buf.len() - self.pos
    }

    /// Reads one byte.
    pub fn read_u8(&mut self) -> (r: Result<u8, ReadError>)
        requires
            old(self).wf(),
        ensures
            old(self).can_read(1) ==> r == Ok::<u8, ReadError>(old(self).buf@[old(self).pos as int])
                && old(self).moved_to(final(self), 1),
            !old(self).can_read(1) ==> r == Err::<u8, ReadError>(ReadError::UnexpectedEnd)
                && old(self).moved_to(final(self), 0),
    {
        if self.buf.len() - self.pos < 1 {
            return Err(ReadError::UnexpectedEnd);
        }
        let b: u8 = self.buf[self.pos];
        self.pos = self.pos + 1;
        Ok(b)
    }

    /// Reads a 16-bit unsigned number.
    pub fn read_u16(&mut self) -> (r: Result<u16, ReadError>)
        requires
            old(self).wf(),
        ensures
            old(self).can_read(2) ==> r == Ok::<u16, ReadError>(
                le_u16_at(old(self).buf@, old(self).pos as int),
            ) && old(self).moved_to(final(self), 2),
            !old(self).can_read(2) ==> r == Err::<u16, ReadError>(ReadError::UnexpectedEnd)
                && old(self).moved_to(final(self), 0),
    {
        if self.buf.len() - self.pos < 2 {
            return Err(ReadError::UnexpectedEnd);
        }
        let p: usize = self.pos;
        let v: u16 = self.buf[p] as u16 + self.buf[p + 1] as u16 * 0x100;
        self.pos = p + 2;
        Ok(v)
    }

    /// Reads a 32-bit unsigned number.
    pub fn read_u32(&mut self) -> (r: Result<u32, ReadError>)
        requires
            old(self).wf(),
        ensures
            old(self).can_read(4) ==> r == Ok::<u32, ReadError>(
                le_u32_at(old(self).buf@, old(self).pos as int),
            ) && old(self).moved_to(final(self), 4),
            !old(self).can_read(4) ==> r == Err::<u32, ReadError>(ReadError::UnexpectedEnd)
                && old(self).moved_to(final(self), 0),
    {
        if self.buf.len() - self.pos < 4 {
            return Err(ReadError::UnexpectedEnd);
        }
        let p: usize = self.pos;
        let v: u32 = self.buf[p] as u32 + self.buf[p + 1] as u32 * 0x100 + self.buf[p + 2] as u32
            * 0x1_0000 + self.buf[p + 3] as u32 * 0x100_0000;
        self.pos = p + 4;
        Ok(v)
    }

    /// Reads a 64-bit unsigned number.
    pub fn read_u64(&mut self) -> (r: Result<u64, ReadError>)
        requires
            old(self).wf(),
        ensures
            old(self).can_read(8) ==> r == Ok::<u64, ReadError>(
                le_u64_at(old(self).buf@, old(self).pos as int),
            ) && old(self).moved_to(final(self), 8),
            !old(self).can_read(8) ==> r == Err::<u64, ReadError>(ReadError::UnexpectedEnd)
                && old(self).moved_to(final(self), 0),
    {
        if self.buf.len() - self.pos < 8 {
            return Err(ReadError::UnexpectedEnd);
        }
        let p: usize = self.pos;
        let lo: u32 = self.buf[p] as u32 + self.buf[p + 1] as u32 * 0x100 + self.buf[p + 2] as u32
            * 0x1_0000 + self.buf[p + 3] as u32 * 0x100_0000;
        let hi: u32 = self.buf[p + 4] as u32 + self.buf[p + 5] as u32 * 0x100 + self.buf[p
            + 6] as u32 * 0x1_0000 + self.buf[p + 7] as u32 * 0x100_0000;
        self.pos = p + 8;
        Ok(lo as u64 + hi as u64 * 0x1_0000_0000)
    }

    /// Reads a 16-bit number in two's complement.
    pub fn read_i16(&mut self) -> (r: Result<i16, ReadError>)
        requires
            old(self).wf(),
        ensures
            old(self).can_read(2) ==> r == Ok::<i16, ReadError>(
                signed16(le_u16_at(old(self).buf@, old(self).pos as int)),
            ) && old(self).moved_to(final(self), 2),
            !old(self).can_read(2) ==> r == Err::<i16, ReadError>(ReadError::UnexpectedEnd)
                && old(self).moved_to(final(self), 0),
    {
        match self.read_u16() {
            Ok(u) => Ok(to_signed16(u)),
            Err(e) => Err(e),
        }
    }

    /// Reads a 32-bit number in two's complement.
    pub fn read_i32(&mut self) -> (r: Result<i32, ReadError>)
        requires
            old(self).wf(),
        ensures
            old(self).can_read(4) ==> r == Ok::<i32, ReadError>(
                signed32(le_u32_at(old(self).buf@, old(self).pos as int)),
            ) && old(self).moved_to(final(self), 4),
            !old(self).can_read(4) ==> r == Err::<i32, ReadError>(ReadError::UnexpectedEnd)
                && old(self).moved_to(final(self), 0),
    {
        match self.read_u32() {
            Ok(u) => Ok(to_signed32(u)),
            Err(e) => Err(e),
        }
    }

    /// Reads a 64-bit number in two's complement.
    pub fn read_i64(&mut self) -> (r: Result<i64, ReadError>)
        requires
            old(self).wf(),
        ensures
            old(self).can_read(8) ==> r == Ok::<i64, ReadError>(
                signed64(le_u64_at(old(self).buf@, old(self).pos as int)),
            ) && old(self).moved_to(final(self), 8),
            !old(self).can_read(8) ==> r == Err::<i64, ReadError>(ReadError::UnexpectedEnd)
                && old(self).moved_to(final(self), 0),
    {
        match self.read_u64() {
            Ok(u) => Ok(to_signed64(u)),
            Err(e) => Err(e),
        }
    }

    /// Reads `n` bytes as they are.
    pub fn read_bytes(&mut self, n: usize) -> (r: Result<Vec<u8>, ReadError>)
        requires
            old(self).wf(),
        ensures
            old(self).can_read(n as int) ==> r is Ok && r->Ok_0@ == old(self).buf@.subrange(
                old(self).pos as int,
                old(self).pos + n,
            ) && old(self).moved_to(final(self), n as int),
            !old(self).can_read(n as int) ==> r == Err::<Vec<u8>, ReadError>(
                ReadError::UnexpectedEnd,
            ) && old(self).moved_to(final(self), 0),
    {
        if self.buf.len() - self.pos < n {
            return Err(ReadError::UnexpectedEnd);
        }
        let start: usize = self.pos;
        let mut out: Vec<u8> = Vec::new();
        let mut i: usize = 0;
        while i < n
            invariant
                i <= n,
                start + n <= self.buf@.len() <= usize::MAX,
                self.buf@ == old(self).buf@,
                out@ == self.buf@.subrange(start as int, start + i),
            decreases n - i,
        {
            out.push(self.buf[start + i]);
            i = i + 1;
            assert(out@ =~= self.buf@.subrange(start as int, start + i));
        }
        self.pos = start + n;
        Ok(out)
    }

    /// Reads a length-prefixed string: a 32-bit length, then that many
    /// bytes. Where either part runs past the end, nothing is consumed.
    pub fn read_string(&mut self) -> (r: Result<Vec<u8>, ReadError>)
        requires
            old(self).wf(),
        ensures
            match string_at(old(self).buf@, old(self).pos as int) {
                Some((bytes, end)) => r is Ok && r->Ok_0@ == bytes && old(self).moved_to(
                    final(self),
                    end - old(self).pos,
                ),
                None => old(self).moved_to(final(self), 0) && r == Err::<Vec<u8>, ReadError>(
                    ReadError::UnexpectedEnd,
                ),
            },
    {
        let start: usize = self.pos;
        let len: u32 = match self.read_u32() {
            Ok(v) => v,
            Err(e) => {
                return Err(e);
            },
        };
        if self.buf.len() - self.pos < len as usize {
            self.pos = start;
            return Err(ReadError::UnexpectedEnd);
        }
        self.read_bytes(len as usize)
    }
}

/// The two's-complement reading of `u`.
pub fn to_signed16(u: u16) -> (v: i16)
    ensures
        v == signed16(u),
{
    if u >= 0x8000 {
        ((u - 0x8000) as i16) + i16::MIN
    } else {
        u as i16
    }
}

/// The two's-complement reading of `u`.
pub fn to_signed32(u: u32) -> (v: i32)
    ensures
        v == signed32(u),
{
    if u >= 0x8000_0000 {
        ((u - 0x8000_0000) as i32) + i32::MIN
    } else {
        u as i32
    }
}

/// The two's-complement reading of `u`.
pub fn to_signed64(u: u64) -> (v: i64)
    ensures
        v == signed64(u),
{
    if u >= 0x8000_0000_0000_0000 {
        ((u - 0x8000_0000_0000_0000) as i64) + i64::MIN
    } else {
        u as i64
    }
}

} // verus!
