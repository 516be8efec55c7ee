//! A sequential byte source over a slice.

use vstd::prelude::*;
use vstd::slice::slice_subrange;
use crate::error::DecodeError;
use crate::wire::{take_u16_le, take_u32_le, take_u8, u16_from_le, u32_from_le};

verus! {

/// A position in a byte slice. Reads take bytes from the position on and move
/// it forward; a read that fails leaves it where it was. A copy of a reader
/// reads on from the same position without moving the reader it was made from.
#[derive(Clone, Copy)]
pub struct ByteReader<'a> {
    data: &'a [u8],
    pos: usize,
}

impl<'a> ByteReader<'a> {
    /// All the bytes of the slice, read or not.
    pub closed spec fn bytes(&self) -> Seq<u8> {
        self.data@
    }

    /// The number of bytes read so far.
    pub closed spec fn offset(&self) -> nat {
        self.pos as nat
    }

    /// The position lies within the slice.
    pub open spec fn wf(&self) -> bool {
        self.offset() <= self.bytes().len()
    }

    /// The bytes not yet read.
    pub open spec fn remaining(&self) -> Seq<u8> {
        self.bytes().skip(self.offset() as int)
    }

    /// `self` reads the same bytes as `before`, `n` bytes further on.
    pub open spec fn is_after(&self, before: &ByteReader<'a>, n: nat) -> bool {
        &&& self.wf()
        &&& self.bytes() == before.bytes()
        &&& self.offset() == before.offset() + n
    }

    /// A reader that is `n` bytes after another has what the other had left, less its first `n` bytes.
    pub proof fn lemma_is_after(&self, before: &ByteReader<'a>, n: nat)
        requires
            before.wf(),
            self.is_after(before, n),
        ensures
            n <= before.remaining().len(),
            self.remaining() == before.remaining().skip(n as int),
    {
        assert(self.remaining() =~= before.remaining().skip(n as int));
    }

    /// A reader at the start of `data`.
    pub fn new(data: &'a [u8]) -> (r: Self)
        ensures
            r.wf(),
            r.bytes() == data@,
            r.offset() == 0,
            r.remaining() == data@,
    {
        ByteReader { data, pos: 0 }
    }

    /// The number of bytes read so far.
    pub fn position(&self) -> (n: usize)
        ensures
            n == self.offset(),
    {
        self.pos
    }

    /// The number of bytes not yet read.
    pub fn remaining_len(&self) -> (n: usize)
        requires
            self.wf(),
        ensures
            n == self.remaining().len(),
    {
        self.data.len() - self.pos
    }

    /// Reads one byte.
    pub fn read_u8(&mut self) -> (r: Result<u8, DecodeError>)
        requires
            old(self).wf(),
        ensures
            old(self).remaining().len() < 1 ==> r == Err::<u8, DecodeError>(DecodeError::Truncated)
                && final(self).is_after(old(self), 0),
            old(self).remaining().len() >= 1 ==> r == Ok::<u8, DecodeError>(old(self).remaining()[0])
                && final(self).is_after(old(self), 1),
    {
        let rest = slice_subrange(self.data, self.pos, self.data.len());
        match take_u8(rest) {
            Some(v) => {
                self.pos = self.pos + 1;
                Ok(v)
            },
            None => Err(DecodeError::Truncated),
        }
    }

    /// Reads a 16-bit little-endian integer.
    pub fn read_u16_le(&mut self) -> (r: Result<u16, DecodeError>)
        requires
            old(self).wf(),
        ensures
            old(self).remaining().len() < 2 ==> r == Err::<u16, DecodeError>(DecodeError::Truncated)
                && final(self).is_after(old(self), 0),
            old(self).remaining().len() >= 2 ==> r == Ok::<u16, DecodeError>(
                u16_from_le(old(self).remaining()),
            ) && final(self).is_after(old(self), 2),
    {
        let rest = slice_subrange(self.data, self.pos, self.data.len());
        match take_u16_le(rest) {
            Some(v) => {
                self.pos = self.pos + 2;
                Ok(v)
            },
            None => Err(DecodeError::Truncated),
        }
    }

    /// Reads a 32-bit little-endian integer.
    pub fn read_u32_le(&mut self) -> (r: Result<u32, DecodeError>)
        requires
            old(self).wf(),
        ensures
            old(self).remaining().len() < 4 ==> r == Err::<u32, DecodeError>(DecodeError::Truncated)
                && final(self).is_after(old(self), 0),
            old(self).remaining().len() >= 4 ==> r == Ok::<u32, DecodeError>(
                u32_from_le(old(self).remaining()),
            ) && final(self).is_after(old(self), 4),
    {
        let rest = slice_subrange(self.data, self.pos, self.data.len());
        match take_u32_le(rest) {
            Some(v) => {
                self.pos = self.pos + 4;
                Ok(v)
            },
            None => Err(DecodeError::Truncated),
        }
    }

    /// Reads the next `n` bytes.
    pub fn read_bytes(&mut self, n: usize) -> (r: Result<Vec<u8>, DecodeError>)
        requires
            old(self).wf(),
        ensures
            old(self).remaining().len() < n ==> r == Err::<Vec<u8>, DecodeError>(
                DecodeError::Truncated,
            ) && final(self).is_after(old(self), 0),
            old(self).remaining().len() >= n ==> r is Ok && r->Ok_0@ == old(self).remaining().take(
                n as int,
            ) && final(self).is_after(old(self), n as nat),
    {
        if self.data.len() - self.pos < n {
            return Err(DecodeError::Truncated);
        }
        let start: usize = self.pos;
        let mut out: Vec<u8> = Vec::new();
        let mut i: usize = 0;
        while i < n
            invariant
                i <= n,
                start + n <= self.data.len(),
                out@ == self.data@.subrange(start as int, start + i),
            decreases n - i,
        {
            out.push(self.data[start + i]);
            i = i + 1;
            assert(out@ =~= self.data@.subrange(start as int, start + i));
        }
        self.pos = start + n;
        assert(out@ =~= old(self).remaining().take(n as int));
        Ok(out)
    }

    /// Reads the next 32 bytes.
    pub fn read_32_bytes(&mut self) -> (r: Result<[u8; 32], DecodeError>)
        requires
            old(self).wf(),
        ensures
            old(self).remaining().len() < 32 ==> r == Err::<[u8; 32], DecodeError>(
                DecodeError::Truncated,
            ) && final(self).is_after(old(self), 0),
            old(self).remaining().len() >= 32 ==> r is Ok && r->Ok_0@ == old(self).remaining().take(
                32,
            ) && final(self).is_after(old(self), 32),
    {
        if self.data.len() - self.pos < 32 {
            return Err(DecodeError::Truncated);
        }
        let start: usize = self.pos;
        let mut out: [u8; 32] = [0u8; 32];
        let mut i: usize = 0;
        while i < 32
            invariant
                i <= 32,
                start + 32 <= self.data.len(),
                forall|k: int| 0 <= k < i ==> out@[k] == self.data@[start + k],
            decreases 32 - i,
        {
            out[i] = self.data[start + i];
            i = i + 1;
        }
        self.pos = start + 32;
        assert(out@ =~= old(self).remaining().take(32));
        Ok(out)
    }
}

} // verus!
