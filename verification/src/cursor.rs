//! A bounds-checked sequential reader over a byte buffer.
//!
//! A cursor carries the whole buffer together with a current offset and an
//! exclusive limit.  Section decoding re-uses the same buffer with a tighter
//! limit, so every offset — including offsets inside a section — is absolute,
//! which keeps error reporting uniform.

use vstd::prelude::*;
use crate::error::{DecodeError, ErrorKind, spec_err};

verus! {

/// Sequential reader: `bytes[pos..limit]` is the unread region.
pub struct Cursor<'a> {
    pub bytes: &'a [u8],
    pub pos: usize,
    pub limit: usize,
}

impl<'a> Cursor<'a> {
    /// The cursor's offsets are ordered and inside the buffer.
    pub open spec fn wf(self) -> bool {
        self.pos <= self.limit <= self.bytes@.len()
    }

    /// A fresh cursor over the whole buffer.
    pub fn new(bytes: &'a [u8]) -> (c: Cursor<'a>)
        ensures
            c.wf(),
            c.bytes@ == bytes@,
            c.pos == 0,
            c.limit == bytes@.len(),
    {
        let limit = bytes.len();
        Cursor { bytes, pos: 0, limit }
    }

    /// Carves off a sub-cursor scoped to exactly the next `n` bytes,
    /// advancing this cursor past them; fails with `UnexpectedEof`
    /// (reported at the limit) when fewer than `n` bytes remain, leaving
    /// the offset unchanged.  Decoding a section through the sub-cursor
    /// can never read past the section's declared length.
    pub fn slice(&mut self, n: usize) -> (r: Result<Cursor<'a>, DecodeError>)
        requires
            old(self).wf(),
        ensures
            final(self).wf(),
            final(self).bytes@ == old(self).bytes@,
            final(self).limit == old(self).limit,
            match r {
                Ok(sub) => {
                    &&& n <= old(self).limit - old(self).pos
                    &&& sub.wf()
                    &&& sub.bytes@ == old(self).bytes@
                    &&& sub.pos == old(self).pos
                    &&& sub.limit == old(self).pos + n
                    &&& final(self).pos == old(self).pos + n
                },
                Err(e) => {
                    &&& n > old(self).limit - old(self).pos
                    &&& e == spec_err(ErrorKind::UnexpectedEof, old(self).limit as int)
                    &&& final(self).pos == old(self).pos
                },
            },
    {
        if n <= self.limit - self.pos {
            let sub = Cursor { bytes: self.bytes, pos: self.pos, limit: self.pos + n };
            self.pos = self.pos + n;
            Ok(sub)
        } else {
            Err(DecodeError::at(ErrorKind::UnexpectedEof, self.limit))
        }
    }

    /// Reads one byte, advancing the offset by one; fails with
    /// `UnexpectedEof` (reported at the limit) when nothing remains,
    /// leaving the offset unchanged.
    pub fn read_u8(&mut self) -> (r: Result<u8, DecodeError>)
        requires
            old(self).wf(),
        ensures
            final(self).wf(),
            final(self).bytes@ == old(self).bytes@,
            final(self).limit == old(self).limit,
            match r {
                Ok(b) => spec_read_u8(old(self).bytes@, old(self).pos as int, old(self).limit as int)
                    == Ok::<(u8, int), DecodeError>((b, final(self).pos as int))
                    && final(self).pos == old(self).pos + 1,
                Err(e) => spec_read_u8(old(self).bytes@, old(self).pos as int, old(self).limit as int)
                    == Err::<(u8, int), DecodeError>(e)
                    && final(self).pos == old(self).pos,
            },
    {
        if self.pos < self.limit {
            let b = self.bytes[self.pos];
            self.pos = self.pos + 1;
            Ok(b)
        } else {
            Err(DecodeError::at(ErrorKind::UnexpectedEof, self.limit))
        }
    }
}

/// What reading one byte at `pos` under `limit` yields: the byte and the new
/// offset, or `UnexpectedEof` reported at the limit.
pub open spec fn spec_read_u8(s: Seq<u8>, pos: int, limit: int) -> Result<(u8, int), DecodeError> {
    if pos < 0 || pos >= limit || limit > s.len() {
        Err(spec_err(ErrorKind::UnexpectedEof, limit))
    } else {
        Ok((s[pos], pos + 1))
    }
}

} // verus!
