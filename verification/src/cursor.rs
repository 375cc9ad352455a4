//! Bounds-checked sequential access to a byte buffer.
//!
//! A [`Writer`] fills a caller's buffer front to back, a [`Reader`] consumes
//! one. Every operation either fits in what is left of the buffer and is done
//! in full, or fails with [`LfcRes::ErrNomem`] and changes nothing.

use vstd::prelude::*;
use crate::error::{LfcError, LfcRes};

verus! {

/// The four bytes of `v`, least significant first.
pub open spec fn u32_le(v: u32) -> Seq<u8> {
    seq![
        (v % 256) as u8,
        ((v / 256) % 256) as u8,
        ((v / 65536) % 256) as u8,
        (v / 16777216) as u8,
    ]
}

/// The number whose four bytes, least significant first, open `b`.
pub open spec fn u32_from_le(b: Seq<u8>) -> int
    recommends
        b.len() >= 4,
{
    b[0] + 256 * b[1] + 65536 * b[2] + 16777216 * b[3]
}

/// `buf` with the bytes from `at` on replaced by `bytes`; the length stays.
pub open spec fn overwrite(buf: Seq<u8>, at: int, bytes: Seq<u8>) -> Seq<u8>
    recommends
        0 <= at,
        at + bytes.len() <= buf.len(),
{
    Seq::new(
        buf.len(),
        |i: int| if at <= i < at + bytes.len() { bytes[i - at] } else { buf[i] },
    )
}

/// Writing `a` and then `b` behind it is writing the two as one.
pub proof fn lemma_overwrite_append(buf: Seq<u8>, at: int, a: Seq<u8>, b: Seq<u8>)
    requires
        0 <= at,
        at + a.len() + b.len() <= buf.len(),
    ensures
        overwrite(overwrite(buf, at, a), at + a.len(), b) =~= overwrite(buf, at, a + b),
{
}

/// Reading back what [`u32_le`] wrote gives the number again.
pub proof fn lemma_u32_le_inverse(v: u32)
    ensures
        u32_le(v).len() == 4,
        u32_from_le(u32_le(v)) == v,
{
}

/// Four bytes are the little-endian form of the number they read as.
pub proof fn lemma_u32_from_le_inverse(b: Seq<u8>)
    requires
        b.len() == 4,
    ensures
        0 <= u32_from_le(b) <= u32::MAX,
        u32_le(u32_from_le(b) as u32) =~= b,
{
    let n = u32_from_le(b);
    let high = b[1] + 256 * b[2] + 65536 * b[3];
    let higher = b[2] + 256 * b[3];
    assert(n == 256 * high + b[0]);
    assert(n / 256 == high && n % 256 == b[0]);
    assert(high == 256 * higher + b[1]);
    assert(high / 256 == higher && high % 256 == b[1]);
    assert(n / 65536 == higher);
    assert(higher / 256 == b[3] && higher % 256 == b[2]);
    assert(n / 16777216 == b[3]);
}

/// A position in a buffer that is being filled front to back.
///
/// The writer borrows the buffer. Each operation states what the buffer
/// holds right after it, and that the buffer's content at the end of the
/// borrow is still to be decided by the writer alone; so when the writer is
/// given up, the lender's buffer holds what the writer's buffer held last.
pub struct Writer<'a> {
    /// The whole buffer, written and unwritten part.
    pub buf: &'a mut [u8],
    /// The number of bytes written so far.
    pub pos: usize,
}

impl<'a> Writer<'a> {
    /// The position lies within the buffer.
    pub open spec fn wf(&self) -> bool {
        self.pos <= self.buf@.len()
    }

    /// The number of bytes that can still be written.
    pub open spec fn remaining(&self) -> int {
        self.buf@.len() - self.pos
    }

    /// Starts writing at the front of `buf`.
    pub fn new(buf: &'a mut [u8]) -> (w: Self)
        ensures
            w.wf(),
            w.pos == 0,
            w.buf@ == old(buf)@,
            final(buf)@ == final(w.buf)@,
    {
        Writer { buf, pos: 0 }
    }

    /// Returns the number of bytes written so far.
    pub fn position(&self) -> (pos: usize)
        ensures
            pos == self.pos,
    {
        self.pos
    }

    /// Writes one byte.
    pub fn put_u8(&mut self, v: u8) -> (res: Result<(), LfcError>)
        requires
            old(self).wf(),
        ensures
            final(self).wf(),
            final(final(self).buf)@ == final(old(self).buf)@,
            res is Ok <==> old(self).remaining() >= 1,
            res is Ok ==> final(self).pos == old(self).pos + 1 && final(self).buf@ == overwrite(
                old(self).buf@,
                old(self).pos as int,
                seq![v],
            ),
            res is Err ==> res == Err::<(), LfcError>(LfcError(LfcRes::ErrNomem))
                && final(self).pos == old(self).pos && final(self).buf@ == old(self).buf@,
    {
        if self.pos < self.buf.len() {
            self.buf[self.pos] = v;
            self.pos = self.pos + 1;
            proof {
                assert(self.buf@ =~= overwrite(old(self).buf@, old(self).pos as int, seq![v]));
            }
            Ok(())
        } else {
            Err(LfcError(LfcRes::ErrNomem))
        }
    }

    /// Writes `v` as four bytes, least significant first.
    pub fn put_u32_le(&mut self, v: u32) -> (res: Result<(), LfcError>)
        requires
            old(self).wf(),
        ensures
            final(self).wf(),
            final(final(self).buf)@ == final(old(self).buf)@,
            res is Ok <==> old(self).remaining() >= 4,
            res is Ok ==> final(self).pos == old(self).pos + 4 && final(self).buf@ == overwrite(
                old(self).buf@,
                old(self).pos as int,
                u32_le(v),
            ),
            res is Err ==> res == Err::<(), LfcError>(LfcError(LfcRes::ErrNomem))
                && final(self).pos == old(self).pos && final(self).buf@ == old(self).buf@,
    {
        if self.buf.len() - self.pos < 4 {
            return Err(LfcError(LfcRes::ErrNomem));
        }
        let at: usize = self.pos;
        self.buf[at] = (v % 256) as u8;
        self.buf[at + 1] = ((v / 256) % 256) as u8;
        self.buf[at + 2] = ((v / 65536) % 256) as u8;
        self.buf[at + 3] = (v / 16777216) as u8;
        self.pos = at + 4;
        proof {
            assert(self.buf@ =~= overwrite(old(self).buf@, old(self).pos as int, u32_le(v)));
        }
        Ok(())
    }

    /// Writes all of `bytes`.
    pub fn put_bytes(&mut self, bytes: &[u8]) -> (res: Result<(), LfcError>)
        requires
            old(self).wf(),
        ensures
            final(self).wf(),
            final(final(self).buf)@ == final(old(self).buf)@,
            res is Ok <==> old(self).remaining() >= bytes@.len(),
            res is Ok ==> final(self).pos == old(self).pos + bytes@.len() && final(self).buf@
                == overwrite(old(self).buf@, old(self).pos as int, bytes@),
            res is Err ==> res == Err::<(), LfcError>(LfcError(LfcRes::ErrNomem))
                && final(self).pos == old(self).pos && final(self).buf@ == old(self).buf@,
    {
        let n: usize = bytes.len();
        if self.buf.len() - self.pos < n {
            return Err(LfcError(LfcRes::ErrNomem));
        }
        let at: usize = self.pos;
        let mut i: usize = 0;
        while i < n
            invariant
                i <= n,
                n == bytes@.len(),
                at == old(self).pos,
                self.pos == at,
                at + n <= self.buf.len(),
                self.buf@ == overwrite(old(self).buf@, at as int, bytes@.subrange(0, i as int)),
                final(self.buf)@ == final(old(self).buf)@,
            decreases n - i,
        {
            self.buf[at + i] = bytes[i];
            i = i + 1;
            proof {
                assert(self.buf@ =~= overwrite(
                    old(self).buf@,
                    at as int,
                    bytes@.subrange(0, i as int),
                ));
            }
        }
        self.pos = at + n;
        proof {
            assert(bytes@.subrange(0, n as int) =~= bytes@);
        }
        Ok(())
    }
}

/// A position in a buffer that is being consumed front to back.
pub struct Reader<'a> {
    /// The whole buffer, consumed and unconsumed part.
    pub buf: &'a [u8],
    /// The number of bytes consumed so far.
    pub pos: usize,
}

impl<'a> Reader<'a> {
    /// The position lies within the buffer.
    pub open spec fn wf(&self) -> bool {
        self.pos <= self.buf@.len()
    }

    /// The number of bytes that can still be read.
    pub open spec fn remaining(&self) -> int {
        self.buf@.len() - self.pos
    }

    /// The `n` bytes that would be read next.
    pub open spec fn upcoming(&self, n: int) -> Seq<u8>
        recommends
            0 <= n <= self.remaining(),
    {
        self.buf@.subrange(self.pos as int, self.pos + n)
    }

    /// Starts reading at the front of `buf`.
    pub fn new(buf: &'a [u8]) -> (r: Self)
        ensures
            r.wf(),
            r.pos == 0,
            r.buf@ == buf@,
    {
        Reader { buf, pos: 0 }
    }

    /// Returns the number of bytes consumed so far.
    pub fn position(&self) -> (pos: usize)
        ensures
            pos == self.pos,
    {
        self.pos
    }

    /// Reads one byte.
    pub fn take_u8(&mut self) -> (res: Result<u8, LfcError>)
        requires
            old(self).wf(),
        ensures
            final(self).wf(),
            final(self).buf@ == old(self).buf@,
            match res {
                Ok(v) => old(self).remaining() >= 1 && v == old(self).buf@[old(self).pos as int]
                    && final(self).pos == old(self).pos + 1,
                Err(e) => old(self).remaining() < 1 && e == LfcError(LfcRes::ErrNomem)
                    && final(self).pos == old(self).pos,
            },
    {
        if self.pos < self.buf.len() {
            let v: u8 = self.buf[self.pos];
            self.pos = self.pos + 1;
            Ok(v)
        } else {
            Err(LfcError(LfcRes::ErrNomem))
        }
    }

    /// Reads four bytes as a number, least significant byte first.
    pub fn take_u32_le(&mut self) -> (res: Result<u32, LfcError>)
        requires
            old(self).wf(),
        ensures
            final(self).wf(),
            final(self).buf@ == old(self).buf@,
            match res {
                Ok(v) => old(self).remaining() >= 4 && v == u32_from_le(old(self).upcoming(4))
                    && final(self).pos == old(self).pos + 4,
                Err(e) => old(self).remaining() < 4 && e == LfcError(LfcRes::ErrNomem)
                    && final(self).pos == old(self).pos,
            },
    {
        if self.buf.len() - self.pos < 4 {
            return Err(LfcError(LfcRes::ErrNomem));
        }
        let at: usize = self.pos;
        let b0: u32 = self.buf[at] as u32;
        let b1: u32 = self.buf[at + 1] as u32;
        let b2: u32 = self.buf[at + 2] as u32;
        let b3: u32 = self.buf[at + 3] as u32;
        self.pos = at + 4;
        Ok(b0 + 256 * b1 + 65536 * b2 + 16777216 * b3)
    }

    /// Reads `n` bytes and hands them out as a part of the buffer.
    pub fn take_bytes(&mut self, n: usize) -> (res: Result<&'a [u8], LfcError>)
        requires
            old(self).wf(),
        ensures
            final(self).wf(),
            final(self).buf@ == old(self).buf@,
            match res {
                Ok(bytes) => old(self).remaining() >= n && bytes@ == old(self).upcoming(n as int)
                    && final(self).pos == old(self).pos + n,
                Err(e) => old(self).remaining() < n && e == LfcError(LfcRes::ErrNomem)
                    && final(self).pos == old(self).pos,
            },
    {
        if self.buf.len() - self.pos < n {
            return Err(LfcError(LfcRes::ErrNomem));
        }
        let at: usize = self.pos;
        let bytes: &'a [u8] = vstd::slice::slice_subrange(self.buf, at, at + n);
        self.pos = at + n;
        Ok(bytes)
    }
}

} // verus!
