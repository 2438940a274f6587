//! Advance-only byte windows over input and output buffers.
//!
//! An [`OStream`] writes into a caller-provided window of fixed capacity;
//! an [`IStream`] reads from a caller-provided buffer. Both fail with
//! [`CodecError::ShortBuffer`] exactly when fewer bytes remain than an
//! operation needs, and never otherwise. `commit` is a flush hint: it is
//! idempotent and never fails.
//!
//! [`NoOStream`] and [`NoIStream`] are zero-sized witnesses whose advance
//! always fails; size computation needs no stream at all, and these stand
//! in where an interface asks for one.

use vstd::prelude::*;

use crate::errors::CodecError;

verus! {

/// Model of a byte window: the whole buffer and the advance position.
pub ghost struct StreamModel {
    pub buf: Seq<u8>,
    pub pos: int,
}

/// A well-formed window: position within the buffer.
pub open spec fn stream_wf(m: StreamModel) -> bool {
    0 <= m.pos <= m.buf.len()
}

/// The bytes already written or consumed.
pub open spec fn stream_done(m: StreamModel) -> Seq<u8> {
    m.buf.take(m.pos)
}

/// The buffer with `x` written at position `at`, everything else kept.
pub open spec fn splice(buf: Seq<u8>, at: int, x: Seq<u8>) -> Seq<u8> {
    buf.take(at) + x + buf.skip(at + x.len())
}

/// An output window over a zero-initialized buffer of fixed capacity.
pub struct OStream {
    pub buf: Vec<u8>,
    pub pos: usize,
}

impl View for OStream {
    type V = StreamModel;

    open spec fn view(&self) -> StreamModel {
        StreamModel { buf: self.buf@, pos: self.pos as int }
    }
}

impl OStream {
    /// A fresh output window of `capacity` bytes.
    pub fn new(capacity: usize) -> (s: OStream)
        ensures
            s@.buf.len() == capacity,
            s@.pos == 0,
            stream_wf(s@),
    {
        OStream { buf: vec![0u8; capacity], pos: 0 }
    }

    /// Bytes of capacity left in the window.
    pub fn remaining(&self) -> (r: usize)
        requires
            stream_wf(self@),
        ensures
            r == self@.buf.len() - self@.pos,
    {
        self.buf.len() - self.pos
    }

    /// Write all of `x` and advance, or fail with `ShortBuffer` and leave
    /// the window untouched when fewer than `x.len()` bytes remain.
    pub fn try_put(&mut self, x: &Vec<u8>) -> (r: Result<(), CodecError>)
        requires
            stream_wf(old(self)@),
        ensures
            r is Ok <==> old(self)@.pos + x@.len() <= old(self)@.buf.len(),
            r is Ok ==> final(self)@.buf == splice(old(self)@.buf, old(self)@.pos, x@)
                && final(self)@.pos == old(self)@.pos + x@.len()
                && stream_done(final(self)@) == stream_done(old(self)@) + x@,
            r is Err ==> *final(self) == *old(self) && r == Err::<(), CodecError>(CodecError::ShortBuffer),
            final(self)@.buf.len() == old(self)@.buf.len(),
            stream_wf(final(self)@),
    {
        if x.len() > self.buf.len() - self.pos {
            return Err(CodecError::ShortBuffer);
        }
        let ghost buf0 = self.buf@;
        let ghost pos0 = self.pos as int;
        let mut i: usize = 0;
        while i < x.len()
            invariant
                i <= x@.len(),
                pos0 + x@.len() <= buf0.len(),
                buf0.len() <= usize::MAX,
                self.pos == pos0,
                self.buf@.len() == buf0.len(),
                self.buf@ == splice(buf0, pos0, x@.take(i as int)),
            decreases x@.len() - i,
        {
            self.buf[self.pos + i] = x[i];
            i = i + 1;
            assert(self.buf@ =~= splice(buf0, pos0, x@.take(i as int)));
        }
        self.pos = self.pos + x.len();
        proof {
            assert(x@.take(x@.len() as int) =~= x@);
            assert(stream_done(self@) =~= stream_done(old(self)@) + x@);
        }
        Ok(())
    }

    /// Flush hint; idempotent, never fails.
    pub fn commit(&mut self)
        ensures
            *final(self) == *old(self),
    {
    }

    /// Copy of the bytes written so far.
    pub fn written_bytes(&self) -> (r: Vec<u8>)
        requires
            stream_wf(self@),
        ensures
            r@ == stream_done(self@),
    {
        let mut r: Vec<u8> = Vec::new();
        assert(r@ =~= self@.buf.take(0));
        let mut i: usize = 0;
        while i < self.pos
            invariant
                i <= self@.pos <= self@.buf.len(),
                r@ == self@.buf.take(i as int),
            decreases self@.pos - i,
        {
            r.push(self.buf[i]);
            i = i + 1;
            assert(r@ =~= self@.buf.take(i as int));
        }
        r
    }
}

/// An input window over a received buffer.
pub struct IStream {
    pub buf: Vec<u8>,
    pub pos: usize,
}

impl View for IStream {
    type V = StreamModel;

    open spec fn view(&self) -> StreamModel {
        StreamModel { buf: self.buf@, pos: self.pos as int }
    }
}

impl IStream {
    /// An input window over `bytes`, starting at the front.
    pub fn new(bytes: Vec<u8>) -> (s: IStream)
        ensures
            s@.buf == bytes@,
            s@.pos == 0,
            stream_wf(s@),
    {
        IStream { buf: bytes, pos: 0 }
    }

    /// Bytes left to read.
    pub fn remaining(&self) -> (r: usize)
        requires
            stream_wf(self@),
        ensures
            r == self@.buf.len() - self@.pos,
    {
        self.buf.len() - self.pos
    }

    /// Read `n` bytes and advance, or fail with `ShortBuffer` and leave
    /// the window untouched when fewer than `n` bytes remain.
    pub fn try_get(&mut self, n: usize) -> (r: Result<Vec<u8>, CodecError>)
        requires
            stream_wf(old(self)@),
        ensures
            r is Ok <==> old(self)@.pos + n <= old(self)@.buf.len(),
            r is Ok ==> r->Ok_0@ == old(self)@.buf.subrange(old(self)@.pos, old(self)@.pos + n)
                && final(self)@.pos == old(self)@.pos + n,
            r is Err ==> *final(self) == *old(self) && r == Err::<Vec<u8>, CodecError>(CodecError::ShortBuffer),
            final(self)@.buf == old(self)@.buf,
            stream_wf(final(self)@),
    {
        if n > self.buf.len() - self.pos {
            return Err(CodecError::ShortBuffer);
        }
        let mut r: Vec<u8> = Vec::new();
        let ghost pos0 = self.pos as int;
        assert(r@ =~= self@.buf.subrange(pos0, pos0));
        let mut i: usize = 0;
        while i < n
            invariant
                i <= n,
                pos0 + n <= self@.buf.len(),
                self@.buf.len() <= usize::MAX,
                self.pos == pos0,
                r@ == self@.buf.subrange(pos0, pos0 + i),
            decreases n - i,
        {
            r.push(self.buf[self.pos + i]);
            i = i + 1;
            assert(r@ =~= self@.buf.subrange(pos0, pos0 + i));
        }
        self.pos = self.pos + n;
        Ok(r)
    }

    /// Advance past `n` bytes without touching the sponge or reading them,
    /// or fail with `ShortBuffer` and leave the window untouched.
    pub fn try_drop(&mut self, n: usize) -> (r: Result<(), CodecError>)
        requires
            stream_wf(old(self)@),
        ensures
            r is Ok <==> old(self)@.pos + n <= old(self)@.buf.len(),
            r is Ok ==> final(self)@.pos == old(self)@.pos + n,
            r is Err ==> *final(self) == *old(self) && r == Err::<(), CodecError>(CodecError::ShortBuffer),
            final(self)@.buf == old(self)@.buf,
            stream_wf(final(self)@),
    {
        if n > self.buf.len() - self.pos {
            return Err(CodecError::ShortBuffer);
        }
        self.pos = self.pos + n;
        Ok(())
    }

    /// Flush hint; idempotent, never fails.
    pub fn commit(&mut self)
        ensures
            *final(self) == *old(self),
    {
    }
}

/// Output witness with no backing buffer: every advance fails.
pub struct NoOStream;

impl NoOStream {
    /// Always fails: there is nowhere to write to.
    pub fn try_advance(&mut self, _n: usize) -> (r: Result<(), CodecError>)
        ensures
            r == Err::<(), CodecError>(CodecError::ShortBuffer),
    {
        Err(CodecError::ShortBuffer)
    }

    /// Flush hint; nothing to flush.
    pub fn commit(&mut self) {
    }
}

/// Input witness with no backing buffer: every advance fails.
pub struct NoIStream;

impl NoIStream {
    /// Always fails: there is nothing to read from.
    pub fn try_advance(&mut self, _n: usize) -> (r: Result<(), CodecError>)
        ensures
            r == Err::<(), CodecError>(CodecError::ShortBuffer),
    {
        Err(CodecError::ShortBuffer)
    }

    /// Flush hint; nothing to flush.
    pub fn commit(&mut self) {
    }
}

} // verus!
