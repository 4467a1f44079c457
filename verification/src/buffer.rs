//! The double-buffered staging area between producers and the transport.
//!
//! Two equally-sized byte buffers: one accepts writes, the other is
//! drained; `swap` exchanges their roles in constant time. Writes are
//! all-or-nothing against the spare capacity; reads advance a cursor and
//! never hand a byte out twice.

use vstd::prelude::*;

verus! {

use crate::Error;

/// The read side: a filled buffer and a cursor over what has been
/// consumed so far.
#[derive(Debug)]
pub struct SwapBufReader {
    pub buf: Vec<u8>,
    pub read_cursor: usize,
}

impl SwapBufReader {
    /// The cursor never passes the end of the buffer.
    pub open spec fn wf(&self) -> bool {
        self.read_cursor <= self.buf@.len()
    }

    /// The bytes not yet read.
    pub open spec fn residual(&self) -> Seq<u8> {
        self.buf@.skip(self.read_cursor as int)
    }

    /// An empty read side.
    pub fn new(capacity: usize) -> (r: SwapBufReader)
        ensures
            r.wf(),
            r.residual() =~= Seq::<u8>::empty(),
    {
        SwapBufReader { buf: Vec::with_capacity(capacity), read_cursor: 0 }
    }

    /// How many bytes are left to read.
    pub fn residual_length_read(&self) -> (n: usize)
        requires
            self.wf(),
        ensures
            n == self.residual().len(),
    {
        self.buf.len() - self.read_cursor
    }

    /// Copies up to `dst.len()` bytes over the front of `dst` and
    /// advances the cursor; returns how many were copied. Returns 0 when
    /// nothing is left: the end of the readable bytes.
    pub fn read(&mut self, dst: &mut Vec<u8>) -> (n: usize)
        requires
            old(self).wf(),
        ensures
            final(self).wf(),
            n == if old(self).residual().len() <= old(dst)@.len() {
                old(self).residual().len()
            } else {
                old(dst)@.len()
            },
            final(dst)@.len() == old(dst)@.len(),
            final(dst)@.subrange(0, n as int) == old(self).residual().subrange(0, n as int),
            final(dst)@.skip(n as int) == old(dst)@.skip(n as int),
            final(self).residual() == old(self).residual().skip(n as int),
            final(self).buf == old(self).buf,
    {
        let residual = self.buf.len() - self.read_cursor;
        let n = if residual <= dst.len() {
            residual
        } else {
            dst.len()
        };
        let mut i: usize = 0;
        while i < n
            invariant
                i <= n,
                self.wf(),
                self.buf == old(self).buf,
                self.read_cursor == old(self).read_cursor,
                n <= dst@.len(),
                n <= old(self).residual().len(),
                dst@.len() == old(dst)@.len(),
                self.read_cursor + n <= self.buf@.len(),
                self.buf@.len() <= usize::MAX,
                forall|j: int|
                    0 <= j < i ==> dst@[j] == old(self).buf@[old(self).read_cursor + j],
                forall|j: int| i <= j < dst@.len() ==> dst@[j] == old(dst)@[j],
            decreases n - i,
        {
            let b = self.buf[self.read_cursor + i];
            dst.set(i, b);
            i = i + 1;
        }
        self.read_cursor = self.read_cursor + n;
        proof {
            assert(dst@.subrange(0, n as int) =~= old(self).residual().subrange(0, n as int));
            assert(dst@.skip(n as int) =~= old(dst)@.skip(n as int));
            assert(self.residual() =~= old(self).residual().skip(n as int));
        }
        n
    }

    /// Appends everything left to read onto `dst` and advances the cursor
    /// to the end; returns how many bytes were appended.
    pub fn read_to_end(&mut self, dst: &mut Vec<u8>) -> (n: usize)
        requires
            old(self).wf(),
        ensures
            final(self).wf(),
            n == old(self).residual().len(),
            final(dst)@ == old(dst)@ + old(self).residual(),
            final(self).residual() =~= Seq::<u8>::empty(),
            final(self).buf == old(self).buf,
    {
        let n = self.buf.len() - self.read_cursor;
        let mut i: usize = 0;
        while i < n
            invariant
                i <= n,
                self.wf(),
                self.buf == old(self).buf,
                self.read_cursor == old(self).read_cursor,
                n == old(self).residual().len(),
                self.read_cursor + n <= self.buf@.len(),
                self.buf@.len() <= usize::MAX,
                dst@ == old(dst)@ + old(self).residual().subrange(0, i as int),
            decreases n - i,
        {
            let b = self.buf[self.read_cursor + i];
            proof {
                assert(old(self).residual().subrange(0, i + 1) =~= old(self).residual().subrange(
                    0,
                    i as int,
                ).push(old(self).buf@[old(self).read_cursor + i]));
            }
            dst.push(b);
            i = i + 1;
        }
        self.read_cursor = self.read_cursor + n;
        proof {
            assert(old(self).residual().subrange(0, n as int) =~= old(self).residual());
            assert(self.residual() =~= Seq::<u8>::empty());
        }
        n
    }
}

/// The write side: a partially filled buffer with a fixed capacity.
#[derive(Debug)]
pub struct SwapBufWriter {
    pub buf: Vec<u8>,
    pub capacity: usize,
}

impl SwapBufWriter {
    /// The buffer never grows past the capacity chosen at creation.
    pub open spec fn wf(&self) -> bool {
        self.buf@.len() <= self.capacity
    }

    /// The bytes written and not yet swapped out.
    pub open spec fn pending(&self) -> Seq<u8> {
        self.buf@
    }

    /// The fixed capacity.
    pub open spec fn cap(&self) -> usize {
        self.capacity
    }

    /// An empty write side of the given capacity.
    pub fn new(capacity: usize) -> (r: SwapBufWriter)
        ensures
            r.wf(),
            r.pending() =~= Seq::<u8>::empty(),
            r.cap() == capacity,
    {
        SwapBufWriter { buf: Vec::with_capacity(capacity), capacity }
    }

    /// How many more bytes fit.
    pub fn spare_capacity_write(&self) -> (n: usize)
        requires
            self.wf(),
        ensures
            n == self.cap() - self.pending().len(),
    {
        self.capacity - self.buf.len()
    }

    /// Appends all of `data`, or nothing: when `data` does not fit in the
    /// spare capacity the buffer is left unchanged and the write fails
    /// with `Error::BufferFull`.
    pub fn write(&mut self, data: &[u8]) -> (r: Result<usize, Error>)
        requires
            old(self).wf(),
        ensures
            final(self).wf(),
            final(self).cap() == old(self).cap(),
            match r {
                Result::Ok(n) => n == data@.len() && data@.len() <= old(self).cap() - old(
                    self,
                ).pending().len() && final(self).pending() == old(self).pending() + data@,
                Result::Err(e) => e == Error::BufferFull && data@.len() > old(self).cap() - old(
                    self,
                ).pending().len() && *final(self) == *old(self),
            },
    {
        if data.len() > self.capacity - self.buf.len() {
            return Result::Err(Error::BufferFull);
        }
        self.buf.extend_from_slice(data);
        Result::Ok(data.len())
    }

    /// A write side is always synchronized; flushing changes nothing.
    pub fn flush(&mut self) -> (r: Result<(), Error>)
        ensures
            *final(self) == *old(self),
            r is Ok,
    {
        Result::Ok(())
    }
}

/// The double buffer: a write side filling up and a read side being
/// drained, exchanged by `swap`.
#[derive(Debug)]
pub struct SwapBuffer {
    pub read: SwapBufReader,
    pub write: SwapBufWriter,
    pub capacity: usize,
}

impl SwapBuffer {
    /// Both sides well-formed, the write side at the shared capacity.
    pub open spec fn wf(&self) -> bool {
        self.read.wf() && self.write.wf() && self.write.cap() == self.capacity
    }

    /// The bytes written and not yet swapped to the read side.
    pub open spec fn pending(&self) -> Seq<u8> {
        self.write.pending()
    }

    /// The bytes swapped to the read side and not yet read.
    pub open spec fn residual(&self) -> Seq<u8> {
        self.read.residual()
    }

    /// The shared capacity of the two sides.
    pub open spec fn cap(&self) -> usize {
        self.capacity
    }

    /// A fresh double buffer: both sides empty, each of the given
    /// capacity.
    pub fn new(capacity: usize) -> (r: SwapBuffer)
        ensures
            r.wf(),
            r.cap() == capacity,
            r.pending() =~= Seq::<u8>::empty(),
            r.residual() =~= Seq::<u8>::empty(),
    {
        SwapBuffer {
            capacity,
            read: SwapBufReader::new(capacity),
            write: SwapBufWriter::new(capacity),
        }
    }

    /// Exchanges the two storages: every byte written but not yet swapped
    /// out becomes readable, exactly once and in write order; the write
    /// side starts over empty; bytes already read never reappear. Returns
    /// how many bytes are now readable.
    pub fn swap(&mut self) -> (n: usize)
        requires
            old(self).wf(),
        ensures
            final(self).wf(),
            final(self).cap() == old(self).cap(),
            n == old(self).pending().len(),
            final(self).residual() == old(self).pending(),
            final(self).pending() =~= Seq::<u8>::empty(),
    {
        core::mem::swap(&mut self.read.buf, &mut self.write.buf);
        self.read.read_cursor = 0;
        self.write.buf.clear();
        proof {
            assert(self.read.residual() =~= self.read.buf@);
        }
        self.read.buf.len()
    }

    /// Appends onto the write side, all or nothing.
    pub fn write(&mut self, data: &[u8]) -> (r: Result<usize, Error>)
        requires
            old(self).wf(),
        ensures
            final(self).wf(),
            final(self).cap() == old(self).cap(),
            final(self).residual() == old(self).residual(),
            match r {
                Result::Ok(n) => n == data@.len() && data@.len() <= old(self).cap() - old(
                    self,
                ).pending().len() && final(self).pending() == old(self).pending() + data@,
                Result::Err(e) => e == Error::BufferFull && data@.len() > old(self).cap() - old(
                    self,
                ).pending().len() && *final(self) == *old(self),
            },
    {
        self.write.write(data)
    }

    /// Copies from the read side over the front of `dst`, advancing the
    /// read cursor; returns how many bytes were copied, 0 when the read
    /// side is empty.
    pub fn read(&mut self, dst: &mut Vec<u8>) -> (n: usize)
        requires
            old(self).wf(),
        ensures
            final(self).wf(),
            final(self).cap() == old(self).cap(),
            final(self).pending() == old(self).pending(),
            n == if old(self).residual().len() <= old(dst)@.len() {
                old(self).residual().len()
            } else {
                old(dst)@.len()
            },
            final(dst)@.len() == old(dst)@.len(),
            final(dst)@.subrange(0, n as int) == old(self).residual().subrange(0, n as int),
            final(dst)@.skip(n as int) == old(dst)@.skip(n as int),
            final(self).residual() == old(self).residual().skip(n as int),
    {
        self.read.read(dst)
    }

    /// Appends everything unread on the read side onto `dst`.
    pub fn read_to_end(&mut self, dst: &mut Vec<u8>) -> (n: usize)
        requires
            old(self).wf(),
        ensures
            final(self).wf(),
            final(self).cap() == old(self).cap(),
            final(self).pending() == old(self).pending(),
            n == old(self).residual().len(),
            final(dst)@ == old(dst)@ + old(self).residual(),
            final(self).residual() =~= Seq::<u8>::empty(),
    {
        self.read.read_to_end(dst)
    }

    /// The capacity each side was created with.
    pub fn capacity(&self) -> (n: usize)
        ensures
            n == self.cap(),
    {
        self.capacity
    }
}

} // verus!
