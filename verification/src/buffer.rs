//! A bounded output buffer over caller-provided memory.

use vstd::prelude::*;

use crate::error::RnsError;

verus! {

/// Collects bytes in a caller-provided slice until the slice is full.
pub struct OutputBuffer<'a> {
    buffer: &'a mut [u8],
    offset: usize,
}

impl<'a> View for OutputBuffer<'a> {
    type V = Seq<u8>;

    /// The bytes written so far.
    closed spec fn view(&self) -> Seq<u8> {
        self.buffer@.subrange(0, self.offset as int)
    }
}

impl<'a> OutputBuffer<'a> {
    /// How many bytes the buffer can hold.
    pub closed spec fn capacity(&self) -> nat {
        self.buffer@.len()
    }

    /// The write position lies inside the buffer.
    pub closed spec fn wf(&self) -> bool {
        self.offset <= self.buffer@.len()
    }

    /// An empty buffer over `buffer`.
    pub fn new(buffer: &'a mut [u8]) -> (r: Self)
        ensures
            r.wf(),
            r.capacity() == old(buffer)@.len(),
            r@ == Seq::<u8>::empty(),
    {
        OutputBuffer { buffer, offset: 0 }
    }

    /// What is written fits the buffer.
    pub proof fn written_fits(&self)
        requires
            self.wf(),
        ensures
            self@.len() <= self.capacity(),
    {
    }

    /// The number of bytes written so far.
    pub fn offset(&self) -> (r: usize)
        requires
            self.wf(),
        ensures
            r == self@.len(),
    {
        self.offset
    }

    /// Writes one byte, or fails when the buffer is full.
    pub fn write_byte(&mut self, byte: u8) -> (r: Result<usize, RnsError>)
        requires
            old(self).wf(),
        ensures
            final(self).wf(),
            final(self).capacity() == old(self).capacity(),
            r == (if old(self)@.len() < old(self).capacity() {
                Ok::<usize, RnsError>(1)
            } else {
                Err::<usize, RnsError>(RnsError::OutOfMemory)
            }),
            final(self)@ == (if r is Ok {
                old(self)@.push(byte)
            } else {
                old(self)@
            }),
    {
        if self.offset < self.buffer.len() {
            self.buffer[self.offset] = byte;
            self.offset = self.offset + 1;
            assert(self@ =~= old(self)@.push(byte));
            Ok(1)
        } else {
            Err(RnsError::OutOfMemory)
        }
    }

    /// Writes all of `data`, or nothing when it does not fit.
    pub fn write(&mut self, data: &[u8]) -> (r: Result<usize, RnsError>)
        requires
            old(self).wf(),
        ensures
            final(self).wf(),
            final(self).capacity() == old(self).capacity(),
            r == (if old(self)@.len() + data@.len() <= old(self).capacity() {
                Ok::<usize, RnsError>(data@.len() as usize)
            } else {
                Err::<usize, RnsError>(RnsError::OutOfMemory)
            }),
            final(self)@ == (if r is Ok {
                old(self)@ + data@
            } else {
                old(self)@
            }),
    {
        if data.len() > self.buffer.len() - self.offset {
            return Err(RnsError::OutOfMemory);
        }
        let mut i: usize = 0;
        while i < data.len()
            invariant
                i <= data@.len(),
                self.wf(),
                self.capacity() == old(self).capacity(),
                old(self)@.len() + data@.len() <= old(self).capacity(),
                self@ == old(self)@ + data@.subrange(0, i as int),
                self.offset == self@.len(),
            decreases data@.len() - i,
        {
            let ghost before = self@;
            self.buffer[self.offset] = data[i];
            self.offset = self.offset + 1;
            i += 1;
            assert(self@ =~= before.push(data@[i - 1]));
            assert(data@.subrange(0, i as int) =~= data@.subrange(0, i - 1).push(data@[i - 1]));
            assert(self@ =~= old(self)@ + data@.subrange(0, i as int));
        }
        assert(data@.subrange(0, i as int) =~= data@);
        Ok(data.len())
    }

    /// The bytes written so far.
    pub fn as_slice(&self) -> (r: &[u8])
        requires
            self.wf(),
        ensures
            r@ == self@,
    {
        &self.buffer[0..self.offset]
    }
}

} // verus!
