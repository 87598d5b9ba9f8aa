//! Section data held in memory.

use vstd::prelude::*;
use crate::error::{Error, IoFault};
use crate::utils::{new_byte_buf, readable, seek_target, written, ByteBuf, SeekFrom};

verus! {

/// Section data held in one byte buffer.
#[derive(Debug)]
pub struct InMemorySection {
    pub byte_buf: ByteBuf,
    pub cur_size: usize,
}

impl InMemorySection {
    /// The recorded size is the length of the content.
    pub open spec fn wf(&self) -> bool {
        self.cur_size == self.byte_buf.data@.len()
    }

    /// The content.
    pub open spec fn contents(&self) -> Seq<u8> {
        self.byte_buf.data@
    }

    /// The read and write position.
    pub open spec fn pos(&self) -> nat {
        self.byte_buf.pos as nat
    }

    /// An empty section with room for `initial` bytes.
    pub fn new(initial: usize) -> (r: InMemorySection)
        ensures
            r.wf(),
            r.contents() == Seq::<u8>::empty(),
            r.pos() == 0,
    {
        InMemorySection { byte_buf: new_byte_buf(initial), cur_size: 0 }
    }

    /// Reads at most `max` bytes at the position and moves past them; at or
    /// past the end nothing is read.
    pub fn read(&mut self, max: usize) -> (r: Vec<u8>)
        requires
            old(self).wf(),
        ensures
            final(self).wf(),
            final(self).contents() == old(self).contents(),
            r@ == readable(old(self).contents(), old(self).pos(), max as nat),
            final(self).pos() == old(self).pos() + r@.len(),
    {
        self.byte_buf.read(max)
    }

    /// Writes `buf` at the position and moves past it; the size becomes the
    /// end of the write where that lies past it.
    pub fn write(&mut self, buf: &[u8]) -> (r: Result<usize, Error>)
        requires
            old(self).wf(),
        ensures
            final(self).wf(),
            old(self).pos() + buf@.len() <= usize::MAX ==> r == Ok::<usize, Error>(
                buf@.len() as usize,
            ) && final(self).contents() == written(old(self).contents(), old(self).pos(), buf@)
                && final(self).pos() == old(self).pos() + buf@.len(),
            old(self).pos() + buf@.len() > usize::MAX ==> r == Err::<usize, Error>(
                Error::Io(IoFault::Overflow),
            ) && *final(self) == *old(self),
    {
        let len = self.byte_buf.write(buf)?;
        if self.byte_buf.position() >= self.cur_size {
            self.cur_size = self.byte_buf.position();
        }
        Ok(len)
    }

    /// Does nothing: the content is in memory.
    pub fn flush(&mut self) -> (r: Result<(), Error>)
        ensures
            *final(self) == *old(self),
            r is Ok,
    {
        Ok(())
    }

    /// Moves the position.
    pub fn seek(&mut self, whence: SeekFrom) -> (r: Result<u64, Error>)
        requires
            old(self).wf(),
        ensures
            final(self).wf(),
            final(self).contents() == old(self).contents(),
            0 <= seek_target(old(self).contents().len(), old(self).pos(), whence) <= usize::MAX
                ==> r == Ok::<u64, Error>(final(self).pos() as u64) && final(self).pos()
                == seek_target(old(self).contents().len(), old(self).pos(), whence),
            !(0 <= seek_target(old(self).contents().len(), old(self).pos(), whence) <= usize::MAX)
                ==> r == Err::<u64, Error>(Error::Io(IoFault::InvalidSeek)) && final(self).pos()
                == old(self).pos(),
    {
        self.byte_buf.seek(whence)
    }

    /// A copy of the whole content.
    pub fn load_in_memory(&mut self) -> (r: Result<Vec<u8>, Error>)
        ensures
            *final(self) == *old(self),
            r is Ok,
            r->Ok_0@ == old(self).contents(),
    {
        let copy = crate::utils::copy_range(self.byte_buf.data.as_slice(), 0, self.byte_buf.data.len());
        assert(copy@ =~= self.byte_buf.data@);
        Ok(copy)
    }

    /// The size of the content.
    pub fn size(&self) -> (r: usize)
        requires
            self.wf(),
        ensures
            r == self.contents().len(),
    {
        self.cur_size
    }
}

} // verus!
