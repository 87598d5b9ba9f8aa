//! Section data that records when it has outgrown its memory budget.

use vstd::prelude::*;
use crate::container::data::memory::InMemorySection;
use crate::error::{Error, IoFault};
use crate::utils::{readable, seek_target, written, SeekFrom};

verus! {

/// The size past which section data counts as spilled.
pub const MEMORY_THRESHOLD: usize = 100_000_000;

/// The data of one section: a seekable buffer of bytes. The buffer counts as
/// spilled from the first write that takes its size past its threshold, and
/// stays so.
#[derive(Debug)]
pub struct AutoSectionData {
    pub inner: InMemorySection,
    pub threshold: usize,
    pub spilled: bool,
}

/// What a buffer of section data holds: its content, its read and write
/// position, its threshold, and whether it is spilled.
pub ghost struct DataView {
    pub content: Seq<u8>,
    pub pos: nat,
    pub threshold: usize,
    pub spilled: bool,
}

impl View for AutoSectionData {
    type V = DataView;

    open spec fn view(&self) -> DataView {
        DataView {
            content: self.inner.contents(),
            pos: self.inner.pos(),
            threshold: self.threshold,
            spilled: self.spilled,
        }
    }
}

/// What an empty buffer with the default threshold holds.
pub open spec fn fresh_view() -> DataView {
    DataView { content: Seq::empty(), pos: 0, threshold: MEMORY_THRESHOLD, spilled: false }
}

/// What a buffer holds into which a payload was loaded for a section of the
/// given size: the payload, positioned at its first byte, spilled where the
/// size or the payload's length is past the default threshold.
pub open spec fn loaded_view(payload: Seq<u8>, size: u32) -> DataView {
    DataView {
        content: payload,
        pos: 0,
        threshold: MEMORY_THRESHOLD,
        spilled: size > MEMORY_THRESHOLD || payload.len() > MEMORY_THRESHOLD,
    }
}

impl AutoSectionData {
    /// A buffer is spilled where its content is larger than its threshold.
    pub open spec fn wf(&self) -> bool {
        &&& self.inner.wf()
        &&& self.inner.contents().len() > self.threshold ==> self.spilled
    }

    /// The content.
    pub open spec fn contents(&self) -> Seq<u8> {
        self.inner.contents()
    }

    /// The read and write position.
    pub open spec fn pos(&self) -> nat {
        self.inner.pos()
    }

    /// Tests the buffer's invariant.
    pub fn is_valid(&self) -> (r: bool)
        ensures
            r == self.wf(),
    {
        self.inner.cur_size == self.inner.byte_buf.data.len() && (self.inner.byte_buf.data.len()
            <= self.threshold || self.spilled)
    }

    /// An empty buffer with the default threshold.
    pub fn new() -> (r: Self)
        ensures
            r.wf(),
            r.contents() == Seq::<u8>::empty(),
            r.pos() == 0,
            r.threshold == MEMORY_THRESHOLD,
            !r.spilled,
    {
        AutoSectionData { inner: InMemorySection::new(0), threshold: MEMORY_THRESHOLD, spilled: false }
    }

    /// An empty buffer with its own threshold.
    pub fn with_threshold(threshold: usize) -> (r: Self)
        ensures
            r.wf(),
            r.contents() == Seq::<u8>::empty(),
            r.pos() == 0,
            r.threshold == threshold,
            !r.spilled,
    {
        AutoSectionData { inner: InMemorySection::new(0), threshold, spilled: false }
    }

    /// An empty buffer that is about to take `size` bytes: spilled from the
    /// start where `size` is past the default threshold.
    pub fn new_with_size(size: u32) -> (r: Result<Self, Error>)
        ensures
            r is Ok,
            r->Ok_0.wf(),
            r->Ok_0.contents() == Seq::<u8>::empty(),
            r->Ok_0.pos() == 0,
            r->Ok_0.threshold == MEMORY_THRESHOLD,
            r->Ok_0.spilled == (size > MEMORY_THRESHOLD),
    {
        if size as usize > MEMORY_THRESHOLD {
            Ok(AutoSectionData { inner: InMemorySection::new(0), threshold: MEMORY_THRESHOLD, spilled: true })
        } else {
            Ok(
                AutoSectionData {
                    inner: InMemorySection::new(size as usize),
                    threshold: MEMORY_THRESHOLD,
                    spilled: false,
                },
            )
        }
    }

    /// Reads at most `max` bytes at the position and moves past them; at or
    /// past the end nothing is read.
    pub fn read(&mut self, max: usize) -> (r: Vec<u8>)
        requires
            old(self).wf(),
        ensures
            final(self).wf(),
            final(self).contents() == old(self).contents(),
            final(self).threshold == old(self).threshold,
            final(self).spilled == old(self).spilled,
            r@ == readable(old(self).contents(), old(self).pos(), max as nat),
            final(self).pos() == old(self).pos() + r@.len(),
    {
        self.inner.read(max)
    }

    /// What `write` does: `buf` is written at the position, which moves past
    /// it, and the buffer is spilled from then on where its size is past the
    /// threshold. A write whose end does not fit the machine is refused and
    /// changes nothing.
    pub open spec fn wrote(
        pre: AutoSectionData,
        buf: Seq<u8>,
        post: AutoSectionData,
        r: Result<usize, Error>,
    ) -> bool {
        if pre.pos() + buf.len() <= usize::MAX {
            &&& r == Ok::<usize, Error>(buf.len() as usize)
            &&& post.contents() == written(pre.contents(), pre.pos(), buf)
            &&& post.pos() == pre.pos() + buf.len()
            &&& post.threshold == pre.threshold
            &&& post.spilled == (pre.spilled || post.contents().len() > pre.threshold)
        } else {
            r == Err::<usize, Error>(Error::Io(IoFault::Overflow)) && post == pre
        }
    }

    /// Writes `buf` at the position and moves past it. The buffer becomes
    /// spilled where the write takes its size past the threshold.
    pub fn write(&mut self, buf: &[u8]) -> (r: Result<usize, Error>)
        requires
            old(self).wf(),
        ensures
            final(self).wf(),
            Self::wrote(*old(self), buf@, *final(self), r),
    {
        let len = self.inner.write(buf)?;
        if self.inner.size() > self.threshold {
            self.spilled = true;
        }
        Ok(len)
    }

    /// Does nothing: every write is complete when it returns.
    pub fn flush(&mut self) -> (r: Result<(), Error>)
        ensures
            *final(self) == *old(self),
            r is Ok,
    {
        Ok(())
    }

    /// Moves the position.
    pub fn seek(&mut self, whence: SeekFrom) -> (r: Result<u64, Error>)
        requires
            old(self).wf(),
        ensures
            final(self).wf(),
            final(self).contents() == old(self).contents(),
            final(self).threshold == old(self).threshold,
            final(self).spilled == old(self).spilled,
            0 <= seek_target(old(self).contents().len(), old(self).pos(), whence) <= usize::MAX
                ==> r == Ok::<u64, Error>(final(self).pos() as u64) && final(self).pos()
                == seek_target(old(self).contents().len(), old(self).pos(), whence),
            !(0 <= seek_target(old(self).contents().len(), old(self).pos(), whence) <= usize::MAX)
                ==> r == Err::<u64, Error>(Error::Io(IoFault::InvalidSeek)) && final(self).pos()
                == old(self).pos(),
    {
        self.inner.seek(whence)
    }

    /// A copy of the whole content, spilled or not.
    pub fn load_in_memory(&mut self) -> (r: Result<Vec<u8>, Error>)
        ensures
            *final(self) == *old(self),
            r is Ok,
            r->Ok_0@ == old(self).contents(),
    {
        self.inner.load_in_memory()
    }

    /// The size of the content.
    pub fn size(&self) -> (r: usize)
        requires
            self.wf(),
        ensures
            r == self.contents().len(),
    {
        self.inner.size()
    }

    /// True where the content has outgrown the threshold at some point.
    pub fn is_spilled(&self) -> (r: bool)
        ensures
            r == self.spilled,
    {
        self.spilled
    }
}

/// Spilling does not change what a buffer holds: the same write to two
/// buffers with the same content and position leaves the same content and
/// position, whatever their thresholds are and whether they spill or not.
pub proof fn lemma_spill_keeps_content(
    a: AutoSectionData,
    b: AutoSectionData,
    buf: Seq<u8>,
    a_after: AutoSectionData,
    b_after: AutoSectionData,
    a_result: Result<usize, Error>,
    b_result: Result<usize, Error>,
)
    requires
        a.contents() == b.contents(),
        a.pos() == b.pos(),
        AutoSectionData::wrote(a, buf, a_after, a_result),
        AutoSectionData::wrote(b, buf, b_after, b_result),
    ensures
        a_after.contents() == b_after.contents(),
        a_after.pos() == b_after.pos(),
        (a_result is Ok) == (b_result is Ok),
{
}

} // verus!
