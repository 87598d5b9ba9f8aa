//! The table of the sections of a container.

use vstd::prelude::*;
use crate::container::data::auto::{fresh_view, loaded_view, AutoSectionData};
use crate::header::{
    SectionHeader,
    FLAG_CHECK_CRC32,
    FLAG_CHECK_WEAK,
    FLAG_COMPRESS_XZ,
    FLAG_COMPRESS_ZLIB,
};
use crate::container::decoder::{load_section1, section_payload};
use crate::error::Error;
use crate::utils::ByteBuf;
pub use crate::Handle;

verus! {

/// How a section is to be written: the flags asked for, and the size up to
/// which the payload stays uncompressed.
#[derive(Debug, Clone, Copy, PartialEq, Eq, Structural)]
pub struct SectionEntry1 {
    pub threshold: u32,
    pub flags: u8,
}

/// The checksum flag that a section is written with: at most one of the two
/// asked for, the weak checksum first.
pub open spec fn check_flag(flags: u8) -> u8 {
    if flags & FLAG_CHECK_WEAK != 0 {
        FLAG_CHECK_WEAK
    } else if flags & FLAG_CHECK_CRC32 != 0 {
        FLAG_CHECK_CRC32
    } else {
        0
    }
}

/// The compression flag that a section of `size` bytes is written with: none
/// up to the threshold, else at most one of the two asked for, XZ first.
pub open spec fn compress_flag(flags: u8, threshold: u32, size: u32) -> u8 {
    if flags & FLAG_COMPRESS_XZ != 0 && size > threshold {
        FLAG_COMPRESS_XZ
    } else if flags & FLAG_COMPRESS_ZLIB != 0 && size > threshold {
        FLAG_COMPRESS_ZLIB
    } else {
        0
    }
}

/// The flags that a section of `size` bytes is written with.
pub open spec fn effective_flags(flags: u8, threshold: u32, size: u32) -> u8 {
    check_flag(flags) | compress_flag(flags, threshold, size)
}

/// The flags that a section is written with hold at most one checksum bit and
/// at most one compression bit, each only where it was chosen.
pub proof fn lemma_effective_flags(flags: u8, threshold: u32, size: u32)
    ensures
        ({
            let r = effective_flags(flags, threshold, size);
            let c = check_flag(flags);
            let z = compress_flag(flags, threshold, size);
            &&& (r & FLAG_CHECK_WEAK != 0) == (c == FLAG_CHECK_WEAK)
            &&& (r & FLAG_CHECK_CRC32 != 0) == (c == FLAG_CHECK_CRC32)
            &&& (r & FLAG_COMPRESS_XZ != 0) == (z == FLAG_COMPRESS_XZ)
            &&& (r & FLAG_COMPRESS_ZLIB != 0) == (z == FLAG_COMPRESS_ZLIB)
            &&& !(r & FLAG_CHECK_WEAK != 0 && r & FLAG_CHECK_CRC32 != 0)
            &&& !(r & FLAG_COMPRESS_XZ != 0 && r & FLAG_COMPRESS_ZLIB != 0)
            &&& r & 0xF0 == 0
        }),
{
    let c = check_flag(flags);
    let z = compress_flag(flags, threshold, size);
    assert(c == 0 || c == 1 || c == 2);
    assert(z == 0 || z == 4 || z == 8);
    assert((c == 0 || c == 1 || c == 2) && (z == 0 || z == 4 || z == 8) ==> {
        &&& (((c | z) & 1u8) != 0) == (c == 1)
        &&& (((c | z) & 2u8) != 0) == (c == 2)
        &&& (((c | z) & 4u8) != 0) == (z == 4)
        &&& (((c | z) & 8u8) != 0) == (z == 8)
        &&& (c | z) & 0xF0u8 == 0
    }) by (bit_vector);
}

impl SectionEntry1 {
    /// The flags that a payload of `size` bytes is written with.
    pub fn get_flags(&self, size: u32) -> (r: u8)
        ensures
            r == effective_flags(self.flags, self.threshold, size),
    {
        let mut flags: u8 = 0;
        if self.flags & FLAG_CHECK_WEAK != 0 {
            flags = FLAG_CHECK_WEAK;
        } else if self.flags & FLAG_CHECK_CRC32 != 0 {
            flags = FLAG_CHECK_CRC32;
        }
        let check = flags;
        assert(check | 0u8 == check) by (bit_vector);
        if self.flags & FLAG_COMPRESS_XZ != 0 && size > self.threshold {
            flags |= FLAG_COMPRESS_XZ;
        } else if self.flags & FLAG_COMPRESS_ZLIB != 0 && size > self.threshold {
            flags |= FLAG_COMPRESS_ZLIB;
        }
        flags
    }
}

/// One section of a container.
#[derive(Debug)]
pub struct SectionEntry {
    /// How the section is to be written.
    pub entry1: SectionEntry1,
    /// The header as it was last read or written.
    pub header: SectionHeader,
    /// The payload, once it was loaded and while it is not handed out.
    pub data: Option<AutoSectionData>,
    /// The section's place in the table of section headers.
    pub index: u32,
    /// True once the payload was handed out since the last save.
    pub modified: bool,
    /// The key of the section's handle.
    pub handle: u32,
    /// True while the payload is handed out.
    pub in_use: bool,
}

impl SectionEntry {
    /// A payload that is handed out is not held, and a payload that is held
    /// is well formed.
    pub open spec fn wf(&self) -> bool {
        &&& self.in_use ==> self.data is None
        &&& self.data matches Some(d) ==> d.wf()
    }

    /// Tests the entry's invariant.
    pub fn is_valid(&self) -> (r: bool)
        ensures
            r == self.wf(),
    {
        match &self.data {
            Some(d) => !self.in_use && d.is_valid(),
            None => true,
        }
    }

    /// The same entry at another place in the table.
    pub open spec fn at_index(self, index: u32) -> SectionEntry {
        SectionEntry { index, ..self }
    }
}

/// The table of all sections of a container, in the order of their handles,
/// which is the order of their headers in the container.
#[derive(Debug)]
pub struct SectionTable {
    pub backend: ByteBuf,
    pub sections: Vec<SectionEntry>,
    pub count: u32,
    pub modified: bool,
    pub next_handle: u32,
}

/// Walks the handles of a section table in ascending order.
pub struct Iter<'a> {
    pub sections: &'a Vec<SectionEntry>,
    pub next: usize,
}

impl<'a> Iter<'a> {
    /// The next handle, or `None` after the last one.
    pub fn next(&mut self) -> (r: Option<Handle>)
        ensures
            final(self).sections == old(self).sections,
            old(self).next < old(self).sections@.len() ==> r == Some(
                Handle(old(self).sections@[old(self).next as int].handle),
            ) && final(self).next == old(self).next + 1,
            old(self).next >= old(self).sections@.len() ==> r is None && final(self).next == old(self).next,
    {
        if self.next < self.sections.len() {
            let h = Handle(self.sections[self.next].handle);
            self.next += 1;
            Some(h)
        } else {
            None
        }
    }
}

impl SectionTable {
    /// The table's invariant: the count is the number of entries, each entry
    /// sits at its index, handles ascend strictly and lie below the next one
    /// to give out, and every entry is well formed.
    pub open spec fn wf(&self) -> bool {
        &&& self.count == self.sections@.len()
        &&& forall|i: int| 0 <= i < self.sections@.len() ==> #[trigger] self.sections@[i].index == i
        &&& forall|i: int, j: int|
            0 <= i < j < self.sections@.len() ==> self.sections@[i].handle
                < self.sections@[j].handle
        &&& forall|i: int|
            0 <= i < self.sections@.len() ==> #[trigger] self.sections@[i].handle
                < self.next_handle
        &&& forall|i: int| 0 <= i < self.sections@.len() ==> #[trigger] self.sections@[i].wf()
    }

    /// True where the table holds a section under `handle`.
    pub open spec fn contains(&self, handle: Handle) -> bool {
        exists|i: int| 0 <= i < self.sections@.len() && self.sections@[i].handle == handle.0
    }

    /// The place in the table of the section under `handle`.
    pub open spec fn position(&self, handle: Handle) -> int {
        choose|i: int| 0 <= i < self.sections@.len() && self.sections@[i].handle == handle.0
    }

    /// The entry under `handle`.
    pub open spec fn entry(&self, handle: Handle) -> SectionEntry {
        self.sections@[self.position(handle)]
    }

    /// The index of each section, in the table's order.
    pub open spec fn indices(&self) -> Seq<u32> {
        Seq::new(self.sections@.len(), |i: int| self.sections@[i].index)
    }

    /// The handles of all sections, in ascending order.
    pub open spec fn handles(&self) -> Seq<Handle> {
        Seq::new(self.sections@.len(), |i: int| Handle(self.sections@[i].handle))
    }

    /// In a well-formed table the only place that holds a handle is its position.
    pub proof fn lemma_position_unique(&self, handle: Handle, i: int)
        requires
            self.wf(),
            0 <= i < self.sections@.len(),
            self.sections@[i].handle == handle.0,
        ensures
            self.contains(handle),
            self.position(handle) == i,
    {
        let p = self.position(handle);
        if p < i {
            assert(self.sections@[p].handle < self.sections@[i].handle);
        } else if i < p {
            assert(self.sections@[i].handle < self.sections@[p].handle);
        }
    }

    /// What `create` makes of a table: one more entry at the end, under the
    /// next handle, with the given header, an empty payload and the header's
    /// flags and stored size as the flags and threshold to write it with.
    pub open spec fn created(
        pre: SectionTable,
        header: SectionHeader,
        post: SectionTable,
        handle: Handle,
    ) -> bool {
        let e = post.sections@[pre.count as int];
        &&& handle.0 == pre.next_handle
        &&& post.next_handle == pre.next_handle + 1
        &&& post.count == pre.count + 1
        &&& post.modified
        &&& post.backend == pre.backend
        &&& post.sections@.len() == pre.sections@.len() + 1
        &&& post.sections@.subrange(0, pre.sections@.len() as int) == pre.sections@
        &&& e.header == header
        &&& e.entry1 == (SectionEntry1 { threshold: header.csize, flags: header.flags })
        &&& e.data matches Some(d) && d@ == fresh_view()
        &&& e.index == pre.count
        &&& !e.modified
        &&& !e.in_use
        &&& e.handle == handle.0
    }

    /// What `remove` makes of a table: the entry under the handle is gone and
    /// the entries behind it sit one place up.
    pub open spec fn removed(pre: SectionTable, handle: Handle, post: SectionTable) -> bool {
        let p = pre.position(handle);
        &&& post.count == pre.count - 1
        &&& post.modified
        &&& post.backend == pre.backend
        &&& post.next_handle == pre.next_handle
        &&& post.sections@.len() == pre.sections@.len() - 1
        &&& forall|j: int| 0 <= j < p ==> post.sections@[j] == pre.sections@[j]
        &&& forall|j: int|
            p <= j < post.sections@.len() ==> post.sections@[j] == pre.sections@[j + 1].at_index(
                j as u32,
            )
    }

    /// The entry of a section whose payload was just handed out.
    pub open spec fn handed_out(e: SectionEntry) -> SectionEntry {
        SectionEntry { data: None, in_use: true, modified: true, ..e }
    }

    /// True where `post` is `pre` with the entry at place `p` replaced by `e`.
    pub open spec fn replaced(pre: SectionTable, p: int, e: SectionEntry, post: SectionTable) -> bool {
        &&& post.count == pre.count
        &&& post.modified == pre.modified
        &&& post.next_handle == pre.next_handle
        &&& post.backend.data@ == pre.backend.data@
        &&& post.sections@ == pre.sections@.update(p, e)
    }

    /// What `load` does. A payload that is handed out already is refused with
    /// `SectionInUse`. A payload that is held is handed out as it is, and the
    /// backend is not touched. Else the payload is read from the backend: an
    /// error of the read path is passed on and the section stays unloaded.
    /// Where a payload is handed out the entry is marked as modified.
    pub open spec fn load_outcome(
        pre: SectionTable,
        handle: Handle,
        post: SectionTable,
        r: Result<AutoSectionData, Error>,
    ) -> bool {
        let p = pre.position(handle);
        let e = pre.sections@[p];
        if e.in_use {
            r == Err::<AutoSectionData, Error>(Error::SectionInUse) && post == pre
        } else {
            match e.data {
                Some(d) => r == Ok::<AutoSectionData, Error>(d) && post.backend == pre.backend
                    && Self::replaced(pre, p, Self::handed_out(e), post),
                None => match section_payload(pre.backend.data@, e.header) {
                    Err(err) => r == Err::<AutoSectionData, Error>(err) && Self::replaced(
                        pre,
                        p,
                        e,
                        post,
                    ),
                    Ok(payload) => r matches Ok(d) && d.wf() && d@ == loaded_view(payload, e.header.size)
                        && Self::replaced(pre, p, Self::handed_out(e), post),
                },
            }
        }
    }

    /// What `open` does. A payload that is handed out already is refused with
    /// `SectionInUse`, one that was never loaded with `SectionNotLoaded`; the
    /// table stays as it is. Else the payload is handed out and the entry is
    /// marked as modified.
    pub open spec fn open_outcome(
        pre: SectionTable,
        handle: Handle,
        post: SectionTable,
        r: Result<AutoSectionData, Error>,
    ) -> bool {
        let p = pre.position(handle);
        let e = pre.sections@[p];
        if e.in_use {
            r == Err::<AutoSectionData, Error>(Error::SectionInUse) && post == pre
        } else {
            match e.data {
                Some(d) => r == Ok::<AutoSectionData, Error>(d) && post.backend == pre.backend
                    && Self::replaced(pre, p, Self::handed_out(e), post),
                None => r == Err::<AutoSectionData, Error>(Error::SectionNotLoaded) && post == pre,
            }
        }
    }

    /// What `release` does. The payload is taken back where the table holds
    /// the handle and the section's payload is handed out; else it is
    /// returned and the table stays as it is.
    pub open spec fn release_outcome(
        pre: SectionTable,
        handle: Handle,
        data: AutoSectionData,
        post: SectionTable,
        r: Result<(), AutoSectionData>,
    ) -> bool {
        if pre.contains(handle) && pre.entry(handle).in_use {
            let p = pre.position(handle);
            let e = pre.sections@[p];
            &&& r is Ok
            &&& post.backend == pre.backend
            &&& Self::replaced(pre, p, SectionEntry { data: Some(data), in_use: false, ..e }, post)
        } else {
            r == Err::<(), AutoSectionData>(data) && post == pre
        }
    }

    /// True where each of the first `n` entries sits at its index, is well
    /// formed, has a handle below the next one to give out, and has a
    /// greater handle than the entry before it.
    pub open spec fn valid_upto(&self, n: int) -> bool {
        forall|i: int|
            #![trigger self.sections@[i]]
            0 <= i < n ==> {
                &&& self.sections@[i].index == i
                &&& self.sections@[i].wf()
                &&& self.sections@[i].handle < self.next_handle
                &&& i > 0 ==> self.sections@[i - 1].handle < self.sections@[i].handle
            }
    }

    /// Handles that ascend from each entry to the next ascend strictly
    /// over the whole table.
    pub proof fn lemma_ascending(&self, i: int, j: int)
        requires
            self.valid_upto(self.sections@.len() as int),
            0 <= i < j < self.sections@.len(),
        ensures
            self.sections@[i].handle < self.sections@[j].handle,
        decreases j - i,
    {
        assert(self.sections@[j - 1].handle < self.sections@[j].handle);
        if i < j - 1 {
            self.lemma_ascending(i, j - 1);
        }
    }

    /// Tests the table's invariant.
    pub fn is_valid(&self) -> (r: bool)
        ensures
            r == self.wf(),
    {
        let n = self.sections.len();
        if n > u32::MAX as usize || self.count as usize != n {
            return false;
        }
        let mut i: usize = 0;
        while i < n
            invariant
                i <= n,
                n == self.sections@.len(),
                n <= u32::MAX,
                self.count == n,
                self.valid_upto(i as int),
            decreases n - i,
        {
            let e = &self.sections[i];
            let ascends = i == 0 || self.sections[i - 1].handle < e.handle;
            if e.index as usize != i || !e.is_valid() || e.handle >= self.next_handle || !ascends {
                proof {
                    if self.wf() {
                        assert(self.sections@[i as int].index == i);
                        assert(self.sections@[i as int].wf());
                        assert(self.sections@[i as int].handle < self.next_handle);
                    }
                }
                return false;
            }
            i += 1;
        }
        proof {
            assert forall|a: int, b: int| 0 <= a < b < self.sections@.len() implies self.sections@[a].handle
                < self.sections@[b].handle by {
                self.lemma_ascending(a, b);
            }
            assert forall|a: int| 0 <= a < self.sections@.len() implies #[trigger] self.sections@[a].index
                == a by {
                assert(self.sections@[a].wf());
            }
            assert forall|a: int| 0 <= a < self.sections@.len() implies #[trigger] self.sections@[a].handle
                < self.next_handle by {
                assert(self.sections@[a].wf());
            }
        }
        true
    }

    /// An empty table over `backend`.
    pub fn new(backend: ByteBuf) -> (r: Self)
        ensures
            r.wf(),
            r.backend == backend,
            r.sections@.len() == 0,
            r.count == 0,
            !r.modified,
            r.next_handle == 0,
    {
        SectionTable { backend, sections: Vec::new(), count: 0, modified: false, next_handle: 0 }
    }

    /// The place of `handle` in the table, if the table holds it.
    pub fn locate(&self, handle: Handle) -> (r: Option<usize>)
        requires
            self.wf(),
        ensures
            r matches Some(i) ==> self.contains(handle) && i == self.position(handle) && i
                < self.sections@.len(),
            r is None ==> !self.contains(handle),
    {
        let mut lo: usize = 0;
        let mut hi: usize = self.sections.len();
        while lo < hi
            invariant
                self.wf(),
                lo <= hi <= self.sections@.len(),
                forall|k: int| 0 <= k < lo ==> self.sections@[k].handle < handle.0,
                forall|k: int| hi <= k < self.sections@.len() ==> self.sections@[k].handle > handle.0,
            decreases hi - lo,
        {
            let mid = lo + (hi - lo) / 2;
            let key = self.sections[mid].handle;
            if key == handle.0 {
                proof {
                    self.lemma_position_unique(handle, mid as int);
                }
                return Some(mid);
            } else if key < handle.0 {
                assert forall|k: int| 0 <= k < mid + 1 implies self.sections@[k].handle
                    < handle.0 by {
                    if k < mid {
                        assert(self.sections@[k].handle < self.sections@[mid as int].handle);
                    }
                }
                lo = mid + 1;
            } else {
                assert forall|k: int| mid <= k < self.sections@.len() implies self.sections@[k].handle
                    > handle.0 by {
                    if k > mid {
                        assert(self.sections@[mid as int].handle < self.sections@[k].handle);
                    }
                }
                hi = mid;
            }
        }
        None
    }

    /// Hands out the payload of a section for reading and writing, and loads
    /// it from the backend first where it was not loaded yet.
    pub fn load(&mut self, handle: Handle) -> (r: Result<AutoSectionData, Error>)
        requires
            old(self).wf(),
            old(self).contains(handle),
        ensures
            final(self).wf(),
            Self::load_outcome(*old(self), handle, *final(self), r),
    {
        let p = self.locate(handle).unwrap();
        if self.sections[p].in_use {
            return Err(Error::SectionInUse);
        }
        if self.sections[p].data.is_none() {
            let header = self.sections[p].header;
            let loaded = match load_section1(&mut self.backend, &header) {
                Ok(d) => d,
                Err(e) => {
                    assert(self.sections@ =~= old(self).sections@.update(
                        p as int,
                        old(self).sections@[p as int],
                    ));
                    return Err(e);
                },
            };
            self.sections[p].data = Some(loaded);
        }
        self.sections[p].modified = true;
        self.sections[p].in_use = true;
        let d = self.sections[p].data.take().unwrap();
        proof {
            assert(self.sections@ =~= old(self).sections@.update(
                p as int,
                Self::handed_out(old(self).sections@[p as int]),
            ));
            self.lemma_update_keeps_wf(*old(self), p as int);
        }
        Ok(d)
    }

    /// Hands out the payload of a section for reading and writing, if it is loaded.
    pub fn open(&mut self, handle: Handle) -> (r: Result<AutoSectionData, Error>)
        requires
            old(self).wf(),
            old(self).contains(handle),
        ensures
            final(self).wf(),
            Self::open_outcome(*old(self), handle, *final(self), r),
    {
        let p = self.locate(handle).unwrap();
        if self.sections[p].in_use {
            return Err(Error::SectionInUse);
        }
        if self.sections[p].data.is_none() {
            return Err(Error::SectionNotLoaded);
        }
        self.sections[p].modified = true;
        self.sections[p].in_use = true;
        let d = self.sections[p].data.take().unwrap();
        proof {
            assert(self.sections@ =~= old(self).sections@.update(
                p as int,
                Self::handed_out(old(self).sections@[p as int]),
            ));
            self.lemma_update_keeps_wf(*old(self), p as int);
        }
        Ok(d)
    }

    /// Takes back a payload that `load` or `open` handed out.
    pub fn release(&mut self, handle: Handle, data: AutoSectionData) -> (r: Result<
        (),
        AutoSectionData,
    >)
        requires
            old(self).wf(),
            data.wf(),
        ensures
            final(self).wf(),
            Self::release_outcome(*old(self), handle, data, *final(self), r),
    {
        let p = match self.locate(handle) {
            Some(p) => p,
            None => {
                return Err(data);
            },
        };
        if !self.sections[p].in_use {
            return Err(data);
        }
        self.sections[p].data = Some(data);
        self.sections[p].in_use = false;
        proof {
            let e = old(self).sections@[p as int];
            assert(self.sections@ =~= old(self).sections@.update(
                p as int,
                SectionEntry { data: Some(data), in_use: false, ..e },
            ));
            self.lemma_update_keeps_wf(*old(self), p as int);
        }
        Ok(())
    }

    /// A table stays well formed where one entry is replaced by a well-formed
    /// one with the same handle and index.
    pub proof fn lemma_update_keeps_wf(&self, pre: SectionTable, p: int)
        requires
            pre.wf(),
            0 <= p < pre.sections@.len(),
            self.sections@.len() == pre.sections@.len(),
            forall|j: int| 0 <= j < pre.sections@.len() && j != p ==> self.sections@[j] == pre.sections@[j],
            self.sections@[p].handle == pre.sections@[p].handle,
            self.sections@[p].index == pre.sections@[p].index,
            self.sections@[p].wf(),
            self.count == pre.count,
            self.next_handle == pre.next_handle,
        ensures
            self.wf(),
            forall|h: Handle| self.contains(h) == pre.contains(h),
    {
        assert forall|i: int, j: int| 0 <= i < j < self.sections@.len() implies self.sections@[i].handle
            < self.sections@[j].handle by {
            assert(pre.sections@[i].handle < pre.sections@[j].handle);
        }
        assert forall|i: int| 0 <= i < self.sections@.len() implies #[trigger] self.sections@[i].index
            == i by {
            assert(pre.sections@[i].index == i);
        }
        assert forall|i: int| 0 <= i < self.sections@.len() implies #[trigger] self.sections@[i].handle
            < self.next_handle by {
            assert(pre.sections@[i].handle < pre.next_handle);
        }
        assert forall|i: int| 0 <= i < self.sections@.len() implies #[trigger] self.sections@[i].wf() by {
            if i != p {
                assert(pre.sections@[i].wf());
            }
        }
        assert forall|h: Handle| self.contains(h) == pre.contains(h) by {
            if pre.contains(h) {
                let i = pre.position(h);
                assert(self.sections@[i].handle == h.0);
            }
            if self.contains(h) {
                let i = self.position(h);
                assert(pre.sections@[i].handle == h.0);
            }
        }
    }

    /// True where the table holds no section.
    pub fn is_empty(&self) -> (r: bool)
        ensures
            r == (self.count == 0),
    {
        self.count == 0
    }

    /// The number of sections.
    pub fn len(&self) -> (r: u32)
        ensures
            r == self.count,
    {
        self.count
    }

    /// A walk over the handles of all sections, in ascending order.
    pub fn iter(&self) -> (r: Iter<'_>)
        ensures
            r.sections@ == self.sections@,
            r.next == 0,
    {
        Iter { sections: &self.sections, next: 0 }
    }

    /// Adds a section with an empty payload at the end of the table, under a
    /// handle that was never given out, and marks the table as modified. The
    /// header's flags and stored size become the flags and the compression
    /// threshold to write the section with.
    pub fn create(&mut self, header: SectionHeader) -> (r: Handle)
        requires
            old(self).wf(),
            old(self).count < u32::MAX,
            old(self).next_handle < u32::MAX,
        ensures
            final(self).wf(),
            Self::created(*old(self), header, *final(self), r),
            !old(self).contains(r),
            final(self).contains(r),
            final(self).position(r) == old(self).count,
    {
        self.modified = true;
        self.count += 1;
        let r = self.next_handle;
        let section = AutoSectionData::new();
        let entry = SectionEntry {
            header,
            data: Some(section),
            modified: false,
            index: self.count - 1,
            entry1: SectionEntry1 { threshold: header.csize, flags: header.flags },
            handle: r,
            in_use: false,
        };
        self.sections.push(entry);
        self.next_handle += 1;
        proof {
            assert(final(self).sections@.subrange(0, old(self).count as int) =~= old(self).sections@);
            assert(!old(self).contains(Handle(r)));
            final(self).lemma_position_unique(Handle(r), old(self).count as int);
        }
        Handle(r)
    }

    /// Removes the section under `handle`, moves the sections behind it one
    /// place up, and marks the table as modified.
    pub fn remove(&mut self, handle: Handle)
        requires
            old(self).wf(),
            old(self).contains(handle),
        ensures
            final(self).wf(),
            Self::removed(*old(self), handle, *final(self)),
            !final(self).contains(handle),
    {
        let found = self.locate(handle);
        let p = found.unwrap();
        let _gone = self.sections.remove(p);
        self.count -= 1;
        self.modified = true;
        let mut j: usize = p;
        while j < self.sections.len()
            invariant
                p <= j <= self.sections@.len(),
                self.sections@.len() == old(self).sections@.len() - 1,
                forall|k: int| 0 <= k < p ==> self.sections@[k] == old(self).sections@[k],
                forall|k: int|
                    p <= k < j ==> self.sections@[k] == old(self).sections@[k + 1].at_index(
                        k as u32,
                    ),
                forall|k: int|
                    j <= k < self.sections@.len() ==> self.sections@[k] == old(self).sections@[k
                        + 1],
                old(self).wf(),
                self.count == old(self).count - 1,
                self.modified,
                self.backend == old(self).backend,
                self.next_handle == old(self).next_handle,
            decreases self.sections@.len() - j,
        {
            let ghost before = self.sections@;
            self.sections[j].index = j as u32;
            assert(self.sections@[j as int] == before[j as int].at_index(j as u32));
            j += 1;
        }
        proof {
            assert forall|i: int, k: int| 0 <= i < k < self.sections@.len() implies self.sections@[i].handle
                < self.sections@[k].handle by {
                let oi = if i < p { i } else { i + 1 };
                let ok = if k < p { k } else { k + 1 };
                assert(old(self).sections@[oi].handle < old(self).sections@[ok].handle);
            }
            assert forall|i: int| 0 <= i < self.sections@.len() implies #[trigger] self.sections@[i].wf() by {
                let oi = if i < p { i } else { i + 1 };
                assert(old(self).sections@[oi].wf());
            }
            assert forall|i: int| 0 <= i < self.sections@.len() implies #[trigger] self.sections@[i].handle
                < self.next_handle by {
                let oi = if i < p { i } else { i + 1 };
                assert(old(self).sections@[oi].handle < old(self).next_handle);
            }
            assert forall|i: int| 0 <= i < self.sections@.len() implies #[trigger] self.sections@[i].index
                == i by {
                if i < p {
                    assert(old(self).sections@[i].index == i);
                }
            }
            assert forall|i: int| 0 <= i < self.sections@.len() implies self.sections@[i].handle
                != handle.0 by {
                let oi = if i < p { i } else { i + 1 };
                if oi < p {
                    assert(old(self).sections@[oi].handle < old(self).sections@[p as int].handle);
                } else {
                    assert(old(self).sections@[p as int].handle < old(self).sections@[oi].handle);
                }
            }
        }
    }

    /// The header of the section under `handle`, as last read or written.
    pub fn header(&self, handle: Handle) -> (r: &SectionHeader)
        requires
            self.wf(),
            self.contains(handle),
        ensures
            *r == self.entry(handle).header,
    {
        let p = self.locate(handle).unwrap();
        &self.sections[p].header
    }

    /// The place of the section under `handle` in the table of section headers.
    pub fn index(&self, handle: Handle) -> (r: u32)
        requires
            self.wf(),
            self.contains(handle),
        ensures
            r == self.entry(handle).index,
            r == self.position(handle),
            r < self.count,
    {
        let p = self.locate(handle).unwrap();
        self.sections[p].index
    }

    /// The first section of type `ty`, in the order of the handles.
    pub fn find_by_type(&self, ty: u8) -> (r: Option<Handle>)
        ensures
            r matches Some(h) ==> exists|i: int|
                0 <= i < self.sections@.len() && self.sections@[i].handle == h.0
                    && self.sections@[i].header.ty == ty && forall|j: int|
                    0 <= j < i ==> self.sections@[j].header.ty != ty,
            r is None ==> forall|i: int|
                0 <= i < self.sections@.len() ==> self.sections@[i].header.ty != ty,
    {
        let mut i: usize = 0;
        while i < self.sections.len()
            invariant
                i <= self.sections@.len(),
                forall|j: int| 0 <= j < i ==> self.sections@[j].header.ty != ty,
            decreases self.sections@.len() - i,
        {
            if self.sections[i].header.ty == ty {
                return Some(Handle(self.sections[i].handle));
            }
            i += 1;
        }
        None
    }

    /// The section at place `index` of the table of section headers.
    pub fn find_by_index(&self, index: u32) -> (r: Option<Handle>)
        ensures
            index < self.sections@.len() ==> r == Some(Handle(self.sections@[index as int].handle)),
            index >= self.sections@.len() ==> r is None,
    {
        if (index as usize) < self.sections.len() {
            Some(Handle(self.sections[index as usize].handle))
        } else {
            None
        }
    }
}

} // verus!
