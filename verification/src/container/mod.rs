//! The container engine: sections, their table, and the read and write paths.

use vstd::prelude::*;
use crate::container::decoder::{
    header_only_entries,
    parsed_headers,
    read_section_header_table,
    records_checksum,
};
use crate::container::encoder::{
    first_fault,
    image,
    saved_blobs,
    saved_entries,
    saved_headers,
    saved_len,
    table_checksum,
    write_sections,
    write_table,
};
use crate::container::section::{SectionEntry, SectionTable};
use crate::error::{Error, IoFault};
use crate::header::{
    has_signature,
    image_chksum,
    image_section_num,
    known_version,
    main_header_fields,
    MainHeader,
    SectionHeader,
    SIZE_MAIN_HEADER,
    SIZE_SECTION_HEADER,
};
use crate::utils::{extend_bytes, ByteBuf};
use crate::Handle;

pub mod data;
pub mod decoder;
pub mod encoder;
pub mod laws;
pub mod section;

verus! {

/// A container: a main header and a table of sections over a backend that
/// holds the container's byte image.
#[derive(Debug)]
pub struct Container {
    pub table: SectionTable,
    pub main_header: MainHeader,
    pub poisoned: bool,
}

/// Why a byte image cannot be opened, if it cannot. `Eos` where it ends
/// inside the main header; else `BadSignature`, else `BadVersion`; else
/// `Eos` where it ends inside the table of section headers; else `Checksum`
/// where the wrapping sum of the weak checksums of the section header records
/// is not the main header's checksum.
pub open spec fn open_fault(data: Seq<u8>) -> Option<Error> {
    let n = image_section_num(data);
    if data.len() < SIZE_MAIN_HEADER {
        Some(Error::Eos)
    } else if !has_signature(data) {
        Some(Error::BadSignature)
    } else if !known_version(data[3]) {
        Some(Error::BadVersion)
    } else if n > 0 && SIZE_MAIN_HEADER + SIZE_SECTION_HEADER * n > data.len() {
        Some(Error::Eos)
    } else {
        let sum = records_checksum(0, data, SIZE_MAIN_HEADER as int, n as nat);
        if sum != image_chksum(data) {
            Some(Error::Checksum(sum, image_chksum(data)))
        } else {
            None
        }
    }
}

impl Container {
    /// The container's invariant: that of its table.
    pub open spec fn wf(&self) -> bool {
        self.table.wf()
    }

    /// The headers of the sections, in the table's order.
    pub open spec fn headers(&self) -> Seq<SectionHeader> {
        Seq::new(self.table.sections@.len(), |i: int| self.table.sections@[i].header)
    }

    /// What `save` makes of a container: the backend holds the byte image of
    /// the main header, the table of the new section headers and the stored
    /// bytes of the sections; the main header counts the sections, sums the
    /// checksums of their header records and gives the image's length; no
    /// section and not the table is marked as modified.
    pub open spec fn saved(pre: Container, post: Container) -> bool {
        let data = pre.table.backend.data@;
        let tm = pre.table.modified;
        let entries = pre.table.sections@;
        let headers = saved_headers(data, tm, entries);
        &&& first_fault(data, tm, entries) is None
        &&& saved_len(data, tm, entries) <= u32::MAX
        &&& post.main_header == (MainHeader {
            section_num: entries.len() as u32,
            chksum: table_checksum(headers),
            file_size: saved_len(data, tm, entries) as u32,
            ..pre.main_header
        })
        &&& post.table.backend.data@ == image(
            post.main_header,
            headers,
            saved_blobs(data, tm, entries),
        )
        &&& post.table.backend.pos == 0
        &&& post.table.sections@ == saved_entries(data, tm, entries)
        &&& !post.table.modified
        &&& post.table.count == pre.table.count
        &&& post.table.next_handle == pre.table.next_handle
        &&& !post.poisoned
    }

    /// What `open` makes of a byte image that can be opened: the main header
    /// that its first 40 bytes hold, and one entry for each record of the
    /// table of section headers, in the order of the records, with handles
    /// from 0 on and no payload loaded.
    pub open spec fn opened(data: Seq<u8>, c: Container) -> bool {
        &&& c.wf()
        &&& main_header_fields(data.subrange(0, SIZE_MAIN_HEADER as int), c.main_header)
        &&& c.main_header.section_num == image_section_num(data)
        &&& c.table.backend.data@ == data
        &&& c.table.sections@ == header_only_entries(
            parsed_headers(data, SIZE_MAIN_HEADER as int, image_section_num(data) as nat),
        )
        &&& c.table.count == image_section_num(data)
        &&& c.table.next_handle == image_section_num(data)
        &&& !c.table.modified
        &&& !c.poisoned
    }

    /// Tests the container's invariant.
    pub fn is_valid(&self) -> (r: bool)
        ensures
            r == self.wf(),
    {
        self.table.is_valid()
    }

    /// A new container without sections over `backend`. Nothing is written
    /// before the first save.
    pub fn create(backend: ByteBuf, main_header: MainHeader) -> (r: Container)
        ensures
            r.wf(),
            r.table.backend == backend,
            r.table.sections@.len() == 0,
            r.table.count == 0,
            r.table.next_handle == 0,
            r.table.modified,
            r.main_header == main_header,
            !r.poisoned,
    {
        let mut table = SectionTable::new(backend);
        table.modified = true;
        Container { table, main_header, poisoned: false }
    }

    /// Opens the container whose byte image `backend` holds: reads the main
    /// header and the table of section headers. No payload is loaded.
    pub fn open(backend: ByteBuf) -> (r: Result<Container, Error>)
        ensures
            match open_fault(backend.data@) {
                Some(e) => r == Err::<Container, Error>(e),
                None => r matches Ok(c) && Self::opened(backend.data@, c),
            },
    {
        let mut backend = backend;
        backend.pos = 0;
        let ghost data = backend.data@;
        let ghost rec = data.subrange(0, SIZE_MAIN_HEADER as int);
        proof {
            if data.len() >= SIZE_MAIN_HEADER {
                assert(rec.subrange(32, 36) =~= data.subrange(32, 36));
                assert(rec.subrange(36, 40) =~= data.subrange(36, 40));
            }
        }
        let (_checksum, main_header) = match MainHeader::read(&mut backend) {
            Ok(v) => v,
            Err(e) => {
                return Err(e);
            },
        };
        let (next_handle, sections) = match read_section_header_table(
            &mut backend,
            &main_header,
            0,
        ) {
            Ok(v) => v,
            Err(e) => {
                return Err(e);
            },
        };
        let count = main_header.section_num;
        let table = SectionTable { backend, sections, count, modified: false, next_handle };
        Ok(Container { table, main_header, poisoned: false })
    }

    /// What a failed save leaves: the container as it was, but poisoned.
    pub open spec fn failed(pre: Container, post: Container) -> bool {
        post == (Container { poisoned: true, ..pre })
    }

    /// Writes the container to its backend: the main header, the table of
    /// section headers, and the stored bytes of all sections in the table's
    /// order. A section is written anew where its payload is in memory and it
    /// was modified, asks for other flags, or sections were created or
    /// removed; the stored bytes of the others are kept. A container whose
    /// save failed refuses to be saved again.
    pub fn save(&mut self) -> (r: Result<(), Error>)
        requires
            old(self).wf(),
        ensures
            final(self).wf(),
            old(self).poisoned ==> r == Err::<(), Error>(Error::Io(IoFault::Poisoned))
                && *final(self) == *old(self),
            !old(self).poisoned ==> match first_fault(
                old(self).table.backend.data@,
                old(self).table.modified,
                old(self).table.sections@,
            ) {
                Some(e) => r == Err::<(), Error>(e) && Self::failed(*old(self), *final(self)),
                None => if saved_len(
                    old(self).table.backend.data@,
                    old(self).table.modified,
                    old(self).table.sections@,
                ) > u32::MAX {
                    r == Err::<(), Error>(Error::Io(IoFault::Overflow)) && Self::failed(
                        *old(self),
                        *final(self),
                    )
                } else {
                    r is Ok && Self::saved(*old(self), *final(self))
                },
            },
    {
        if self.poisoned {
            return Err(Error::Io(IoFault::Poisoned));
        }
        let ghost data = self.table.backend.data@;
        let ghost tm = self.table.modified;
        let ghost entries = self.table.sections@;
        let (blobs, headers) = match write_sections(
            self.table.backend.data.as_slice(),
            self.table.modified,
            &self.table.sections,
        ) {
            Ok(v) => v,
            Err(e) => {
                self.poisoned = true;
                return Err(e);
            },
        };
        let (table, chksum) = write_table(&headers);
        let n = self.table.sections.len();
        let total = SIZE_MAIN_HEADER + SIZE_SECTION_HEADER * n + blobs.len();
        let main = MainHeader {
            section_num: n as u32,
            chksum,
            file_size: total as u32,
            ..self.main_header
        };
        let mut out = main.to_bytes();
        extend_bytes(&mut out, table.as_slice());
        extend_bytes(&mut out, blobs.as_slice());
        let mut i: usize = 0;
        while i < n
            invariant
                i <= n,
                n == entries.len(),
                headers@.len() == n,
                self.table.sections@.len() == n,
                forall|k: int|
                    0 <= k < i ==> self.table.sections@[k] == (SectionEntry {
                        header: headers@[k],
                        modified: false,
                        ..entries[k]
                    }),
                forall|k: int| i <= k < n ==> self.table.sections@[k] == entries[k],
                self.table.count == old(self).table.count,
                self.table.next_handle == old(self).table.next_handle,
                self.poisoned == old(self).poisoned,
            decreases n - i,
        {
            self.table.sections[i].header = headers[i];
            self.table.sections[i].modified = false;
            i += 1;
        }
        self.table.modified = false;
        self.main_header = main;
        self.table.backend = ByteBuf::from_vec(out);
        proof {
            assert(self.table.sections@ =~= saved_entries(data, tm, entries));
            assert forall|a: int, b: int| 0 <= a < b < n implies self.table.sections@[a].handle
                < self.table.sections@[b].handle by {
                assert(entries[a].handle < entries[b].handle);
            }
            assert forall|a: int| 0 <= a < n implies #[trigger] self.table.sections@[a].index
                == a by {
                assert(entries[a].index == a);
            }
            assert forall|a: int| 0 <= a < n implies #[trigger] self.table.sections@[a].handle
                < self.table.next_handle by {
                assert(entries[a].handle < old(self).table.next_handle);
            }
            assert forall|a: int| 0 <= a < n implies #[trigger] self.table.sections@[a].wf() by {
                assert(entries[a].wf());
            }
        }
        Ok(())
    }

    /// The table of sections.
    pub fn sections(&self) -> (r: &SectionTable)
        ensures
            *r == self.table,
    {
        &self.table
    }

    /// The table of sections, to create, remove, load and release sections.
    pub fn sections_mut(&mut self) -> (r: &mut SectionTable)
        ensures
            *r == old(self).table,
            final(self).table == *final(r),
            final(self).main_header == old(self).main_header,
            final(self).poisoned == old(self).poisoned,
    {
        &mut self.table
    }

    /// The entry of the section under `handle`: its header, its place, and
    /// its payload where that is loaded and not handed out.
    pub fn get(&self, handle: Handle) -> (r: &SectionEntry)
        requires
            self.wf(),
            self.table.contains(handle),
        ensures
            *r == self.table.entry(handle),
    {
        let p = self.table.locate(handle).unwrap();
        &self.table.sections[p]
    }

    /// The first section of type `ty`, in the order of the handles.
    pub fn find_section_by_type(&self, ty: u8) -> (r: Option<Handle>)
        ensures
            r matches Some(h) ==> exists|i: int|
                0 <= i < self.table.sections@.len() && self.table.sections@[i].handle == h.0
                    && self.table.sections@[i].header.ty == ty && forall|j: int|
                    0 <= j < i ==> self.table.sections@[j].header.ty != ty,
            r is None ==> forall|i: int|
                0 <= i < self.table.sections@.len() ==> self.table.sections@[i].header.ty != ty,
    {
        self.table.find_by_type(ty)
    }

    /// The section at place `index` of the table of section headers.
    pub fn find_section_by_index(&self, index: u32) -> (r: Option<Handle>)
        ensures
            index < self.table.sections@.len() ==> r == Some(
                Handle(self.table.sections@[index as int].handle),
            ),
            index >= self.table.sections@.len() ==> r is None,
    {
        self.table.find_by_index(index)
    }

    /// The main header.
    pub fn get_main_header(&self) -> (r: &MainHeader)
        ensures
            *r == self.main_header,
    {
        &self.main_header
    }

    /// The backend, with the byte image of the last save.
    pub fn into_inner(self) -> (r: ByteBuf)
        ensures
            r == self.table.backend,
    {
        self.table.backend
    }
}

} // verus!
