//! A reader of containers that keeps the section headers in a list and loads
//! the payload of a section when it is first opened.

use vstd::prelude::*;
use crate::container::data::auto::{loaded_view, AutoSectionData};
use crate::container::decoder::{
    load_section1,
    parsed_headers,
    record_at,
    records_checksum,
    section_payload,
};
use crate::container::open_fault;
use crate::error::Error;
use crate::header::{
    image_section_num,
    main_header_fields,
    MainHeader,
    SectionHeader,
    SIZE_MAIN_HEADER,
    SIZE_SECTION_HEADER,
};
use crate::utils::ByteBuf;

verus! {

/// Names a section of a `Decoder`: the section's place in the table of
/// section headers.
pub type SectionHandle = usize;

/// The number of complete records of 24 bytes that the data holds from
/// `start` on, up to `n`.
pub open spec fn complete_records(len: nat, start: nat, n: nat) -> nat {
    if start > len {
        0
    } else if (len - start) / 24 >= n {
        n
    } else {
        ((len - start) / 24) as nat
    }
}

/// Loads the payload of a section from the backend into a fresh buffer,
/// positioned at its first byte: decoded by the codec that the flags name,
/// and checked where the flags ask for a checksum.
pub fn load_section(file: &mut ByteBuf, section: &SectionHeader) -> (r: Result<
    AutoSectionData,
    Error,
>)
    ensures
        final(file).data@ == old(file).data@,
        match section_payload(old(file).data@, *section) {
            Err(e) => r == Err::<AutoSectionData, Error>(e),
            Ok(payload) => r matches Ok(d) && d.wf() && d@ == loaded_view(payload, section.size),
        },
{
    load_section1(file, section)
}

/// A reader of one container.
#[derive(Debug)]
pub struct Decoder {
    pub main_header: MainHeader,
    pub sections: Vec<SectionHeader>,
    pub sections_data: Vec<Option<AutoSectionData>>,
    pub file: ByteBuf,
}

impl Decoder {
    /// There is one slot for the payload of each section, and every payload
    /// that is loaded is well formed.
    pub open spec fn wf(&self) -> bool {
        &&& self.sections_data@.len() == self.sections@.len()
        &&& forall|i: int|
            0 <= i < self.sections_data@.len() ==> (#[trigger] self.sections_data@[i] matches Some(
                d,
            ) ==> d.wf())
    }

    /// Reads the table of section headers at the backend's position, as many
    /// records as the main header counts, and appends the headers to the
    /// list. `Eos` where the data ends inside the table; the headers of the
    /// complete records were appended then. Else the wrapping sum of
    /// `checksum` and the records' weak checksums must be the main header's
    /// checksum: `Checksum` with the sum and the expected value where it is
    /// not.
    pub fn read_section_header_table(&mut self, checksum: u32) -> (r: Result<(), Error>)
        ensures
            final(self).main_header == old(self).main_header,
            final(self).sections_data == old(self).sections_data,
            final(self).file.data@ == old(self).file.data@,
            ({
                let data = old(self).file.data@;
                let start = old(self).file.pos as int;
                let n = old(self).main_header.section_num as nat;
                let sum = records_checksum(checksum, data, start, n);
                if n > 0 && start + SIZE_SECTION_HEADER * n > data.len() {
                    &&& r == Err::<(), Error>(Error::Eos)
                    &&& final(self).sections@ == old(self).sections@ + parsed_headers(
                        data,
                        start,
                        complete_records(data.len(), start as nat, n),
                    )
                } else {
                    &&& final(self).sections@ == old(self).sections@ + parsed_headers(
                        data,
                        start,
                        n,
                    )
                    &&& final(self).file.pos == start + SIZE_SECTION_HEADER * n
                    &&& sum != old(self).main_header.chksum ==> r == Err::<(), Error>(
                        Error::Checksum(sum, old(self).main_header.chksum),
                    )
                    &&& sum == old(self).main_header.chksum ==> r is Ok
                }
            }),
    {
        let mut final_checksum = checksum;
        let ghost data = self.file.data@;
        let ghost start = self.file.pos as int;
        let n = self.main_header.section_num;
        let mut i: u32 = 0;
        assert(self.sections@ =~= old(self).sections@ + parsed_headers(data, start, 0));
        while i < n
            invariant
                i <= n,
                n == self.main_header.section_num,
                self.main_header == old(self).main_header,
                self.sections_data == old(self).sections_data,
                self.file.data@ == data,
                data == old(self).file.data@,
                start == old(self).file.pos,
                self.file.pos == start + SIZE_SECTION_HEADER * i,
                i > 0 ==> start + SIZE_SECTION_HEADER * i <= data.len(),
                final_checksum == records_checksum(checksum, data, start, i as nat),
                self.sections@ == old(self).sections@ + parsed_headers(data, start, i as nat),
            decreases n - i,
        {
            let (record_checksum, header) = match SectionHeader::read(&mut self.file) {
                Ok(v) => v,
                Err(e) => {
                    assert(i == complete_records(data.len(), start as nat, n as nat));
                    return Err(e);
                },
            };
            proof {
                assert(data.subrange(
                    start + SIZE_SECTION_HEADER * i,
                    start + SIZE_SECTION_HEADER * i + SIZE_SECTION_HEADER,
                ) == record_at(data, start, i as int));
            }
            final_checksum = final_checksum.wrapping_add(record_checksum);
            self.sections.push(header);
            assert(self.sections@ =~= old(self).sections@ + parsed_headers(
                data,
                start,
                (i + 1) as nat,
            ));
            i += 1;
        }
        if final_checksum != self.main_header.chksum {
            return Err(Error::Checksum(final_checksum, self.main_header.chksum));
        }
        Ok(())
    }

    /// A reader of the container whose byte image `file` holds: reads the
    /// main header and the table of section headers. No payload is loaded.
    pub fn new(file: ByteBuf) -> (r: Result<Decoder, Error>)
        ensures
            match open_fault(file.data@) {
                Some(e) => r == Err::<Decoder, Error>(e),
                None => r matches Ok(d) && d.wf() && main_header_fields(
                    file.data@.subrange(0, SIZE_MAIN_HEADER as int),
                    d.main_header,
                ) && d.sections@ == parsed_headers(
                    file.data@,
                    SIZE_MAIN_HEADER as int,
                    image_section_num(file.data@) as nat,
                ) && d.file.data@ == file.data@ && forall|i: int|
                    0 <= i < d.sections_data@.len() ==> d.sections_data@[i] is None,
            },
    {
        let mut file = file;
        file.pos = 0;
        let ghost data = file.data@;
        proof {
            if data.len() >= SIZE_MAIN_HEADER {
                let rec = data.subrange(0, SIZE_MAIN_HEADER as int);
                assert(rec.subrange(32, 36) =~= data.subrange(32, 36));
                assert(rec.subrange(36, 40) =~= data.subrange(36, 40));
            }
        }
        let (_checksum, header) = match MainHeader::read(&mut file) {
            Ok(v) => v,
            Err(e) => {
                return Err(e);
            },
        };
        let num = header.section_num;
        let mut decoder = Decoder {
            file,
            main_header: header,
            sections: Vec::new(),
            sections_data: Vec::new(),
        };
        match decoder.read_section_header_table(0) {
            Ok(_) => {},
            Err(e) => {
                return Err(e);
            },
        }
        assert(decoder.sections@ =~= parsed_headers(data, SIZE_MAIN_HEADER as int, num as nat));
        let mut i: u32 = 0;
        while i < num
            invariant
                i <= num,
                decoder.sections_data@.len() == i,
                forall|k: int| 0 <= k < i ==> decoder.sections_data@[k] is None,
                decoder.sections@.len() == num,
                decoder.main_header == header,
                decoder.file.data@ == data,
                decoder.sections@ == parsed_headers(data, SIZE_MAIN_HEADER as int, num as nat),
            decreases num - i,
        {
            decoder.sections_data.push(None);
            i += 1;
        }
        Ok(decoder)
    }

    /// The first section of type `btype`, in the order of the table.
    pub fn find_section_by_type(&self, btype: u8) -> (r: Option<SectionHandle>)
        ensures
            r matches Some(i) ==> i < self.sections@.len() && self.sections@[i as int].ty == btype
                && forall|j: int| 0 <= j < i ==> self.sections@[j].ty != btype,
            r is None ==> forall|j: int| 0 <= j < self.sections@.len() ==> self.sections@[j].ty
                != btype,
    {
        let mut i: usize = 0;
        while i < self.sections.len()
            invariant
                i <= self.sections@.len(),
                forall|j: int| 0 <= j < i ==> self.sections@[j].ty != btype,
            decreases self.sections@.len() - i,
        {
            if self.sections[i].ty == btype {
                return Some(i);
            }
            i += 1;
        }
        None
    }

    /// The places of the sections of type `btype`.
    pub open spec fn places_of_type(sections: Seq<SectionHeader>, btype: u8) -> Seq<usize>
        decreases sections.len(),
    {
        if sections.len() == 0 {
            Seq::empty()
        } else if sections.last().ty == btype {
            Self::places_of_type(sections.drop_last(), btype).push((sections.len() - 1) as usize)
        } else {
            Self::places_of_type(sections.drop_last(), btype)
        }
    }

    /// All sections of type `btype`, in the order of the table.
    pub fn find_all_sections_of_type(&self, btype: u8) -> (r: Vec<SectionHandle>)
        ensures
            r@ == Self::places_of_type(self.sections@, btype),
    {
        let mut v: Vec<SectionHandle> = Vec::new();
        let mut i: usize = 0;
        assert(self.sections@.take(0) =~= Seq::<SectionHeader>::empty());
        while i < self.sections.len()
            invariant
                i <= self.sections@.len(),
                v@ == Self::places_of_type(self.sections@.take(i as int), btype),
            decreases self.sections@.len() - i,
        {
            proof {
                assert(self.sections@.take(i + 1).drop_last() =~= self.sections@.take(i as int));
                assert(self.sections@.take(i + 1).last() == self.sections@[i as int]);
            }
            if self.sections[i].ty == btype {
                v.push(i);
            }
            i += 1;
        }
        assert(self.sections@.take(i as int) =~= self.sections@);
        v
    }

    /// The section at place `index` of the table, if there is one.
    pub fn find_section_by_index(&self, index: u32) -> (r: Option<SectionHandle>)
        ensures
            index < self.sections@.len() ==> r == Some(index as usize),
            index >= self.sections@.len() ==> r is None,
    {
        if (index as usize) < self.sections.len() {
            Some(index as usize)
        } else {
            None
        }
    }

    /// The header of a section.
    pub fn get_section_header(&self, handle: SectionHandle) -> (r: &SectionHeader)
        requires
            handle < self.sections@.len(),
        ensures
            *r == self.sections@[handle as int],
    {
        &self.sections[handle]
    }

    /// The payload of a section, for reading. It is loaded from the backend
    /// where it was not loaded before, and kept.
    pub fn open_section(&mut self, handle: SectionHandle) -> (r: Result<
        &mut AutoSectionData,
        Error,
    >)
        requires
            old(self).wf(),
            handle < old(self).sections@.len(),
        ensures
            final(self).main_header == old(self).main_header,
            final(self).sections == old(self).sections,
            final(self).file.data@ == old(self).file.data@,
            final(self).sections_data@.len() == old(self).sections_data@.len(),
            forall|j: int|
                0 <= j < old(self).sections_data@.len() && j != handle
                    ==> final(self).sections_data@[j] == old(self).sections_data@[j],
            match old(self).sections_data@[handle as int] {
                Some(d) => r matches Ok(m) && *m == d && final(self).sections_data@[handle as int]
                    == Some(*final(m)),
                None => match section_payload(
                    old(self).file.data@,
                    old(self).sections@[handle as int],
                ) {
                    Err(e) => r matches Err(x) && x == e && final(self).sections_data@[handle as int] is None,
                    Ok(payload) => r matches Ok(m) && m.wf() && m@ == loaded_view(
                        payload,
                        old(self).sections@[handle as int].size,
                    ) && final(self).sections_data@[handle as int] == Some(*final(m)),
                },
            },
    {
        if self.sections_data[handle].is_none() {
            let header = self.sections[handle];
            let loaded = match load_section(&mut self.file, &header) {
                Ok(d) => d,
                Err(e) => {
                    return Err(e);
                },
            };
            self.sections_data[handle] = Some(loaded);
        }
        match &mut self.sections_data[handle] {
            Some(d) => Ok(d),
            None => {
                assert(false);
                Err(Error::Eos)
            },
        }
    }

    /// The main header.
    pub fn get_main_header(&self) -> (r: &MainHeader)
        ensures
            *r == self.main_header,
    {
        &self.main_header
    }
}

} // verus!
