//! The read path: the table of section headers, and the payload of a section.

use vstd::prelude::*;
use crate::builder::DEFAULT_COMPRESSION_THRESHOLD;
use crate::checksum::{payload_checksum, weak_checksum, wrapping_add32, ChecksumEngine};
use crate::compression::{inflate, inflated};
use crate::container::data::auto::{loaded_view, AutoSectionData};
use crate::container::section::{SectionEntry, SectionEntry1};
use crate::error::{Codec, Error, IoFault};
use crate::header::{
    parse_section_header,
    MainHeader,
    SectionHeader,
    FLAG_CHECK_CRC32,
    FLAG_CHECK_WEAK,
    FLAG_COMPRESS_XZ,
    FLAG_COMPRESS_ZLIB,
    SIZE_SECTION_HEADER,
};
use crate::utils::{lemma_written_append, written, ByteBuf};

verus! {

/// The number of bytes that an uncompressed payload is copied by.
pub const READ_BLOCK_SIZE: usize = 8192;


/// The `i`-th record of 24 bytes from `start` on.
pub open spec fn record_at(data: Seq<u8>, start: int, i: int) -> Seq<u8> {
    data.subrange(start + SIZE_SECTION_HEADER * i, start + SIZE_SECTION_HEADER * (i + 1))
}

/// The section headers that `n` records from `start` on hold.
pub open spec fn parsed_headers(data: Seq<u8>, start: int, n: nat) -> Seq<SectionHeader> {
    Seq::new(n, |i: int| parse_section_header(record_at(data, start, i)))
}

/// The wrapping sum of `acc` and the weak checksums of `n` records from `start` on.
pub open spec fn records_checksum(acc: u32, data: Seq<u8>, start: int, n: nat) -> u32
    decreases n,
{
    if n == 0 {
        acc
    } else {
        wrapping_add32(
            records_checksum(acc, data, start, (n - 1) as nat),
            weak_checksum(record_at(data, start, n - 1)),
        )
    }
}

/// The entry of a section of which only the header was read.
pub open spec fn header_only_entry(i: u32, header: SectionHeader) -> SectionEntry {
    SectionEntry {
        entry1: SectionEntry1 { flags: header.flags, threshold: DEFAULT_COMPRESSION_THRESHOLD },
        header,
        data: None,
        index: i,
        modified: false,
        handle: i,
        in_use: false,
    }
}

/// The entries of a container that was just opened.
pub open spec fn header_only_entries(headers: Seq<SectionHeader>) -> Seq<SectionEntry> {
    Seq::new(headers.len(), |i: int| header_only_entry(i as u32, headers[i]))
}

/// Reads the table of section headers at the backend's position: as many
/// records as the main header counts. `Eos` where the data ends before the
/// last of them. Else the wrapping sum of `checksum` and the records'
/// weak checksums must be the main header's checksum: `Checksum` with the
/// sum and the expected value where it is not. Else the next free handle and
/// the entries, each with its header only, in the order of the records.
pub fn read_section_header_table(
    backend: &mut ByteBuf,
    main_header: &MainHeader,
    checksum: u32,
) -> (r: Result<(u32, Vec<SectionEntry>), Error>)
    ensures
        final(backend).data@ == old(backend).data@,
        main_header.section_num > 0 && old(backend).pos + SIZE_SECTION_HEADER
            * main_header.section_num > old(backend).data@.len()
            ==> r == Err::<(u32, Vec<SectionEntry>), Error>(Error::Eos),
        main_header.section_num == 0 || old(backend).pos + SIZE_SECTION_HEADER
            * main_header.section_num <= old(backend).data@.len() ==> {
            let sum = records_checksum(
                checksum,
                old(backend).data@,
                old(backend).pos as int,
                main_header.section_num as nat,
            );
            &&& sum != main_header.chksum ==> r == Err::<(u32, Vec<SectionEntry>), Error>(
                Error::Checksum(sum, main_header.chksum),
            )
            &&& sum == main_header.chksum ==> (r matches Ok((next, entries)) && next
                == main_header.section_num && entries@ == header_only_entries(
                parsed_headers(
                    old(backend).data@,
                    old(backend).pos as int,
                    main_header.section_num as nat,
                ),
            ) && final(backend).pos == old(backend).pos + SIZE_SECTION_HEADER
                * main_header.section_num)
        },
{
    let mut sections: Vec<SectionEntry> = Vec::new();
    let mut final_checksum = checksum;
    let mut hdl: u32 = 0;
    let ghost data = backend.data@;
    let ghost start = backend.pos as int;
    let n = main_header.section_num;
    let mut i: u32 = 0;
    while i < n
        invariant
            i <= n,
            n == main_header.section_num,
            hdl == i,
            backend.data@ == data,
            data == old(backend).data@,
            start == old(backend).pos,
            backend.pos == start + SIZE_SECTION_HEADER * i,
            i > 0 ==> start + SIZE_SECTION_HEADER * i <= data.len(),
            final_checksum == records_checksum(checksum, data, start, i as nat),
            sections@ == header_only_entries(parsed_headers(data, start, i as nat)),
        decreases n - i,
    {
        let (record_checksum, header) = match SectionHeader::read(backend) {
            Ok(v) => v,
            Err(e) => {
                return Err(e);
            },
        };
        final_checksum = final_checksum.wrapping_add(record_checksum);
        sections.push(
            SectionEntry {
                header,
                data: None,
                modified: false,
                index: i,
                entry1: SectionEntry1 {
                    flags: header.flags,
                    threshold: DEFAULT_COMPRESSION_THRESHOLD,
                },
                handle: hdl,
                in_use: false,
            },
        );
        proof {
            assert(data.subrange(start + SIZE_SECTION_HEADER * i, start + SIZE_SECTION_HEADER * i
                + SIZE_SECTION_HEADER) == record_at(data, start, i as int));
            assert(sections@ =~= header_only_entries(parsed_headers(data, start, (i + 1) as nat)));
        }
        hdl += 1;
        i += 1;
    }
    if final_checksum != main_header.chksum {
        return Err(Error::Checksum(final_checksum, main_header.chksum));
    }
    Ok((hdl, sections))
}

/// The bytes of an uncompressed payload as the backend holds them: `size`
/// bytes from `pointer` on, `Eos` where the data ends before the last of
/// them. A payload of no bytes is there wherever the pointer points.
pub open spec fn raw_payload(data: Seq<u8>, h: SectionHeader) -> Result<Seq<u8>, Error> {
    if h.size == 0 {
        Ok(Seq::empty())
    } else if h.pointer + h.size > data.len() {
        Err(Error::Eos)
    } else {
        Ok(data.subrange(h.pointer as int, h.pointer + h.size))
    }
}

/// The stored bytes of a compressed payload: `csize` bytes from `pointer` on,
/// `Eos` where the data ends before the last of them.
pub open spec fn stored_bytes(data: Seq<u8>, h: SectionHeader) -> Result<Seq<u8>, Error> {
    if h.pointer + h.csize > data.len() {
        Err(Error::Eos)
    } else {
        Ok(data.subrange(h.pointer as int, h.pointer + h.csize))
    }
}

/// The payload of a compressed section, before its checksum is looked at.
pub open spec fn compressed_payload(codec: Codec, data: Seq<u8>, h: SectionHeader) -> Result<
    Seq<u8>,
    Error,
> {
    match stored_bytes(data, h) {
        Err(e) => Err(e),
        Ok(stored) => match inflated(codec, stored) {
            None => Err(Error::Inflate(codec)),
            Some(payload) => Ok(payload),
        },
    }
}

/// The payload of a section, before its checksum is looked at: decoded by the
/// codec that the flags name, XZ before zlib, or taken as it is stored.
pub open spec fn stored_payload(data: Seq<u8>, h: SectionHeader) -> Result<Seq<u8>, Error> {
    if h.flags & FLAG_COMPRESS_XZ != 0 {
        compressed_payload(Codec::Xz, data, h)
    } else if h.flags & FLAG_COMPRESS_ZLIB != 0 {
        compressed_payload(Codec::Zlib, data, h)
    } else {
        raw_payload(data, h)
    }
}

/// True where the flags ask for the CRC-32 engine; else the weak one is used.
pub open spec fn uses_crc(flags: u8) -> bool {
    flags & FLAG_CHECK_CRC32 != 0
}

/// True where the flags ask for the payload's checksum to be verified.
pub open spec fn is_checked(flags: u8) -> bool {
    flags & FLAG_CHECK_WEAK != 0 || flags & FLAG_CHECK_CRC32 != 0
}

/// The payload of a section as a reader gets it: the stored payload, refused
/// with `Checksum`, the computed value and the expected one, where the flags
/// ask for a checksum and the payload's is not the header's.
pub open spec fn section_payload(data: Seq<u8>, h: SectionHeader) -> Result<Seq<u8>, Error> {
    match stored_payload(data, h) {
        Err(e) => Err(e),
        Ok(payload) => {
            let computed = payload_checksum(uses_crc(h.flags), payload);
            if is_checked(h.flags) && computed != h.chksum {
                Err(Error::Checksum(computed, h.chksum))
            } else {
                Ok(payload)
            }
        },
    }
}

/// What a payload that was read does to the output and the checksum engine:
/// it is written at the output's position and fed to the engine, unless the
/// end of the write does not fit the machine.
pub open spec fn delivered(
    payload: Seq<u8>,
    out0: AutoSectionData,
    out1: AutoSectionData,
    sum0: ChecksumEngine,
    sum1: ChecksumEngine,
    r: Result<(), Error>,
) -> bool {
    if out0.pos() + payload.len() > usize::MAX {
        r == Err::<(), Error>(Error::Io(IoFault::Overflow)) && out1 == out0 && sum1 == sum0
    } else {
        &&& r is Ok
        &&& out1.contents() == written(out0.contents(), out0.pos(), payload)
        &&& out1.pos() == out0.pos() + payload.len()
        &&& out1.threshold == out0.threshold
        &&& out1.spilled == (out0.spilled || out1.contents().len() > out0.threshold)
        &&& sum1.is_crc() == sum0.is_crc()
        &&& sum1.register() == ChecksumEngine::fold(sum0.is_crc(), sum0.register(), payload)
    }
}

/// Copies an uncompressed payload from the backend to `output`, block by
/// block, and feeds it to the checksum engine. On an error nothing is
/// written and the backend's position stays.
pub fn load_section_uncompressed(
    bpx: &mut ByteBuf,
    header: &SectionHeader,
    output: &mut AutoSectionData,
    chksum: &mut ChecksumEngine,
) -> (r: Result<(), Error>)
    requires
        old(output).wf(),
    ensures
        final(output).wf(),
        final(bpx).data@ == old(bpx).data@,
        match raw_payload(old(bpx).data@, *header) {
            Err(e) => r == Err::<(), Error>(e) && *final(output) == *old(output) && *final(chksum)
                == *old(chksum) && *final(bpx) == *old(bpx),
            Ok(payload) => delivered(
                payload,
                *old(output),
                *final(output),
                *old(chksum),
                *final(chksum),
                r,
            ) && (r is Err ==> *final(bpx) == *old(bpx)) && payload.len() <= usize::MAX,
        },
{
    let size = header.size as usize;
    if header.size == 0 {
        return finish_empty(output, chksum);
    }
    let len = bpx.len();
    if header.pointer > len as u64 || header.size as u64 > len as u64 - header.pointer {
        return Err(Error::Eos);
    }
    if size > usize::MAX - output.inner.byte_buf.position() {
        return Err(Error::Io(IoFault::Overflow));
    }
    let ghost data = bpx.data@;
    let ghost payload = data.subrange(header.pointer as int, header.pointer + header.size);
    let ghost out0 = *output;
    let ghost sum0 = *chksum;
    let start = header.pointer as usize;
    bpx.pos = start;
    let mut count: usize = 0;
    let mut remaining: usize = size;
    match finish_empty(output, chksum) {
        Ok(_) => {},
        Err(e) => {
            assert(false);
            return Err(e);
        },
    }
    proof {
        assert(payload.subrange(0, 0) =~= Seq::<u8>::empty());
    }
    while count < size
        invariant
            count <= size,
            size == header.size,
            remaining == size - count,
            bpx.data@ == data,
            data == old(bpx).data@,
            start == header.pointer,
            start + size <= data.len(),
            bpx.pos == start + count,
            payload == data.subrange(start as int, start + size),
            output.wf(),
            out0.pos() + size <= usize::MAX,
            output.pos() == out0.pos() + count,
            output.threshold == out0.threshold,
            output.spilled == (out0.spilled || output.contents().len() > out0.threshold),
            output.contents() == written(out0.contents(), out0.pos(), payload.subrange(0, count as int)),
            chksum.is_crc() == sum0.is_crc(),
            chksum.register() == ChecksumEngine::fold(
                sum0.is_crc(),
                sum0.register(),
                payload.subrange(0, count as int),
            ),
        decreases size - count,
    {
        let want = if remaining < READ_BLOCK_SIZE {
            remaining
        } else {
            READ_BLOCK_SIZE
        };
        let block = bpx.read(want);
        let ghost done = payload.subrange(0, count as int);
        proof {
            assert(block@ =~= payload.subrange(count as int, count + want));
            assert(done + block@ =~= payload.subrange(0, count + want));
            lemma_written_append(out0.contents(), out0.pos(), done, block@);
            ChecksumEngine::lemma_fold_concat(sum0.is_crc(), sum0.register(), done, block@);
        }
        match output.write(block.as_slice()) {
            Ok(_) => {},
            Err(e) => {
                assert(false);
                return Err(e);
            },
        }
        chksum.push(block.as_slice());
        count += block.len();
        remaining -= block.len();
    }
    proof {
        assert(payload.subrange(0, count as int) =~= payload);
    }
    Ok(())
}

/// Delivers a payload of no bytes.
fn finish_empty(output: &mut AutoSectionData, chksum: &mut ChecksumEngine) -> (r: Result<
    (),
    Error,
>)
    requires
        old(output).wf(),
    ensures
        final(output).wf(),
        delivered(
            Seq::<u8>::empty(),
            *old(output),
            *final(output),
            *old(chksum),
            *final(chksum),
            r,
        ),
{
    let nothing: Vec<u8> = Vec::new();
    proof {
        crate::checksum::lemma_fold_nothing(chksum.is_crc(), chksum.register());
    }
    chksum.push(nothing.as_slice());
    match output.write(nothing.as_slice()) {
        Ok(_) => Ok(()),
        Err(e) => {
            assert(false);
            Err(e)
        },
    }
}

/// Writes a payload that was decoded, and went through the checksum engine
/// while it was, at the output's position. Where the end of the write does
/// not fit the machine the payload is refused, and the engine is set back to
/// `before`, its state from before the payload went through it.
pub fn deliver_decoded(
    payload: &[u8],
    output: &mut AutoSectionData,
    chksum: &mut ChecksumEngine,
    before: ChecksumEngine,
) -> (r: Result<(), Error>)
    requires
        old(output).wf(),
        old(chksum).is_crc() == before.is_crc(),
        old(chksum).register() == ChecksumEngine::fold(before.is_crc(), before.register(), payload@),
    ensures
        final(output).wf(),
        delivered(payload@, *old(output), *final(output), before, *final(chksum), r),
{
    if payload.len() > usize::MAX - output.inner.byte_buf.position() {
        *chksum = before;
        return Err(Error::Io(IoFault::Overflow));
    }
    match output.write(payload) {
        Ok(_) => Ok(()),
        Err(e) => {
            assert(false);
            Err(e)
        },
    }
}

/// Reads the stored bytes of a compressed payload from the backend, decodes
/// them, writes the payload to `output` and feeds it to the checksum engine.
/// On an error nothing is written and the backend's position stays.
pub fn load_section_compressed(
    codec: Codec,
    bpx: &mut ByteBuf,
    header: &SectionHeader,
    output: &mut AutoSectionData,
    chksum: &mut ChecksumEngine,
) -> (r: Result<(), Error>)
    requires
        old(output).wf(),
    ensures
        final(output).wf(),
        final(bpx).data@ == old(bpx).data@,
        match compressed_payload(codec, old(bpx).data@, *header) {
            Err(e) => r == Err::<(), Error>(e) && *final(output) == *old(output) && *final(chksum)
                == *old(chksum) && *final(bpx) == *old(bpx),
            Ok(payload) => delivered(
                payload,
                *old(output),
                *final(output),
                *old(chksum),
                *final(chksum),
                r,
            ) && (r is Err ==> *final(bpx) == *old(bpx)) && payload.len() <= usize::MAX,
        },
{
    let len = bpx.len();
    if header.pointer > len as u64 || header.csize as u64 > len as u64 - header.pointer {
        return Err(Error::Eos);
    }
    let start = header.pointer as usize;
    let end = start + header.csize as usize;
    let saved = *chksum;
    let stored = vstd::slice::slice_subrange(bpx.data.as_slice(), start, end);
    let payload = match inflate(codec, stored, chksum) {
        Ok(v) => v,
        Err(e) => {
            return Err(e);
        },
    };
    proof {
        assert(stored@ == old(bpx).data@.subrange(header.pointer as int, header.pointer + header.csize));
        assert(stored_bytes(old(bpx).data@, *header) == Ok::<Seq<u8>, Error>(stored@));
        assert(inflated(codec, stored@) == Some(payload@));
        assert(compressed_payload(codec, old(bpx).data@, *header) == Ok::<Seq<u8>, Error>(
            payload@,
        ));
        assert(saved == *old(chksum));
        assert(payload.len() <= usize::MAX);
        assert(payload@.len() == payload.len());
    }
    let delivery = deliver_decoded(payload.as_slice(), output, chksum, saved);
    proof {
        assert(delivered(payload@, *old(output), *output, *old(chksum), *chksum, delivery));
    }
    if delivery.is_err() {
        return delivery;
    }
    bpx.pos = end;
    Ok(())
}

/// Reads the payload of a section from the backend by the codec that the
/// header's flags name, writes it to `out` and feeds it to the checksum
/// engine. On an error nothing is written and the backend's position stays.
pub fn load_section_checked(
    file: &mut ByteBuf,
    section: &SectionHeader,
    out: &mut AutoSectionData,
    chksum: &mut ChecksumEngine,
) -> (r: Result<(), Error>)
    requires
        old(out).wf(),
    ensures
        final(out).wf(),
        final(file).data@ == old(file).data@,
        match stored_payload(old(file).data@, *section) {
            Err(e) => r == Err::<(), Error>(e) && *final(out) == *old(out) && *final(chksum)
                == *old(chksum) && *final(file) == *old(file),
            Ok(payload) => delivered(
                payload,
                *old(out),
                *final(out),
                *old(chksum),
                *final(chksum),
                r,
            ) && (r is Err ==> *final(file) == *old(file)) && payload.len() <= usize::MAX,
        },
{
    if section.flags & FLAG_COMPRESS_XZ != 0 {
        load_section_compressed(Codec::Xz, file, section, out, chksum)
    } else if section.flags & FLAG_COMPRESS_ZLIB != 0 {
        load_section_compressed(Codec::Zlib, file, section, out, chksum)
    } else {
        load_section_uncompressed(file, section, out, chksum)
    }
}

/// Loads the payload of a section from the backend into a fresh buffer,
/// positioned at its first byte. The payload's checksum, by the CRC-32 where
/// the flags name it and by the weak checksum else, must be the header's
/// where the flags ask for a checksum.
pub fn load_section1(file: &mut ByteBuf, section: &SectionHeader) -> (r: Result<
    AutoSectionData,
    Error,
>)
    ensures
        final(file).data@ == old(file).data@,
        match section_payload(old(file).data@, *section) {
            Err(e) => r == Err::<AutoSectionData, Error>(e),
            Ok(payload) => r matches Ok(d) && d.wf() && d@ == loaded_view(payload, section.size),
        },
{
    let mut data = match AutoSectionData::new_with_size(section.size) {
        Ok(d) => d,
        Err(e) => {
            return Err(e);
        },
    };
    let mut chksum = ChecksumEngine::new(section.flags & FLAG_CHECK_CRC32 != 0);
    match load_section_checked(file, section, &mut data, &mut chksum) {
        Ok(_) => {},
        Err(e) => {
            return Err(e);
        },
    }
    let v = chksum.finish();
    proof {
        let payload = stored_payload(old(file).data@, *section)->Ok_0;
        ChecksumEngine::lemma_output_is_checksum(uses_crc(section.flags), payload);
        assert(written(Seq::<u8>::empty(), 0, payload) =~= payload);
    }
    if (section.flags & FLAG_CHECK_WEAK != 0 || section.flags & FLAG_CHECK_CRC32 != 0) && v
        != section.chksum {
        return Err(Error::Checksum(v, section.chksum));
    }
    match data.seek(crate::utils::SeekFrom::Start(0)) {
        Ok(_) => {},
        Err(e) => {
            return Err(e);
        },
    }
    Ok(data)
}

} // verus!
