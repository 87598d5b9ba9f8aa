//! The write path: how a section is stored, and how the sections, their
//! headers and the main header are laid out in a container's byte image.

use vstd::prelude::*;
use crate::checksum::{
    concat_chunks,
    payload_checksum,
    weak_checksum,
    wrapping_add32,
    ChecksumEngine,
};
use crate::compression::{deflate, deflated};
use crate::container::decoder::{
    raw_payload,
    stored_bytes,
    uses_crc,
};
use crate::container::section::{effective_flags, SectionEntry};
use crate::error::{Codec, Error, IoFault};
use crate::header::{
    main_header_bytes,
    section_header_bytes,
    MainHeader,
    SectionHeader,
    FLAG_CHECK_CRC32,
    FLAG_COMPRESS_XZ,
    FLAG_COMPRESS_ZLIB,
    SIZE_MAIN_HEADER,
    SIZE_SECTION_HEADER,
};
use crate::utils::copy_range;

verus! {

/// The codec that the flags name, XZ before zlib.
pub open spec fn codec_of(flags: u8) -> Option<Codec> {
    if flags & FLAG_COMPRESS_XZ != 0 {
        Some(Codec::Xz)
    } else if flags & FLAG_COMPRESS_ZLIB != 0 {
        Some(Codec::Zlib)
    } else {
        None
    }
}

/// The stored form of a payload under the flags: compressed by the codec that
/// they name, or the payload itself.
pub open spec fn encoded(flags: u8, payload: Seq<u8>) -> Seq<u8> {
    match codec_of(flags) {
        Some(codec) => deflated(codec, payload),
        None => payload,
    }
}

/// Runs a payload through the write pipeline: gives its stored form under
/// `flags` and its checksum, the CRC-32 where the flags name it and the weak
/// checksum else.
pub fn write_section(flags: u8, payload: &[u8]) -> (r: (Vec<u8>, u32))
    ensures
        r.0@ == encoded(flags, payload@),
        r.1 == payload_checksum(uses_crc(flags), payload@),
{
    let mut engine = ChecksumEngine::new(flags & FLAG_CHECK_CRC32 != 0);
    proof {
        ChecksumEngine::lemma_output_is_checksum(uses_crc(flags), payload@);
    }
    if flags & FLAG_COMPRESS_XZ != 0 {
        let stored = deflate(Codec::Xz, payload, &mut engine);
        (stored, engine.finish())
    } else if flags & FLAG_COMPRESS_ZLIB != 0 {
        let stored = deflate(Codec::Zlib, payload, &mut engine);
        (stored, engine.finish())
    } else {
        engine.push(payload);
        let stored = copy_range(payload, 0, payload.len());
        assert(stored@ =~= payload@);
        (stored, engine.finish())
    }
}

/// True where a save writes the section's payload anew: the payload is held
/// in memory, and the section was modified, or asks for other flags than its
/// header has, or sections were created or removed since the last save.
pub open spec fn rewritten(table_modified: bool, e: SectionEntry) -> bool {
    e.data is Some && (table_modified || e.modified || e.header.flags != e.entry1.flags)
}

/// The flags that a section is written anew with.
pub open spec fn rewrite_flags(e: SectionEntry) -> u8 {
    effective_flags(e.entry1.flags, e.entry1.threshold, e.data->Some_0.contents().len() as u32)
}

/// The bytes of a section as the backend holds them: the stored bytes of a
/// compressed section, the payload of another.
pub open spec fn stored_region(data: Seq<u8>, h: SectionHeader) -> Result<Seq<u8>, Error> {
    if codec_of(h.flags) is Some {
        stored_bytes(data, h)
    } else {
        raw_payload(data, h)
    }
}

/// What stops a save at a section before anything is written: a payload that
/// is handed out, a payload too large for the format, or, for a section that
/// is not written anew, stored bytes that the backend does not hold.
pub open spec fn entry_fault(data: Seq<u8>, table_modified: bool, e: SectionEntry) -> Option<
    Error,
> {
    if e.in_use {
        Some(Error::SectionInUse)
    } else if rewritten(table_modified, e) {
        if e.data->Some_0.contents().len() > u32::MAX {
            Some(Error::Io(IoFault::Overflow))
        } else {
            None
        }
    } else {
        match stored_region(data, e.header) {
            Err(err) => Some(err),
            Ok(_) => None,
        }
    }
}

/// The bytes that a save stores for a section: the stored form of its payload
/// where it is written anew, else the bytes that the backend held for it.
pub open spec fn saved_blob(data: Seq<u8>, table_modified: bool, e: SectionEntry) -> Seq<u8> {
    if rewritten(table_modified, e) {
        encoded(rewrite_flags(e), e.data->Some_0.contents())
    } else {
        stored_region(data, e.header)->Ok_0
    }
}

/// The header that a save gives a section whose stored bytes begin at
/// `pointer`: for one written anew the sizes, checksum and flags of what was
/// written; for another its header as before.
pub open spec fn saved_header(
    data: Seq<u8>,
    table_modified: bool,
    e: SectionEntry,
    pointer: u64,
) -> SectionHeader {
    if rewritten(table_modified, e) {
        let payload = e.data->Some_0.contents();
        let flags = rewrite_flags(e);
        SectionHeader {
            pointer,
            csize: encoded(flags, payload).len() as u32,
            size: payload.len() as u32,
            chksum: payload_checksum(uses_crc(flags), payload),
            ty: e.header.ty,
            flags,
        }
    } else {
        SectionHeader { pointer, ..e.header }
    }
}

/// The header of a section that was written anew: with the sizes of the
/// payload and of its stored form, the payload's checksum and the flags that
/// it was written with. Refused where the stored form is too large for the
/// format.
pub fn header_of_written(
    ty: u8,
    flags: u8,
    pointer: u64,
    size: u32,
    stored: Vec<u8>,
    chksum: u32,
) -> (r: Result<(Vec<u8>, SectionHeader), Error>)
    ensures
        stored@.len() > u32::MAX ==> r == Err::<(Vec<u8>, SectionHeader), Error>(
            Error::Io(IoFault::Overflow),
        ),
        stored@.len() <= u32::MAX ==> r == Ok::<(Vec<u8>, SectionHeader), Error>(
            (
                stored,
                SectionHeader { pointer, csize: stored@.len() as u32, size, chksum, ty, flags },
            ),
        ),
{
    if stored.len() > u32::MAX as usize {
        return Err(Error::Io(IoFault::Overflow));
    }
    let csize = stored.len() as u32;
    Ok((stored, SectionHeader { pointer, csize, size, chksum, ty, flags }))
}

/// Prepares one section for a save: gives the bytes to store for it and its
/// new header, for stored bytes that begin at `pointer`.
pub fn plan_section(data: &[u8], table_modified: bool, e: &SectionEntry, pointer: u64) -> (r:
    Result<(Vec<u8>, SectionHeader), Error>)
    requires
        e.wf(),
    ensures
        match entry_fault(data@, table_modified, *e) {
            Some(err) => r == Err::<(Vec<u8>, SectionHeader), Error>(err),
            None => if saved_blob(data@, table_modified, *e).len() > u32::MAX {
                r == Err::<(Vec<u8>, SectionHeader), Error>(Error::Io(IoFault::Overflow))
            } else {
                r matches Ok((blob, header)) && blob@ == saved_blob(data@, table_modified, *e)
                    && header == saved_header(data@, table_modified, *e, pointer)
            },
        },
{
    if e.in_use {
        return Err(Error::SectionInUse);
    }
    let header = e.header;
    match &e.data {
        Some(d) => {
            if table_modified || e.modified || header.flags != e.entry1.flags {
                let size = d.size();
                if size > u32::MAX as usize {
                    return Err(Error::Io(IoFault::Overflow));
                }
                let flags = e.entry1.get_flags(size as u32);
                let (blob, chksum) = write_section(flags, d.inner.byte_buf.data.as_slice());
                return header_of_written(header.ty, flags, pointer, size as u32, blob, chksum);
            }
        },
        None => {},
    }
    let length = if header.flags & FLAG_COMPRESS_XZ != 0 || header.flags & FLAG_COMPRESS_ZLIB != 0 {
        header.csize
    } else {
        header.size
    };
    if length == 0 && !(header.flags & FLAG_COMPRESS_XZ != 0 || header.flags & FLAG_COMPRESS_ZLIB
        != 0) {
        let blob: Vec<u8> = Vec::new();
        return Ok((blob, SectionHeader { pointer, ..header }));
    }
    let len = data.len();
    if header.pointer > len as u64 || length as u64 > len as u64 - header.pointer {
        return Err(Error::Eos);
    }
    let start = header.pointer as usize;
    let blob = copy_range(data, start, start + length as usize);
    Ok((blob, SectionHeader { pointer, ..header }))
}

/// The byte images of the headers, one after the other.
pub open spec fn header_records(headers: Seq<SectionHeader>) -> Seq<Seq<u8>> {
    Seq::new(headers.len(), |i: int| section_header_bytes(headers[i]))
}

/// The byte image of a table of section headers.
pub open spec fn table_bytes(headers: Seq<SectionHeader>) -> Seq<u8> {
    concat_chunks(header_records(headers))
}

/// The aggregate checksum of a table of section headers: the wrapping sum of
/// the weak checksums of the headers' byte images.
pub open spec fn table_checksum(headers: Seq<SectionHeader>) -> u32
    decreases headers.len(),
{
    if headers.len() == 0 {
        0
    } else {
        wrapping_add32(
            table_checksum(headers.drop_last()),
            weak_checksum(section_header_bytes(headers.last())),
        )
    }
}

/// The byte image of a container: the main header, the table of section
/// headers, and the stored bytes of the sections in the table's order.
pub open spec fn image(main: MainHeader, headers: Seq<SectionHeader>, blobs: Seq<Seq<u8>>) -> Seq<
    u8,
> {
    main_header_bytes(main) + table_bytes(headers) + concat_chunks(blobs)
}

/// Where the stored bytes of the first section begin in a container of `n` sections.
pub open spec fn payload_base(n: nat) -> nat {
    SIZE_MAIN_HEADER as nat + SIZE_SECTION_HEADER as nat * n
}

/// Where the stored bytes of section `i` begin.
pub open spec fn blob_offset(blobs: Seq<Seq<u8>>, i: int) -> nat {
    payload_base(blobs.len()) + concat_chunks(blobs.take(i)).len()
}

/// Taking one chunk more appends that chunk.
pub proof fn lemma_concat_take(chunks: Seq<Seq<u8>>, i: int)
    requires
        0 <= i < chunks.len(),
    ensures
        concat_chunks(chunks.take(i + 1)) == concat_chunks(chunks.take(i)) + chunks[i],
{
    assert(chunks.take(i + 1).drop_last() =~= chunks.take(i));
    assert(chunks.take(i + 1).last() == chunks[i]);
}

/// Each chunk lies in the concatenation behind the chunks before it.
pub proof fn lemma_concat_region(chunks: Seq<Seq<u8>>, i: int)
    requires
        0 <= i < chunks.len(),
    ensures
        concat_chunks(chunks.take(i)).len() + chunks[i].len() <= concat_chunks(chunks).len(),
        concat_chunks(chunks).subrange(
            concat_chunks(chunks.take(i)).len() as int,
            (concat_chunks(chunks.take(i)).len() + chunks[i].len()) as int,
        ) == chunks[i],
    decreases chunks.len(),
{
    let n = chunks.len() as int;
    if i == n - 1 {
        assert(chunks.take(i) =~= chunks.drop_last());
        assert(concat_chunks(chunks).subrange(
            concat_chunks(chunks.take(i)).len() as int,
            (concat_chunks(chunks.take(i)).len() + chunks[i].len()) as int,
        ) =~= chunks[i]);
    } else {
        let front = chunks.drop_last();
        lemma_concat_region(front, i);
        assert(front.take(i) =~= chunks.take(i));
        assert(front[i] == chunks[i]);
        let off = concat_chunks(chunks.take(i)).len() as int;
        assert(concat_chunks(chunks).subrange(off, off + chunks[i].len()) =~= concat_chunks(
            front,
        ).subrange(off, off + chunks[i].len()));
    }
}

/// Chunks of one length lie at multiples of that length.
pub proof fn lemma_concat_uniform(chunks: Seq<Seq<u8>>, width: nat)
    requires
        forall|i: int| 0 <= i < chunks.len() ==> #[trigger] chunks[i].len() == width,
    ensures
        concat_chunks(chunks).len() == width * chunks.len(),
    decreases chunks.len(),
{
    if chunks.len() > 0 {
        lemma_concat_uniform(chunks.drop_last(), width);
        assert(width * chunks.len() == width * (chunks.len() - 1) + width) by (nonlinear_arith);
    } else {
        assert(width * chunks.len() == 0) by (nonlinear_arith)
            requires
                chunks.len() == 0,
        ;
    }
}

/// The bytes that a save stores for each section.
pub open spec fn saved_blobs(data: Seq<u8>, table_modified: bool, entries: Seq<SectionEntry>) -> Seq<
    Seq<u8>,
> {
    Seq::new(entries.len(), |i: int| saved_blob(data, table_modified, entries[i]))
}

/// The header that a save gives each section.
pub open spec fn saved_headers(
    data: Seq<u8>,
    table_modified: bool,
    entries: Seq<SectionEntry>,
) -> Seq<SectionHeader> {
    Seq::new(
        entries.len(),
        |i: int|
            saved_header(
                data,
                table_modified,
                entries[i],
                blob_offset(saved_blobs(data, table_modified, entries), i) as u64,
            ),
    )
}

/// The entries after a save: each with its new header, and none modified.
pub open spec fn saved_entries(
    data: Seq<u8>,
    table_modified: bool,
    entries: Seq<SectionEntry>,
) -> Seq<SectionEntry> {
    Seq::new(
        entries.len(),
        |i: int|
            SectionEntry {
                header: saved_headers(data, table_modified, entries)[i],
                modified: false,
                ..entries[i]
            },
    )
}

/// The length of the byte image that a save writes.
pub open spec fn saved_len(data: Seq<u8>, table_modified: bool, entries: Seq<SectionEntry>) -> nat {
    payload_base(entries.len()) + concat_chunks(saved_blobs(data, table_modified, entries)).len()
}

/// What stops a save before anything is written: the fault of the first
/// section, in the table's order, that has one.
pub open spec fn first_fault(data: Seq<u8>, table_modified: bool, entries: Seq<SectionEntry>) -> Option<
    Error,
>
    decreases entries.len(),
{
    if entries.len() == 0 {
        None
    } else {
        match first_fault(data, table_modified, entries.drop_last()) {
            Some(e) => Some(e),
            None => entry_fault(data, table_modified, entries.last()),
        }
    }
}

/// Looks at one section before a save: gives what stops the save at it.
pub fn check_section(data: &[u8], table_modified: bool, e: &SectionEntry) -> (r: Option<Error>)
    requires
        e.wf(),
    ensures
        r == entry_fault(data@, table_modified, *e),
{
    if e.in_use {
        return Some(Error::SectionInUse);
    }
    let header = e.header;
    match &e.data {
        Some(d) => {
            if table_modified || e.modified || header.flags != e.entry1.flags {
                if d.size() > u32::MAX as usize {
                    return Some(Error::Io(IoFault::Overflow));
                }
                return None;
            }
        },
        None => {},
    }
    let compressed = header.flags & FLAG_COMPRESS_XZ != 0 || header.flags & FLAG_COMPRESS_ZLIB != 0;
    let length = if compressed {
        header.csize
    } else {
        header.size
    };
    if length == 0 && !compressed {
        return None;
    }
    let len = data.len();
    if header.pointer > len as u64 || length as u64 > len as u64 - header.pointer {
        return Some(Error::Eos);
    }
    None
}

/// Looks at all sections before a save, in the table's order.
pub fn check_sections(data: &[u8], table_modified: bool, entries: &Vec<SectionEntry>) -> (r:
    Option<Error>)
    requires
        forall|i: int| 0 <= i < entries@.len() ==> #[trigger] entries@[i].wf(),
    ensures
        r == first_fault(data@, table_modified, entries@),
{
    let mut i: usize = 0;
    assert(entries@.take(0) =~= Seq::<SectionEntry>::empty());
    while i < entries.len()
        invariant
            i <= entries@.len(),
            forall|k: int| 0 <= k < entries@.len() ==> #[trigger] entries@[k].wf(),
            first_fault(data@, table_modified, entries@.take(i as int)) is None,
        decreases entries@.len() - i,
    {
        proof {
            assert(entries@.take(i + 1).drop_last() =~= entries@.take(i as int));
            assert(entries@.take(i + 1).last() == entries@[i as int]);
            assert(entries@[i as int].wf());
        }
        match check_section(data, table_modified, &entries[i]) {
            Some(e) => {
                proof {
                    lemma_first_fault_stays(data@, table_modified, entries@, i + 1);
                }
                return Some(e);
            },
            None => {},
        }
        i += 1;
    }
    assert(entries@.take(i as int) =~= entries@);
    None
}

/// A fault among the first `k` sections is the fault of the whole table.
pub proof fn lemma_first_fault_stays(
    data: Seq<u8>,
    table_modified: bool,
    entries: Seq<SectionEntry>,
    k: int,
)
    requires
        0 <= k <= entries.len(),
        first_fault(data, table_modified, entries.take(k)) is Some,
    ensures
        first_fault(data, table_modified, entries) == first_fault(
            data,
            table_modified,
            entries.take(k),
        ),
    decreases entries.len() - k,
{
    if k < entries.len() {
        assert(entries.take(k + 1).drop_last() =~= entries.take(k));
        lemma_first_fault_stays(data, table_modified, entries, k + 1);
    } else {
        assert(entries.take(k) =~= entries);
    }
}

/// Without a fault in the table no section has one.
pub proof fn lemma_no_fault(data: Seq<u8>, table_modified: bool, entries: Seq<SectionEntry>, i: int)
    requires
        first_fault(data, table_modified, entries) is None,
        0 <= i < entries.len(),
    ensures
        entry_fault(data, table_modified, entries[i]) is None,
    decreases entries.len(),
{
    if i < entries.len() - 1 {
        lemma_no_fault(data, table_modified, entries.drop_last(), i);
    }
}

/// Stores all sections, in the table's order: gives the stored bytes of all
/// sections, one after the other, and the sections' new headers. Nothing is
/// stored where a section has a fault, or where the byte image would be too
/// large for the format.
pub fn write_sections(data: &[u8], table_modified: bool, entries: &Vec<SectionEntry>) -> (r:
    Result<(Vec<u8>, Vec<SectionHeader>), Error>)
    requires
        forall|i: int| 0 <= i < entries@.len() ==> #[trigger] entries@[i].wf(),
        entries@.len() <= u32::MAX,
    ensures
        match first_fault(data@, table_modified, entries@) {
            Some(e) => r == Err::<(Vec<u8>, Vec<SectionHeader>), Error>(e),
            None => if saved_len(data@, table_modified, entries@) > u32::MAX {
                r == Err::<(Vec<u8>, Vec<SectionHeader>), Error>(Error::Io(IoFault::Overflow))
            } else {
                r matches Ok((blobs, headers)) && blobs@ == concat_chunks(
                    saved_blobs(data@, table_modified, entries@),
                ) && headers@ == saved_headers(data@, table_modified, entries@)
            },
        },
{
    match check_sections(data, table_modified, entries) {
        Some(e) => {
            return Err(e);
        },
        None => {},
    }
    let n = entries.len();
    let ghost all = saved_blobs(data@, table_modified, entries@);
    let limit: u64 = u32::MAX as u64;
    let base: u64 = SIZE_MAIN_HEADER as u64 + SIZE_SECTION_HEADER as u64 * (n as u64);
    if base > limit {
        return Err(Error::Io(IoFault::Overflow));
    }
    let mut blobs: Vec<u8> = Vec::new();
    let mut headers: Vec<SectionHeader> = Vec::new();
    let mut i: usize = 0;
    assert(all.take(0) =~= Seq::<Seq<u8>>::empty());
    while i < n
        invariant
            i <= n,
            n == entries@.len(),
            n <= u32::MAX,
            base == payload_base(n as nat),
            base <= limit,
            limit == u32::MAX,
            all == saved_blobs(data@, table_modified, entries@),
            forall|k: int| 0 <= k < entries@.len() ==> #[trigger] entries@[k].wf(),
            first_fault(data@, table_modified, entries@) is None,
            blobs@ == concat_chunks(all.take(i as int)),
            base + blobs@.len() <= limit,
            headers@.len() == i,
            forall|k: int|
                0 <= k < i ==> headers@[k] == saved_headers(data@, table_modified, entries@)[k],
        decreases n - i,
    {
        let pointer: u64 = base + blobs.len() as u64;
        proof {
            lemma_no_fault(data@, table_modified, entries@, i as int);
            lemma_concat_take(all, i as int);
            lemma_concat_region(all, i as int);
            assert(entries@[i as int].wf());
        }
        let (blob, header) = match plan_section(data, table_modified, &entries[i], pointer) {
            Ok(v) => v,
            Err(e) => {
                return Err(e);
            },
        };
        if blob.len() as u64 > limit - pointer {
            return Err(Error::Io(IoFault::Overflow));
        }
        crate::utils::extend_bytes(&mut blobs, blob.as_slice());
        headers.push(header);
        i += 1;
    }
    proof {
        assert(all.take(n as int) =~= all);
        assert(headers@ =~= saved_headers(data@, table_modified, entries@));
    }
    Ok((blobs, headers))
}

/// The byte image of a table of section headers, and its aggregate checksum.
pub fn write_table(headers: &Vec<SectionHeader>) -> (r: (Vec<u8>, u32))
    ensures
        r.0@ == table_bytes(headers@),
        r.1 == table_checksum(headers@),
{
    let mut table: Vec<u8> = Vec::new();
    let mut chksum: u32 = 0;
    let mut i: usize = 0;
    let ghost records = header_records(headers@);
    assert(records.take(0) =~= Seq::<Seq<u8>>::empty());
    assert(headers@.take(0) =~= Seq::<SectionHeader>::empty());
    while i < headers.len()
        invariant
            i <= headers@.len(),
            records == header_records(headers@),
            table@ == concat_chunks(records.take(i as int)),
            chksum == table_checksum(headers@.take(i as int)),
        decreases headers@.len() - i,
    {
        let bytes = headers[i].to_bytes();
        proof {
            lemma_concat_take(records, i as int);
            assert(headers@.take(i + 1).drop_last() =~= headers@.take(i as int));
            assert(headers@.take(i + 1).last() == headers@[i as int]);
        }
        crate::utils::extend_bytes(&mut table, bytes.as_slice());
        chksum = chksum.wrapping_add(crate::header::weak_checksum_of(bytes.as_slice()));
        i += 1;
    }
    proof {
        assert(records.take(i as int) =~= records);
        assert(headers@.take(i as int) =~= headers@);
    }
    (table, chksum)
}

} // verus!
