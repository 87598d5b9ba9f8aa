//! What holds of containers across operations: a saved container reads back
//! as it was written.

use vstd::prelude::*;
use crate::checksum::{concat_chunks, payload_checksum};
use crate::compression::{inflated, round_trips};
use crate::container::decoder::{
    is_checked,
    parsed_headers,
    record_at,
    records_checksum,
    section_payload,
    stored_payload,
    uses_crc,
};
use crate::container::encoder::{
    blob_offset,
    codec_of,
    encoded,
    header_records,
    image,
    lemma_concat_region,
    lemma_concat_uniform,
    lemma_no_fault,
    payload_base,
    rewrite_flags,
    rewritten,
    saved_blob,
    saved_blobs,
    saved_headers,
    saved_len,
    stored_region,
    table_bytes,
    table_checksum,
};
use crate::container::section::{SectionTable};
use crate::container::data::auto::AutoSectionData;
use crate::container::{open_fault, Container};
use crate::error::Error;
use crate::header::{
    has_signature,
    image_chksum,
    image_section_num,
    known_version,
    lemma_main_header_ext,
    lemma_main_header_round_trip,
    lemma_section_header_round_trip,
    main_header_bytes,
    parse_section_header,
    section_header_bytes,
    MainHeader,
    SectionHeader,
    SIZE_MAIN_HEADER,
    SIZE_SECTION_HEADER,
};
use crate::Handle;

verus! {

/// In a byte image the record of each section header lies at its place in
/// the table, and parses back to the header.
pub proof fn lemma_image_record(
    main: MainHeader,
    headers: Seq<SectionHeader>,
    blobs: Seq<Seq<u8>>,
    i: int,
)
    requires
        0 <= i < headers.len(),
    ensures
        table_bytes(headers).len() == SIZE_SECTION_HEADER * headers.len(),
        record_at(image(main, headers, blobs), SIZE_MAIN_HEADER as int, i) == section_header_bytes(
            headers[i],
        ),
        parse_section_header(record_at(image(main, headers, blobs), SIZE_MAIN_HEADER as int, i))
            == headers[i],
{
    let records = header_records(headers);
    let img = image(main, headers, blobs);
    lemma_main_header_round_trip(main);
    assert forall|k: int| 0 <= k < records.len() implies #[trigger] records[k].len() == 24 by {
        lemma_section_header_round_trip(headers[k]);
    }
    lemma_concat_uniform(records, 24);
    lemma_concat_uniform(records.take(i), 24);
    lemma_concat_region(records, i);
    lemma_section_header_round_trip(headers[i]);
    let off = concat_chunks(records.take(i)).len() as int;
    assert(off == 24 * i);
    assert(record_at(img, SIZE_MAIN_HEADER as int, i) =~= table_bytes(headers).subrange(
        off,
        off + 24,
    ));
}

/// In a byte image the aggregate checksum of the records of the table is the
/// table's checksum.
pub proof fn lemma_image_checksum(
    main: MainHeader,
    headers: Seq<SectionHeader>,
    blobs: Seq<Seq<u8>>,
    k: nat,
)
    requires
        k <= headers.len(),
    ensures
        records_checksum(0, image(main, headers, blobs), SIZE_MAIN_HEADER as int, k)
            == table_checksum(headers.take(k as int)),
    decreases k,
{
    if k > 0 {
        lemma_image_checksum(main, headers, blobs, (k - 1) as nat);
        lemma_image_record(main, headers, blobs, k - 1);
        assert(headers.take(k as int).drop_last() =~= headers.take(k - 1));
        assert(headers.take(k as int).last() == headers[k - 1]);
    } else {
        assert(headers.take(0).len() == 0);
    }
}

/// In a byte image the stored bytes of each section lie at the section's offset.
pub proof fn lemma_image_blob(
    main: MainHeader,
    headers: Seq<SectionHeader>,
    blobs: Seq<Seq<u8>>,
    i: int,
)
    requires
        headers.len() == blobs.len(),
        0 <= i < blobs.len(),
    ensures
        blob_offset(blobs, i) + blobs[i].len() <= image(main, headers, blobs).len(),
        image(main, headers, blobs).len() == payload_base(blobs.len()) + concat_chunks(blobs).len(),
        image(main, headers, blobs).subrange(
            blob_offset(blobs, i) as int,
            (blob_offset(blobs, i) + blobs[i].len()) as int,
        ) == blobs[i],
{
    let records = header_records(headers);
    let img = image(main, headers, blobs);
    lemma_main_header_round_trip(main);
    assert forall|k: int| 0 <= k < records.len() implies #[trigger] records[k].len() == 24 by {
        lemma_section_header_round_trip(headers[k]);
    }
    lemma_concat_uniform(records, 24);
    lemma_concat_region(blobs, i);
    let off = concat_chunks(blobs.take(i)).len() as int;
    let base = payload_base(blobs.len()) as int;
    assert(img.subrange(base + off, base + off + blobs[i].len()) =~= concat_chunks(blobs).subrange(
        off,
        off + blobs[i].len(),
    ));
}

/// What a reader gets of a section depends on the backend only through the
/// bytes that the backend holds for it.
pub proof fn lemma_payload_by_region(
    data1: Seq<u8>,
    h1: SectionHeader,
    data2: Seq<u8>,
    h2: SectionHeader,
)
    requires
        stored_region(data1, h1) == stored_region(data2, h2),
        h1.flags == h2.flags,
        h1.chksum == h2.chksum,
    ensures
        stored_payload(data1, h1) == stored_payload(data2, h2),
        section_payload(data1, h1) == section_payload(data2, h2),
{
}

/// Writing a payload through any codec and any checksum, and reading it back,
/// gives the payload, and the checksum is accepted: for a header with the
/// flags, sizes and checksum of what was written, over a backend that holds
/// the stored form. For the two compressing codecs this rests on the codec
/// giving the payload back from its stored form.
pub proof fn lemma_write_then_read(data: Seq<u8>, h: SectionHeader, payload: Seq<u8>)
    requires
        h.size == payload.len(),
        h.chksum == payload_checksum(uses_crc(h.flags), payload),
        stored_region(data, h) == Ok::<Seq<u8>, Error>(encoded(h.flags, payload)),
    ensures
        codec_of(h.flags) is None ==> section_payload(data, h) == Ok::<Seq<u8>, Error>(payload),
        codec_of(h.flags) matches Some(codec) ==> (round_trips(codec, payload) ==> section_payload(
            data,
            h,
        ) == Ok::<Seq<u8>, Error>(payload) && inflated(codec, stored_region(data, h)->Ok_0)
            == Some(payload) && inflated(codec, stored_region(data, h)->Ok_0)->Some_0.len()
            == h.size),
{
}

/// A payload that a reader accepts under a checksum flag has the checksum
/// that the section's header gives.
pub proof fn lemma_accepted_checksum(data: Seq<u8>, h: SectionHeader)
    requires
        section_payload(data, h) is Ok,
        is_checked(h.flags),
    ensures
        payload_checksum(uses_crc(h.flags), section_payload(data, h)->Ok_0) == h.chksum,
{
}

/// A section without payload loads: where its header gives size 0, no
/// compression and, if it asks for a checksum, the checksum 0, a reader gets
/// a payload of no bytes, wherever the header points.
pub proof fn lemma_empty_section_loads(data: Seq<u8>, h: SectionHeader)
    requires
        h.size == 0,
        codec_of(h.flags) is None,
        is_checked(h.flags) ==> h.chksum == 0,
    ensures
        section_payload(data, h) == Ok::<Seq<u8>, Error>(Seq::<u8>::empty()),
{
    assert(crate::checksum::byte_sum(Seq::<u8>::empty()) == 0);
    assert(0xFFFF_FFFFu32 ^ 0xFFFF_FFFFu32 == 0u32) by (bit_vector);
}

/// A saved container opens: nothing stops `open` on the byte image that a
/// save left, and the image gives the number of sections and the aggregate
/// checksum of the main header that the save left.
pub proof fn lemma_saved_opens(pre: Container, post: Container)
    requires
        pre.wf(),
        has_signature(pre.main_header.signature@),
        known_version(pre.main_header.version),
        Container::saved(pre, post),
    ensures
        open_fault(post.table.backend.data@) is None,
        image_section_num(post.table.backend.data@) == post.main_header.section_num,
        image_section_num(post.table.backend.data@) == pre.table.sections@.len(),
        image_chksum(post.table.backend.data@) == post.main_header.chksum,
{
    let data = pre.table.backend.data@;
    let tm = pre.table.modified;
    let entries = pre.table.sections@;
    let n = entries.len();
    let headers = saved_headers(data, tm, entries);
    let blobs = saved_blobs(data, tm, entries);
    let main = post.main_header;
    let img = post.table.backend.data@;
    assert(img == image(main, headers, blobs));
    lemma_main_header_round_trip(main);
    let mb = main_header_bytes(main);
    assert(img.subrange(0, SIZE_MAIN_HEADER as int) =~= mb);
    assert(img.subrange(32, 36) =~= mb.subrange(32, 36));
    assert(img.subrange(36, 40) =~= mb.subrange(36, 40));
    assert(mb.subrange(0, 3) == main.signature@);
    assert(img[0] == mb.subrange(0, 3)[0]);
    assert(img[1] == mb.subrange(0, 3)[1]);
    assert(img[2] == mb.subrange(0, 3)[2]);
    assert(img[3] == mb[3]);
    assert(image_section_num(img) == n);
    assert(image_chksum(img) == table_checksum(headers));
    if n > 0 {
        lemma_image_record(main, headers, blobs, 0);
        lemma_image_blob(main, headers, blobs, 0);
    }
    lemma_image_checksum(main, headers, blobs, n);
    assert(headers.take(n as int) =~= headers);
}

/// A saved container reads back as it was written. Its byte image opens; the
/// container that opening gives has the main header, the number of sections
/// and the section headers that the save left. The backend holds for each
/// section the bytes that the save stored for it. So a section that was not
/// written anew reads as it read before the save. A section that was written
/// anew has a header with the size and the checksum of its payload, and
/// reads as its payload: always where it is stored uncompressed, and where it
/// is stored compressed as far as the codec gives a payload back from its
/// stored form.
pub proof fn lemma_save_then_open(pre: Container, post: Container, reopened: Container)
    requires
        pre.wf(),
        has_signature(pre.main_header.signature@),
        known_version(pre.main_header.version),
        Container::saved(pre, post),
        Container::opened(post.table.backend.data@, reopened),
    ensures
        open_fault(post.table.backend.data@) is None,
        reopened.main_header == post.main_header,
        reopened.table.count == post.table.count,
        reopened.headers() == post.headers(),
        forall|i: int|
            0 <= i < pre.table.sections@.len() ==> stored_region(
                post.table.backend.data@,
                #[trigger] post.headers()[i],
            ) == Ok::<Seq<u8>, Error>(
                saved_blob(pre.table.backend.data@, pre.table.modified, pre.table.sections@[i]),
            ),
        forall|i: int|
            0 <= i < pre.table.sections@.len() && !rewritten(
                pre.table.modified,
                pre.table.sections@[i],
            ) ==> section_payload(post.table.backend.data@, #[trigger] post.headers()[i])
                == section_payload(pre.table.backend.data@, pre.table.sections@[i].header),
        forall|i: int|
            0 <= i < pre.table.sections@.len() && rewritten(
                pre.table.modified,
                pre.table.sections@[i],
            ) ==> {
                let h = #[trigger] post.headers()[i];
                let payload = pre.table.sections@[i].data->Some_0.contents();
                &&& h.size == payload.len()
                &&& h.chksum == payload_checksum(uses_crc(h.flags), payload)
                &&& h.flags == rewrite_flags(pre.table.sections@[i])
                &&& stored_region(post.table.backend.data@, h) == Ok::<Seq<u8>, Error>(
                    encoded(h.flags, payload),
                )
                &&& codec_of(h.flags) is None ==> section_payload(post.table.backend.data@, h)
                    == Ok::<Seq<u8>, Error>(payload)
                &&& codec_of(h.flags) is Some && round_trips(codec_of(h.flags)->Some_0, payload)
                    ==> section_payload(post.table.backend.data@, h) == Ok::<Seq<u8>, Error>(
                    payload,
                )
            },
{
    let data = pre.table.backend.data@;
    let tm = pre.table.modified;
    let entries = pre.table.sections@;
    let n = entries.len();
    let headers = saved_headers(data, tm, entries);
    let blobs = saved_blobs(data, tm, entries);
    let main = post.main_header;
    let img = post.table.backend.data@;
    assert(img == image(main, headers, blobs));
    assert(post.headers() =~= headers);
    lemma_saved_opens(pre, post);
    lemma_main_header_round_trip(main);
    assert(img.subrange(0, SIZE_MAIN_HEADER as int) =~= main_header_bytes(main));
    lemma_main_header_ext(reopened.main_header, main);
    assert forall|i: int| 0 <= i < n implies parsed_headers(img, SIZE_MAIN_HEADER as int, n)[i]
        == headers[i] by {
        lemma_image_record(main, headers, blobs, i);
    }
    assert(parsed_headers(img, SIZE_MAIN_HEADER as int, n) =~= headers);
    assert(reopened.headers() =~= headers);
    assert forall|i: int| 0 <= i < n implies stored_region(img, #[trigger] post.headers()[i])
        == Ok::<Seq<u8>, Error>(saved_blob(data, tm, entries[i])) by {
        lemma_region_of_saved(pre, post, i);
    }
    assert forall|i: int| 0 <= i < n && !rewritten(tm, entries[i]) implies section_payload(
        img,
        #[trigger] post.headers()[i],
    ) == section_payload(data, entries[i].header) by {
        lemma_region_of_saved(pre, post, i);
        lemma_no_fault(data, tm, entries, i);
        lemma_payload_by_region(img, headers[i], data, entries[i].header);
    }
    assert forall|i: int| 0 <= i < n && rewritten(tm, entries[i]) implies {
        let h = #[trigger] post.headers()[i];
        let payload = entries[i].data->Some_0.contents();
        &&& h.size == payload.len()
        &&& h.chksum == payload_checksum(uses_crc(h.flags), payload)
        &&& h.flags == rewrite_flags(entries[i])
        &&& stored_region(img, h) == Ok::<Seq<u8>, Error>(encoded(h.flags, payload))
        &&& codec_of(h.flags) is None ==> section_payload(img, h) == Ok::<Seq<u8>, Error>(payload)
        &&& codec_of(h.flags) is Some && round_trips(codec_of(h.flags)->Some_0, payload)
            ==> section_payload(img, h) == Ok::<Seq<u8>, Error>(payload)
    } by {
        lemma_region_of_saved(pre, post, i);
        lemma_no_fault(data, tm, entries, i);
        lemma_write_then_read(img, headers[i], entries[i].data->Some_0.contents());
    }
}

/// After a save the backend holds for each section the bytes that the save
/// stored for it, where the section's new header points.
pub proof fn lemma_region_of_saved(pre: Container, post: Container, i: int)
    requires
        pre.wf(),
        Container::saved(pre, post),
        0 <= i < pre.table.sections@.len(),
    ensures
        stored_region(post.table.backend.data@, post.headers()[i]) == Ok::<Seq<u8>, Error>(
            saved_blob(pre.table.backend.data@, pre.table.modified, pre.table.sections@[i]),
        ),
        post.headers()[i] == saved_headers(
            pre.table.backend.data@,
            pre.table.modified,
            pre.table.sections@,
        )[i],
{
    let data = pre.table.backend.data@;
    let tm = pre.table.modified;
    let entries = pre.table.sections@;
    let headers = saved_headers(data, tm, entries);
    let blobs = saved_blobs(data, tm, entries);
    let img = post.table.backend.data@;
    let e = entries[i];
    let h = headers[i];
    lemma_image_blob(post.main_header, headers, blobs, i);
    lemma_no_fault(data, tm, entries, i);
    lemma_concat_region(blobs, i);
    let off = blob_offset(blobs, i);
    assert(off + blobs[i].len() <= saved_len(data, tm, entries));
    assert(h.pointer == off);
    assert(blobs[i] == saved_blob(data, tm, e));
    assert(img.subrange(off as int, (off + blobs[i].len()) as int) == blobs[i]);
    assert(off + blobs[i].len() <= img.len());
    assert(blobs[i].len() <= u32::MAX);
    if rewritten(tm, e) {
        let payload = e.data->Some_0.contents();
        assert(payload.len() <= u32::MAX);
        assert(h.size == payload.len());
        assert(h.csize == blobs[i].len());
        if codec_of(h.flags) is None {
            assert(blobs[i] == payload);
            if h.size == 0 {
                assert(blobs[i] =~= Seq::<u8>::empty());
            }
        }
    } else {
        assert(stored_region(data, e.header) is Ok);
        assert(h.flags == e.header.flags);
        assert(h.size == e.header.size);
        assert(h.csize == e.header.csize);
        if codec_of(h.flags) is None {
            if h.size == 0 {
                assert(blobs[i] =~= Seq::<u8>::empty());
            } else {
                assert(blobs[i].len() == h.size);
            }
        } else {
            assert(blobs[i].len() == h.csize);
        }
    }
}

/// Every section of a table has an index below the number of sections, and
/// the indices of all sections are the numbers from 0 up to that number, each
/// once.
pub proof fn lemma_indices_dense(table: SectionTable)
    requires
        table.wf(),
    ensures
        forall|h: Handle|
            table.contains(h) ==> 0 <= (#[trigger] table.entry(h)).index < table.count,
        table.indices() == Seq::new(table.count as nat, |i: int| i as u32),
        table.indices().to_multiset() == Seq::new(table.count as nat, |i: int| i as u32).to_multiset(),
{
    assert forall|h: Handle| table.contains(h) implies 0 <= (#[trigger] table.entry(h)).index
        < table.count by {
        let p = table.position(h);
        assert(table.sections@[p].index == p);
    }
    assert(table.indices() =~= Seq::new(table.count as nat, |i: int| i as u32));
}

/// A handle that `create` gives is greater than every handle of the table,
/// and the handles that the table gives from then on are greater than it:
/// no handle is given twice.
pub proof fn lemma_created_handle_is_fresh(
    pre: SectionTable,
    header: SectionHeader,
    post: SectionTable,
    handle: Handle,
)
    requires
        pre.wf(),
        SectionTable::created(pre, header, post, handle),
    ensures
        forall|g: Handle| pre.contains(g) ==> g.0 < handle.0,
        handle.0 < post.next_handle,
        pre.next_handle < post.next_handle,
{
    assert forall|g: Handle| pre.contains(g) implies g.0 < handle.0 by {
        let i = pre.position(g);
        assert(pre.sections@[i].handle < pre.next_handle);
    }
}

/// Creating a section and removing it again leaves the sections and their
/// number as they were, and the table marked as modified.
pub proof fn lemma_create_then_remove(
    start: SectionTable,
    header: SectionHeader,
    middle: SectionTable,
    handle: Handle,
    end: SectionTable,
)
    requires
        start.wf(),
        middle.wf(),
        SectionTable::created(start, header, middle, handle),
        SectionTable::removed(middle, handle, end),
    ensures
        end.count == start.count,
        end.sections@ == start.sections@,
        end.modified,
        start.count == 0 ==> end.count == 0 && end.sections@.len() == 0,
{
    middle.lemma_position_unique(handle, start.count as int);
    assert forall|j: int| 0 <= j < start.sections@.len() implies end.sections@[j]
        == start.sections@[j] by {
        assert(middle.sections@.subrange(0, start.sections@.len() as int)[j]
            == middle.sections@[j]);
    }
    assert(end.sections@ =~= start.sections@);
}

/// A payload that was loaded and given back is handed out again as it was
/// given back, and the backend is not read again.
pub proof fn lemma_load_twice(
    start: SectionTable,
    handle: Handle,
    first: AutoSectionData,
    loaded: SectionTable,
    back: AutoSectionData,
    released: SectionTable,
    end: SectionTable,
    second: Result<AutoSectionData, Error>,
)
    requires
        start.wf(),
        loaded.wf(),
        released.wf(),
        start.contains(handle),
        SectionTable::load_outcome(start, handle, loaded, Ok(first)),
        SectionTable::release_outcome(loaded, handle, back, released, Ok(())),
        SectionTable::load_outcome(released, handle, end, second),
    ensures
        second == Ok::<AutoSectionData, Error>(back),
        end.backend == released.backend,
        end.backend.data@ == start.backend.data@,
{
    let p = start.position(handle);
    loaded.lemma_position_unique(handle, p);
    released.lemma_position_unique(handle, p);
}

/// While a payload is handed out, a second `load` of the same section is
/// refused, and so is `open`.
pub proof fn lemma_load_while_in_use(
    start: SectionTable,
    handle: Handle,
    first: AutoSectionData,
    loaded: SectionTable,
    end: SectionTable,
    second: Result<AutoSectionData, Error>,
)
    requires
        start.wf(),
        loaded.wf(),
        start.contains(handle),
        SectionTable::load_outcome(start, handle, loaded, Ok(first)),
        SectionTable::load_outcome(loaded, handle, end, second) || SectionTable::open_outcome(
            loaded,
            handle,
            end,
            second,
        ),
    ensures
        second == Err::<AutoSectionData, Error>(Error::SectionInUse),
        end == loaded,
{
    let p = start.position(handle);
    loaded.lemma_position_unique(handle, p);
}

/// What `load` hands out of a section of a container that was saved and
/// opened again. The handles of the opened container are the places of the
/// sections. A section that the save did not write anew loads as it loaded
/// before the save. A section that the save wrote anew loads as the payload
/// that it held at the save, with the size that its header gives: always
/// where it is stored uncompressed, and where it is stored compressed as far
/// as the codec gives the payload back from its stored form.
pub proof fn lemma_load_after_reopen(
    pre: Container,
    post: Container,
    reopened: Container,
    handle: Handle,
    after: SectionTable,
    r: Result<AutoSectionData, Error>,
)
    requires
        pre.wf(),
        has_signature(pre.main_header.signature@),
        known_version(pre.main_header.version),
        Container::saved(pre, post),
        Container::opened(post.table.backend.data@, reopened),
        handle.0 < pre.table.sections@.len(),
        SectionTable::load_outcome(reopened.table, handle, after, r),
    ensures
        reopened.table.contains(handle),
        reopened.table.position(handle) == handle.0,
        reopened.table.entry(handle).header == post.headers()[handle.0 as int],
        !rewritten(pre.table.modified, pre.table.sections@[handle.0 as int]) ==> match section_payload(
            pre.table.backend.data@,
            pre.table.sections@[handle.0 as int].header,
        ) {
            Ok(payload) => r matches Ok(d) && d.contents() == payload,
            Err(e) => r == Err::<AutoSectionData, Error>(e),
        },
        rewritten(pre.table.modified, pre.table.sections@[handle.0 as int]) ==> {
            let e = pre.table.sections@[handle.0 as int];
            let payload = e.data->Some_0.contents();
            let codec = codec_of(rewrite_flags(e));
            (codec is None || round_trips(codec->Some_0, payload)) ==> (r matches Ok(d)
                && d.contents() == payload
                && d.contents().len() == post.headers()[handle.0 as int].size)
        },
{
    let i = handle.0 as int;
    lemma_save_then_open(pre, post, reopened);
    let h = post.headers()[i];
    assert(reopened.headers()[i] == h);
    assert(reopened.table.sections@[i].handle == handle.0);
    reopened.table.lemma_position_unique(handle, i);
    assert(reopened.table.sections@[i].data is None);
    assert(!reopened.table.sections@[i].in_use);
}

/// After a section was removed and the container was saved and opened
/// again, the opened container has one section less, and the section at each
/// place is the one that stood there after the removal: a section from
/// behind the removed one stands one place up. Each section whose payload
/// was held at the save loads as that payload: always where it is stored
/// uncompressed, and where it is stored compressed as far as the codec
/// gives the payload back from its stored form.
pub proof fn lemma_reopen_after_remove(
    start: SectionTable,
    gone: Handle,
    pre: Container,
    post: Container,
    reopened: Container,
    handle: Handle,
    after: SectionTable,
    r: Result<AutoSectionData, Error>,
)
    requires
        start.wf(),
        start.contains(gone),
        pre.wf(),
        has_signature(pre.main_header.signature@),
        known_version(pre.main_header.version),
        SectionTable::removed(start, gone, pre.table),
        Container::saved(pre, post),
        Container::opened(post.table.backend.data@, reopened),
        handle.0 < pre.table.sections@.len(),
        SectionTable::load_outcome(reopened.table, handle, after, r),
    ensures
        reopened.table.count == start.count - 1,
        reopened.main_header.section_num == start.count - 1,
        ({
            let from = if handle.0 < start.position(gone) {
                handle.0 as int
            } else {
                handle.0 + 1
            };
            let e = start.sections@[from];
            let codec = codec_of(rewrite_flags(e));
            &&& reopened.table.entry(handle).header.ty == e.header.ty
            &&& reopened.table.entry(handle).index == handle.0
            &&& e.data is Some && (codec is None || round_trips(
                codec->Some_0,
                e.data->Some_0.contents(),
            )) ==> (r matches Ok(d) && d.contents() == e.data->Some_0.contents())
        }),
{
    let i = handle.0 as int;
    lemma_load_after_reopen(pre, post, reopened, handle, after, r);
    lemma_save_then_open(pre, post, reopened);
    let h = post.headers()[i];
    assert(reopened.table.sections@[i].index == i);
}

/// A payload larger than the default threshold loads into a buffer that
/// counts as spilled, holds the payload byte for byte, and stands at its
/// first byte. A read at a position within the buffer gives the bytes from
/// there on, as many as asked for or as there are; a read at its end gives
/// nothing.
pub proof fn lemma_large_payload_loads(data: Seq<u8>, h: SectionHeader, pos: nat, max: nat)
    requires
        section_payload(data, h) is Ok,
    ensures
        ({
            let payload = section_payload(data, h)->Ok_0;
            let loaded = crate::container::data::auto::loaded_view(payload, h.size);
            &&& loaded.content == payload
            &&& loaded.pos == 0
            &&& payload.len() > crate::container::data::auto::MEMORY_THRESHOLD ==> loaded.spilled
            &&& pos + max <= payload.len() ==> crate::utils::readable(payload, pos, max)
                == payload.subrange(pos as int, (pos + max) as int)
            &&& pos <= payload.len() && pos + max > payload.len() ==> crate::utils::readable(
                payload,
                pos,
                max,
            ) == payload.subrange(pos as int, payload.len() as int)
            &&& pos >= payload.len() ==> crate::utils::readable(payload, pos, max).len() == 0
        }),
{
    let payload = section_payload(data, h)->Ok_0;
    if pos < payload.len() && pos + max == payload.len() {
        assert(crate::utils::readable(payload, pos, max) =~= payload.subrange(
            pos as int,
            (pos + max) as int,
        ));
    }
    if pos == payload.len() {
        assert(payload.subrange(pos as int, payload.len() as int).len() == 0);
    }
}

/// Creating a section keeps the indices dense: the new section takes the
/// place behind the last one, and every other section keeps its handle, its
/// header and its index.
pub proof fn lemma_create_keeps_indices(
    pre: SectionTable,
    header: SectionHeader,
    post: SectionTable,
    handle: Handle,
)
    requires
        pre.wf(),
        post.wf(),
        SectionTable::created(pre, header, post, handle),
    ensures
        post.count == pre.count + 1,
        post.contains(handle) && post.entry(handle).index == pre.count,
        post.indices() == pre.indices().push(pre.count),
        forall|g: Handle|
            pre.contains(g) ==> post.contains(g) && (#[trigger] post.entry(g)).index == pre.entry(
                g,
            ).index && post.entry(g).header == pre.entry(g).header,
{
    post.lemma_position_unique(handle, pre.count as int);
    assert forall|j: int| 0 <= j < pre.sections@.len() implies post.sections@[j]
        == pre.sections@[j] by {
        assert(post.sections@.subrange(0, pre.sections@.len() as int)[j] == post.sections@[j]);
    }
    assert(post.indices() =~= pre.indices().push(pre.count));
    assert forall|g: Handle| pre.contains(g) implies post.contains(g) && (#[trigger] post.entry(
        g,
    )).index == pre.entry(g).index && post.entry(g).header == pre.entry(g).header by {
        let j = pre.position(g);
        post.lemma_position_unique(g, j);
    }
}

} // verus!
