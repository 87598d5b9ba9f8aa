//! Reading the objects of a package.

use vstd::prelude::*;
use crate::container::data::auto::{loaded_view, DataView};
use crate::container::decoder::section_payload;
use crate::container::section::{SectionEntry, SectionTable};
use crate::container::Container;
use crate::error::Error;
use crate::package::error::{EosContext, InvalidCodeContext, ReadError};
use crate::package::object::{parse_object_header, ObjectHeader, SIZE_OBJECT_HEADER};
use crate::package::{Architecture, Platform};
use crate::strings::payload_set;
use crate::table::ItemTable;
use crate::utils::{extend_bytes, readable, SeekFrom};
use crate::Handle;

verus! {

/// The number of bytes that the bytes of an object are copied by.
pub const DATA_READ_BUFFER_SIZE: usize = 8192;

/// The architecture that a code names, if it names one.
pub open spec fn arch_of(code: u8) -> Option<Architecture> {
    if code == 0 {
        Some(Architecture::X86_64)
    } else if code == 1 {
        Some(Architecture::Aarch64)
    } else if code == 2 {
        Some(Architecture::X86)
    } else if code == 3 {
        Some(Architecture::Armv7hl)
    } else if code == 4 {
        Some(Architecture::Any)
    } else {
        None
    }
}

/// The platform that a code names, if it names one.
pub open spec fn platform_of(code: u8) -> Option<Platform> {
    if code == 0 {
        Some(Platform::Linux)
    } else if code == 1 {
        Some(Platform::Mac)
    } else if code == 2 {
        Some(Platform::Windows)
    } else if code == 3 {
        Some(Platform::Android)
    } else if code == 4 {
        Some(Platform::Any)
    } else {
        None
    }
}

/// The architecture and the platform that the two codes of a package header
/// name. An unknown architecture code is reported before an unknown platform
/// code.
pub fn get_arch_platform_from_code(acode: u8, pcode: u8) -> (r: Result<
    (Architecture, Platform),
    ReadError,
>)
    ensures
        arch_of(acode) is None ==> r == Err::<(Architecture, Platform), ReadError>(
            ReadError::InvalidCode(InvalidCodeContext::Arch, acode),
        ),
        arch_of(acode) is Some && platform_of(pcode) is None ==> r == Err::<
            (Architecture, Platform),
            ReadError,
        >(ReadError::InvalidCode(InvalidCodeContext::Platform, pcode)),
        arch_of(acode) is Some && platform_of(pcode) is Some ==> r == Ok::<
            (Architecture, Platform),
            ReadError,
        >((arch_of(acode)->Some_0, platform_of(pcode)->Some_0)),
{
    let arch;
    let platform;
    match acode {
        0x0 => arch = Architecture::X86_64,
        0x1 => arch = Architecture::Aarch64,
        0x2 => arch = Architecture::X86,
        0x3 => arch = Architecture::Armv7hl,
        0x4 => arch = Architecture::Any,
        _ => return Err(ReadError::InvalidCode(InvalidCodeContext::Arch, acode)),
    }
    match pcode {
        0x0 => platform = Platform::Linux,
        0x1 => platform = Platform::Mac,
        0x2 => platform = Platform::Windows,
        0x3 => platform = Platform::Android,
        0x4 => platform = Platform::Any,
        _ => return Err(ReadError::InvalidCode(InvalidCodeContext::Platform, pcode)),
    }
    Ok((arch, platform))
}

/// What the payload of a section holds when `load` hands it out: what the
/// payload holds that is held, or else the loaded payload that the backend
/// holds for the section.
pub open spec fn entry_view(backend: Seq<u8>, e: SectionEntry) -> DataView {
    match e.data {
        Some(d) => d@,
        None => loaded_view(section_payload(backend, e.header)->Ok_0, e.header.size),
    }
}

/// The content of a section as `load` hands it out: refused while the
/// payload is handed out, the payload that is held, or else the payload that
/// the backend holds for the section.
pub open spec fn entry_content(backend: Seq<u8>, e: SectionEntry) -> Result<Seq<u8>, Error> {
    if e.in_use {
        Err(Error::SectionInUse)
    } else {
        match e.data {
            Some(d) => Ok(d.contents()),
            None => section_payload(backend, e.header),
        }
    }
}

/// True where `post` has the sections, the backend's data and the marks of `pre`.
pub open spec fn table_kept(pre: SectionTable, post: SectionTable) -> bool {
    &&& post.sections@ == pre.sections@
    &&& post.backend.data@ == pre.backend.data@
    &&& post.count == pre.count
    &&& post.next_handle == pre.next_handle
    &&& post.modified == pre.modified
}

/// True where `post` has the marks and the backend's data of `pre`, and its
/// sections from place `from` on.
pub open spec fn table_kept_from(pre: SectionTable, post: SectionTable, from: int) -> bool {
    &&& post.sections@.len() == pre.sections@.len()
    &&& forall|j: int|
        from <= j < pre.sections@.len() && 0 <= j ==> #[trigger] post.sections@[j]
            == pre.sections@[j]
    &&& post.backend.data@ == pre.backend.data@
    &&& post.count == pre.count
    &&& post.next_handle == pre.next_handle
    &&& post.modified == pre.modified
}

/// Reading in two steps, the first of which got all it asked for, is reading
/// in one.
pub proof fn lemma_readable_append(data: Seq<u8>, pos: nat, a: nat, b: nat)
    requires
        readable(data, pos, a).len() == a,
    ensures
        readable(data, pos, a) + readable(data, pos + a, b) == readable(data, pos, a + b),
{
    assert(readable(data, pos, a) + readable(data, pos + a, b) =~= readable(data, pos, a + b));
}

/// A read that got less than it asked for got all there was.
pub proof fn lemma_readable_short(data: Seq<u8>, pos: nat, a: nat, b: nat)
    requires
        readable(data, pos, a).len() < a,
    ensures
        readable(data, pos, a) == readable(data, pos, a + b),
{
}

/// Copies up to `size` bytes of a section's content, from `offset` on, to
/// the end of `out`, and gives the number of bytes copied: fewer than `size`
/// only where the content ends before. The section is loaded first where it
/// was not.
pub fn load_from_section(
    container: &mut Container,
    handle: Handle,
    offset: u32,
    size: u32,
    out: &mut Vec<u8>,
) -> (r: Result<u32, ReadError>)
    requires
        old(container).wf(),
        old(container).table.contains(handle),
    ensures
        final(container).wf(),
        final(container).main_header == old(container).main_header,
        final(container).poisoned == old(container).poisoned,
        match entry_content(
            old(container).table.backend.data@,
            old(container).table.entry(handle),
        ) {
            Err(err) => r == Err::<u32, ReadError>(ReadError::Section(err))
                && final(out)@ == old(out)@
                && table_kept(old(container).table, final(container).table),
            Ok(content) => {
                let chunk = readable(content, offset as nat, size as nat);
                &&& r == Ok::<u32, ReadError>(chunk.len() as u32)
                &&& final(out)@ == old(out)@ + chunk
                &&& payload_set(
                    old(container).table,
                    handle,
                    final(container).table,
                    (DataView {
                        pos: (offset + chunk.len()) as nat,
                        ..entry_view(
                            old(container).table.backend.data@,
                            old(container).table.entry(handle),
                        )
                    }),
                )
            },
        },
{
    let mut data = match container.table.load(handle) {
        Ok(d) => d,
        Err(e) => {
            proof {
                let p = old(container).table.position(handle);
                assert(old(container).table.sections@.update(p, old(container).table.sections@[p])
                    =~= old(container).table.sections@);
            }
            return Err(ReadError::Section(e));
        },
    };
    let ghost p = old(container).table.position(handle);
    let ghost content = data.contents();
    let ghost held = data@;
    proof {
        container.table.lemma_position_unique(handle, p);
        assert(old(container).table.sections@[p].wf());
    }
    match data.seek(SeekFrom::Start(offset as u64)) {
        Ok(_) => {},
        Err(_) => {
            assert(false);
        },
    }
    let mut len: u32 = 0;
    let mut at_end = false;
    assert(readable(content, offset as nat, 0) =~= Seq::<u8>::empty());
    assert(out@ + Seq::<u8>::empty() =~= out@);
    while len < size && !at_end
        invariant
            len <= size,
            data.wf(),
            data.contents() == content,
            data.threshold == held.threshold,
            data.spilled == held.spilled,
            data.pos() == offset + len,
            out@ == old(out)@ + readable(content, offset as nat, len as nat),
            readable(content, offset as nat, len as nat).len() == len,
            at_end ==> readable(content, offset as nat, len as nat) == readable(
                content,
                offset as nat,
                size as nat,
            ),
        decreases size - len + (if at_end { 0int } else { 1int }),
    {
        let s = if size - len < DATA_READ_BUFFER_SIZE as u32 {
            size - len
        } else {
            DATA_READ_BUFFER_SIZE as u32
        };
        let block = data.read(s as usize);
        proof {
            lemma_readable_append(content, offset as nat, len as nat, s as nat);
            if block@.len() < s {
                lemma_readable_short(content, offset as nat, (len + s) as nat, (size - len - s) as nat);
            }
            assert(old(out)@ + readable(content, offset as nat, len as nat) + block@ =~= old(out)@
                + (readable(content, offset as nat, len as nat) + block@));
        }
        extend_bytes(out, block.as_slice());
        if block.len() < s as usize {
            at_end = true;
        }
        len = len + block.len() as u32;
    }
    let back = container.table.release(handle, data);
    assert(back is Ok);
    Ok(len)
}

/// The smaller of what is left of a section and what is left of an object.
pub open spec fn wanted(section_size: u32, offset: u32, len: u64) -> nat {
    if (section_size - offset) as u64 <= len {
        (section_size - offset) as nat
    } else {
        len as nat
    }
}

/// The bytes of an object of `len` bytes that begins at `offset` of section
/// `id` and goes on through the sections behind it, and what stopped the
/// copy, if anything did: `Eos` where the object begins behind the end that
/// its section's header gives, or the error of the first section that cannot
/// be loaded. The copy ends without error where the sections end.
pub open spec fn object_bytes(
    backend: Seq<u8>,
    entries: Seq<SectionEntry>,
    id: nat,
    offset: u32,
    len: u64,
) -> (Seq<u8>, Option<ReadError>)
    decreases entries.len() - id,
{
    if len == 0 || id >= entries.len() {
        (Seq::empty(), None)
    } else if offset > entries[id as int].header.size {
        (Seq::empty(), Some(ReadError::Eos(EosContext::Object)))
    } else {
        match entry_content(backend, entries[id as int]) {
            Err(err) => (Seq::empty(), Some(ReadError::Section(err))),
            Ok(content) => {
                let chunk = readable(
                    content,
                    offset as nat,
                    wanted(entries[id as int].header.size, offset, len),
                );
                let rest = object_bytes(
                    backend,
                    entries,
                    id + 1,
                    0,
                    (len - chunk.len()) as u64,
                );
                (chunk + rest.0, rest.1)
            },
        }
    }
}

/// True where the copy of an object that reaches a section at `offset` reads
/// from it: the offset lies within the size that the section's header
/// gives, and the section's content is handed out.
pub open spec fn is_read(backend: Seq<u8>, e: SectionEntry, offset: u32) -> bool {
    offset <= e.header.size && entry_content(backend, e) is Ok
}

/// The bytes that the copy of an object takes from a section that it reaches
/// at `offset` with `len` bytes to go.
pub open spec fn chunk_of(backend: Seq<u8>, e: SectionEntry, offset: u32, len: u64) -> Seq<u8> {
    readable(entry_content(backend, e)->Ok_0, offset as nat, wanted(e.header.size, offset, len))
}

/// How the copy of an object of `len` bytes that begins at `offset` of
/// section `start` reaches section `j`: the offset at which it reads there
/// and the bytes that it has to go, or nothing where it ends before.
pub open spec fn reached(
    backend: Seq<u8>,
    entries: Seq<SectionEntry>,
    start: nat,
    offset: u32,
    len: u64,
    j: nat,
) -> Option<(u32, u64)>
    decreases j,
{
    if j < start || j >= entries.len() {
        None
    } else if j == start {
        if len > 0 {
            Some((offset, len))
        } else {
            None
        }
    } else {
        match reached(backend, entries, start, offset, len, (j - 1) as nat) {
            None => None,
            Some((o, l)) => {
                let e = entries[j - 1];
                if is_read(backend, e, o) && l - chunk_of(backend, e, o, l).len() > 0 {
                    Some((0u32, (l - chunk_of(backend, e, o, l).len()) as u64))
                } else {
                    None
                }
            },
        }
    }
}

/// Where the copy of an object does not reach a section, it reaches none
/// behind it.
pub proof fn lemma_reached_none(
    backend: Seq<u8>,
    entries: Seq<SectionEntry>,
    start: nat,
    offset: u32,
    len: u64,
    k: nat,
    j: nat,
)
    requires
        start <= k <= j,
        reached(backend, entries, start, offset, len, k) is None,
    ensures
        reached(backend, entries, start, offset, len, j) is None,
    decreases j - k,
{
    if k < j {
        lemma_reached_none(backend, entries, start, offset, len, k, (j - 1) as nat);
    }
}

/// True where `f` is the entry `e` after its payload was read and given
/// back: marked as modified, holding a payload with the given view.
pub open spec fn read_entry(e: SectionEntry, f: SectionEntry, view: DataView) -> bool {
    &&& f.entry1 == e.entry1
    &&& f.header == e.header
    &&& f.index == e.index
    &&& f.handle == e.handle
    &&& f.modified
    &&& !f.in_use
    &&& f.data matches Some(d) && d@ == view
}

/// What the copy of an object leaves of a section: a section that it read
/// from is marked as modified, and its payload is loaded and stands behind
/// the bytes taken; every other section is as it was.
pub open spec fn section_after(
    backend: Seq<u8>,
    e: SectionEntry,
    f: SectionEntry,
    reach: Option<(u32, u64)>,
) -> bool {
    match reach {
        Some((o, l)) => if is_read(backend, e, o) {
            read_entry(
                e,
                f,
                (DataView {
                    pos: (o + chunk_of(backend, e, o, l).len()) as nat,
                    ..entry_view(backend, e)
                }),
            )
        } else {
            f == e
        },
        None => f == e,
    }
}

/// What the copy of an object leaves of a table, as far as the copy has come:
/// the sections before place `upto` are as the copy leaves them, the others
/// as they were.
#[verifier::opaque]
pub open spec fn unpacked_upto(
    pre: SectionTable,
    post: SectionTable,
    obj: ObjectHeader,
    upto: int,
) -> bool {
    &&& post.count == pre.count
    &&& post.next_handle == pre.next_handle
    &&& post.modified == pre.modified
    &&& post.backend.data@ == pre.backend.data@
    &&& post.sections@.len() == pre.sections@.len()
    &&& forall|j: int|
        #![trigger post.sections@[j]]
        #![trigger pre.sections@[j]]
        0 <= j < pre.sections@.len() ==> if j < upto {
            section_after(
                pre.backend.data@,
                pre.sections@[j],
                post.sections@[j],
                reached(
                    pre.backend.data@,
                    pre.sections@,
                    obj.start as nat,
                    obj.offset,
                    obj.size,
                    j as nat,
                ),
            )
        } else {
            post.sections@[j] == pre.sections@[j]
        }
}

/// What the copy of an object leaves of a table.
pub open spec fn unpacked(pre: SectionTable, post: SectionTable, obj: ObjectHeader) -> bool {
    unpacked_upto(pre, post, obj, pre.sections@.len() as int)
}

/// Copies the bytes of an object to the end of `out`: from the object's
/// offset in the section where it begins, and on through the sections
/// behind it, until the object's size is reached or the sections end. Gives
/// the object's size.
pub fn unpack_object(container: &mut Container, obj: &ObjectHeader, out: &mut Vec<u8>) -> (r:
    Result<u64, ReadError>)
    requires
        old(container).wf(),
    ensures
        final(container).wf(),
        final(container).main_header == old(container).main_header,
        final(container).poisoned == old(container).poisoned,
        unpacked(old(container).table, final(container).table, *obj),
        final(out)@ == old(out)@ + object_bytes(
            old(container).table.backend.data@,
            old(container).table.sections@,
            obj.start as nat,
            obj.offset,
            obj.size,
        ).0,
        match object_bytes(
            old(container).table.backend.data@,
            old(container).table.sections@,
            obj.start as nat,
            obj.offset,
            obj.size,
        ).1 {
            Some(e) => r == Err::<u64, ReadError>(e),
            None => r == Ok::<u64, ReadError>(obj.size),
        },
{
    let mut section_id = obj.start;
    let mut offset = obj.offset;
    let mut len = obj.size;
    let ghost backend = container.table.backend.data@;
    let ghost entries = container.table.sections@;
    let ghost whole = object_bytes(backend, entries, obj.start as nat, obj.offset, obj.size);
    assert(old(out)@ + Seq::<u8>::empty() =~= old(out)@);
    let ghost mut done: Seq<u8> = Seq::empty();
    let mut ended = false;
    proof {
        lemma_unpacked_begins(container.table, *obj);
        lemma_unpacked_rest(container.table, container.table, *obj, obj.start as int);
    }
    while len > 0 && !ended
        invariant
            container.wf(),
            old(container).wf(),
            obj.start <= section_id,
            container.main_header == old(container).main_header,
            container.poisoned == old(container).poisoned,
            backend == old(container).table.backend.data@,
            entries == old(container).table.sections@,
            unpacked_upto(old(container).table, container.table, *obj, section_id as int),
            table_kept_from(old(container).table, container.table, section_id as int),
            section_id < entries.len() ==> reached(
                backend,
                entries,
                obj.start as nat,
                obj.offset,
                obj.size,
                section_id as nat,
            ) == (if len > 0 {
                Some((offset, len))
            } else {
                None
            }),
            ended ==> section_id >= entries.len(),
            whole == object_bytes(backend, entries, obj.start as nat, obj.offset, obj.size),
            out@ == old(out)@ + done,
            !ended ==> whole.0 == done + object_bytes(
                backend,
                entries,
                section_id as nat,
                offset,
                len,
            ).0,
            !ended ==> whole.1 == object_bytes(backend, entries, section_id as nat, offset, len).1,
            ended ==> whole.0 == done && whole.1 is None,
        decreases
                (if section_id <= entries.len() {
                    entries.len() - section_id
                } else {
                    0int
                }) + (if ended { 0int } else { 1int }),
    {
        let handle = match container.table.find_by_index(section_id) {
            Some(h) => h,
            None => {
                ended = true;
                proof {
                    assert(done + Seq::<u8>::empty() =~= done);
                }
                continue ;
            },
        };
        let ghost before = container.table;
        let ghost at = section_id as int;
        proof {
            before.lemma_position_unique(handle, at);
            assert(before.sections@[at] == entries[at]);
        }
        let section_size = container.table.header(handle).size;
        if offset > section_size {
            proof {
                assert(done + Seq::<u8>::empty() =~= done);
                lemma_unpacked_stops(old(container).table, container.table, *obj, at);
            }
            return Err(ReadError::Eos(EosContext::Object));
        }
        let remaining_section_size = section_size - offset;
        let want = if remaining_section_size as u64 <= len {
            remaining_section_size
        } else {
            len as u32
        };
        let val = match load_from_section(container, handle, offset, want, out) {
            Ok(v) => v,
            Err(e) => {
                proof {
                    assert(done + Seq::<u8>::empty() =~= done);
                    lemma_unpacked_kept(old(container).table, before, container.table, *obj, at);
                    lemma_unpacked_stops(old(container).table, container.table, *obj, at);
                }
                return Err(e);
            },
        };
        proof {
            let content = entry_content(backend, entries[at])->Ok_0;
            let chunk = readable(content, offset as nat, want as nat);
            let rest = object_bytes(backend, entries, (at + 1) as nat, 0, (len - chunk.len()) as u64);
            assert(done + (chunk + rest.0) =~= (done + chunk) + rest.0);
            assert(old(out)@ + done + chunk =~= old(out)@ + (done + chunk));
            done = done + chunk;
            container.table.lemma_position_unique(handle, at);
            lemma_unpacked_reads(
                old(container).table,
                before,
                container.table,
                *obj,
                at,
                offset,
                len,
                handle,
            );
            lemma_unpacked_rest(old(container).table, container.table, *obj, at + 1);
        }
        len = len - val as u64;
        offset = 0;
        section_id = section_id + 1;
    }
    proof {
        if !ended {
            assert(done + Seq::<u8>::empty() =~= done);
        }
        if section_id < entries.len() {
            lemma_unpacked_ends(old(container).table, container.table, *obj, section_id as int);
        } else {
            lemma_unpacked_done(old(container).table, container.table, *obj, section_id as int);
        }
    }
    Ok(obj.size)
}

/// Before the copy of an object begins, the table is as the copy has left it
/// up to the section where the object begins.
pub proof fn lemma_unpacked_begins(pre: SectionTable, obj: ObjectHeader)
    ensures
        unpacked_upto(pre, pre, obj, obj.start as int),
{
    reveal(unpacked_upto);
}

/// As far as the copy of an object has not come, the sections are as they
/// were, and so are the table's marks and the backend's data.
pub proof fn lemma_unpacked_rest(pre: SectionTable, post: SectionTable, obj: ObjectHeader, at: int)
    requires
        unpacked_upto(pre, post, obj, at),
    ensures
        table_kept_from(pre, post, at),
{
    reveal(unpacked_upto);
}

/// A table that was kept is as the copy of an object has left it before.
pub proof fn lemma_unpacked_kept(
    pre: SectionTable,
    mid: SectionTable,
    post: SectionTable,
    obj: ObjectHeader,
    at: int,
)
    requires
        unpacked_upto(pre, mid, obj, at),
        table_kept(mid, post),
    ensures
        unpacked_upto(pre, post, obj, at),
{
    reveal(unpacked_upto);
}

/// Where the copy of an object has come to the end of the table, the table
/// is as the copy leaves it.
pub proof fn lemma_unpacked_done(pre: SectionTable, post: SectionTable, obj: ObjectHeader, at: int)
    requires
        unpacked_upto(pre, post, obj, at),
        at >= pre.sections@.len(),
    ensures
        unpacked(pre, post, obj),
{
    reveal(unpacked_upto);
}

/// Where the copy of an object reads from the section that it has come to,
/// it has come one section further.
pub proof fn lemma_unpacked_reads(
    pre: SectionTable,
    mid: SectionTable,
    post: SectionTable,
    obj: ObjectHeader,
    at: int,
    offset: u32,
    len: u64,
    handle: Handle,
)
    requires
        obj.start <= at < pre.sections@.len(),
        unpacked_upto(pre, mid, obj, at),
        reached(pre.backend.data@, pre.sections@, obj.start as nat, obj.offset, obj.size, at as nat)
            == Some((offset, len)),
        is_read(pre.backend.data@, pre.sections@[at], offset),
        mid.position(handle) == at,
        payload_set(
            mid,
            handle,
            post,
            (DataView {
                pos: (offset + chunk_of(pre.backend.data@, pre.sections@[at], offset, len).len()) as nat,
                ..entry_view(pre.backend.data@, pre.sections@[at])
            }),
        ),
    ensures
        unpacked_upto(pre, post, obj, at + 1),
        at + 1 < pre.sections@.len() ==> reached(
            pre.backend.data@,
            pre.sections@,
            obj.start as nat,
            obj.offset,
            obj.size,
            (at + 1) as nat,
        ) == (if len - chunk_of(pre.backend.data@, pre.sections@[at], offset, len).len() > 0 {
            Some(
                (
                    0u32,
                    (len - chunk_of(pre.backend.data@, pre.sections@[at], offset, len).len()) as u64,
                ),
            )
        } else {
            None
        }),
{
    reveal(unpacked_upto);
    let backend = pre.backend.data@;
    let entries = pre.sections@;
    assert(mid.sections@[at] == entries[at]);
    assert forall|j: int|
        #![trigger post.sections@[j]]
        #![trigger pre.sections@[j]]
        0 <= j < entries.len() implies if j < at + 1 {
        section_after(
            backend,
            entries[j],
            post.sections@[j],
            reached(backend, entries, obj.start as nat, obj.offset, obj.size, j as nat),
        )
    } else {
        post.sections@[j] == entries[j]
    } by {
        if j != at {
            assert(post.sections@[j] == mid.sections@[j]);
        }
    }
}

/// Where the copy of an object does not read from the section that it has
/// come to, and has left that section and those behind it as they were, the
/// table is as the copy leaves it.
pub proof fn lemma_unpacked_stops(pre: SectionTable, post: SectionTable, obj: ObjectHeader, at: int)
    requires
        obj.start <= at < pre.sections@.len(),
        unpacked_upto(pre, post, obj, at),
        reached(pre.backend.data@, pre.sections@, obj.start as nat, obj.offset, obj.size, at as nat)
            matches Some((o, l)) && !is_read(pre.backend.data@, pre.sections@[at], o),
    ensures
        unpacked(pre, post, obj),
{
    reveal(unpacked_upto);
    let backend = pre.backend.data@;
    let entries = pre.sections@;
    assert forall|j: int|
        #![trigger post.sections@[j]]
        #![trigger pre.sections@[j]]
        0 <= j < entries.len() implies section_after(
        backend,
        entries[j],
        post.sections@[j],
        reached(backend, entries, obj.start as nat, obj.offset, obj.size, j as nat),
    ) by {
        if j > at {
            assert(reached(
                backend,
                entries,
                obj.start as nat,
                obj.offset,
                obj.size,
                (at + 1) as nat,
            ) is None);
            lemma_reached_none(
                backend,
                entries,
                obj.start as nat,
                obj.offset,
                obj.size,
                (at + 1) as nat,
                j as nat,
            );
        }
    }
}

/// Where the copy of an object does not reach the section that it has come
/// to, and has left that section and those behind it as they were, the table
/// is as the copy leaves it.
pub proof fn lemma_unpacked_ends(pre: SectionTable, post: SectionTable, obj: ObjectHeader, at: int)
    requires
        obj.start <= at < pre.sections@.len(),
        unpacked_upto(pre, post, obj, at),
        reached(pre.backend.data@, pre.sections@, obj.start as nat, obj.offset, obj.size, at as nat)
            is None,
    ensures
        unpacked(pre, post, obj),
{
    reveal(unpacked_upto);
    let backend = pre.backend.data@;
    let entries = pre.sections@;
    assert forall|j: int|
        #![trigger post.sections@[j]]
        #![trigger pre.sections@[j]]
        0 <= j < entries.len() implies section_after(
        backend,
        entries[j],
        post.sections@[j],
        reached(backend, entries, obj.start as nat, obj.offset, obj.size, j as nat),
    ) by {
        if j >= at {
            lemma_reached_none(
                backend,
                entries,
                obj.start as nat,
                obj.offset,
                obj.size,
                at as nat,
                j as nat,
            );
        }
    }
}

/// The object headers that `count` records of 20 bytes from `pos` on hold.
pub open spec fn table_objects(content: Seq<u8>, pos: nat, count: nat) -> Seq<ObjectHeader> {
    Seq::new(
        count,
        |k: int|
            parse_object_header(
                content.subrange(
                    pos + SIZE_OBJECT_HEADER * k,
                    pos + SIZE_OBJECT_HEADER * k + SIZE_OBJECT_HEADER,
                ),
            ),
    )
}

/// Reads the table of object headers from the section under `object_table`:
/// as many headers as the section's size, by its header, has room for, from
/// the position of the section's payload on. Gives the headers as a table
/// of items, and a copy of them in `objects`. `Eos` where the payload ends
/// before the last header; `objects` then stays as it was.
pub fn read_object_table(
    container: &mut Container,
    objects: &mut Vec<ObjectHeader>,
    object_table: Handle,
) -> (r: Result<ItemTable<ObjectHeader>, ReadError>)
    requires
        old(container).wf(),
        old(container).table.contains(object_table),
    ensures
        final(container).wf(),
        final(container).main_header == old(container).main_header,
        final(container).poisoned == old(container).poisoned,
        ({
            let e = old(container).table.entry(object_table);
            let count = (e.header.size / 20) as nat;
            match entry_content(old(container).table.backend.data@, e) {
                Err(err) => r == Err::<ItemTable<ObjectHeader>, ReadError>(ReadError::Section(err))
                    && table_kept(old(container).table, final(container).table) && final(objects)@
                    == old(objects)@,
                Ok(content) => {
                    let held = entry_view(old(container).table.backend.data@, e);
                    if count > 0 && held.pos + SIZE_OBJECT_HEADER * count > content.len() {
                        &&& r == Err::<ItemTable<ObjectHeader>, ReadError>(
                            ReadError::Eos(EosContext::ObjectTable),
                        )
                        &&& final(objects)@ == old(objects)@
                        &&& payload_set(
                            old(container).table,
                            object_table,
                            final(container).table,
                            (DataView {
                                pos: if held.pos > content.len() {
                                    held.pos
                                } else {
                                    content.len()
                                },
                                ..held
                            }),
                        )
                    } else {
                        &&& r matches Ok(t) && t.list@ == table_objects(content, held.pos, count)
                            && t.map is None && final(objects)@ == t.list@
                        &&& payload_set(
                            old(container).table,
                            object_table,
                            final(container).table,
                            (DataView {
                                pos: (held.pos + SIZE_OBJECT_HEADER * count) as nat,
                                ..held
                            }),
                        )
                    }
                },
            }
        }),
{
    let header_size = container.table.header(object_table).size;
    let count = header_size / 20;
    let mut data = match container.table.load(object_table) {
        Ok(d) => d,
        Err(e) => {
            proof {
                let p = old(container).table.position(object_table);
                assert(old(container).table.sections@.update(p, old(container).table.sections@[p])
                    =~= old(container).table.sections@);
            }
            return Err(ReadError::Section(e));
        },
    };
    let ghost p = old(container).table.position(object_table);
    let ghost content = data.contents();
    let ghost pos = data.pos();
    let ghost held = data@;
    proof {
        container.table.lemma_position_unique(object_table, p);
        assert(old(container).table.sections@[p].wf());
    }
    let mut v: Vec<ObjectHeader> = Vec::new();
    let mut copy: Vec<ObjectHeader> = Vec::new();
    let mut i: u32 = 0;
    let mut short = false;
    while i < count && !short
        invariant
            i <= count,
            data.wf(),
            data.contents() == content,
            data.threshold == held.threshold,
            data.spilled == held.spilled,
            !short ==> data.pos() == pos + SIZE_OBJECT_HEADER * i,
            short ==> data.pos() == (if pos > content.len() {
                pos
            } else {
                content.len()
            }),
            i > 0 ==> pos + SIZE_OBJECT_HEADER * i <= content.len(),
            short ==> count > 0 && pos + SIZE_OBJECT_HEADER * count > content.len(),
            v@ == table_objects(content, pos, i as nat),
            copy@ == v@,
        decreases count - i + (if short { 0int } else { 1int }),
    {
        let block = data.read(SIZE_OBJECT_HEADER);
        if block.len() != SIZE_OBJECT_HEADER {
            short = true;
        } else {
            let header = ObjectHeader::from_bytes(block.as_slice());
            v.push(header);
            copy.push(header);
            assert(v@ =~= table_objects(content, pos, (i + 1) as nat));
            i += 1;
        }
    }
    let back = container.table.release(object_table, data);
    assert(back is Ok);
    if short {
        return Err(ReadError::Eos(EosContext::ObjectTable));
    }
    *objects = copy;
    Ok(ItemTable::new(v))
}

} // verus!
