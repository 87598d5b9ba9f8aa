//! Helpers for sections that hold strings, each ended by a zero byte.

use vstd::prelude::*;
use vstd::utf8::{decode_utf8, valid_utf8};
use vstd::string::StringSliceAdditionalSpecFns;
use std::collections::HashMap;
use crate::container::data::auto::{loaded_view, AutoSectionData, DataView};
use crate::container::section::{SectionEntry, SectionTable};
use crate::container::Container;
use crate::error::{Error, IoFault};
use crate::strings::error::{PathError, ReadError, WriteError};
use crate::utils::{written, SeekFrom};
use crate::Handle;

pub mod error;

verus! {

broadcast use vstd::std_specs::hash::group_hash_axioms;

/// Where the first zero byte at or behind `from` lies, or the length of the
/// content where there is none.
pub open spec fn find_nul(content: Seq<u8>, from: int) -> int
    decreases content.len() - from,
{
    if from < 0 || from >= content.len() {
        content.len() as int
    } else if content[from] == 0 {
        from
    } else {
        find_nul(content, from + 1)
    }
}

/// The string that begins at `ptr`: the UTF-8 text up to the next zero byte.
/// `Eos` where no zero byte follows; `Utf8` where the bytes are no UTF-8.
pub open spec fn string_at(content: Seq<u8>, ptr: nat) -> Result<Seq<char>, ReadError> {
    let end = find_nul(content, ptr as int);
    if end >= content.len() {
        Err(ReadError::Eos)
    } else if !valid_utf8(content.subrange(ptr as int, end)) {
        Err(ReadError::Utf8)
    } else {
        Ok(decode_utf8(content.subrange(ptr as int, end)))
    }
}

/// Where a buffer stands after the string at `ptr` was read: behind the
/// string's zero byte, or, where no zero byte follows, at the end of the
/// content or at `ptr` if that lies behind the end.
pub open spec fn pos_after_read(content: Seq<u8>, ptr: nat) -> nat {
    let end = find_nul(content, ptr as int);
    if end < content.len() {
        (end + 1) as nat
    } else if ptr > content.len() {
        ptr
    } else {
        content.len()
    }
}

/// Calls `String::from_utf8`. Trusted: the bytes become a string exactly
/// where they are well-formed UTF-8, and the string is what they decode to.
#[verifier::external_body]
fn string_from_utf8(bytes: Vec<u8>) -> (r: Option<String>)
    ensures
        r matches Some(s) ==> valid_utf8(bytes@) && s@ == decode_utf8(bytes@),
        r is None ==> !valid_utf8(bytes@),
{
    match String::from_utf8(bytes) {
        Ok(s) => Some(s),
        Err(_) => None,
    }
}

/// Reads the string that begins at `ptr`, byte by byte up to its zero byte.
pub fn low_level_read_string(ptr: u32, string_section: &mut AutoSectionData) -> (r: Result<
    String,
    ReadError,
>)
    requires
        old(string_section).wf(),
    ensures
        final(string_section).wf(),
        final(string_section)@ == (DataView {
            pos: pos_after_read(old(string_section).contents(), ptr as nat),
            ..old(string_section)@
        }),
        match string_at(old(string_section).contents(), ptr as nat) {
            Ok(text) => r matches Ok(s) && s@ == text,
            Err(e) => r == Err::<String, ReadError>(e),
        },
{
    let ghost content = string_section.contents();
    match string_section.seek(SeekFrom::Start(ptr as u64)) {
        Ok(_) => {},
        Err(_) => {
            assert(false);
            return Err(ReadError::Eos);
        },
    }
    let mut curs: Vec<u8> = Vec::new();
    let mut found = false;
    while !found
        invariant
            content == old(string_section).contents(),
            string_section.wf(),
            string_section.contents() == content,
            string_section.threshold == old(string_section).threshold,
            string_section.spilled == old(string_section).spilled,
            !found ==> string_section.pos() == ptr + curs@.len(),
            found ==> string_section.pos() == ptr + curs@.len() + 1,
            curs@.len() > 0 ==> ptr + curs@.len() <= content.len() && curs@ == content.subrange(
                ptr as int,
                ptr + curs@.len(),
            ),
            find_nul(content, ptr as int) == find_nul(content, ptr + curs@.len()),
            found ==> ptr + curs@.len() < content.len() && content[ptr + curs@.len()] == 0,
        decreases content.len() - ptr - curs@.len() + (if found { 0int } else { 1int }),
    {
        let chr = string_section.read(1);
        if chr.len() != 1 {
            return Err(ReadError::Eos);
        }
        if chr[0] == 0 {
            found = true;
        } else {
            curs.push(chr[0]);
            assert(curs@ =~= content.subrange(ptr as int, ptr + curs@.len()));
        }
    }
    proof {
        if curs@.len() == 0 {
            assert(curs@ =~= content.subrange(ptr as int, ptr as int));
        }
    }
    match string_from_utf8(curs) {
        Some(s) => Ok(s),
        None => Err(ReadError::Utf8),
    }
}

/// What writing a string leaves in a buffer: the string's bytes and a zero
/// byte, written at the buffer's position.
pub open spec fn string_written(content: Seq<u8>, pos: nat, text: Seq<u8>) -> Seq<u8> {
    written(content, pos, text + seq![0u8])
}

/// True where a string can be written to a buffer: the buffer's size is an
/// address, and the end of the write fits the machine.
pub open spec fn can_put(d: DataView, text: Seq<u8>) -> bool {
    d.content.len() <= u32::MAX && d.pos + text.len() + 1 <= usize::MAX
}

/// What a buffer holds after a string was written to it: the string's bytes
/// and a zero byte at the position, which stands behind them.
pub open spec fn after_put(d: DataView, text: Seq<u8>) -> DataView {
    DataView {
        content: string_written(d.content, d.pos, text),
        pos: (d.pos + text.len() + 1) as nat,
        threshold: d.threshold,
        spilled: d.spilled || string_written(d.content, d.pos, text).len() > d.threshold,
    }
}

/// Writes a string and its zero byte at the buffer's position, and gives the
/// size that the buffer had before as the string's address. Refused, with
/// nothing written, where that size is no address or the end of the write
/// does not fit the machine.
pub fn low_level_write_string(s: &str, string_section: &mut AutoSectionData) -> (r: Result<
    u32,
    Error,
>)
    requires
        old(string_section).wf(),
    ensures
        final(string_section).wf(),
        !can_put(old(string_section)@, s.spec_bytes()) ==> r == Err::<u32, Error>(
            Error::Io(IoFault::Overflow),
        ) && *final(string_section) == *old(string_section),
        can_put(old(string_section)@, s.spec_bytes()) ==> r == Ok::<u32, Error>(
            old(string_section).contents().len() as u32,
        ) && final(string_section)@ == after_put(old(string_section)@, s.spec_bytes()),
{
    let size = string_section.size();
    if size > u32::MAX as usize {
        return Err(Error::Io(IoFault::Overflow));
    }
    let bytes = s.as_bytes();
    let pos = string_section.inner.byte_buf.position();
    if bytes.len() >= usize::MAX - pos {
        return Err(Error::Io(IoFault::Overflow));
    }
    let ptr = size as u32;
    let ghost content = string_section.contents();
    match string_section.write(bytes) {
        Ok(_) => {},
        Err(e) => {
            assert(false);
            return Err(e);
        },
    }
    let mut nul: Vec<u8> = Vec::new();
    nul.push(0u8);
    proof {
        assert(nul@ =~= seq![0u8]);
        crate::utils::lemma_written_append(content, pos as nat, bytes@, nul@);
    }
    match string_section.write(nul.as_slice()) {
        Ok(_) => {},
        Err(e) => {
            assert(false);
            return Err(e);
        },
    }
    Ok(ptr)
}

/// A string section of a container, with the strings that were read or
/// written through it kept by their address.
#[derive(Debug)]
pub struct StringSection {
    pub section: Handle,
    pub cache: HashMap<u32, String>,
}

/// True where `post` is `pre` but for the section under `handle`, which is
/// marked as modified and holds a payload with the given view.
pub open spec fn payload_set(
    pre: SectionTable,
    handle: Handle,
    post: SectionTable,
    view: DataView,
) -> bool {
    let p = pre.position(handle);
    let e = pre.sections@[p];
    let f = post.sections@[p];
    &&& post.count == pre.count
    &&& post.modified == pre.modified
    &&& post.next_handle == pre.next_handle
    &&& post.backend.data@ == pre.backend.data@
    &&& post.sections@.len() == pre.sections@.len()
    &&& forall|j: int| 0 <= j < pre.sections@.len() && j != p ==> post.sections@[j] == pre.sections@[j]
    &&& f.entry1 == e.entry1
    &&& f.header == e.header
    &&& f.index == e.index
    &&& f.handle == e.handle
    &&& f.modified
    &&& !f.in_use
    &&& f.data matches Some(d) && d@ == view
}

/// True where `post` is `pre` but that the payload of the section under
/// `handle`, where it is held, may stand at another position, and the section
/// may be marked as modified.
pub open spec fn payload_kept(pre: SectionTable, handle: Handle, post: SectionTable) -> bool {
    let p = pre.position(handle);
    let e = pre.sections@[p];
    let f = post.sections@[p];
    &&& post.count == pre.count
    &&& post.modified == pre.modified
    &&& post.next_handle == pre.next_handle
    &&& post.backend.data@ == pre.backend.data@
    &&& post.sections@.len() == pre.sections@.len()
    &&& forall|j: int| 0 <= j < pre.sections@.len() && j != p ==> post.sections@[j] == pre.sections@[j]
    &&& f.entry1 == e.entry1
    &&& f.header == e.header
    &&& f.index == e.index
    &&& f.handle == e.handle
    &&& f.in_use == e.in_use
    &&& e.modified ==> f.modified
    &&& match e.data {
        None => f.data is None,
        Some(d) => f.data is Some && f.data->Some_0@ == (DataView {
            pos: f.data->Some_0.pos(),
            ..d@
        }),
    }
}

/// Reading from the payload of a section keeps the payload.
pub proof fn lemma_payload_kept_read(
    pre: SectionTable,
    mid: SectionTable,
    post: SectionTable,
    handle: Handle,
    view: DataView,
)
    requires
        pre.wf(),
        mid.wf(),
        pre.contains(handle),
        payload_kept(pre, handle, mid),
        payload_set(mid, handle, post, view),
        mid.entry(handle).data matches Some(d) && view == (DataView { pos: view.pos, ..d@ }),
        !mid.entry(handle).in_use,
    ensures
        payload_kept(pre, handle, post),
{
    let p = pre.position(handle);
    mid.lemma_position_unique(handle, p);
}

impl StringSection {
    /// The strings kept, by their address.
    pub open spec fn cached(&self) -> Map<u32, Seq<char>> {
        Map::new(|k: u32| self.cache@.contains_key(k), |k: u32| self.cache@[k]@)
    }

    /// The string at `address`, for a string section with the strings
    /// `cached` kept and the entry `e` in the container: a string that is
    /// kept, or else the string that the section's payload holds there,
    /// which must be loaded and not handed out.
    pub open spec fn resolve(cached: Map<u32, Seq<char>>, e: SectionEntry, address: u32) -> Result<
        Seq<char>,
        ReadError,
    > {
        if cached.contains_key(address) {
            Ok(cached[address])
        } else if e.in_use {
            Err(ReadError::SectionInUse)
        } else if e.data is None {
            Err(ReadError::SectionNotLoaded)
        } else {
            string_at(e.data->Some_0.contents(), address as nat)
        }
    }

    /// True where getting the string at `address` takes the section's payload
    /// in hand.
    pub open spec fn reads_section(cached: Map<u32, Seq<char>>, e: SectionEntry, address: u32) -> bool {
        !cached.contains_key(address) && !e.in_use && e.data is Some
    }

    /// A string section over the section under `section`, with no string kept.
    pub fn new(section: Handle) -> (r: StringSection)
        ensures
            r.section == section,
            r.cached() == Map::<u32, Seq<char>>::empty(),
    {
        let r = StringSection { section, cache: HashMap::new() };
        assert(r.cached() =~= Map::<u32, Seq<char>>::empty());
        r
    }

    /// The string at `address`. A string that is kept is given as it is
    /// kept, and the container is not touched. Else the string is read from
    /// the section's payload, which must be loaded and not handed out, and
    /// kept.
    pub fn get(&mut self, container: &mut Container, address: u32) -> (r: Result<&str, ReadError>)
        requires
            old(container).wf(),
            old(container).table.contains(old(self).section),
        ensures
            final(container).wf(),
            final(self).section == old(self).section,
            final(container).main_header == old(container).main_header,
            final(container).poisoned == old(container).poisoned,
            match Self::resolve(
                old(self).cached(),
                old(container).table.entry(old(self).section),
                address,
            ) {
                Ok(text) => (r matches Ok(s) && s@ == text
                    && final(self).cached() == old(self).cached().insert(address, text)),
                Err(err) => r == Err::<&str, ReadError>(err) && final(self).cached() == old(self).cached(),
            },
            Self::reads_section(
                old(self).cached(),
                old(container).table.entry(old(self).section),
                address,
            ) ==> payload_set(
                old(container).table,
                old(self).section,
                final(container).table,
                (DataView {
                    pos: pos_after_read(
                        old(container).table.entry(old(self).section).data->Some_0.contents(),
                        address as nat,
                    ),
                    ..old(container).table.entry(old(self).section).data->Some_0@
                }),
            ),
            !Self::reads_section(
                old(self).cached(),
                old(container).table.entry(old(self).section),
                address,
            ) ==> *final(container) == *old(container),
    {
        if !self.cache.contains_key(&address) {
            let mut data = match container.table.open(self.section) {
                Ok(d) => d,
                Err(Error::SectionInUse) => {
                    return Err(ReadError::SectionInUse);
                },
                Err(_) => {
                    return Err(ReadError::SectionNotLoaded);
                },
            };
            let ghost opened = container.table;
            let ghost p = old(container).table.position(old(self).section);
            proof {
                opened.lemma_position_unique(self.section, p);
                assert(old(container).table.sections@[p].wf());
            }
            let read = low_level_read_string(address, &mut data);
            let back = container.table.release(self.section, data);
            assert(back is Ok);
            let s = match read {
                Ok(s) => s,
                Err(e) => {
                    return Err(e);
                },
            };
            self.cache.insert(address, s);
            assert(final(self).cached() =~= old(self).cached().insert(
                address,
                string_at(
                    old(container).table.entry(old(self).section).data->Some_0.contents(),
                    address as nat,
                )->Ok_0,
            ));
        }
        match self.cache.get(&address) {
            Some(s) => Ok(s.as_str()),
            None => {
                assert(false);
                Err(ReadError::Eos)
            },
        }
    }

    /// Writes a string at the position of the section's payload, which must
    /// be loaded and not handed out, keeps it, and gives its address: the
    /// size that the payload had before.
    pub fn put(&mut self, container: &mut Container, s: &str) -> (r: Result<u32, WriteError>)
        requires
            old(container).wf(),
            old(container).table.contains(old(self).section),
        ensures
            final(container).wf(),
            final(self).section == old(self).section,
            final(container).main_header == old(container).main_header,
            final(container).poisoned == old(container).poisoned,
            ({
                let e = old(container).table.entry(old(self).section);
                if e.in_use || e.data is None {
                    &&& r == Err::<u32, WriteError>(
                        if e.in_use {
                            WriteError::SectionInUse
                        } else {
                            WriteError::SectionNotLoaded
                        },
                    )
                    &&& *final(container) == *old(container)
                    &&& final(self).cached() == old(self).cached()
                } else {
                    let d = e.data->Some_0;
                    if !can_put(d@, s.spec_bytes()) {
                        &&& r == Err::<u32, WriteError>(WriteError::Io(IoFault::Overflow))
                        &&& payload_set(
                            old(container).table,
                            old(self).section,
                            final(container).table,
                            d@,
                        )
                        &&& final(self).cached() == old(self).cached()
                    } else {
                        &&& r == Ok::<u32, WriteError>(d.contents().len() as u32)
                        &&& payload_set(
                            old(container).table,
                            old(self).section,
                            final(container).table,
                            after_put(d@, s.spec_bytes()),
                        )
                        &&& final(self).cached() == old(self).cached().insert(
                            d.contents().len() as u32,
                            s@,
                        )
                    }
                }
            }),
    {
        let mut data = match container.table.open(self.section) {
            Ok(d) => d,
            Err(Error::SectionInUse) => {
                return Err(WriteError::SectionInUse);
            },
            Err(_) => {
                return Err(WriteError::SectionNotLoaded);
            },
        };
        let ghost p = old(container).table.position(old(self).section);
        proof {
            container.table.lemma_position_unique(self.section, p);
            assert(old(container).table.sections@[p].wf());
        }
        let wrote = low_level_write_string(s, &mut data);
        let back = container.table.release(self.section, data);
        assert(back is Ok);
        match wrote {
            Ok(address) => {
                self.cache.insert(address, s.to_owned());
                assert(final(self).cached() =~= old(self).cached().insert(address, s@));
                Ok(address)
            },
            Err(_) => Err(WriteError::Io(IoFault::Overflow)),
        }
    }

    /// The handle of the string section.
    pub fn handle(&self) -> (r: Handle)
        ensures
            r == self.section,
    {
        self.section
    }
}

/// Makes sure that the payload of the string section is loaded.
pub fn load_string_section(container: &mut Container, strings: &StringSection) -> (r: Result<
    (),
    Error,
>)
    requires
        old(container).wf(),
        old(container).table.contains(strings.section),
    ensures
        final(container).wf(),
        final(container).main_header == old(container).main_header,
        final(container).poisoned == old(container).poisoned,
        ({
            let e = old(container).table.entry(strings.section);
            if e.in_use {
                r == Err::<(), Error>(Error::SectionInUse) && *final(container) == *old(container)
            } else {
                match e.data {
                    Some(d) => r is Ok && payload_set(
                        old(container).table,
                        strings.section,
                        final(container).table,
                        d@,
                    ),
                    None => match crate::container::decoder::section_payload(
                        old(container).table.backend.data@,
                        e.header,
                    ) {
                        Ok(payload) => r is Ok && payload_set(
                            old(container).table,
                            strings.section,
                            final(container).table,
                            loaded_view(payload, e.header.size),
                        ),
                        Err(err) => r == Err::<(), Error>(err) && final(container).table.sections@
                            == old(container).table.sections@,
                    },
                }
            }
        }),
{
    let data = match container.table.load(strings.handle()) {
        Ok(d) => d,
        Err(e) => {
            proof {
                let p = old(container).table.position(strings.section);
                assert(old(container).table.sections@.update(p, old(container).table.sections@[p])
                    =~= old(container).table.sections@);
            }
            return Err(e);
        },
    };
    let ghost p = old(container).table.position(strings.section);
    proof {
        container.table.lemma_position_unique(strings.section, p);
        assert(old(container).table.sections@[p].wf());
    }
    let back = container.table.release(strings.handle(), data);
    assert(back is Ok);
    Ok(())
}

/// The name to pack a file under, from the last component of its path, if
/// the path has one: `Directory` where it has none.
pub fn name_from_file_name(file_name: Option<String>) -> (r: Result<String, PathError>)
    ensures
        file_name matches Some(name) ==> r == Ok::<String, PathError>(name),
        file_name is None ==> r == Err::<String, PathError>(PathError::Directory),
{
    match file_name {
        Some(v) => Ok(v),
        None => Err(PathError::Directory),
    }
}

/// Calls `std::path::Path::file_name` on the path that `path` spells.
/// Nothing is claimed of the result: what counts as the last component
/// depends on the platform.
#[verifier::external_body]
fn path_file_name(path: &str) -> (r: Option<String>) {
    match std::path::Path::new(path).file_name() {
        Some(name) => Some(name.to_string_lossy().into_owned()),
        None => None,
    }
}

/// The file name of a path: its last component. `Directory` where the path
/// has none, as for a path that ends in `..`.
pub fn get_name_from_path(path: &str) -> (r: Result<String, PathError>)
    ensures
        r matches Err(e) ==> e == PathError::Directory,
{
    name_from_file_name(path_file_name(path))
}

} // verus!
