use bpx::container::section::{SectionEntry1, SectionTable};
use bpx::error::Error;
use bpx::header::{
    SectionHeader, FLAG_CHECK_CRC32, FLAG_CHECK_WEAK, FLAG_COMPRESS_XZ, FLAG_COMPRESS_ZLIB,
};
use bpx::utils::new_byte_buf;
use bpx::Handle;

fn header(ty: u8, flags: u8) -> SectionHeader {
    SectionHeader { pointer: 0, csize: 0, size: 0, chksum: 0, ty, flags }
}

#[test]
fn handle_keeps_its_key() {
    let handle = Handle::from_raw(17);
    assert_eq!(handle.into_raw(), 17);
}

#[test]
fn get_flags_keeps_one_checksum_and_one_compression() {
    let all = SectionEntry1 { threshold: 10, flags: 0x0F };
    assert_eq!(all.get_flags(11), FLAG_CHECK_WEAK | FLAG_COMPRESS_XZ);
    assert_eq!(all.get_flags(10), FLAG_CHECK_WEAK);
    let crc_zlib = SectionEntry1 { threshold: 10, flags: FLAG_CHECK_CRC32 | FLAG_COMPRESS_ZLIB };
    assert_eq!(crc_zlib.get_flags(100), FLAG_CHECK_CRC32 | FLAG_COMPRESS_ZLIB);
    assert_eq!(crc_zlib.get_flags(0), FLAG_CHECK_CRC32);
    let none = SectionEntry1 { threshold: 0, flags: 0 };
    assert_eq!(none.get_flags(1000), 0);
    let other_bits = SectionEntry1 { threshold: 0, flags: 0xF0 };
    assert_eq!(other_bits.get_flags(1000), 0);
}

#[test]
fn create_gives_fresh_handles_and_dense_indices() {
    let mut table = SectionTable::new(new_byte_buf(0));
    assert!(table.is_empty());
    assert_eq!(table.len(), 0);
    let a = table.create(header(1, 0));
    let b = table.create(header(2, 0));
    let c = table.create(header(3, 0));
    assert!(table.modified);
    assert_eq!(table.len(), 3);
    assert!(!table.is_empty());
    assert_eq!((a.into_raw(), b.into_raw(), c.into_raw()), (0, 1, 2));
    assert_eq!((table.index(a), table.index(b), table.index(c)), (0, 1, 2));
    assert_eq!(table.header(b).ty, 2);
}

#[test]
fn create_takes_threshold_and_flags_from_the_header() {
    let mut table = SectionTable::new(new_byte_buf(0));
    let h = table.create(SectionHeader {
        pointer: 0,
        csize: 4096,
        size: 0,
        chksum: 0,
        ty: 9,
        flags: FLAG_COMPRESS_ZLIB,
    });
    let p = table.locate(h).unwrap();
    assert_eq!(table.sections[p].entry1, SectionEntry1 { threshold: 4096, flags: FLAG_COMPRESS_ZLIB });
    assert!(!table.sections[p].modified);
    assert!(table.sections[p].data.is_some());
}

#[test]
fn create_then_remove_leaves_an_empty_modified_table() {
    let mut table = SectionTable::new(new_byte_buf(0));
    let h = table.create(header(1, 0));
    table.remove(h);
    assert_eq!(table.len(), 0);
    assert!(table.is_empty());
    assert!(table.modified);
    assert_eq!(table.locate(h), None);
}

#[test]
fn remove_moves_later_sections_up() {
    let mut table = SectionTable::new(new_byte_buf(0));
    let a = table.create(header(1, 0));
    let b = table.create(header(2, 0));
    let c = table.create(header(3, 0));
    table.remove(a);
    assert_eq!(table.len(), 2);
    assert_eq!(table.index(b), 0);
    assert_eq!(table.index(c), 1);
    table.remove(c);
    assert_eq!(table.index(b), 0);
    let d = table.create(header(4, 0));
    assert_eq!(d.into_raw(), 3);
    assert_eq!(table.index(d), 1);
}

#[test]
fn indices_cover_the_table_after_creates_and_removes() {
    let mut table = SectionTable::new(new_byte_buf(0));
    let mut handles = Vec::new();
    for i in 0..10u8 {
        handles.push(table.create(header(i, 0)));
    }
    table.remove(handles[3]);
    table.remove(handles[0]);
    table.remove(handles[9]);
    handles.push(table.create(header(10, 0)));
    let mut indices = Vec::new();
    let mut iter = table.iter();
    while let Some(h) = iter.next() {
        indices.push(table.index(h));
    }
    assert_eq!(indices, (0..table.len()).collect::<Vec<u32>>());
    assert_eq!(table.len(), 8);
}

#[test]
fn iter_gives_handles_in_ascending_order() {
    let mut table = SectionTable::new(new_byte_buf(0));
    let a = table.create(header(1, 0));
    let b = table.create(header(2, 0));
    let c = table.create(header(3, 0));
    table.remove(b);
    let mut iter = table.iter();
    assert_eq!(iter.next(), Some(a));
    assert_eq!(iter.next(), Some(c));
    assert_eq!(iter.next(), None);
    assert_eq!(iter.next(), None);
}

#[test]
fn find_by_type_gives_the_first_section_of_the_type() {
    let mut table = SectionTable::new(new_byte_buf(0));
    assert_eq!(table.find_by_type(0), None);
    let _a = table.create(header(1, 0));
    let b = table.create(header(7, 0));
    let _c = table.create(header(7, 0));
    assert_eq!(table.find_by_type(7), Some(b));
    assert_eq!(table.find_by_type(8), None);
}

#[test]
fn find_by_index_gives_the_section_at_the_place() {
    let mut table = SectionTable::new(new_byte_buf(0));
    assert_eq!(table.find_by_index(0), None);
    let a = table.create(header(1, 0));
    let b = table.create(header(2, 0));
    table.remove(a);
    assert_eq!(table.find_by_index(0), Some(b));
    assert_eq!(table.find_by_index(1), None);
}

#[test]
fn load_while_loaded_is_section_in_use() {
    let mut table = SectionTable::new(new_byte_buf(0));
    let h = table.create(header(1, 0));
    let data = table.load(h).unwrap();
    assert_eq!(table.load(h).err(), Some(Error::SectionInUse));
    assert_eq!(table.open(h).err(), Some(Error::SectionInUse));
    assert!(table.release(h, data).is_ok());
    assert!(table.load(h).is_ok());
}

#[test]
fn distinct_sections_are_handed_out_together() {
    let mut table = SectionTable::new(new_byte_buf(0));
    let a = table.create(header(1, 0));
    let b = table.create(header(2, 0));
    let da = table.load(a).unwrap();
    let db = table.load(b).unwrap();
    assert!(table.release(a, da).is_ok());
    assert!(table.release(b, db).is_ok());
}

#[test]
fn load_marks_the_section_as_modified() {
    let mut table = SectionTable::new(new_byte_buf(0));
    let h = table.create(header(1, 0));
    let p = table.locate(h).unwrap();
    assert!(!table.sections[p].modified);
    let data = table.open(h).unwrap();
    assert!(table.sections[p].modified);
    assert!(table.sections[p].in_use);
    assert!(table.release(h, data).is_ok());
    assert!(!table.sections[p].in_use);
}

#[test]
fn release_of_what_was_not_handed_out_is_refused() {
    let mut table = SectionTable::new(new_byte_buf(0));
    let h = table.create(header(1, 0));
    let data = table.load(h).unwrap();
    assert!(table.release(h, data).is_ok());
    let other = bpx::container::data::auto::AutoSectionData::new();
    assert!(table.release(h, other).is_err());
    let unknown = bpx::container::data::auto::AutoSectionData::new();
    assert!(table.release(Handle::from_raw(99), unknown).is_err());
}

#[test]
fn written_payload_is_kept_between_loads() {
    let mut table = SectionTable::new(new_byte_buf(0));
    let h = table.create(header(1, 0));
    let mut data = table.load(h).unwrap();
    assert_eq!(data.write(&[1, 2, 3]), Ok(3));
    assert!(table.release(h, data).is_ok());
    let mut again = table.load(h).unwrap();
    assert_eq!(again.load_in_memory().unwrap(), vec![1, 2, 3]);
    assert_eq!(again.size(), 3);
}
