use bpx::container::section::SectionTable;
use bpx::container::Container;
use bpx::error::Error;
use bpx::header::{MainHeader, SectionHeader};
use bpx::package::decoder::{
    get_arch_platform_from_code, load_from_section, read_object_table, unpack_object,
};
use bpx::package::error::{EosContext, InvalidCodeContext, ReadError};
use bpx::package::object::ObjectHeader;
use bpx::package::{Architecture, Platform};
use bpx::utils::{new_byte_buf, ByteBuf, SeekFrom};
use bpx::Handle;

fn section(container: &mut Container, bytes: &[u8]) -> Handle {
    let handle = container.sections_mut().create(SectionHeader::new());
    fill(container.sections_mut(), handle, bytes);
    handle
}

fn fill(table: &mut SectionTable, handle: Handle, bytes: &[u8]) {
    let mut data = table.load(handle).unwrap();
    assert_eq!(data.write(bytes), Ok(bytes.len()));
    assert_eq!(data.seek(SeekFrom::Start(0)), Ok(0));
    assert!(table.release(handle, data).is_ok());
}

fn saved_and_reopened(mut container: Container) -> Container {
    assert_eq!(container.save(), Ok(()));
    Container::open(ByteBuf::from_vec(container.into_inner().into_inner())).unwrap()
}

#[test]
fn codes_name_architecture_and_platform() {
    assert_eq!(get_arch_platform_from_code(0, 0), Ok((Architecture::X86_64, Platform::Linux)));
    assert_eq!(get_arch_platform_from_code(1, 1), Ok((Architecture::Aarch64, Platform::Mac)));
    assert_eq!(get_arch_platform_from_code(2, 2), Ok((Architecture::X86, Platform::Windows)));
    assert_eq!(get_arch_platform_from_code(3, 3), Ok((Architecture::Armv7hl, Platform::Android)));
    assert_eq!(get_arch_platform_from_code(4, 4), Ok((Architecture::Any, Platform::Any)));
    assert_eq!(get_arch_platform_from_code(4, 0), Ok((Architecture::Any, Platform::Linux)));
}

#[test]
fn unknown_codes_are_reported_architecture_first() {
    assert_eq!(
        get_arch_platform_from_code(5, 0),
        Err(ReadError::InvalidCode(InvalidCodeContext::Arch, 5))
    );
    assert_eq!(
        get_arch_platform_from_code(0, 9),
        Err(ReadError::InvalidCode(InvalidCodeContext::Platform, 9))
    );
    assert_eq!(
        get_arch_platform_from_code(200, 201),
        Err(ReadError::InvalidCode(InvalidCodeContext::Arch, 200))
    );
}

#[test]
fn object_header_is_read_from_twenty_bytes() {
    let bytes = [
        0x10, 0x00, 0x00, 0x00, 0x00, 0x00, 0x00, 0x01, 0x04, 0x03, 0x02, 0x01, 0x02, 0x00, 0x00,
        0x00, 0x07, 0x00, 0x00, 0x00,
    ];
    assert_eq!(
        ObjectHeader::from_bytes(&bytes),
        ObjectHeader { size: 0x0100_0000_0000_0010, name: 0x0102_0304, start: 2, offset: 7 }
    );
}

#[test]
fn load_from_section_copies_what_is_there() {
    let mut container = Container::create(new_byte_buf(0), MainHeader::new());
    let handle = section(&mut container, b"0123456789");
    let mut out = vec![b'>'];
    assert_eq!(load_from_section(&mut container, handle, 2, 5, &mut out), Ok(5));
    assert_eq!(out, b">23456".to_vec());
    assert_eq!(load_from_section(&mut container, handle, 8, 5, &mut out), Ok(2));
    assert_eq!(out, b">2345689".to_vec());
    assert_eq!(load_from_section(&mut container, handle, 20, 5, &mut out), Ok(0));
    assert_eq!(load_from_section(&mut container, handle, 0, 0, &mut out), Ok(0));
    assert_eq!(out, b">2345689".to_vec());
}

#[test]
fn load_from_section_copies_more_than_one_block() {
    let bytes: Vec<u8> = (0..20_000u32).map(|v| (v % 251) as u8).collect();
    let mut container = Container::create(new_byte_buf(0), MainHeader::new());
    let handle = section(&mut container, &bytes);
    let mut out = Vec::new();
    assert_eq!(load_from_section(&mut container, handle, 100, 19_000, &mut out), Ok(19_000));
    assert_eq!(out, bytes[100..19_100].to_vec());
}

#[test]
fn load_from_section_of_a_section_in_use() {
    let mut container = Container::create(new_byte_buf(0), MainHeader::new());
    let handle = section(&mut container, b"0123456789");
    let _held = container.sections_mut().load(handle).unwrap();
    let mut out = Vec::new();
    assert_eq!(
        load_from_section(&mut container, handle, 0, 5, &mut out),
        Err(ReadError::Section(Error::SectionInUse))
    );
    assert_eq!(out, Vec::<u8>::new());
}

#[test]
fn unpack_object_within_one_section() {
    let mut container = Container::create(new_byte_buf(0), MainHeader::new());
    let _data = section(&mut container, b"0123456789");
    let mut reopened = saved_and_reopened(container);
    let object = ObjectHeader { size: 4, name: 0, start: 0, offset: 3 };
    let mut out = Vec::new();
    assert_eq!(unpack_object(&mut reopened, &object, &mut out), Ok(4));
    assert_eq!(out, b"3456".to_vec());
}

#[test]
fn unpack_object_across_sections() {
    let mut container = Container::create(new_byte_buf(0), MainHeader::new());
    let _a = section(&mut container, b"aaaa");
    let _b = section(&mut container, b"bbbbbb");
    let _c = section(&mut container, b"cccc");
    let _d = section(&mut container, b"dddd");
    let mut reopened = saved_and_reopened(container);
    let object = ObjectHeader { size: 9, name: 0, start: 1, offset: 4 };
    let mut out = Vec::new();
    assert_eq!(unpack_object(&mut reopened, &object, &mut out), Ok(9));
    assert_eq!(out, b"bbccccddd".to_vec());
}

#[test]
fn unpack_object_ends_where_the_sections_end() {
    let mut container = Container::create(new_byte_buf(0), MainHeader::new());
    let _a = section(&mut container, b"aaaa");
    let mut reopened = saved_and_reopened(container);
    let object = ObjectHeader { size: 100, name: 0, start: 0, offset: 1 };
    let mut out = Vec::new();
    assert_eq!(unpack_object(&mut reopened, &object, &mut out), Ok(100));
    assert_eq!(out, b"aaa".to_vec());
    let beyond = ObjectHeader { size: 5, name: 0, start: 3, offset: 0 };
    assert_eq!(unpack_object(&mut reopened, &beyond, &mut out), Ok(5));
    assert_eq!(out, b"aaa".to_vec());
}

#[test]
fn unpack_object_of_no_bytes() {
    let mut container = Container::create(new_byte_buf(0), MainHeader::new());
    let _a = section(&mut container, b"aaaa");
    let object = ObjectHeader { size: 0, name: 0, start: 0, offset: 2 };
    let mut out = Vec::new();
    assert_eq!(unpack_object(&mut container, &object, &mut out), Ok(0));
    assert_eq!(out, Vec::<u8>::new());
}

#[test]
fn unpack_object_that_begins_behind_its_section() {
    let mut container = Container::create(new_byte_buf(0), MainHeader::new());
    let _a = section(&mut container, b"aaaa");
    let mut reopened = saved_and_reopened(container);
    let object = ObjectHeader { size: 2, name: 0, start: 0, offset: 5 };
    let mut out = Vec::new();
    assert_eq!(
        unpack_object(&mut reopened, &object, &mut out),
        Err(ReadError::Eos(EosContext::Object))
    );
}

#[test]
fn unpack_object_stops_at_a_section_in_use() {
    let mut container = Container::create(new_byte_buf(0), MainHeader::new());
    let _a = section(&mut container, b"aaaa");
    let b = section(&mut container, b"bbbb");
    let mut reopened = saved_and_reopened(container);
    let second = reopened.sections().find_by_index(1).unwrap();
    assert_eq!(second, b);
    let _held = reopened.sections_mut().load(second).unwrap();
    let object = ObjectHeader { size: 6, name: 0, start: 0, offset: 0 };
    let mut out = Vec::new();
    assert_eq!(
        unpack_object(&mut reopened, &object, &mut out),
        Err(ReadError::Section(Error::SectionInUse))
    );
    assert_eq!(out, b"aaaa".to_vec());
}

fn object_bytes(object: &ObjectHeader) -> Vec<u8> {
    let mut bytes = Vec::new();
    bytes.extend_from_slice(&object.size.to_le_bytes());
    bytes.extend_from_slice(&object.name.to_le_bytes());
    bytes.extend_from_slice(&object.start.to_le_bytes());
    bytes.extend_from_slice(&object.offset.to_le_bytes());
    bytes
}

#[test]
fn object_table_is_read_from_its_section() {
    let first = ObjectHeader { size: 10, name: 0, start: 1, offset: 0 };
    let second = ObjectHeader { size: 20, name: 6, start: 1, offset: 10 };
    let mut bytes = object_bytes(&first);
    bytes.extend(object_bytes(&second));
    bytes.extend_from_slice(&[1, 2, 3]);
    let mut container = Container::create(new_byte_buf(0), MainHeader::new());
    let _table = section(&mut container, &bytes);
    let mut reopened = saved_and_reopened(container);
    let found = reopened.sections().find_by_index(0).unwrap();
    let mut objects = vec![first];
    let table = read_object_table(&mut reopened, &mut objects, found).unwrap();
    assert_eq!(objects, vec![first, second]);
    assert_eq!(table.len(), 2);
    assert_eq!(*table.index(1), second);
    assert!(table.map.is_none());
}

#[test]
fn object_table_that_ends_early_is_eos() {
    let first = ObjectHeader { size: 10, name: 0, start: 1, offset: 0 };
    let mut bytes = object_bytes(&first);
    bytes.extend_from_slice(&[0u8; 20]);
    let mut container = Container::create(new_byte_buf(0), MainHeader::new());
    let _table = section(&mut container, &bytes);
    let mut reopened = saved_and_reopened(container);
    let found = reopened.sections().find_by_index(0).unwrap();
    let mut loaded = reopened.sections_mut().load(found).unwrap();
    assert_eq!(loaded.seek(SeekFrom::Start(1)), Ok(1));
    assert!(reopened.sections_mut().release(found, loaded).is_ok());
    let mut objects = vec![first];
    assert_eq!(
        read_object_table(&mut reopened, &mut objects, found).err(),
        Some(ReadError::Eos(EosContext::ObjectTable))
    );
    assert_eq!(objects, vec![first]);
}

#[test]
fn object_table_of_a_section_in_use() {
    let mut container = Container::create(new_byte_buf(0), MainHeader::new());
    let handle = section(&mut container, &[0u8; 40]);
    let _held = container.sections_mut().load(handle).unwrap();
    let mut objects = Vec::new();
    assert_eq!(
        read_object_table(&mut container, &mut objects, handle).err(),
        Some(ReadError::Section(Error::SectionInUse))
    );
}
