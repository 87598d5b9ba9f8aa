use bpx::container::section::SectionTable;
use bpx::container::Container;
use bpx::decoder::{load_section, Decoder};
use bpx::error::{Error, Feature};
use bpx::header::{
    MainHeader, SectionHeader, FLAG_CHECK_CRC32, FLAG_CHECK_WEAK, FLAG_COMPRESS_XZ,
    FLAG_COMPRESS_ZLIB,
};
use bpx::section::Section;
use bpx::utils::{new_byte_buf, ByteBuf};
use bpx::Handle;

fn header(ty: u8, flags: u8) -> SectionHeader {
    SectionHeader { pointer: 0, csize: 0, size: 0, chksum: 0, ty, flags }
}

fn fill(table: &mut SectionTable, handle: Handle, bytes: &[u8]) {
    let mut data = table.load(handle).unwrap();
    assert_eq!(data.write(bytes), Ok(bytes.len()));
    assert!(table.release(handle, data).is_ok());
}

fn image(sections: &[(u8, u8, &[u8])]) -> Vec<u8> {
    let mut container = Container::create(new_byte_buf(0), MainHeader::new());
    for (ty, flags, bytes) in sections {
        let handle = container.sections_mut().create(header(*ty, *flags));
        fill(container.sections_mut(), handle, bytes);
    }
    assert_eq!(container.save(), Ok(()));
    container.into_inner().into_inner()
}

#[test]
fn decoder_reads_headers_and_loads_on_demand() {
    let payload = vec![0x42u8; 5000];
    let bytes = image(&[
        (1, FLAG_CHECK_WEAK, b"plain"),
        (2, FLAG_COMPRESS_XZ | FLAG_CHECK_WEAK, &payload),
        (1, 0, b"other"),
    ]);
    let mut decoder = Decoder::new(ByteBuf::from_vec(bytes)).unwrap();
    assert_eq!(decoder.get_main_header().section_num, 3);
    assert_eq!(decoder.find_section_by_type(1), Some(0));
    assert_eq!(decoder.find_section_by_type(2), Some(1));
    assert_eq!(decoder.find_section_by_type(3), None);
    assert_eq!(decoder.find_all_sections_of_type(1), vec![0, 2]);
    assert_eq!(decoder.find_all_sections_of_type(9), Vec::<usize>::new());
    assert_eq!(decoder.find_section_by_index(2), Some(2));
    assert_eq!(decoder.find_section_by_index(3), None);
    assert_eq!(decoder.get_section_header(1).size, 5000);
    assert!(decoder.sections_data[1].is_none());
    let data = decoder.open_section(1).unwrap();
    assert_eq!(data.load_in_memory().unwrap(), payload);
    assert_eq!(data.read(2), vec![0x42, 0x42]);
    let again = decoder.open_section(1).unwrap();
    assert_eq!(again.inner.byte_buf.position(), 2);
    let plain = decoder.open_section(0).unwrap();
    assert_eq!(plain.load_in_memory().unwrap(), b"plain".to_vec());
}

#[test]
fn decoder_reads_zlib_and_crc32() {
    let payload = vec![7u8; 100];
    let zlib = image(&[(1, FLAG_COMPRESS_ZLIB, &payload)]);
    let mut decoder = Decoder::new(ByteBuf::from_vec(zlib)).unwrap();
    assert_eq!(decoder.get_section_header(0).flags, FLAG_COMPRESS_ZLIB);
    assert!(decoder.get_section_header(0).csize < 100);
    assert_eq!(decoder.open_section(0).unwrap().load_in_memory().unwrap(), payload);
    let crc = image(&[(1, 0, b"fine"), (2, FLAG_CHECK_CRC32, b"abc")]);
    let mut decoder = Decoder::new(ByteBuf::from_vec(crc)).unwrap();
    assert_eq!(decoder.get_main_header().section_num, 2);
    assert_eq!(decoder.get_section_header(1).chksum, 0x3524_41C2);
    assert_eq!(decoder.open_section(1).unwrap().load_in_memory().unwrap(), b"abc".to_vec());
    assert_eq!(decoder.open_section(0).unwrap().load_in_memory().unwrap(), b"fine".to_vec());
}

#[test]
fn decoder_opens_what_a_save_wrote() {
    let payload: Vec<u8> = (0..4000u32).map(|v| (v % 11) as u8).collect();
    let mut flags = Vec::new();
    for codec in [0, FLAG_COMPRESS_XZ, FLAG_COMPRESS_ZLIB] {
        for check in [0, FLAG_CHECK_WEAK, FLAG_CHECK_CRC32] {
            flags.push(codec | check);
        }
    }
    let sections: Vec<(u8, u8, &[u8])> =
        flags.iter().map(|f| (*f, *f, payload.as_slice())).collect();
    let bytes = image(&sections);
    let container = Container::open(ByteBuf::from_vec(bytes.clone())).unwrap();
    let mut decoder = Decoder::new(ByteBuf::from_vec(bytes)).unwrap();
    assert_eq!(decoder.get_main_header(), container.get_main_header());
    assert_eq!(decoder.sections.len(), 9);
    for i in 0..9u32 {
        let handle = decoder.find_section_by_index(i).unwrap();
        let in_container = container.find_section_by_index(i).unwrap();
        assert_eq!(*decoder.get_section_header(handle), container.get(in_container).header);
        assert_eq!(decoder.get_section_header(handle).flags, flags[i as usize]);
        assert!(decoder.sections_data[handle].is_none());
        assert_eq!(decoder.open_section(handle).unwrap().load_in_memory().unwrap(), payload);
    }
    assert_eq!(decoder.find_section_by_index(9), None);
}

#[test]
fn features_have_the_names_of_their_flags() {
    assert_eq!(Feature::CompressZlib.name(), "FLAG_COMPRESS_ZLIB");
    assert_eq!(Feature::CheckCrc32.name(), "FLAG_CHECK_CRC32");
    assert_ne!(Error::Unsupported(Feature::CompressZlib), Error::Unsupported(Feature::CheckCrc32));
}

#[test]
fn decoder_reports_what_open_reports() {
    assert_eq!(Decoder::new(ByteBuf::from_vec(vec![1, 2, 3])).err(), Some(Error::Eos));
    assert_eq!(Decoder::new(ByteBuf::from_vec(vec![0u8; 64])).err(), Some(Error::BadSignature));
    let mut bytes = image(&[(1, 0, b"abc")]);
    bytes[40 + 12] ^= 0x01;
    let sum: u32 = bytes[40..64].iter().map(|v| *v as u32).sum();
    let expected = u32::from_le_bytes([bytes[36], bytes[37], bytes[38], bytes[39]]);
    assert_eq!(
        Decoder::new(ByteBuf::from_vec(bytes)).err(),
        Some(Error::Checksum(sum, expected))
    );
    let mut cut = image(&[(1, 0, b"abc"), (2, 0, b"def")]);
    cut.truncate(70);
    assert_eq!(Decoder::new(ByteBuf::from_vec(cut)).err(), Some(Error::Eos));
}

#[test]
fn decoder_load_section_checks_the_weak_checksum() {
    let mut bytes = image(&[(1, FLAG_CHECK_WEAK, b"abc")]);
    bytes[64] = b'b';
    let mut decoder = Decoder::new(ByteBuf::from_vec(bytes)).unwrap();
    assert_eq!(
        decoder.open_section(0).err(),
        Some(Error::Checksum(98 + 98 + 99, 97 + 98 + 99))
    );
    assert!(decoder.sections_data[0].is_none());
}

#[test]
fn load_section_reads_by_the_flags() {
    let mut file = ByteBuf::from_vec(b"123456789".to_vec());
    let crc = SectionHeader {
        pointer: 0,
        csize: 9,
        size: 9,
        chksum: 0xCBF4_3926,
        ty: 0,
        flags: FLAG_CHECK_CRC32,
    };
    let mut data = load_section(&mut file, &crc).unwrap();
    assert_eq!(data.load_in_memory().unwrap(), b"123456789".to_vec());
    let wrong = SectionHeader { chksum: 1, ..crc };
    assert_eq!(load_section(&mut file, &wrong).err(), Some(Error::Checksum(0xCBF4_3926, 1)));
    let (stored, chksum) = bpx::container::encoder::write_section(
        FLAG_COMPRESS_ZLIB | FLAG_CHECK_WEAK,
        &[5u8; 300],
    );
    let zlib = SectionHeader {
        pointer: 0,
        csize: stored.len() as u32,
        size: 300,
        chksum,
        ty: 0,
        flags: FLAG_COMPRESS_ZLIB | FLAG_CHECK_WEAK,
    };
    let mut file = ByteBuf::from_vec(stored);
    let mut data = load_section(&mut file, &zlib).unwrap();
    assert_eq!(data.load_in_memory().unwrap(), vec![5u8; 300]);
    let raw = SectionHeader { flags: 0, pointer: 1, size: 2, ..zlib };
    let mut data = load_section(&mut file, &raw).unwrap();
    assert_eq!(data.size(), 2);
    assert_eq!(data.inner.byte_buf.position(), 0);
}

#[test]
fn section_entry_hands_its_payload_out_once() {
    let mut table = SectionTable::new(new_byte_buf(0));
    let handle = table.create(header(1, 0));
    let place = table.locate(handle).unwrap();
    let entry = &mut table.sections[place];
    let data = Section::open(entry).unwrap();
    assert_eq!(data.size(), 0);
    assert!(entry.in_use);
    assert!(entry.modified);
    assert_eq!(Section::open(entry).err(), Some(bpx::section::Error::AlreadyOpen));
    assert_eq!(entry.realloc(10), Err(bpx::section::Error::AlreadyOpen));
    assert!(table.release(handle, data).is_ok());
}

#[test]
fn section_entry_realloc_replaces_the_payload() {
    let mut table = SectionTable::new(new_byte_buf(0));
    let handle = table.create(header(1, 0));
    fill(&mut table, handle, b"old");
    let place = table.locate(handle).unwrap();
    assert_eq!(table.sections[place].realloc(200_000_000), Ok(()));
    assert!(table.sections[place].modified);
    let mut data = table.load(handle).unwrap();
    assert_eq!(data.size(), 0);
    assert!(data.is_spilled());
    assert_eq!(data.load_in_memory().unwrap(), Vec::<u8>::new());
}

#[test]
fn section_entry_that_is_not_loaded_is_not_opened() {
    let bytes = image(&[(1, 0, b"abc")]);
    let mut container = Container::open(ByteBuf::from_vec(bytes)).unwrap();
    let entry = &mut container.sections_mut().sections[0];
    assert_eq!(
        Section::open(entry).err(),
        Some(bpx::section::Error::Io(bpx::error::IoFault::NotLoaded))
    );
    assert_eq!(bpx::section::Error::from(bpx::error::IoFault::Overflow), bpx::section::Error::Io(bpx::error::IoFault::Overflow));
}

#[test]
fn decoder_table_read_keeps_the_complete_records() {
    let first = SectionHeader { pointer: 1, csize: 2, size: 3, chksum: 4, ty: 5, flags: 0x0A };
    let second = SectionHeader { pointer: 9, csize: 8, size: 7, chksum: 6, ty: 5, flags: 0x05 };
    let mut bytes = vec![0xEE];
    bytes.extend(first.to_bytes());
    bytes.extend(second.to_bytes());
    bytes.extend_from_slice(&[0u8; 23]);
    let sum: u32 = bytes[1..49].iter().map(|v| *v as u32).sum();
    let mut main = MainHeader::new();
    main.section_num = 3;
    let mut file = ByteBuf::from_vec(bytes.clone());
    file.pos = 1;
    let mut decoder =
        Decoder { main_header: main, sections: Vec::new(), sections_data: Vec::new(), file };
    assert_eq!(decoder.read_section_header_table(0), Err(Error::Eos));
    assert_eq!(decoder.sections, vec![first, second]);
    main.section_num = 2;
    main.chksum = sum.wrapping_add(7);
    let mut file = ByteBuf::from_vec(bytes.clone());
    file.pos = 1;
    let mut decoder =
        Decoder { main_header: main, sections: Vec::new(), sections_data: Vec::new(), file };
    assert_eq!(decoder.read_section_header_table(7), Ok(()));
    assert_eq!(decoder.sections, vec![first, second]);
    assert_eq!(decoder.file.position(), 49);
    let mut file = ByteBuf::from_vec(bytes);
    file.pos = 1;
    let mut decoder =
        Decoder { main_header: main, sections: vec![second], sections_data: Vec::new(), file };
    assert_eq!(
        decoder.read_section_header_table(0),
        Err(Error::Checksum(sum, sum.wrapping_add(7)))
    );
    assert_eq!(decoder.sections, vec![second, first, second]);
}
