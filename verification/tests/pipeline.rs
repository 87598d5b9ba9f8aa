use bpx::checksum::ChecksumEngine;
use bpx::compression::{deflate, finish_inflate, holds_payload, inflate};
use bpx::container::data::auto::AutoSectionData;
use bpx::builder::DEFAULT_COMPRESSION_THRESHOLD;
use bpx::container::decoder::{
    load_section1, load_section_checked, load_section_compressed, load_section_uncompressed,
    read_section_header_table, READ_BLOCK_SIZE,
};
use bpx::container::encoder::{
    check_section, check_sections, plan_section, write_section, write_sections, write_table,
};
use bpx::container::section::{SectionEntry, SectionEntry1, SectionTable};
use bpx::container::Container;
use bpx::error::{Codec, Error, IoFault};
use bpx::header::{
    MainHeader, SectionHeader, FLAG_CHECK_CRC32, FLAG_CHECK_WEAK, FLAG_COMPRESS_XZ,
    FLAG_COMPRESS_ZLIB,
};
use bpx::utils::{copy_range, extend_bytes, extend_zeros, new_byte_buf, ByteBuf};

fn raw(pointer: u64, size: u32, flags: u8, chksum: u32) -> SectionHeader {
    SectionHeader { pointer, csize: size, size, chksum, ty: 0, flags }
}

fn entry(header: SectionHeader, payload: Option<&[u8]>, modified: bool) -> SectionEntry {
    let data = payload.map(|bytes| {
        let mut d = AutoSectionData::new();
        assert_eq!(d.write(bytes), Ok(bytes.len()));
        d
    });
    SectionEntry {
        entry1: SectionEntry1 { threshold: 0, flags: header.flags },
        header,
        data,
        index: 0,
        modified,
        handle: 0,
        in_use: false,
    }
}

#[test]
fn byte_helpers() {
    let mut v = vec![1u8, 2];
    extend_bytes(&mut v, &[3, 4]);
    extend_zeros(&mut v, 2);
    assert_eq!(v, vec![1, 2, 3, 4, 0, 0]);
    assert_eq!(copy_range(&v, 1, 4), vec![2, 3, 4]);
    assert_eq!(copy_range(&v, 2, 2), Vec::<u8>::new());
}

#[test]
fn zlib_deflate_then_inflate() {
    let payload = b"hello hello hello hello hello hello hello".to_vec();
    let mut written = ChecksumEngine::new(false);
    let stored = deflate(Codec::Zlib, &payload, &mut written);
    assert_ne!(stored, payload);
    assert!(stored.len() < payload.len());
    assert_eq!(stored[0], 0x78);
    let mut read = ChecksumEngine::new(false);
    assert_eq!(inflate(Codec::Zlib, &stored, &mut read), Ok(payload.clone()));
    assert_eq!(read.finish(), written.finish());
    assert_eq!(read.finish(), payload.iter().map(|v| *v as u32).sum::<u32>());
}

#[test]
fn xz_deflate_then_inflate() {
    let payload = vec![7u8; 10_000];
    let mut written = ChecksumEngine::new(true);
    let stored = deflate(Codec::Xz, &payload, &mut written);
    assert!(stored.len() < payload.len());
    assert_eq!(&stored[..6], &[0xFD, b'7', b'z', b'X', b'Z', 0x00]);
    let mut read = ChecksumEngine::new(true);
    assert_eq!(inflate(Codec::Xz, &stored, &mut read), Ok(payload));
    assert_eq!(read.finish(), written.finish());
}

#[test]
fn inflate_of_what_is_no_stream_leaves_the_engine() {
    for codec in [Codec::Xz, Codec::Zlib] {
        let mut engine = ChecksumEngine::new(false);
        engine.push(&[5]);
        assert_eq!(inflate(codec, &[1, 2, 3, 4], &mut engine), Err(Error::Inflate(codec)));
        assert_eq!(inflate(codec, &[], &mut engine), Err(Error::Inflate(codec)));
        assert_eq!(engine.finish(), 5);
    }
}

#[test]
fn codec_outcomes_become_results() {
    let mut engine = ChecksumEngine::new(false);
    assert_eq!(finish_inflate(Codec::Xz, None, &mut engine), Err(Error::Inflate(Codec::Xz)));
    assert_eq!(finish_inflate(Codec::Zlib, Some(vec![1, 2]), &mut engine), Ok(vec![1, 2]));
    assert_eq!(engine.finish(), 3);
}

#[test]
fn write_section_gives_stored_form_and_checksum() {
    let payload = [1u8, 2, 3];
    assert_eq!(write_section(0, &payload), (vec![1, 2, 3], 6));
    assert_eq!(write_section(FLAG_CHECK_WEAK, &payload), (vec![1, 2, 3], 6));
    assert_eq!(
        write_section(FLAG_CHECK_CRC32, b"123456789"),
        (b"123456789".to_vec(), 0xCBF4_3926)
    );
    let (stored, chksum) = write_section(FLAG_COMPRESS_ZLIB | FLAG_CHECK_CRC32, b"123456789");
    assert_eq!(chksum, 0xCBF4_3926);
    assert_eq!(stored[0], 0x78);
    let (xz, weak) = write_section(FLAG_COMPRESS_XZ | FLAG_COMPRESS_ZLIB, b"123456789");
    assert_eq!(weak, 477);
    assert_eq!(xz[0], 0xFD);
}

#[test]
fn header_table_is_read_in_order() {
    let first = SectionHeader { pointer: 88, csize: 1, size: 1, chksum: 0, ty: 1, flags: 0 };
    let second = SectionHeader { pointer: 89, csize: 2, size: 2, chksum: 0, ty: 2, flags: 8 };
    let mut bytes = vec![0xEE; 3];
    bytes.extend(first.to_bytes());
    bytes.extend(second.to_bytes());
    let sum: u32 = bytes[3..].iter().map(|v| *v as u32).sum();
    let mut main = MainHeader::new();
    main.section_num = 2;
    main.chksum = sum.wrapping_add(10);
    let mut backend = ByteBuf::from_vec(bytes.clone());
    backend.pos = 3;
    let (next, entries) = read_section_header_table(&mut backend, &main, 10).unwrap();
    assert_eq!(next, 2);
    assert_eq!(entries.len(), 2);
    assert_eq!(backend.position(), 51);
    assert_eq!(entries[0].header, first);
    assert_eq!(entries[1].header, second);
    assert_eq!((entries[0].index, entries[1].index), (0, 1));
    assert_eq!((entries[0].handle, entries[1].handle), (0, 1));
    assert!(entries[1].data.is_none() && !entries[1].modified && !entries[1].in_use);
    assert_eq!(
        entries[1].entry1,
        SectionEntry1 { flags: 8, threshold: DEFAULT_COMPRESSION_THRESHOLD }
    );
    let mut again = ByteBuf::from_vec(bytes.clone());
    again.pos = 3;
    assert_eq!(
        read_section_header_table(&mut again, &main, 0).err(),
        Some(Error::Checksum(sum, sum.wrapping_add(10)))
    );
    let mut short = ByteBuf::from_vec(bytes);
    short.pos = 4;
    assert_eq!(read_section_header_table(&mut short, &main, 10).err(), Some(Error::Eos));
}

#[test]
fn header_table_of_no_sections() {
    let mut main = MainHeader::new();
    main.chksum = 5;
    let mut backend = ByteBuf::from_vec(vec![1, 2, 3]);
    backend.pos = 100;
    assert_eq!(read_section_header_table(&mut backend, &main, 5).map(|v| v.0), Ok(0));
    assert_eq!(
        read_section_header_table(&mut backend, &main, 4).err(),
        Some(Error::Checksum(4, 5))
    );
}

#[test]
fn uncompressed_payload_is_copied_in_blocks() {
    assert_eq!(READ_BLOCK_SIZE, 8192);
    let bytes: Vec<u8> = (0..30_000u32).map(|v| (v % 241) as u8).collect();
    let mut backend = ByteBuf::from_vec(bytes.clone());
    let mut out = AutoSectionData::new();
    assert_eq!(out.write(&[9, 9]), Ok(2));
    let mut engine = ChecksumEngine::new(false);
    let header = raw(1000, 20_000, 0, 0);
    assert_eq!(load_section_uncompressed(&mut backend, &header, &mut out, &mut engine), Ok(()));
    let mut expected = vec![9, 9];
    expected.extend_from_slice(&bytes[1000..21_000]);
    assert_eq!(out.load_in_memory().unwrap(), expected);
    assert_eq!(engine.finish(), bytes[1000..21_000].iter().map(|v| *v as u32).sum::<u32>());
    assert_eq!(backend.position(), 21_000);
    let beyond = raw(20_000, 10_001, 0, 0);
    assert_eq!(
        load_section_uncompressed(&mut backend, &beyond, &mut out, &mut engine),
        Err(Error::Eos)
    );
    assert_eq!(out.size(), 20_002);
    assert_eq!(backend.position(), 21_000);
}

#[test]
fn uncompressed_payload_of_no_bytes_is_there_wherever_the_pointer_points() {
    let mut backend = ByteBuf::from_vec(vec![1, 2, 3]);
    let mut out = AutoSectionData::new();
    let mut engine = ChecksumEngine::new(true);
    let header = raw(5000, 0, 0, 0);
    assert_eq!(load_section_uncompressed(&mut backend, &header, &mut out, &mut engine), Ok(()));
    assert_eq!(out.size(), 0);
    assert_eq!(engine.finish(), 0);
}

#[test]
fn payload_that_does_not_fit_the_output_is_refused() {
    let mut backend = ByteBuf::from_vec(vec![1, 2, 3]);
    let mut out = AutoSectionData::new();
    out.inner.byte_buf.pos = usize::MAX - 1;
    let mut engine = ChecksumEngine::new(false);
    assert_eq!(
        load_section_uncompressed(&mut backend, &raw(0, 3, 0, 0), &mut out, &mut engine),
        Err(Error::Io(IoFault::Overflow))
    );
    assert_eq!(out.size(), 0);
    assert_eq!(engine.finish(), 0);
}

#[test]
fn compressed_payload_is_decoded_from_its_stored_bytes() {
    let payload = vec![3u8; 5000];
    let (stored, _) = write_section(FLAG_COMPRESS_ZLIB, &payload);
    let mut bytes = vec![0u8; 10];
    bytes.extend_from_slice(&stored);
    bytes.extend_from_slice(&[0xFF; 7]);
    let header = SectionHeader {
        pointer: 10,
        csize: stored.len() as u32,
        size: 5000,
        chksum: 0,
        ty: 0,
        flags: FLAG_COMPRESS_ZLIB,
    };
    let mut backend = ByteBuf::from_vec(bytes);
    let mut out = AutoSectionData::new();
    let mut engine = ChecksumEngine::new(false);
    assert_eq!(
        load_section_compressed(Codec::Zlib, &mut backend, &header, &mut out, &mut engine),
        Ok(())
    );
    assert_eq!(out.load_in_memory().unwrap(), payload);
    assert_eq!(engine.finish(), 15_000);
    assert_eq!(backend.position(), 10 + stored.len());
    let mut other = AutoSectionData::new();
    assert_eq!(
        load_section_compressed(Codec::Xz, &mut backend, &header, &mut other, &mut engine),
        Err(Error::Inflate(Codec::Xz))
    );
    let long = SectionHeader { csize: header.csize + 8, ..header };
    assert_eq!(
        load_section_compressed(Codec::Zlib, &mut backend, &long, &mut other, &mut engine),
        Err(Error::Eos)
    );
    assert_eq!(other.size(), 0);
}

#[test]
fn codec_is_chosen_by_the_flags_xz_first() {
    let payload = vec![3u8; 5000];
    let (stored, _) = write_section(FLAG_COMPRESS_XZ, &payload);
    let header = SectionHeader {
        pointer: 0,
        csize: stored.len() as u32,
        size: 5000,
        chksum: 0,
        ty: 0,
        flags: FLAG_COMPRESS_XZ | FLAG_COMPRESS_ZLIB,
    };
    let mut backend = ByteBuf::from_vec(stored);
    let mut out = AutoSectionData::new();
    let mut engine = ChecksumEngine::new(false);
    assert_eq!(load_section_checked(&mut backend, &header, &mut out, &mut engine), Ok(()));
    assert_eq!(out.load_in_memory().unwrap(), payload);
}

#[test]
fn load_checks_by_crc32_where_both_checksum_flags_are_set() {
    let mut backend = ByteBuf::from_vec(b"123456789".to_vec());
    let both = raw(0, 9, FLAG_CHECK_WEAK | FLAG_CHECK_CRC32, 0xCBF4_3926);
    let mut data = load_section1(&mut backend, &both).unwrap();
    assert_eq!(data.load_in_memory().unwrap(), b"123456789".to_vec());
    assert_eq!(data.inner.byte_buf.position(), 0);
    let weak = raw(0, 9, FLAG_CHECK_WEAK | FLAG_CHECK_CRC32, 477);
    assert_eq!(load_section1(&mut backend, &weak).err(), Some(Error::Checksum(0xCBF4_3926, 477)));
    let only_weak = raw(0, 9, FLAG_CHECK_WEAK, 477);
    assert!(load_section1(&mut backend, &only_weak).is_ok());
    let unchecked = raw(0, 9, 0, 1);
    assert!(load_section1(&mut backend, &unchecked).is_ok());
}

#[test]
fn sections_are_looked_at_before_a_save() {
    let backend = vec![0u8; 100];
    let kept = entry(raw(90, 10, 0, 0), None, false);
    assert_eq!(check_section(&backend, false, &kept), None);
    let missing = entry(raw(95, 10, 0, 0), None, false);
    assert_eq!(check_section(&backend, false, &missing), Some(Error::Eos));
    assert_eq!(check_section(&backend, true, &missing), Some(Error::Eos));
    let loaded = entry(raw(95, 10, 0, 0), Some(b"abc"), false);
    assert_eq!(check_section(&backend, true, &loaded), None);
    assert_eq!(check_section(&backend, false, &loaded), Some(Error::Eos));
    let modified = entry(raw(95, 10, 0, 0), Some(b"abc"), true);
    assert_eq!(check_section(&backend, false, &modified), None);
    let mut in_use = entry(raw(0, 0, 0, 0), None, false);
    in_use.in_use = true;
    assert_eq!(check_section(&backend, false, &in_use), Some(Error::SectionInUse));
    let empty = entry(raw(5000, 0, 0, 0), None, false);
    assert_eq!(check_section(&backend, false, &empty), None);
    let all = vec![entry(raw(90, 10, 0, 0), None, false), in_use, missing];
    assert_eq!(check_sections(&backend, false, &all), Some(Error::SectionInUse));
    assert_eq!(check_sections(&backend, false, &Vec::new()), None);
}

#[test]
fn a_section_is_planned_from_its_payload_or_its_stored_bytes() {
    let backend: Vec<u8> = (0..100u8).collect();
    let kept = entry(raw(90, 10, FLAG_CHECK_WEAK, 77), None, false);
    assert_eq!(
        plan_section(&backend, false, &kept, 500),
        Ok((backend[90..].to_vec(), SectionHeader { pointer: 500, ..kept.header }))
    );
    let mut other_flags = entry(raw(90, 10, 0, 77), Some(b"abc"), false);
    other_flags.entry1.flags = FLAG_CHECK_CRC32;
    other_flags.header.ty = 9;
    assert_eq!(
        plan_section(&backend, false, &other_flags, 64),
        Ok((
            b"abc".to_vec(),
            SectionHeader { pointer: 64, csize: 3, size: 3, chksum: 0x3524_41C2, ty: 9, flags: 2 }
        ))
    );
    let compressed = SectionHeader { csize: 4, size: 1000, flags: FLAG_COMPRESS_XZ, ..raw(2, 0, 0, 0) };
    let stored = entry(compressed, None, false);
    assert_eq!(
        plan_section(&backend, true, &stored, 70),
        Ok((vec![2, 3, 4, 5], SectionHeader { pointer: 70, ..compressed }))
    );
}

#[test]
fn sections_are_written_one_after_the_other() {
    let backend: Vec<u8> = (0..100u8).collect();
    let entries = vec![
        entry(raw(90, 10, 0, 0), None, false),
        entry(raw(0, 0, FLAG_CHECK_WEAK, 0), Some(b"abc"), true),
        entry(raw(10, 2, 0, 0), None, false),
    ];
    let (blobs, headers) = write_sections(&backend, false, &entries).unwrap();
    let mut expected = backend[90..].to_vec();
    expected.extend_from_slice(b"abc");
    expected.extend_from_slice(&backend[10..12]);
    assert_eq!(blobs, expected);
    assert_eq!(
        headers,
        vec![
            raw(112, 10, 0, 0),
            SectionHeader { pointer: 122, csize: 3, size: 3, chksum: 294, ty: 0, flags: 1 },
            raw(125, 2, 0, 0),
        ]
    );
    let (table, chksum) = write_table(&headers);
    assert_eq!(table.len(), 72);
    assert_eq!(&table[24..48], &headers[1].to_bytes()[..]);
    assert_eq!(chksum, table.iter().map(|v| *v as u32).sum::<u32>());
    assert_eq!(write_table(&Vec::new()), (Vec::new(), 0));
}

#[test]
fn invariants_are_tested() {
    let mut container = Container::create(new_byte_buf(0), MainHeader::new());
    let a = container.sections_mut().create(SectionHeader::new());
    let _b = container.sections_mut().create(SectionHeader::new());
    assert!(container.is_valid());
    container.table.count = 3;
    assert!(!container.is_valid());
    container.table.count = 2;
    container.table.sections[1].index = 5;
    assert!(!container.is_valid());
    container.table.sections[1].index = 1;
    container.table.sections[1].handle = 0;
    assert!(!container.is_valid());
    container.table.sections[1].handle = 7;
    assert!(!container.is_valid());
    container.table.next_handle = 8;
    assert!(container.is_valid());
    let held = container.sections_mut().load(a).unwrap();
    assert!(container.is_valid());
    assert!(held.is_valid());
    container.table.sections[0].data = Some(AutoSectionData::new());
    assert!(!container.is_valid());
    assert!(!container.table.sections[0].is_valid());
    let mut data = AutoSectionData::with_threshold(2);
    assert_eq!(data.write(&[1, 2, 3]), Ok(3));
    assert!(data.is_valid());
    data.spilled = false;
    assert!(!data.is_valid());
    data.spilled = true;
    data.inner.cur_size = 2;
    assert!(!data.is_valid());
    assert!(SectionTable::new(new_byte_buf(0)).is_valid());
}

#[test]
fn codecs_give_payloads_back() {
    let payload: Vec<u8> = (0..5000u32).map(|v| (v % 7) as u8).collect();
    assert!(bpx::compression::round_trip_holds(Codec::Xz, &payload));
    assert!(bpx::compression::round_trip_holds(Codec::Zlib, &payload));
    assert!(bpx::compression::round_trip_holds(Codec::Zlib, &[]));
    assert!(bpx::compression::round_trip_holds(Codec::Xz, &[]));
    let mut engine = ChecksumEngine::new(false);
    let stored = deflate(Codec::Xz, &payload, &mut engine);
    assert!(holds_payload(Codec::Xz, &stored, &payload));
    assert!(!holds_payload(Codec::Xz, &stored, &payload[1..]));
    assert!(!holds_payload(Codec::Zlib, &stored, &payload));
    assert!(!holds_payload(Codec::Xz, &payload, &payload));
    assert!(bpx::compression::same_bytes(&[1, 2], &[1, 2]));
    assert!(!bpx::compression::same_bytes(&[1, 2], &[1, 3]));
    assert!(!bpx::compression::same_bytes(&[1, 2], &[1]));
    assert!(bpx::compression::same_bytes(&[], &[]));
}

#[test]
fn decoded_payload_is_written_at_the_position() {
    let mut out = AutoSectionData::new();
    assert_eq!(out.write(&[1, 2, 3, 4]), Ok(4));
    out.inner.byte_buf.pos = 1;
    let before = ChecksumEngine::new(false);
    let mut engine = before;
    engine.push(&[7, 8]);
    assert_eq!(
        bpx::container::decoder::deliver_decoded(&[7, 8], &mut out, &mut engine, before),
        Ok(())
    );
    assert_eq!(out.load_in_memory().unwrap(), vec![1, 7, 8, 4]);
    assert_eq!(out.inner.byte_buf.position(), 3);
    assert_eq!(engine.finish(), 15);
    out.inner.byte_buf.pos = usize::MAX;
    assert_eq!(
        bpx::container::decoder::deliver_decoded(&[7, 8], &mut out, &mut engine, before),
        Err(Error::Io(IoFault::Overflow))
    );
    assert_eq!(engine.finish(), 0);
    assert_eq!(out.load_in_memory().unwrap(), vec![1, 7, 8, 4]);
}

#[test]
fn header_of_a_written_section() {
    assert_eq!(
        bpx::container::encoder::header_of_written(9, 5, 64, 100, vec![1, 2, 3], 77),
        Ok((
            vec![1, 2, 3],
            SectionHeader { pointer: 64, csize: 3, size: 100, chksum: 77, ty: 9, flags: 5 }
        ))
    );
}
