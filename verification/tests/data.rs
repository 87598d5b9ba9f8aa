use bpx::container::data::auto::{AutoSectionData, MEMORY_THRESHOLD};
use bpx::container::data::memory::InMemorySection;
use bpx::error::{Error, IoFault};
use bpx::utils::{new_byte_buf, ByteBuf, SeekFrom};

#[test]
fn byte_buf_reads_up_to_the_end() {
    let mut buf = ByteBuf::from_vec(vec![1, 2, 3, 4, 5]);
    assert_eq!(buf.read(2), vec![1, 2]);
    assert_eq!(buf.read(10), vec![3, 4, 5]);
    assert_eq!(buf.read(10), Vec::<u8>::new());
    assert_eq!(buf.position(), 5);
}

#[test]
fn byte_buf_write_replaces_and_grows() {
    let mut buf = ByteBuf::from_vec(vec![1, 2, 3, 4, 5]);
    assert_eq!(buf.seek(SeekFrom::Start(3)), Ok(3));
    assert_eq!(buf.write(&[9, 9, 9]), Ok(3));
    assert_eq!(buf.position(), 6);
    assert_eq!(buf.get_ref(), &vec![1, 2, 3, 9, 9, 9]);
    assert_eq!(buf.seek(SeekFrom::Start(1)), Ok(1));
    assert_eq!(buf.write(&[7]), Ok(1));
    assert_eq!(buf.into_inner(), vec![1, 7, 3, 9, 9, 9]);
}

#[test]
fn byte_buf_write_past_the_end_fills_with_zeros() {
    let mut buf = new_byte_buf(16);
    assert_eq!(buf.seek(SeekFrom::Start(3)), Ok(3));
    assert_eq!(buf.write(&[5]), Ok(1));
    assert_eq!(buf.into_inner(), vec![0, 0, 0, 5]);
}

#[test]
fn byte_buf_seek_from_end_and_current() {
    let mut buf = ByteBuf::from_vec(vec![1, 2, 3, 4, 5]);
    assert_eq!(buf.seek(SeekFrom::End(-2)), Ok(3));
    assert_eq!(buf.seek(SeekFrom::Current(1)), Ok(4));
    assert_eq!(buf.seek(SeekFrom::Current(-4)), Ok(0));
    assert_eq!(buf.seek(SeekFrom::End(3)), Ok(8));
    assert_eq!(buf.read(1), Vec::<u8>::new());
}

#[test]
fn byte_buf_seek_before_start_is_refused() {
    let mut buf = ByteBuf::from_vec(vec![1, 2, 3]);
    assert_eq!(buf.seek(SeekFrom::Start(2)), Ok(2));
    assert_eq!(buf.seek(SeekFrom::Current(-3)), Err(Error::Io(IoFault::InvalidSeek)));
    assert_eq!(buf.position(), 2);
    assert_eq!(buf.seek(SeekFrom::End(-4)), Err(Error::Io(IoFault::InvalidSeek)));
}

#[test]
fn byte_buf_write_that_overflows_is_refused() {
    let mut buf = ByteBuf::from_vec(vec![1, 2, 3]);
    buf.pos = usize::MAX;
    assert_eq!(buf.write(&[1]), Err(Error::Io(IoFault::Overflow)));
    assert_eq!(buf.get_ref(), &vec![1, 2, 3]);
}

#[test]
fn in_memory_section_size_is_highest_written_position() {
    let mut section = InMemorySection::new(8);
    assert_eq!(section.size(), 0);
    assert_eq!(section.write(&[1, 2, 3, 4]), Ok(4));
    assert_eq!(section.size(), 4);
    assert_eq!(section.seek(SeekFrom::Start(1)), Ok(1));
    assert_eq!(section.size(), 4);
    assert_eq!(section.write(&[9]), Ok(1));
    assert_eq!(section.size(), 4);
    assert!(section.flush().is_ok());
    assert_eq!(section.load_in_memory().unwrap(), vec![1, 9, 3, 4]);
    assert_eq!(section.read(10), vec![3, 4]);
    assert_eq!(section.read(10), Vec::<u8>::new());
}

#[test]
fn auto_section_data_starts_empty() {
    let mut data = AutoSectionData::new();
    assert_eq!(data.size(), 0);
    assert!(!data.is_spilled());
    assert_eq!(data.threshold, MEMORY_THRESHOLD);
    assert_eq!(data.read(4), Vec::<u8>::new());
    assert_eq!(data.load_in_memory().unwrap(), Vec::<u8>::new());
}

#[test]
fn auto_section_data_new_with_size() {
    let small = AutoSectionData::new_with_size(1024).unwrap();
    assert!(!small.is_spilled());
    assert_eq!(small.size(), 0);
    let large = AutoSectionData::new_with_size(100_000_001).unwrap();
    assert!(large.is_spilled());
    assert_eq!(large.size(), 0);
    let edge = AutoSectionData::new_with_size(100_000_000).unwrap();
    assert!(!edge.is_spilled());
}

#[test]
fn auto_section_data_spills_past_the_threshold_and_stays_spilled() {
    let mut data = AutoSectionData::with_threshold(4);
    assert_eq!(data.write(&[1, 2, 3, 4]), Ok(4));
    assert!(!data.is_spilled());
    assert_eq!(data.write(&[5]), Ok(1));
    assert!(data.is_spilled());
    assert_eq!(data.seek(SeekFrom::Start(0)), Ok(0));
    assert_eq!(data.write(&[9]), Ok(1));
    assert!(data.is_spilled());
    assert_eq!(data.size(), 5);
}

#[test]
fn spilling_does_not_change_the_content() {
    let bytes: Vec<u8> = (0..5000u32).map(|v| (v % 251) as u8).collect();
    let mut spilled = AutoSectionData::with_threshold(1000);
    let mut kept = AutoSectionData::with_threshold(1_000_000);
    for chunk in bytes.chunks(300) {
        assert_eq!(spilled.write(chunk), Ok(chunk.len()));
        assert_eq!(kept.write(chunk), Ok(chunk.len()));
    }
    assert!(spilled.is_spilled());
    assert!(!kept.is_spilled());
    assert_eq!(spilled.size(), kept.size());
    assert_eq!(spilled.load_in_memory().unwrap(), kept.load_in_memory().unwrap());
    assert_eq!(spilled.load_in_memory().unwrap(), bytes);
    assert_eq!(spilled.seek(SeekFrom::Start(4990)), Ok(4990));
    assert_eq!(kept.seek(SeekFrom::Start(4990)), Ok(4990));
    assert_eq!(spilled.read(100), kept.read(100));
}

#[test]
fn auto_section_data_read_past_the_size_gives_nothing() {
    let mut data = AutoSectionData::new();
    assert_eq!(data.write(&[1, 2, 3]), Ok(3));
    assert_eq!(data.seek(SeekFrom::Start(10)), Ok(10));
    assert_eq!(data.read(4), Vec::<u8>::new());
    assert_eq!(data.size(), 3);
    assert!(data.flush().is_ok());
}
