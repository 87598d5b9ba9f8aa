use bpx::checksum::{ChecksumEngine, Crc32Checksum, WeakChecksum};

#[test]
fn weak_checksum_sums_bytes() {
    let mut engine = WeakChecksum::new();
    engine.push(&[0x01, 0x02, 0x03]);
    assert_eq!(engine.finish(), 6);
}

#[test]
fn weak_checksum_of_nothing_is_zero() {
    let engine = WeakChecksum::new();
    assert_eq!(engine.finish(), 0);
}

#[test]
fn weak_checksum_wraps_at_32_bits() {
    let mut engine = WeakChecksum { state: 0xFFFF_FFFF };
    engine.push(&[0x02]);
    assert_eq!(engine.finish(), 1);
}

#[test]
fn weak_checksum_does_not_depend_on_chunks() {
    let bytes: Vec<u8> = (0..1000u32).map(|v| (v * 7 + 3) as u8).collect();
    let expected: u32 = bytes.iter().map(|b| *b as u32).sum();
    let mut whole = WeakChecksum::new();
    whole.push(&bytes);
    assert_eq!(whole.finish(), expected);
    for cut in [0usize, 1, 13, 500, 999, 1000] {
        let mut parts = WeakChecksum::new();
        parts.push(&bytes[..cut]);
        parts.push(&bytes[cut..]);
        assert_eq!(parts.finish(), expected);
    }
    let mut single = WeakChecksum::new();
    for b in &bytes {
        single.push(&[*b]);
    }
    assert_eq!(single.finish(), expected);
}

#[test]
fn crc32_of_check_string() {
    let mut engine = Crc32Checksum::new();
    engine.push(b"123456789");
    assert_eq!(engine.finish(), 0xCBF4_3926);
}

#[test]
fn crc32_of_nothing_is_zero() {
    let engine = Crc32Checksum::new();
    assert_eq!(engine.finish(), 0);
}

#[test]
fn crc32_of_one_byte() {
    let mut engine = Crc32Checksum::new();
    engine.push(b"a");
    assert_eq!(engine.finish(), 0xE8B7_BE43);
}

#[test]
fn crc32_does_not_depend_on_chunks() {
    let mut parts = Crc32Checksum::new();
    parts.push(b"1234");
    parts.push(b"");
    parts.push(b"56789");
    assert_eq!(parts.finish(), 0xCBF4_3926);
}

#[test]
fn engine_runs_the_chosen_algorithm() {
    let mut weak = ChecksumEngine::new(false);
    weak.push(b"123456789");
    assert_eq!(weak.finish(), 477);
    let mut crc = ChecksumEngine::new(true);
    crc.push(b"123456789");
    assert_eq!(crc.finish(), 0xCBF4_3926);
}
