//! Checksums.
use gamut_png::crc32::Crc32;

fn crc(data: &[u8]) -> u32 {
    let mut c = Crc32::new();
    c.update(data);
    c.finish()
}

#[test]
fn known_chunk_crcs() {
    // The CRC over the bytes "IEND" is the fixed value every PNG's end chunk carries.
    assert_eq!(crc(b"IEND"), 0xAE42_6082);
    // CRC of the empty string is 0.
    assert_eq!(crc(b""), 0);
}

#[test]
fn incremental_matches_one_shot() {
    // Folding in two parts equals folding the whole (chunk writers feed type then data).
    let mut split = Crc32::new();
    split.update(b"IHDR");
    split.update(&[0, 0, 1, 0]);
    let mut whole = Crc32::new();
    whole.update(b"IHDR\x00\x00\x01\x00");
    assert_eq!(split.finish(), whole.finish());
}
