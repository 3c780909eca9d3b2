//! Chunk framing.
use gamut_png::chunk::{write_chunk, ChunkReader, SIGNATURE};

#[test]
fn iend_chunk_layout() {
    let mut out = Vec::new();
    write_chunk(&mut out, *b"IEND", &[]);
    // length 0, type "IEND", no data, fixed CRC 0xAE426082.
    assert_eq!(
        out,
        vec![0, 0, 0, 0, b'I', b'E', b'N', b'D', 0xAE, 0x42, 0x60, 0x82]
    );
}

#[test]
fn chunk_carries_length_and_data() {
    let mut out = Vec::new();
    write_chunk(&mut out, *b"tEXt", &[1, 2, 3]);
    assert_eq!(out[..4], 3u32.to_be_bytes()); // length field
    assert_eq!(&out[4..8], b"tEXt"); // type
    assert_eq!(&out[8..11], &[1, 2, 3]); // data
    assert_eq!(out.len(), 4 + 4 + 3 + 4); // + CRC
}

#[test]
fn reader_round_trips_written_chunks() {
    let mut png = SIGNATURE.to_vec();
    write_chunk(&mut png, *b"IHDR", &[1, 2, 3, 4, 5]);
    write_chunk(&mut png, *b"IEND", &[]);
    let mut reader = ChunkReader::new(&png).unwrap();
    let first = reader.next_chunk().unwrap().unwrap();
    assert_eq!(first.chunk_type, *b"IHDR");
    assert_eq!(first.data, &[1, 2, 3, 4, 5]);
    assert!(first.crc_ok);
    assert!(!first.is_ancillary());
    let second = reader.next_chunk().unwrap().unwrap();
    assert_eq!(second.chunk_type, *b"IEND");
    assert!(second.data.is_empty());
    assert!(reader.next_chunk().unwrap().is_none());
}

#[test]
fn reader_rejects_bad_signature_and_truncation() {
    assert!(ChunkReader::new(&[]).is_err());
    assert!(ChunkReader::new(b"\x89PNG\r\n\x1a").is_err()); // one byte short
    let mut wrong = SIGNATURE;
    wrong[0] = 0x88;
    assert!(ChunkReader::new(&wrong).is_err());

    let mut png = SIGNATURE.to_vec();
    write_chunk(&mut png, *b"IHDR", &[0; 13]);
    // An empty chunk stream is end-of-input, not an error (missing IHDR is the decoder's
    // verdict); any partial chunk must error, never panic.
    let mut empty = ChunkReader::new(&png[..8]).unwrap();
    assert!(empty.next_chunk().unwrap().is_none());
    for cut in 9..png.len() {
        let mut reader = ChunkReader::new(&png[..cut]).unwrap();
        assert!(reader.next_chunk().is_err(), "cut at {cut}");
    }
}

#[test]
fn reader_flags_crc_mismatch_and_criticality() {
    let mut png = SIGNATURE.to_vec();
    write_chunk(&mut png, *b"gAMA", &45455u32.to_be_bytes());
    let last = png.len() - 1;
    png[last] ^= 0xFF; // corrupt the CRC
    let mut reader = ChunkReader::new(&png).unwrap();
    let chunk = reader.next_chunk().unwrap().unwrap();
    assert!(!chunk.crc_ok);
    assert!(chunk.is_ancillary());
}

#[test]
fn reader_rejects_oversized_length() {
    let mut png = SIGNATURE.to_vec();
    write_chunk(&mut png, *b"tEXt", &[1, 2, 3]);
    png.extend_from_slice(&(1u32 << 31).to_be_bytes());
    png.extend_from_slice(b"IDAT");
    let mut reader = ChunkReader::new(&png).unwrap();
    assert!(reader.next_chunk().unwrap().is_some());
    let error = match reader.next_chunk() {
        Err(error) => error,
        Ok(_) => panic!("oversized chunk length must fail"),
    };
    assert_eq!(error.origin(), "gamut-png");
    assert_eq!(error.byte_offset(), Some(23));
}
