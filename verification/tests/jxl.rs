//! The metadata boxes of a JPEG XL container.
use gamut_png::backend::{JxlCodestreamDecoder, JxlDecoded, JxlDecoder, JxlStreamInfo};
use gamut_png::error::{Cause, Error, ErrorKind};
use gamut_png::jxl::{
    container_metadata_boxes, exif_box_tiff_stream, parse_box_header, JxlFraming, JxlMetadata,
};
use gamut_png::metadata::MetadataBlock;

/// A backend that takes nothing on.
struct NoBackend;

impl JxlCodestreamDecoder for NoBackend {
    fn supports(&mut self, _info: &JxlStreamInfo) -> bool {
        false
    }

    fn decode(&mut self, _info: &JxlStreamInfo, _codestream: &[u8]) -> Result<JxlDecoded, Error> {
        Err(Error::new(Cause::BackendDeclined))
    }
}


const SIGNATURE: [u8; 12] = [
    0x00, 0x00, 0x00, 0x0C, 0x4A, 0x58, 0x4C, 0x20, 0x0D, 0x0A, 0x87, 0x0A,
];
const TIFF: &[u8] = b"II\x2A\x00\x08\x00\x00\x00\x00\x00";

fn bx(ty: &[u8; 4], body: &[u8]) -> Vec<u8> {
    let mut out = (8 + body.len() as u32).to_be_bytes().to_vec();
    out.extend_from_slice(ty);
    out.extend_from_slice(body);
    out
}

fn bx64(ty: &[u8; 4], body: &[u8]) -> Vec<u8> {
    let mut out = 1u32.to_be_bytes().to_vec();
    out.extend_from_slice(ty);
    out.extend_from_slice(&(16 + body.len() as u64).to_be_bytes());
    out.extend_from_slice(body);
    out
}

fn bx0(ty: &[u8; 4], body: &[u8]) -> Vec<u8> {
    let mut out = 0u32.to_be_bytes().to_vec();
    out.extend_from_slice(ty);
    out.extend_from_slice(body);
    out
}

fn container(boxes: &[Vec<u8>]) -> Vec<u8> {
    let mut out = SIGNATURE.to_vec();
    for b in boxes {
        out.extend_from_slice(b);
    }
    out
}

fn exif_payload(offset: u32, gap: usize) -> Vec<u8> {
    let mut out = offset.to_be_bytes().to_vec();
    out.extend(vec![0xEE; gap]);
    out.extend_from_slice(TIFF);
    out
}

#[test]
fn exif_box_yields_the_tiff_stream_behind_the_offset() {
    // Offset 0 (what the encoder writes) and a non-zero offset skipping filler bytes.
    for (offset, gap) in [(0, 0), (6, 6)] {
        let data = container(&[
            bx(b"ftyp", b"jxl "),
            bx(b"Exif", &exif_payload(offset, gap)),
        ]);
        let (exif, xmp) = container_metadata_boxes(&data).unwrap();
        assert_eq!(exif.as_deref(), Some(TIFF), "offset {offset}");
        assert_eq!(xmp, None);
    }
}

#[test]
fn xml_box_is_verbatim_and_the_first_of_a_kind_wins() {
    let data = container(&[
        bx(b"xml ", b"<x:xmpmeta>first</x:xmpmeta>"),
        bx(b"jxlc", &[0xFF, 0x0A]),
        bx(b"xml ", b"<x:xmpmeta>second</x:xmpmeta>"),
        bx(b"Exif", &exif_payload(0, 0)),
        bx(b"Exif", b"\0\0\0\0MM\0*"),
    ]);
    let (exif, xmp) = container_metadata_boxes(&data).unwrap();
    assert_eq!(xmp.as_deref(), Some(&b"<x:xmpmeta>first</x:xmpmeta>"[..]));
    assert_eq!(exif.as_deref(), Some(TIFF));
}

#[test]
fn largesize_and_to_end_of_file_boxes_are_walked() {
    let data = container(&[bx64(b"Exif", &exif_payload(0, 0)), bx0(b"xml ", b"<x/>")]);
    let (exif, xmp) = container_metadata_boxes(&data).unwrap();
    assert_eq!(exif.as_deref(), Some(TIFF));
    assert_eq!(xmp.as_deref(), Some(&b"<x/>"[..]));
}

#[test]
fn an_empty_box_is_walked_over_rather_than_rejected() {
    // A box whose `size` is exactly the 8-byte header carries no payload and is legal §4.2
    // framing: the walk must step over it and keep going, so the minimum-size rule is
    // `box_len < 8`, not `<= 8`. It is also the smallest step the walk can take, which is what
    // makes the loop's progress local to it.
    let data = container(&[
        bx(b"free", b""),
        bx(b"Exif", &exif_payload(0, 0)),
        bx(b"free", b""),
        bx(b"xml ", b"<x/>"),
    ]);
    let (exif, xmp) = container_metadata_boxes(&data).unwrap();
    assert_eq!(exif.as_deref(), Some(TIFF));
    assert_eq!(xmp.as_deref(), Some(&b"<x/>"[..]));

    // An empty box of a kind the walk *does* read is an empty payload, not an absent one.
    let data = container(&[bx(b"xml ", b"")]);
    let (_, xmp) = container_metadata_boxes(&data).unwrap();
    assert_eq!(xmp.as_deref(), Some(&b""[..]));
}

#[test]
fn a_container_without_metadata_boxes_yields_nothing() {
    let data = container(&[bx(b"ftyp", b"jxl "), bx(b"jxlc", &[0xFF, 0x0A])]);
    assert_eq!(container_metadata_boxes(&data).unwrap(), (None, None));
}

#[test]
fn brob_wrapping_a_metadata_box_is_unsupported() {
    for inner in [b"Exif", b"xml "] {
        let mut body = inner.to_vec();
        body.extend_from_slice(b"\x0b\x02\x80compressed");
        let data = container(&[bx(b"brob", &body)]);
        let err = container_metadata_boxes(&data).unwrap_err();
        assert_eq!(err.kind(), ErrorKind::Unsupported);
        assert_eq!(
            err.message(),
            "JXL: Brotli-compressed metadata box (brob) is not supported"
        );
    }
}

#[test]
fn brob_wrapping_another_box_is_skipped() {
    let data = container(&[
        bx(b"brob", b"jumb\x0b\x02\x80compressed"),
        bx(b"xml ", b"<x/>"),
    ]);
    let (exif, xmp) = container_metadata_boxes(&data).unwrap();
    assert_eq!(exif, None);
    assert_eq!(xmp.as_deref(), Some(&b"<x/>"[..]));
}

#[test]
fn malformed_box_sequences_are_invalid_input_with_the_named_fault() {
    let cases: [(Vec<u8>, &str); 7] = [
        // Seven bytes where a header should be.
        (
            container(&[vec![0, 0, 0, 9, b'x', b'm', b'l']]),
            "JXL: truncated box header",
        ),
        // `size == 1` but no `largesize`.
        (
            container(&[vec![0, 0, 0, 1, b'E', b'x', b'i', b'f', 0, 0]]),
            "JXL: truncated box header",
        ),
        // A 32-bit size below the header's own length.
        (
            container(&[vec![0, 0, 0, 4, b'x', b'm', b'l', b' ']]),
            "JXL: malformed box size",
        ),
        // A `largesize` below its header's own length.
        (
            container(&[vec![
                0, 0, 0, 1, b'x', b'm', b'l', b' ', 0, 0, 0, 0, 0, 0, 0, 8,
            ]]),
            "JXL: malformed box size",
        ),
        // A box claiming more bytes than remain.
        (
            container(&[vec![
                0, 0, 0, 20, b'x', b'm', b'l', b' ', b'<', b'x', b'/', b'>',
            ]]),
            "JXL: box overruns the stream",
        ),
        // A `largesize` no address space can hold.
        (
            container(&[vec![
                0, 0, 0, 1, b'x', b'm', b'l', b' ', 0xFF, 0xFF, 0xFF, 0xFF, 0xFF, 0xFF, 0xFF,
                0xFF,
            ]]),
            "JXL: box overruns the stream",
        ),
        // A `brob` box too short to name the box it wraps.
        (container(&[bx(b"brob", b"xm")]), "JXL: truncated brob box"),
    ];
    for (data, message) in cases {
        let err = container_metadata_boxes(&data).unwrap_err();
        assert_eq!(err.kind(), ErrorKind::InvalidInput, "{message}");
        assert_eq!(err.message(), message);
    }
}

#[test]
fn malformed_exif_payloads_are_invalid_input_with_the_named_fault() {
    let cases: [(&[u8], &str); 2] = [
        (b"\0\0\0", "JXL: truncated Exif box"),
        (
            b"\0\0\0\x0bII*\0",
            "JXL: Exif box tiff-header offset out of range",
        ),
    ];
    for (payload, message) in cases {
        let data = container(&[bx(b"Exif", payload)]);
        let err = container_metadata_boxes(&data).unwrap_err();
        assert_eq!(err.kind(), ErrorKind::InvalidInput, "{message}");
        assert_eq!(err.message(), message);
    }
    // An offset landing exactly at the end is an empty (not out-of-range) stream.
    assert_eq!(exif_box_tiff_stream(b"\0\0\0\x02ab").unwrap(), b"");
}

#[test]
fn metadata_of_a_stream_with_neither_signature_is_invalid_input() {
    let err = JxlDecoder::<NoBackend>::new().metadata(b"not a jxl", Ok(None)).unwrap_err();
    assert_eq!(err.kind(), ErrorKind::InvalidInput);
    assert_eq!(
        err.message(),
        "JXL: neither the codestream nor the container signature"
    );
}

#[test]
fn the_blocks_of_a_container_come_back_by_carrier() {
    let data = container(&[
        bx(b"Exif", &exif_payload(0, 0)),
        bx(b"xml ", b"<x/>"),
    ]);
    let decoder = JxlDecoder::<NoBackend>::new();
    let meta = decoder.metadata(&data, Ok(Some(vec![1, 2, 3]))).unwrap();
    assert_eq!(
        meta.blocks(),
        vec![
            MetadataBlock::Exif(TIFF),
            MetadataBlock::Xmp(b"<x/>"),
            MetadataBlock::Icc(&[1, 2, 3]),
        ]
    );
    assert_eq!(JxlMetadata::default().blocks(), vec![]);
}

#[test]
fn a_bare_codestream_has_no_boxes() {
    let decoder = JxlDecoder::<NoBackend>::new();
    let meta = decoder.metadata(&[0xFF, 0x0A, 0, 0, 0], Ok(None)).unwrap();
    assert_eq!(meta, JxlMetadata::default());
}

#[test]
fn a_malformed_container_is_refused_before_its_codestream_is_looked_at() {
    let decoder = JxlDecoder::<NoBackend>::new();
    let data = container(&[vec![0, 0, 0, 4, b'x', b'm', b'l', b' ']]);
    let failure = Error::new(Cause::BackendFailed);
    assert_eq!(
        decoder.metadata(&data, Err(failure)).unwrap_err().cause,
        Cause::MalformedBoxSize
    );
    assert_eq!(decoder.metadata(&container(&[]), Err(failure)).unwrap_err(), failure);
}

#[test]
fn framing_is_told_by_the_first_bytes() {
    assert_eq!(JxlFraming::detect(&[0xFF, 0x0A]), JxlFraming::Codestream);
    assert_eq!(JxlFraming::detect(&SIGNATURE), JxlFraming::IsoBmff);
    assert_eq!(JxlFraming::detect(&SIGNATURE[..11]), JxlFraming::Unknown);
    assert_eq!(JxlFraming::detect(&[0xFF]), JxlFraming::Unknown);
    assert_eq!(JxlFraming::detect(&[]), JxlFraming::Unknown);
}

#[test]
fn a_box_header_names_its_type_and_lengths() {
    assert_eq!(parse_box_header(&bx(b"free", b"abc")).unwrap(), (*b"free", 8, 11));
    assert_eq!(parse_box_header(&bx64(b"free", b"abc")).unwrap(), (*b"free", 16, 19));
    assert_eq!(parse_box_header(&bx0(b"free", b"abc")).unwrap(), (*b"free", 8, 11));
    assert_eq!(
        parse_box_header(&[0; 7]).unwrap_err().cause,
        Cause::TruncatedBoxHeader
    );
}
