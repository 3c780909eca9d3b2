//! One input for each way a file or a request is refused.
use gamut_png::chunk::{write_chunk, SIGNATURE};
use gamut_png::decoder::{metadata, PngDecoder};
use gamut_png::encoder::PngEncoder;
use gamut_png::error::{Cause, Error, ErrorKind};
use gamut_png::palette::PngPalette;
use gamut_png::pixels::{ImageRef, PixelFormat};
use gamut_png::survey::{deconstruct, deconstruct_with_limits, DeconstructLimits};
use gamut_png::zlib::zlib_compress;

fn ihdr(width: u32, height: u32, depth: u8, color: u8) -> Vec<u8> {
    let mut data = Vec::new();
    data.extend_from_slice(&width.to_be_bytes());
    data.extend_from_slice(&height.to_be_bytes());
    data.extend_from_slice(&[depth, color, 0, 0, 0]);
    data
}

fn file(chunks: &[(&[u8; 4], Vec<u8>)]) -> Vec<u8> {
    let mut png = SIGNATURE.to_vec();
    for (kind, data) in chunks {
        write_chunk(&mut png, **kind, data);
    }
    png
}

fn idat(scanlines: &[u8]) -> Vec<u8> {
    zlib_compress(scanlines, 6)
}

fn cause(png: &[u8]) -> Cause {
    PngDecoder::new().decode(png).unwrap_err().cause
}

/// A 1x1 8-bit grey file with chunks before and behind its image data.
fn gray(before: &[(&[u8; 4], Vec<u8>)], behind: &[(&[u8; 4], Vec<u8>)]) -> Vec<u8> {
    let mut chunks = vec![(b"IHDR", ihdr(1, 1, 8, 0))];
    chunks.extend_from_slice(before);
    chunks.push((b"IDAT", idat(&[0, 7])));
    chunks.extend_from_slice(behind);
    chunks.push((b"IEND", Vec::new()));
    file(&chunks)
}

#[test]
fn the_plain_file_decodes() {
    assert!(PngDecoder::new().decode(&gray(&[], &[])).is_ok());
}

#[test]
fn framing_faults_are_told_apart_and_placed() {
    let png = gray(&[], &[]);
    assert_eq!(
        PngDecoder::new().decode(b"not a PNG").unwrap_err(),
        Error::at(Cause::BadSignature, 0)
    );
    assert_eq!(cause(&SIGNATURE), Cause::MissingIhdr);
    assert_eq!(
        PngDecoder::new().decode(&png[..12]).unwrap_err(),
        Error::at(Cause::TruncatedChunk, 8)
    );
    assert_eq!(
        PngDecoder::new().decode(&png[..30]).unwrap_err(),
        Error::at(Cause::TruncatedCrc, 8)
    );
    assert_eq!(
        PngDecoder::new().decode(&png[..20]).unwrap_err(),
        Error::at(Cause::ChunkOverrun, 8)
    );
    let mut long = png.clone();
    long[8] = 0x80;
    assert_eq!(
        PngDecoder::new().decode(&long).unwrap_err(),
        Error::at(Cause::ChunkTooLong, 8)
    );
}

#[test]
fn a_header_is_checked_field_by_field() {
    let with = |data: Vec<u8>| cause(&file(&[(b"IHDR", data), (b"IEND", Vec::new())]));
    assert_eq!(with(vec![0; 12]), Cause::IhdrLength);
    assert_eq!(with(ihdr(0, 1, 8, 0)), Cause::ImageDimensions);
    assert_eq!(with(ihdr(1, 0x8000_0000, 8, 0)), Cause::ImageDimensions);
    assert_eq!(with(ihdr(1, 1, 8, 1)), Cause::UnknownColorType);
    assert_eq!(with(ihdr(1, 1, 3, 0)), Cause::DepthNotAllowed);
    let mut method = ihdr(1, 1, 8, 0);
    method[12] = 2;
    assert_eq!(with(method), Cause::UnknownMethod);
}

#[test]
fn critical_chunks_are_ordered_and_intact() {
    assert_eq!(cause(&file(&[(b"IDAT", idat(&[0, 7]))])), Cause::FirstChunkNotIhdr);
    assert_eq!(cause(&gray(&[(b"IHDR", ihdr(1, 1, 8, 0))], &[])), Cause::DuplicateIhdr);
    assert_eq!(
        cause(&file(&[(b"IHDR", ihdr(1, 1, 8, 0)), (b"IEND", Vec::new())])),
        Cause::MissingIdat
    );
    let whole = gray(&[], &[]);
    assert_eq!(cause(&whole[..whole.len() - 12]), Cause::MissingIend);
    let mut damaged = whole.clone();
    damaged[16] ^= 1;
    assert_eq!(cause(&damaged), Cause::CriticalCrcMismatch);
    assert_eq!(
        cause(&file(&[
            (b"IHDR", ihdr(1, 1, 8, 0)),
            (b"IDAT", idat(&[0, 7])),
            (b"IEND", vec![1]),
        ])),
        Cause::IendNotEmpty
    );
    assert_eq!(
        cause(&gray(&[], &[(b"tIME", vec![0; 7]), (b"IDAT", Vec::new())])),
        Cause::IdatNotConsecutive
    );
    assert_eq!(cause(&gray(&[(b"ABCD", Vec::new())], &[])), Cause::UnknownCriticalChunk);
    assert_eq!(cause(&gray(&[], &[(b"PLTE", vec![0; 3])])), Cause::PlteAfterIdat);
    assert_eq!(cause(&gray(&[], &[(b"tRNS", vec![0; 2])])), Cause::TrnsAfterIdat);
    let plte: (&[u8; 4], Vec<u8>) = (b"PLTE", vec![0; 3]);
    assert_eq!(cause(&gray(&[plte.clone(), plte.clone()], &[])), Cause::DuplicatePlte);
    assert_eq!(cause(&gray(&[(b"tRNS", vec![0; 2]), plte], &[])), Cause::PlteAfterTrns);
}

#[test]
fn palettes_and_transparency_fit_the_colour_type() {
    let with = |depth: u8, color: u8, before: &[(&[u8; 4], Vec<u8>)]| {
        let mut chunks = vec![(b"IHDR", ihdr(1, 1, depth, color))];
        chunks.extend_from_slice(before);
        chunks.push((b"IDAT", idat(&[0, 0])));
        chunks.push((b"IEND", Vec::new()));
        cause(&file(&chunks))
    };
    assert_eq!(with(8, 0, &[(b"PLTE", vec![0; 3])]), Cause::PlteForbidden);
    assert_eq!(with(8, 3, &[]), Cause::PlteRequired);
    assert_eq!(with(8, 3, &[(b"PLTE", vec![0; 4])]), Cause::PlteNotTriples);
    assert_eq!(with(8, 3, &[(b"PLTE", Vec::new())]), Cause::PaletteSize);
    assert_eq!(with(8, 2, &[(b"PLTE", vec![0; 4])]), Cause::MalformedPlte);
    assert_eq!(with(1, 3, &[(b"PLTE", vec![0; 9])]), Cause::PaletteTooLarge);
    assert_eq!(
        with(8, 3, &[(b"PLTE", vec![0; 3]), (b"tRNS", vec![0; 2])]),
        Cause::TooManyAlphas
    );
    assert_eq!(with(8, 4, &[(b"tRNS", vec![0; 2])]), Cause::TrnsForbidden);
    assert_eq!(with(8, 0, &[(b"tRNS", vec![0; 3])]), Cause::MalformedTrns);
}

#[test]
fn image_data_is_checked_against_the_header() {
    let with = |depth: u8, color: u8, stream: Vec<u8>| {
        cause(&file(&[
            (b"IHDR", ihdr(2, 1, depth, color)),
            (b"IDAT", stream),
            (b"IEND", Vec::new()),
        ]))
    };
    assert_eq!(with(8, 0, vec![1, 2, 3]), Cause::CorruptZlib);
    assert_eq!(with(8, 0, idat(&[0, 1, 2, 3])), Cause::CorruptZlib, "longer than the image");
    assert_eq!(with(8, 0, idat(&[0, 1])), Cause::IdatTooShort);
    assert_eq!(with(8, 0, idat(&[5, 1, 2])), Cause::UndefinedFilter);
    assert_eq!(
        cause(&file(&[
            (b"IHDR", ihdr(2, 1, 8, 3)),
            (b"PLTE", vec![0; 3]),
            (b"IDAT", idat(&[0, 0, 1])),
            (b"IEND", Vec::new()),
        ])),
        Cause::IndexOutOfRange
    );
}

#[test]
fn limits_are_unsupported_rather_than_invalid() {
    let png = gray(&[], &[]);
    let small = PngDecoder::new().with_max_dimensions(0, 1).decode(&png).unwrap_err();
    assert_eq!((small.cause, small.kind()), (Cause::DimensionLimit, ErrorKind::Unsupported));
    let tight = PngDecoder::new().with_max_image_bytes(0).decode(&png).unwrap_err();
    assert_eq!((tight.cause, tight.kind()), (Cause::SizeLimit, ErrorKind::Unsupported));
    let lossy = PngDecoder::new().present(&png, PixelFormat::Bilevel).unwrap_err();
    assert_eq!((lossy.cause, lossy.kind()), (Cause::LossyLayout, ErrorKind::Unsupported));
    assert_eq!(lossy.origin(), "gamut-png");
    assert_eq!(small.byte_offset(), None);
}

#[test]
fn requests_are_checked_before_a_byte_is_written() {
    let three = [0u8; 3];
    assert_eq!(
        ImageRef::new8(PixelFormat::Gray8, &three, 2, 2).unwrap_err().cause,
        Cause::SampleCount
    );
    let image = ImageRef::new8(PixelFormat::Gray8, &three, 3, 1).unwrap();
    let mut out = vec![9u8];
    let refused = PngEncoder::new().with_text("", "x").encode_image(&image, &mut out);
    assert_eq!(refused.unwrap_err().cause, Cause::RefusedAnnotation);
    assert_eq!(out, vec![9u8]);
    assert_eq!(PngPalette::new(&[]).unwrap_err().cause, Cause::PaletteSize);
    let palette = PngPalette::new(&[[1, 2, 3]]).unwrap();
    let indices = [0u8, 1, 0];
    let image = ImageRef::new8(PixelFormat::Indexed8, &indices, 3, 1).unwrap();
    assert_eq!(
        PngEncoder::new().encode_indexed8(&image, &palette, &mut out).unwrap_err().cause,
        Cause::IndexOutOfRange
    );
    assert_eq!(out, vec![9u8]);
}

#[test]
fn a_survey_refuses_only_what_it_cannot_start() {
    assert_eq!(deconstruct(b"junk").unwrap_err().cause, Cause::BadSignature);
    assert_eq!(deconstruct(&SIGNATURE).unwrap_err().cause, Cause::NoFirstChunk);
    assert_eq!(
        deconstruct(&file(&[(b"IDAT", Vec::new())])).unwrap_err().cause,
        Cause::HeaderNotFirst
    );
    let limits = DeconstructLimits::default().with_max_chunks(2);
    assert_eq!(
        deconstruct_with_limits(&gray(&[], &[]), limits).unwrap_err().cause,
        Cause::TooManyChunks
    );
}

#[test]
fn reading_metadata_needs_no_image_data() {
    let png = file(&[(b"IHDR", ihdr(1, 1, 8, 0)), (b"gAMA", vec![0, 0, 0, 5]), (b"IEND", Vec::new())]);
    assert_eq!(cause(&png), Cause::MissingIdat);
    assert_eq!(metadata(&png).unwrap().gamma, Some(5));
    // A file cut off behind its metadata has none to give.
    assert_eq!(metadata(&png[..png.len() - 12]).unwrap_err().cause, Cause::MissingIend);
}
