//! The C2PA manifest store: reserved, found, filled.
use gamut_png::chunk::{write_chunk, CABX, SIGNATURE};
use gamut_png::crc32::Crc32;
use gamut_png::decoder::metadata;
use gamut_png::encoder::PngEncoder;
use gamut_png::pixels::{ImageRef, PixelFormat};
use gamut_png::store::find_c2pa;

const SAMPLES: [u8; 4] = [1, 2, 3, 4];

fn image() -> ImageRef<'static> {
    ImageRef::new8(PixelFormat::Gray8, &SAMPLES, 2, 2).unwrap()
}

#[test]
fn a_reservation_is_reported_where_it_lies() {
    let encoder = PngEncoder::new().with_text("Title", "before").with_c2pa_reserved(40);
    let (png, report) = encoder.encode_with_report(&image()).unwrap();
    let span = report.c2pa.unwrap();
    assert_eq!(span.payload_start, span.chunk_start + 8);
    assert_eq!(span.payload_end + 4, span.chunk_end);
    assert_eq!(span.payload_end - span.payload_start, 40);
    assert_eq!(&png[span.chunk_start + 4..span.payload_start], b"caBX");
    assert!(png[span.payload_start..span.payload_end].iter().all(|&b| b == 0));
    assert_eq!(&png[span.chunk_end + 4..span.chunk_end + 8], b"IDAT");
    assert_eq!(find_c2pa(&png), Some(span));
}

#[test]
fn a_reservation_filled_in_place_is_the_file_with_the_store() {
    let store: Vec<u8> = (0..40u8).collect();
    let (mut png, report) =
        PngEncoder::new().with_c2pa_reserved(40).encode_with_report(&image()).unwrap();
    let span = report.c2pa.unwrap();
    png[span.payload_start..span.payload_end].copy_from_slice(&store);
    let mut crc = Crc32::new();
    crc.update(b"caBX");
    crc.update(&store);
    png[span.payload_end..span.chunk_end].copy_from_slice(&crc.finish().to_be_bytes());
    assert_eq!(png, PngEncoder::new().with_c2pa(&store).encode_to_vec(&image()).unwrap());
    assert_eq!(metadata(&png).unwrap().c2pa, Some(store));
}

#[test]
fn without_a_store_nothing_is_reported() {
    let (png, report) = PngEncoder::new().encode_with_report(&image()).unwrap();
    assert_eq!(report.c2pa, None);
    assert_eq!(find_c2pa(&png), None);
    assert_eq!(find_c2pa(b"no png"), None);
}

#[test]
fn a_second_store_is_counted_and_a_late_one_is_too() {
    let png = PngEncoder::new().with_c2pa(b"first").encode_to_vec(&image()).unwrap();
    let span = find_c2pa(&png).unwrap();
    let mut second = Vec::new();
    write_chunk(&mut second, CABX, b"second");
    // A second one behind the first.
    let mut twice = png[..span.chunk_end].to_vec();
    twice.extend_from_slice(&second);
    twice.extend_from_slice(&png[span.chunk_end..]);
    let back = metadata(&twice).unwrap();
    assert_eq!((back.c2pa, back.c2pa_ignored), (Some(b"first".to_vec()), 1));
    // One behind the image data.
    let mut late = png[..png.len() - 12].to_vec();
    late.extend_from_slice(&second);
    late.extend_from_slice(&png[png.len() - 12..]);
    let back = metadata(&late).unwrap();
    assert_eq!((back.c2pa, back.c2pa_ignored), (Some(b"first".to_vec()), 1));
    assert_eq!(find_c2pa(&late), Some(span));
    assert_eq!(&png[..8], &SIGNATURE);
}

#[test]
fn a_damaged_store_is_passed_over() {
    let mut png = PngEncoder::new().with_c2pa(b"store").encode_to_vec(&image()).unwrap();
    let span = find_c2pa(&png).unwrap();
    png[span.payload_start] ^= 1;
    assert_eq!(find_c2pa(&png), None);
    let back = metadata(&png).unwrap();
    assert_eq!((back.c2pa, back.c2pa_ignored), (None, 0));
}
