//! Files taken apart.
use gamut_png::chunk::{write_chunk, SIGNATURE};
use gamut_png::deconstruct::{FilterScan, Segment, SegmentKind, SkippedFilterScan};
use gamut_png::encoder::PngEncoder;
use gamut_png::filter::{FilterStrategy, FilterType};
use gamut_png::pixels::{ImageRef, PixelFormat};
use gamut_png::survey::{deconstruct, deconstruct_with_limits, DeconstructLimits};
use gamut_png::zlib::zlib_compress;

fn sample() -> Vec<u8> {
    let samples: Vec<u8> = (0..60u8).collect();
    let image = ImageRef::new8(PixelFormat::Rgb8, &samples, 4, 5).unwrap();
    PngEncoder::new()
        .with_auto_reduce(false)
        .with_filter(FilterStrategy::Fixed(FilterType::Sub))
        .with_text("Title", "t")
        .encode_to_vec(&image)
        .unwrap()
}

fn kinds(segments: &[Segment]) -> Vec<String> {
    segments
        .iter()
        .map(|s| match s.kind {
            SegmentKind::Signature => "sig".to_string(),
            SegmentKind::Chunk { chunk_type, .. } => {
                String::from_utf8(chunk_type.to_vec()).unwrap()
            }
            SegmentKind::Trailer => "trailer".to_string(),
            SegmentKind::Truncated => "cut".to_string(),
            other => panic!("{other:?}"),
        })
        .collect()
}

#[test]
fn signature_framing_payloads_and_tail_add_up() {
    let whole = sample();
    let mut trailed = whole.clone();
    trailed.extend_from_slice(&[1, 2, 3, 4, 5]);
    let cut = whole[..whole.len() - 3].to_vec();
    for (png, tail) in [(whole, 0), (trailed, 5), (cut, 9)] {
        let report = deconstruct(&png).unwrap();
        let payloads: usize = report.chunks.iter().map(|c| c.payload_bytes).sum();
        assert_eq!(8 + report.framing_bytes() + payloads + tail, png.len());
        for entry in report.chunks.iter() {
            let mut own = (0, 0);
            for segment in report.segments.iter() {
                if let SegmentKind::Chunk { chunk_type, payload_len, .. } = segment.kind {
                    if chunk_type == entry.chunk_type {
                        own = (own.0 + 1, own.1 + payload_len);
                    }
                }
            }
            assert_eq!((entry.count, entry.payload_bytes), own);
        }
    }
}

#[test]
fn every_byte_of_a_whole_file_is_accounted_for() {
    let png = sample();
    let report = deconstruct(&png).unwrap();
    assert_eq!(kinds(&report.segments), ["sig", "IHDR", "tEXt", "IDAT", "IEND"]);
    assert!(report.is_fully_classified());
    assert!(report.is_intact());
    assert!(report.is_verified());
    assert_eq!(report.file_len, png.len());
    assert_eq!(report.filtered_len, 5 * 13);
    assert_eq!(report.framing_bytes(), 4 * 12);
    assert_eq!(report.overhead_bytes(), png.len() - report.idat_compressed);
    assert_eq!(report.native_bytes(), Some(60));
    let text = report.chunk(b"tEXt").unwrap();
    assert_eq!((text.count, text.payload_bytes, text.total_bytes()), (1, 7, 19));
    assert!(text.is_ancillary());
    assert!(!report.chunk(b"IDAT").unwrap().is_ancillary());
    assert!(report.chunk(b"zTXt").is_none());
    match report.filters {
        FilterScan::Counted(histogram) => {
            assert_eq!(histogram.count(FilterType::Sub), 5);
            assert_eq!(histogram.total(), 5);
        }
        other => panic!("{other:?}"),
    }
}

#[test]
fn a_cut_file_is_taken_apart_up_to_the_cut() {
    let png = sample();
    let cut = &png[..png.len() - 20];
    let report = deconstruct(cut).unwrap();
    assert_eq!(kinds(&report.segments), ["sig", "IHDR", "tEXt", "cut"]);
    assert!(report.is_fully_classified());
    assert!(!report.is_intact());
    assert!(!report.is_verified());
}

#[test]
fn bytes_behind_the_end_are_a_trailer() {
    let mut png = sample();
    let end = png.len();
    png.extend_from_slice(b"tail");
    let report = deconstruct(&png).unwrap();
    let last = report.segments[report.segments.len() - 1];
    assert_eq!((last.start, last.end, last.kind), (end, end + 4, SegmentKind::Trailer));
    assert!(report.is_fully_classified());
    assert!(!report.is_intact());
}

#[test]
fn a_file_without_an_end_is_not_intact() {
    let png = sample();
    let report = deconstruct(&png[..png.len() - 12]).unwrap();
    assert_eq!(kinds(&report.segments), ["sig", "IHDR", "tEXt", "IDAT"]);
    assert!(report.is_fully_classified());
    assert!(!report.is_intact());
}

#[test]
fn a_damaged_chunk_is_kept_and_marked() {
    let mut png = sample();
    png[8 + 25 + 8] ^= 1;
    let report = deconstruct(&png).unwrap();
    assert!(matches!(report.segments[2].kind, SegmentKind::Chunk { crc_ok: false, .. }));
    assert!(report.is_fully_classified());
    assert!(!report.is_intact());
}

#[test]
fn chunks_of_unknown_types_are_counted_like_the_others() {
    let png = sample();
    let mut more = png[..33].to_vec();
    write_chunk(&mut more, *b"zzZz", b"abc");
    write_chunk(&mut more, *b"zzZz", b"");
    more.extend_from_slice(&png[33..]);
    let report = deconstruct(&more).unwrap();
    let stats = report.chunk(b"zzZz").unwrap();
    assert_eq!((stats.count, stats.payload_bytes, stats.framing_bytes()), (2, 3, 24));
    assert!(report.is_fully_classified());
}

#[test]
fn filters_are_read_only_where_the_stream_can_be() {
    let with = |data: &[u8]| {
        let mut png = SIGNATURE.to_vec();
        let mut ihdr = vec![0, 0, 0, 2, 0, 0, 0, 1];
        ihdr.extend_from_slice(&[8, 0, 0, 0, 0]);
        write_chunk(&mut png, *b"IHDR", &ihdr);
        write_chunk(&mut png, *b"IDAT", data);
        write_chunk(&mut png, *b"IEND", &[]);
        png
    };
    let good = deconstruct(&with(&zlib_compress(&[4, 1, 2], 6))).unwrap();
    assert_eq!(good.filters.histogram().unwrap().count(FilterType::Paeth), 1);
    let short = deconstruct(&with(&zlib_compress(&[4, 1], 6))).unwrap();
    assert!(short.filters.is_damage());
    let torn = deconstruct(&with(&[1, 2, 3])).unwrap();
    assert_eq!(torn.filters.skipped(), Some(SkippedFilterScan::CorruptStream));
    let undefined = deconstruct(&with(&zlib_compress(&[9, 1, 2], 6))).unwrap();
    assert!(!undefined.filters.is_counted());
    let limits = DeconstructLimits::default().with_max_image_bytes(1);
    let capped = deconstruct_with_limits(&with(&zlib_compress(&[4, 1, 2], 6)), limits).unwrap();
    assert!(!capped.filters.is_counted());
    assert!(!capped.filters.is_damage(), "a limit is no damage");
}

#[test]
fn interlacing_is_seen_pass_by_pass() {
    let mut png = SIGNATURE.to_vec();
    write_chunk(&mut png, *b"IHDR", &[0, 0, 0, 8, 0, 0, 0, 8, 8, 0, 0, 0, 1]);
    write_chunk(&mut png, *b"IEND", &[]);
    let report = deconstruct(&png).unwrap();
    let shapes: Vec<(u32, u32)> = report.passes.iter().map(|p| (p.width, p.height)).collect();
    assert_eq!(shapes, [(1, 1), (1, 1), (2, 1), (2, 2), (4, 2), (4, 4), (8, 4)]);
    assert_eq!(report.filtered_len, 2 + 2 + 3 + 6 + 10 + 20 + 36);
}
