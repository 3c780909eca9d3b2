//! Where the bytes of a file went.
use gamut_png::chunk::{write_chunk, SIGNATURE};
use gamut_png::color::ColorType;
use gamut_png::decoded::PngHeader;
use gamut_png::decoder::DEFAULT_MAX_IMAGE_BYTES;
use gamut_png::deconstruct::{
    ChunkTally, FilterHistogram, FilterScan, PngReport, Segment, SegmentKind, SkippedFilterScan,
};
use gamut_png::ihdr::Ihdr;
use gamut_png::scan::{fits_decode_budget, fits_inflation_ratio, INFLATION_RATIO};
use gamut_png::survey::{deconstruct, deconstruct_with_limits, DeconstructLimits};
use gamut_png::zlib::{zlib_compress, DEFAULT_EFFORT};

fn report_with(ranges: &[(usize, usize)], file_len: usize) -> PngReport {
    PngReport {
        file_len,
        header: PngHeader {
            width: 1,
            height: 1,
            bit_depth: 8,
            color_type: ColorType::Truecolor,
            interlaced: false,
        },
        segments: ranges
            .iter()
            .map(|&(start, end)| Segment {
                start,
                end,
                kind: SegmentKind::Trailer,
            })
            .collect(),
        chunks: Vec::new(),
        idat_compressed: 0,
        filtered_len: 0,
        passes: Vec::new(),
        filters: FilterScan::Skipped(SkippedFilterScan::CorruptStream),
    }
}

#[test]
fn contiguous_segments_covering_the_file_are_fully_classified() {
    assert!(report_with(&[(0, 8), (8, 20), (20, 33)], 33).is_fully_classified());
}

#[test]
fn a_gap_between_segments_is_not_fully_classified() {
    // Every segment is non-empty and the last still reaches `file_len`, so only the
    // start-chaining half of the predicate can reject this.
    assert!(!report_with(&[(0, 8), (9, 33)], 33).is_fully_classified());
}

#[test]
fn an_empty_segment_is_not_fully_classified() {
    // The mirror case: the chain is unbroken, so only the non-empty half can reject it.
    assert!(!report_with(&[(0, 8), (8, 8), (8, 33)], 33).is_fully_classified());
}

#[test]
fn segments_must_start_at_zero_and_reach_the_end() {
    assert!(!report_with(&[(4, 33)], 33).is_fully_classified());
    assert!(!report_with(&[(0, 20)], 33).is_fully_classified());
    assert!(!report_with(&[], 33).is_fully_classified());
    // ...and a zero-length file with no segments is vacuously covered.
    assert!(report_with(&[], 0).is_fully_classified());
}

fn header(width: u32, height: u32, bit_depth: u8, color: ColorType) -> Ihdr {
    Ihdr {
        width,
        height,
        bit_depth,
        color,
        interlaced: false,
    }
}

#[test]
fn the_decode_budget_is_inclusive_and_measures_the_decoded_image() {
    // 4096x4096 RGBA8 is exactly the decoder's default budget, so the walk must scan it. Its
    // *filtered* stream is 67 112 960 bytes — 4096 more, one filter byte per scanline — which
    // is how a cap stated over the filtered length came to decline an image that decodes.
    let at_budget = header(4096, 4096, 8, ColorType::TruecolorAlpha);
    assert!(fits_decode_budget(&at_budget, DEFAULT_MAX_IMAGE_BYTES));
    assert!(!fits_decode_budget(&at_budget, DEFAULT_MAX_IMAGE_BYTES - 1));
    assert!(fits_decode_budget(&at_budget, DEFAULT_MAX_IMAGE_BYTES + 1));
    // One pixel past the budget, at the same dimensions: the depth is the difference.
    assert!(!fits_decode_budget(
        &header(4096, 4096, 16, ColorType::TruecolorAlpha),
        DEFAULT_MAX_IMAGE_BYTES
    ));
    // A header whose decoded size overflows `usize` is declined, not wrapped.
    assert!(!fits_decode_budget(
        &header(0x7FFF_FFFF, 0x7FFF_FFFF, 16, ColorType::TruecolorAlpha),
        usize::MAX
    ));
}

#[test]
fn only_a_refusal_to_read_is_not_damage() {
    // The single source of truth for `is_intact`'s filter conjunct: declining to inflate a
    // stream is a statement about what this reader will spend, everything else about the
    // file. Both refusals decline, for different reasons, and neither is damage.
    for reason in [
        SkippedFilterScan::OverBudget,
        SkippedFilterScan::ImplausibleInflation,
    ] {
        assert!(!reason.is_damage(), "{reason:?}");
        assert!(!FilterScan::Skipped(reason).is_damage(), "{reason:?}");
    }
    for reason in [
        SkippedFilterScan::CorruptStream,
        SkippedFilterScan::LengthMismatch,
        SkippedFilterScan::UndefinedFilterCode,
    ] {
        assert!(reason.is_damage(), "{reason:?}");
        assert!(FilterScan::Skipped(reason).is_damage(), "{reason:?}");
    }
    let counted = FilterScan::Counted(FilterHistogram::from_counts([1, 0, 0, 0, 0]));
    assert!(!counted.is_damage(), "a scan that ran is never damage");
}

#[test]
fn a_filter_scan_exposes_exactly_one_of_its_two_sides() {
    // Built here because `FilterHistogram`'s counts are private, so the `Counted` side is
    // only constructible from inside the crate.
    let histogram = FilterHistogram::from_counts([1, 2, 0, 0, 0]);
    let counted = FilterScan::Counted(histogram);
    assert_eq!(counted.histogram(), Some(histogram));
    assert_eq!(counted.skipped(), None);

    let skipped = FilterScan::Skipped(SkippedFilterScan::OverBudget);
    assert_eq!(skipped.histogram(), None);
    assert_eq!(skipped.skipped(), Some(SkippedFilterScan::OverBudget));
}

#[test]
fn the_skip_reasons_keep_their_published_discriminants() {
    // `#[repr(u8)]` plain data crossing the C ABI: these numbers are permanent and
    // append-only, so a variant is never renumbered or removed, only added after the last.
    assert_eq!(SkippedFilterScan::OverBudget as u8, 0);
    assert_eq!(SkippedFilterScan::CorruptStream as u8, 1);
    assert_eq!(SkippedFilterScan::LengthMismatch as u8, 2);
    assert_eq!(SkippedFilterScan::UndefinedFilterCode as u8, 3);
    assert_eq!(SkippedFilterScan::ImplausibleInflation as u8, 4);
}

#[test]
fn an_overlap_is_not_fully_classified() {
    assert!(!report_with(&[(0, 20), (10, 33)], 33).is_fully_classified());
}

fn png_declaring(width: u32, height: u32, stream_len: usize) -> Vec<u8> {
    let mut idat = Vec::new();
    idat.extend_from_slice(&zlib_compress(&vec![0u8; stream_len], DEFAULT_EFFORT));
    let mut png = SIGNATURE.to_vec();
    gamut_png::ihdr::write(&mut png, width, height, 8, ColorType::TruecolorAlpha);
    write_chunk(&mut png, *b"IDAT", &idat);
    write_chunk(&mut png, *b"IEND", &[]);
    png
}

#[test]
fn a_declared_gigabyte_over_a_small_stream_is_refused_before_inflation() {
    // 16384x16384 RGBA8 is exactly one gigabyte decoded, which `gamut inspect` budgets for
    // (its ceiling is 1 << 30). Under the header budget alone the walk hands that gigabyte
    // to `inflate_zlib` as the cap and a zlib bomb of zeros fills it from about a megabyte
    // of input. The stream here is tiny, so without the ratio bound the walk inflates it
    // completely and reports the *file's* `LengthMismatch`; with it, the walk reports its own
    // `ImplausibleInflation` and never inflates — the reason is the discriminator.
    let bomb = png_declaring(16384, 16384, 4096);
    let generous = DeconstructLimits::default().with_max_image_bytes(1 << 30);
    let report = deconstruct_with_limits(&bomb, generous).expect("deconstruct");
    assert_eq!(
        report.native_bytes(),
        Some(1 << 30),
        "precondition: the declared image is exactly the budget, so it is not over it"
    );
    assert_eq!(
        report.filters,
        FilterScan::Skipped(SkippedFilterScan::ImplausibleInflation),
        "a stream that would inflate to a gigabyte from four kilobytes is refused for its \
         ratio, not for exceeding a budget it exactly meets"
    );
    assert_eq!(
        report.filtered_len,
        16384 * (16384 * 4 + 1),
        "the header-derived figure is still reported"
    );
}

#[test]
fn the_tally_index_names_every_recorded_type_at_its_position() {
    let mut tally = ChunkTally::new();
    let types: Vec<[u8; 4]> = (0..300u32).map(|i| i.to_be_bytes()).collect();
    for (i, ty) in types.iter().enumerate() {
        // Every type once, every third one a second time: both arms of `record`.
        tally.record(*ty, i);
        if i % 3 == 0 {
            tally.record(*ty, 1);
        }
    }
    assert_eq!(
        tally.index.len(),
        tally.stats.len(),
        "one index entry per distinct type"
    );
    assert_eq!(tally.stats.len(), types.len());
    for (at, stats) in tally.stats.iter().enumerate() {
        assert_eq!(
            tally.index.get(&u32::from_be_bytes(stats.chunk_type)),
            Some(&at),
            "type {:?} is indexed at its own position",
            stats.chunk_type
        );
        assert_eq!(stats.chunk_type, types[at], "first-appearance order");
        let repeated = at % 3 == 0;
        assert_eq!(stats.count, if repeated { 2 } else { 1 });
        assert_eq!(stats.payload_bytes, at + usize::from(repeated));
    }
}

#[test]
fn the_tally_probes_once_per_chunk_whatever_the_number_of_distinct_types() {
    const CHUNKS: usize = 2048;
    let mut distinct = ChunkTally::new();
    for i in 0..CHUNKS as u32 {
        distinct.record(i.to_be_bytes(), 0);
    }
    let mut repeated = ChunkTally::new();
    for _ in 0..CHUNKS {
        repeated.record(*b"crUD", 0);
    }
    assert_eq!(
        distinct.stats.len(),
        CHUNKS,
        "precondition: every type distinct"
    );
    assert_eq!(repeated.stats.len(), 1, "precondition: one type throughout");
    assert_eq!(
        distinct.probes, CHUNKS,
        "one probe per record with every type distinct"
    );
    assert_eq!(
        repeated.probes, CHUNKS,
        "and the same with one type: the count is O(N)"
    );
}

#[test]
fn the_inflation_ratio_is_inclusive_and_saturates() {
    // A stream may inflate to exactly sixty-four times its length and not one byte more.
    assert!(fits_inflation_ratio(64 * 1000, 1000));
    assert!(!fits_inflation_ratio(64 * 1000 + 1, 1000));
    // An empty stream inflates to nothing.
    assert!(fits_inflation_ratio(0, 0));
    assert!(!fits_inflation_ratio(1, 0));
    // Overflow saturates rather than wrapping to a small allowance that would refuse every
    // huge stream.
    assert!(fits_inflation_ratio(usize::MAX, usize::MAX / 2));
}

#[test]
fn an_image_inside_the_default_budget_is_scanned_whatever_its_ratio() {
    // A flat image compresses thousands-fold and is a real PNG: 1024x1024 RGBA8 from a
    // few dozen bytes of zlib. Its ratio is far past sixty-four, and it is inside the
    // decoder's default budget, so it is inflated — and this one is sound, so it is
    // counted. The floor is the header, not the filtered length: a scan refused here would
    // be the walk declining a file the decoder decodes.
    let side = 1024u32;
    let stream_len = side as usize * (side as usize * 4 + 1);
    let flat = png_declaring(side, side, stream_len);
    let report = deconstruct(&flat).expect("deconstruct");
    assert!(
        report.idat_compressed * INFLATION_RATIO < stream_len,
        "precondition: the fixture inflates by more than the ratio allows"
    );
    assert!(
        report.filters.is_counted(),
        "inside the default budget the ratio does not apply, got {:?}",
        report.filters
    );
}
