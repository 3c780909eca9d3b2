//! Encoding.
use gamut_png::chunk::SIGNATURE;
use gamut_png::color::ColorType;
use gamut_png::encoder::{
    clean_transparent16, prefers_chunk_free, prefers_native, prefers_plain, write_idat,
    PngEncoder, IDAT_MAX,
};
use gamut_png::filter::{FilterStrategy, FilterType};
use gamut_png::palette::PngPalette;
use gamut_png::pixels::{ImageRef, PixelFormat};
use gamut_png::reduce::index_bit_depth;


fn find_chunk(png: &[u8], ty: &[u8; 4]) -> Option<Vec<u8>> {
    let mut i = 8;
    while i + 12 <= png.len() {
        let len = u32::from_be_bytes([png[i], png[i + 1], png[i + 2], png[i + 3]]) as usize;
        if &png[i + 4..i + 8] == ty {
            return Some(png[i + 8..i + 8 + len].to_vec());
        }
        i += 12 + len;
    }
    None
}

#[test]
fn background_builders_reach_the_bkgd_chunk() {
    let gray = vec![0u8; 4 * 4];
    let img = ImageRef::new8(PixelFormat::Gray8, &gray, 4, 4).unwrap();
    let mut png = Vec::new();
    PngEncoder::new()
        .with_background_gray(0x34)
        .encode_image(&img, &mut png)
        .unwrap();
    assert_eq!(
        find_chunk(&png, b"bKGD"),
        Some(vec![0x00, 0x34]),
        "greyscale bKGD is the 16-bit level, big-endian"
    );

    // Indexed: one byte, the palette index.
    let entries: Vec<[u8; 3]> = (0..8u8).map(|i| [i, i.wrapping_add(70), 90]).collect();
    let palette = PngPalette::new(&entries).unwrap();
    let indices: Vec<u8> = (0..200u8).map(|i| i % 8).collect();
    let img = ImageRef::new8(PixelFormat::Indexed8, &indices, 200, 1).unwrap();
    let mut png = Vec::new();
    PngEncoder::new()
        .with_background_index(7)
        .encode_indexed8(&img, &palette, &mut png)
        .unwrap();
    assert_eq!(find_chunk(&png, b"bKGD"), Some(vec![7]));
}

#[test]
fn the_index_depth_follows_the_cleaned_entry_count() {
    for distinct in [1usize, 2, 3, 4, 5, 16] {
        // 256 entries, of which the image names the first `distinct`.
        let entries: Vec<[u8; 3]> = (0..256u32).map(|i| [i as u8, 0, 0]).collect();
        let palette = PngPalette::new(&entries).unwrap();
        let indices: Vec<u8> = (0..64usize).map(|i| (i % distinct) as u8).collect();
        let img = ImageRef::new8(PixelFormat::Indexed8, &indices, 64, 1).unwrap();
        let mut png = Vec::new();
        PngEncoder::new()
            .encode_indexed8(&img, &palette, &mut png)
            .unwrap();

        let expected = index_bit_depth(distinct);
        assert!(expected < 8, "{distinct}: below a byte per index");
        assert_eq!(png[24], expected, "{distinct} entries named");
        assert_eq!(
            find_chunk(&png, b"PLTE").map(|plte| plte.len()),
            Some(distinct * 3),
            "{distinct} entries named"
        );
    }
}

#[test]
fn a_redundant_palette_costs_what_the_tight_one_costs() {
    let (w, h) = (64u32, 64u32);
    let colours: [[u8; 3]; 4] = [[240, 90, 40], [30, 30, 60], [255, 255, 255], [10, 200, 120]];
    let alphas: [u8; 4] = [255, 0, 255, 255];
    // 256 entries holding those four colours, 64 times over.
    let padded: Vec<[u8; 3]> = (0..256).map(|i| colours[i % 4]).collect();
    let padded_alpha: Vec<u8> = (0..256).map(|i| alphas[i % 4]).collect();
    let padded = PngPalette::with_transparency(&padded, &padded_alpha).unwrap();
    let tight = PngPalette::with_transparency(&colours, &alphas).unwrap();

    let indices: Vec<u8> = (0..(w * h) as usize)
        .map(|i| (((i as u32 % w) / 7 + (i as u32 / w) / 5) % 4) as u8)
        .collect();
    let encode = |palette: &PngPalette| {
        let img = ImageRef::new8(PixelFormat::Indexed8, &indices, w, h).unwrap();
        let mut png = Vec::new();
        PngEncoder::new()
            .encode_indexed8(&img, palette, &mut png)
            .unwrap();
        png
    };

    assert_eq!(encode(&padded), encode(&tight));
}

#[test]
fn a_background_index_names_a_surviving_entry_after_cleaning() {
    let palette =
        PngPalette::new(&[[0, 0, 0], [1, 1, 1], [2, 2, 2], [3, 3, 3], [4, 4, 4]]).unwrap();
    // Only entry 1 is painted; entry 3 is named by the background alone.
    let indices = vec![1u8; 8];
    let img = ImageRef::new8(PixelFormat::Indexed8, &indices, 8, 1).unwrap();
    let mut png = Vec::new();
    PngEncoder::new()
        .with_background_index(3)
        .encode_indexed8(&img, &palette, &mut png)
        .unwrap();

    assert_eq!(
        find_chunk(&png, b"PLTE"),
        Some(vec![1, 1, 1, 3, 3, 3]),
        "the background's entry is kept, in the caller's order"
    );
    assert_eq!(
        find_chunk(&png, b"bKGD"),
        Some(vec![1]),
        "and the index moved with it"
    );
}

#[test]
fn a_colour_background_names_an_entry_holding_its_colour() {
    struct Case {
        entries: &'static [[u8; 3]],
        alphas: &'static [u8],
        painted: &'static [u8],
        background: [u8; 3],
        alpha: u8,
    }
    let cases = [
        Case {
            entries: &[[10, 20, 30], [200, 100, 50]],
            alphas: &[],
            painted: &[0, 0, 0, 0],
            background: [200, 100, 50],
            alpha: 255,
        },
        Case {
            entries: &[[7, 7, 7], [7, 7, 7], [1, 2, 3]],
            alphas: &[255, 0],
            painted: &[1, 2, 1, 2],
            background: [7, 7, 7],
            alpha: 255,
        },
    ];
    for case in cases {
        let Case {
            entries,
            alphas,
            painted,
            background: [r, g, b],
            alpha,
        } = case;
        let palette = PngPalette::with_transparency(entries, alphas).unwrap();
        let img = ImageRef::new8(PixelFormat::Indexed8, painted, painted.len() as u32, 1).unwrap();
        let mut png = Vec::new();
        PngEncoder::new()
            .with_background_rgb(r.into(), g.into(), b.into())
            .encode_indexed8(&img, &palette, &mut png)
            .unwrap();

        let bkgd = find_chunk(&png, b"bKGD")
            .unwrap_or_else(|| panic!("{r},{g},{b}: the background's entry was dropped"));
        let index = usize::from(bkgd[0]);
        let plte = find_chunk(&png, b"PLTE").expect("an indexed file has a palette");
        assert_eq!(&plte[index * 3..index * 3 + 3], &[r, g, b], "{r},{g},{b}");
        let written = find_chunk(&png, b"tRNS")
            .and_then(|trns| trns.get(index).copied())
            .unwrap_or(255);
        assert_eq!(written, alpha, "{r},{g},{b}: the background's alpha");
    }
}

#[test]
fn a_background_index_past_the_palette_stays_omitted() {
    let palette = PngPalette::new(&[[9, 8, 7], [6, 5, 4], [3, 2, 1]]).unwrap();
    for index in [3u8, 4, 200, 255] {
        let indices = vec![0u8, 1, 2, 1];
        let img = ImageRef::new8(PixelFormat::Indexed8, &indices, 4, 1).unwrap();
        let mut png = Vec::new();
        PngEncoder::new()
            .with_background_index(index)
            .encode_indexed8(&img, &palette, &mut png)
            .unwrap();

        assert_eq!(find_chunk(&png, b"bKGD"), None, "background index {index}");
    }
}

#[test]
fn indexed_at_depth_eight_is_not_bit_packed() {
    // 32 distinct opaque colours over 1024 pixels: more than 16, so the index depth is 8.
    //
    // Shuffled rather than cycling, so that the palette beats the unreduced encoding.
    let mut rgb = Vec::new();
    for i in 0..1024u32 {
        let mut h = i.wrapping_mul(2654435761);
        h ^= h >> 15;
        let c = (h % 32) as u8;
        rgb.extend_from_slice(&[c, c.wrapping_add(70), 90]);
    }
    let img = ImageRef::new8(PixelFormat::Rgb8, &rgb, 1024, 1).unwrap();
    let mut png = Vec::new();
    // Reduction is opt-in; without it the encoder writes the input layout unchanged and the
    // indexed path -- the one this test is about -- is never reached.
    PngEncoder::new()
        .with_auto_reduce(true)
        .encode_image(&img, &mut png)
        .unwrap();

    assert_eq!(png[24], 8, "bit depth");
    assert_eq!(png[25], ColorType::Indexed.code(), "colour type");
    assert_eq!(
        find_chunk(&png, b"PLTE").map(|p| p.len()),
        Some(32 * 3),
        "32 palette entries"
    );
}

#[test]
fn emits_signature_ihdr_idat_iend() {
    let src = vec![0u8; 2 * 2 * 3];
    let img = ImageRef::new8(PixelFormat::Rgb8, &src, 2, 2).unwrap();
    let mut png = Vec::new();
    PngEncoder::new().encode_image(&img, &mut png).unwrap();
    assert_eq!(&png[..8], &SIGNATURE);
    assert_eq!(&png[12..16], b"IHDR");
    assert_eq!(&png[png.len() - 8..png.len() - 4], b"IEND");
}

#[test]
fn ihdr_reports_color_type_and_depth() {
    // A 16-bit grayscale-alpha image should declare colour type 4, bit depth 16.
    let src = vec![0u16; 3 * 3 * 2];
    let img = ImageRef::new16(PixelFormat::GrayAlpha16, &src, 3, 3).unwrap();
    let mut png = Vec::new();
    PngEncoder::new().encode_image(&img, &mut png).unwrap();
    // IHDR data starts at byte 16: width(4) height(4) depth(1) colortype(1).
    assert_eq!(png[24], 16, "bit depth");
    assert_eq!(png[25], ColorType::GrayscaleAlpha.code(), "colour type");
}

#[test]
fn returns_the_number_of_bytes_appended_not_the_total_length() {
    // `write_png` reports `out.len() - start`; encoding into a non-empty buffer is what tells
    // that apart from the buffer's total length.
    let src = vec![0u8; 2 * 2 * 3];
    let img = ImageRef::new8(PixelFormat::Rgb8, &src, 2, 2).unwrap();
    let mut fresh = Vec::new();
    let alone = PngEncoder::new().encode_image(&img, &mut fresh).unwrap();
    assert_eq!(alone, fresh.len());

    let mut appended = vec![0xAAu8; 17];
    let written = PngEncoder::new().encode_image(&img, &mut appended).unwrap();
    assert_eq!(written, alone, "only the PNG's own bytes are counted");
    assert_eq!(appended.len(), 17 + alone);
    assert_eq!(&appended[17..], &fresh[..], "the prefix is left untouched");
}

#[test]
fn a_tie_between_palette_and_native_keeps_the_palette() {
    assert!(prefers_native(10, 11), "smaller native wins");
    assert!(!prefers_native(11, 10), "smaller palette wins");
    assert!(!prefers_native(10, 10), "a tie keeps the palette");
}

#[test]
fn a_tie_between_the_chunk_free_runner_up_and_the_palette_keeps_the_palette() {
    assert!(
        prefers_chunk_free(10, 11),
        "a smaller chunk-free reduction wins"
    );
    assert!(!prefers_chunk_free(11, 10), "a smaller palette wins");
    assert!(
        !prefers_chunk_free(10, 10),
        "a tie keeps the chunk-carrying encoding the estimate ranked first"
    );
}

#[test]
fn a_tie_between_cleaned_and_plain_keeps_the_plain_encoding() {
    assert!(prefers_plain(10, 11), "smaller plain wins");
    assert!(!prefers_plain(11, 10), "smaller cleaned wins");
    assert!(
        prefers_plain(10, 10),
        "a tie keeps the plain encoding, which altered no stored sample"
    );
}

#[test]
fn brute_force_keeps_the_first_strategy_on_a_tie() {
    // A 1x1 image compresses to the same length under every strategy, so the tie-break is what
    // picks the output. `BRUTE_FORCE_STRATEGIES` is in preference order and the first minimum
    // wins, so the filter byte must be `None` (0) — not the last strategy's choice.
    let src = vec![200u8];
    let img = ImageRef::new8(PixelFormat::Gray8, &src, 1, 1).unwrap();
    let mut brute = Vec::new();
    PngEncoder::new()
        .with_filter(FilterStrategy::BruteForce)
        .encode_image(&img, &mut brute)
        .unwrap();
    let mut none = Vec::new();
    PngEncoder::new()
        .with_filter(FilterStrategy::Unfiltered)
        .encode_image(&img, &mut none)
        .unwrap();
    assert_eq!(
        brute, none,
        "the tie must resolve to the first (None) candidate"
    );
    // And it is genuinely a tie the later strategies could have won.
    let mut paeth = Vec::new();
    PngEncoder::new()
        .with_filter(FilterStrategy::Fixed(FilterType::Paeth))
        .encode_image(&img, &mut paeth)
        .unwrap();
    assert_eq!(brute.len(), paeth.len(), "same length, different bytes");
    assert_ne!(brute, paeth);
}

#[test]
fn large_stream_splits_into_multiple_idats() {
    // Incompressible data larger than IDAT_MAX must yield more than one IDAT chunk.
    let mut out = Vec::new();
    let big = vec![0xABu8; IDAT_MAX * 2 + 100];
    write_idat(&mut out, &big);
    let idats = out.windows(4).filter(|w| *w == b"IDAT").count();
    assert!(idats >= 3, "expected multiple IDAT chunks, found {idats}");
}

#[test]
fn cleaning_16_bit_pixels_needs_the_whole_alpha_sample_to_be_zero() {
    // The byte-wise twin would read the big-endian pair `0x0001` as a zero high byte and
    // wrongly call this pixel invisible; at `u16` width it is visible and must be untouched.
    // The third pixel is the genuinely invisible one, and all three of its colour samples —
    // both bytes of each — must be cleared.
    let src: [u16; 12] = [
        0x1234, 0x5678, 0x9ABC, 0xFFFF, // visible
        0x1111, 0x2222, 0x3333, 0x0001, // alpha 1: barely visible, must stay
        0x4444, 0x5555, 0x6666, 0x0000, // invisible: colour must go
    ];
    let cleaned = clean_transparent16(&src, 4).expect("there is a transparent pixel");
    assert_eq!(
        cleaned,
        vec![
            0x1234, 0x5678, 0x9ABC, 0xFFFF, //
            0x1111, 0x2222, 0x3333, 0x0001, //
            0, 0, 0, 0,
        ]
    );
}

#[test]
fn cleaning_16_bit_grey_alpha_zeroes_only_the_grey_sample() {
    let src: [u16; 6] = [0xC800, 0xFFFF, 0x6F00, 0x0000, 0x5A00, 0x0001];
    let cleaned = clean_transparent16(&src, 2).expect("there is a transparent pixel");
    assert_eq!(cleaned, vec![0xC800, 0xFFFF, 0, 0, 0x5A00, 0x0001]);
}

#[test]
fn cleaning_16_bit_declines_when_there_is_nothing_to_clean() {
    let opaque: [u16; 8] = [1, 2, 3, 0xFFFF, 4, 5, 6, 0xFFFF];
    assert!(
        clean_transparent16(&opaque, 4).is_none(),
        "no fully transparent pixel"
    );

    // Odd channel counts have no alpha sample, so a zero there is a colour, not transparency.
    let grey: [u16; 3] = [0, 7, 9];
    assert!(clean_transparent16(&grey, 1).is_none(), "no alpha channel");
    let rgb: [u16; 6] = [1, 2, 0, 4, 5, 6];
    assert!(clean_transparent16(&rgb, 3).is_none(), "no alpha channel");
}

#[test]
fn significant_bits_follow_the_colour_type_that_is_written() {
    let rgb = vec![9u8, 8, 7, 6, 5, 4];
    let img = ImageRef::new8(PixelFormat::Rgb8, &rgb, 2, 1).unwrap();
    let encoder = PngEncoder::new().with_significant_bits(&[5, 6, 5]);
    let png = encoder.encode_to_vec(&img).unwrap();
    let bits = find_chunk(&png, b"sBIT").unwrap();
    assert_eq!(bits, vec![5, 6, 5]);
    let gray = vec![9u8, 8];
    let img = ImageRef::new8(PixelFormat::Gray8, &gray, 2, 1).unwrap();
    assert_eq!(find_chunk(&encoder.encode_to_vec(&img).unwrap(), b"sBIT"), None);
}
