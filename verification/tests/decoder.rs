//! Decoding: native layouts, lossless widenings, limits.
use gamut_png::ancillary::SrgbIntent;
use gamut_png::chunk::{write_chunk, SIGNATURE};
use gamut_png::color::ColorType;
use gamut_png::decoded::PngImage;
use gamut_png::decoder::PngDecoder;
use gamut_png::encoder::PngEncoder;
use gamut_png::error::ErrorKind;
use gamut_png::palette::PngPalette;
use gamut_png::pixels::{ImageRef, PixelFormat, Pixels};
use gamut_png::zlib::{zlib_compress, DEFAULT_EFFORT};

fn narrow(png: &[u8], format: PixelFormat) -> Vec<u8> {
    match PngDecoder::new().present(png, format).unwrap() {
        Pixels::B8(got, samples) if got == format => samples,
        other => panic!("expected 8-bit samples in {format:?}, got {other:?}"),
    }
}

fn wide(png: &[u8], format: PixelFormat) -> Vec<u16> {
    match PngDecoder::new().present(png, format).unwrap() {
        Pixels::B16(got, samples) if got == format => samples,
        other => panic!("expected 16-bit samples in {format:?}, got {other:?}"),
    }
}

fn rgb_png(w: u32, h: u32) -> (Vec<u8>, Vec<u8>) {
    let src: Vec<u8> = (0..(w * h * 3) as usize)
        .map(|i| (i.wrapping_mul(41) ^ (i >> 3)) as u8)
        .collect();
    let mut png = Vec::new();
    PngEncoder::new()
        .encode_image(
            &ImageRef::new8(PixelFormat::Rgb8, &src, w, h).unwrap(),
            &mut png,
        )
        .unwrap();
    (png, src)
}

#[test]
fn decodes_own_encoder_output() {
    for (w, h) in [(1, 1), (3, 2), (17, 13), (40, 30)] {
        let (png, src) = rgb_png(w, h);
        let img = narrow(&png, PixelFormat::Rgb8);
        let header = PngDecoder::new().decode(&png).unwrap().header;
        assert_eq!((header.width, header.height), (w, h));
        assert_eq!(img, src, "{w}x{h}");
    }
}

#[test]
fn widens_gray_to_rgb_and_rgba() {
    let src: Vec<u8> = (0..20u8).collect();
    let mut png = Vec::new();
    PngEncoder::new()
        .encode_image(
            &ImageRef::new8(PixelFormat::Gray8, &src, 5, 4).unwrap(),
            &mut png,
        )
        .unwrap();
    let rgb = narrow(&png, PixelFormat::Rgb8);
    let expected_rgb: Vec<u8> = src.iter().flat_map(|&g| [g; 3]).collect();
    assert_eq!(rgb, expected_rgb);
    let rgba = narrow(&png, PixelFormat::Rgba8);
    let expected_rgba: Vec<u8> = src.iter().flat_map(|&g| [g, g, g, 255]).collect();
    assert_eq!(rgba, expected_rgba);
}

#[test]
fn refuses_lossy_requests() {
    let src = vec![0u16; 4];
    let mut png = Vec::new();
    PngEncoder::new()
        .encode_image(
            &ImageRef::new16(PixelFormat::Gray16, &src, 2, 2).unwrap(),
            &mut png,
        )
        .unwrap();
    // A 16-bit file cannot decode into 8-bit layouts.
    assert!(PngDecoder::new().present(&png, PixelFormat::Gray8).is_err());
    assert!(PngDecoder::new().present(&png, PixelFormat::Rgba8).is_err());
    // But it widens losslessly to 16-bit RGB.
    let rgb = wide(&png, PixelFormat::Rgb16);
    assert_eq!(rgb, vec![0u16; 12]);
}

#[test]
fn indexed_round_trips_at_every_depth() {
    for entries in [2usize, 4, 16, 200] {
        let rgb: Vec<[u8; 3]> = (0..entries)
            .map(|i| [i as u8, (i * 3) as u8, 255 - i as u8])
            .collect();
        let palette = PngPalette::with_transparency(&rgb, &[10, 250]).unwrap();
        let (w, h) = (13u32, 9u32);
        let indices: Vec<u8> = (0..(w * h) as usize).map(|i| (i % entries) as u8).collect();
        let mut png = Vec::new();
        PngEncoder::new()
            .encode_indexed8(
                &ImageRef::new8(PixelFormat::Indexed8, &indices, w, h).unwrap(),
                &palette,
                &mut png,
            )
            .unwrap();

        // Indices come back exactly, whatever sub-byte depth the encoder picked.
        let decoded = narrow(&png, PixelFormat::Indexed8);
        assert_eq!(decoded, indices, "{entries} entries");

        // RGBA expansion resolves palette colours and tRNS alpha.
        let rgba = narrow(&png, PixelFormat::Rgba8);
        let expected: Vec<u8> = indices
            .iter()
            .flat_map(|&idx| {
                let [r, g, b] = rgb[usize::from(idx)];
                let a = [10u8, 250].get(usize::from(idx)).copied().unwrap_or(255);
                [r, g, b, a]
            })
            .collect();
        assert_eq!(rgba, expected, "{entries} entries");

        // RGB refuses the transparent palette (lossy), Rgb16 refuses outright.
        assert!(PngDecoder::new().present(&png, PixelFormat::Rgb8).is_err());
        assert!(PngDecoder::new().present(&png, PixelFormat::Rgb16).is_err());
    }
}

#[test]
fn opaque_indexed_expands_to_rgb() {
    let rgb = [[1u8, 2, 3], [4, 5, 6], [7, 8, 9]];
    let palette = PngPalette::new(&rgb).unwrap();
    let indices = [0u8, 1, 2, 1, 0, 2];
    let mut png = Vec::new();
    PngEncoder::new()
        .encode_indexed8(
            &ImageRef::new8(PixelFormat::Indexed8, &indices, 3, 2).unwrap(),
            &palette,
            &mut png,
        )
        .unwrap();
    let decoded = narrow(&png, PixelFormat::Rgb8);
    let expected: Vec<u8> = indices
        .iter()
        .flat_map(|&idx| rgb[usize::from(idx)])
        .collect();
    assert_eq!(decoded, expected);
}

fn build_gray_png(
    width: u32,
    height: u32,
    bit_depth: u8,
    interlace: u8,
    trns_key: Option<u16>,
    stream: &[u8],
) -> Vec<u8> {
    let mut png = SIGNATURE.to_vec();
    let mut ihdr_data = [0u8; 13];
    ihdr_data[0..4].copy_from_slice(&width.to_be_bytes());
    ihdr_data[4..8].copy_from_slice(&height.to_be_bytes());
    ihdr_data[8] = bit_depth;
    ihdr_data[9] = 0; // greyscale
    ihdr_data[12] = interlace;
    write_chunk(&mut png, *b"IHDR", &ihdr_data);
    if let Some(key) = trns_key {
        write_chunk(&mut png, *b"tRNS", &key.to_be_bytes());
    }
    let mut idat = Vec::new();
    idat.extend_from_slice(&zlib_compress(stream, DEFAULT_EFFORT));
    write_chunk(&mut png, *b"IDAT", &idat);
    write_chunk(&mut png, *b"IEND", &[]);
    png
}

fn build_png(width: u32, height: u32, bit_depth: u8, interlace: u8, stream: &[u8]) -> Vec<u8> {
    build_gray_png(width, height, bit_depth, interlace, None, stream)
}

#[test]
fn adam7_golden_3x3() {
    // A 3×3 grey8 image with values 1..=9 row-major transmits as five non-empty passes:
    // pass 1 → (0,0); pass 4 → (2,0); pass 5 → (0,2),(2,2); pass 6 → (1,0),(1,2);
    // pass 7 → (0,1),(1,1),(2,1). Every scanline carries a filter-type byte (None here).
    let stream = [
        0, 1, // pass 1
        0, 3, // pass 4
        0, 7, 9, // pass 5
        0, 2, 0, 8, // pass 6 (two 1-pixel rows)
        0, 4, 5, 6, // pass 7
    ];
    let png = build_png(3, 3, 8, 1, &stream);
    let img = narrow(&png, PixelFormat::Gray8);
    assert_eq!(img, [1, 2, 3, 4, 5, 6, 7, 8, 9]);
}

#[test]
fn adam7_passes_defilter_independently() {
    // An Up filter in the first row of a *later* pass must reference that pass's zero row,
    let stream = [
        0, 1, // pass 1
        0, 3, // pass 4
        1, 7, 2, // pass 5: Sub -> 7, 9
        2, 2, 2, 6, // pass 6: two rows, Up chains 2 then 8
        2, 4, 5, 6, // pass 7: Up over the pass's own zero row
    ];
    let png = build_png(3, 3, 8, 1, &stream);
    let img = narrow(&png, PixelFormat::Gray8);
    assert_eq!(img, [1, 2, 3, 4, 5, 6, 7, 8, 9]);
}

#[test]
fn adam7_1x1_has_a_single_pass_pixel() {
    let png = build_png(1, 1, 8, 1, &[0, 42]);
    let img = narrow(&png, PixelFormat::Gray8);
    assert_eq!(img, [42]);
}

#[test]
fn sub_byte_gray_scales_exactly_in_every_typed_widening() {
    // 4-bit grey 3×2 with samples 1,2,3 / 4,5,15 (scale ×17); packed rows 0x12 0x30 / 0x45 0xF0.
    let png = build_png(3, 2, 4, 0, &[0, 0x12, 0x30, 0, 0x45, 0xF0]);
    let values = [1u8, 2, 3, 4, 5, 15];
    let gray = narrow(&png, PixelFormat::Gray8);
    let scaled: Vec<u8> = values.iter().map(|&v| v * 17).collect();
    assert_eq!(gray, scaled);
    let rgb = narrow(&png, PixelFormat::Rgb8);
    let replicated: Vec<u8> = values.iter().flat_map(|&v| [v * 17; 3]).collect();
    assert_eq!(rgb, replicated);
    let ga = narrow(&png, PixelFormat::GrayAlpha8);
    let opaque: Vec<u8> = values.iter().flat_map(|&v| [v * 17, 255]).collect();
    assert_eq!(ga, opaque);
}

#[test]
fn sub_16_files_widen_by_257_into_every_16bit_layout() {
    // The same 4-bit grey file, presented as each 16-bit layout: exact §13.12 scaling is
    // ×17 to 8 bits then ×257 to 16 (= ×4369 total).
    let png = build_png(3, 2, 4, 0, &[0, 0x12, 0x30, 0, 0x45, 0xF0]);
    let values = [1u16, 2, 3, 4, 5, 15];
    let gray = wide(&png, PixelFormat::Gray16);
    assert_eq!(
        gray,
        values.map(|v| v * 4369),
        "Gray16 widening"
    );
    let ga = wide(&png, PixelFormat::GrayAlpha16);
    let opaque: Vec<u16> = values.iter().flat_map(|&v| [v * 4369, u16::MAX]).collect();
    assert_eq!(ga, opaque, "GrayAlpha16 widening");
    let rgb = wide(&png, PixelFormat::Rgb16);
    let replicated: Vec<u16> = values.iter().flat_map(|&v| [v * 4369; 3]).collect();
    assert_eq!(rgb, replicated, "Rgb16 widening");
    let rgba = wide(&png, PixelFormat::Rgba16);
    let widened: Vec<u16> = values
        .iter()
        .flat_map(|&v| [v * 4369, v * 4369, v * 4369, u16::MAX])
        .collect();
    assert_eq!(rgba, widened, "Rgba16 widening");
}

#[test]
fn grey_layouts_accept_only_all_grey_palettes() {
    let encode = |palette: &PngPalette| {
        let indices = [0u8, 1, 0, 1, 1, 0];
        let mut png = Vec::new();
        PngEncoder::new()
            .encode_indexed8(
                &ImageRef::new8(PixelFormat::Indexed8, &indices, 3, 2).unwrap(),
                palette,
                &mut png,
            )
            .unwrap();
        png
    };

    // An entry with r == g but a different b is coloured: both grey layouts must refuse it.
    let colored = encode(&PngPalette::new(&[[7, 7, 200], [3, 3, 3]]).unwrap());
    assert!(PngDecoder::new().present(&colored, PixelFormat::Gray8).is_err());
    assert!(PngDecoder::new().present(&colored, PixelFormat::GrayAlpha8).is_err());

    // An all-grey opaque palette resolves to its grey values (plus opaque alpha).
    let grey = encode(&PngPalette::new(&[[7, 7, 7], [200, 200, 200]]).unwrap());
    let gray = narrow(&grey, PixelFormat::Gray8);
    assert_eq!(gray, [7, 200, 7, 200, 200, 7]);
    let ga = narrow(&grey, PixelFormat::GrayAlpha8);
    assert_eq!(
        ga,
        [7, 255, 200, 255, 7, 255, 200, 255, 200, 255, 7, 255]
    );

    // A grey palette with transparency: Gray8 refuses (alpha is lossy), GrayAlpha8 keeps it.
    let keyed =
        encode(&PngPalette::with_transparency(&[[7, 7, 7], [200, 200, 200]], &[128]).unwrap());
    assert!(PngDecoder::new().present(&keyed, PixelFormat::Gray8).is_err());
    let ga = narrow(&keyed, PixelFormat::GrayAlpha8);
    assert_eq!(
        ga,
        [7, 128, 200, 255, 7, 128, 200, 255, 200, 255, 7, 128]
    );
}

#[test]
fn gray8_colour_key_resolves_in_grayalpha8_and_refusals_hold() {
    // 8-bit grey 3×1 with samples 7, 8, 7 and colour key 7.
    let png = build_gray_png(3, 1, 8, 0, Some(7), &[0, 7, 8, 7]);
    let ga = narrow(&png, PixelFormat::GrayAlpha8);
    assert_eq!(ga, [7, 0, 8, 255, 7, 0]);
    // Alpha-less layouts refuse the keyed file (dropping transparency is lossy).
    assert!(PngDecoder::new().present(&png, PixelFormat::Gray8).is_err());
    assert!(PngDecoder::new().present(&png, PixelFormat::Rgb8).is_err());
    assert!(PngDecoder::new().present(&png, PixelFormat::Bilevel).is_err());
}

#[test]
fn bilevel_requires_exactly_1bit_keyless_gray() {
    // Depth is the only violation: 8-bit grey must NOT present as Bilevel.
    let gray8 = build_png(2, 1, 8, 0, &[0, 1, 0]);
    assert!(PngDecoder::new().present(&gray8, PixelFormat::Bilevel).is_err());
    // Transparency is the only violation: keyed 1-bit grey must NOT present as Bilevel...
    let keyed = build_gray_png(2, 1, 1, 0, Some(0), &[0, 0x80]);
    assert!(PngDecoder::new().present(&keyed, PixelFormat::Bilevel).is_err());
    // ...while the keyless twin decodes to 0/1 samples.
    let plain = build_png(2, 1, 1, 0, &[0, 0x80]);
    let img = narrow(&plain, PixelFormat::Bilevel);
    assert_eq!(img, [1, 0]);
}

#[test]
fn gray16_colour_key_resolves_in_16bit_widenings() {
    // 16-bit grey 3×1 with samples 7, 8, 7 and colour key 7.
    let png = build_gray_png(3, 1, 16, 0, Some(7), &[0, 0, 7, 0, 8, 0, 7]);
    // The keyed file refuses alpha-less Gray16/Rgb16.
    assert!(PngDecoder::new().present(&png, PixelFormat::Gray16).is_err());
    assert!(PngDecoder::new().present(&png, PixelFormat::Rgb16).is_err());
    // GrayAlpha16 and Rgba16 resolve the key to alpha zero, exactly on matching pixels.
    let ga = wide(&png, PixelFormat::GrayAlpha16);
    assert_eq!(ga, [7, 0, 8, u16::MAX, 7, 0]);
    let rgba = wide(&png, PixelFormat::Rgba16);
    assert_eq!(
        rgba,
        [7, 7, 7, 0, 8, 8, 8, u16::MAX, 7, 7, 7, 0]
    );
    // The keyless twin widens opaque.
    let plain = build_png(2, 1, 16, 0, &[0, 0, 9, 1, 4]);
    let rgba = wide(&plain, PixelFormat::Rgba16);
    assert_eq!(
        rgba,
        [9, 9, 9, u16::MAX, 260, 260, 260, u16::MAX]
    );
}

#[test]
fn grayalpha16_widens_to_rgba16() {
    let src: Vec<u16> = vec![100, 200, 300, 400];
    let mut png = Vec::new();
    PngEncoder::new()
        .encode_image(
            &ImageRef::new16(PixelFormat::GrayAlpha16, &src, 2, 1).unwrap(),
            &mut png,
        )
        .unwrap();
    let rgba = wide(&png, PixelFormat::Rgba16);
    assert_eq!(rgba, [100, 100, 100, 200, 300, 300, 300, 400]);
}

#[test]
fn suggested_palette_on_truecolor_is_shape_checked_then_ignored() {
    let src = [1u8, 2, 3, 4, 5, 6];
    let stream = [0u8, 1, 2, 3, 4, 5, 6];
    let build = |plte: &[u8]| {
        let mut png = SIGNATURE.to_vec();
        let mut ihdr_data = [0u8; 13];
        ihdr_data[0..4].copy_from_slice(&2u32.to_be_bytes());
        ihdr_data[4..8].copy_from_slice(&1u32.to_be_bytes());
        ihdr_data[8] = 8;
        ihdr_data[9] = 2; // truecolour
        write_chunk(&mut png, *b"IHDR", &ihdr_data);
        write_chunk(&mut png, *b"PLTE", plte);
        let mut idat = Vec::new();
        idat.extend_from_slice(&zlib_compress(&stream, DEFAULT_EFFORT));
        write_chunk(&mut png, *b"IDAT", &idat);
        write_chunk(&mut png, *b"IEND", &[]);
        png
    };
    // A valid 86-entry suggested palette is accepted and ignored (86 entries also pins the
    // `len / 3` arithmetic: neither `%` nor `*` lands in 1..=256).
    let suggested: Vec<u8> = (0..258).map(|i| i as u8).collect();
    let img = narrow(&build(&suggested), PixelFormat::Rgb8);
    assert_eq!(img, src);
    // Shape violations are still rejected.
    assert!(
        PngDecoder::new().present(&build(&[1, 2, 3, 4]), PixelFormat::Rgb8).is_err()
    );
    assert!(PngDecoder::new().present(&build(&[0; 771]), PixelFormat::Rgb8).is_err());
}

#[test]
fn rich_decode_surfaces_metadata_and_native_image() {
    let (w, h) = (6u32, 4u32);
    let src: Vec<u8> = (0..(w * h * 3) as usize).map(|i| i as u8).collect();
    let exif = [0x49, 0x49, 0x2A, 0x00, 0x08, 0x00, 0x00, 0x00];
    let xmp = "<x:xmpmeta xmlns:x=\"adobe:ns:meta/\"/>";
    let comment = "zlib-compressed comment body";
    let mut png = Vec::new();
    PngEncoder::new()
        .with_gamma(45455)
        .with_srgb(SrgbIntent::Perceptual)
        .with_chromaticities((31270, 32900), (64000, 33000), (30000, 60000), (15000, 6000))
        .with_exif(&exif)
        .with_icc_profile("prof", b"not-a-real-profile-but-bytes")
        .with_xmp(xmp)
        .with_text("Title", "gamut")
        .with_compressed_text("Comment", comment)
        .encode_image(
            &ImageRef::new8(PixelFormat::Rgb8, &src, w, h).unwrap(),
            &mut png,
        )
        .unwrap();

    let decoded = PngDecoder::new().decode(&png).unwrap();
    assert_eq!((decoded.header.width, decoded.header.height), (w, h));
    assert_eq!(decoded.header.color_type, ColorType::Truecolor);
    assert_eq!(decoded.header.bit_depth, 8);
    assert!(!decoded.header.interlaced);
    match &decoded.image {
        PngImage::Rgb8(img) => assert_eq!(*img, src),
        other => panic!("expected Rgb8, got {other:?}"),
    }
    assert_eq!(decoded.gamma, Some(45455));
    assert_eq!(decoded.srgb, Some(SrgbIntent::Perceptual));
    let chrm = decoded.chromaticities.unwrap();
    assert_eq!(chrm.white, (31270, 32900));
    assert_eq!(chrm.blue, (15000, 6000));
    assert_eq!(decoded.exif.as_deref(), Some(&exif[..]));
    let icc = decoded.icc_profile.unwrap();
    assert_eq!(icc.name, "prof");
    assert_eq!(icc.profile, b"not-a-real-profile-but-bytes");
    assert_eq!(decoded.xmp.as_deref(), Some(xmp.as_bytes()));
    assert_eq!(decoded.texts.len(), 2);
    assert_eq!(
        (
            decoded.texts[0].keyword.as_str(),
            decoded.texts[0].text.as_str()
        ),
        ("Title", "gamut")
    );
    assert_eq!(decoded.texts[1].text, comment);
    assert!(decoded.palette.is_none());
    assert!(decoded.transparency.is_none());
    assert!(decoded.cicp.is_none());
}

#[test]
fn rich_decode_carries_palette_and_indices() {
    let rgb = [[9u8, 8, 7], [1, 2, 3]];
    let palette = PngPalette::with_transparency(&rgb, &[128]).unwrap();
    let indices = [0u8, 1, 1, 0];
    let mut png = Vec::new();
    PngEncoder::new()
        .encode_indexed8(
            &ImageRef::new8(PixelFormat::Indexed8, &indices, 2, 2).unwrap(),
            &palette,
            &mut png,
        )
        .unwrap();
    let decoded = PngDecoder::new().decode(&png).unwrap();
    assert_eq!(decoded.header.color_type, ColorType::Indexed);
    match &decoded.image {
        PngImage::Indexed8(img) => assert_eq!(*img, indices),
        other => panic!("expected Indexed8, got {other:?}"),
    }
    let carried = decoded.palette.unwrap();
    assert_eq!(carried.rgb(0), Some([9, 8, 7]));
    assert_eq!(carried.alpha(0), Some(128));
    assert_eq!(carried.alpha(1), Some(255));
}

#[test]
fn dimension_limit_is_exact() {
    let (png, _) = rgb_png(17, 13);
    let decoder = PngDecoder::new().with_max_dimensions(17, 13);
    assert!(decoder.present(&png, PixelFormat::Rgb8).is_ok());
    let narrow = PngDecoder::new().with_max_dimensions(16, 13);
    assert!(narrow.present(&png, PixelFormat::Rgb8).is_err());
    let short = PngDecoder::new().with_max_dimensions(17, 12);
    assert!(short.present(&png, PixelFormat::Rgb8).is_err());
}

#[test]
fn byte_budget_is_exact() {
    let (png, _) = rgb_png(8, 8);
    let exact = PngDecoder::new().with_max_image_bytes(8 * 8 * 3);
    assert!(exact.present(&png, PixelFormat::Rgb8).is_ok());
    let tight = PngDecoder::new().with_max_image_bytes(8 * 8 * 3 - 1);
    assert!(matches!(
        tight.present(&png, PixelFormat::Rgb8),
        Err(error) if error.kind() == ErrorKind::Unsupported
    ));
}
