//! What was encoded is what is decoded.
use gamut_png::ancillary::PhysicalUnit;
use gamut_png::decoded::PngImage;
use gamut_png::decoder::{PngDecoder, TransparencyKey};
use gamut_png::encoder::PngEncoder;
use gamut_png::filter::{FilterStrategy, FilterType};
use gamut_png::palette::PngPalette;
use gamut_png::pixels::{ImageRef, PixelFormat, Pixels};
use gamut_png::zlib::{inflate_zlib, zlib_compress, Level};

const STRATEGIES: [FilterStrategy; 10] = [
    FilterStrategy::Unfiltered,
    FilterStrategy::Fixed(FilterType::Unfiltered),
    FilterStrategy::Fixed(FilterType::Sub),
    FilterStrategy::Fixed(FilterType::Up),
    FilterStrategy::Fixed(FilterType::Average),
    FilterStrategy::Fixed(FilterType::Paeth),
    FilterStrategy::MinSumAbs,
    FilterStrategy::MinEntropy,
    FilterStrategy::MinBigrams,
    FilterStrategy::BruteForce,
];

const NARROW: [PixelFormat; 4] = [
    PixelFormat::Gray8,
    PixelFormat::GrayAlpha8,
    PixelFormat::Rgb8,
    PixelFormat::Rgba8,
];

const WIDE: [PixelFormat; 4] = [
    PixelFormat::Gray16,
    PixelFormat::GrayAlpha16,
    PixelFormat::Rgb16,
    PixelFormat::Rgba16,
];

fn noise(len: usize, seed: u32) -> Vec<u8> {
    let mut state = seed.wrapping_mul(2654435761).wrapping_add(1);
    (0..len)
        .map(|_| {
            state = state.wrapping_mul(1664525).wrapping_add(1013904223);
            (state >> 24) as u8
        })
        .collect()
}

fn wide_noise(len: usize, seed: u32) -> Vec<u16> {
    noise(2 * len, seed)
        .chunks(2)
        .map(|pair| u16::from_be_bytes([pair[0], pair[1]]))
        .collect()
}

fn narrow_back(png: &[u8], format: PixelFormat) -> Vec<u8> {
    match PngDecoder::new().present(png, format).unwrap() {
        Pixels::B8(got, samples) if got == format => samples,
        other => panic!("expected {format:?}, got {other:?}"),
    }
}

fn wide_back(png: &[u8], format: PixelFormat) -> Vec<u16> {
    match PngDecoder::new().present(png, format).unwrap() {
        Pixels::B16(got, samples) if got == format => samples,
        other => panic!("expected {format:?}, got {other:?}"),
    }
}

#[test]
fn every_narrow_layout_round_trips_under_every_filter() {
    for format in NARROW {
        let samples = noise(7 * 5 * format.channels(), 3);
        let image = ImageRef::new8(format, &samples, 7, 5).unwrap();
        for filter in STRATEGIES {
            let png = PngEncoder::new().with_filter(filter).encode_to_vec(&image).unwrap();
            assert_eq!(narrow_back(&png, format), samples, "{format:?} {filter:?}");
        }
    }
}

#[test]
fn every_wide_layout_round_trips_under_every_filter() {
    for format in WIDE {
        let samples = wide_noise(7 * 5 * format.channels(), 5);
        let image = ImageRef::new16(format, &samples, 7, 5).unwrap();
        for filter in STRATEGIES {
            let png = PngEncoder::new().with_filter(filter).encode_to_vec(&image).unwrap();
            assert_eq!(wide_back(&png, format), samples, "{format:?} {filter:?}");
        }
    }
}

#[test]
fn every_level_and_effort_round_trips() {
    let samples = noise(40 * 3, 9);
    let image = ImageRef::new8(PixelFormat::Rgb8, &samples, 8, 5).unwrap();
    for level in [Level::Fast, Level::Default, Level::Best] {
        for effort in [0, 1, 9, 255] {
            let png = PngEncoder::new()
                .with_compression(level)
                .with_effort(effort)
                .encode_to_vec(&image)
                .unwrap();
            assert_eq!(narrow_back(&png, PixelFormat::Rgb8), samples, "{level:?} {effort}");
        }
    }
}

#[test]
fn reduction_never_changes_a_pixel() {
    // Few colours, grey only, opaque only, a single transparent colour, and noise.
    let shapes: [fn(usize) -> [u8; 4]; 6] = [
        |i| [(i % 3) as u8 * 40, 7, 9, 255],
        |i| {
            let grey = (i % 7) as u8 * 30;
            [grey, grey, grey, 255]
        },
        |i| if i % 5 == 0 { [1, 2, 3, 0] } else { [(i * 11) as u8, (i * 5) as u8, i as u8, 255] },
        |i| {
            let level = (i % 2) as u8 * 255;
            [level, level, level, 255]
        },
        |i| [i as u8, (i >> 1) as u8, (i * 3) as u8, (i * 7) as u8],
        |i| [9, 9, 9, (i % 2) as u8 * 255],
    ];
    for (which, shape) in shapes.into_iter().enumerate() {
        for (w, h) in [(1u32, 1u32), (5, 3), (64, 2)] {
            let samples: Vec<u8> = (0..(w * h) as usize).flat_map(shape).collect();
            let image = ImageRef::new8(PixelFormat::Rgba8, &samples, w, h).unwrap();
            let png = PngEncoder::new().with_auto_reduce(true).encode_to_vec(&image).unwrap();
            assert_eq!(narrow_back(&png, PixelFormat::Rgba8), samples, "shape {which} {w}x{h}");
            let plain = PngEncoder::new().with_auto_reduce(false).encode_to_vec(&image).unwrap();
            assert_eq!(narrow_back(&plain, PixelFormat::Rgba8), samples);
            assert!(png.len() <= plain.len(), "shape {which} {w}x{h}");
        }
    }
}

#[test]
fn a_wide_image_of_doubled_bytes_reduces_and_comes_back() {
    let bytes = noise(6 * 4 * 4, 12);
    let samples: Vec<u16> = bytes.iter().map(|&b| u16::from(b) * 257).collect();
    let image = ImageRef::new16(PixelFormat::Rgba16, &samples, 6, 4).unwrap();
    let png = PngEncoder::new().with_auto_reduce(true).encode_to_vec(&image).unwrap();
    assert_eq!(png[24], 8, "doubled bytes need 8 bits");
    assert_eq!(wide_back(&png, PixelFormat::Rgba16), samples);
}

#[test]
fn cleanup_changes_only_what_cannot_be_seen() {
    let samples: Vec<u8> = (0..64usize)
        .flat_map(|i| if i % 2 == 0 { [i as u8, 200, 3, 0] } else { [i as u8, 1, 2, 255] })
        .collect();
    let image = ImageRef::new8(PixelFormat::Rgba8, &samples, 8, 8).unwrap();
    let png = PngEncoder::new().with_transparent_cleanup(true).encode_to_vec(&image).unwrap();
    let back = narrow_back(&png, PixelFormat::Rgba8);
    for (was, is) in samples.chunks(4).zip(back.chunks(4)) {
        assert_eq!(was[3], is[3], "alpha is kept");
        if was[3] != 0 {
            assert_eq!(was, is, "a visible pixel is kept");
        }
    }
}

#[test]
fn an_indexed_image_keeps_its_palette_colours() {
    let rgb = [[1, 2, 3], [4, 5, 6], [7, 8, 9], [200, 100, 50]];
    let palette = PngPalette::with_transparency(&rgb, &[0, 128]).unwrap();
    let indices: Vec<u8> = (0..36u8).map(|i| i % 4).collect();
    let image = ImageRef::new8(PixelFormat::Indexed8, &indices, 9, 4).unwrap();
    let mut png = Vec::new();
    PngEncoder::new().encode_indexed8(&image, &palette, &mut png).unwrap();
    let wanted: Vec<u8> = indices
        .iter()
        .flat_map(|&i| {
            let [r, g, b] = rgb[usize::from(i)];
            [r, g, b, [0, 128, 255, 255][usize::from(i)]]
        })
        .collect();
    assert_eq!(narrow_back(&png, PixelFormat::Rgba8), wanted);
}

#[test]
fn a_bilevel_image_is_one_bit_deep() {
    let samples: Vec<u8> = (0..27u8).map(|i| i % 3 % 2).collect();
    let image = ImageRef::new8(PixelFormat::Bilevel, &samples, 9, 3).unwrap();
    let png = PngEncoder::new().encode_to_vec(&image).unwrap();
    assert_eq!((png[24], png[25]), (1, 0));
    let wanted: Vec<u8> = samples.iter().map(|&s| s * 255).collect();
    assert_eq!(narrow_back(&png, PixelFormat::Gray8), wanted);
}

#[test]
fn a_decode_gives_the_native_layout() {
    let samples = noise(12 * 3, 21);
    let image = ImageRef::new8(PixelFormat::Rgb8, &samples, 4, 3).unwrap();
    let png = PngEncoder::new()
        .with_physical_dimensions(2835, 2835, PhysicalUnit::Meter)
        .encode_to_vec(&image)
        .unwrap();
    let decoded = PngDecoder::new().decode(&png).unwrap();
    assert_eq!((decoded.header.width, decoded.header.height), (4, 3));
    assert!(!decoded.header.interlaced);
    match decoded.image {
        PngImage::Rgb8(got) => assert_eq!(got, samples),
        other => panic!("expected 8-bit RGB, got {other:?}"),
    }
}

#[test]
fn a_single_transparent_colour_becomes_a_key() {
    let samples: Vec<u8> = (0..256usize)
        .flat_map(|i| {
            if i % 16 == 0 {
                [9, 8, 7, 0]
            } else {
                [(i * 7) as u8, (i * 13) as u8, (i / 2) as u8, 255]
            }
        })
        .collect();
    let image = ImageRef::new8(PixelFormat::Rgba8, &samples, 16, 16).unwrap();
    let png = PngEncoder::new().with_auto_reduce(true).encode_to_vec(&image).unwrap();
    let decoded = PngDecoder::new().decode(&png).unwrap();
    if let Some(key) = decoded.transparency {
        assert_eq!(key, TransparencyKey::Rgb(9, 8, 7));
    }
    assert_eq!(narrow_back(&png, PixelFormat::Rgba8), samples);
}

#[test]
fn a_stream_inflates_back_at_its_exact_length() {
    for len in [0usize, 1, 2, 255, 4096, 70_000] {
        for data in [noise(len, 4), vec![7u8; len]] {
            for strength in [0, 1, 6, 10] {
                let stream = zlib_compress(&data, strength);
                assert_eq!(inflate_zlib(&stream, len).unwrap(), data, "{len} at {strength}");
                assert_eq!(inflate_zlib(&stream, len + 1).unwrap(), data);
                if len > 0 {
                    assert!(inflate_zlib(&stream, len - 1).is_err(), "{len} at {strength}");
                }
            }
        }
    }
}
