//! Layouts and conversions between them, and interlaced files.
use gamut_png::adam7::{pass_dimensions, passes_for};
use gamut_png::chunk::{write_chunk, SIGNATURE};
use gamut_png::decoded::PngImage;
use gamut_png::decoder::PngDecoder;
use gamut_png::error::Cause;
use gamut_png::pixels::{convert, is_lossless, PixelFormat, Raster};
use gamut_png::zlib::zlib_compress;

const ALL: [PixelFormat; 10] = [
    PixelFormat::Bilevel,
    PixelFormat::Gray8,
    PixelFormat::Gray16,
    PixelFormat::GrayAlpha8,
    PixelFormat::GrayAlpha16,
    PixelFormat::Rgb8,
    PixelFormat::Rgb16,
    PixelFormat::Rgba8,
    PixelFormat::Rgba16,
    PixelFormat::Indexed8,
];

fn converted(source: PixelFormat, target: PixelFormat, samples: &[u16]) -> Vec<u16> {
    let out = convert(Raster { format: source, samples: samples.to_vec() }, target).unwrap();
    assert_eq!(out.format, target);
    out.samples
}

#[test]
fn a_layout_holds_what_has_no_more_in_it() {
    for source in ALL {
        for target in ALL {
            let plain = |f: PixelFormat| f != PixelFormat::Indexed8;
            let wanted = source == target
                || (plain(source)
                    && plain(target)
                    && target != PixelFormat::Bilevel
                    && (target.is_color() || !source.is_color())
                    && (target.has_alpha() || !source.has_alpha())
                    && (target.is_wide() || !source.is_wide()));
            assert_eq!(is_lossless(source, target), wanted, "{source:?} in {target:?}");
        }
    }
}

#[test]
fn widening_replicates_scales_and_adds_an_opaque_alpha() {
    assert_eq!(
        converted(PixelFormat::Gray8, PixelFormat::Rgba16, &[0, 0x12]),
        [0, 0, 0, 0xFFFF, 0x1212, 0x1212, 0x1212, 0xFFFF]
    );
    assert_eq!(converted(PixelFormat::Bilevel, PixelFormat::Gray8, &[0, 1]), [0, 255]);
    assert_eq!(converted(PixelFormat::Bilevel, PixelFormat::Gray16, &[1, 0]), [0xFFFF, 0]);
    assert_eq!(
        converted(PixelFormat::GrayAlpha8, PixelFormat::Rgba8, &[7, 9]),
        [7, 7, 7, 9]
    );
    assert_eq!(
        converted(PixelFormat::Rgb8, PixelFormat::Rgba8, &[1, 2, 3]),
        [1, 2, 3, 255]
    );
    let same = [1u16, 2, 3, 4];
    assert_eq!(converted(PixelFormat::Rgba8, PixelFormat::Rgba8, &same), same);
    let lossy = convert(
        Raster { format: PixelFormat::Rgb8, samples: vec![1, 2, 3] },
        PixelFormat::Gray8,
    );
    assert_eq!(lossy.err().unwrap().cause, Cause::LossyLayout);
}

/// The unfiltered scanlines of an interlaced image, pass by pass.
fn interlaced(width: u32, height: u32, row: impl Fn(&[(u32, u32)]) -> Vec<u8>) -> Vec<u8> {
    let mut stream = Vec::new();
    for pass in passes_for(true) {
        let (w, h) = pass_dimensions(pass, width, height);
        if w == 0 || h == 0 {
            continue;
        }
        for y in 0..h {
            let places: Vec<(u32, u32)> = (0..w)
                .map(|x| (pass.x0 + x * pass.dx, pass.y0 + y * pass.dy))
                .collect();
            stream.push(0);
            stream.extend(row(&places));
        }
    }
    stream
}

fn interlaced_file(width: u32, height: u32, depth: u8, color: u8, stream: &[u8]) -> Vec<u8> {
    let mut png = SIGNATURE.to_vec();
    let mut ihdr = Vec::new();
    ihdr.extend_from_slice(&width.to_be_bytes());
    ihdr.extend_from_slice(&height.to_be_bytes());
    ihdr.extend_from_slice(&[depth, color, 0, 0, 1]);
    write_chunk(&mut png, *b"IHDR", &ihdr);
    write_chunk(&mut png, *b"IDAT", &zlib_compress(stream, 6));
    write_chunk(&mut png, *b"IEND", &[]);
    png
}

#[test]
fn an_interlaced_wide_colour_image_is_put_together() {
    for (w, h) in [(1u32, 1u32), (5, 3), (8, 8), (9, 17)] {
        let value = |x: u32, y: u32, c: u32| (x * 1000 + y * 37 + c * 5) as u16;
        let stream = interlaced(w, h, |places| {
            places
                .iter()
                .flat_map(|&(x, y)| (0..3).flat_map(move |c| value(x, y, c).to_be_bytes()))
                .collect()
        });
        let png = interlaced_file(w, h, 16, 2, &stream);
        let decoded = PngDecoder::new().decode(&png).unwrap();
        assert!(decoded.header.interlaced);
        let mut wanted = Vec::new();
        for y in 0..h {
            for x in 0..w {
                for c in 0..3 {
                    wanted.push(value(x, y, c));
                }
            }
        }
        match decoded.image {
            PngImage::Rgb16(got) => assert_eq!(got, wanted, "{w}x{h}"),
            other => panic!("{other:?}"),
        }
    }
}

#[test]
fn an_interlaced_two_bit_image_is_put_together() {
    let (w, h) = (7u32, 6u32);
    let value = |x: u32, y: u32| ((x + 2 * y) % 4) as u8;
    let stream = interlaced(w, h, |places| {
        places
            .chunks(4)
            .map(|four| {
                four.iter()
                    .enumerate()
                    .map(|(i, &(x, y))| value(x, y) << (6 - 2 * i))
                    .sum()
            })
            .collect()
    });
    let decoded = PngDecoder::new().decode(&interlaced_file(w, h, 2, 0, &stream)).unwrap();
    let wanted: Vec<u8> = (0..h)
        .flat_map(|y| (0..w).map(move |x| ((x + 2 * y) % 4) as u8 * 85))
        .collect();
    match decoded.image {
        PngImage::Gray8(got) => assert_eq!(got, wanted),
        other => panic!("{other:?}"),
    }
}
