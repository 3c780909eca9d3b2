//! Image data deflated by pushed backends.
use gamut_png::color::ColorType;
use gamut_png::decoder::PngDecoder;
use gamut_png::deflate::{run_deflaters, settle_deflation, IdatDeflater};
use gamut_png::dispatch::Settled;
use gamut_png::encoder::PngEncoder;
use gamut_png::error::{Cause, Error};
use gamut_png::filter::FilterStrategy;
use gamut_png::palette::PngPalette;
use gamut_png::pixels::{ImageRef, PixelFormat, Pixels};
use gamut_png::seam::IdatInfo;
use gamut_png::zlib::{inflate_zlib, zlib_compress, Level};

/// How a backend answers.
#[derive(Clone, Copy)]
enum Answer {
    Stores,
    Fails(Cause),
    FailsAfter(usize),
}

/// A backend with a set answer that keeps what it was handed.
struct Scripted {
    supports: bool,
    answer: Answer,
    asked: Vec<IdatInfo>,
    handed: Vec<Vec<u8>>,
}

impl Scripted {
    fn new(supports: bool, answer: Answer) -> Self {
        Scripted { supports, answer, asked: Vec::new(), handed: Vec::new() }
    }
}

impl IdatDeflater for Scripted {
    fn supports(&mut self, info: &IdatInfo) -> bool {
        self.asked.push(*info);
        self.supports
    }

    fn deflate(&mut self, info: &IdatInfo, filtered: &[u8]) -> Result<Vec<u8>, Error> {
        assert_eq!(info.filtered_len, filtered.len());
        self.handed.push(filtered.to_vec());
        match self.answer {
            Answer::Stores => Ok(zlib_compress(filtered, 0)),
            Answer::Fails(cause) => Err(Error::new(cause)),
            Answer::FailsAfter(n) => {
                if self.handed.len() > n {
                    Err(Error::new(Cause::BackendFailed))
                } else {
                    Ok(zlib_compress(filtered, 6))
                }
            }
        }
    }
}

const SAMPLES: [u8; 8] = [1, 2, 3, 4, 5, 6, 7, 8];

fn gray() -> ImageRef<'static> {
    ImageRef::new8(PixelFormat::Gray8, &SAMPLES, 4, 2).unwrap()
}

fn sprite() -> Vec<u8> {
    (0..64u32).flat_map(|i| [(i % 3) as u8 * 90, 7, (i / 9) as u8, (i % 2) as u8 * 255]).collect()
}

#[test]
fn without_a_backend_an_encode_is_the_built_in_one() {
    let samples = sprite();
    let image = ImageRef::new8(PixelFormat::Rgba8, &samples, 8, 8).unwrap();
    for reduce in [false, true] {
        for clean in [false, true] {
            for filter in [FilterStrategy::MinSumAbs, FilterStrategy::BruteForce] {
                let encoder = PngEncoder::new()
                    .with_auto_reduce(reduce)
                    .with_transparent_cleanup(clean)
                    .with_filter(filter)
                    .with_text("Title", "t");
                let mut out = vec![9];
                let mut none: Vec<Scripted> = Vec::new();
                let size = encoder.encode_through(&mut none, &image, &mut out).unwrap();
                assert_eq!(out[1..], encoder.encode_to_vec(&image).unwrap());
                assert_eq!(size, out.len() - 1);
            }
        }
    }
}

#[test]
fn the_first_deflater_that_accepts_makes_the_stream() {
    let mut backends = vec![
        Scripted::new(false, Answer::Stores),
        Scripted::new(true, Answer::Fails(Cause::BackendDeclined)),
        Scripted::new(true, Answer::Stores),
        Scripted::new(true, Answer::Stores),
    ];
    let mut out = Vec::new();
    let encoder = PngEncoder::new().with_filter(FilterStrategy::Unfiltered);
    encoder.encode_through(&mut backends, &gray(), &mut out).unwrap();
    let told = IdatInfo::new(4, 2, 8, ColorType::Grayscale, 10);
    let asked: Vec<usize> = backends.iter().map(|b| b.asked.len()).collect();
    let handed: Vec<usize> = backends.iter().map(|b| b.handed.len()).collect();
    assert_eq!(asked, [1, 1, 1, 0]);
    assert_eq!(handed, [0, 1, 1, 0]);
    assert_eq!(backends[2].asked, [told]);
    assert_eq!(backends[2].handed[0], [0, 1, 2, 3, 4, 0, 5, 6, 7, 8]);
    let stored = zlib_compress(&backends[2].handed[0], 0);
    assert!(out.windows(stored.len()).any(|w| w == stored));
    let shown = PngDecoder::new().present(&out, PixelFormat::Gray8).unwrap();
    assert_eq!(shown, Pixels::B8(PixelFormat::Gray8, SAMPLES.to_vec()));
}

#[test]
fn where_every_deflater_declines_the_built_in_one_is_used() {
    let mut backends = vec![
        Scripted::new(false, Answer::Stores),
        Scripted::new(true, Answer::Fails(Cause::BackendDeclined)),
    ];
    let mut out = Vec::new();
    PngEncoder::new().encode_through(&mut backends, &gray(), &mut out).unwrap();
    assert_eq!(out, PngEncoder::new().encode_to_vec(&gray()).unwrap());
}

#[test]
fn a_brute_force_offers_every_try() {
    let mut backends = vec![Scripted::new(true, Answer::FailsAfter(100))];
    let encoder = PngEncoder::new().with_filter(FilterStrategy::BruteForce);
    let mut out = Vec::new();
    encoder.encode_through(&mut backends, &gray(), &mut out).unwrap();
    assert_eq!(backends[0].handed.len(), 7);
    let codes: Vec<u8> = backends[0].handed.iter().take(5).map(|f| f[0]).collect();
    assert_eq!(codes, [0, 1, 2, 3, 4]);
    assert_eq!(out, encoder.encode_to_vec(&gray()).unwrap());
}

#[test]
fn a_race_offers_every_file_it_weighs() {
    let samples = sprite();
    let image = ImageRef::new8(PixelFormat::Rgba8, &samples, 8, 8).unwrap();
    let encoder = PngEncoder::new().with_auto_reduce(true).with_transparent_cleanup(true);
    let mut backends = vec![Scripted::new(true, Answer::FailsAfter(100))];
    let mut out = Vec::new();
    encoder.encode_through(&mut backends, &image, &mut out).unwrap();
    assert_eq!(out, encoder.encode_to_vec(&image).unwrap());
    let files = backends[0].handed.len();
    assert!(files > 2, "both sides are weighed");

    let mut failing = vec![Scripted::new(true, Answer::FailsAfter(files - 1))];
    let mut rest = vec![1, 2];
    let error = encoder.encode_through(&mut failing, &image, &mut rest).unwrap_err();
    assert_eq!(error.cause, Cause::BackendFailed);
    assert_eq!(failing[0].handed.len(), files);
    assert_eq!(rest, [1, 2], "nothing of a race is appended");
}

#[test]
fn a_failure_leaves_what_precedes_the_image_data() {
    let mut backends = vec![
        Scripted::new(true, Answer::Fails(Cause::BackendFailed)),
        Scripted::new(true, Answer::Stores),
    ];
    let mut out = Vec::new();
    let error = PngEncoder::new().encode_through(&mut backends, &gray(), &mut out).unwrap_err();
    assert_eq!(error.cause, Cause::BackendFailed);
    assert_eq!(backends[1].asked.len(), 0);
    let whole = PngEncoder::new().encode_to_vec(&gray()).unwrap();
    assert_eq!(out, whole[..33]);
}

#[test]
fn a_refused_annotation_reaches_no_deflater() {
    let mut backends = vec![Scripted::new(true, Answer::Stores)];
    let mut out = Vec::new();
    let encoder = PngEncoder::new().with_text("Title", "nul \0 inside");
    let error = encoder.encode_through(&mut backends, &gray(), &mut out).unwrap_err();
    assert_eq!(error.cause, Cause::RefusedAnnotation);
    assert_eq!(backends[0].asked.len(), 0);
    assert!(out.is_empty());
}

#[test]
fn an_indexed_image_goes_through_the_deflaters_too() {
    let palette = PngPalette::new(&[[1, 2, 3], [4, 5, 6]]).unwrap();
    let image = ImageRef::new8(PixelFormat::Indexed8, &[0, 1, 1, 0], 2, 2).unwrap();
    let encoder = PngEncoder::new();
    let mut plain = Vec::new();
    encoder.encode_indexed8(&image, &palette, &mut plain).unwrap();

    let mut none: Vec<Scripted> = Vec::new();
    let mut out = Vec::new();
    encoder.encode_indexed8_through(&mut none, &image, &palette, &mut out).unwrap();
    assert_eq!(out, plain);

    let mut backends = vec![Scripted::new(true, Answer::Stores)];
    let mut stored = Vec::new();
    encoder.encode_indexed8_through(&mut backends, &image, &palette, &mut stored).unwrap();
    assert_eq!(backends[0].asked, [IdatInfo::new(2, 2, 1, ColorType::Indexed, 4)]);
    assert_eq!(
        PngDecoder::new().present(&stored, PixelFormat::Indexed8).unwrap(),
        Pixels::B8(PixelFormat::Indexed8, vec![0, 1, 1, 0])
    );

    let outside = ImageRef::new8(PixelFormat::Indexed8, &[0, 2, 1, 0], 2, 2).unwrap();
    let error = encoder
        .encode_indexed8_through(&mut backends, &outside, &palette, &mut out)
        .unwrap_err();
    assert_eq!(error.cause, Cause::IndexOutOfRange);
}

#[test]
fn each_deflation_is_settled_by_its_kind() {
    assert_eq!(settle_deflation(Ok(vec![1])), Settled::Accepted(vec![1]));
    assert_eq!(settle_deflation(Err(Error::new(Cause::BackendDeclined))), Settled::Declined);
    assert_eq!(
        settle_deflation(Err(Error::new(Cause::BackendFailed))),
        Settled::Ended(Error::new(Cause::BackendFailed))
    );
    let info = IdatInfo::new(1, 1, 8, ColorType::Grayscale, 2);
    let mut none: Vec<Scripted> = Vec::new();
    let stream = run_deflaters(&mut none, &info, &[0, 5], 6).unwrap();
    assert_eq!(inflate_zlib(&stream, 2).unwrap(), [0, 5]);
}

#[test]
fn best_never_spends_less_than_default() {
    for effort in 0..=5u8 {
        assert_eq!(Level::Best.strength(effort), Level::Default.strength(effort));
    }
    assert_eq!(Level::Best.strength(8), 8);
    assert_eq!(Level::Best.strength(255), 10);
    assert_eq!((Level::Fast.strength(9), Level::Default.strength(9)), (1, 6));
}

#[test]
fn a_cloned_encoder_writes_the_same_file() {
    let encoder = PngEncoder::new().with_text("Title", "t").with_gamma(45_455);
    let clone = encoder.clone();
    assert_eq!(clone.encode_to_vec(&gray()).unwrap(), encoder.encode_to_vec(&gray()).unwrap());
}
