//! Image data inflated by something else.
use gamut_png::color::ColorType;
use gamut_png::decoded::PngImage;
use gamut_png::decoder::PngDecoder;
use gamut_png::dispatch::Settled;
use gamut_png::encoder::PngEncoder;
use gamut_png::error::{Cause, Error, ErrorKind};
use gamut_png::pixels::{ImageRef, PixelFormat, Pixels};
use gamut_png::seam::{run_inflaters, settle_inflation, IdatInflater, IdatInfo};
use gamut_png::zlib::{inflate_zlib, zlib_compress};

/// A backend with a set answer that counts how often it is asked.
struct Scripted {
    supports: bool,
    answer: Result<Vec<u8>, Error>,
    asked: usize,
    inflated: usize,
}

impl Scripted {
    fn new(supports: bool, answer: Result<Vec<u8>, Error>) -> Self {
        Scripted { supports, answer, asked: 0, inflated: 0 }
    }
}

impl IdatInflater for Scripted {
    fn supports(&mut self, info: &IdatInfo) -> bool {
        assert_eq!(*info, IdatInfo::new(2, 1, 8, ColorType::Grayscale, 3));
        self.asked += 1;
        self.supports
    }

    fn inflate(&mut self, _: &IdatInfo, stream: &[u8], max_out: usize) -> Result<Vec<u8>, Error> {
        assert_eq!(max_out, 3);
        assert_eq!(inflate_zlib(stream, 3).unwrap(), [0, 5, 6]);
        self.inflated += 1;
        self.answer.clone()
    }
}

fn png() -> Vec<u8> {
    let samples = [5u8, 6];
    let image = ImageRef::new8(PixelFormat::Gray8, &samples, 2, 1).unwrap();
    let mut png = gamut_png::chunk::SIGNATURE.to_vec();
    let whole = PngEncoder::new().with_auto_reduce(false).encode_to_vec(&image).unwrap();
    png.extend_from_slice(&whole[8..33]);
    gamut_png::chunk::write_chunk(&mut png, *b"IDAT", &zlib_compress(&[0, 5, 6], 6));
    gamut_png::chunk::write_chunk(&mut png, *b"IEND", &[]);
    png
}

fn decode(backends: &mut Vec<Scripted>) -> Result<Vec<u8>, Cause> {
    match PngDecoder::new().decode_through(backends, &png()) {
        Ok(decoded) => match decoded.image {
            PngImage::Gray8(samples) => Ok(samples),
            other => panic!("{other:?}"),
        },
        Err(e) => Err(e.cause),
    }
}

#[test]
fn without_a_backend_the_built_in_inflater_is_used() {
    assert_eq!(decode(&mut Vec::new()), Ok(vec![5, 6]));
}

#[test]
fn the_first_backend_that_accepts_answers() {
    let mut backends = vec![
        Scripted::new(false, Ok(vec![0, 1, 1])),
        Scripted::new(true, Ok(vec![0, 8, 9])),
        Scripted::new(true, Ok(vec![0, 2, 2])),
    ];
    assert_eq!(decode(&mut backends), Ok(vec![8, 9]));
    let asked: Vec<(usize, usize)> = backends.iter().map(|b| (b.asked, b.inflated)).collect();
    assert_eq!(asked, [(1, 0), (1, 1), (0, 0)]);
}

#[test]
fn a_late_decline_goes_to_the_next_and_in_the_end_to_the_built_in() {
    let declined = Error::new(Cause::BackendDeclined);
    let mut backends = vec![Scripted::new(true, Err(declined)), Scripted::new(true, Err(declined))];
    assert_eq!(decode(&mut backends), Ok(vec![5, 6]));
    assert_eq!(backends[1].inflated, 1);
}

#[test]
fn a_failure_after_accepting_ends_the_decode() {
    let mut backends = vec![
        Scripted::new(true, Err(Error::new(Cause::BackendFailed))),
        Scripted::new(true, Ok(vec![0, 8, 9])),
    ];
    assert_eq!(decode(&mut backends), Err(Cause::BackendFailed));
    assert_eq!(backends[1].asked, 0);
}

#[test]
fn an_answer_past_the_cap_is_refused_not_cut() {
    let mut backends = vec![Scripted::new(true, Ok(vec![0, 8, 9, 10]))];
    assert_eq!(decode(&mut backends), Err(Cause::BackendOverran));
    assert_eq!(Cause::BackendOverran.kind(), ErrorKind::InvalidInput);
    assert_eq!(settle_inflation(Ok(vec![1, 2]), 2), Settled::Accepted(vec![1, 2]));
    assert_eq!(
        settle_inflation(Ok(vec![1, 2, 3]), 2),
        Settled::Ended(Error::new(Cause::BackendOverran))
    );
}

#[test]
fn an_answer_short_of_the_image_is_refused() {
    let mut backends = vec![Scripted::new(true, Ok(vec![0, 8]))];
    assert_eq!(decode(&mut backends), Err(Cause::IdatTooShort));
}

#[test]
fn a_stack_can_be_run_by_itself() {
    let info = IdatInfo::new(2, 1, 8, ColorType::Grayscale, 3);
    let stream = zlib_compress(&[0, 5, 6], 6);
    let mut backends = vec![Scripted::new(true, Ok(vec![7]))];
    assert_eq!(run_inflaters(&mut backends, &info, &stream, 3), Ok(vec![7]));
}

fn present(backends: &mut Vec<Scripted>, target: PixelFormat) -> Result<Pixels, Cause> {
    PngDecoder::new().present_through(backends, &png(), target).map_err(|e| e.cause)
}

#[test]
fn a_presentation_goes_through_the_backends_too() {
    assert_eq!(
        present(&mut Vec::new(), PixelFormat::Gray8),
        Ok(PngDecoder::new().present(&png(), PixelFormat::Gray8).unwrap())
    );
    let mut backends =
        vec![Scripted::new(false, Ok(vec![0, 1, 1])), Scripted::new(true, Ok(vec![0, 8, 9]))];
    assert_eq!(
        present(&mut backends, PixelFormat::Gray8),
        Ok(Pixels::B8(PixelFormat::Gray8, vec![8, 9]))
    );
    assert_eq!((backends[0].asked, backends[1].inflated), (1, 1));
    let mut failing = vec![Scripted::new(true, Err(Error::new(Cause::BackendFailed)))];
    assert_eq!(present(&mut failing, PixelFormat::Gray8), Err(Cause::BackendFailed));
}

#[test]
fn a_layout_is_refused_only_after_the_backends_answered() {
    let mut backends = vec![Scripted::new(true, Ok(vec![0, 8, 9]))];
    assert_eq!(present(&mut backends, PixelFormat::Indexed8), Err(Cause::LossyLayout));
    assert_eq!(backends[0].inflated, 1);
}

#[test]
fn a_file_that_is_refused_before_reaches_no_backend() {
    let mut backends = vec![Scripted::new(true, Ok(vec![0, 8, 9]))];
    let tight = PngDecoder::new().with_max_dimensions(1, 1);
    assert!(tight.present_through(&mut backends, &png(), PixelFormat::Gray8).is_err());
    assert_eq!(backends[0].asked, 0);
}
