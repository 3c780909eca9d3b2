//! The stack of codestream backends.
use gamut_png::backend::{
    no_decode_backend, settle, wrong_backend_layout, JxlCodestreamDecoder, JxlDecoded, JxlDecoder,
    JxlStreamInfo,
};
use gamut_png::dispatch::Settled;
use gamut_png::error::{Cause, Error, ErrorKind};
use gamut_png::jxl::JxlFraming;
use gamut_png::pixels::{PixelFormat, Pixels};
use std::cell::Cell;
use std::rc::Rc;

/// What a backend answers.
#[derive(Clone, Copy)]
enum Outcome {
    Gray(u8),
    Rgb,
    Wide(u16),
    Fails(Cause),
}

/// A backend answering from a flag and a canned outcome, counting both calls.
struct FixedBackend {
    supported: bool,
    outcome: Outcome,
    supports_calls: Rc<Cell<usize>>,
    decode_calls: Rc<Cell<usize>>,
    seen: Rc<Cell<Option<JxlStreamInfo>>>,
}

impl FixedBackend {
    fn with(supported: bool, outcome: Outcome) -> Self {
        Self {
            supported,
            outcome,
            supports_calls: Rc::new(Cell::new(0)),
            decode_calls: Rc::new(Cell::new(0)),
            seen: Rc::new(Cell::new(None)),
        }
    }

    fn returning(fill: u8) -> Self {
        Self::with(true, Outcome::Gray(fill))
    }

    fn counters(&self) -> (Rc<Cell<usize>>, Rc<Cell<usize>>) {
        (Rc::clone(&self.supports_calls), Rc::clone(&self.decode_calls))
    }
}

impl JxlCodestreamDecoder for FixedBackend {
    fn supports(&mut self, info: &JxlStreamInfo) -> bool {
        self.supports_calls.set(self.supports_calls.get() + 1);
        self.seen.set(Some(*info));
        self.supported
    }

    fn decode(&mut self, _info: &JxlStreamInfo, _codestream: &[u8]) -> Result<JxlDecoded, Error> {
        self.decode_calls.set(self.decode_calls.get() + 1);
        match self.outcome {
            Outcome::Gray(fill) => {
                JxlDecoded::new(2, 2, Pixels::B8(PixelFormat::Gray8, vec![fill; 4]))
            }
            Outcome::Rgb => JxlDecoded::new(2, 2, Pixels::B8(PixelFormat::Rgb8, vec![1; 12])),
            Outcome::Wide(fill) => {
                JxlDecoded::new(2, 2, Pixels::B16(PixelFormat::Gray16, vec![fill; 4]))
            }
            Outcome::Fails(cause) => Err(Error::new(cause)),
        }
    }
}

/// A minimal bare codestream signature, enough for framing detection.
const STREAM: [u8; 2] = [0xFF, 0x0A];

fn gray(decoder: &mut JxlDecoder<FixedBackend>) -> Result<(Vec<u8>, (u32, u32)), Error> {
    let decoded = decoder.decode_image(&STREAM, PixelFormat::Gray8, None)?;
    let dimensions = decoded.dimensions();
    match decoded.into_pixels() {
        Pixels::B8(PixelFormat::Gray8, samples) => Ok((samples, dimensions)),
        other => panic!("expected Gray8, got {other:?}"),
    }
}

#[test]
fn new_and_default_are_equal_and_configuration_compares() {
    type Decoder = JxlDecoder<FixedBackend>;
    assert!(Decoder::new() == Decoder::default());
    assert!(!Decoder::new().codestream_bit_depth());
    assert!(Decoder::new().with_codestream_bit_depth(true).codestream_bit_depth());
    assert!(Decoder::new() != Decoder::new().with_codestream_bit_depth(true));
}

#[test]
fn the_refusal_errors_are_pinned() {
    let wrong = wrong_backend_layout();
    assert_eq!(wrong.kind(), ErrorKind::InvalidInput);
    assert_eq!(
        wrong.message(),
        "JXL: backend returned a raster in the wrong pixel layout"
    );
    let missing = no_decode_backend();
    assert_eq!(missing.kind(), ErrorKind::Unsupported);
    assert_eq!(
        missing.message(),
        "JXL: no decode backend (enable the `decode` feature or push a codestream backend)"
    );
}

#[test]
fn first_supporting_backend_wins_and_later_ones_are_untouched() {
    let first = FixedBackend::returning(7);
    let second = FixedBackend::returning(9);
    let (second_supports, second_decodes) = second.counters();

    let mut dec = JxlDecoder::new();
    dec.push_backend(first);
    dec.push_backend(second);

    let (samples, dimensions) = gray(&mut dec).expect("decode");
    assert_eq!(samples, [7, 7, 7, 7]);
    assert_eq!(dimensions, (2, 2));
    assert_eq!(second_supports.get(), 0);
    assert_eq!(second_decodes.get(), 0);
}

#[test]
fn a_declining_backend_is_skipped_in_favour_of_the_next() {
    let first = FixedBackend::with(false, Outcome::Gray(1));
    let (first_supports, first_decodes) = first.counters();
    let second = FixedBackend::returning(3);
    let (second_supports, second_decodes) = second.counters();

    let mut dec = JxlDecoder::new();
    dec.push_backend(first);
    dec.push_backend(second);

    assert_eq!(gray(&mut dec).expect("decode").0, [3, 3, 3, 3]);
    assert_eq!(first_supports.get(), 1);
    assert_eq!(first_decodes.get(), 0);
    assert_eq!(second_supports.get(), 1);
    assert_eq!(second_decodes.get(), 1);
}

#[test]
fn a_late_unsupported_falls_through_to_the_next_backend() {
    let first = FixedBackend::with(true, Outcome::Fails(Cause::BackendDeclined));
    let (_, first_decodes) = first.counters();
    let second = FixedBackend::returning(5);
    let (_, second_decodes) = second.counters();

    let mut dec = JxlDecoder::new();
    dec.push_backend(first);
    dec.push_backend(second);

    assert_eq!(gray(&mut dec).expect("decode").0, [5, 5, 5, 5]);
    assert_eq!(first_decodes.get(), 1);
    assert_eq!(second_decodes.get(), 1);
}

#[test]
fn an_accepted_then_failed_backend_propagates_and_stops_the_chain() {
    let first = FixedBackend::with(true, Outcome::Fails(Cause::BackendFailed));
    let second = FixedBackend::returning(6);
    let (second_supports, second_decodes) = second.counters();

    let mut dec = JxlDecoder::new();
    dec.push_backend(first);
    dec.push_backend(second);

    let error = gray(&mut dec).unwrap_err();
    assert_eq!(error.kind(), ErrorKind::InvalidInput);
    assert_eq!(error, Error::new(Cause::BackendFailed));
    assert_eq!(error.message(), "JXL: backend failed");
    assert_eq!(second_supports.get(), 0);
    assert_eq!(second_decodes.get(), 0);
}

#[test]
fn a_backend_returning_the_wrong_layout_is_a_typed_error() {
    let mut dec = JxlDecoder::new();
    dec.push_backend(FixedBackend::with(true, Outcome::Rgb));
    let error = gray(&mut dec).unwrap_err();
    assert_eq!(error.kind(), ErrorKind::InvalidInput);
    assert_eq!(
        error.message(),
        "JXL: backend returned a raster in the wrong pixel layout"
    );
}

#[test]
fn the_backend_sees_the_requested_layout_framing_and_policy() {
    let backend = FixedBackend::returning(1);
    let seen = Rc::clone(&backend.seen);
    let mut dec = JxlDecoder::new().with_codestream_bit_depth(true);
    dec.push_backend(backend);

    let _ = dec.decode_image(&STREAM, PixelFormat::Gray8, Some((4, 3)));
    let info = seen.get().expect("supports was called");
    assert_eq!(info.format, PixelFormat::Gray8);
    assert_eq!(info.framing, JxlFraming::Codestream);
    assert_eq!(info.dimensions, Some((4, 3)));
    assert!(info.codestream_bit_depth);

    // A container-framed stream is reported as such; junk is Unknown.
    let container = [
        0x00, 0x00, 0x00, 0x0C, 0x4A, 0x58, 0x4C, 0x20, 0x0D, 0x0A, 0x87, 0x0A,
    ];
    let _ = dec.decode_image(&container, PixelFormat::Gray8, None);
    assert_eq!(seen.get().expect("info").framing, JxlFraming::IsoBmff);
    let _ = dec.decode_image(&[0x01, 0x02], PixelFormat::Gray8, None);
    assert_eq!(seen.get().expect("info").framing, JxlFraming::Unknown);
}

#[test]
fn sixteen_bit_backend_output_reaches_the_caller() {
    let mut dec = JxlDecoder::new();
    dec.push_backend(FixedBackend::with(true, Outcome::Wide(0xBEEF)));
    let decoded = dec.decode_image(&STREAM, PixelFormat::Gray16, None).expect("decode");
    assert_eq!(
        decoded.into_pixels(),
        Pixels::B16(PixelFormat::Gray16, vec![0xBEEF; 4])
    );
}

#[test]
fn with_no_backend_the_builtin_tail_decides() {
    // None is built in, so the refusal is typed.
    let error = gray(&mut JxlDecoder::new()).expect_err("a bare signature is not an image");
    assert_eq!(error.kind(), ErrorKind::Unsupported);
    assert_eq!(
        error.message(),
        "JXL: no decode backend (enable the `decode` feature or push a codestream backend)"
    );
}

#[test]
fn all_backends_declining_falls_through_to_the_tail() {
    let first = FixedBackend::with(false, Outcome::Fails(Cause::BackendDeclined));
    let (first_supports, _) = first.counters();
    let second = FixedBackend::with(true, Outcome::Fails(Cause::BackendDeclined));
    let (_, second_decodes) = second.counters();

    let mut dec = JxlDecoder::new();
    dec.push_backend(first);
    dec.push_backend(second);

    let error = gray(&mut dec).expect_err("every backend declined");
    assert_eq!(first_supports.get(), 1);
    assert_eq!(second_decodes.get(), 1);
    assert_eq!(error.kind(), ErrorKind::Unsupported);
    assert_eq!(
        dec.dispatch_backends(&STREAM, PixelFormat::Gray8, None).unwrap(),
        None
    );
}

#[test]
fn a_raster_must_fill_its_dimensions() {
    let short = JxlDecoded::new(2, 2, Pixels::B8(PixelFormat::Gray8, vec![0; 3]));
    assert_eq!(short.unwrap_err().cause, Cause::SampleCount);
}

#[test]
fn each_answer_is_settled_by_its_kind() {
    let raster = || JxlDecoded::new(1, 1, Pixels::B8(PixelFormat::Gray8, vec![4]));
    assert_eq!(
        settle(raster(), PixelFormat::Gray8),
        Settled::Accepted(raster().unwrap())
    );
    assert_eq!(
        settle(raster(), PixelFormat::Rgb8),
        Settled::Ended(wrong_backend_layout())
    );
    assert_eq!(
        settle(Err(Error::new(Cause::BackendDeclined)), PixelFormat::Gray8),
        Settled::Declined
    );
}

#[test]
fn backends_are_told_of_the_stream() {
    let dec: JxlDecoder<FixedBackend> = JxlDecoder::new();
    let info = dec.stream_info(&STREAM, PixelFormat::Rgb8, Some((3, 4)));
    assert_eq!(info.format, PixelFormat::Rgb8);
    assert_eq!(info.framing, JxlFraming::detect(&STREAM));
    assert_eq!(info.dimensions, Some((3, 4)));
    assert!(!info.codestream_bit_depth);
    assert_eq!(dec.stream_info(&STREAM, PixelFormat::Rgb8, None).dimensions, None);
}

#[test]
fn a_raster_stores_its_samples_at_the_width_of_its_layout() {
    let narrow = JxlDecoded::new(1, 1, Pixels::B8(PixelFormat::Gray16, vec![7]));
    assert_eq!(narrow.unwrap_err(), wrong_backend_layout());
    let wide = JxlDecoded::new(1, 1, Pixels::B16(PixelFormat::Gray8, vec![7]));
    assert_eq!(wide.unwrap_err(), wrong_backend_layout());
    assert!(JxlDecoded::new(1, 1, Pixels::B16(PixelFormat::Gray16, vec![7])).is_ok());
}
