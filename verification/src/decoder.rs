//! The PNG decoder: limits for untrusted input, palette and transparency rules, and the
//! presentation of an image in a pixel layout.
//!
//! Dimensions are checked against the limits before anything is allocated from them, and inflation
//! stops at the size that the image geometry implies.
use crate::adam7::{expected_stream_len, stream_fits, stream_len};
use crate::ancillary::two_to;
use crate::bytes::{be16, be32, read_be16};
use crate::canvas::{canvas, decode_canvas, every_pass_restores, pass_rows, row_samples};
use crate::chunk::chunk_at;
use crate::color::ColorType;
use crate::decoded::{
    collect, opt_palette, DecodedModel, DecodedPng, MetadataModel, PaletteColors, PngHeader,
    PngImage, PngMetadata,
};
use crate::error::{failed, Cause, Error};
use crate::ihdr::{decoded_bytes, native_bytes, Ihdr, MAX_DIMENSION};
use crate::palette::{alpha_at, palette_fault, rgb_triples, PngPalette, OPAQUE};
use crate::parse::{
    error_of, metadata_agrees_with_decode, metadata_does_not_affect_the_image, metadata_with_late,
    opening, parse_stream, parsed_stream, walk_metadata_chunks, walked_stream,
    ParseState, Parsed,
};
use crate::pixels::{
    convert, converted, holds_losslessly, in_range, narrow, PixelFormat, Pixels, Raster,
};
use crate::reduce::{gray8_scale, gray_scale, pixel_position};
use crate::zlib::{inflate_zlib, zlib_contents};
use vstd::prelude::*;

verus! {

/// Default cap on the decoded sample buffer: 64 MiB, a 4096 by 4096 RGBA8 image.
pub const DEFAULT_MAX_IMAGE_BYTES: usize = 0x400_0000;

/// Default cumulative cap on inflated metadata (iCCP, zTXt, iTXt) payloads: 16 MiB.
pub const DEFAULT_MAX_METADATA_BYTES: usize = 0x100_0000;

/// A reusable PNG decoder with limits for untrusted input.
///
/// The defaults accept anything the format allows dimensionally but cap the decoded sample buffer
/// at 64 MiB. Tighten the dimension caps when the application knows its domain.
#[derive(Debug, Clone, Copy)]
pub struct PngDecoder {
    max_width: u32,
    max_height: u32,
    max_image_bytes: usize,
    max_metadata_bytes: usize,
}

/// The limits of a decoder.
pub struct Limits {
    pub max_width: int,
    pub max_height: int,
    pub max_image_bytes: int,
    pub max_metadata_bytes: int,
}

impl View for PngDecoder {
    type V = Limits;

    closed spec fn view(&self) -> Limits {
        Limits {
            max_width: self.max_width as int,
            max_height: self.max_height as int,
            max_image_bytes: self.max_image_bytes as int,
            max_metadata_bytes: self.max_metadata_bytes as int,
        }
    }
}

/// The limits of a decoder that none were set on.
pub open spec fn default_limits() -> Limits {
    Limits {
        max_width: MAX_DIMENSION as int,
        max_height: MAX_DIMENSION as int,
        max_image_bytes: DEFAULT_MAX_IMAGE_BYTES as int,
        max_metadata_bytes: DEFAULT_MAX_METADATA_BYTES as int,
    }
}

impl Default for PngDecoder {
    fn default() -> (decoder: Self)
        ensures
            decoder@ == default_limits(),
    {
        Self::new()
    }
}

/// A tRNS colour key for greyscale or truecolour images, in the file's native (unscaled) sample
/// range (§11.3.1.1). Pixels equal to the key are fully transparent, all others opaque.
#[derive(Debug, Clone, Copy, PartialEq, Eq, Structural)]
pub enum TransparencyKey {
    /// The transparent grey level of a greyscale image.
    Gray(u16),
    /// The transparent RGB colour of a truecolour image.
    Rgb(u16, u16, u16),
}

/// The significant low bits of a colour key sample.
pub open spec fn masked(v: int, bit_depth: u8) -> u16 {
    if bit_depth >= 16 {
        v as u16
    } else {
        (v % two_to(bit_depth as nat)) as u16
    }
}

/// §11.3.1.1 stores keys as 2-byte values, but only the low `bit_depth` bits are significant below
/// depth 16.
fn mask_to_depth(v: u16, bit_depth: u8) -> (key: u16)
    requires
        bit_depth == 1 || bit_depth == 2 || bit_depth == 4 || bit_depth == 8 || bit_depth == 16,
    ensures
        key == masked(v as int, bit_depth),
{
    proof {
        reveal_with_fuel(two_to, 9);
    }
    match bit_depth {
        1 => v % 2,
        2 => v % 4,
        4 => v % 16,
        8 => v % 256,
        _ => v,
    }
}

/// The palette and the colour key of an image, or why PLTE and tRNS are refused.
pub open spec fn palette_and_key(h: Ihdr, plte: Option<Seq<u8>>, trns: Option<Seq<u8>>) -> Result<
    (Option<PaletteColors>, Option<TransparencyKey>),
    Cause,
> {
    if h.color is Indexed {
        match plte {
            None => Err(Cause::PlteRequired),
            Some(p) => {
                let alphas = match trns {
                    Some(t) => t,
                    None => Seq::empty(),
                };
                if p.len() % 3 != 0 {
                    Err(Cause::PlteNotTriples)
                } else if palette_fault(p.len() / 3, alphas.len()) is Some {
                    Err(palette_fault(p.len() / 3, alphas.len())->0)
                } else if p.len() / 3 > two_to(h.bit_depth as nat) {
                    Err(Cause::PaletteTooLarge)
                } else {
                    Ok((Some(PaletteColors { rgb: rgb_triples(p), alphas }), None))
                }
            },
        }
    } else if plte is Some && (h.color is Grayscale || h.color is GrayscaleAlpha) {
        Err(Cause::PlteForbidden)
    } else if plte is Some && (plte->0.len() % 3 != 0 || !(1 <= plte->0.len() / 3 <= 256)) {
        Err(Cause::MalformedPlte)
    } else {
        match trns {
            None => Ok((None, None)),
            Some(t) => match h.color {
                ColorType::Grayscale => if t.len() == 2 {
                    Ok((None, Some(TransparencyKey::Gray(masked(be16(t, 0), h.bit_depth)))))
                } else {
                    Err(Cause::MalformedTrns)
                },
                ColorType::Truecolor => if t.len() == 6 {
                    Ok(
                        (
                            None,
                            Some(
                                TransparencyKey::Rgb(
                                    masked(be16(t, 0), h.bit_depth),
                                    masked(be16(t, 2), h.bit_depth),
                                    masked(be16(t, 4), h.bit_depth),
                                ),
                            ),
                        ),
                    )
                } else {
                    Err(Cause::MalformedTrns)
                },
                _ => Err(Cause::TrnsForbidden),
            },
        }
    }
}

/// Validates PLTE presence and shape and tRNS shape against the colour type (§11.2.2, §11.3.1.1),
/// returning the palette of an indexed image and the colour key of a greyscale or truecolour one.
pub fn validate_plte_and_trns(header: &Ihdr, plte: Option<&[u8]>, trns: Option<&[u8]>) -> (valid:
    Result<(Option<PngPalette>, Option<TransparencyKey>), Error>)
    requires
        header.wf(),
    ensures
        match palette_and_key(
            *header,
            crate::parse::opt_slice(plte),
            crate::parse::opt_slice(trns),
        ) {
            Err(cause) => failed(valid, cause),
            Ok((colors, key)) => valid matches Ok((p, k)) && opt_palette(p) == colors && k == key
                && (p matches Some(q) ==> q.wf()) && (p is Some <==> header.color is Indexed),
        },
{
    if let Some(p) = plte {
        match header.color {
            ColorType::Grayscale | ColorType::GrayscaleAlpha => {
                return Err(Error::new(Cause::PlteForbidden));
            },
            ColorType::Truecolor | ColorType::TruecolorAlpha => {
                let entries: usize = p.len() / 3;
                if p.len() % 3 != 0 || entries == 0 || entries > 256 {
                    return Err(Error::new(Cause::MalformedPlte));
                }
            },
            ColorType::Indexed => {},
        }
    }
    match header.color {
        ColorType::Indexed => {
            let p: &[u8] = match plte {
                Some(p) => p,
                None => {
                    return Err(Error::new(Cause::PlteRequired));
                },
            };
            let palette: PngPalette = match PngPalette::from_chunks(p, trns) {
                Ok(palette) => palette,
                Err(e) => {
                    return Err(e);
                },
            };
            let limit: usize = match header.bit_depth {
                1 => 2,
                2 => 4,
                4 => 16,
                _ => 256,
            };
            proof {
                reveal_with_fuel(two_to, 9);
            }
            if palette.len() > limit {
                return Err(Error::new(Cause::PaletteTooLarge));
            }
            return Ok((Some(palette), None));
        },
        _ => {},
    }
    let t: &[u8] = match trns {
        Some(t) => t,
        None => {
            return Ok((None, None));
        },
    };
    match header.color {
        ColorType::Grayscale => {
            if t.len() != 2 {
                return Err(Error::new(Cause::MalformedTrns));
            }
            Ok((None, Some(TransparencyKey::Gray(mask_to_depth(read_be16(t, 0), header.bit_depth)))))
        },
        ColorType::Truecolor => {
            if t.len() != 6 {
                return Err(Error::new(Cause::MalformedTrns));
            }
            Ok(
                (
                    None,
                    Some(
                        TransparencyKey::Rgb(
                            mask_to_depth(read_be16(t, 0), header.bit_depth),
                            mask_to_depth(read_be16(t, 2), header.bit_depth),
                            mask_to_depth(read_be16(t, 4), header.bit_depth),
                        ),
                    ),
                ),
            )
        },
        _ => Err(Error::new(Cause::TrnsForbidden)),
    }
}

/// Why the limits refuse an image.
pub open spec fn limit_fault(l: Limits, h: Ihdr) -> Option<Cause> {
    let bytes = decoded_bytes(h.width, h.height, h.color.spec_channels(), h.bit_depth);
    if h.width > l.max_width || h.height > l.max_height {
        Some(Cause::DimensionLimit)
    } else if bytes > usize::MAX {
        Some(Cause::DimensionsOverflow)
    } else if bytes > l.max_image_bytes {
        Some(Cause::SizeLimit)
    } else if !stream_fits(h) {
        Some(Cause::DimensionsOverflow)
    } else {
        None
    }
}

/// A fully decoded image in its native layout: samples unpacked but not scaled.
pub struct NativeImage {
    pub header: Ihdr,
    pub samples: Vec<u16>,
    pub palette: Option<PngPalette>,
    pub trns_key: Option<TransparencyKey>,
}

/// [`NativeImage`] as values.
pub struct NativeModel {
    pub header: Ihdr,
    pub samples: Seq<u16>,
    pub palette: Option<PaletteColors>,
    pub key: Option<TransparencyKey>,
}

impl View for NativeImage {
    type V = NativeModel;

    open spec fn view(&self) -> NativeModel {
        NativeModel {
            header: self.header,
            samples: self.samples@,
            palette: opt_palette(self.palette),
            key: self.trns_key,
        }
    }
}

/// The largest sample of a bit depth.
pub open spec fn depth_max(bit_depth: u8) -> int {
    if bit_depth == 1 {
        1
    } else if bit_depth == 2 {
        3
    } else if bit_depth == 4 {
        15
    } else if bit_depth == 8 {
        0xFF
    } else {
        0xFFFF
    }
}

impl NativeImage {
    /// The samples fit the bit depth, and an indexed image has a palette that holds its indices.
    pub open spec fn wf(&self) -> bool {
        &&& self.header.wf()
        &&& self.samples@.len() == self.header.width * self.header.height
            * self.header.color.spec_channels()
        &&& forall|i: int|
            0 <= i < self.samples@.len() ==> (#[trigger] self.samples@[i]) <= depth_max(
                self.header.bit_depth,
            )
        &&& self.palette is Some <==> self.header.color is Indexed
        &&& self.palette matches Some(p) ==> p.wf() && forall|i: int|
            0 <= i < self.samples@.len() ==> (#[trigger] self.samples@[i]) < p.colors().len()
    }
}

/// Whether every sample indexes one of `entries` palette entries.
pub open spec fn indices_in_range(samples: Seq<u16>, entries: nat) -> bool {
    forall|i: int| 0 <= i < samples.len() ==> (#[trigger] samples[i]) < entries
}

/// The image of an inflated scanline stream, or why there is none.
pub open spec fn image_of_stream(
    h: Ihdr,
    palette: Option<PaletteColors>,
    key: Option<TransparencyKey>,
    stream: Seq<u8>,
) -> Result<NativeModel, Error> {
    if stream.len() != stream_len(h) {
        Err(error_of(Cause::IdatTooShort))
    } else if !every_pass_restores(h, stream) {
        Err(error_of(Cause::UndefinedFilter))
    } else if palette is Some && !indices_in_range(canvas(h, stream), palette->0.rgb.len()) {
        Err(error_of(Cause::IndexOutOfRange))
    } else {
        Ok(NativeModel { header: h, samples: canvas(h, stream), palette, key })
    }
}

/// What the built-in inflater answers for the image data of parsed chunks.
pub open spec fn built_in_reply(h: Ihdr, s: ParseState) -> Result<Seq<u8>, Error> {
    match zlib_contents(s.idat, stream_len(h)) {
        None => Err(error_of(Cause::CorruptZlib)),
        Some(stream) => Ok(stream),
    }
}

/// The image of parsed chunks, given what an inflater answered for their image data, or why there is
/// none.
pub open spec fn native_with(
    l: Limits,
    h: Ihdr,
    s: ParseState,
    reply: Result<Seq<u8>, Error>,
) -> Result<NativeModel, Error> {
    match palette_and_key(h, s.plte, s.trns) {
        Err(cause) => Err(error_of(cause)),
        Ok((palette, key)) => match limit_fault(l, h) {
            Some(cause) => Err(error_of(cause)),
            None => match reply {
                Err(e) => Err(e),
                Ok(stream) => image_of_stream(h, palette, key, stream),
            },
        },
    }
}

/// The image of parsed chunks, or why there is none.
pub open spec fn native_of(l: Limits, h: Ihdr, s: ParseState) -> Result<NativeModel, Error> {
    native_with(l, h, s, built_in_reply(h, s))
}

/// The samples of packed rows fit the bit depth.
proof fn row_samples_fit(rows: Seq<u8>, width: int, height: int, channels: int, depth: u8, i: int)
    requires
        depth == 1 || depth == 2 || depth == 4 || depth == 8 || depth == 16,
        0 <= i < row_samples(rows, width, height, channels, depth).len(),
    ensures
        row_samples(rows, width, height, channels, depth)[i] <= depth_max(depth),
{
    if depth != 8 && depth != 16 {
        let x = i % width;
        let byte = rows[i / width * crate::pack::packed_row_len(width, depth) + x
            / crate::pack::per_byte(depth)];
        let digit = crate::pack::field(byte, depth, x % crate::pack::per_byte(depth));
        assert(0 <= digit < crate::pack::radix(depth));
        assert(crate::pack::unpacked(rows, width, height, depth)[i] == digit as u8);
    }
}

/// The samples of an image fit the bit depth.
proof fn canvas_fits(h: Ihdr, stream: Seq<u8>)
    requires
        h.wf(),
        every_pass_restores(h, stream),
    ensures
        canvas(h, stream).len() == h.width * h.height * h.color.spec_channels(),
        forall|i: int|
            0 <= i < canvas(h, stream).len() ==> (#[trigger] canvas(h, stream)[i]) <= depth_max(
                h.bit_depth,
            ),
{
    let ch = h.color.spec_channels();
    let w = h.width as int;
    assert(w * h.height * ch >= 0) by (nonlinear_arith)
        requires
            w >= 0,
            h.height >= 0,
            ch >= 0,
    ;
    assert forall|i: int| 0 <= i < canvas(h, stream).len() implies (#[trigger] canvas(h, stream)[i])
        <= depth_max(h.bit_depth) by {
        let px = i / ch;
        let c = i % ch;
        vstd::arithmetic::div_mod::lemma_fundamental_div_mod(i, ch);
        assert(0 <= px < w * h.height) by (nonlinear_arith)
            requires
                i == ch * px + c,
                0 <= c < ch,
                0 <= i < w * h.height * ch,
                ch >= 1,
        ;
        crate::canvas::pixel_of_index(px, w, h.height as int);
        let (x, y) = (px % w, px / w);
        crate::adam7::place_is_inside(h, x, y);
        let k = crate::adam7::pass_of(h.interlaced, x, y);
        let (pw, ph) = (crate::adam7::pass_width(h, k), crate::adam7::pass_height(h, k));
        let place = crate::adam7::place_in_pass(h, x, y);
        assert(0 <= place * ch + c < pw * ph * ch) by (nonlinear_arith)
            requires
                0 <= place < pw * ph,
                0 <= c < ch,
        ;
        if h.bit_depth < 8 {
            assert(ch == 1);
            assert(pw * ph * 1 == pw * ph);
        }
        row_samples_fit(pass_rows(h, stream, k)->0, pw, ph, ch, h.bit_depth, place * ch + c);
    }
}

fn all_below(samples: &Vec<u16>, entries: usize) -> (all: bool)
    ensures
        all == indices_in_range(samples@, entries as nat),
{
    let mut i: usize = 0;
    while i < samples.len()
        invariant
            i <= samples@.len(),
            forall|j: int| 0 <= j < i ==> (#[trigger] samples@[j]) < entries,
        decreases samples@.len() - i,
    {
        if samples[i] as usize >= entries {
            assert(samples@[i as int] >= entries);
            return false;
        }
        i += 1;
    }
    true
}

/// The native layout of a colour type at a bit depth.
pub open spec fn native_format(color: ColorType, bit_depth: u8) -> PixelFormat {
    match color {
        ColorType::Grayscale => if bit_depth == 16 {
            PixelFormat::Gray16
        } else {
            PixelFormat::Gray8
        },
        ColorType::GrayscaleAlpha => if bit_depth == 16 {
            PixelFormat::GrayAlpha16
        } else {
            PixelFormat::GrayAlpha8
        },
        ColorType::Truecolor => if bit_depth == 16 {
            PixelFormat::Rgb16
        } else {
            PixelFormat::Rgb8
        },
        ColorType::TruecolorAlpha => if bit_depth == 16 {
            PixelFormat::Rgba16
        } else {
            PixelFormat::Rgba8
        },
        ColorType::Indexed => PixelFormat::Indexed8,
    }
}

/// Grey samples scaled to 8 bits (§13.12); 8- and 16-bit samples are left alone.
pub open spec fn scaled_gray(samples: Seq<u16>, bit_depth: u8) -> Seq<u16> {
    samples.map_values(|v: u16| (v * gray_scale(bit_depth)) as u16)
}

/// The samples of an image in its native layout.
pub open spec fn native_samples(n: NativeModel) -> Seq<u16> {
    if n.header.color is Grayscale {
        scaled_gray(n.samples, n.header.bit_depth)
    } else {
        n.samples
    }
}

fn scale_gray(samples: &Vec<u16>, bit_depth: u8) -> (out: Vec<u16>)
    requires
        bit_depth == 1 || bit_depth == 2 || bit_depth == 4 || bit_depth == 8 || bit_depth == 16,
        forall|i: int| 0 <= i < samples@.len() ==> (#[trigger] samples@[i]) <= depth_max(bit_depth),
    ensures
        out@ == scaled_gray(samples@, bit_depth),
        bit_depth != 16 ==> forall|i: int| 0 <= i < out@.len() ==> (#[trigger] out@[i]) <= 0xFF,
{
    let scale: u16 = gray8_scale(bit_depth) as u16;
    let ghost want = scaled_gray(samples@, bit_depth);
    let mut out: Vec<u16> = Vec::new();
    let mut i: usize = 0;
    while i < samples.len()
        invariant
            bit_depth == 1 || bit_depth == 2 || bit_depth == 4 || bit_depth == 8 || bit_depth == 16,
            i <= samples@.len(),
            scale == gray_scale(bit_depth),
            want == scaled_gray(samples@, bit_depth),
            want.len() == samples@.len(),
            forall|j: int|
                0 <= j < samples@.len() ==> (#[trigger] samples@[j]) <= depth_max(bit_depth),
            out@ == want.subrange(0, i as int),
            bit_depth != 16 ==> forall|j: int| 0 <= j < i ==> (#[trigger] out@[j]) <= 0xFF,
        decreases samples@.len() - i,
    {
        let v: u16 = samples[i];
        assert(v * scale <= 0xFFFF && (bit_depth != 16 ==> v * scale <= 0xFF)) by {
            assert(v <= depth_max(bit_depth));
            if bit_depth == 1 {
                assert(v * 255 <= 0xFF);
            } else if bit_depth == 2 {
                assert(v * 85 <= 0xFF);
            } else if bit_depth == 4 {
                assert(v * 17 <= 0xFF);
            } else {
                assert(v * 1 == v);
            }
        }
        out.push(v * scale);
        i += 1;
        assert(out@ =~= want.subrange(0, i as int));
    }
    assert(out@ =~= want);
    out
}

/// Wraps decoded native samples as the matching [`PngImage`] variant: sub-byte greyscale is scaled
/// to 8 bits (§13.12), sub-byte indices are widened unscaled, 16-bit is native `u16`.
pub fn native_image(native: NativeImage) -> (image: PngImage)
    requires
        native.wf(),
    ensures
        image.format() == native_format(native.header.color, native.header.bit_depth),
        image.samples() == native_samples(native@),
{
    let wide: bool = native.header.bit_depth == 16;
    match native.header.color {
        ColorType::Grayscale => {
            let gray: Vec<u16> = scale_gray(&native.samples, native.header.bit_depth);
            if wide {
                PngImage::Gray16(gray)
            } else {
                PngImage::Gray8(narrow(&gray))
            }
        },
        ColorType::GrayscaleAlpha => if wide {
            PngImage::GrayAlpha16(native.samples)
        } else {
            PngImage::GrayAlpha8(narrow(&native.samples))
        },
        ColorType::Truecolor => if wide {
            PngImage::Rgb16(native.samples)
        } else {
            PngImage::Rgb8(narrow(&native.samples))
        },
        ColorType::TruecolorAlpha => if wide {
            PngImage::Rgba16(native.samples)
        } else {
            PngImage::Rgba8(narrow(&native.samples))
        },
        ColorType::Indexed => PngImage::Indexed8(narrow(&native.samples)),
    }
}

/// An image with the metadata read beside it.
pub open spec fn assembled(n: NativeModel, metadata: MetadataModel) -> DecodedModel {
    let h = n.header;
    DecodedModel {
        header: PngHeader {
            width: h.width,
            height: h.height,
            bit_depth: h.bit_depth,
            color_type: h.color,
            interlaced: h.interlaced,
        },
        format: native_format(h.color, h.bit_depth),
        samples: native_samples(n),
        palette: n.palette,
        transparency: n.key,
        metadata,
    }
}

/// What decoding a file gives.
pub open spec fn decoded_file(l: Limits, png: Seq<u8>) -> Result<DecodedModel, Error> {
    match parsed_stream(png, true) {
        Err(e) => Err(e),
        Ok((h, s)) => match native_of(l, h, s) {
            Err(e) => Err(e),
            Ok(n) => Ok(
                assembled(
                    n,
                    metadata_with_late(s.ancillary, s.late_stores, l.max_metadata_bytes),
                ),
            ),
        },
    }
}

/// Puts an image and the metadata read beside it together.
pub(crate) fn assemble(native: NativeImage, meta: PngMetadata, late_stores: usize) -> (decoded:
    DecodedPng)
    requires
        native.wf(),
        meta.c2pa_ignored + late_stores <= usize::MAX,
    ensures
        decoded@ == assembled(
            native@,
            MetadataModel { c2pa_ignored: meta@.c2pa_ignored + late_stores, ..meta@ },
        ),
{
    let header: PngHeader = PngHeader {
        width: native.header.width,
        height: native.header.height,
        bit_depth: native.header.bit_depth,
        color_type: native.header.color,
        interlaced: native.header.interlaced,
    };
    let transparency: Option<TransparencyKey> = native.trns_key;
    let palette: Option<PngPalette> = match &native.palette {
        Some(p) => Some(p.clone()),
        None => None,
    };
    let image: PngImage = native_image(native);
    DecodedPng {
        header,
        image,
        palette,
        transparency,
        exif: meta.exif,
        icc_profile: meta.icc_profile,
        xmp: meta.xmp,
        xmp_framing: meta.xmp_framing,
        c2pa: meta.c2pa,
        c2pa_ignored: meta.c2pa_ignored + late_stores,
        texts: meta.texts,
        gamma: meta.gamma,
        chromaticities: meta.chromaticities,
        srgb: meta.srgb,
        cicp: meta.cicp,
    }
}

/// What reading a file's metadata gives.
pub open spec fn metadata_of_file(png: Seq<u8>, budget: int) -> Result<MetadataModel, Error> {
    match walked_stream(png) {
        Err(e) => Err(e),
        Ok(s) => Ok(metadata_with_late(s.chunks, s.late_stores, budget)),
    }
}

fn read_metadata(data: &[u8], budget: usize) -> (meta: Result<PngMetadata, Error>)
    ensures
        match metadata_of_file(data@, budget as int) {
            Err(e) => meta matches Err(f) && f == e,
            Ok(m) => meta matches Ok(p) && p@ == m,
        },
{
    let (chunks, late): (Vec<([u8; 4], &[u8])>, usize) = match walk_metadata_chunks(data) {
        Ok(walked) => walked,
        Err(e) => {
            return Err(e);
        },
    };
    let mut meta: PngMetadata = collect(chunks.as_slice(), budget);
    meta.c2pa_ignored = meta.c2pa_ignored + late;
    Ok(meta)
}

/// Reads a PNG's ancillary metadata without decoding any pixels.
///
/// IDAT is skipped by length, so no pixel data is read, copied or inflated; compressed payloads are
/// inflated under one cumulative 16 MiB budget. A stream without IDAT is read successfully, and a
/// malformed metadata payload is never an error: its chunk is skipped.
pub fn metadata(data: &[u8]) -> (meta: Result<PngMetadata, Error>)
    ensures
        match metadata_of_file(data@, DEFAULT_MAX_METADATA_BYTES as int) {
            Err(e) => meta matches Err(f) && f == e,
            Ok(m) => meta matches Ok(p) && p@ == m,
        },
{
    read_metadata(data, DEFAULT_MAX_METADATA_BYTES)
}

/// Defilters and unpacks an inflated scanline stream, and checks palette indices. `expected` is the
/// length that the header gives the stream.
pub fn decode_scanlines(
    header: Ihdr,
    palette: Option<PngPalette>,
    trns_key: Option<TransparencyKey>,
    stream: &[u8],
    expected: usize,
) -> (native: Result<NativeImage, Error>)
    requires
        header.wf(),
        expected == stream_len(header),
        decoded_bytes(
            header.width,
            header.height,
            header.color.spec_channels(),
            header.bit_depth,
        ) <= usize::MAX,
        stream_fits(header),
        palette is Some <==> header.color is Indexed,
        palette matches Some(p) ==> p.wf(),
    ensures
        match image_of_stream(header, opt_palette(palette), trns_key, stream@) {
            Err(e) => native matches Err(f) && f == e,
            Ok(n) => native matches Ok(m) && m.wf() && m@ == n,
        },
{
    if stream.len() != expected {
        return Err(Error::new(Cause::IdatTooShort));
    }
    let samples: Vec<u16> = match decode_canvas(stream, &header) {
        Ok(samples) => samples,
        Err(e) => {
            return Err(e);
        },
    };
    proof {
        canvas_fits(header, stream@);
    }
    match &palette {
        Some(p) => {
            if !all_below(&samples, p.len()) {
                return Err(Error::new(Cause::IndexOutOfRange));
            }
        },
        None => {},
    }
    Ok(NativeImage { header, samples, palette, trns_key })
}

impl PngDecoder {
    /// A decoder with the default limits: the format's largest dimensions, 64 MiB of decoded
    /// samples, 16 MiB of inflated metadata.
    pub fn new() -> (decoder: Self)
        ensures
            decoder@ == default_limits(),
    {
        PngDecoder {
            max_width: MAX_DIMENSION,
            max_height: MAX_DIMENSION,
            max_image_bytes: DEFAULT_MAX_IMAGE_BYTES,
            max_metadata_bytes: DEFAULT_MAX_METADATA_BYTES,
        }
    }

    /// Caps the accepted image dimensions.
    pub fn with_max_dimensions(self, width: u32, height: u32) -> (decoder: Self)
        ensures
            decoder@ == (Limits { max_width: width as int, max_height: height as int, ..self@ }),
    {
        PngDecoder { max_width: width, max_height: height, ..self }
    }

    /// Caps the decoded sample buffer in bytes.
    pub fn with_max_image_bytes(self, bytes: usize) -> (decoder: Self)
        ensures
            decoder@ == (Limits { max_image_bytes: bytes as int, ..self@ }),
    {
        PngDecoder { max_image_bytes: bytes, ..self }
    }

    /// Caps the cumulative inflated size of compressed metadata payloads. Payloads past the budget
    /// are skipped, not errors.
    pub fn with_max_metadata_bytes(self, bytes: usize) -> (decoder: Self)
        ensures
            decoder@ == (Limits { max_metadata_bytes: bytes as int, ..self@ }),
    {
        PngDecoder { max_metadata_bytes: bytes, ..self }
    }

    /// Enforces the dimension and byte limits and returns the exact length of the filtered scanline
    /// stream that the IDAT data must inflate to.
    pub fn check_limits(&self, header: &Ihdr) -> (len: Result<usize, Error>)
        requires
            header.wf(),
        ensures
            match limit_fault(self@, *header) {
                Some(cause) => failed(len, cause),
                None => len matches Ok(l) && l == stream_len(*header),
            },
    {
        if header.width > self.max_width || header.height > self.max_height {
            return Err(Error::new(Cause::DimensionLimit));
        }
        match native_bytes(
            header.width,
            header.height,
            header.color.channels(),
            header.bit_depth,
        ) {
            None => {
                return Err(Error::new(Cause::DimensionsOverflow));
            },
            Some(bytes) => {
                if bytes > self.max_image_bytes {
                    return Err(Error::new(Cause::SizeLimit));
                }
            },
        }
        match expected_stream_len(header) {
            Some(len) => Ok(len),
            None => Err(Error::new(Cause::DimensionsOverflow)),
        }
    }

    /// The cap on inflated metadata.
    pub(crate) fn metadata_budget(&self) -> (bytes: usize)
        ensures
            bytes == self@.max_metadata_bytes,
    {
        self.max_metadata_bytes
    }

    /// Validates PLTE and tRNS and enforces the limits: what has to hold before anything is inflated.
    /// Gives the palette, the colour key and the length the image data must inflate to.
    pub(crate) fn prepare(&self, parsed: &Parsed<'_>, state: Ghost<ParseState>) -> (ready: Result<
        (Option<PngPalette>, Option<TransparencyKey>, usize),
        Error,
    >)
        requires
            parsed.header.wf(),
            parsed.holds(state@),
        ensures
            ({
                let h = parsed.header;
                match palette_and_key(h, state@.plte, state@.trns) {
                    Err(cause) => failed(ready, cause),
                    Ok((palette, key)) => match limit_fault(self@, h) {
                        Some(cause) => failed(ready, cause),
                        None => ready matches Ok((p, k, expected)) && opt_palette(p) == palette && k
                            == key && expected == stream_len(h) && (p is Some <==> h.color is Indexed)
                            && (p matches Some(q) ==> q.wf()),
                    },
                }
            }),
    {
        let (palette, trns_key): (Option<PngPalette>, Option<TransparencyKey>) =
            match validate_plte_and_trns(&parsed.header, parsed.plte, parsed.trns) {
            Ok(valid) => valid,
            Err(e) => {
                return Err(e);
            },
        };
        match self.check_limits(&parsed.header) {
            Ok(expected) => Ok((palette, trns_key, expected)),
            Err(e) => Err(e),
        }
    }

    /// Validates PLTE and tRNS, inflates, defilters and unpacks, and checks palette indices.
    fn decode_parsed(&self, parsed: &Parsed<'_>, state: Ghost<ParseState>) -> (native: Result<
        NativeImage,
        Error,
    >)
        requires
            parsed.header.wf(),
            parsed.holds(state@),
        ensures
            match native_of(self@, parsed.header, state@) {
                Err(e) => native matches Err(f) && f == e,
                Ok(n) => native matches Ok(m) && m.wf() && m@ == n,
            },
    {
        let (palette, trns_key, expected): (
            Option<PngPalette>,
            Option<TransparencyKey>,
            usize,
        ) = match self.prepare(parsed, state) {
            Ok(ready) => ready,
            Err(e) => {
                return Err(e);
            },
        };
        let stream: Vec<u8> = match inflate_zlib(parsed.idat.as_slice(), expected) {
            Ok(stream) => stream,
            Err(e) => {
                return Err(e);
            },
        };
        decode_scanlines(parsed.header, palette, trns_key, stream.as_slice(), expected)
    }

    /// Decodes a PNG into its native layout together with the ancillary metadata.
    ///
    /// A malformed file is [`crate::error::ErrorKind::InvalidInput`]; one past the limits or with an
    /// unknown critical chunk is [`crate::error::ErrorKind::Unsupported`]. Malformed metadata
    /// payloads are not errors: the chunk is skipped.
    pub fn decode(&self, data: &[u8]) -> (decoded: Result<DecodedPng, Error>)
        ensures
            match decoded_file(self@, data@) {
                Err(e) => decoded matches Err(f) && f == e,
                Ok(m) => decoded matches Ok(d) && d@ == m,
            },
    {
        let parsed: Parsed<'_> = match parse_stream(data, true) {
            Ok(parsed) => parsed,
            Err(e) => {
                return Err(e);
            },
        };
        let ghost state = parsed_stream(data@, true)->Ok_0.1;
        let meta: PngMetadata = collect(parsed.ancillary.as_slice(), self.max_metadata_bytes);
        let native: NativeImage = match self.decode_parsed(&parsed, Ghost(state)) {
            Ok(native) => native,
            Err(e) => {
                return Err(e);
            },
        };
        Ok(assemble(native, meta, parsed.late_stores))
    }

    /// Reads a PNG's ancillary metadata without decoding any pixels, under this decoder's metadata
    /// budget.
    pub fn metadata(&self, data: &[u8]) -> (meta: Result<PngMetadata, Error>)
        ensures
            match metadata_of_file(data@, self@.max_metadata_bytes) {
                Err(e) => meta matches Err(f) && f == e,
                Ok(m) => meta matches Ok(p) && p@ == m,
            },
    {
        read_metadata(data, self.max_metadata_bytes)
    }
}

/// Grey samples with the alpha that a colour key gives them.
pub open spec fn keyed_gray(samples: Seq<u16>, bit_depth: u8, key: u16, opaque: u16) -> Seq<u16> {
    Seq::new(
        samples.len() * 2,
        |j: int|
            if j % 2 == 0 {
                (samples[j / 2] * gray_scale(bit_depth)) as u16
            } else if samples[j / 2] != key {
                opaque
            } else {
                0u16
            },
    )
}

/// Colour samples with the alpha that a colour key gives them.
pub open spec fn keyed_rgb(samples: Seq<u16>, key: (u16, u16, u16), opaque: u16) -> Seq<u16> {
    Seq::new(
        samples.len() / 3 * 4,
        |j: int|
            {
                let from = j / 4 * 3;
                if j % 4 < 3 {
                    samples[from + j % 4]
                } else if (samples[from], samples[from + 1], samples[from + 2]) != key {
                    opaque
                } else {
                    0u16
                }
            },
    )
}

/// Whether every entry of a palette is grey.
pub open spec fn all_gray(rgb: Seq<[u8; 3]>) -> bool {
    forall|i: int| 0 <= i < rgb.len() ==> (#[trigger] rgb[i])@[0] == rgb[i]@[1] && rgb[i]@[1] == rgb[i]@[2]
}

/// Whether some entry of a palette is not opaque.
pub open spec fn any_transparent(alphas: Seq<u8>) -> bool {
    exists|i: int| 0 <= i < alphas.len() && alphas[i] != OPAQUE
}

/// The layout that holds the colours of a palette.
pub open spec fn palette_format(p: PaletteColors) -> PixelFormat {
    if all_gray(p.rgb) {
        if any_transparent(p.alphas) {
            PixelFormat::GrayAlpha8
        } else {
            PixelFormat::Gray8
        }
    } else if any_transparent(p.alphas) {
        PixelFormat::Rgba8
    } else {
        PixelFormat::Rgb8
    }
}

/// Channel `c` of a palette entry in a layout.
pub open spec fn entry_sample(p: PaletteColors, index: int, format: PixelFormat, c: int) -> u16 {
    if format.spec_has_alpha() && c == format.spec_channels() - 1 {
        alpha_at(p.alphas, index) as u16
    } else if format.spec_is_color() {
        p.rgb[index]@[c] as u16
    } else {
        p.rgb[index]@[0] as u16
    }
}

/// The colours that indices stand for.
pub open spec fn looked_up(indices: Seq<u16>, p: PaletteColors, format: PixelFormat) -> Seq<u16> {
    let n = format.spec_channels();
    Seq::new(
        (indices.len() * n) as nat,
        |j: int| entry_sample(p, indices[j / n] as int, format, j % n),
    )
}

/// An image as plain samples of a layout: palette entries looked up, a colour key folded into an
/// alpha channel, sub-byte grey scaled to 8 bits. Bilevel images stay as they are.
pub open spec fn presented(n: NativeModel) -> (PixelFormat, Seq<u16>) {
    let depth = n.header.bit_depth;
    let plain = native_format(n.header.color, depth);
    match n.header.color {
        ColorType::Grayscale => match n.key {
            Some(TransparencyKey::Gray(key)) => if depth == 16 {
                (PixelFormat::GrayAlpha16, keyed_gray(n.samples, depth, key, 0xFFFF))
            } else {
                (PixelFormat::GrayAlpha8, keyed_gray(n.samples, depth, key, 0xFF))
            },
            _ => if depth == 1 {
                (PixelFormat::Bilevel, n.samples)
            } else {
                (plain, scaled_gray(n.samples, depth))
            },
        },
        ColorType::Truecolor => match n.key {
            Some(TransparencyKey::Rgb(r, g, b)) => if depth == 16 {
                (PixelFormat::Rgba16, keyed_rgb(n.samples, (r, g, b), 0xFFFF))
            } else {
                (PixelFormat::Rgba8, keyed_rgb(n.samples, (r, g, b), 0xFF))
            },
            _ => (plain, n.samples),
        },
        ColorType::Indexed => {
            let format = palette_format(n.palette->0);
            (format, looked_up(n.samples, n.palette->0, format))
        },
        _ => (plain, n.samples),
    }
}

fn key_gray(samples: &Vec<u16>, bit_depth: u8, key: u16) -> (out: Vec<u16>)
    requires
        bit_depth == 1 || bit_depth == 2 || bit_depth == 4 || bit_depth == 8 || bit_depth == 16,
        forall|i: int| 0 <= i < samples@.len() ==> (#[trigger] samples@[i]) <= depth_max(bit_depth),
    ensures
        out@ == keyed_gray(
            samples@,
            bit_depth,
            key,
            if bit_depth == 16 {
                0xFFFF
            } else {
                0xFF
            },
        ),
        in_range(
            if bit_depth == 16 {
                PixelFormat::GrayAlpha16
            } else {
                PixelFormat::GrayAlpha8
            },
            out@,
        ),
{
    let opaque: u16 = if bit_depth == 16 {
        0xFFFF
    } else {
        0xFF
    };
    let ghost want = keyed_gray(samples@, bit_depth, key, opaque);
    let ghost format = if bit_depth == 16 {
        PixelFormat::GrayAlpha16
    } else {
        PixelFormat::GrayAlpha8
    };
    let grays: Vec<u16> = scale_gray(samples, bit_depth);
    let mut out: Vec<u16> = Vec::new();
    let mut i: usize = 0;
    while i < samples.len()
        invariant
            i <= samples@.len(),
            grays@ == scaled_gray(samples@, bit_depth),
            bit_depth != 16 ==> forall|j: int| 0 <= j < grays@.len() ==> (#[trigger] grays@[j]) <= 0xFF,
            opaque == format.spec_max(),
            format == (if bit_depth == 16 {
                PixelFormat::GrayAlpha16
            } else {
                PixelFormat::GrayAlpha8
            }),
            want == keyed_gray(samples@, bit_depth, key, opaque),
            out@ == want.subrange(0, 2 * i),
            in_range(format, out@),
        decreases samples@.len() - i,
    {
        let ghost before = out@;
        assert(grays@.len() == samples@.len());
        let gray: u16 = grays[i];
        out.push(gray);
        let alpha: u16 = if samples[i] != key {
            opaque
        } else {
            0
        };
        out.push(alpha);
        assert(want[2 * i] == gray);
        assert(want[2 * i + 1] == alpha);
        i += 1;
        assert(out@ =~= want.subrange(0, 2 * i));
        assert(in_range(format, before.push(gray).push(alpha)));
    }
    assert(out@ =~= want);
    out
}

fn key_rgb(samples: &Vec<u16>, key: (u16, u16, u16), format: PixelFormat) -> (out: Vec<u16>)
    requires
        format is Rgba8 || format is Rgba16,
        in_range(format, samples@),
    ensures
        out@ == keyed_rgb(samples@, key, format.spec_max()),
        in_range(format, out@),
{
    let opaque: u16 = if format.is_wide() {
        0xFFFF
    } else {
        0xFF
    };
    let ghost want = keyed_rgb(samples@, key, opaque);
    let count: usize = samples.len() / 3;
    let mut out: Vec<u16> = Vec::new();
    let mut i: usize = 0;
    while i < count
        invariant
            i <= count,
            count == samples@.len() / 3,
            3 * count <= samples.len(),
            opaque == format.spec_max(),
            in_range(format, samples@),
            want == keyed_rgb(samples@, key, opaque),
            want.len() == 4 * count,
            out@ == want.subrange(0, 4 * i),
            in_range(format, out@),
        decreases count - i,
    {
        let ghost before = out@;
        let r: u16 = samples[i * 3];
        let g: u16 = samples[i * 3 + 1];
        let b: u16 = samples[i * 3 + 2];
        let alpha: u16 = if r != key.0 || g != key.1 || b != key.2 {
            opaque
        } else {
            0
        };
        out.push(r);
        out.push(g);
        out.push(b);
        out.push(alpha);
        assert(want[4 * i] == r);
        assert(want[4 * i + 1] == g);
        assert(want[4 * i + 2] == b);
        assert(want[4 * i + 3] == alpha);
        i += 1;
        assert(out@ =~= want.subrange(0, 4 * i));
        assert(in_range(format, before.push(r).push(g).push(b).push(alpha)));
    }
    assert(out@ =~= want);
    out
}

/// Whether every entry of a palette is grey, which lets one present an indexed file as a greyscale
/// layout without loss.
pub fn gray_palette(palette: &PngPalette) -> (gray: bool)
    requires
        palette.wf(),
    ensures
        gray == all_gray(palette.colors()),
{
    let n: usize = palette.len();
    let mut i: usize = 0;
    while i < n
        invariant
            n == palette.colors().len(),
            n <= 256,
            i <= n,
            forall|j: int|
                0 <= j < i ==> (#[trigger] palette.colors()[j])@[0] == palette.colors()[j]@[1]
                    && palette.colors()[j]@[1] == palette.colors()[j]@[2],
        decreases n - i,
    {
        match palette.rgb(i as u8) {
            Some(rgb) => {
                assert(rgb == palette.colors()[i as int]);
                if rgb[0] != rgb[1] || rgb[1] != rgb[2] {
                    return false;
                }
            },
            None => {},
        }
        i += 1;
    }
    true
}

/// Expands palette indices to the colours, and the alphas where the layout has them.
fn expand_palette(indices: &Vec<u16>, palette: &PngPalette, format: PixelFormat) -> (out: Vec<u16>)
    requires
        palette.wf(),
        indices_in_range(indices@, palette.colors().len()),
        format is Gray8 || format is GrayAlpha8 || format is Rgb8 || format is Rgba8,
    ensures
        out@ == looked_up(
            indices@,
            PaletteColors { rgb: palette.colors(), alphas: palette.alphas() },
            format,
        ),
        in_range(format, out@),
{
    let ghost p = PaletteColors { rgb: palette.colors(), alphas: palette.alphas() };
    let ghost want = looked_up(indices@, p, format);
    let channels: usize = format.channels();
    let color: bool = format.is_color();
    let alpha: bool = format.has_alpha();
    let mut out: Vec<u16> = Vec::new();
    let mut i: usize = 0;
    assert(0 * channels == 0);
    assert(out@ =~= want.subrange(0, 0));
    while i < indices.len()
        invariant
            i <= indices@.len(),
            palette.wf(),
            p == (PaletteColors { rgb: palette.colors(), alphas: palette.alphas() }),
            indices_in_range(indices@, palette.colors().len()),
            format is Gray8 || format is GrayAlpha8 || format is Rgb8 || format is Rgba8,
            channels == format.spec_channels(),
            color == format.spec_is_color(),
            alpha == format.spec_has_alpha(),
            want == looked_up(indices@, p, format),
            want.len() == indices@.len() * channels,
            out@ == want.subrange(0, i * channels),
            in_range(format, out@),
        decreases indices@.len() - i,
    {
        let ghost before = out@;
        let ghost at = i * channels;
        proof {
            assert((i + 1) * channels == i * channels + channels && i * channels >= 0)
                by (nonlinear_arith)
                requires
                    i >= 0,
                    channels >= 0,
            ;
            assert((i + 1) * channels <= indices@.len() * channels) by (nonlinear_arith)
                requires
                    i + 1 <= indices@.len(),
                    channels >= 1,
            ;
            assert(forall|c: int| 0 <= c < channels ==> #[trigger] want[at + c] == entry_sample(p, indices@[i as int] as int, format, c)) by {
                assert forall|c: int| 0 <= c < channels implies #[trigger] want[at + c] == entry_sample(p, indices@[i as int] as int, format, c) by {
                    pixel_position(i as int, channels as int, c);
                }
            }
        }
        assert(indices@[i as int] < palette.colors().len());
        let index: u8 = indices[i] as u8;
        let rgb: [u8; 3] = match palette.rgb(index) {
            Some(rgb) => rgb,
            None => [0, 0, 0],
        };
        assert(rgb == p.rgb[index as int]);
        let r: u16 = rgb[0] as u16;
        out.push(r);
        assert(want[at + 0] == r);
        if color {
            let g: u16 = rgb[1] as u16;
            let b: u16 = rgb[2] as u16;
            out.push(g);
            out.push(b);
            assert(want[at + 1] == g);
            assert(want[at + 2] == b);
        }
        if alpha {
            let a: u16 = match palette.alpha(index) {
                Some(a) => a as u16,
                None => 255,
            };
            out.push(a);
            assert(want[at + (channels - 1)] == a);
        }
        i += 1;
        assert(out@ =~= want.subrange(0, i * channels));
        assert(in_range(format, out@));
    }
    assert(out@ =~= want);
    out
}

/// Reduces a natively decoded image to plain samples of a layout.
pub fn presentable(native: NativeImage) -> (raster: Raster)
    requires
        native.wf(),
    ensures
        (raster.format, raster.samples@) == presented(native@),
        in_range(raster.format, raster.samples@),
{
    let depth: u8 = native.header.bit_depth;
    let wide: bool = depth == 16;
    match native.header.color {
        ColorType::Grayscale => match native.trns_key {
            Some(TransparencyKey::Gray(key)) => Raster {
                format: if wide {
                    PixelFormat::GrayAlpha16
                } else {
                    PixelFormat::GrayAlpha8
                },
                samples: key_gray(&native.samples, depth, key),
            },
            _ => if depth == 1 {
                Raster { format: PixelFormat::Bilevel, samples: native.samples }
            } else {
                Raster {
                    format: if wide {
                        PixelFormat::Gray16
                    } else {
                        PixelFormat::Gray8
                    },
                    samples: scale_gray(&native.samples, depth),
                }
            },
        },
        ColorType::GrayscaleAlpha => Raster {
            format: if wide {
                PixelFormat::GrayAlpha16
            } else {
                PixelFormat::GrayAlpha8
            },
            samples: native.samples,
        },
        ColorType::Truecolor => match native.trns_key {
            Some(TransparencyKey::Rgb(r, g, b)) => {
                let format: PixelFormat = if wide {
                    PixelFormat::Rgba16
                } else {
                    PixelFormat::Rgba8
                };
                Raster { format, samples: key_rgb(&native.samples, (r, g, b), format) }
            },
            _ => Raster {
                format: if wide {
                    PixelFormat::Rgb16
                } else {
                    PixelFormat::Rgb8
                },
                samples: native.samples,
            },
        },
        ColorType::TruecolorAlpha => Raster {
            format: if wide {
                PixelFormat::Rgba16
            } else {
                PixelFormat::Rgba8
            },
            samples: native.samples,
        },
        ColorType::Indexed => match &native.palette {
            Some(palette) => {
                let alpha: bool = palette.has_transparency();
                let format: PixelFormat = if gray_palette(palette) {
                    if alpha {
                        PixelFormat::GrayAlpha8
                    } else {
                        PixelFormat::Gray8
                    }
                } else if alpha {
                    PixelFormat::Rgba8
                } else {
                    PixelFormat::Rgb8
                };
                Raster { format, samples: expand_palette(&native.samples, palette, format) }
            },
            None => Raster { format: PixelFormat::Indexed8, samples: native.samples },
        },
    }
}

/// What presenting a decoded image in a layout gives: its samples, or why there are none.
pub open spec fn shown_in(n: NativeModel, target: PixelFormat) -> Result<Seq<u16>, Error> {
    if target is Indexed8 {
        if n.header.color is Indexed {
            Ok(n.samples)
        } else {
            Err(error_of(Cause::LossyLayout))
        }
    } else {
        let (format, samples) = presented(n);
        if holds_losslessly(format, target) {
            Ok(converted(format, target, samples))
        } else {
            Err(error_of(Cause::LossyLayout))
        }
    }
}

/// Presents a decoded image in a layout that holds it without loss. [`PixelFormat::Indexed8`] gives the
/// bare palette indices of an indexed image, unscaled.
pub fn show_in(native: NativeImage, target: PixelFormat) -> (pixels: Result<Pixels, Error>)
    requires
        native.wf(),
    ensures
        match shown_in(native@, target) {
            Err(e) => pixels matches Err(f) && f == e,
            Ok(samples) => pixels matches Ok(p) && p.wf() && p.spec_format() == target
                && p.samples() == samples,
        },
{
    match target {
        PixelFormat::Indexed8 => {
            return match native.header.color {
                ColorType::Indexed => Ok(
                    Raster { format: PixelFormat::Indexed8, samples: native.samples }.into_pixels(),
                ),
                _ => Err(Error::new(Cause::LossyLayout)),
            };
        },
        _ => {},
    }
    match convert(presentable(native), target) {
        Ok(raster) => Ok(raster.into_pixels()),
        Err(e) => Err(e),
    }
}

/// What presenting a file in a layout gives: its samples, or why there are none.
pub open spec fn presented_file(l: Limits, png: Seq<u8>, target: PixelFormat) -> Result<
    Seq<u16>,
    Error,
> {
    match parsed_stream(png, false) {
        Err(e) => Err(e),
        Ok((h, s)) => match native_of(l, h, s) {
            Err(e) => Err(e),
            Ok(n) => shown_in(n, target),
        },
    }
}

impl PngDecoder {
    /// Decodes a PNG and presents it in a pixel layout that holds it without loss; a layout that
    /// does not is refused as [`crate::error::ErrorKind::Unsupported`].
    ///
    /// [`PixelFormat::Indexed8`] gives the bare palette indices of an indexed image, unscaled. This
    /// path never inflates metadata.
    pub fn present(&self, data: &[u8], target: PixelFormat) -> (pixels: Result<Pixels, Error>)
        ensures
            match presented_file(self@, data@, target) {
                Err(e) => pixels matches Err(f) && f == e,
                Ok(samples) => pixels matches Ok(p) && p.wf() && p.spec_format() == target
                    && p.samples() == samples,
            },
    {
        let parsed: Parsed<'_> = match parse_stream(data, false) {
            Ok(parsed) => parsed,
            Err(e) => {
                return Err(e);
            },
        };
        let ghost state = parsed_stream(data@, false)->Ok_0.1;
        let native: NativeImage = match self.decode_parsed(&parsed, Ghost(state)) {
            Ok(native) => native,
            Err(e) => {
                return Err(e);
            },
        };
        show_in(native, target)
    }
}

/// Reading the metadata alone gives what decoding gives, on every file that decodes.
pub proof fn metadata_is_what_decode_gives(l: Limits, png: Seq<u8>)
    requires
        decoded_file(l, png) is Ok,
    ensures
        metadata_of_file(png, l.max_metadata_bytes) == Ok::<MetadataModel, Error>(
            decoded_file(l, png)->Ok_0.metadata,
        ),
{
    metadata_agrees_with_decode(png, l.max_metadata_bytes);
}

/// Bilevel samples widen to the bytes that 1-bit grey scales to.
proof fn bilevel_widens_like_gray(samples: Seq<u16>)
    requires
        forall|i: int| 0 <= i < samples.len() ==> (#[trigger] samples[i]) <= 1,
    ensures
        converted(PixelFormat::Bilevel, PixelFormat::Gray8, samples) == scaled_gray(samples, 1),
{
    let shown = converted(PixelFormat::Bilevel, PixelFormat::Gray8, samples);
    let scaled = scaled_gray(samples, 1);
    assert(PixelFormat::Bilevel.spec_channels() == 1 && PixelFormat::Gray8.spec_channels() == 1);
    assert(samples.len() as int / 1 * 1 == samples.len());
    assert(shown.len() == samples.len());
    assert forall|j: int| 0 <= j < samples.len() implies #[trigger] shown[j] == scaled[j] by {
        assert(j / 1 == j && j % 1 == 0);
        assert(samples[j] <= 1);
    }
    assert(shown =~= scaled);
}

/// Presenting a file in its native layout gives the samples that decoding gives, unless a colour key
/// adds an alpha channel.
pub proof fn native_presentation_is_what_decode_gives(l: Limits, png: Seq<u8>)
    requires
        decoded_file(l, png) is Ok,
        decoded_file(l, png)->Ok_0.transparency is None,
    ensures
        ({
            let m = decoded_file(l, png)->Ok_0;
            presented_file(l, png, m.format) == Ok::<Seq<u16>, Error>(m.samples)
        }),
{
    let m = decoded_file(l, png)->Ok_0;
    metadata_does_not_affect_the_image(png);
    let (h, s) = parsed_stream(png, true)->Ok_0;
    let (g, t) = parsed_stream(png, false)->Ok_0;
    let n = native_of(l, h, s)->Ok_0;
    assert(native_of(l, g, t) == native_of(l, h, s));
    if h.color is Grayscale && h.bit_depth == 1 {
        let stream = zlib_contents(s.idat, stream_len(h))->0;
        opened_header_is_valid(png);
        canvas_fits(h, stream);
        assert(n.samples == canvas(h, stream));
        assert(m.samples == native_samples(n));
        bilevel_widens_like_gray(n.samples);
    }
}

/// A header that was read is valid.
pub proof fn opened_header_is_valid(png: Seq<u8>)
    requires
        opening(png) is Ok,
    ensures
        opening(png)->Ok_0.0.wf(),
{
    let data = chunk_at(png, 8).data;
    assert(be32(data, 0) as u32 == be32(data, 0));
    assert(be32(data, 4) as u32 == be32(data, 4));
}

} // verus!
