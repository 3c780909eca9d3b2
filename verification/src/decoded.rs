//! The ancillary payloads of a PNG file and how they are read.
use crate::ancillary::{intent_of, SrgbIntent, XMP_KEYWORD};
use crate::bytes::{be32, read_be32};
use crate::chunk::{same_type, CABX, CHRM, CICP, EXIF, GAMA, ICCP, ITXT, SRGB, TEXT, ZTXT};
use crate::color::ColorType;
use crate::decoder::TransparencyKey;
use crate::palette::PngPalette;
use crate::pixels::{widened, PixelFormat};
use crate::text::{latin1, latin1_chars, utf8_of, utf8_text};
use crate::zlib::{inflate_zlib, zlib_contents};
use vstd::prelude::*;

verus! {

/// The parsed image header (IHDR, §11.2.1), reported as stored in the file.
#[derive(Debug, Clone, Copy, PartialEq, Eq, Structural)]
pub struct PngHeader {
    /// Image width in pixels.
    pub width: u32,
    /// Image height in pixels.
    pub height: u32,
    /// The file's native bit depth (1, 2, 4, 8, or 16).
    pub bit_depth: u8,
    /// The file's colour type.
    pub color_type: ColorType,
    /// Whether the file was Adam7-interlaced.
    pub interlaced: bool,
}

/// Decoded pixels in the file's native layout: sub-byte greyscale is scaled exactly to 8 bits
/// (§13.12), sub-byte palette indices are widened unscaled, and 16-bit samples are `u16`.
#[derive(Debug)]
pub enum PngImage {
    /// Greyscale, stored at 1 to 8 bits (sub-byte samples scaled to 8 bits).
    Gray8(Vec<u8>),
    /// 16-bit greyscale.
    Gray16(Vec<u16>),
    /// 8-bit greyscale with alpha.
    GrayAlpha8(Vec<u8>),
    /// 16-bit greyscale with alpha.
    GrayAlpha16(Vec<u16>),
    /// 8-bit RGB.
    Rgb8(Vec<u8>),
    /// 16-bit RGB.
    Rgb16(Vec<u16>),
    /// 8-bit RGBA.
    Rgba8(Vec<u8>),
    /// 16-bit RGBA.
    Rgba16(Vec<u16>),
    /// Palette indices, unscaled.
    Indexed8(Vec<u8>),
}

/// An embedded ICC profile (iCCP, §11.3.2.3), already inflated.
#[derive(Debug, Clone, PartialEq, Eq)]
pub struct IccProfile {
    /// The profile name (Latin-1, 1 to 79 bytes).
    pub name: String,
    /// The raw ICC profile bytes.
    pub profile: Vec<u8>,
}

/// White point and primary chromaticities (cHRM, §11.3.2.1), each coordinate times 100 000.
#[derive(Debug, Clone, Copy, PartialEq, Eq)]
pub struct Chromaticities {
    /// White point (x, y).
    pub white: (u32, u32),
    /// Red primary (x, y).
    pub red: (u32, u32),
    /// Green primary (x, y).
    pub green: (u32, u32),
    /// Blue primary (x, y).
    pub blue: (u32, u32),
}

/// Coding-independent code points (cICP, §11.3.2.5) identifying the video-signal colour space.
#[derive(Debug, Clone, Copy, PartialEq, Eq, Structural)]
pub struct Cicp {
    /// ITU-T H.273 colour primaries code.
    pub color_primaries: u8,
    /// ITU-T H.273 transfer function code.
    pub transfer_function: u8,
    /// ITU-T H.273 matrix coefficients code.
    pub matrix_coefficients: u8,
    /// Whether the samples use the full value range.
    pub full_range: bool,
}

/// Which chunk a text annotation came out of.
#[derive(Debug, Clone, Copy, PartialEq, Eq, Structural)]
#[non_exhaustive]
pub enum TextChunkKind {
    /// tEXt.
    Text,
    /// zTXt.
    CompressedText,
    /// iTXt, stored as it is.
    International,
    /// iTXt, stored compressed.
    CompressedInternational,
}

/// How a file framed its XMP packet (§11.3.3.4).
#[derive(Debug, Clone, PartialEq, Eq)]
pub struct XmpFraming {
    /// Whether the packet was stored compressed.
    pub compressed: bool,
    /// The language tag, if the chunk carried one.
    pub language: Option<String>,
    /// The translated keyword, if the chunk carried one.
    pub translated_keyword: Option<String>,
}

/// [`XmpFraming`] as values.
pub struct FramingModel {
    pub compressed: bool,
    pub language: Option<Seq<char>>,
    pub translated_keyword: Option<Seq<char>>,
}

impl View for XmpFraming {
    type V = FramingModel;

    open spec fn view(&self) -> FramingModel {
        FramingModel {
            compressed: self.compressed,
            language: opt_chars(self.language),
            translated_keyword: opt_chars(self.translated_keyword),
        }
    }
}

/// An optional framing as values.
pub open spec fn opt_framing(f: Option<XmpFraming>) -> Option<FramingModel> {
    match f {
        Some(framing) => Some(framing@),
        None => None,
    }
}

/// One text annotation (tEXt, zTXt or iTXt, §11.3.3), decompressed where stored compressed.
///
/// tEXt and zTXt hold Latin-1, mapped code point for code point; iTXt holds UTF-8. The XMP packet
/// is surfaced separately.
#[derive(Debug, Clone, PartialEq, Eq)]
pub struct TextChunk {
    /// The keyword (1 to 79 bytes).
    pub keyword: String,
    /// The text payload.
    pub text: String,
    /// The iTXt language tag, if the chunk carried one.
    pub language: Option<String>,
    /// The iTXt translated keyword, if the chunk carried one.
    pub translated_keyword: Option<String>,
    /// Which chunk the annotation came out of.
    pub kind: TextChunkKind,
}

/// [`TextChunk`] as values.
pub struct TextModel {
    pub keyword: Seq<char>,
    pub text: Seq<char>,
    pub language: Option<Seq<char>>,
    pub translated_keyword: Option<Seq<char>>,
    pub kind: TextChunkKind,
}

/// An optional string's characters.
pub open spec fn opt_chars(s: Option<String>) -> Option<Seq<char>> {
    match s {
        Some(t) => Some(t@),
        None => None,
    }
}

/// An optional byte string's bytes.
pub open spec fn opt_bytes(s: Option<Vec<u8>>) -> Option<Seq<u8>> {
    match s {
        Some(t) => Some(t@),
        None => None,
    }
}

impl View for TextChunk {
    type V = TextModel;

    open spec fn view(&self) -> TextModel {
        TextModel {
            keyword: self.keyword@,
            text: self.text@,
            language: opt_chars(self.language),
            translated_keyword: opt_chars(self.translated_keyword),
            kind: self.kind,
        }
    }
}

/// Everything a PNG carries: the pixels in their native layout plus the ancillary payloads.
#[derive(Debug)]
#[non_exhaustive]
pub struct DecodedPng {
    /// The parsed image header, as stored.
    pub header: PngHeader,
    /// The decoded pixels, in the file's native layout.
    pub image: PngImage,
    /// The palette of an indexed image; per-entry alpha comes from tRNS.
    pub palette: Option<PngPalette>,
    /// The tRNS colour key of a greyscale or truecolour image, in native sample units.
    pub transparency: Option<TransparencyKey>,
    /// The eXIf payload verbatim.
    pub exif: Option<Vec<u8>>,
    /// The embedded ICC profile (iCCP), inflated.
    pub icc_profile: Option<IccProfile>,
    /// The XMP packet, decompressed if stored compressed.
    pub xmp: Option<Vec<u8>>,
    /// How the XMP packet was framed.
    pub xmp_framing: Option<XmpFraming>,
    /// The C2PA manifest store (the caBX chunk) verbatim; see [`PngMetadata::c2pa`].
    pub c2pa: Option<Vec<u8>>,
    /// How many intact caBX chunks were not surfaced as the store.
    pub c2pa_ignored: usize,
    /// tEXt, zTXt and iTXt annotations in file order (the XMP packet is excluded).
    pub texts: Vec<TextChunk>,
    /// gAMA: image gamma times 100 000.
    pub gamma: Option<u32>,
    /// cHRM chromaticities, each coordinate times 100 000.
    pub chromaticities: Option<Chromaticities>,
    /// sRGB rendering intent.
    pub srgb: Option<SrgbIntent>,
    /// cICP video-signal code points.
    pub cicp: Option<Cicp>,
}

/// The ancillary metadata a PNG carries.
#[derive(Debug, Clone, PartialEq, Eq)]
#[non_exhaustive]
pub struct PngMetadata {
    /// The eXIf payload verbatim.
    pub exif: Option<Vec<u8>>,
    /// The embedded ICC profile (iCCP), inflated.
    pub icc_profile: Option<IccProfile>,
    /// The XMP packet, decompressed if stored compressed.
    pub xmp: Option<Vec<u8>>,
    /// How the XMP packet was framed.
    pub xmp_framing: Option<XmpFraming>,
    /// The C2PA manifest store (the caBX chunk) verbatim: the first CRC-valid caBX before the first
    /// IDAT, and only when it fits the metadata budget.
    pub c2pa: Option<Vec<u8>>,
    /// How many CRC-valid caBX chunks were not surfaced as the store: any after the first, and any
    /// positioned after IDAT.
    pub c2pa_ignored: usize,
    /// tEXt, zTXt and iTXt annotations in file order (the XMP packet is excluded).
    pub texts: Vec<TextChunk>,
    /// gAMA: image gamma times 100 000.
    pub gamma: Option<u32>,
    /// cHRM chromaticities, each coordinate times 100 000.
    pub chromaticities: Option<Chromaticities>,
    /// sRGB rendering intent.
    pub srgb: Option<SrgbIntent>,
    /// cICP video-signal code points.
    pub cicp: Option<Cicp>,
}

/// [`PngMetadata`] as values.
pub struct MetadataModel {
    pub exif: Option<Seq<u8>>,
    pub icc_profile: Option<(Seq<char>, Seq<u8>)>,
    pub xmp: Option<Seq<u8>>,
    pub xmp_framing: Option<FramingModel>,
    pub c2pa: Option<Seq<u8>>,
    pub c2pa_ignored: int,
    pub texts: Seq<TextModel>,
    pub gamma: Option<u32>,
    pub chromaticities: Option<Chromaticities>,
    pub srgb: Option<SrgbIntent>,
    pub cicp: Option<Cicp>,
}

impl PngImage {
    /// The layout of the pixels.
    pub open spec fn format(&self) -> PixelFormat {
        match self {
            PngImage::Gray8(_) => PixelFormat::Gray8,
            PngImage::Gray16(_) => PixelFormat::Gray16,
            PngImage::GrayAlpha8(_) => PixelFormat::GrayAlpha8,
            PngImage::GrayAlpha16(_) => PixelFormat::GrayAlpha16,
            PngImage::Rgb8(_) => PixelFormat::Rgb8,
            PngImage::Rgb16(_) => PixelFormat::Rgb16,
            PngImage::Rgba8(_) => PixelFormat::Rgba8,
            PngImage::Rgba16(_) => PixelFormat::Rgba16,
            PngImage::Indexed8(_) => PixelFormat::Indexed8,
        }
    }

    /// The samples as 16-bit values.
    pub open spec fn samples(&self) -> Seq<u16> {
        match self {
            PngImage::Gray8(v) => widened(v@),
            PngImage::Gray16(v) => v@,
            PngImage::GrayAlpha8(v) => widened(v@),
            PngImage::GrayAlpha16(v) => v@,
            PngImage::Rgb8(v) => widened(v@),
            PngImage::Rgb16(v) => v@,
            PngImage::Rgba8(v) => widened(v@),
            PngImage::Rgba16(v) => v@,
            PngImage::Indexed8(v) => widened(v@),
        }
    }
}

/// An optional ICC profile as values.
pub open spec fn opt_icc(p: Option<IccProfile>) -> Option<(Seq<char>, Seq<u8>)> {
    match p {
        Some(icc) => Some((icc.name@, icc.profile@)),
        None => None,
    }
}

/// The annotations as values.
pub open spec fn text_models(texts: Seq<TextChunk>) -> Seq<TextModel> {
    texts.map_values(|t: TextChunk| t@)
}

impl View for PngMetadata {
    type V = MetadataModel;

    open spec fn view(&self) -> MetadataModel {
        MetadataModel {
            exif: opt_bytes(self.exif),
            icc_profile: opt_icc(self.icc_profile),
            xmp: opt_bytes(self.xmp),
            xmp_framing: opt_framing(self.xmp_framing),
            c2pa: opt_bytes(self.c2pa),
            c2pa_ignored: self.c2pa_ignored as int,
            texts: text_models(self.texts@),
            gamma: self.gamma,
            chromaticities: self.chromaticities,
            srgb: self.srgb,
            cicp: self.cicp,
        }
    }
}

/// The colours and the leading alphas of a palette.
pub struct PaletteColors {
    pub rgb: Seq<[u8; 3]>,
    pub alphas: Seq<u8>,
}

/// An optional palette as values.
pub open spec fn opt_palette(p: Option<PngPalette>) -> Option<PaletteColors> {
    match p {
        Some(palette) => Some(PaletteColors { rgb: palette.colors(), alphas: palette.alphas() }),
        None => None,
    }
}

/// [`DecodedPng`] as values.
pub struct DecodedModel {
    pub header: PngHeader,
    pub format: PixelFormat,
    pub samples: Seq<u16>,
    pub palette: Option<PaletteColors>,
    pub transparency: Option<TransparencyKey>,
    pub metadata: MetadataModel,
}

impl View for DecodedPng {
    type V = DecodedModel;

    open spec fn view(&self) -> DecodedModel {
        DecodedModel {
            header: self.header,
            format: self.image.format(),
            samples: self.image.samples(),
            palette: opt_palette(self.palette),
            transparency: self.transparency,
            metadata: MetadataModel {
                exif: opt_bytes(self.exif),
                icc_profile: opt_icc(self.icc_profile),
                xmp: opt_bytes(self.xmp),
                xmp_framing: opt_framing(self.xmp_framing),
                c2pa: opt_bytes(self.c2pa),
                c2pa_ignored: self.c2pa_ignored as int,
                texts: text_models(self.texts@),
                gamma: self.gamma,
                chromaticities: self.chromaticities,
                srgb: self.srgb,
                cicp: self.cicp,
            },
        }
    }
}

/// No metadata.
pub open spec fn no_metadata() -> MetadataModel {
    MetadataModel {
        exif: None,
        icc_profile: None,
        xmp: None,
        xmp_framing: None,
        c2pa: None,
        c2pa_ignored: 0,
        texts: Seq::empty(),
        gamma: None,
        chromaticities: None,
        srgb: None,
        cicp: None,
    }
}

impl Default for PngMetadata {
    /// No metadata.
    fn default() -> (meta: Self)
        ensures
            meta@ == no_metadata(),
    {
        let meta = PngMetadata {
            exif: None,
            icc_profile: None,
            xmp: None,
            xmp_framing: None,
            c2pa: None,
            c2pa_ignored: 0,
            texts: Vec::new(),
            gamma: None,
            chromaticities: None,
            srgb: None,
            cicp: None,
        };
        assert(meta@.texts =~= Seq::<TextModel>::empty());
        meta
    }
}

/// The position of the first zero byte from `from`, or the length where there is none.
pub open spec fn zero_from(data: Seq<u8>, from: int) -> int
    decreases data.len() - from,
{
    if from >= data.len() {
        data.len() as int
    } else if data[from] == 0 {
        from
    } else {
        zero_from(data, from + 1)
    }
}

proof fn zero_from_bounds(data: Seq<u8>, from: int)
    requires
        0 <= from <= data.len(),
    ensures
        from <= zero_from(data, from) <= data.len(),
        zero_from(data, from) < data.len() ==> data[zero_from(data, from)] == 0,
    decreases data.len() - from,
{
    if from < data.len() && data[from] != 0 {
        zero_from_bounds(data, from + 1);
    }
}

/// The position of the first zero byte, or the length where there is none.
fn first_zero(data: &[u8]) -> (at: usize)
    ensures
        at == zero_from(data@, 0),
        at <= data@.len(),
{
    let mut i: usize = 0;
    while i < data.len()
        invariant
            i <= data@.len(),
            zero_from(data@, 0) == zero_from(data@, i as int),
        decreases data@.len() - i,
    {
        if data[i] == 0 {
            return i;
        }
        i += 1;
    }
    i
}

/// The bytes behind position `at`.
pub open spec fn after(data: Seq<u8>, at: int) -> Seq<u8> {
    data.subrange(at + 1, data.len() as int)
}

/// A payload split at its first null into keyword and rest, where the keyword has 1 to 79 bytes.
pub open spec fn keyword_split(data: Seq<u8>) -> Option<(Seq<char>, Seq<u8>)> {
    let nul = zero_from(data, 0);
    if nul == data.len() || nul == 0 || nul > 79 {
        None
    } else {
        Some((latin1_chars(data.subrange(0, nul)), after(data, nul)))
    }
}

/// Splits a payload at its first null and validates the keyword (1 to 79 bytes, §11.3.3.1).
pub fn split_keyword(data: &[u8]) -> (split: Option<(String, &[u8])>)
    ensures
        split is Some <==> keyword_split(data@) is Some,
        split matches Some((k, r)) ==> keyword_split(data@) == Some((k@, r@)),
{
    let nul: usize = first_zero(data);
    if nul == data.len() || nul == 0 || nul > 79 {
        return None;
    }
    Some((latin1(&data[0..nul]), &data[nul + 1..data.len()]))
}

/// What is inflated under a budget, and what is left of the budget.
pub open spec fn inflated(data: Seq<u8>, budget: int) -> (Option<Seq<u8>>, int) {
    match zlib_contents(data, budget) {
        Some(c) => (Some(c), budget - c.len()),
        None => (None, budget),
    }
}

/// Inflates a compressed metadata payload under the shared budget; `None` (skip the chunk) if the
/// stream is corrupt or would bust the remaining budget. The budget never grows.
pub fn inflate_metadata(data: &[u8], budget: &mut usize) -> (contents: Option<Vec<u8>>)
    ensures
        (opt_bytes(contents), *final(budget) as int) == inflated(data@, *old(budget) as int),
        *final(budget) <= *old(budget),
{
    match inflate_zlib(data, *budget) {
        Ok(contents) => {
            *budget = *budget - contents.len();
            Some(contents)
        },
        Err(_) => None,
    }
}

/// The ICC profile of an iCCP payload, and what is left of the budget.
pub open spec fn iccp_of(data: Seq<u8>, budget: int) -> (Option<(Seq<char>, Seq<u8>)>, int) {
    match keyword_split(data) {
        Some((name, rest)) if rest.len() > 0 && rest[0] == 0 => {
            let (contents, left) = inflated(after(rest, 0), budget);
            (
                match contents {
                    Some(profile) => Some((name, profile)),
                    None => None,
                },
                left,
            )
        },
        _ => (None, budget),
    }
}

/// iCCP (§11.3.2.3): profile name, null, compression method 0, deflated profile.
pub fn parse_iccp(data: &[u8], budget: &mut usize) -> (profile: Option<IccProfile>)
    ensures
        (opt_icc(profile), *final(budget) as int) == iccp_of(data@, *old(budget) as int),
        *final(budget) <= *old(budget),
{
    match split_keyword(data) {
        Some((name, rest)) => {
            if rest.len() == 0 || rest[0] != 0 {
                return None;
            }
            match inflate_metadata(&rest[1..rest.len()], budget) {
                Some(profile) => Some(IccProfile { name, profile }),
                None => None,
            }
        },
        None => None,
    }
}

/// The chromaticities of a cHRM payload.
pub open spec fn chrm_of(data: Seq<u8>) -> Option<Chromaticities> {
    if data.len() == 32 {
        Some(
            Chromaticities {
                white: (be32(data, 0) as u32, be32(data, 4) as u32),
                red: (be32(data, 8) as u32, be32(data, 12) as u32),
                green: (be32(data, 16) as u32, be32(data, 20) as u32),
                blue: (be32(data, 24) as u32, be32(data, 28) as u32),
            },
        )
    } else {
        None
    }
}

/// cHRM (§11.3.2.1): eight fixed-point coordinates times 100 000, big-endian.
pub fn parse_chrm(data: &[u8]) -> (chrm: Option<Chromaticities>)
    ensures
        chrm == chrm_of(data@),
{
    if data.len() != 32 {
        return None;
    }
    Some(
        Chromaticities {
            white: (read_be32(data, 0), read_be32(data, 4)),
            red: (read_be32(data, 8), read_be32(data, 12)),
            green: (read_be32(data, 16), read_be32(data, 20)),
            blue: (read_be32(data, 24), read_be32(data, 28)),
        },
    )
}

/// An optional annotation as values.
pub open spec fn opt_text(t: Option<TextChunk>) -> Option<TextModel> {
    match t {
        Some(c) => Some(c@),
        None => None,
    }
}

/// The annotation of a tEXt payload.
pub open spec fn text_of(data: Seq<u8>) -> Option<TextModel> {
    match keyword_split(data) {
        Some((keyword, rest)) => Some(
            TextModel {
                keyword,
                text: latin1_chars(rest),
                language: None,
                translated_keyword: None,
                kind: TextChunkKind::Text,
            },
        ),
        None => None,
    }
}

/// tEXt (§11.3.3.3): keyword, null, Latin-1 text.
pub fn parse_text(data: &[u8]) -> (text: Option<TextChunk>)
    ensures
        opt_text(text) == text_of(data@),
{
    match split_keyword(data) {
        Some((keyword, rest)) => Some(
            TextChunk {
                keyword,
                text: latin1(rest),
                language: None,
                translated_keyword: None,
                kind: TextChunkKind::Text,
            },
        ),
        None => None,
    }
}

/// What the body of a zTXt becomes.
pub open spec fn ztxt_body(keyword: Seq<char>, body: Seq<u8>) -> TextModel {
    TextModel {
        keyword,
        text: latin1_chars(body),
        language: None,
        translated_keyword: None,
        kind: TextChunkKind::CompressedText,
    }
}

/// What the contents of a zTXt become, once they are inflated: Latin-1 text.
pub fn ztxt_contents(keyword: String, body: &[u8]) -> (text: TextChunk)
    ensures
        text@ == ztxt_body(keyword@, body@),
{
    TextChunk {
        keyword,
        text: latin1(body),
        language: None,
        translated_keyword: None,
        kind: TextChunkKind::CompressedText,
    }
}

/// The annotation of a zTXt payload, and what is left of the budget.
pub open spec fn ztxt_of(data: Seq<u8>, budget: int) -> (Option<TextModel>, int) {
    match keyword_split(data) {
        Some((keyword, rest)) if rest.len() > 0 && rest[0] == 0 => {
            let (contents, left) = inflated(after(rest, 0), budget);
            (
                match contents {
                    Some(body) => Some(ztxt_body(keyword, body)),
                    None => None,
                },
                left,
            )
        },
        _ => (None, budget),
    }
}

/// zTXt (§11.3.3.4): keyword, null, compression method 0, deflated Latin-1 text.
pub fn parse_ztxt(data: &[u8], budget: &mut usize) -> (text: Option<TextChunk>)
    ensures
        (opt_text(text), *final(budget) as int) == ztxt_of(data@, *old(budget) as int),
        *final(budget) <= *old(budget),
{
    match split_keyword(data) {
        Some((keyword, rest)) => {
            if rest.len() == 0 || rest[0] != 0 {
                return None;
            }
            match inflate_metadata(&rest[1..rest.len()], budget) {
                Some(body) => Some(ztxt_contents(keyword, body.as_slice())),
                None => None,
            }
        },
        None => None,
    }
}

/// A parsed iTXt: either the XMP packet or an ordinary text annotation.
#[derive(Debug)]
pub enum ITxt {
    Xmp(Vec<u8>, XmpFraming),
    Text(TextChunk),
}

/// [`ITxt`] as values.
pub enum ITxtModel {
    Xmp(Seq<u8>, FramingModel),
    Text(TextModel),
}

/// An optional iTXt as values.
pub open spec fn opt_itxt(t: Option<ITxt>) -> Option<ITxtModel> {
    match t {
        Some(ITxt::Xmp(packet, framing)) => Some(ITxtModel::Xmp(packet@, framing@)),
        Some(ITxt::Text(text)) => Some(ITxtModel::Text(text@)),
        None => None,
    }
}

/// A text that is not empty.
pub open spec fn non_empty(text: Seq<char>) -> Option<Seq<char>> {
    if text.len() == 0 {
        None
    } else {
        Some(text)
    }
}

/// What the body of an iTXt becomes.
pub open spec fn itxt_body(
    keyword: Seq<char>,
    language: Seq<char>,
    translated: Seq<char>,
    body: Seq<u8>,
    compressed: bool,
) -> Option<ITxtModel> {
    if keyword == XMP_KEYWORD@ {
        Some(
            ITxtModel::Xmp(
                body,
                FramingModel {
                    compressed,
                    language: non_empty(language),
                    translated_keyword: non_empty(translated),
                },
            ),
        )
    } else {
        match utf8_of(body) {
            Some(text) => Some(
                ITxtModel::Text(
                    TextModel {
                        keyword,
                        text,
                        language: non_empty(language),
                        translated_keyword: non_empty(translated),
                        kind: if compressed {
                            TextChunkKind::CompressedInternational
                        } else {
                            TextChunkKind::International
                        },
                    },
                ),
            ),
            None => None,
        }
    }
}

/// What an iTXt payload holds, and what is left of the budget.
pub open spec fn itxt_of(data: Seq<u8>, budget: int) -> (Option<ITxtModel>, int) {
    match keyword_split(data) {
        Some((keyword, rest)) if rest.len() >= 2 => {
            let flag = rest[0];
            let method = rest[1];
            let fields = rest.subrange(2, rest.len() as int);
            let lang_end = zero_from(fields, 0);
            let tail = after(fields, lang_end);
            let translated_end = zero_from(tail, 0);
            if lang_end == fields.len() || translated_end == tail.len() {
                (None, budget)
            } else {
                let language = latin1_chars(fields.subrange(0, lang_end));
                let body = after(tail, translated_end);
                match utf8_of(tail.subrange(0, translated_end)) {
                    None => (None, budget),
                    Some(translated) => if flag == 0 {
                        (itxt_body(keyword, language, translated, body, false), budget)
                    } else if flag == 1 && method == 0 {
                        let (contents, left) = inflated(body, budget);
                        (
                            match contents {
                                Some(c) => itxt_body(keyword, language, translated, c, true),
                                None => None,
                            },
                            left,
                        )
                    } else {
                        (None, budget)
                    },
                }
            }
        },
        _ => (None, budget),
    }
}

fn is_xmp_keyword(keyword: &String) -> (is: bool)
    ensures
        is == (keyword@ == XMP_KEYWORD@),
{
    let wanted: String = XMP_KEYWORD.to_owned();
    *keyword == wanted
}

fn keep_non_empty(text: String) -> (kept: Option<String>)
    ensures
        opt_chars(kept) == non_empty(text@),
{
    if text.as_str().is_empty() {
        None
    } else {
        Some(text)
    }
}

/// What the contents of an iTXt become, once they are inflated: the XMP packet under its keyword, a
/// text annotation under any other, and nothing where that is not UTF-8.
pub fn itxt_contents(
    keyword: String,
    language: String,
    translated: String,
    contents: Vec<u8>,
    compressed: bool,
) -> (itxt: Option<ITxt>)
    ensures
        opt_itxt(itxt) == itxt_body(keyword@, language@, translated@, contents@, compressed),
{
    if is_xmp_keyword(&keyword) {
        return Some(
            ITxt::Xmp(
                contents,
                XmpFraming {
                    compressed,
                    language: keep_non_empty(language),
                    translated_keyword: keep_non_empty(translated),
                },
            ),
        );
    }
    match utf8_text(contents.as_slice()) {
        Some(text) => Some(
            ITxt::Text(
                TextChunk {
                    keyword,
                    text,
                    language: keep_non_empty(language),
                    translated_keyword: keep_non_empty(translated),
                    kind: if compressed {
                        TextChunkKind::CompressedInternational
                    } else {
                        TextChunkKind::International
                    },
                },
            ),
        ),
        None => None,
    }
}

/// iTXt (§11.3.3.5): keyword, null, compression flag, compression method, language tag, null,
/// translated keyword, null, UTF-8 text (deflated when the flag is 1).
pub fn parse_itxt(data: &[u8], budget: &mut usize) -> (itxt: Option<ITxt>)
    ensures
        (opt_itxt(itxt), *final(budget) as int) == itxt_of(data@, *old(budget) as int),
        *final(budget) <= *old(budget),
{
    let (keyword, rest): (String, &[u8]) = match split_keyword(data) {
        Some(split) => split,
        None => {
            return None;
        },
    };
    if rest.len() < 2 {
        return None;
    }
    let flag: u8 = rest[0];
    let method: u8 = rest[1];
    let fields: &[u8] = &rest[2..rest.len()];
    let lang_end: usize = first_zero(fields);
    if lang_end == fields.len() {
        return None;
    }
    let language: String = latin1(&fields[0..lang_end]);
    let tail: &[u8] = &fields[lang_end + 1..fields.len()];
    let translated_end: usize = first_zero(tail);
    if translated_end == tail.len() {
        return None;
    }
    let translated: String = match utf8_text(&tail[0..translated_end]) {
        Some(text) => text,
        None => {
            return None;
        },
    };
    let body: &[u8] = &tail[translated_end + 1..tail.len()];
    let contents: Vec<u8> = if flag == 0 {
        vstd::slice::slice_to_vec(body)
    } else if flag == 1 && method == 0 {
        match inflate_metadata(body, budget) {
            Some(contents) => contents,
            None => {
                return None;
            },
        }
    } else {
        return None;
    };
    itxt_contents(keyword, language, translated, contents, flag == 1)
}

/// The gamma of a gAMA payload.
pub open spec fn gama_of(data: Seq<u8>) -> Option<u32> {
    if data.len() == 4 {
        Some(be32(data, 0) as u32)
    } else {
        None
    }
}

/// The intent of an sRGB payload.
pub open spec fn srgb_of(data: Seq<u8>) -> Option<SrgbIntent> {
    if data.len() == 1 {
        intent_of(data[0])
    } else {
        None
    }
}

/// The code points of a cICP payload.
pub open spec fn cicp_of(data: Seq<u8>) -> Option<Cicp> {
    if data.len() == 4 && data[3] <= 1 {
        Some(
            Cicp {
                color_primaries: data[0],
                transfer_function: data[1],
                matrix_coefficients: data[2],
                full_range: data[3] == 1,
            },
        )
    } else {
        None
    }
}

/// What has been collected so far, what is left of the budget, and whether a store was seen.
pub struct Collected {
    pub meta: MetadataModel,
    pub budget: int,
    pub seen_c2pa: bool,
}

/// What one more chunk adds.
pub open spec fn collect_step(s: Collected, chunk_type: Seq<u8>, data: Seq<u8>) -> Collected {
    let m = s.meta;
    if chunk_type == EXIF@ {
        if m.exif is None {
            Collected { meta: MetadataModel { exif: Some(data), ..m }, ..s }
        } else {
            s
        }
    } else if chunk_type == CABX@ {
        if s.seen_c2pa {
            Collected { meta: MetadataModel { c2pa_ignored: m.c2pa_ignored + 1, ..m }, ..s }
        } else if data.len() <= s.budget {
            Collected {
                meta: MetadataModel { c2pa: Some(data), ..m },
                budget: s.budget - data.len(),
                seen_c2pa: true,
            }
        } else {
            Collected { seen_c2pa: true, ..s }
        }
    } else if chunk_type == ICCP@ {
        if m.icc_profile is None {
            let (profile, left) = iccp_of(data, s.budget);
            Collected { meta: MetadataModel { icc_profile: profile, ..m }, budget: left, ..s }
        } else {
            s
        }
    } else if chunk_type == GAMA@ {
        if m.gamma is None {
            Collected { meta: MetadataModel { gamma: gama_of(data), ..m }, ..s }
        } else {
            s
        }
    } else if chunk_type == CHRM@ {
        if m.chromaticities is None {
            Collected { meta: MetadataModel { chromaticities: chrm_of(data), ..m }, ..s }
        } else {
            s
        }
    } else if chunk_type == SRGB@ {
        if m.srgb is None {
            Collected { meta: MetadataModel { srgb: srgb_of(data), ..m }, ..s }
        } else {
            s
        }
    } else if chunk_type == CICP@ {
        if m.cicp is None {
            Collected { meta: MetadataModel { cicp: cicp_of(data), ..m }, ..s }
        } else {
            s
        }
    } else if chunk_type == TEXT@ {
        match text_of(data) {
            Some(text) => Collected {
                meta: MetadataModel { texts: m.texts.push(text), ..m },
                ..s
            },
            None => s,
        }
    } else if chunk_type == ZTXT@ {
        let (text, left) = ztxt_of(data, s.budget);
        Collected {
            meta: match text {
                Some(text) => MetadataModel { texts: m.texts.push(text), ..m },
                None => m,
            },
            budget: left,
            ..s
        }
    } else if chunk_type == ITXT@ {
        let (itxt, left) = itxt_of(data, s.budget);
        Collected {
            meta: match itxt {
                Some(ITxtModel::Xmp(packet, framing)) => if m.xmp is None {
                    MetadataModel { xmp: Some(packet), xmp_framing: Some(framing), ..m }
                } else {
                    m
                },
                Some(ITxtModel::Text(text)) => MetadataModel { texts: m.texts.push(text), ..m },
                None => m,
            },
            budget: left,
            ..s
        }
    } else {
        s
    }
}

/// What the first `n` chunks add up to under a budget.
pub open spec fn collected(chunks: Seq<(Seq<u8>, Seq<u8>)>, budget: int, n: int) -> Collected
    decreases n,
{
    if n <= 0 {
        Collected { meta: no_metadata(), budget, seen_c2pa: false }
    } else {
        collect_step(collected(chunks, budget, n - 1), chunks[n - 1].0, chunks[n - 1].1)
    }
}

/// The metadata of a list of chunks.
pub open spec fn metadata_of(chunks: Seq<(Seq<u8>, Seq<u8>)>, budget: int) -> MetadataModel {
    collected(chunks, budget, chunks.len() as int).meta
}

/// Chunk types and payloads as values.
pub open spec fn chunk_pairs(chunks: Seq<([u8; 4], &[u8])>) -> Seq<(Seq<u8>, Seq<u8>)> {
    chunks.map_values(|c: ([u8; 4], &[u8])| (c.0@, c.1@))
}

/// Parses the metadata-bearing ancillary chunks of a stream, in file order. Malformed payloads skip
/// their chunk; compressed payloads and the caBX store share `budget` bytes of output, and a
/// payload that would bust the remainder is skipped. Once-only chunks keep their first occurrence;
/// a second caBX is counted.
pub fn collect(chunks: &[([u8; 4], &[u8])], budget: usize) -> (meta: PngMetadata)
    ensures
        meta@ == metadata_of(chunk_pairs(chunks@), budget as int),
        meta.c2pa_ignored <= chunks@.len(),
{
    let mut meta: PngMetadata = PngMetadata::default();
    let mut left: usize = budget;
    let mut seen_c2pa: bool = false;
    let ghost pairs = chunk_pairs(chunks@);
    let mut i: usize = 0;
    while i < chunks.len()
        invariant
            i <= chunks@.len(),
            pairs == chunk_pairs(chunks@),
            meta@.c2pa_ignored <= i,
            ({
                let s = collected(pairs, budget as int, i as int);
                meta@ == s.meta && left == s.budget && seen_c2pa == s.seen_c2pa
            }),
        decreases chunks@.len() - i,
    {
        let (chunk_type, data): ([u8; 4], &[u8]) = chunks[i];
        assert(pairs[i as int] == (chunk_type@, data@));
        collect_one(&mut meta, &mut left, &mut seen_c2pa, chunk_type, data);
        i += 1;
    }
    meta
}

fn push_model(texts: &mut Vec<TextChunk>, text: TextChunk)
    ensures
        text_models(final(texts)@) == text_models(old(texts)@).push(text@),
{
    texts.push(text);
    assert(text_models(texts@) =~= text_models(old(texts)@).push(text@));
}

fn collect_one(
    meta: &mut PngMetadata,
    left: &mut usize,
    seen_c2pa: &mut bool,
    chunk_type: [u8; 4],
    data: &[u8],
)
    requires
        old(meta).c2pa_ignored < usize::MAX,
    ensures
        (Collected {
            meta: final(meta)@,
            budget: *final(left) as int,
            seen_c2pa: *final(seen_c2pa),
        }) == collect_step(
            Collected {
                meta: old(meta)@,
                budget: *old(left) as int,
                seen_c2pa: *old(seen_c2pa),
            },
            chunk_type@,
            data@,
        ),
        final(meta)@.c2pa_ignored <= old(meta)@.c2pa_ignored + 1,
{
    if same_type(chunk_type, EXIF) {
        if meta.exif.is_none() {
            meta.exif = Some(vstd::slice::slice_to_vec(data));
        }
    } else if same_type(chunk_type, CABX) {
        if *seen_c2pa {
            meta.c2pa_ignored = meta.c2pa_ignored + 1;
        } else {
            *seen_c2pa = true;
            if data.len() <= *left {
                *left = *left - data.len();
                meta.c2pa = Some(vstd::slice::slice_to_vec(data));
            }
        }
    } else if same_type(chunk_type, ICCP) {
        if meta.icc_profile.is_none() {
            meta.icc_profile = parse_iccp(data, left);
        }
    } else if same_type(chunk_type, GAMA) {
        if meta.gamma.is_none() && data.len() == 4 {
            meta.gamma = Some(read_be32(data, 0));
        }
    } else if same_type(chunk_type, CHRM) {
        if meta.chromaticities.is_none() {
            meta.chromaticities = parse_chrm(data);
        }
    } else if same_type(chunk_type, SRGB) {
        if meta.srgb.is_none() && data.len() == 1 {
            meta.srgb = SrgbIntent::from_code(data[0]);
        }
    } else if same_type(chunk_type, CICP) {
        if meta.cicp.is_none() && data.len() == 4 && data[3] <= 1 {
            meta.cicp = Some(
                Cicp {
                    color_primaries: data[0],
                    transfer_function: data[1],
                    matrix_coefficients: data[2],
                    full_range: data[3] == 1,
                },
            );
        }
    } else if same_type(chunk_type, TEXT) {
        match parse_text(data) {
            Some(text) => {
                push_model(&mut meta.texts, text);
            },
            None => {},
        }
    } else if same_type(chunk_type, ZTXT) {
        match parse_ztxt(data, left) {
            Some(text) => {
                push_model(&mut meta.texts, text);
            },
            None => {},
        }
    } else if same_type(chunk_type, ITXT) {
        match parse_itxt(data, left) {
            Some(ITxt::Xmp(packet, framing)) => {
                if meta.xmp.is_none() {
                    meta.xmp = Some(packet);
                    meta.xmp_framing = Some(framing);
                }
            },
            Some(ITxt::Text(text)) => {
                push_model(&mut meta.texts, text);
            },
            None => {},
        }
    }
}

/// Once-only chunks keep their first occurrence: what has been collected of them stays, whatever
/// chunk comes next, and annotations are only ever appended.
pub proof fn first_occurrence_wins(s: Collected, chunk_type: Seq<u8>, data: Seq<u8>)
    ensures
        ({
            let next = collect_step(s, chunk_type, data).meta;
            &&& s.meta.exif is Some ==> next.exif == s.meta.exif
            &&& s.meta.icc_profile is Some ==> next.icc_profile == s.meta.icc_profile
            &&& s.meta.xmp is Some ==> next.xmp == s.meta.xmp && next.xmp_framing
                == s.meta.xmp_framing
            &&& s.meta.gamma is Some ==> next.gamma == s.meta.gamma
            &&& s.meta.chromaticities is Some ==> next.chromaticities == s.meta.chromaticities
            &&& s.meta.srgb is Some ==> next.srgb == s.meta.srgb
            &&& s.meta.cicp is Some ==> next.cicp == s.meta.cicp
            &&& s.seen_c2pa ==> next.c2pa == s.meta.c2pa
            &&& s.meta.texts.is_prefix_of(next.texts)
        }),
{
    let next = collect_step(s, chunk_type, data).meta;
    assert(s.meta.texts =~= next.texts.subrange(0, s.meta.texts.len() as int));
}

/// A second store is counted, never read: with one seen, a caBX changes the count alone.
pub proof fn a_second_store_is_counted(s: Collected, data: Seq<u8>)
    requires
        s.seen_c2pa,
    ensures
        collect_step(s, CABX@, data) == (Collected {
            meta: MetadataModel { c2pa_ignored: s.meta.c2pa_ignored + 1, ..s.meta },
            ..s
        }),
{
    assert(CABX@[0] != EXIF@[0]);
}

} // verus!
