//! The settings of an encoder.
use crate::ancillary::{
    entry_for, notices_of, xmp_entry_for, Ancillary, PhysicalUnit, SrgbIntent, TextKind,
    TextRefusal,
};
use crate::bytes::{be16_seq, push_be16};
use crate::encoder::{MetadataNotice, PngEncoder};
use crate::filter::FilterStrategy;
use crate::text::utf8_bytes;
use crate::zlib::{Level, DEFAULT_EFFORT};
use vstd::prelude::*;
use vstd::utf8::encode_utf8;

verus! {

impl Default for PngEncoder {
    fn default() -> (encoder: Self)
        ensures
            encoder.is_new(),
    {
        Self::new()
    }
}

impl PngEncoder {
    /// No ancillary chunk is set.
    pub open spec fn is_new(&self) -> bool {
        &&& self.level is Default
        &&& self.effort == DEFAULT_EFFORT
        &&& self.filter is MinSumAbs
        &&& !self.auto_reduce
        &&& !self.clean_transparent
        &&& self.carry_notices@.len() == 0
        &&& self.ancillary.is_empty()
    }

    /// Everything but the ancillary chunks is as in `other`.
    pub open spec fn same_settings(&self, other: PngEncoder) -> bool {
        *self == (PngEncoder { ancillary: self.ancillary, ..other })
    }

    /// An encoder with balanced compression and the [`FilterStrategy::MinSumAbs`] filter heuristic.
    pub fn new() -> (encoder: Self)
        ensures
            encoder.is_new(),
    {
        PngEncoder {
            level: Level::Default,
            effort: DEFAULT_EFFORT,
            filter: FilterStrategy::MinSumAbs,
            ancillary: Ancillary::default(),
            auto_reduce: false,
            clean_transparent: false,
            carry_notices: Vec::new(),
        }
    }

    /// Sets the compression level used for the image data.
    pub fn with_compression(self, level: Level) -> (encoder: Self)
        ensures
            encoder == (PngEncoder { level, ..self }),
    {
        PngEncoder { level, ..self }
    }

    /// Sets the effort spent at [`Level::Best`], for the image data and for compressed ancillary
    /// payloads.
    pub fn with_effort(self, effort: u8) -> (encoder: Self)
        ensures
            encoder == (PngEncoder { effort, ..self }),
    {
        PngEncoder { effort, ..self }
    }

    /// Sets the scanline filter strategy.
    pub fn with_filter(self, filter: FilterStrategy) -> (encoder: Self)
        ensures
            encoder == (PngEncoder { filter, ..self }),
    {
        PngEncoder { filter, ..self }
    }

    /// Tries the image with the colour channels of fully transparent pixels cleared, and keeps that
    /// encoding where it is smaller. Nothing a decoder renders changes, but stored samples do.
    pub fn with_transparent_cleanup(self, enabled: bool) -> (encoder: Self)
        ensures
            encoder == (PngEncoder { clean_transparent: enabled, ..self }),
    {
        PngEncoder { clean_transparent: enabled, ..self }
    }

    /// Enables lossless reduction of an image to a smaller encoding of the same pixels. Off by
    /// default, so that the output colour type and depth match the input.
    pub fn with_auto_reduce(self, enabled: bool) -> (encoder: Self)
        ensures
            encoder == (PngEncoder { auto_reduce: enabled, ..self }),
    {
        PngEncoder { auto_reduce: enabled, ..self }
    }

    /// Records an image gamma (gAMA chunk), times 100 000.
    pub fn with_gamma(self, gamma: u32) -> (encoder: Self)
        ensures
            encoder.same_settings(self),
            encoder.ancillary == (Ancillary { gamma: Some(gamma), ..self.ancillary }),
    {
        let mut encoder = self;
        encoder.ancillary.gamma = Some(gamma);
        encoder
    }

    /// Records the standard colour-space rendering intent (sRGB chunk). May be combined with
    /// [`PngEncoder::with_icc_profile`]: a reader honours the profile.
    pub fn with_srgb(self, intent: SrgbIntent) -> (encoder: Self)
        ensures
            encoder.same_settings(self),
            encoder.ancillary == (Ancillary { srgb: Some(intent.spec_code()), ..self.ancillary }),
    {
        let mut encoder = self;
        encoder.ancillary.set_srgb(intent);
        encoder
    }

    /// Records the video-signal colour space by its ITU-T H.273 code points (cICP chunk). The matrix
    /// coefficients are zero in every PNG.
    pub fn with_cicp(self, color_primaries: u8, transfer_function: u8, full_range: bool) -> (encoder:
        Self)
        ensures
            encoder.same_settings(self),
            encoder.ancillary == (Ancillary {
                cicp: Some((color_primaries, transfer_function, full_range)),
                ..self.ancillary
            }),
    {
        let mut encoder = self;
        encoder.ancillary.cicp = Some((color_primaries, transfer_function, full_range));
        encoder
    }

    /// Records the white point and RGB primary chromaticities (cHRM chunk), each an `(x, y)` times
    /// 100 000.
    pub fn with_chromaticities(
        self,
        white: (u32, u32),
        red: (u32, u32),
        green: (u32, u32),
        blue: (u32, u32),
    ) -> (encoder: Self)
        ensures
            encoder.same_settings(self),
            encoder.ancillary == (Ancillary {
                chrm: Some(
                    [white.0, white.1, red.0, red.1, green.0, green.1, blue.0, blue.1],
                ),
                ..self.ancillary
            }),
    {
        let mut encoder = self;
        encoder.ancillary.chrm = Some(
            [white.0, white.1, red.0, red.1, green.0, green.1, blue.0, blue.1],
        );
        encoder
    }

    /// Records the number of significant bits per channel (sBIT chunk): 1 for grey, 2 for grey and
    /// alpha, 3 for RGB and indexed, 4 for RGBA. Written for the colour type actually written, and
    /// omitted where that cannot carry them.
    pub fn with_significant_bits(self, bits: &[u8]) -> (encoder: Self)
        ensures
            encoder.same_settings(self),
            encoder.ancillary == (Ancillary { sbit: encoder.ancillary.sbit, ..self.ancillary }),
            Ancillary::stored(encoder.ancillary.sbit) == Some(bits@),
    {
        let mut encoder = self;
        encoder.ancillary.sbit = Some(vstd::slice::slice_to_vec(bits));
        encoder
    }

    fn with_background(self, payload: Vec<u8>) -> (encoder: Self)
        ensures
            encoder.same_settings(self),
            encoder.ancillary == (Ancillary { bkgd: Some(payload), ..self.ancillary }),
    {
        let mut encoder = self;
        encoder.ancillary.bkgd = Some(payload);
        encoder
    }

    /// Records a greyscale background colour (bKGD chunk).
    pub fn with_background_gray(self, gray: u16) -> (encoder: Self)
        ensures
            encoder.same_settings(self),
            encoder.ancillary == (Ancillary { bkgd: encoder.ancillary.bkgd, ..self.ancillary }),
            Ancillary::stored(encoder.ancillary.bkgd) == Some(be16_seq(gray as int)),
    {
        let mut payload: Vec<u8> = Vec::new();
        push_be16(&mut payload, gray);
        assert(payload@ =~= be16_seq(gray as int));
        self.with_background(payload)
    }

    /// Records an RGB background colour (bKGD chunk).
    pub fn with_background_rgb(self, red: u16, green: u16, blue: u16) -> (encoder: Self)
        ensures
            encoder.same_settings(self),
            encoder.ancillary == (Ancillary { bkgd: encoder.ancillary.bkgd, ..self.ancillary }),
            Ancillary::stored(encoder.ancillary.bkgd) == Some(
                be16_seq(red as int) + be16_seq(green as int) + be16_seq(blue as int),
            ),
    {
        let mut payload: Vec<u8> = Vec::new();
        push_be16(&mut payload, red);
        push_be16(&mut payload, green);
        push_be16(&mut payload, blue);
        assert(payload@ =~= be16_seq(red as int) + be16_seq(green as int) + be16_seq(blue as int));
        self.with_background(payload)
    }

    /// Records a background colour as an index into the palette given to
    /// [`PngEncoder::encode_indexed8`] (bKGD chunk).
    pub fn with_background_index(self, index: u8) -> (encoder: Self)
        ensures
            encoder.same_settings(self),
            encoder.ancillary == (Ancillary { bkgd: encoder.ancillary.bkgd, ..self.ancillary }),
            Ancillary::stored(encoder.ancillary.bkgd) == Some(seq![index]),
    {
        let payload: Vec<u8> = vec![index];
        assert(payload@ =~= seq![index]);
        self.with_background(payload)
    }

    /// Records the intended physical pixel dimensions (pHYs chunk).
    pub fn with_physical_dimensions(self, x_ppu: u32, y_ppu: u32, unit: PhysicalUnit) -> (encoder:
        Self)
        ensures
            encoder.same_settings(self),
            encoder.ancillary == (Ancillary {
                phys: Some((x_ppu, y_ppu, unit.spec_code())),
                ..self.ancillary
            }),
    {
        let mut encoder = self;
        encoder.ancillary.set_physical(x_ppu, y_ppu, unit);
        encoder
    }

    /// Records the last-modification time (tIME chunk), in UTC.
    pub fn with_time(self, year: u16, month: u8, day: u8, hour: u8, minute: u8, second: u8) -> (encoder:
        Self)
        ensures
            encoder.same_settings(self),
            encoder.ancillary == (Ancillary { time: encoder.ancillary.time, ..self.ancillary }),
            encoder.ancillary.time_payload() == Some(
                be16_seq(year as int) + seq![month, day, hour, minute, second],
            ),
    {
        let mut encoder = self;
        encoder.ancillary.set_time(year, month, day, hour, minute, second);
        encoder
    }

    /// Adds an uncompressed Latin-1 text annotation (tEXt chunk).
    pub fn with_text(self, keyword: &str, text: &str) -> (encoder: Self)
        ensures
            encoder.same_settings(self),
            encoder.ancillary.same_but_texts(self.ancillary),
            encoder.ancillary.entries() == self.ancillary.entries().push(
                entry_for(keyword@, text@, TextKind::Latin1, self.ancillary.carrying),
            ),
    {
        let mut encoder = self;
        encoder.ancillary.add_text_latin1(keyword, text);
        encoder
    }

    /// Adds a compressed Latin-1 text annotation (zTXt chunk).
    pub fn with_compressed_text(self, keyword: &str, text: &str) -> (encoder: Self)
        ensures
            encoder.same_settings(self),
            encoder.ancillary.same_but_texts(self.ancillary),
            encoder.ancillary.entries() == self.ancillary.entries().push(
                entry_for(keyword@, text@, TextKind::Compressed, self.ancillary.carrying),
            ),
    {
        let mut encoder = self;
        encoder.ancillary.add_text_compressed(keyword, text);
        encoder
    }

    /// Adds an uncompressed UTF-8 text annotation (iTXt chunk).
    pub fn with_international_text(self, keyword: &str, text: &str) -> (encoder: Self)
        ensures
            encoder.same_settings(self),
            encoder.ancillary.same_but_texts(self.ancillary),
            encoder.ancillary.entries() == self.ancillary.entries().push(
                entry_for(keyword@, text@, TextKind::International, self.ancillary.carrying),
            ),
    {
        let mut encoder = self;
        encoder.ancillary.add_text_international(keyword, text);
        encoder
    }

    /// Embeds raw Exif metadata (eXIf chunk): the TIFF byte stream from its byte-order marker on.
    pub fn with_exif(self, exif: &[u8]) -> (encoder: Self)
        ensures
            encoder.same_settings(self),
            encoder.ancillary == (Ancillary { exif: encoder.ancillary.exif, ..self.ancillary }),
            Ancillary::stored(encoder.ancillary.exif) == Some(exif@),
    {
        let mut encoder = self;
        encoder.ancillary.exif = Some(vstd::slice::slice_to_vec(exif));
        encoder
    }

    /// Embeds an ICC colour profile (iCCP chunk), compressed. May be combined with
    /// [`PngEncoder::with_srgb`].
    pub fn with_icc_profile(self, name: &str, profile: &[u8]) -> (encoder: Self)
        ensures
            encoder.same_settings(self),
            encoder.ancillary == (Ancillary { iccp: encoder.ancillary.iccp, ..self.ancillary }),
            encoder.ancillary.iccp matches Some((n, p)) && n@ == name@ && p@ == profile@,
    {
        let mut encoder = self;
        encoder.ancillary.iccp = Some(
            (String::from_str(name), vstd::slice::slice_to_vec(profile)),
        );
        encoder
    }

    /// Embeds an XMP packet (an iTXt chunk with the standard `XML:com.adobe.xmp` keyword).
    pub fn with_xmp(self, xmp: &str) -> (encoder: Self)
        ensures
            encoder.same_settings(self),
            encoder.ancillary.same_but_texts(self.ancillary),
            encoder.ancillary.entries() == self.ancillary.entries().push(
                xmp_entry_for(encode_utf8(xmp@), self.ancillary.carrying),
            ),
    {
        let mut encoder = self;
        let packet: Vec<u8> = utf8_bytes(xmp);
        encoder.ancillary.add_xmp(packet.as_slice());
        encoder
    }

    /// Embeds a C2PA manifest store (caBX chunk), verbatim, as the last chunk before IDAT. The last
    /// of this and [`PngEncoder::with_c2pa_reserved`] wins.
    pub fn with_c2pa(self, store: &[u8]) -> (encoder: Self)
        ensures
            encoder.same_settings(self),
            encoder.ancillary == (Ancillary { c2pa: encoder.ancillary.c2pa, ..self.ancillary }),
            Ancillary::stored(encoder.ancillary.c2pa) == Some(store@),
    {
        let mut encoder = self;
        encoder.ancillary.c2pa = Some(vstd::slice::slice_to_vec(store));
        encoder
    }

    /// Reserves `len` zero bytes for a C2PA manifest store (caBX chunk), as the last chunk before
    /// IDAT.
    pub fn with_c2pa_reserved(self, len: usize) -> (encoder: Self)
        ensures
            encoder.same_settings(self),
            encoder.ancillary == (Ancillary { c2pa: encoder.ancillary.c2pa, ..self.ancillary }),
            Ancillary::stored(encoder.ancillary.c2pa) == Some(Seq::new(len as nat, |i: int| 0u8)),
    {
        let mut encoder = self;
        let reserved: Vec<u8> = vec![0u8; len];
        assert(reserved@ =~= Seq::new(len as nat, |i: int| 0u8));
        encoder.ancillary.c2pa = Some(reserved);
        encoder
    }

    /// The first annotation that must not be written, if there is one: every encode is refused
    /// because of it.
    pub fn refusal(&self) -> (refusal: Option<TextRefusal>)
        ensures
            refusal is None <==> self.ancillary.is_valid(),
            refusal matches Some(r) ==> {
                &&& r.index < self.ancillary.texts@.len()
                &&& self.ancillary.entries()[r.index as int].fault == Some((r.keyword@, r.rule))
                &&& forall|i: int|
                    0 <= i < r.index ==> (#[trigger] self.ancillary.texts@[i]).fault is None
            },
    {
        match self.ancillary.validate() {
            Ok(_) => None,
            Err(refusal) => Some(refusal),
        }
    }

    /// What this encoder could not carry faithfully: the payloads the last metadata carry left
    /// behind, then what is to be said of each annotation, in the order they were found. Empty when
    /// everything came along intact.
    pub fn metadata_notices(&self) -> (notices: Vec<MetadataNotice>)
        ensures
            notices@ == self.carry_notices@ + notices_of(self.ancillary.entries()),
    {
        let mut notices: Vec<MetadataNotice> = vstd::slice::slice_to_vec(
            self.carry_notices.as_slice(),
        );
        let mut texts: Vec<MetadataNotice> = self.ancillary.text_notices();
        notices.append(&mut texts);
        notices
    }
}

} // verus!
