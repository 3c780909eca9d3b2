//! Which metadata carrier each image format's crate can locate or write, as a queryable table.
//!
//! The matrix is not uniform (HEIC is decode-only, TIFF locates nothing, DNG alone carries a legacy
//! IPTC-IIM block), so the model is per format, carrier and direction.
use vstd::prelude::*;

verus! {

/// A still-image container format. The order of the variants is permanent: a later format is added
/// at the end.
#[derive(Debug, Clone, Copy, PartialEq, Eq, Structural, Hash)]
#[non_exhaustive]
pub enum Format {
    /// JPEG-1 (ISO/IEC 10918-1), `gamut-jpeg`.
    Jpeg,
    /// PNG (W3C, 3rd edition), `gamut-png`.
    Png,
    /// WebP (RIFF), `gamut-webp`.
    WebP,
    /// AVIF (ISOBMFF/HEIF over AV1), `gamut-avif`.
    Avif,
    /// HEIC/HEIF (ISOBMFF over HEVC), `gamut-heic`; decode-only.
    Heic,
    /// JPEG XL (ISO/IEC 18181), `gamut-jxl`.
    Jxl,
    /// TIFF 6.0, `gamut-tiff`.
    Tiff,
    /// DNG 1.7.1 (a TIFF/EP profile), `gamut-dng`.
    Dng,
}

impl Format {
    /// Every format, in order.
    pub const ALL: [Format; 8] = [
        Format::Jpeg,
        Format::Png,
        Format::WebP,
        Format::Avif,
        Format::Heic,
        Format::Jxl,
        Format::Tiff,
        Format::Dng,
    ];

    /// The package that implements the format.
    pub open spec fn spec_crate_name(self) -> Seq<char> {
        match self {
            Format::Jpeg => "gamut-jpeg"@,
            Format::Png => "gamut-png"@,
            Format::WebP => "gamut-webp"@,
            Format::Avif => "gamut-avif"@,
            Format::Heic => "gamut-heic"@,
            Format::Jxl => "gamut-jxl"@,
            Format::Tiff => "gamut-tiff"@,
            Format::Dng => "gamut-dng"@,
        }
    }

    /// The package that implements the format.
    #[must_use]
    pub fn crate_name(self) -> (name: &'static str)
        ensures
            name@ == self.spec_crate_name(),
    {
        match self {
            Format::Jpeg => "gamut-jpeg",
            Format::Png => "gamut-png",
            Format::WebP => "gamut-webp",
            Format::Avif => "gamut-avif",
            Format::Heic => "gamut-heic",
            Format::Jxl => "gamut-jxl",
            Format::Tiff => "gamut-tiff",
            Format::Dng => "gamut-dng",
        }
    }
}

/// A metadata carrier: one genuinely distinct serialization a container holds. The order of the
/// variants is permanent.
#[derive(Debug, Clone, Copy, PartialEq, Eq, Structural, Hash)]
#[non_exhaustive]
pub enum Carrier {
    /// An EXIF blob (a TIFF stream, with or without the `Exif\0\0` marker).
    Exif,
    /// An XMP packet, which is also where IPTC Core and Extension live.
    Xmp,
    /// An ICC profile.
    Icc,
    /// The legacy binary IPTC-IIM dataset stream.
    IptcIim,
    /// A C2PA manifest store (JUMBF superbox). Read-only by nature everywhere.
    C2pa,
}

impl Carrier {
    /// Every carrier, in order.
    pub const ALL: [Carrier; 5] = [
        Carrier::Exif,
        Carrier::Xmp,
        Carrier::Icc,
        Carrier::IptcIim,
        Carrier::C2pa,
    ];
}

/// Which way the metadata moves.
#[derive(Debug, Clone, Copy, PartialEq, Eq, Structural, Hash)]
pub enum Direction {
    /// Locating the carrier's payload in an existing file.
    Read,
    /// Writing the carrier into a file the crate encodes.
    Write,
}

impl Direction {
    /// Both directions.
    pub const ALL: [Direction; 2] = [Direction::Read, Direction::Write];
}

/// Whether a carrier's payload can be located in a file of a format.
pub open spec fn reads(format: Format, carrier: Carrier) -> bool {
    match format {
        Format::Tiff => false,
        Format::Dng => !(carrier is C2pa),
        Format::Heic => !(carrier is IptcIim),
        _ => carrier is Exif || carrier is Xmp || carrier is Icc,
    }
}

/// Whether a carrier can be written into a file of a format: whatever can be read, except that HEIC
/// is never written.
pub open spec fn writes(format: Format, carrier: Carrier) -> bool {
    reads(format, carrier) && !(format is Heic)
}

/// Whether the crate for `format` can locate (`Read`) or write (`Write`) `carrier` as a raw payload.
///
/// The answer is for the surface a crate defines, not for what a particular build compiled.
#[must_use]
pub fn supports(format: Format, carrier: Carrier, direction: Direction) -> (supported: bool)
    ensures
        supported == (match direction {
            Direction::Read => reads(format, carrier),
            Direction::Write => writes(format, carrier),
        }),
{
    let read: bool = matches!(direction, Direction::Read);
    match (format, carrier) {
        (Format::Jpeg, Carrier::Exif | Carrier::Xmp | Carrier::Icc) => true,
        (Format::Jpeg, Carrier::IptcIim | Carrier::C2pa) => false,
        (Format::Png, Carrier::Exif | Carrier::Xmp | Carrier::Icc) => true,
        (Format::Png, Carrier::IptcIim | Carrier::C2pa) => false,
        (Format::WebP, Carrier::Exif | Carrier::Xmp | Carrier::Icc) => true,
        (Format::WebP, Carrier::IptcIim | Carrier::C2pa) => false,
        (Format::Avif, Carrier::Exif | Carrier::Xmp | Carrier::Icc) => true,
        (Format::Avif, Carrier::IptcIim | Carrier::C2pa) => false,
        // Decode-only: nothing is written.
        (Format::Heic, Carrier::Exif | Carrier::Xmp | Carrier::Icc | Carrier::C2pa) => read,
        (Format::Heic, Carrier::IptcIim) => false,
        (Format::Jxl, Carrier::Exif | Carrier::Xmp | Carrier::Icc) => true,
        (Format::Jxl, Carrier::IptcIim | Carrier::C2pa) => false,
        // Metadata tags are recognised by name only.
        (Format::Tiff, _) => false,
        (Format::Dng, Carrier::Exif | Carrier::Xmp | Carrier::Icc | Carrier::IptcIim) => true,
        (Format::Dng, Carrier::C2pa) => false,
    }
}

/// Whether a format's crate exposes the typed models directly.
pub open spec fn is_wired(format: Format) -> bool {
    format is Dng || format is Jpeg || format is Jxl || format is Heic
}

/// Whether the crate for `format` exposes the typed models directly, rather than payloads as raw
/// bytes.
#[must_use]
pub fn typed_wiring(format: Format) -> (wired: bool)
    ensures
        wired == is_wired(format),
{
    match format {
        Format::Dng | Format::Jpeg | Format::Jxl | Format::Heic => true,
        Format::Png | Format::WebP | Format::Avif | Format::Tiff => false,
    }
}

/// No format writes a manifest store, only DNG carries a legacy IPTC-IIM block, and nothing is
/// written that could not be read back.
pub proof fn what_no_format_does(format: Format, carrier: Carrier)
    ensures
        !writes(format, Carrier::C2pa),
        reads(format, Carrier::IptcIim) <==> format is Dng,
        writes(format, carrier) ==> reads(format, carrier),
        !writes(Format::Heic, carrier),
        !reads(Format::Tiff, carrier),
{
}

} // verus!
