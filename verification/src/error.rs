//! What can go wrong, and where in the input.
use vstd::prelude::*;

verus! {

/// The class of a failure.
#[derive(Debug, Clone, Copy, PartialEq, Eq, Structural)]
pub enum ErrorKind {
    /// The input breaks a rule of its format.
    InvalidInput,
    /// The input is outside what this library handles, or past a configured limit.
    Unsupported,
}

/// Why an operation failed.
#[derive(Debug, Clone, Copy, PartialEq, Eq, Structural)]
pub enum Cause {
    BadSignature,
    TruncatedChunk,
    ChunkTooLong,
    ChunkOverrun,
    TruncatedCrc,
    PaletteSize,
    TooManyAlphas,
    PlteNotTriples,
    MissingIhdr,
    FirstChunkNotIhdr,
    CriticalCrcMismatch,
    DuplicateIhdr,
    IendNotEmpty,
    IdatNotConsecutive,
    DuplicatePlte,
    PlteAfterIdat,
    PlteAfterTrns,
    TrnsAfterIdat,
    UnknownCriticalChunk,
    MissingIend,
    MissingIdat,
    IhdrLength,
    ImageDimensions,
    UnknownColorType,
    DepthNotAllowed,
    UnknownMethod,
    DimensionsOverflow,
    DimensionLimit,
    SizeLimit,
    IdatTooShort,
    UndefinedFilter,
    IndexOutOfRange,
    PlteForbidden,
    MalformedPlte,
    PlteRequired,
    PaletteTooLarge,
    TrnsForbidden,
    MalformedTrns,
    CorruptZlib,
    LossyLayout,
    SampleCount,
    RefusedAnnotation,
    TooManyChunks,
    NoFirstChunk,
    HeaderNotFirst,
    TruncatedBoxHeader,
    MalformedBoxSize,
    BoxOverrun,
    TruncatedBrob,
    BrotliMetadata,
    TruncatedExifBox,
    ExifOffset,
    UnknownFraming,
    NoBackend,
    WrongLayout,
    BackendFailed,
    BackendDeclined,
    BackendOverran,
}

impl Cause {
    /// The class a cause belongs to.
    pub open spec fn spec_kind(self) -> ErrorKind {
        match self {
            Cause::UnknownCriticalChunk
            | Cause::DimensionLimit
            | Cause::SizeLimit
            | Cause::LossyLayout
            | Cause::BrotliMetadata
            | Cause::NoBackend
            | Cause::BackendDeclined => ErrorKind::Unsupported,
            _ => ErrorKind::InvalidInput,
        }
    }

    /// The class a cause belongs to.
    pub fn kind(self) -> (kind: ErrorKind)
        ensures
            kind == self.spec_kind(),
    {
        match self {
            Cause::UnknownCriticalChunk
            | Cause::DimensionLimit
            | Cause::SizeLimit
            | Cause::LossyLayout
            | Cause::BrotliMetadata
            | Cause::NoBackend
            | Cause::BackendDeclined => ErrorKind::Unsupported,
            _ => ErrorKind::InvalidInput,
        }
    }

    /// Whether the cause is one of the JPEG XL container's.
    pub open spec fn spec_is_jxl(self) -> bool {
        match self {
            Cause::TruncatedBoxHeader
            | Cause::MalformedBoxSize
            | Cause::BoxOverrun
            | Cause::TruncatedBrob
            | Cause::BrotliMetadata
            | Cause::TruncatedExifBox
            | Cause::ExifOffset
            | Cause::UnknownFraming
            | Cause::NoBackend
            | Cause::WrongLayout
            | Cause::BackendFailed
            | Cause::BackendDeclined => true,
            _ => false,
        }
    }

    /// The text of a cause.
    pub open spec fn spec_message(self) -> Seq<char> {
        match self {
            Cause::BadSignature => "PNG: bad signature"@,
            Cause::TruncatedChunk => "PNG: truncated chunk"@,
            Cause::ChunkTooLong => "PNG: chunk length exceeds 2^31 - 1"@,
            Cause::ChunkOverrun => "PNG: chunk overruns the input"@,
            Cause::TruncatedCrc => "PNG: truncated chunk CRC"@,
            Cause::PaletteSize => "PNG: palette must have 1..=256 entries"@,
            Cause::TooManyAlphas => "PNG: more tRNS entries than palette entries"@,
            Cause::PlteNotTriples => "PNG: PLTE payload must be a whole number of RGB triples"@,
            Cause::MissingIhdr => "PNG: missing IHDR"@,
            Cause::FirstChunkNotIhdr => "PNG: first chunk must be IHDR"@,
            Cause::CriticalCrcMismatch => "PNG: critical chunk CRC mismatch"@,
            Cause::DuplicateIhdr => "PNG: duplicate IHDR"@,
            Cause::IendNotEmpty => "PNG: IEND payload must be empty"@,
            Cause::IdatNotConsecutive => "PNG: IDAT chunks must be consecutive"@,
            Cause::DuplicatePlte => "PNG: duplicate PLTE"@,
            Cause::PlteAfterIdat => "PNG: PLTE must precede IDAT"@,
            Cause::PlteAfterTrns => "PNG: PLTE must precede tRNS"@,
            Cause::TrnsAfterIdat => "PNG: tRNS must precede IDAT"@,
            Cause::UnknownCriticalChunk => "PNG: unknown critical chunk"@,
            Cause::MissingIend => "PNG: missing IEND"@,
            Cause::MissingIdat => "PNG: missing IDAT"@,
            Cause::IhdrLength => "PNG: IHDR payload must be 13 bytes"@,
            Cause::ImageDimensions => "PNG: image dimensions must be 1..=2^31 - 1"@,
            Cause::UnknownColorType => "PNG: unknown colour type"@,
            Cause::DepthNotAllowed => "PNG: bit depth not allowed for the colour type"@,
            Cause::UnknownMethod => "PNG: unknown compression, filter or interlace method"@,
            Cause::DimensionsOverflow => "PNG: image dimensions overflow"@,
            Cause::DimensionLimit => "PNG: image exceeds the dimension limit"@,
            Cause::SizeLimit => "PNG: image exceeds the size limit"@,
            Cause::IdatTooShort => "PNG: IDAT is shorter than the image"@,
            Cause::UndefinedFilter => "PNG: undefined filter type"@,
            Cause::IndexOutOfRange => "PNG: palette index out of range"@,
            Cause::PlteForbidden => "PNG: PLTE is forbidden for greyscale colour types"@,
            Cause::MalformedPlte => "PNG: malformed PLTE payload"@,
            Cause::PlteRequired => "PNG: an indexed image requires a PLTE chunk"@,
            Cause::PaletteTooLarge => "PNG: palette larger than the bit depth can reference"@,
            Cause::TrnsForbidden => "PNG: tRNS is forbidden for colour types with alpha"@,
            Cause::MalformedTrns => "PNG: malformed tRNS payload"@,
            Cause::CorruptZlib => "PNG: corrupt zlib stream"@,
            Cause::LossyLayout => "PNG: this pixel layout cannot hold the image losslessly; use PngDecoder::decode"@,
            Cause::SampleCount => "PNG: sample count does not match the dimensions"@,
            Cause::RefusedAnnotation => "PNG: a text annotation breaks the clause of the chunk that would carry it"@,
            Cause::TooManyChunks => "PNG: more chunks than the walk's ceiling admits"@,
            Cause::NoFirstChunk => "PNG: no chunk after the signature"@,
            Cause::HeaderNotFirst => "PNG: first chunk is not IHDR"@,
            Cause::TruncatedBoxHeader => "JXL: truncated box header"@,
            Cause::MalformedBoxSize => "JXL: malformed box size"@,
            Cause::BoxOverrun => "JXL: box overruns the stream"@,
            Cause::TruncatedBrob => "JXL: truncated brob box"@,
            Cause::BrotliMetadata => "JXL: Brotli-compressed metadata box (brob) is not supported"@,
            Cause::TruncatedExifBox => "JXL: truncated Exif box"@,
            Cause::ExifOffset => "JXL: Exif box tiff-header offset out of range"@,
            Cause::UnknownFraming => "JXL: neither the codestream nor the container signature"@,
            Cause::NoBackend => "JXL: no decode backend (enable the `decode` feature or push a codestream backend)"@,
            Cause::WrongLayout => "JXL: backend returned a raster in the wrong pixel layout"@,
            Cause::BackendFailed => "JXL: backend failed"@,
            Cause::BackendDeclined => "JXL: backend declined the stream"@,
            Cause::BackendOverran => "PNG: IDAT backend returned more than the image holds"@,
        }
    }

    /// The text of a cause.
    pub fn message(self) -> (text: &'static str)
        ensures
            text@ == self.spec_message(),
    {
        match self {
            Cause::BadSignature => "PNG: bad signature",
            Cause::TruncatedChunk => "PNG: truncated chunk",
            Cause::ChunkTooLong => "PNG: chunk length exceeds 2^31 - 1",
            Cause::ChunkOverrun => "PNG: chunk overruns the input",
            Cause::TruncatedCrc => "PNG: truncated chunk CRC",
            Cause::PaletteSize => "PNG: palette must have 1..=256 entries",
            Cause::TooManyAlphas => "PNG: more tRNS entries than palette entries",
            Cause::PlteNotTriples => "PNG: PLTE payload must be a whole number of RGB triples",
            Cause::MissingIhdr => "PNG: missing IHDR",
            Cause::FirstChunkNotIhdr => "PNG: first chunk must be IHDR",
            Cause::CriticalCrcMismatch => "PNG: critical chunk CRC mismatch",
            Cause::DuplicateIhdr => "PNG: duplicate IHDR",
            Cause::IendNotEmpty => "PNG: IEND payload must be empty",
            Cause::IdatNotConsecutive => "PNG: IDAT chunks must be consecutive",
            Cause::DuplicatePlte => "PNG: duplicate PLTE",
            Cause::PlteAfterIdat => "PNG: PLTE must precede IDAT",
            Cause::PlteAfterTrns => "PNG: PLTE must precede tRNS",
            Cause::TrnsAfterIdat => "PNG: tRNS must precede IDAT",
            Cause::UnknownCriticalChunk => "PNG: unknown critical chunk",
            Cause::MissingIend => "PNG: missing IEND",
            Cause::MissingIdat => "PNG: missing IDAT",
            Cause::IhdrLength => "PNG: IHDR payload must be 13 bytes",
            Cause::ImageDimensions => "PNG: image dimensions must be 1..=2^31 - 1",
            Cause::UnknownColorType => "PNG: unknown colour type",
            Cause::DepthNotAllowed => "PNG: bit depth not allowed for the colour type",
            Cause::UnknownMethod => "PNG: unknown compression, filter or interlace method",
            Cause::DimensionsOverflow => "PNG: image dimensions overflow",
            Cause::DimensionLimit => "PNG: image exceeds the dimension limit",
            Cause::SizeLimit => "PNG: image exceeds the size limit",
            Cause::IdatTooShort => "PNG: IDAT is shorter than the image",
            Cause::UndefinedFilter => "PNG: undefined filter type",
            Cause::IndexOutOfRange => "PNG: palette index out of range",
            Cause::PlteForbidden => "PNG: PLTE is forbidden for greyscale colour types",
            Cause::MalformedPlte => "PNG: malformed PLTE payload",
            Cause::PlteRequired => "PNG: an indexed image requires a PLTE chunk",
            Cause::PaletteTooLarge => "PNG: palette larger than the bit depth can reference",
            Cause::TrnsForbidden => "PNG: tRNS is forbidden for colour types with alpha",
            Cause::MalformedTrns => "PNG: malformed tRNS payload",
            Cause::CorruptZlib => "PNG: corrupt zlib stream",
            Cause::LossyLayout => "PNG: this pixel layout cannot hold the image losslessly; use PngDecoder::decode",
            Cause::SampleCount => "PNG: sample count does not match the dimensions",
            Cause::RefusedAnnotation => "PNG: a text annotation breaks the clause of the chunk that would carry it",
            Cause::TooManyChunks => "PNG: more chunks than the walk's ceiling admits",
            Cause::NoFirstChunk => "PNG: no chunk after the signature",
            Cause::HeaderNotFirst => "PNG: first chunk is not IHDR",
            Cause::TruncatedBoxHeader => "JXL: truncated box header",
            Cause::MalformedBoxSize => "JXL: malformed box size",
            Cause::BoxOverrun => "JXL: box overruns the stream",
            Cause::TruncatedBrob => "JXL: truncated brob box",
            Cause::BrotliMetadata => "JXL: Brotli-compressed metadata box (brob) is not supported",
            Cause::TruncatedExifBox => "JXL: truncated Exif box",
            Cause::ExifOffset => "JXL: Exif box tiff-header offset out of range",
            Cause::UnknownFraming => "JXL: neither the codestream nor the container signature",
            Cause::NoBackend => "JXL: no decode backend (enable the `decode` feature or push a codestream backend)",
            Cause::WrongLayout => "JXL: backend returned a raster in the wrong pixel layout",
            Cause::BackendFailed => "JXL: backend failed",
            Cause::BackendDeclined => "JXL: backend declined the stream",
            Cause::BackendOverran => "PNG: IDAT backend returned more than the image holds",
        }
    }
}

/// A failure: why, and the byte offset in the input where that is known.
#[derive(Debug, Clone, Copy, PartialEq, Eq, Structural)]
pub struct Error {
    /// Why the operation failed.
    pub cause: Cause,
    /// Where in the input, if known.
    pub offset: Option<u64>,
}

impl Error {
    /// A failure at no particular place.
    pub fn new(cause: Cause) -> (error: Self)
        ensures
            error == (Error { cause, offset: None }),
    {
        Error { cause, offset: None }
    }

    /// A failure at a byte offset.
    pub fn at(cause: Cause, offset: u64) -> (error: Self)
        ensures
            error == (Error { cause, offset: Some(offset) }),
    {
        Error { cause, offset: Some(offset) }
    }

    /// The class of the failure.
    pub fn kind(&self) -> (kind: ErrorKind)
        ensures
            kind == self.cause.spec_kind(),
    {
        self.cause.kind()
    }

    /// The format that reported the failure.
    pub fn origin(&self) -> (origin: &'static str)
        ensures
            origin@ == (if self.cause.spec_is_jxl() {
                "gamut-jxl"@
            } else {
                "gamut-png"@
            }),
    {
        match self.cause {
            Cause::TruncatedBoxHeader
            | Cause::MalformedBoxSize
            | Cause::BoxOverrun
            | Cause::TruncatedBrob
            | Cause::BrotliMetadata
            | Cause::TruncatedExifBox
            | Cause::ExifOffset
            | Cause::UnknownFraming
            | Cause::NoBackend
            | Cause::WrongLayout
            | Cause::BackendFailed
            | Cause::BackendDeclined => "gamut-jxl",
            _ => "gamut-png",
        }
    }

    /// Where in the input, if known.
    pub fn byte_offset(&self) -> (offset: Option<u64>)
        ensures
            offset == self.offset,
    {
        self.offset
    }

    /// The text of the failure.
    pub fn message(&self) -> (text: &'static str)
        ensures
            text@ == self.cause.spec_message(),
    {
        self.cause.message()
    }
}

/// Whether `r` failed for `cause` at no particular place.
pub open spec fn failed<T>(r: Result<T, Error>, cause: Cause) -> bool {
    r matches Err(e) && e == (Error { cause, offset: None })
}

} // verus!
