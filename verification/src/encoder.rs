//! The PNG encoder.
//!
//! Several candidate encodings are raced and the smallest kept. At equal size the candidate that
//! discards less of the input's information stands, and between candidates that preserve the same
//! image the order is: chunk-carrying reduction, chunk-free reduction, the image as it arrived.
use crate::adam7::row_len;
use crate::ancillary::{
    background_for, bkgd_for, written_background_is_readable, Ancillary, PaletteModel,
    PaletteOrigin, WrittenHeader, WrittenModel, WrittenPalette,
};
use crate::bytes::{append, byte_len};
use crate::canvas::stride_of;
use crate::chunk::{chunk_bytes, signature, write_chunk, IDAT, IEND, IHDR, PLTE, SIGNATURE, TRNS};
use crate::color::ColorType;
use crate::error::{failed, Cause, Error};
use crate::filter::{filter_image, filtered_image, whole_rows, FilterStrategy, FilterType};
use crate::ihdr::{ihdr_payload, Ihdr};
use crate::pack::{is_sub_byte, pack_scanlines, packed, packed_row_len, radix, samples_fit};
use crate::palette::{
    entry_alphas, flat_rgb, kept_entries, trimmed, trimmed_payload, trns_payload, Entry, PngPalette,
};
use crate::pixels::{fills, widened, ImageRef, PixelFormat, SampleSlice};
use crate::reduce::{
    analyze16, analyze8, be_bytes, be_bytes_of, best_cost, clean_transparent, demotable, demoted,
    discovered, discovered_holds_each_once, gray_depth_of, gray_samples, gray_scale,
    has_invisible_pixel, index_bit_depth, index_depth, indexed_reduction, ints16, ints8, invisible,
    ordered, ordered_is_a_sorted_rearrangement, palette_cost, pixel_inside, pixel_position,
    plain_demotion, quad_alphas, quads, quads16, reductions16, reductions8, without_hidden_color, Quad,
    Reduced,
    ReducedModel, Reductions, ReductionsModel,
};
use crate::zlib::{inflates_to, zlib_compress, zlib_stream, Level};
use vstd::prelude::*;

verus! {

/// IDAT payload cap. A decoder concatenates consecutive IDATs, so the split is transparent.
pub const IDAT_MAX: usize = 0x1_0000;

/// A zlib stream as consecutive IDAT chunks of at most [`IDAT_MAX`] bytes; an empty stream is one
/// empty chunk.
pub open spec fn idat_chunks(stream: Seq<u8>) -> Seq<u8>
    decreases stream.len(),
{
    if stream.len() <= IDAT_MAX {
        chunk_bytes(IDAT@, stream)
    } else {
        chunk_bytes(IDAT@, stream.subrange(0, IDAT_MAX as int)) + idat_chunks(
            stream.subrange(IDAT_MAX as int, stream.len() as int),
        )
    }
}

/// Writes the zlib datastream as one or more consecutive IDAT chunks.
pub fn write_idat(out: &mut Vec<u8>, zlib_stream: &[u8])
    ensures
        final(out)@ == old(out)@ + idat_chunks(zlib_stream@),
{
    let ghost start = out@;
    let ghost all = idat_chunks(zlib_stream@);
    let n: usize = zlib_stream.len();
    let mut at: usize = 0;
    assert(zlib_stream@.subrange(0, n as int) =~= zlib_stream@);
    assert(start + all =~= out@ + all);
    while n - at > IDAT_MAX
        invariant
            n == zlib_stream@.len(),
            at <= n,
            start + all == out@ + idat_chunks(zlib_stream@.subrange(at as int, n as int)),
        decreases n - at,
    {
        let ghost rest = zlib_stream@.subrange(at as int, n as int);
        let ghost before = out@;
        write_chunk(out, IDAT, &zlib_stream[at..at + IDAT_MAX]);
        proof {
            assert(rest.subrange(0, IDAT_MAX as int) =~= zlib_stream@.subrange(
                at as int,
                at + IDAT_MAX,
            ));
            assert(rest.subrange(IDAT_MAX as int, rest.len() as int) =~= zlib_stream@.subrange(
                at + IDAT_MAX,
                n as int,
            ));
            assert(start + all =~= out@ + idat_chunks(
                zlib_stream@.subrange(at + IDAT_MAX, n as int),
            ));
        }
        at += IDAT_MAX;
    }
    write_chunk(out, IDAT, &zlib_stream[at..n]);
}

/// The smaller of two streams, the earlier one on a tie.
pub fn keep_smaller(best: Vec<u8>, next: Vec<u8>) -> (kept: Vec<u8>)
    ensures
        kept == (if next@.len() < best@.len() {
            next
        } else {
            best
        }),
{
    if next.len() < best.len() {
        next
    } else {
        best
    }
}

/// Whether the uncleaned encoding beats the cleaned one. A tie keeps the plain encoding: cleaning
/// alters stored samples, and is worth that only for a size win.
pub fn prefers_plain(plain_len: usize, cleaned_len: usize) -> (prefers: bool)
    ensures
        prefers == (plain_len <= cleaned_len),
{
    plain_len <= cleaned_len
}

/// Whether the chunk-free reduction beats the chunk-carrying one. A tie keeps the chunk-carrying
/// encoding.
pub fn prefers_chunk_free(chunk_free_len: usize, chunked_len: usize) -> (prefers: bool)
    ensures
        prefers == (chunk_free_len < chunked_len),
{
    chunk_free_len < chunked_len
}

/// Whether the unreduced encoding beats the winning reduction. A tie keeps the reduction.
pub fn prefers_native(native_len: usize, palette_len: usize) -> (prefers: bool)
    ensures
        prefers == (native_len < palette_len),
{
    native_len < palette_len
}

/// Something [`PngEncoder::with_metadata`] could not do faithfully with a payload it was given.
///
/// This is not an error channel: everything here is something a caller has to know, not something
/// that should fail a conversion whose pixels are fine.
#[derive(Debug, Clone, Copy, PartialEq, Eq, Hash, Structural)]
#[non_exhaustive]
pub enum MetadataNotice {
    /// A cICP whose matrix coefficients are not 0, left behind (§11.3.2.6).
    NonRgbCicp,
    /// The C2PA manifest store (caBX), left behind: it is signed over the bytes of its own file.
    C2paManifestStore,
    /// A text annotation left behind because its keyword is not Latin-1.
    TextKeywordNotLatin1,
    /// A text annotation left behind because its keyword is not 1 to 79 bytes.
    TextKeywordLength,
    /// A text annotation written, whose keyword leaves the recommended repertoire.
    TextKeywordRepertoire,
    /// A text annotation written, whose keyword has a stray space.
    TextKeywordSpacing,
    /// A text annotation written without its iTXt language tag.
    ItxtLanguageTag,
    /// An XMP packet left behind because it is not UTF-8.
    XmpNotUtf8,
}

impl MetadataNotice {
    /// Whether the payload still reaches the output.
    pub open spec fn spec_carried(self) -> bool {
        self is TextKeywordRepertoire || self is TextKeywordSpacing || self is ItxtLanguageTag
    }

    /// Whether the payload still reached the output: `false` means it was left behind entirely,
    /// `true` that it was written, with the caveat [`MetadataNotice::reason`] gives.
    pub fn carried(self) -> (carried: bool)
        ensures
            carried == self.spec_carried(),
    {
        match self {
            MetadataNotice::TextKeywordRepertoire
            | MetadataNotice::TextKeywordSpacing
            | MetadataNotice::ItxtLanguageTag => true,
            _ => false,
        }
    }

    /// One line naming the payload and what happened to it.
    pub open spec fn spec_reason(self) -> Seq<char> {
        match self {
            MetadataNotice::NonRgbCicp =>
                "cICP: its matrix coefficients are not 0, which PNG requires (§11.3.2.6)"@,
            MetadataNotice::C2paManifestStore =>
                "C2PA manifest store: signed over the source bytes, so a copy would be invalid (C2PA 2.4 §A.3.2) — re-sign the output"@,
            MetadataNotice::TextKeywordNotLatin1 =>
                "text annotation: its keyword is not Latin-1, which every text chunk requires (§11.3.3.1)"@,
            MetadataNotice::TextKeywordLength =>
                "text annotation: its keyword is not 1 to 79 bytes, the length every text chunk fixes (§11.3.3.1)"@,
            MetadataNotice::TextKeywordRepertoire =>
                "text annotation: written, but its keyword leaves the code points 0x20-0x7E and 0xA1-0xFF §11.3.3.1 recommends — another reader may reject it"@,
            MetadataNotice::TextKeywordSpacing =>
                "text annotation: written, but its keyword has a leading, trailing or consecutive space, which §11.3.3.1 does not permit"@,
            MetadataNotice::ItxtLanguageTag =>
                "text annotation: written without its language tag, which was not the BCP 47 shape §11.3.3.4 requires"@,
            MetadataNotice::XmpNotUtf8 =>
                "XMP packet: not UTF-8, and an iTXt text string must be (§11.3.3.4)"@,
        }
    }

    /// One line naming the payload and what happened to it, fit to show a user.
    pub fn reason(self) -> (reason: &'static str)
        ensures
            reason@ == self.spec_reason(),
    {
        match self {
            MetadataNotice::NonRgbCicp =>
                "cICP: its matrix coefficients are not 0, which PNG requires (§11.3.2.6)",
            MetadataNotice::C2paManifestStore =>
                "C2PA manifest store: signed over the source bytes, so a copy would be invalid (C2PA 2.4 §A.3.2) — re-sign the output",
            MetadataNotice::TextKeywordNotLatin1 =>
                "text annotation: its keyword is not Latin-1, which every text chunk requires (§11.3.3.1)",
            MetadataNotice::TextKeywordLength =>
                "text annotation: its keyword is not 1 to 79 bytes, the length every text chunk fixes (§11.3.3.1)",
            MetadataNotice::TextKeywordRepertoire =>
                "text annotation: written, but its keyword leaves the code points 0x20-0x7E and 0xA1-0xFF §11.3.3.1 recommends — another reader may reject it",
            MetadataNotice::TextKeywordSpacing =>
                "text annotation: written, but its keyword has a leading, trailing or consecutive space, which §11.3.3.1 does not permit",
            MetadataNotice::ItxtLanguageTag =>
                "text annotation: written without its language tag, which was not the BCP 47 shape §11.3.3.4 requires",
            MetadataNotice::XmpNotUtf8 =>
                "XMP packet: not UTF-8, and an iTXt text string must be (§11.3.3.4)",
        }
    }
}

/// A reusable PNG encoder.
#[derive(Debug, Clone)]
pub struct PngEncoder {
    /// How hard to compress.
    pub level: Level,
    /// The effort spent at [`Level::Best`].
    pub effort: u8,
    /// The scanline filter strategy.
    pub filter: FilterStrategy,
    /// The ancillary chunks to write.
    pub ancillary: Ancillary,
    /// Whether to look for a smaller encoding of the same pixels.
    pub auto_reduce: bool,
    /// Whether to try clearing the colour of fully transparent pixels.
    pub clean_transparent: bool,
    /// What the last metadata carry left behind.
    pub carry_notices: Vec<MetadataNotice>,
}

/// How many whole-image strategies [`FilterStrategy::BruteForce`] tries.
pub const BRUTE_FORCE_COUNT: usize = 7;

/// The whole-image strategies [`FilterStrategy::BruteForce`] tries, in order of preference.
pub open spec fn brute_force_strategy(k: int) -> FilterStrategy {
    if k == 0 {
        FilterStrategy::Unfiltered
    } else if k == 1 {
        FilterStrategy::Fixed(FilterType::Sub)
    } else if k == 2 {
        FilterStrategy::Fixed(FilterType::Up)
    } else if k == 3 {
        FilterStrategy::Fixed(FilterType::Average)
    } else if k == 4 {
        FilterStrategy::Fixed(FilterType::Paeth)
    } else if k == 5 {
        FilterStrategy::MinSumAbs
    } else {
        FilterStrategy::MinBigrams
    }
}

pub(crate) fn brute_force(k: usize) -> (strategy: FilterStrategy)
    requires
        k < BRUTE_FORCE_COUNT,
    ensures
        strategy == brute_force_strategy(k as int),
{
    match k {
        0 => FilterStrategy::Unfiltered,
        1 => FilterStrategy::Fixed(FilterType::Sub),
        2 => FilterStrategy::Fixed(FilterType::Up),
        3 => FilterStrategy::Fixed(FilterType::Average),
        4 => FilterStrategy::Fixed(FilterType::Paeth),
        5 => FilterStrategy::MinSumAbs,
        _ => FilterStrategy::MinBigrams,
    }
}

/// The filtered scanlines of packed rows.
pub open spec fn filtered_rows(
    strategy: FilterStrategy,
    bytes: Seq<u8>,
    row_bytes: int,
    bpp: int,
) -> Seq<u8> {
    filtered_image(strategy, bytes, row_bytes, bpp, whole_rows(bytes.len(), row_bytes))
}

impl PngEncoder {
    /// The compressed scanlines under one filter strategy.
    pub open spec fn candidate(
        &self,
        strategy: FilterStrategy,
        bytes: Seq<u8>,
        row_bytes: int,
        bpp: int,
    ) -> Seq<u8> {
        zlib_stream(
            filtered_rows(strategy, bytes, row_bytes, bpp),
            self.level.spec_strength(self.effort),
        )
    }

    /// The first of the smallest among the first `n` brute-force candidates.
    pub open spec fn best_candidate(&self, bytes: Seq<u8>, row_bytes: int, bpp: int, n: int) -> Seq<
        u8,
    >
        decreases n,
    {
        let last = self.candidate(brute_force_strategy(n - 1), bytes, row_bytes, bpp);
        if n <= 1 {
            last
        } else {
            let before = self.best_candidate(bytes, row_bytes, bpp, n - 1);
            if last.len() < before.len() {
                last
            } else {
                before
            }
        }
    }

    /// The image data stream.
    pub open spec fn idat_stream(&self, bytes: Seq<u8>, row_bytes: int, bpp: int) -> Seq<u8> {
        if self.filter is BruteForce {
            self.best_candidate(bytes, row_bytes, bpp, BRUTE_FORCE_COUNT as int)
        } else {
            self.candidate(self.filter, bytes, row_bytes, bpp)
        }
    }

    /// Whether the image data stream inflates back to the scanlines under some filter strategy.
    pub open spec fn restores(&self, bytes: Seq<u8>, row_bytes: int, bpp: int) -> bool {
        exists|strategy: FilterStrategy| #[trigger]
            inflates_to(
                self.idat_stream(bytes, row_bytes, bpp),
                filtered_rows(strategy, bytes, row_bytes, bpp),
            )
    }

    fn compress_with(
        &self,
        strategy: FilterStrategy,
        sample_bytes: &[u8],
        row_bytes: usize,
        bpp: usize,
    ) -> (idat: Vec<u8>)
        requires
            bpp >= 1,
        ensures
            idat@ == self.candidate(strategy, sample_bytes@, row_bytes as int, bpp as int),
            inflates_to(
                idat@,
                filtered_rows(strategy, sample_bytes@, row_bytes as int, bpp as int),
            ),
    {
        let filtered: Vec<u8> = filter_image(strategy, sample_bytes, row_bytes, bpp);
        zlib_compress(filtered.as_slice(), self.level.strength(self.effort))
    }

    /// Filters and compresses the scanlines into a zlib stream. [`FilterStrategy::BruteForce`]
    /// compresses under every whole-image strategy and keeps the smallest, the earlier one on a
    /// tie; any other strategy is used as it is.
    pub fn compress_scanlines(&self, sample_bytes: &[u8], row_bytes: usize, bpp: usize) -> (idat:
        Vec<u8>)
        requires
            bpp >= 1,
        ensures
            idat@ == self.idat_stream(sample_bytes@, row_bytes as int, bpp as int),
            self.restores(sample_bytes@, row_bytes as int, bpp as int),
    {
        match self.filter {
            FilterStrategy::BruteForce => {
                let mut best: Vec<u8> = self.compress_with(
                    brute_force(0),
                    sample_bytes,
                    row_bytes,
                    bpp,
                );
                let ghost mut chosen: FilterStrategy = brute_force_strategy(0);
                let mut k: usize = 1;
                while k < BRUTE_FORCE_COUNT
                    invariant
                        bpp >= 1,
                        1 <= k <= BRUTE_FORCE_COUNT,
                        best@ == self.best_candidate(
                            sample_bytes@,
                            row_bytes as int,
                            bpp as int,
                            k as int,
                        ),
                        inflates_to(
                            best@,
                            filtered_rows(chosen, sample_bytes@, row_bytes as int, bpp as int),
                        ),
                    decreases BRUTE_FORCE_COUNT - k,
                {
                    let next: Vec<u8> = self.compress_with(
                        brute_force(k),
                        sample_bytes,
                        row_bytes,
                        bpp,
                    );
                    proof {
                        if next@.len() < best@.len() {
                            chosen = brute_force_strategy(k as int);
                        }
                    }
                    best = keep_smaller(best, next);
                    k += 1;
                }
                assert(inflates_to(
                    self.idat_stream(sample_bytes@, row_bytes as int, bpp as int),
                    filtered_rows(chosen, sample_bytes@, row_bytes as int, bpp as int),
                ));
                best
            },
            _ => {
                let idat: Vec<u8> = self.compress_with(self.filter, sample_bytes, row_bytes, bpp);
                assert(inflates_to(
                    self.idat_stream(sample_bytes@, row_bytes as int, bpp as int),
                    filtered_rows(self.filter, sample_bytes@, row_bytes as int, bpp as int),
                ));
                idat
            },
        }
    }

    /// What a file holds before its image data: signature, IHDR, the chunks before PLTE, PLTE and tRNS,
    /// and the remaining ancillary chunks.
    pub open spec fn head_of(&self, file: FileModel) -> Seq<u8> {
        let h = file.header;
        signature() + chunk_bytes(IHDR@, ihdr_payload(h)) + self.ancillary.pre_plte(
            self.effort,
            file.written,
        ) + crate::ancillary::chunk_if(PLTE@, file.plte) + crate::ancillary::chunk_if(
            TRNS@,
            file.trns,
        ) + self.ancillary.post_plte_with(self.effort, file.bkgd)
    }

    /// A finished file around an image data stream: what precedes the image data, the image data and
    /// IEND.
    pub open spec fn file_around(&self, file: FileModel, idat: Seq<u8>) -> Seq<u8> {
        self.head_of(file) + idat_chunks(idat) + chunk_bytes(IEND@, Seq::empty())
    }

    /// The finished file.
    pub open spec fn file_of(&self, file: FileModel) -> Seq<u8> {
        self.file_around(
            file,
            self.idat_stream(
                file.bytes,
                row_len(file.header.width as int, file.header.spec_bits_per_pixel()),
                stride_of(file.header),
            ),
        )
    }

    /// Whether the compressed parts of a file inflate back: the image data to its scanlines, and the
    /// ancillary payloads to what was compressed.
    pub open spec fn file_restores(&self, file: FileModel) -> bool {
        &&& self.restores(
            file.bytes,
            row_len(file.header.width as int, file.header.spec_bits_per_pixel()),
            stride_of(file.header),
        )
        &&& self.ancillary.profile_inflates(self.effort)
        &&& self.ancillary.texts_inflate(self.effort)
    }

    /// Writes what a file holds before its image data.
    pub fn write_head(&self, parts: &FileParts, out: &mut Vec<u8>)
        requires
            !parts.header.interlaced,
        ensures
            final(out)@ == old(out)@ + self.head_of(parts@),
            self.ancillary.profile_inflates(self.effort),
            self.ancillary.texts_inflate(self.effort),
    {
        let ghost begin = out@;
        let ghost file = parts@;
        let header: Ihdr = parts.header;
        append(out, SIGNATURE.as_slice());
        assert(SIGNATURE@ =~= signature());
        let ghost mut acc: Seq<u8> = signature();
        crate::ihdr::write(out, header.width, header.height, header.bit_depth, header.color);
        proof {
            assert(Ihdr { interlaced: false, ..header } == header);
            let part = chunk_bytes(IHDR@, ihdr_payload(header));
            appended(begin, acc, part);
            acc = acc + part;
        }
        self.ancillary.write_pre_plte(out, self.effort, parts.written());
        proof {
            let part = self.ancillary.pre_plte(self.effort, file.written);
            appended(begin, acc, part);
            acc = acc + part;
        }
        write_if(out, PLTE, &parts.plte);
        proof {
            let part = crate::ancillary::chunk_if(PLTE@, file.plte);
            appended(begin, acc, part);
            acc = acc + part;
        }
        write_if(out, TRNS, &parts.trns);
        proof {
            let part = crate::ancillary::chunk_if(TRNS@, file.trns);
            appended(begin, acc, part);
            acc = acc + part;
        }
        self.ancillary.write_post_plte_with(out, self.effort, &parts.bkgd);
        proof {
            let part = self.ancillary.post_plte_with(self.effort, file.bkgd);
            appended(begin, acc, part);
            acc = acc + part;
            assert(acc == self.head_of(file));
        }
    }

    /// Writes a file around an image data stream that is already compressed.
    pub fn write_around(&self, parts: &FileParts, idat: &[u8], out: &mut Vec<u8>) -> (size: usize)
        requires
            !parts.header.interlaced,
        ensures
            final(out)@ == old(out)@ + self.file_around(parts@, idat@),
            size == self.file_around(parts@, idat@).len(),
            self.ancillary.profile_inflates(self.effort),
            self.ancillary.texts_inflate(self.effort),
    {
        let ghost begin = out@;
        let ghost head = self.head_of(parts@);
        let start: usize = out.len();
        self.write_head(parts, out);
        write_idat(out, idat);
        assert(out@ =~= begin + (head + idat_chunks(idat@)));
        let empty: [u8; 0] = [];
        assert(empty@ =~= Seq::<u8>::empty());
        write_chunk(out, IEND, empty.as_slice());
        assert(out@ =~= begin + self.file_around(parts@, idat@));
        out.len() - start
    }

    /// Writes a complete file. Annotations that the format forbids are refused before a byte is
    /// written.
    fn write_png(&self, parts: &FileParts, out: &mut Vec<u8>) -> (size: Result<usize, Error>)
        requires
            parts.wf(),
        ensures
            self.wrote(parts@, size, old(out)@, final(out)@),
    {
        match self.ancillary.validate() {
            Ok(_) => {},
            Err(_) => {
                return Err(Error::new(Cause::RefusedAnnotation));
            },
        }
        let (row_bytes, bpp): (usize, usize) = row_shape(parts.header, parts.bytes.len());
        let idat: Vec<u8> = self.compress_scanlines(parts.bytes.as_slice(), row_bytes, bpp);
        Ok(self.write_around(parts, idat.as_slice(), out))
    }
}

proof fn appended(begin: Seq<u8>, acc: Seq<u8>, part: Seq<u8>)
    ensures
        begin + acc + part == begin + (acc + part),
{
    assert(begin + acc + part =~= begin + (acc + part));
}

/// Bytes per packed row and per filter step of an image whose packed rows are in memory.
pub(crate) fn row_shape(header: Ihdr, len: usize) -> (shape: (usize, usize))
    requires
        header.color.spec_allows(header.bit_depth),
        header.width >= 1,
        header.height >= 1,
        len == header.height * row_len(header.width as int, header.spec_bits_per_pixel()),
    ensures
        shape.0 == row_len(header.width as int, header.spec_bits_per_pixel()),
        shape.1 == stride_of(header),
        shape.1 >= 1,
{
    let bits: u64 = header.color.channels() as u64 * header.bit_depth as u64;
    proof {
        assert(1 <= bits <= 64 && bits == header.spec_bits_per_pixel()) by (nonlinear_arith)
            requires
                bits == header.color.spec_channels() * header.bit_depth,
                1 <= header.color.spec_channels() <= 4,
                1 <= header.bit_depth <= 16,
                header.spec_bits_per_pixel() == header.color.spec_channels() * header.bit_depth,
        ;
        assert(1 <= header.width * bits <= 0xFFFF_FFFF * 64) by (nonlinear_arith)
            requires
                1 <= header.width <= 0xFFFF_FFFF,
                1 <= bits <= 64,
        ;
        let r = row_len(header.width as int, bits as int);
        assert(r <= header.height * r) by (nonlinear_arith)
            requires
                header.height >= 1,
                r >= 0,
        ;
    }
    let row: u64 = (header.width as u64 * bits + 7) / 8;
    let bpp: u64 = if bits < 8 {
        1
    } else {
        bits / 8
    };
    (row as usize, bpp as usize)
}

/// What a file is written from.
pub struct FileModel {
    /// The image header.
    pub header: Ihdr,
    /// The packed rows.
    pub bytes: Seq<u8>,
    /// What the ancillary chunks are written under.
    pub written: WrittenModel,
    /// The PLTE payload.
    pub plte: Option<Seq<u8>>,
    /// The tRNS payload.
    pub trns: Option<Seq<u8>>,
    /// The bKGD payload.
    pub bkgd: Option<Seq<u8>>,
}

/// What a file is written from, in memory.
#[derive(Debug)]
pub struct FileParts {
    /// The image header.
    pub header: Ihdr,
    /// The packed rows.
    pub bytes: Vec<u8>,
    /// The PLTE payload, of an image that is written with a palette.
    pub plte: Option<Vec<u8>>,
    /// The tRNS payload.
    pub trns: Option<Vec<u8>>,
    /// Whose palette it is.
    pub origin: PaletteOrigin,
    /// The bKGD payload.
    pub bkgd: Option<Vec<u8>>,
}

/// The palette that payloads of an image make.
pub open spec fn palette_of(
    plte: Option<Seq<u8>>,
    trns: Option<Seq<u8>>,
    origin: PaletteOrigin,
) -> Option<PaletteModel> {
    match plte {
        Some(plte) => Some(
            PaletteModel {
                plte,
                trns: match trns {
                    Some(t) => t,
                    None => Seq::empty(),
                },
                origin,
            },
        ),
        None => None,
    }
}

impl View for FileParts {
    type V = FileModel;

    open spec fn view(&self) -> FileModel {
        let (plte, trns) = (Ancillary::stored(self.plte), Ancillary::stored(self.trns));
        FileModel {
            header: self.header,
            bytes: self.bytes@,
            written: WrittenModel {
                color: self.header.color,
                bit_depth: self.header.bit_depth,
                palette: palette_of(plte, trns, self.origin),
            },
            plte,
            trns,
            bkgd: Ancillary::stored(self.bkgd),
        }
    }
}

/// A payload that may be missing, borrowed.
fn opt_bytes_of(payload: &Option<Vec<u8>>) -> (bytes: Option<&[u8]>)
    ensures
        crate::parse::opt_slice(bytes) == Ancillary::stored(*payload),
{
    match payload {
        Some(p) => Some(p.as_slice()),
        None => None,
    }
}

impl FileParts {
    /// The rows are as long and as many as the header says, and the file is not interlaced.
    pub open spec fn wf(&self) -> bool {
        &&& self.header.color.spec_allows(self.header.bit_depth)
        &&& !self.header.interlaced
        &&& self.header.width >= 1
        &&& self.header.height >= 1
        &&& self.bytes@.len() == self.header.height * row_len(
            self.header.width as int,
            self.header.spec_bits_per_pixel(),
        )
    }

    /// What the ancillary chunks are written under.
    pub fn written(&self) -> (written: WrittenHeader<'_>)
        ensures
            written@ == self@.written,
    {
        let palette: Option<WrittenPalette<'_>> = match &self.plte {
            Some(plte) => Some(
                WrittenPalette {
                    plte: plte.as_slice(),
                    trns: opt_bytes_of(&self.trns),
                    origin: self.origin,
                },
            ),
            None => None,
        };
        WrittenHeader { color: self.header.color, bit_depth: self.header.bit_depth, palette }
    }
}

fn write_if(out: &mut Vec<u8>, chunk_type: [u8; 4], payload: &Option<Vec<u8>>)
    ensures
        final(out)@ == old(out)@ + crate::ancillary::chunk_if(
            chunk_type@,
            Ancillary::stored(*payload),
        ),
{
    match payload {
        Some(data) => {
            write_chunk(out, chunk_type, data.as_slice());
        },
        None => {
            assert(out@ =~= old(out)@ + Seq::<u8>::empty());
        },
    }
}

/// Packed rows of samples: bit fields below 8 bits, the samples themselves otherwise.
pub open spec fn packed_rows(samples: Seq<u8>, width: int, height: int, depth: u8) -> Seq<u8> {
    if depth < 8 {
        packed(samples, width, height, depth)
    } else {
        samples
    }
}

/// Whether a reduction stores an image of `n` pixels: as many samples as its layout asks for, and
/// codes and indices in range.
pub open spec fn reduced_shape(m: ReducedModel, n: int) -> bool {
    match m {
        ReducedModel::Gray { depth, samples } => (is_sub_byte(depth) || depth == 8) && samples.len()
            == n && (depth < 8 ==> samples_fit(samples, depth)),
        ReducedModel::GrayAlpha8(s) => s.len() == 2 * n,
        ReducedModel::Rgb8(s) => s.len() == 3 * n,
        ReducedModel::Rgba8(s) => s.len() == 4 * n,
        ReducedModel::Gray16Be(s) => s.len() == 2 * n,
        ReducedModel::GrayAlpha16Be(s) => s.len() == 4 * n,
        ReducedModel::Rgb16Be(s) => s.len() == 6 * n,
        ReducedModel::Rgb8Keyed { samples, .. } => samples.len() == 3 * n,
        ReducedModel::GrayKeyed { samples, .. } => samples.len() == n,
        ReducedModel::Indexed { depth, indices, plte, trns } => {
            let entries = plte.len() / 3;
            &&& is_sub_byte(depth) || depth == 8
            &&& indices.len() == n
            &&& depth < 8 ==> samples_fit(indices, depth)
            &&& plte.len() == 3 * entries
            &&& 1 <= entries <= 256
            &&& depth < 8 ==> entries <= radix(depth)
            &&& forall|i: int| 0 <= i < indices.len() ==> (#[trigger] indices[i]) < entries
            &&& trns matches Some(t) ==> t.len() <= entries
        },
    }
}

/// Whether every reduction on offer stores an image of `n` pixels.
pub open spec fn reductions_shape(r: ReductionsModel, n: int) -> bool {
    match r {
        ReductionsModel::Nothing => true,
        ReductionsModel::ChunkFree(m) => reduced_shape(m, n),
        ReductionsModel::Chunked { chunked, chunk_free } => reduced_shape(chunked, n) && (
        chunk_free matches Some(m) ==> reduced_shape(m, n)),
    }
}

proof fn indexed_shape(q: Seq<Quad>)
    requires
        q.len() >= 1,
        discovered(q).len() <= 256,
    ensures
        reduced_shape(indexed_reduction(q), q.len() as int),
{
    let entries = ordered(discovered(q));
    discovered_holds_each_once(q);
    ordered_is_a_sorted_rearrangement(discovered(q));
    crate::palette::trimmed_is_no_longer(quad_alphas(entries));
    assert(q.contains(q[0]));
    assert(entries.contains(q[0]));
    let indices = q.map_values(|c: Quad| entries.index_of(c) as u8);
    assert forall|i: int| 0 <= i < indices.len() implies (#[trigger] indices[i])
        < entries.len() by {
        assert(q.contains(q[i]));
        assert(entries.contains(q[i]));
        assert(0 <= entries.index_of(q[i]) < entries.len());
    }
}

/// Every reduction offered for an 8-bit image stores all of its pixels.
pub proof fn reductions8_shape(q: Seq<Quad>, channels: int)
    requires
        q.len() >= 1,
        1 <= channels <= 4,
        q.len() * channels <= usize::MAX,
    ensures
        reductions_shape(reductions8(q, channels), q.len() as int),
{
    let input = q.len() * channels;
    if best_cost(q, channels) < input {
        if palette_cost(q) == best_cost(q, channels) {
            indexed_shape(q);
        }
        let gray_codes = gray_samples(q, gray_scale(gray_depth_of(q)));
        assert forall|i: int| 0 <= i < q.len() && gray_depth_of(q) < 8 implies (
        #[trigger] gray_codes[i]) < radix(gray_depth_of(q)) by {
            assert(q[i].0 <= 255);
            assert(q[i].0 / 255 <= 1);
            assert(q[i].0 / 85 <= 3);
            assert(q[i].0 / 17 <= 15);
        }
    }
}

/// Every reduction offered for a 16-bit image stores all of its pixels.
pub proof fn reductions16_shape(samples: Seq<u16>, channels: int, n: int)
    requires
        n >= 1,
        1 <= channels <= 4,
        samples.len() == n * channels,
        samples.len() <= usize::MAX,
    ensures
        reductions_shape(reductions16(samples, channels), n),
{
    assert(n * channels / channels == n) by (nonlinear_arith)
        requires
            channels >= 1,
    ;
    if demotable(samples) {
        let d = demoted(samples);
        assert(d.len() == n * channels);
        reductions8_shape(quads(d, channels), channels);
        assert(reduced_shape(plain_demotion(d, channels), n)) by {
            assert(n * 1 == n && n * 2 == 2 * n && n * 3 == 3 * n && n * 4 == 4 * n);
        }
    } else {
        assert(quads16(samples, channels).len() == n);
    }
}

impl PngEncoder {
    /// An image written as it arrived.
    pub open spec fn plain_file(
        &self,
        width: u32,
        height: u32,
        color: ColorType,
        bit_depth: u8,
        bytes: Seq<u8>,
    ) -> FileModel {
        let written = WrittenModel { color, bit_depth, palette: None };
        FileModel {
            header: Ihdr { width, height, bit_depth, color, interlaced: false },
            bytes,
            written,
            plte: None,
            trns: None,
            bkgd: self.ancillary.bkgd_payload(written),
        }
    }

    /// An image written under a reduction. A colour key is a tRNS of 16-bit big-endian samples.
    pub open spec fn reduced_file(&self, width: u32, height: u32, m: ReducedModel) -> FileModel {
        let (w, h) = (width as int, height as int);
        match m {
            ReducedModel::Gray { depth, samples } => self.plain_file(
                width,
                height,
                ColorType::Grayscale,
                depth,
                packed_rows(samples, w, h, depth),
            ),
            ReducedModel::GrayAlpha8(s) => self.plain_file(
                width,
                height,
                ColorType::GrayscaleAlpha,
                8,
                s,
            ),
            ReducedModel::Rgb8(s) => self.plain_file(width, height, ColorType::Truecolor, 8, s),
            ReducedModel::Rgba8(s) => self.plain_file(
                width,
                height,
                ColorType::TruecolorAlpha,
                8,
                s,
            ),
            ReducedModel::Gray16Be(s) => self.plain_file(width, height, ColorType::Grayscale, 16, s),
            ReducedModel::GrayAlpha16Be(s) => self.plain_file(
                width,
                height,
                ColorType::GrayscaleAlpha,
                16,
                s,
            ),
            ReducedModel::Rgb16Be(s) => self.plain_file(width, height, ColorType::Truecolor, 16, s),
            ReducedModel::Rgb8Keyed { samples, key } => FileModel {
                trns: Some(seq![0u8, key.0, 0u8, key.1, 0u8, key.2]),
                ..self.plain_file(width, height, ColorType::Truecolor, 8, samples)
            },
            ReducedModel::GrayKeyed { samples, key } => FileModel {
                trns: Some(seq![0u8, key]),
                ..self.plain_file(width, height, ColorType::Grayscale, 8, samples)
            },
            ReducedModel::Indexed { depth, indices, plte, trns } => {
                let written = WrittenModel {
                    color: ColorType::Indexed,
                    bit_depth: depth,
                    palette: Some(
                        PaletteModel {
                            plte,
                            trns: match trns {
                                Some(t) => t,
                                None => Seq::empty(),
                            },
                            origin: PaletteOrigin::Derived,
                        },
                    ),
                };
                FileModel {
                    header: Ihdr {
                        width,
                        height,
                        bit_depth: depth,
                        color: ColorType::Indexed,
                        interlaced: false,
                    },
                    bytes: packed_rows(indices, w, h, depth),
                    written,
                    plte: Some(plte),
                    trns,
                    bkgd: self.ancillary.bkgd_payload(written),
                }
            },
        }
    }

    /// The smallest of the encodings that reductions make reachable and of the image as it arrived:
    /// a chunk-free reduction wins outright; a chunk-carrying one is measured against its chunk-free
    /// runner-up and the unreduced image, and keeps its place on a tie.
    pub open spec fn raced(
        &self,
        width: u32,
        height: u32,
        plain: FileModel,
        reductions: ReductionsModel,
    ) -> FileModel {
        match reductions {
            ReductionsModel::Nothing => plain,
            ReductionsModel::ChunkFree(m) => self.reduced_file(width, height, m),
            ReductionsModel::Chunked { chunked, chunk_free } => {
                let first = self.reduced_file(width, height, chunked);
                let best = match chunk_free {
                    Some(m) => {
                        let free = self.reduced_file(width, height, m);
                        if self.file_of(free).len() < self.file_of(first).len() {
                            free
                        } else {
                            first
                        }
                    },
                    None => first,
                };
                if self.file_of(plain).len() < self.file_of(best).len() {
                    plain
                } else {
                    best
                }
            },
        }
    }

    /// The parts of an image written as it arrived, with a colour key if it has one.
    pub(crate) fn plain_parts(
        &self,
        width: u32,
        height: u32,
        color: ColorType,
        bit_depth: u8,
        bytes: Vec<u8>,
        trns: Option<Vec<u8>>,
    ) -> (parts: FileParts)
        requires
            color.spec_allows(bit_depth),
            width >= 1,
            height >= 1,
            bytes@.len() == height * row_len(width as int, color.spec_channels() * bit_depth),
        ensures
            parts.wf(),
            parts@ == (FileModel {
                trns: Ancillary::stored(trns),
                ..self.plain_file(width, height, color, bit_depth, bytes@)
            }),
    {
        let bkgd: Option<Vec<u8>> = self.ancillary.bkgd_data(WrittenHeader::new(color, bit_depth));
        FileParts {
            header: Ihdr { width, height, bit_depth, color, interlaced: false },
            bytes,
            plte: None,
            trns,
            origin: PaletteOrigin::Derived,
            bkgd,
        }
    }

    /// What writing a file does: the file is appended, or nothing where an annotation is refused.
    pub open spec fn wrote(
        &self,
        file: FileModel,
        size: Result<usize, Error>,
        before: Seq<u8>,
        after: Seq<u8>,
    ) -> bool {
        if self.ancillary.is_valid() {
            size matches Ok(n) && after == before + self.file_of(file) && n == self.file_of(
                file,
            ).len() && self.file_restores(file)
        } else {
            failed(size, Cause::RefusedAnnotation) && after == before
        }
    }
}

/// Packs one-channel samples into rows: bit fields below 8 bits, the samples themselves otherwise.
fn pack_rows(width: u32, height: u32, depth: u8, samples: Vec<u8>) -> (rows: Vec<u8>)
    requires
        is_sub_byte(depth) || depth == 8,
        width >= 1,
        height >= 1,
        samples@.len() == width * height,
        depth < 8 ==> samples_fit(samples@, depth),
    ensures
        rows@ == packed_rows(samples@, width as int, height as int, depth),
        rows@.len() == height * row_len(width as int, 1 * depth),
{
    proof {
        packed_row_shape(width as int, height as int, depth);
    }
    let len: usize = byte_len(samples.as_slice());
    assert(width <= len) by {
        assert(width <= width * height) by (nonlinear_arith)
            requires
                width >= 1,
                height >= 1,
        ;
    }
    if depth < 8 {
        pack_scanlines(samples.as_slice(), width as usize, height as usize, depth)
    } else {
        samples
    }
}

/// Packed rows have the length the header implies.
pub proof fn packed_row_shape(width: int, height: int, depth: u8)
    requires
        is_sub_byte(depth) || depth == 8,
        width >= 1,
        height >= 1,
    ensures
        depth < 8 ==> row_len(width, 1 * depth) == packed_row_len(width, depth),
        depth < 8 ==> packed_row_len(width, depth) * height == height * row_len(width, 1 * depth),
        depth == 8 ==> height * row_len(width, 1 * depth) == width * height,
        packed_row_len(width, depth) * height >= 0,
{
    assert(width * 1 == width);
    assert(width * 2 == 2 * width);
    assert(width * 4 == 4 * width);
    assert(width * 8 == 8 * width);
    let r = packed_row_len(width, depth);
    assert(r * height == height * r) by (nonlinear_arith);
    assert(r >= 0);
    assert(r * height >= 0) by (nonlinear_arith)
        requires
            r >= 0,
            height >= 0,
    ;
    if depth == 8 {
        assert(row_len(width, 8) == width);
        assert(height * width == width * height) by (nonlinear_arith);
    }
}

/// Rows of whole-byte samples have the length the header implies.
pub proof fn byte_row_shape(width: int, height: int, channels: int, depth: int)
    requires
        depth == 8 || depth == 16,
        1 <= channels <= 4,
        width >= 1,
        height >= 1,
    ensures
        depth == 8 ==> height * row_len(width, channels * depth) == (width * height) * channels,
        depth == 16 ==> height * row_len(width, channels * depth) == 2 * ((width * height)
            * channels),
{
    let n = width * channels;
    assert(width * (channels * 8) == n * 8) by (nonlinear_arith)
        requires
            n == width * channels,
    ;
    assert(width * (channels * 16) == n * 16) by (nonlinear_arith)
        requires
            n == width * channels,
    ;
    assert(height * n == (width * height) * channels) by (nonlinear_arith)
        requires
            n == width * channels,
    ;
    if depth == 8 {
        assert(row_len(width, channels * 8) == n);
    } else {
        assert(row_len(width, channels * 16) == 2 * n);
        assert(height * (2 * n) == (height * n) * 2) by (nonlinear_arith);
    }
}

impl PngEncoder {
    /// The parts of a reduced encoding.
    pub(crate) fn reduced_parts(&self, width: u32, height: u32, reduced: Reduced) -> (parts:
        FileParts)
        requires
            width >= 1,
            height >= 1,
            reduced_shape(reduced@, width * height),
        ensures
            parts.wf(),
            parts@ == self.reduced_file(width, height, reduced@),
    {
        proof {
            byte_row_shape(width as int, height as int, 1, 8);
            byte_row_shape(width as int, height as int, 2, 8);
            byte_row_shape(width as int, height as int, 3, 8);
            byte_row_shape(width as int, height as int, 4, 8);
            byte_row_shape(width as int, height as int, 1, 16);
            byte_row_shape(width as int, height as int, 2, 16);
            byte_row_shape(width as int, height as int, 3, 16);
        }
        match reduced {
            Reduced::Gray { depth, samples } => {
                let rows: Vec<u8> = pack_rows(width, height, depth, samples);
                self.plain_parts(width, height, ColorType::Grayscale, depth, rows, None)
            },
            Reduced::GrayAlpha8(s) => self.plain_parts(
                width,
                height,
                ColorType::GrayscaleAlpha,
                8,
                s,
                None,
            ),
            Reduced::Rgb8(s) => self.plain_parts(width, height, ColorType::Truecolor, 8, s, None),
            Reduced::Rgba8(s) => self.plain_parts(
                width,
                height,
                ColorType::TruecolorAlpha,
                8,
                s,
                None,
            ),
            Reduced::Gray16Be(s) => self.plain_parts(
                width,
                height,
                ColorType::Grayscale,
                16,
                s,
                None,
            ),
            Reduced::GrayAlpha16Be(s) => self.plain_parts(
                width,
                height,
                ColorType::GrayscaleAlpha,
                16,
                s,
                None,
            ),
            Reduced::Rgb16Be(s) => self.plain_parts(
                width,
                height,
                ColorType::Truecolor,
                16,
                s,
                None,
            ),
            Reduced::Rgb8Keyed { samples, key } => {
                let trns: Vec<u8> = vec![0, key[0], 0, key[1], 0, key[2]];
                assert(trns@ =~= seq![0u8, key[0], 0u8, key[1], 0u8, key[2]]);
                self.plain_parts(width, height, ColorType::Truecolor, 8, samples, Some(trns))
            },
            Reduced::GrayKeyed { samples, key } => {
                let trns: Vec<u8> = vec![0, key];
                assert(trns@ =~= seq![0u8, key]);
                self.plain_parts(width, height, ColorType::Grayscale, 8, samples, Some(trns))
            },
            Reduced::Indexed { depth, indices, plte, trns } => {
                let rows: Vec<u8> = pack_rows(width, height, depth, indices);
                let bare: FileParts = FileParts {
                    header: Ihdr {
                        width,
                        height,
                        bit_depth: depth,
                        color: ColorType::Indexed,
                        interlaced: false,
                    },
                    bytes: rows,
                    plte: Some(plte),
                    trns,
                    origin: PaletteOrigin::Derived,
                    bkgd: None,
                };
                let bkgd: Option<Vec<u8>> = self.ancillary.bkgd_data(bare.written());
                FileParts { bkgd, ..bare }
            },
        }
    }

    /// Writes a reduced encoding.
    fn write_reduced(&self, width: u32, height: u32, reduced: Reduced, out: &mut Vec<u8>) -> (size:
        Result<usize, Error>)
        requires
            width >= 1,
            height >= 1,
            reduced_shape(reduced@, width * height),
        ensures
            self.wrote(self.reduced_file(width, height, reduced@), size, old(out)@, final(out)@),
    {
        self.write_png(&self.reduced_parts(width, height, reduced), out)
    }

    /// Writes the smallest of the encodings the analysis made reachable: the reduction it ranked
    /// first, the best reduction that adds no chunk, and the image encoded untouched.
    fn write_reduced_or_native(
        &self,
        width: u32,
        height: u32,
        color: ColorType,
        bit_depth: u8,
        bytes: Vec<u8>,
        reductions: Reductions,
        out: &mut Vec<u8>,
    ) -> (size: Result<usize, Error>)
        requires
            color.spec_allows(bit_depth),
            width >= 1,
            height >= 1,
            bytes@.len() == height * row_len(width as int, color.spec_channels() * bit_depth),
            reductions_shape(reductions@, width * height),
        ensures
            self.wrote(
                self.raced(
                    width,
                    height,
                    self.plain_file(width, height, color, bit_depth, bytes@),
                    reductions@,
                ),
                size,
                old(out)@,
                final(out)@,
            ),
    {
        let ghost plain = self.plain_file(width, height, color, bit_depth, bytes@);
        let native_parts: FileParts = self.plain_parts(
            width,
            height,
            color,
            bit_depth,
            bytes,
            None,
        );
        let (chunked, chunk_free): (Reduced, Option<Reduced>) = match reductions {
            Reductions::Nothing => {
                return self.write_png(&native_parts, out);
            },
            Reductions::ChunkFree(reduced) => {
                return self.write_reduced(width, height, reduced, out);
            },
            Reductions::Chunked { chunked, chunk_free } => (chunked, chunk_free),
        };
        let ghost mut chosen: FileModel = self.reduced_file(width, height, chunked@);
        let mut best: Vec<u8> = Vec::new();
        match self.write_reduced(width, height, chunked, &mut best) {
            Ok(_) => {},
            Err(e) => {
                return Err(e);
            },
        }
        assert(best@ =~= self.file_of(chosen));
        if let Some(free) = chunk_free {
            let ghost freed = self.reduced_file(width, height, free@);
            let mut encoding: Vec<u8> = Vec::new();
            match self.write_reduced(width, height, free, &mut encoding) {
                Ok(_) => {},
                Err(e) => {
                    return Err(e);
                },
            }
            assert(encoding@ =~= self.file_of(freed));
            if prefers_chunk_free(encoding.len(), best.len()) {
                best = encoding;
                proof {
                    chosen = freed;
                }
            }
        }
        let mut native: Vec<u8> = Vec::new();
        match self.write_png(&native_parts, &mut native) {
            Ok(_) => {},
            Err(e) => {
                return Err(e);
            },
        }
        assert(native@ =~= self.file_of(plain));
        if prefers_native(native.len(), best.len()) {
            append(out, native.as_slice());
            Ok(native.len())
        } else {
            append(out, best.as_slice());
            Ok(best.len())
        }
    }
}

/// Zeroes the colour samples of every fully transparent pixel of a 16-bit interleaved image,
/// returning `None` when there is nothing to do. A pixel is invisible only when its whole alpha
/// sample is zero, and all sixteen bits of its colour samples are cleared.
pub fn clean_transparent16(samples: &[u16], channels: usize) -> (cleaned: Option<Vec<u16>>)
    requires
        1 <= channels <= 4,
    ensures
        cleaned is Some <==> has_invisible_pixel(ints16(samples@), channels as int),
        cleaned matches Some(c) ==> c@ == cleaned16(samples@, channels as int),
{
    if channels % 2 != 0 {
        return None;
    }
    let ghost all = ints16(samples@);
    let ghost want = cleaned16(samples@, channels as int);
    let colour: usize = channels - 1;
    let count: usize = samples.len() / channels;
    let mut out: Vec<u16> = Vec::new();
    let mut found: bool = false;
    let mut i: usize = 0;
    assert(0 * channels == 0);
    assert(out@ =~= want.subrange(0, 0));
    while i < count
        invariant
            1 <= channels <= 4,
            channels % 2 == 0,
            colour == channels - 1,
            all == ints16(samples@),
            want == cleaned16(samples@, channels as int),
            count == samples@.len() as int / channels as int,
            i <= count,
            out@ == want.subrange(0, i * channels),
            found <==> exists|j: int| 0 <= j < i && #[trigger] invisible(all, channels as int, j),
        decreases count - i,
    {
        proof {
            pixel_inside(samples.len() as int, channels as int, i as int);
        }
        let from: usize = i * channels;
        let hidden: bool = samples[from + colour] == 0;
        assert(all[from + colour] == samples@[from + colour]);
        assert(hidden == invisible(all, channels as int, i as int));
        let mut k: usize = 0;
        while k < channels
            invariant
                1 <= channels <= 4,
                colour == channels - 1,
                all == ints16(samples@),
                want == cleaned16(samples@, channels as int),
                count == samples@.len() as int / channels as int,
                i < count,
                from == i * channels,
                from + channels <= samples.len(),
                hidden == invisible(all, channels as int, i as int),
                k <= channels,
                out@ == want.subrange(0, from + k),
            decreases channels - k,
        {
            proof {
                pixel_position(i as int, channels as int, k as int);
            }
            let value: u16 = if hidden && k < colour {
                0
            } else {
                samples[from + k]
            };
            assert(all[from + k] == samples@[from + k]);
            assert(want[from + k] == value);
            out.push(value);
            k += 1;
            assert(out@ =~= want.subrange(0, from + k));
        }
        if hidden {
            found = true;
        }
        i += 1;
    }
    if !found {
        return None;
    }
    proof {
        vstd::arithmetic::div_mod::lemma_fundamental_div_mod(
            samples@.len() as int,
            channels as int,
        );
        assert(count * channels == channels * (samples@.len() as int / channels as int))
            by (nonlinear_arith)
            requires
                count == samples@.len() as int / channels as int,
        ;
    }
    let mut j: usize = count * channels;
    while j < samples.len()
        invariant
            1 <= channels <= 4,
            all == ints16(samples@),
            want == cleaned16(samples@, channels as int),
            count == samples@.len() as int / channels as int,
            count * channels <= j <= samples@.len(),
            out@ == want.subrange(0, j as int),
        decreases samples@.len() - j,
    {
        proof {
            vstd::arithmetic::div_mod::lemma_fundamental_div_mod(j as int, channels as int);
            assert(j as int / channels as int >= count) by (nonlinear_arith)
                requires
                    j == channels * (j as int / channels as int) + j as int % channels as int,
                    0 <= j as int % (channels as int) < channels,
                    count * channels <= j,
                    channels >= 1,
            ;
            assert(all[j as int] == samples@[j as int]);
        }
        out.push(samples[j]);
        j += 1;
        assert(out@ =~= want.subrange(0, j as int));
    }
    assert(out@ =~= want);
    Some(out)
}

/// 16-bit samples with the colour of every fully transparent pixel cleared.
pub open spec fn cleaned16(samples: Seq<u16>, channels: int) -> Seq<u16> {
    Seq::new(
        samples.len(),
        |i: int| without_hidden_color(ints16(samples), channels)[i] as u16,
    )
}

/// 8-bit samples with the colour of every fully transparent pixel cleared.
pub open spec fn cleaned8(samples: Seq<u8>, channels: int) -> Seq<u8> {
    Seq::new(samples.len(), |i: int| without_hidden_color(ints8(samples), channels)[i] as u8)
}

/// Bytes that are the cleaned samples as integers are the cleaned bytes.
pub(crate) proof fn cleaned_bytes(samples: Seq<u8>, channels: int, cleaned: Seq<u8>)
    requires
        ints8(cleaned) == without_hidden_color(ints8(samples), channels),
    ensures
        cleaned == cleaned8(samples, channels),
{
    assert(ints8(cleaned).len() == cleaned.len());
    assert forall|i: int| 0 <= i < cleaned.len() implies cleaned[i] == cleaned8(samples, channels)[i] by {
        assert(ints8(cleaned)[i] == cleaned[i]);
    }
    assert(cleaned =~= cleaned8(samples, channels));
}

/// The colour type of a layout.
pub open spec fn color_of(format: PixelFormat) -> ColorType {
    match format {
        PixelFormat::Bilevel | PixelFormat::Gray8 | PixelFormat::Gray16 => ColorType::Grayscale,
        PixelFormat::GrayAlpha8 | PixelFormat::GrayAlpha16 => ColorType::GrayscaleAlpha,
        PixelFormat::Rgb8 | PixelFormat::Rgb16 => ColorType::Truecolor,
        PixelFormat::Rgba8 | PixelFormat::Rgba16 => ColorType::TruecolorAlpha,
        PixelFormat::Indexed8 => ColorType::Indexed,
    }
}

pub(crate) fn color_for(format: PixelFormat) -> (color: ColorType)
    ensures
        color == color_of(format),
{
    match format {
        PixelFormat::Bilevel | PixelFormat::Gray8 | PixelFormat::Gray16 => ColorType::Grayscale,
        PixelFormat::GrayAlpha8 | PixelFormat::GrayAlpha16 => ColorType::GrayscaleAlpha,
        PixelFormat::Rgb8 | PixelFormat::Rgb16 => ColorType::Truecolor,
        PixelFormat::Rgba8 | PixelFormat::Rgba16 => ColorType::TruecolorAlpha,
        PixelFormat::Indexed8 => ColorType::Indexed,
    }
}

/// Bilevel samples as codes: zero is black, anything else white.
pub open spec fn bilevel_codes(samples: Seq<u8>) -> Seq<u8> {
    samples.map_values(
        |v: u8|
            if v != 0 {
                1u8
            } else {
                0u8
            },
    )
}

fn to_codes(samples: &[u8]) -> (codes: Vec<u8>)
    ensures
        codes@ == bilevel_codes(samples@),
        samples_fit(codes@, 1),
{
    let mut codes: Vec<u8> = Vec::new();
    let mut i: usize = 0;
    while i < samples.len()
        invariant
            i <= samples@.len(),
            codes@ == bilevel_codes(samples@).subrange(0, i as int),
            samples_fit(codes@, 1),
        decreases samples@.len() - i,
    {
        let code: u8 = if samples[i] != 0 {
            1
        } else {
            0
        };
        let ghost before = codes@;
        codes.push(code);
        i += 1;
        assert(codes@ =~= bilevel_codes(samples@).subrange(0, i as int));
        assert(samples_fit(before.push(code), 1));
    }
    assert(codes@ =~= bilevel_codes(samples@));
    codes
}

/// A copy of some bytes.
pub(crate) fn copied(bytes: &[u8]) -> (copy: Vec<u8>)
    ensures
        copy@ == bytes@,
{
    let mut copy: Vec<u8> = Vec::new();
    append(&mut copy, bytes);
    assert(copy@ =~= bytes@);
    copy
}

impl PngEncoder {
    /// The parts of a bilevel image: one bit for each pixel.
    pub(crate) fn bilevel_parts(&self, width: u32, height: u32, samples: &[u8]) -> (parts: FileParts)
        requires
            width >= 1,
            height >= 1,
            samples@.len() == width * height,
        ensures
            parts.wf(),
            parts@ == self.plain_file(
                width,
                height,
                ColorType::Grayscale,
                1,
                packed(bilevel_codes(samples@), width as int, height as int, 1),
            ),
    {
        let rows: Vec<u8> = pack_rows(width, height, 1, to_codes(samples));
        self.plain_parts(width, height, ColorType::Grayscale, 1, rows, None)
    }

    /// The file of 8-bit samples in a layout: the auto-reduce race if it applies, the plain layout
    /// otherwise.
    pub open spec fn layout8(
        &self,
        width: u32,
        height: u32,
        format: PixelFormat,
        samples: Seq<u8>,
    ) -> FileModel {
        let plain = self.plain_file(width, height, color_of(format), 8, samples);
        let channels = format.spec_channels();
        if self.auto_reduce {
            self.raced(width, height, plain, reductions8(quads(samples, channels), channels))
        } else {
            plain
        }
    }

    /// The file of 16-bit samples in a layout.
    pub open spec fn layout16(
        &self,
        width: u32,
        height: u32,
        format: PixelFormat,
        samples: Seq<u16>,
    ) -> FileModel {
        let plain = self.plain_file(width, height, color_of(format), 16, be_bytes_of(samples));
        if self.auto_reduce {
            self.raced(width, height, plain, reductions16(samples, format.spec_channels()))
        } else {
            plain
        }
    }

    /// The smaller of the plain and the cleaned encoding, the plain one on a tie.
    pub open spec fn cleaned_or_plain_of(&self, cleaned: FileModel, plain: FileModel) -> FileModel {
        if self.file_of(plain).len() <= self.file_of(cleaned).len() {
            plain
        } else {
            cleaned
        }
    }

    /// What 8-bit samples in a layout are encoded as: with hidden colour cleaned where that makes a
    /// smaller file.
    pub open spec fn samples_file8(
        &self,
        width: u32,
        height: u32,
        format: PixelFormat,
        samples: Seq<u8>,
    ) -> FileModel {
        let channels = format.spec_channels();
        if self.clean_transparent && has_invisible_pixel(ints8(samples), channels) {
            self.cleaned_or_plain_of(
                self.layout8(width, height, format, cleaned8(samples, channels)),
                self.layout8(width, height, format, samples),
            )
        } else {
            self.layout8(width, height, format, samples)
        }
    }

    /// What 16-bit samples in a layout are encoded as: with hidden colour cleaned where that makes a
    /// smaller file.
    pub open spec fn samples_file16(
        &self,
        width: u32,
        height: u32,
        format: PixelFormat,
        samples: Seq<u16>,
    ) -> FileModel {
        let channels = format.spec_channels();
        if self.clean_transparent && has_invisible_pixel(ints16(samples), channels) {
            self.cleaned_or_plain_of(
                self.layout16(width, height, format, cleaned16(samples, channels)),
                self.layout16(width, height, format, samples),
            )
        } else {
            self.layout16(width, height, format, samples)
        }
    }

    /// What an image is encoded as.
    pub open spec fn encoded(&self, image: ImageRef<'_>) -> FileModel {
        let (w, h, format) = (image.spec_width(), image.spec_height(), image.spec_format());
        match image.spec_samples() {
            SampleSlice::B8(s) => if format is Bilevel {
                self.plain_file(
                    w,
                    h,
                    ColorType::Grayscale,
                    1,
                    packed(bilevel_codes(s@), w as int, h as int, 1),
                )
            } else {
                self.samples_file8(w, h, format, s@)
            },
            SampleSlice::B16(s) => self.samples_file16(w, h, format, s@),
        }
    }

    fn encode_8bit(
        &self,
        width: u32,
        height: u32,
        format: PixelFormat,
        samples: &[u8],
        out: &mut Vec<u8>,
    ) -> (size: Result<usize, Error>)
        requires
            width >= 1,
            height >= 1,
            !format.spec_is_wide(),
            !(format is Bilevel),
            !(format is Indexed8),
            fills(samples@.len(), format, width, height),
        ensures
            self.wrote(self.layout8(width, height, format, samples@), size, old(out)@, final(out)@),
    {
        let channels: usize = format.channels();
        let color: ColorType = color_for(format);
        let bytes: Vec<u8> = copied(samples);
        assert(bytes.len() == samples@.len());
        proof {
            byte_row_shape(width as int, height as int, channels as int, 8);
            pixel_count(width as int, height as int, channels as int);
        }
        if self.auto_reduce {
            let reductions: Reductions = analyze8(samples, channels);
            proof {
                reductions8_shape(quads(samples@, channels as int), channels as int);
            }
            self.write_reduced_or_native(width, height, color, 8, bytes, reductions, out)
        } else {
            self.write_png(&self.plain_parts(width, height, color, 8, bytes, None), out)
        }
    }

    fn encode_16bit(
        &self,
        width: u32,
        height: u32,
        format: PixelFormat,
        samples: &[u16],
        out: &mut Vec<u8>,
    ) -> (size: Result<usize, Error>)
        requires
            width >= 1,
            height >= 1,
            format.spec_is_wide(),
            fills(samples@.len(), format, width, height),
        ensures
            self.wrote(self.layout16(width, height, format, samples@), size, old(out)@, final(out)@),
    {
        let channels: usize = format.channels();
        let color: ColorType = color_for(format);
        let count: usize = samples.len();
        let bytes: Vec<u8> = be_bytes(samples);
        proof {
            byte_row_shape(width as int, height as int, channels as int, 16);
            pixel_count(width as int, height as int, channels as int);
        }
        if self.auto_reduce {
            let reductions: Reductions = analyze16(samples, channels);
            proof {
                reductions16_shape(samples@, channels as int, width * height);
            }
            self.write_reduced_or_native(width, height, color, 16, bytes, reductions, out)
        } else {
            self.write_png(&self.plain_parts(width, height, color, 16, bytes, None), out)
        }
    }

    /// Appends the smaller of two finished encodings, the plain one on a tie.
    fn cleaned_or_plain(
        &self,
        cleaned: &Vec<u8>,
        plain: &Vec<u8>,
        out: &mut Vec<u8>,
    ) -> (size: usize)
        ensures
            ({
                let winner = if plain@.len() <= cleaned@.len() {
                    plain@
                } else {
                    cleaned@
                };
                final(out)@ == old(out)@ + winner && size == winner.len()
            }),
    {
        if prefers_plain(plain.len(), cleaned.len()) {
            append(out, plain.as_slice());
            plain.len()
        } else {
            append(out, cleaned.as_slice());
            cleaned.len()
        }
    }

    /// Encodes 8-bit samples in a layout, with and without hidden colour where it is to be cleaned.
    fn encode_samples8(
        &self,
        width: u32,
        height: u32,
        format: PixelFormat,
        samples: &[u8],
        out: &mut Vec<u8>,
    ) -> (size: Result<usize, Error>)
        requires
            width >= 1,
            height >= 1,
            !format.spec_is_wide(),
            !(format is Bilevel),
            !(format is Indexed8),
            fills(samples@.len(), format, width, height),
        ensures
            self.wrote(self.samples_file8(width, height, format, samples@), size, old(out)@, final(out)@),
    {
        let channels: usize = format.channels();
        if !self.clean_transparent {
            return self.encode_8bit(width, height, format, samples, out);
        }
        let cleaned: Vec<u8> = match clean_transparent(samples, channels) {
            Some(cleaned) => cleaned,
            None => {
                return self.encode_8bit(width, height, format, samples, out);
            },
        };
        proof {
            cleaned_bytes(samples@, channels as int, cleaned@);
        }
        let mut first: Vec<u8> = Vec::new();
        match self.encode_8bit(width, height, format, cleaned.as_slice(), &mut first) {
            Ok(_) => {},
            Err(e) => {
                return Err(e);
            },
        }
        let mut second: Vec<u8> = Vec::new();
        match self.encode_8bit(width, height, format, samples, &mut second) {
            Ok(_) => {},
            Err(e) => {
                return Err(e);
            },
        }
        assert(first@ =~= self.file_of(self.layout8(width, height, format, cleaned@)));
        assert(second@ =~= self.file_of(self.layout8(width, height, format, samples@)));
        Ok(self.cleaned_or_plain(&first, &second, out))
    }

    /// Encodes 16-bit samples in a layout, with and without hidden colour where it is to be cleaned.
    fn encode_samples16(
        &self,
        width: u32,
        height: u32,
        format: PixelFormat,
        samples: &[u16],
        out: &mut Vec<u8>,
    ) -> (size: Result<usize, Error>)
        requires
            width >= 1,
            height >= 1,
            format.spec_is_wide(),
            fills(samples@.len(), format, width, height),
        ensures
            self.wrote(
                self.samples_file16(width, height, format, samples@),
                size,
                old(out)@,
                final(out)@,
            ),
    {
        let channels: usize = format.channels();
        if !self.clean_transparent {
            return self.encode_16bit(width, height, format, samples, out);
        }
        let cleaned: Vec<u16> = match clean_transparent16(samples, channels) {
            Some(cleaned) => cleaned,
            None => {
                return self.encode_16bit(width, height, format, samples, out);
            },
        };
        let mut first: Vec<u8> = Vec::new();
        match self.encode_16bit(width, height, format, cleaned.as_slice(), &mut first) {
            Ok(_) => {},
            Err(e) => {
                return Err(e);
            },
        }
        let mut second: Vec<u8> = Vec::new();
        match self.encode_16bit(width, height, format, samples, &mut second) {
            Ok(_) => {},
            Err(e) => {
                return Err(e);
            },
        }
        assert(first@ =~= self.file_of(self.layout16(width, height, format, cleaned@)));
        assert(second@ =~= self.file_of(self.layout16(width, height, format, samples@)));
        Ok(self.cleaned_or_plain(&first, &second, out))
    }

    /// Encodes an image, appending the file to `out`, and returns the number of bytes appended.
    ///
    /// Refused, with nothing appended, where an annotation must not be written: see
    /// [`PngEncoder::refusal`].
    pub fn encode_image(&self, image: &ImageRef<'_>, out: &mut Vec<u8>) -> (size: Result<
        usize,
        Error,
    >)
        requires
            image.wf(),
            !(image.spec_format() is Indexed8),
        ensures
            self.wrote(self.encoded(*image), size, old(out)@, final(out)@),
    {
        let (width, height, format): (u32, u32, PixelFormat) = (
            image.width(),
            image.height(),
            image.format(),
        );
        match image.samples() {
            SampleSlice::B8(samples) => {
                if let PixelFormat::Bilevel = format {
                    assert(width * height * 1 == width * height);
                    return self.write_png(&self.bilevel_parts(width, height, samples), out);
                }
                self.encode_samples8(width, height, format, samples, out)
            },
            SampleSlice::B16(samples) => self.encode_samples16(width, height, format, samples, out),
        }
    }

    /// Encodes an image into a new buffer.
    pub fn encode_to_vec(&self, image: &ImageRef<'_>) -> (png: Result<Vec<u8>, Error>)
        requires
            image.wf(),
            !(image.spec_format() is Indexed8),
        ensures
            if self.ancillary.is_valid() {
                png matches Ok(v) && v@ == self.file_of(self.encoded(*image))
                    && self.file_restores(self.encoded(*image))
            } else {
                failed(png, Cause::RefusedAnnotation)
            },
    {
        let mut out: Vec<u8> = Vec::new();
        match self.encode_image(image, &mut out) {
            Ok(_) => {
                assert(out@ =~= self.file_of(self.encoded(*image)));
                Ok(out)
            },
            Err(e) => Err(e),
        }
    }
}

pub proof fn pixel_count(width: int, height: int, channels: int)
    requires
        width >= 1,
        height >= 1,
        channels >= 1,
    ensures
        width * height * channels / channels == width * height,
        width * height >= 1,
{
    assert(width * height >= 1) by (nonlinear_arith)
        requires
            width >= 1,
            height >= 1,
    ;
    let n = width * height;
    assert(n * channels / channels == n) by (nonlinear_arith)
        requires
            channels >= 1,
    ;
}

/// The entries that pixels and the background name.
pub open spec fn named_entries(indices: Seq<u8>, background: Option<u8>) -> Seq<bool> {
    Seq::new(256, |i: int| indices.contains(i as u8) || background == Some(i as u8))
}

/// The colours of palette entries.
pub open spec fn entry_colors(entries: Seq<Entry>) -> Seq<[u8; 3]> {
    entries.map_values(|e: Entry| e.0)
}

/// The place of entry `i` in a cleaned palette.
pub open spec fn new_index(entries: Seq<Entry>, kept: Seq<Entry>, i: int) -> u8 {
    kept.index_of(entries[i]) as u8
}

impl PngEncoder {
    /// The entry of a supplied palette that the background names.
    pub open spec fn background_entry(&self, palette: PngPalette) -> Option<u8> {
        match self.ancillary.bkgd {
            None => None,
            Some(bkgd) => match background_for(
                bkgd@,
                WrittenModel {
                    color: ColorType::Indexed,
                    bit_depth: 8,
                    palette: Some(
                        PaletteModel {
                            plte: flat_rgb(palette.colors()),
                            trns: match trns_payload(palette.alphas()) {
                                Some(alphas) => alphas,
                                None => Seq::empty(),
                            },
                            origin: PaletteOrigin::Caller,
                        },
                    ),
                },
            ) {
                Some(payload) => Some(payload[0]),
                None => None,
            },
        }
    }

    /// The palette an indexed image is written with: the entries that pixels or the background name,
    /// each colour and alpha once, in the order they were supplied.
    pub open spec fn written_entries(&self, indices: Seq<u8>, palette: PngPalette) -> Seq<Entry> {
        kept_entries(
            palette.entries(),
            named_entries(indices, self.background_entry(palette)),
            palette.entries().len() as int,
        )
    }

    /// What an indexed image is written as: a cleaned palette, indices and background renumbered to
    /// match, at the smallest bit depth that addresses the entries.
    pub open spec fn indexed_file(
        &self,
        width: u32,
        height: u32,
        indices: Seq<u8>,
        palette: PngPalette,
    ) -> FileModel {
        let entries = palette.entries();
        let kept = self.written_entries(indices, palette);
        let depth = index_depth(kept.len());
        let alphas = trimmed(entry_alphas(kept));
        let plte = flat_rgb(entry_colors(kept));
        FileModel {
            header: Ihdr {
                width,
                height,
                bit_depth: depth,
                color: ColorType::Indexed,
                interlaced: false,
            },
            bytes: packed_rows(
                indices.map_values(|i: u8| new_index(entries, kept, i as int)),
                width as int,
                height as int,
                depth,
            ),
            written: WrittenModel {
                color: ColorType::Indexed,
                bit_depth: depth,
                palette: Some(PaletteModel { plte, trns: alphas, origin: PaletteOrigin::Caller }),
            },
            plte: Some(plte),
            trns: if alphas.len() == 0 {
                None
            } else {
                Some(alphas)
            },
            bkgd: match self.background_entry(palette) {
                Some(i) => Some(seq![new_index(entries, kept, i as int)]),
                None => None,
            },
        }
    }

    fn background_index(&self, palette: &PngPalette) -> (index: Option<u8>)
        requires
            palette.wf(),
        ensures
            index == self.background_entry(*palette),
            index matches Some(i) ==> i < palette.colors().len(),
    {
        match &self.ancillary.bkgd {
            None => None,
            Some(bkgd) => {
                let plte: Vec<u8> = palette.plte();
                let written: WrittenHeader<'_> = WrittenHeader {
                    color: ColorType::Indexed,
                    bit_depth: 8,
                    palette: Some(
                        WrittenPalette {
                            plte: plte.as_slice(),
                            trns: palette.trns(),
                            origin: PaletteOrigin::Caller,
                        },
                    ),
                };
                proof {
                    assert(crate::parse::opt_slice(written.palette->0.trns) == trns_payload(
                        palette.alphas(),
                    ));
                    assert(plte@.len() / 3 == palette.colors().len());
                    written_background_is_readable(bkgd@, written@);
                }
                match bkgd_for(bkgd.as_slice(), written) {
                    Some(payload) => Some(payload[0]),
                    None => None,
                }
            },
        }
    }

    /// Encodes an 8-bit indexed image, appending the file to `out`, and returns the number of bytes
    /// appended.
    ///
    /// The palette is cleaned before it is written, silently and losslessly: an entry nothing in the
    /// file names is dropped, a second entry with the colour and alpha of an earlier one is merged
    /// into it, and the image's indices are renumbered to match. The background names an entry in
    /// whichever form it was set, and keeps naming it.
    pub fn encode_indexed8(
        &self,
        image: &ImageRef<'_>,
        palette: &PngPalette,
        out: &mut Vec<u8>,
    ) -> (size: Result<usize, Error>)
        requires
            image.wf(),
            image.spec_format() is Indexed8,
            palette.wf(),
        ensures
            if crate::decoder::indices_in_range(image.values(), palette.colors().len()) {
                self.wrote(
                    self.indexed_file(
                        image.spec_width(),
                        image.spec_height(),
                        image.spec_samples()->B8_0@,
                        *palette,
                    ),
                    size,
                    old(out)@,
                    final(out)@,
                )
            } else {
                failed(size, Cause::IndexOutOfRange) && final(out)@ == old(out)@
            },
    {
        match self.indexed_parts(image, palette) {
            Ok(parts) => self.write_png(&parts, out),
            Err(e) => Err(e),
        }
    }

    /// The parts of an 8-bit indexed image: the cleaned palette, and the indices and the background
    /// renumbered to match.
    pub(crate) fn indexed_parts(&self, image: &ImageRef<'_>, palette: &PngPalette) -> (parts: Result<
        FileParts,
        Error,
    >)
        requires
            image.wf(),
            image.spec_format() is Indexed8,
            palette.wf(),
        ensures
            if crate::decoder::indices_in_range(image.values(), palette.colors().len()) {
                parts matches Ok(p) && p.wf() && p@ == self.indexed_file(
                    image.spec_width(),
                    image.spec_height(),
                    image.spec_samples()->B8_0@,
                    *palette,
                )
            } else {
                failed(parts, Cause::IndexOutOfRange)
            },
    {
        let (width, height): (u32, u32) = (image.width(), image.height());
        let indices: &[u8] = match image.samples() {
            SampleSlice::B8(s) => s,
            SampleSlice::B16(_) => {
                return Err(Error::new(Cause::IndexOutOfRange));
            },
        };
        let n: usize = palette.len();
        let mut used: [bool; 256] = [false; 256];
        let mut i: usize = 0;
        while i < indices.len()
            invariant
                i <= indices@.len(),
                n == palette.colors().len(),
                n <= 256,
                image.values() == widened(indices@),
                forall|j: int| 0 <= j < i ==> (#[trigger] indices@[j]) < n,
                forall|j: int| 0 <= j < i ==> used@[#[trigger] indices@[j] as int],
                forall|k: int|
                    0 <= k < 256 && #[trigger] used@[k] ==> indices@.contains(k as u8),
            decreases indices@.len() - i,
        {
            let index: u8 = indices[i];
            if index as usize >= n {
                assert(image.values()[i as int] == index);
                return Err(Error::new(Cause::IndexOutOfRange));
            }
            assert(indices@.contains(index));
            used[index as usize] = true;
            i += 1;
        }
        let background: Option<u8> = self.background_index(palette);
        if let Some(index) = background {
            used[index as usize] = true;
        }
        let ghost entries = palette.entries();
        let ghost named = named_entries(indices@, background);
        let ghost kept = self.written_entries(indices@, *palette);
        proof {
            assert forall|k: int| 0 <= k < 256 implies #[trigger] used@[k] == named[k] by {
                if indices@.contains(k as u8) {
                    let j = choose|j: int| 0 <= j < indices@.len() && indices@[j] == k as u8;
                    assert(used@[indices@[j] as int]);
                }
            }
            assert(used@ =~= named);
            assert forall|j: int| 0 <= j < image.values().len() implies (#[trigger] image.values()[j])
                < n by {
                assert(image.values()[j] == indices@[j]);
            }
            assert(width * height >= 1) by (nonlinear_arith)
                requires
                    width >= 1,
                    height >= 1,
            ;
            assert(width * height * 1 == width * height);
            assert(used@[indices@[0] as int]);
        }
        let (cleaned, remap): (PngPalette, [u8; 256]) = palette.cleaned(&used);
        let mut renumbered: Vec<u8> = Vec::new();
        let ghost want = indices@.map_values(|i: u8| new_index(entries, kept, i as int));
        let mut j: usize = 0;
        while j < indices.len()
            invariant
                j <= indices@.len(),
                n == palette.colors().len(),
                entries == palette.entries(),
                kept.no_duplicates(),
                kept.len() <= 256,
                want == indices@.map_values(|i: u8| new_index(entries, kept, i as int)),
                forall|j: int| 0 <= j < indices@.len() ==> (#[trigger] indices@[j]) < n,
                forall|j: int| 0 <= j < indices@.len() ==> used@[#[trigger] indices@[j] as int],
                forall|i: int|
                    0 <= i < 256 ==> if i < entries.len() && used@[i] {
                        remap@[i] < kept.len() && kept[remap@[i] as int] == entries[i]
                    } else {
                        #[trigger] remap@[i] == 0
                    },
                renumbered@ == want.subrange(0, j as int),
                forall|k: int| 0 <= k < j ==> (#[trigger] renumbered@[k]) < kept.len(),
            decreases indices@.len() - j,
        {
            let index: u8 = indices[j];
            let target: u8 = remap[index as usize];
            proof {
                assert(used@[indices@[j as int] as int]);
                place_is_unique(kept, entries[index as int], target as int);
            }
            renumbered.push(target);
            j += 1;
            assert(renumbered@ =~= want.subrange(0, j as int));
        }
        assert(renumbered@ =~= want);
        let depth: u8 = index_bit_depth(cleaned.len());
        let plte: Vec<u8> = cleaned.plte();
        let trns: Option<Vec<u8>> = match cleaned.trns() {
            Some(alphas) => Some(copied(alphas)),
            None => None,
        };
        let bkgd: Option<Vec<u8>> = match background {
            Some(index) => Some(vec![remap[index as usize]]),
            None => None,
        };
        proof {
            assert(cleaned.entries() == kept);
            assert(cleaned.colors() =~= entry_colors(kept)) by {
                assert forall|k: int| 0 <= k < kept.len() implies cleaned.colors()[k]
                    == entry_colors(kept)[k] by {
                    assert(cleaned.entries()[k].0 == cleaned.colors()[k]);
                }
            }
            if let Some(index) = background {
                assert(named[index as int]);
                assert(used@[index as int]);
                place_is_unique(kept, entries[index as int], remap@[index as int] as int);
                assert(bkgd->0@ =~= seq![new_index(entries, kept, index as int)]);
            }
            trimmed_payload(entry_alphas(kept));
            assert(cleaned.alphas() == trimmed(entry_alphas(kept)));
            assert(Ancillary::stored(trns) == trns_payload(cleaned.alphas()));
            assert(samples_fit(renumbered@, depth) || depth == 8);
        }
        let rows: Vec<u8> = pack_rows(width, height, depth, renumbered);
        let parts: FileParts = FileParts {
            header: Ihdr {
                width,
                height,
                bit_depth: depth,
                color: ColorType::Indexed,
                interlaced: false,
            },
            bytes: rows,
            plte: Some(plte),
            trns,
            origin: PaletteOrigin::Caller,
            bkgd,
        };
        proof {
            let file = self.indexed_file(width, height, indices@, *palette);
            assert(parts@.written.palette->0.trns =~= cleaned.alphas());
            assert(parts@.written == file.written);
            assert(parts@ == file);
        }
        Ok(parts)
    }
}

/// In a list without duplicates an element has one place.
proof fn place_is_unique(s: Seq<Entry>, x: Entry, i: int)
    requires
        s.no_duplicates(),
        0 <= i < s.len(),
        s[i] == x,
    ensures
        s.index_of(x) == i,
{
    let k = s.index_of(x);
    assert(0 <= k < s.len() && s[k] == x);
}

} // verus!
