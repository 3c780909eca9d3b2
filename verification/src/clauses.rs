//! Which clause a refused request breaks, what is said of an annotation that is carried over, and which
//! format a failure belongs to.
use crate::ancillary::{
    has_nul, is_latin1, is_printable_latin1, is_space, is_tag_byte, keyword_notice, keyword_rule,
    tagged_entry_for, xmp_entry_for, TextKind, TextRule, XMP_KEYWORD,
};
use crate::encoder::MetadataNotice;
use crate::error::Cause;
use crate::palette::palette_fault;
use vstd::prelude::*;
use vstd::utf8::{decode_utf8_encode_utf8, encode_utf8, valid_utf8};

verus! {

/// A character that a keyword may hold: printable Latin-1, without the no-break space.
pub open spec fn fits_a_keyword(c: char) -> bool {
    32 <= c as u32 <= 126 || 161 <= c as u32 <= 255
}

/// Whether a keyword starts or ends in a space, or holds two in a row.
pub open spec fn is_badly_spaced(keyword: Seq<char>) -> bool {
    ||| keyword.len() > 0 && (keyword[0] == ' ' || keyword.last() == ' ')
    ||| exists|i: int, j: int|
        0 <= i && j == i + 1 && j < keyword.len() && #[trigger] keyword[i] == ' ' && #[trigger] keyword[j] == ' '
}

/// The first clause that a keyword breaks: what it holds, then how long it is, then how it is spaced.
pub proof fn which_clause_a_keyword_breaks(keyword: Seq<char>)
    ensures
        ({
            let fits = forall|i: int| 0 <= i < keyword.len() ==> fits_a_keyword(#[trigger] keyword[i]);
            let within = 1 <= keyword.len() <= 79;
            &&& keyword_rule(keyword) == Some(TextRule::KeywordRepertoire) <==> !fits
            &&& keyword_rule(keyword) == Some(TextRule::KeywordLength) <==> fits && !within
            &&& keyword_rule(keyword) == Some(TextRule::KeywordSpaces) <==> fits && within && is_badly_spaced(
                keyword,
            )
            &&& keyword_rule(keyword) is None <==> fits && within && !is_badly_spaced(keyword)
        }),
{
    let fits = forall|i: int| 0 <= i < keyword.len() ==> fits_a_keyword(#[trigger] keyword[i]);
    let printable = forall|i: int| 0 <= i < keyword.len() ==> is_printable_latin1(#[trigger] keyword[i]);
    if fits {
        assert forall|i: int| 0 <= i < keyword.len() implies is_printable_latin1(#[trigger] keyword[i]) by {
            assert(fits_a_keyword(keyword[i]));
        }
    }
    if printable {
        assert forall|i: int| 0 <= i < keyword.len() implies fits_a_keyword(#[trigger] keyword[i]) by {
            assert(is_printable_latin1(keyword[i]));
        }
    }
    spacing_is_spelled(keyword);
}

proof fn a_character_is_its_number(c: char)
    ensures
        c as u32 == 32 <==> c == ' ',
        c as u32 == 0 <==> c == '\0',
{
}

proof fn spacing_is_spelled(keyword: Seq<char>)
    ensures
        is_badly_spaced(keyword) <==> crate::ancillary::has_stray_space(keyword),
{
    if keyword.len() > 0 {
        a_character_is_its_number(keyword[0]);
        a_character_is_its_number(keyword.last());
    }
    if exists|i: int, j: int|
        0 <= i && j == i + 1 && j < keyword.len() && #[trigger] keyword[i] == ' ' && #[trigger] keyword[j]
            == ' ' {
        let (i, j) = choose|i: int, j: int|
            0 <= i && j == i + 1 && j < keyword.len() && #[trigger] keyword[i] == ' '
                && #[trigger] keyword[j] == ' ';
        assert(is_space(keyword[j]) && is_space(keyword[j - 1]));
    }
    if exists|i: int| 1 <= i < keyword.len() && is_space(#[trigger] keyword[i]) && is_space(keyword[i - 1]) {
        let i = choose|i: int|
            1 <= i < keyword.len() && is_space(#[trigger] keyword[i]) && is_space(keyword[i - 1]);
        a_character_is_its_number(keyword[i - 1]);
        a_character_is_its_number(keyword[i]);
        assert(keyword[i - 1] == ' ' && keyword[i] == ' ');
    }
}

/// What is said of a keyword that is carried over. It is left behind where no chunk can hold it, because it
/// is not Latin-1 or not 1 to 79 characters, and written with a caveat where it only breaks a recommendation.
pub proof fn what_is_said_of_a_carried_keyword(keyword: Seq<char>)
    ensures
        ({
            let latin1 = forall|i: int| 0 <= i < keyword.len() ==> (#[trigger] keyword[i]) as u32 <= 255;
            let within = 1 <= keyword.len() <= 79;
            let fits = forall|i: int| 0 <= i < keyword.len() ==> fits_a_keyword(#[trigger] keyword[i]);
            &&& keyword_notice(keyword) == Some(MetadataNotice::TextKeywordNotLatin1) <==> !latin1
            &&& keyword_notice(keyword) == Some(MetadataNotice::TextKeywordLength) <==> latin1 && !within
            &&& keyword_notice(keyword) == Some(MetadataNotice::TextKeywordRepertoire) <==> latin1 && within
                && !fits
            &&& keyword_notice(keyword) == Some(MetadataNotice::TextKeywordSpacing) <==> within && fits
                && is_badly_spaced(keyword)
        }),
{
    which_clause_a_keyword_breaks(keyword);
    spacing_is_spelled(keyword);
    if forall|i: int| 0 <= i < keyword.len() ==> fits_a_keyword(#[trigger] keyword[i]) {
        assert forall|i: int| 0 <= i < keyword.len() implies (#[trigger] keyword[i]) as u32 <= 255 by {
            assert(fits_a_keyword(keyword[i]));
        }
        assert(is_latin1(keyword));
    }
}

/// The clause that a direct request for a tagged annotation breaks is the first of these: its keyword's, a
/// null in its text, a language tag that is none, a null in its translated keyword. A request that breaks
/// none of them is not refused.
pub proof fn which_clause_a_request_breaks(
    keyword: Seq<char>,
    language: Seq<char>,
    translated: Seq<char>,
    text: Seq<char>,
    compressed: bool,
)
    ensures
        ({
            let entry = tagged_entry_for(keyword, language, translated, text, compressed, false);
            let tagged = forall|i: int|
                0 <= i < encode_utf8(language).len() ==> is_tag_byte(#[trigger] encode_utf8(language)[i]);
            let clause = match keyword_rule(keyword) {
                Some(rule) => Some(rule),
                None => if text.contains('\0') {
                    Some(TextRule::TextNul)
                } else if !tagged {
                    Some(TextRule::LanguageTag)
                } else if translated.contains('\0') {
                    Some(TextRule::TranslatedNul)
                } else {
                    None
                },
            };
            &&& entry.fault is None <==> clause is None
            &&& clause matches Some(rule) ==> entry.fault == Some((keyword, rule))
            &&& entry.notices().len() == 0
            &&& entry.is_written()
            &&& entry.language == encode_utf8(language)
            &&& entry.translated == encode_utf8(translated)
            &&& entry.text == encode_utf8(text)
            &&& entry.kind == (if compressed {
                TextKind::InternationalCompressed
            } else {
                TextKind::International
            })
        }),
{
    nulls_are_found(text);
    nulls_are_found(translated);
}

proof fn nulls_are_found(text: Seq<char>)
    ensures
        has_nul(text) <==> text.contains('\0'),
{
    if has_nul(text) {
        let i = choose|i: int| 0 <= i < text.len() && (#[trigger] text[i]) as u32 == 0;
        a_character_is_its_number(text[i]);
        assert(text[i] == '\0');
    }
    if text.contains('\0') {
        let i = choose|i: int| 0 <= i < text.len() && text[i] == '\0';
        assert(text[i] as u32 == 0);
    }
}

/// An annotation that is carried over keeps its text and its translated keyword. Its language tag is kept
/// where it is one; where it is none it is dropped, and that is said last.
pub proof fn a_carried_annotation_drops_a_bad_tag(
    keyword: Seq<char>,
    language: Seq<char>,
    translated: Seq<char>,
    text: Seq<char>,
    compressed: bool,
)
    ensures
        ({
            let entry = tagged_entry_for(keyword, language, translated, text, compressed, true);
            let tagged = forall|i: int|
                0 <= i < encode_utf8(language).len() ==> is_tag_byte(#[trigger] encode_utf8(language)[i]);
            &&& entry.text == encode_utf8(text)
            &&& entry.translated == encode_utf8(translated)
            &&& entry.language == (if tagged {
                encode_utf8(language)
            } else {
                Seq::empty()
            })
            &&& tagged ==> entry.notices() == (match keyword_notice(keyword) {
                Some(notice) => seq![notice],
                None => Seq::empty(),
            })
            &&& !tagged ==> entry.notices() == (match keyword_notice(keyword) {
                Some(notice) => seq![notice, MetadataNotice::ItxtLanguageTag],
                None => seq![MetadataNotice::ItxtLanguageTag],
            })
        }),
{
    let entry = tagged_entry_for(keyword, language, translated, text, compressed, true);
    assert(encode_utf8(Seq::<char>::empty()) =~= Seq::<u8>::empty());
    match keyword_notice(keyword) {
        Some(notice) => {
            assert(seq![notice] + seq![MetadataNotice::ItxtLanguageTag] =~= seq![
                notice,
                MetadataNotice::ItxtLanguageTag,
            ]);
            assert(seq![notice] + Seq::<MetadataNotice>::empty() =~= seq![notice]);
        },
        None => {
            assert(Seq::<MetadataNotice>::empty() + seq![MetadataNotice::ItxtLanguageTag] =~= seq![
                MetadataNotice::ItxtLanguageTag,
            ]);
        },
    }
}

/// An XMP packet is written byte for byte, uncompressed, where it is UTF-8. One that is not is refused where
/// it was set, and left behind with a notice where it is carried over.
pub proof fn a_packet_is_written_as_it_is(packet: Seq<u8>, carried: bool)
    ensures
        ({
            let entry = xmp_entry_for(packet, carried);
            &&& valid_utf8(packet) ==> entry.text == packet && entry.kind is International && entry.is_written()
                && entry.notices().len() == 0
            &&& !valid_utf8(packet) && carried ==> !entry.is_written() && entry.fault is None
                && entry.notices() == seq![MetadataNotice::XmpNotUtf8]
            &&& !valid_utf8(packet) && !carried ==> entry.fault == Some(
                ("XML:com.adobe.xmp"@, TextRule::XmpNotUtf8),
            )
        }),
{
    the_xmp_keyword_is_plain();
    if valid_utf8(packet) {
        decode_utf8_encode_utf8(packet);
    } else if carried {
        assert(xmp_entry_for(packet, true).notices() =~= seq![MetadataNotice::XmpNotUtf8]);
    }
}

proof fn the_xmp_keyword_is_plain()
    ensures
        keyword_rule(XMP_KEYWORD@) is None,
        keyword_notice(XMP_KEYWORD@) is None,
        !has_nul(XMP_KEYWORD@),
{
    reveal_strlit("XML:com.adobe.xmp");
    let k = XMP_KEYWORD@;
    assert forall|i: int| 0 <= i < k.len() implies is_printable_latin1(#[trigger] k[i]) && k[i] != ' ' by {}
    assert(is_latin1(k)) by {
        assert forall|i: int| 0 <= i < k.len() implies (#[trigger] k[i]) as u32 <= 0xFF by {
            assert(is_printable_latin1(k[i]));
        }
    }
    assert(!crate::ancillary::has_stray_space(k));
    assert(!has_nul(k)) by {
        assert forall|i: int| 0 <= i < k.len() implies (#[trigger] k[i]) as u32 != 0 by {
            assert(is_printable_latin1(k[i]));
        }
    }
}

/// A palette has 1 to 256 entries and no more alphas than entries, and the number of entries is looked at
/// first.
pub proof fn how_large_a_palette_is(entries: nat, alphas: nat)
    ensures
        palette_fault(entries, alphas) is None <==> 1 <= entries <= 256 && alphas <= entries,
        palette_fault(entries, alphas) == Some(Cause::PaletteSize) <==> entries < 1 || 256 < entries,
        palette_fault(entries, alphas) == Some(Cause::TooManyAlphas) <==> 1 <= entries <= 256 && alphas
            > entries,
{
}

/// A failure belongs to the format that its message names first.
pub proof fn a_message_names_its_format(cause: Cause)
    ensures
        cause.spec_message().len() > 5,
        cause.spec_is_jxl() ==> cause.spec_message().take(5) == seq!['J', 'X', 'L', ':', ' '],
        !cause.spec_is_jxl() ==> cause.spec_message().take(5) == seq!['P', 'N', 'G', ':', ' '],
{
    match cause {
        Cause::BadSignature => reveal_strlit("PNG: bad signature"),
        Cause::TruncatedChunk => reveal_strlit("PNG: truncated chunk"),
        Cause::ChunkTooLong => reveal_strlit("PNG: chunk length exceeds 2^31 - 1"),
        Cause::ChunkOverrun => reveal_strlit("PNG: chunk overruns the input"),
        Cause::TruncatedCrc => reveal_strlit("PNG: truncated chunk CRC"),
        Cause::PaletteSize => reveal_strlit("PNG: palette must have 1..=256 entries"),
        Cause::TooManyAlphas => reveal_strlit("PNG: more tRNS entries than palette entries"),
        Cause::PlteNotTriples => reveal_strlit("PNG: PLTE payload must be a whole number of RGB triples"),
        Cause::MissingIhdr => reveal_strlit("PNG: missing IHDR"),
        Cause::FirstChunkNotIhdr => reveal_strlit("PNG: first chunk must be IHDR"),
        Cause::CriticalCrcMismatch => reveal_strlit("PNG: critical chunk CRC mismatch"),
        Cause::DuplicateIhdr => reveal_strlit("PNG: duplicate IHDR"),
        Cause::IendNotEmpty => reveal_strlit("PNG: IEND payload must be empty"),
        Cause::IdatNotConsecutive => reveal_strlit("PNG: IDAT chunks must be consecutive"),
        Cause::DuplicatePlte => reveal_strlit("PNG: duplicate PLTE"),
        Cause::PlteAfterIdat => reveal_strlit("PNG: PLTE must precede IDAT"),
        Cause::PlteAfterTrns => reveal_strlit("PNG: PLTE must precede tRNS"),
        Cause::TrnsAfterIdat => reveal_strlit("PNG: tRNS must precede IDAT"),
        Cause::UnknownCriticalChunk => reveal_strlit("PNG: unknown critical chunk"),
        Cause::MissingIend => reveal_strlit("PNG: missing IEND"),
        Cause::MissingIdat => reveal_strlit("PNG: missing IDAT"),
        Cause::IhdrLength => reveal_strlit("PNG: IHDR payload must be 13 bytes"),
        Cause::ImageDimensions => reveal_strlit("PNG: image dimensions must be 1..=2^31 - 1"),
        Cause::UnknownColorType => reveal_strlit("PNG: unknown colour type"),
        Cause::DepthNotAllowed => reveal_strlit("PNG: bit depth not allowed for the colour type"),
        Cause::UnknownMethod => reveal_strlit("PNG: unknown compression, filter or interlace method"),
        Cause::DimensionsOverflow => reveal_strlit("PNG: image dimensions overflow"),
        Cause::DimensionLimit => reveal_strlit("PNG: image exceeds the dimension limit"),
        Cause::SizeLimit => reveal_strlit("PNG: image exceeds the size limit"),
        Cause::IdatTooShort => reveal_strlit("PNG: IDAT is shorter than the image"),
        Cause::UndefinedFilter => reveal_strlit("PNG: undefined filter type"),
        Cause::IndexOutOfRange => reveal_strlit("PNG: palette index out of range"),
        Cause::PlteForbidden => reveal_strlit("PNG: PLTE is forbidden for greyscale colour types"),
        Cause::MalformedPlte => reveal_strlit("PNG: malformed PLTE payload"),
        Cause::PlteRequired => reveal_strlit("PNG: an indexed image requires a PLTE chunk"),
        Cause::PaletteTooLarge => reveal_strlit("PNG: palette larger than the bit depth can reference"),
        Cause::TrnsForbidden => reveal_strlit("PNG: tRNS is forbidden for colour types with alpha"),
        Cause::MalformedTrns => reveal_strlit("PNG: malformed tRNS payload"),
        Cause::CorruptZlib => reveal_strlit("PNG: corrupt zlib stream"),
        Cause::LossyLayout => reveal_strlit("PNG: this pixel layout cannot hold the image losslessly; use PngDecoder::decode"),
        Cause::SampleCount => reveal_strlit("PNG: sample count does not match the dimensions"),
        Cause::RefusedAnnotation => reveal_strlit("PNG: a text annotation breaks the clause of the chunk that would carry it"),
        Cause::TooManyChunks => reveal_strlit("PNG: more chunks than the walk's ceiling admits"),
        Cause::NoFirstChunk => reveal_strlit("PNG: no chunk after the signature"),
        Cause::HeaderNotFirst => reveal_strlit("PNG: first chunk is not IHDR"),
        Cause::TruncatedBoxHeader => reveal_strlit("JXL: truncated box header"),
        Cause::MalformedBoxSize => reveal_strlit("JXL: malformed box size"),
        Cause::BoxOverrun => reveal_strlit("JXL: box overruns the stream"),
        Cause::TruncatedBrob => reveal_strlit("JXL: truncated brob box"),
        Cause::BrotliMetadata => reveal_strlit("JXL: Brotli-compressed metadata box (brob) is not supported"),
        Cause::TruncatedExifBox => reveal_strlit("JXL: truncated Exif box"),
        Cause::ExifOffset => reveal_strlit("JXL: Exif box tiff-header offset out of range"),
        Cause::UnknownFraming => reveal_strlit("JXL: neither the codestream nor the container signature"),
        Cause::NoBackend => reveal_strlit("JXL: no decode backend (enable the `decode` feature or push a codestream backend)"),
        Cause::WrongLayout => reveal_strlit("JXL: backend returned a raster in the wrong pixel layout"),
        Cause::BackendFailed => reveal_strlit("JXL: backend failed"),
        Cause::BackendDeclined => reveal_strlit("JXL: backend declined the stream"),
        Cause::BackendOverran => reveal_strlit("PNG: IDAT backend returned more than the image holds"),
    }
}

} // verus!
