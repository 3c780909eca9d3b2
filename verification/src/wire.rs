//! The byte layouts of the format: numbers, chunks, the header and the payloads of the ancillary chunks,
//! as they are written and as they are read.
use crate::ancillary::{decimal_text,
    background_for, background_samples, intent_of, keyword_rule, significant_for, Ancillary,
    PaletteModel, PhysicalUnit, SrgbIntent, TextRule, WrittenModel,
};
use crate::bytes::{be16, be16_seq, be32, be32_seq};
use crate::chunk::{
    chunk_bytes, BKGD, CABX, CHRM, CICP, EXIF, GAMA, ICCP, IDAT, IEND, IHDR, ITXT, PHYS, PLTE, SBIT,
    SRGB, TEXT, TIME, TRNS, ZTXT,
};
use crate::color::{color_of_code, ColorType};
use crate::crc32::crc32_of;
use crate::decoded::{
    chrm_of, cicp_of, collect_step, collected, gama_of, iccp_of, itxt_of, keyword_split,
    metadata_of, srgb_of, text_of, zero_from, ztxt_of, Collected, FramingModel, ITxtModel,
    MetadataModel, TextChunkKind, TextModel,
};
use crate::error::Cause;
use crate::frames::spelled;
use crate::ihdr::{ihdr_fault, ihdr_of, ihdr_payload, Ihdr};
use crate::palette::alpha_at;
use crate::parse::metadata_with_late;
use crate::preserve::{field_ends, keyword_ends, nul_free};
use crate::text::{latin1_bytes, latin1_chars, utf8_of};
use crate::zlib::zlib_contents;
use vstd::prelude::*;
use vstd::utf8::{encode_utf8, encode_utf8_decode_utf8, encode_utf8_valid_utf8, valid_utf8};

verus! {

/// Numbers are stored most significant byte first.
pub proof fn numbers_are_big_endian(v: u32, w: u16, s: Seq<u8>, i: int)
    ensures
        be32_seq(v as int).len() == 4,
        v == spelled(be32_seq(v as int)),
        be16_seq(w as int).len() == 2,
        w == 256 * be16_seq(w as int)[0] + be16_seq(w as int)[1],
        be16(s, i) == 256 * s[i] + s[i + 1],
        be32(s, i) == 65536 * (256 * s[i] + s[i + 1]) + (256 * s[i + 2] + s[i + 3]),
{
}

/// The types of the chunks, letter by letter.
pub proof fn chunk_types_are_spelled()
    ensures
        IHDR@ == seq!['I' as u8, 'H' as u8, 'D' as u8, 'R' as u8],
        PLTE@ == seq!['P' as u8, 'L' as u8, 'T' as u8, 'E' as u8],
        IDAT@ == seq!['I' as u8, 'D' as u8, 'A' as u8, 'T' as u8],
        IEND@ == seq!['I' as u8, 'E' as u8, 'N' as u8, 'D' as u8],
        TRNS@ == seq!['t' as u8, 'R' as u8, 'N' as u8, 'S' as u8],
        CICP@ == seq!['c' as u8, 'I' as u8, 'C' as u8, 'P' as u8],
        CHRM@ == seq!['c' as u8, 'H' as u8, 'R' as u8, 'M' as u8],
        GAMA@ == seq!['g' as u8, 'A' as u8, 'M' as u8, 'A' as u8],
        ICCP@ == seq!['i' as u8, 'C' as u8, 'C' as u8, 'P' as u8],
        SBIT@ == seq!['s' as u8, 'B' as u8, 'I' as u8, 'T' as u8],
        SRGB@ == seq!['s' as u8, 'R' as u8, 'G' as u8, 'B' as u8],
        EXIF@ == seq!['e' as u8, 'X' as u8, 'I' as u8, 'f' as u8],
        BKGD@ == seq!['b' as u8, 'K' as u8, 'G' as u8, 'D' as u8],
        PHYS@ == seq!['p' as u8, 'H' as u8, 'Y' as u8, 's' as u8],
        TIME@ == seq!['t' as u8, 'I' as u8, 'M' as u8, 'E' as u8],
        TEXT@ == seq!['t' as u8, 'E' as u8, 'X' as u8, 't' as u8],
        ZTXT@ == seq!['z' as u8, 'T' as u8, 'X' as u8, 't' as u8],
        ITXT@ == seq!['i' as u8, 'T' as u8, 'X' as u8, 't' as u8],
        CABX@ == seq!['c' as u8, 'a' as u8, 'B' as u8, 'X' as u8],
{
    assert(IHDR@ =~= seq![0x49u8, 0x48, 0x44, 0x52]);
    assert(PLTE@ =~= seq![0x50u8, 0x4C, 0x54, 0x45]);
    assert(IDAT@ =~= seq![0x49u8, 0x44, 0x41, 0x54]);
    assert(IEND@ =~= seq![0x49u8, 0x45, 0x4E, 0x44]);
    assert(TRNS@ =~= seq![0x74u8, 0x52, 0x4E, 0x53]);
    assert(CICP@ =~= seq![0x63u8, 0x49, 0x43, 0x50]);
    assert(CHRM@ =~= seq![0x63u8, 0x48, 0x52, 0x4D]);
    assert(GAMA@ =~= seq![0x67u8, 0x41, 0x4D, 0x41]);
    assert(ICCP@ =~= seq![0x69u8, 0x43, 0x43, 0x50]);
    assert(SBIT@ =~= seq![0x73u8, 0x42, 0x49, 0x54]);
    assert(SRGB@ =~= seq![0x73u8, 0x52, 0x47, 0x42]);
    assert(EXIF@ =~= seq![0x65u8, 0x58, 0x49, 0x66]);
    assert(BKGD@ =~= seq![0x62u8, 0x4B, 0x47, 0x44]);
    assert(PHYS@ =~= seq![0x70u8, 0x48, 0x59, 0x73]);
    assert(TIME@ =~= seq![0x74u8, 0x49, 0x4D, 0x45]);
    assert(TEXT@ =~= seq![0x74u8, 0x45, 0x58, 0x74]);
    assert(ZTXT@ =~= seq![0x7Au8, 0x54, 0x58, 0x74]);
    assert(ITXT@ =~= seq![0x69u8, 0x54, 0x58, 0x74]);
    assert(CABX@ =~= seq![0x63u8, 0x61, 0x42, 0x58]);
}

/// A written chunk is its length, its type, its payload and the checksum of type and payload.
pub proof fn a_chunk_is_laid_out(chunk_type: Seq<u8>, data: Seq<u8>)
    requires
        chunk_type.len() == 4,
        data.len() <= 0xFFFF_FFFF,
    ensures
        ({
            let (c, n) = (chunk_bytes(chunk_type, data), data.len() as int);
            &&& c.len() == n + 12
            &&& spelled(c.subrange(0, 4)) == n
            &&& c.subrange(4, 8) == chunk_type
            &&& c.subrange(8, 8 + n) == data
            &&& spelled(c.subrange(8 + n, 12 + n)) == crc32_of(chunk_type + data)
        }),
{
    reveal(chunk_bytes);
    let (c, n) = (chunk_bytes(chunk_type, data), data.len() as int);
    let crc = crc32_of(chunk_type + data);
    assert(c.subrange(0, 4) =~= be32_seq(n));
    assert(c.subrange(4, 8) =~= chunk_type);
    assert(c.subrange(8, 8 + n) =~= data);
    assert(c.subrange(8 + n, 12 + n) =~= be32_seq(crc as int));
    numbers_are_big_endian(n as u32, 0, c, 0);
    numbers_are_big_endian(crc, 0, c, 0);
}

/// The colour types of the format, by their codes, and the bit depths that each may have.
pub proof fn color_types_are_coded(code: u8, depth: u8)
    ensures
        color_of_code(code) == (match code {
            0 => Some(ColorType::Grayscale),
            2 => Some(ColorType::Truecolor),
            3 => Some(ColorType::Indexed),
            4 => Some(ColorType::GrayscaleAlpha),
            6 => Some(ColorType::TruecolorAlpha),
            _ => None,
        }),
        forall|c: ColorType| color_of_code(#[trigger] c.spec_code()) == Some(c),
        ColorType::Grayscale.spec_allows(depth) <==> seq![1u8, 2, 4, 8, 16].contains(depth),
        ColorType::Indexed.spec_allows(depth) <==> seq![1u8, 2, 4, 8].contains(depth),
        ColorType::Truecolor.spec_allows(depth) <==> seq![8u8, 16].contains(depth),
        ColorType::GrayscaleAlpha.spec_allows(depth) <==> seq![8u8, 16].contains(depth),
        ColorType::TruecolorAlpha.spec_allows(depth) <==> seq![8u8, 16].contains(depth),
{
    let all = seq![1u8, 2, 4, 8, 16];
    let low = seq![1u8, 2, 4, 8];
    let high = seq![8u8, 16];
    assert(all[0] == 1 && all[1] == 2 && all[2] == 4 && all[3] == 8 && all[4] == 16);
    assert(low[0] == 1 && low[1] == 2 && low[2] == 4 && low[3] == 8);
    assert(high[0] == 8 && high[1] == 16);
}

/// A header is thirteen bytes: width, height, bit depth, colour type, the two methods there are, and
/// whether it is interlaced. Anything else is refused, and each refusal says which byte is at fault.
pub proof fn a_header_is_laid_out(data: Seq<u8>)
    ensures
        ({
            let (w, h) = (spelled(data.subrange(0, 4)), spelled(data.subrange(4, 8)));
            let sized = 1 <= w <= 2147483647 && 1 <= h <= 2147483647;
            let color = color_of_code(data[9]);
            let fault = ihdr_fault(data);
            &&& data.len() != 13 <==> fault == Some(Cause::IhdrLength)
            &&& data.len() == 13 && !sized <==> fault == Some(Cause::ImageDimensions)
            &&& data.len() == 13 && sized && color is None <==> fault == Some(Cause::UnknownColorType)
            &&& data.len() == 13 && sized && color is Some && !color->0.spec_allows(data[8]) <==> fault
                == Some(Cause::DepthNotAllowed)
            &&& data.len() == 13 && sized && color is Some && color->0.spec_allows(data[8]) && (data[10]
                != 0 || data[11] != 0 || data[12] >= 2) <==> fault == Some(Cause::UnknownMethod)
            &&& fault is None ==> {
                let got = ihdr_of(data);
                &&& got.width == w && got.height == h
                &&& got.bit_depth == data[8]
                &&& Some(got.color) == color
                &&& got.interlaced <==> data[12] == 1
            }
        }),
{
    if data.len() == 13 {
        assert(spelled(data.subrange(0, 4)) == be32(data, 0));
        assert(spelled(data.subrange(4, 8)) == be32(data, 4));
    }
}

/// A written header holds its fields in their places.
pub proof fn a_written_header_is_laid_out(h: Ihdr)
    ensures
        ({
            let p = ihdr_payload(h);
            &&& p.len() == 13
            &&& spelled(p.subrange(0, 4)) == h.width
            &&& spelled(p.subrange(4, 8)) == h.height
            &&& p[8] == h.bit_depth
            &&& color_of_code(p[9]) == Some(h.color)
            &&& p[10] == 0 && p[11] == 0
            &&& p[12] == (if h.interlaced {
                1int
            } else {
                0
            })
        }),
{
    let p = ihdr_payload(h);
    assert(p.subrange(0, 4) =~= be32_seq(h.width as int));
    assert(p.subrange(4, 8) =~= be32_seq(h.height as int));
}

/// The search for a null finds the first one, or the end where there is none.
pub proof fn the_first_null_is_found(data: Seq<u8>, from: int)
    requires
        0 <= from <= data.len(),
    ensures
        ({
            let at = zero_from(data, from);
            &&& from <= at <= data.len()
            &&& at < data.len() ==> data[at] == 0
            &&& forall|i: int| from <= i < at ==> (#[trigger] data[i]) != 0
        }),
    decreases data.len() - from,
{
    if from < data.len() && data[from] != 0 {
        the_first_null_is_found(data, from + 1);
    }
}

/// Latin-1 reads each byte as the character of its number, and writes it back.
pub proof fn latin1_is_by_number(bytes: Seq<u8>, chars: Seq<char>, i: int)
    ensures
        latin1_chars(bytes).len() == bytes.len(),
        0 <= i < bytes.len() ==> latin1_chars(bytes)[i] as u32 == bytes[i],
        latin1_bytes(chars).len() == chars.len(),
        0 <= i < chars.len() && chars[i] as u32 <= 255 ==> latin1_bytes(chars)[i] == chars[i] as u32,
{
}

/// A keyword is the 1 to 79 bytes before the first null of a payload, read as Latin-1; the rest is what
/// stands behind the null. Without such a null there is no keyword.
pub proof fn a_keyword_ends_at_the_first_null(data: Seq<u8>)
    ensures
        match keyword_split(data) {
            Some((keyword, rest)) => {
                let n = keyword.len() as int;
                &&& 1 <= n <= 79
                &&& data.len() == n + 1 + rest.len()
                &&& data[n] == 0
                &&& forall|i: int|
                    0 <= i < n ==> (#[trigger] data[i]) != 0 && keyword[i] as u32 == data[i]
                &&& rest == data.skip(n + 1)
            },
            None => forall|n: int|
                1 <= n <= 79 && n < data.len() && (#[trigger] data[n]) == 0 ==> exists|i: int|
                    0 <= i < n && (#[trigger] data[i]) == 0,
        },
{
    the_first_null_is_found(data, 0);
    let at = zero_from(data, 0);
    if let Some((keyword, rest)) = keyword_split(data) {
        assert(rest =~= data.skip(at + 1));
    } else {
        assert forall|n: int| 1 <= n <= 79 && n < data.len() && (#[trigger] data[n]) == 0 implies exists|
            i: int,
        |
            0 <= i < n && (#[trigger] data[i]) == 0 by {
            assert(at <= n);
            assert(at < n);
            assert(data[at] == 0);
        }
    }
}

/// gAMA is four bytes, sRGB one of four codes, cICP four bytes of which the last is a flag, and cHRM eight
/// numbers: white, red, green and blue, across before up. A payload of any other shape is skipped.
pub proof fn color_chunks_are_laid_out(data: Seq<u8>)
    ensures
        gama_of(data) is Some <==> data.len() == 4,
        data.len() == 4 ==> gama_of(data)->0 == spelled(data),
        srgb_of(data) == (if data.len() == 1 {
            match data[0] {
                0 => Some(SrgbIntent::Perceptual),
                1 => Some(SrgbIntent::RelativeColorimetric),
                2 => Some(SrgbIntent::Saturation),
                3 => Some(SrgbIntent::AbsoluteColorimetric),
                _ => None,
            }
        } else {
            None
        }),
        cicp_of(data) is Some <==> data.len() == 4 && (data[3] == 0 || data[3] == 1),
        cicp_of(data) matches Some(c) ==> c.color_primaries == data[0] && c.transfer_function == data[1]
            && c.matrix_coefficients == data[2] && (c.full_range <==> data[3] == 1),
        chrm_of(data) is Some <==> data.len() == 32,
        chrm_of(data) matches Some(c) ==> {
            &&& c.white.0 == spelled(data.subrange(0, 4)) && c.white.1 == spelled(data.subrange(4, 8))
            &&& c.red.0 == spelled(data.subrange(8, 12)) && c.red.1 == spelled(data.subrange(12, 16))
            &&& c.green.0 == spelled(data.subrange(16, 20)) && c.green.1 == spelled(
                data.subrange(20, 24),
            )
            &&& c.blue.0 == spelled(data.subrange(24, 28)) && c.blue.1 == spelled(data.subrange(28, 32))
        },
        forall|i: SrgbIntent| intent_of(#[trigger] i.spec_code()) == Some(i),
        PhysicalUnit::Unknown.spec_code() == 0,
        PhysicalUnit::Meter.spec_code() == 1,
{
    if data.len() == 4 {
        assert(spelled(data) == be32(data, 0));
    }
    if data.len() == 32 {
        assert(spelled(data.subrange(0, 4)) == be32(data, 0));
        assert(spelled(data.subrange(4, 8)) == be32(data, 4));
        assert(spelled(data.subrange(8, 12)) == be32(data, 8));
        assert(spelled(data.subrange(12, 16)) == be32(data, 12));
        assert(spelled(data.subrange(16, 20)) == be32(data, 16));
        assert(spelled(data.subrange(20, 24)) == be32(data, 20));
        assert(spelled(data.subrange(24, 28)) == be32(data, 24));
        assert(spelled(data.subrange(28, 32)) == be32(data, 28));
    }
}

/// A tEXt is a keyword, a null and Latin-1 text; a zTXt has a method byte and a compressed text instead,
/// and an iCCP a method byte and a compressed profile. A method other than 0, and a stream that does not
/// inflate within the budget, leave nothing and cost nothing; what does inflate is paid for byte by byte.
pub proof fn latin1_payloads_are_read(keyword: Seq<u8>, body: Seq<u8>, method: u8, budget: int)
    requires
        1 <= keyword.len() <= 79,
        forall|i: int| 0 <= i < keyword.len() ==> (#[trigger] keyword[i]) != 0,
    ensures
        text_of(keyword + seq![0u8] + body) == Some(
            TextModel {
                keyword: latin1_chars(keyword),
                text: latin1_chars(body),
                language: None,
                translated_keyword: None,
                kind: TextChunkKind::Text,
            },
        ),
        ztxt_of(keyword + seq![0u8] + (seq![method] + body), budget) == (match (method == 0, zlib_contents(
            body,
            budget,
        )) {
            (true, Some(text)) => (
                Some(
                    TextModel {
                        keyword: latin1_chars(keyword),
                        text: latin1_chars(text),
                        language: None,
                        translated_keyword: None,
                        kind: TextChunkKind::CompressedText,
                    },
                ),
                budget - text.len(),
            ),
            _ => (None, budget),
        }),
        iccp_of(keyword + seq![0u8] + (seq![method] + body), budget) == (match (method == 0, zlib_contents(
            body,
            budget,
        )) {
            (true, Some(profile)) => (
                Some((latin1_chars(keyword), profile)),
                budget - profile.len(),
            ),
            _ => (None, budget),
        }),
{
    keyword_ends(keyword, body);
    let rest = seq![method] + body;
    keyword_ends(keyword, rest);
    assert(crate::decoded::after(rest, 0) =~= body);
    assert(rest[0] == method);
}

/// A text that may be missing.
pub open spec fn or_none(text: Seq<char>) -> Option<Seq<char>> {
    if text.len() > 0 {
        Some(text)
    } else {
        None
    }
}

/// An iTXt is a keyword, a null, a flag, a method, a language tag, a null, a translated keyword, a null and
/// UTF-8 text, compressed where the flag is 1. Under the keyword of XMP the bytes are the packet, under any
/// other an annotation.
pub proof fn an_international_payload_is_read(
    keyword: Seq<u8>,
    flag: u8,
    method: u8,
    language: Seq<u8>,
    translated: Seq<u8>,
    body: Seq<u8>,
    budget: int,
)
    requires
        1 <= keyword.len() <= 79,
        nul_free(keyword),
        nul_free(language),
        nul_free(translated),
    ensures
        ({
            let data = keyword + seq![0u8] + (seq![flag, method] + (language + seq![0u8] + (translated
                + seq![0u8] + body)));
            let contents = if flag == 0 {
                Some(body)
            } else if flag == 1 && method == 0 {
                zlib_contents(body, budget)
            } else {
                None
            };
            let left = if flag != 0 && contents is Some && utf8_of(translated) is Some {
                budget - contents->0.len()
            } else {
                budget
            };
            itxt_of(data, budget) == (match (utf8_of(translated), contents) {
                (Some(own), Some(c)) => (
                    if latin1_chars(keyword) == "XML:com.adobe.xmp"@ {
                        Some(
                            ITxtModel::Xmp(
                                c,
                                FramingModel {
                                    compressed: flag == 1,
                                    language: or_none(latin1_chars(language)),
                                    translated_keyword: or_none(own),
                                },
                            ),
                        )
                    } else {
                        match utf8_of(c) {
                            None => None,
                            Some(text) => Some(
                                ITxtModel::Text(
                                    TextModel {
                                        keyword: latin1_chars(keyword),
                                        text,
                                        language: or_none(latin1_chars(language)),
                                        translated_keyword: or_none(own),
                                        kind: if flag == 1 {
                                            TextChunkKind::CompressedInternational
                                        } else {
                                            TextChunkKind::International
                                        },
                                    },
                                ),
                            ),
                        }
                    },
                    left,
                ),
                _ => (None, left),
            })
        }),
{
    let tail = translated + seq![0u8] + body;
    let fields = language + seq![0u8] + tail;
    let rest = seq![flag, method] + fields;
    keyword_ends(keyword, rest);
    field_ends(language, tail);
    field_ends(translated, body);
    assert(rest.subrange(2, rest.len() as int) =~= fields);
    assert(rest[0] == flag && rest[1] == method);
}

/// A chunk adds to its own field alone: whatever its payload, every other field stays as it was.
pub proof fn a_chunk_adds_to_its_own_field(s: Collected, chunk_type: Seq<u8>, data: Seq<u8>)
    ensures
        ({
            let (was, next) = (s.meta, collect_step(s, chunk_type, data).meta);
            &&& chunk_type != EXIF@ ==> next.exif == was.exif
            &&& chunk_type != ICCP@ ==> next.icc_profile == was.icc_profile
            &&& chunk_type != ITXT@ ==> next.xmp == was.xmp && next.xmp_framing == was.xmp_framing
            &&& chunk_type != CABX@ ==> next.c2pa == was.c2pa && next.c2pa_ignored == was.c2pa_ignored
            &&& chunk_type != TEXT@ && chunk_type != ZTXT@ && chunk_type != ITXT@ ==> next.texts
                == was.texts
            &&& chunk_type != GAMA@ ==> next.gamma == was.gamma
            &&& chunk_type != CHRM@ ==> next.chromaticities == was.chromaticities
            &&& chunk_type != SRGB@ ==> next.srgb == was.srgb
            &&& chunk_type != CICP@ ==> next.cicp == was.cicp
            &&& chunk_type != ICCP@ && chunk_type != ZTXT@ && chunk_type != ITXT@ && chunk_type != CABX@
                ==> collect_step(s, chunk_type, data).budget == s.budget
        }),
{
    chunk_types_are_spelled();
}

/// The types of the chunks that carry metadata are different ones.
proof fn types_differ()
    ensures
        ({
            let all = seq![EXIF@, CABX@, ICCP@, GAMA@, CHRM@, SRGB@, CICP@, TEXT@, ZTXT@, ITXT@];
            forall|i: int, j: int| 0 <= i < j < 10 ==> all[i] != all[j]
        }),
        EXIF@ != CABX@ && EXIF@ != ICCP@ && EXIF@ != GAMA@ && EXIF@ != CHRM@,
        TEXT@ != EXIF@ && TEXT@ != CABX@ && TEXT@ != ICCP@ && TEXT@ != GAMA@ && TEXT@ != CHRM@ && TEXT@
            != SRGB@ && TEXT@ != CICP@,
        ZTXT@ != EXIF@ && ZTXT@ != CABX@ && ZTXT@ != ICCP@ && ZTXT@ != GAMA@ && ZTXT@ != CHRM@ && ZTXT@
            != SRGB@ && ZTXT@ != CICP@ && ZTXT@ != TEXT@,
        ITXT@ != EXIF@ && ITXT@ != CABX@ && ITXT@ != ICCP@ && ITXT@ != GAMA@ && ITXT@ != CHRM@ && ITXT@
            != SRGB@ && ITXT@ != CICP@ && ITXT@ != TEXT@ && ITXT@ != ZTXT@,
        CABX@ != ICCP@ && CABX@ != GAMA@ && CABX@ != CHRM@ && CABX@ != SRGB@ && CABX@ != CICP@,
        ICCP@ != GAMA@ && ICCP@ != CHRM@ && ICCP@ != SRGB@ && ICCP@ != CICP@,
        GAMA@ != CHRM@ && GAMA@ != SRGB@ && GAMA@ != CICP@,
        CHRM@ != SRGB@ && CHRM@ != CICP@ && SRGB@ != CICP@ && EXIF@ != SRGB@ && EXIF@ != CICP@,
{
    assert(EXIF@[0] == 0x65 && EXIF@[1] == 0x58);
    assert(CABX@[0] == 0x63 && CABX@[1] == 0x61);
    assert(ICCP@[0] == 0x69 && ICCP@[1] == 0x43);
    assert(GAMA@[0] == 0x67);
    assert(CHRM@[0] == 0x63 && CHRM@[1] == 0x48);
    assert(SRGB@[0] == 0x73);
    assert(CICP@[0] == 0x63 && CICP@[1] == 0x49);
    assert(TEXT@[0] == 0x74);
    assert(ZTXT@[0] == 0x7A);
    assert(ITXT@[0] == 0x69 && ITXT@[1] == 0x54);
}

/// What a chunk of each kind adds, where nothing of its kind was there: the payload, what its payload
/// holds, or one more annotation behind those before it. Compressed payloads and the manifest store are
/// paid for out of the budget.
pub proof fn what_a_chunk_adds(s: Collected, data: Seq<u8>)
    ensures
        s.meta.exif is None ==> collect_step(s, EXIF@, data).meta.exif == Some(data),
        s.meta.gamma is None ==> collect_step(s, GAMA@, data).meta.gamma == gama_of(data),
        s.meta.chromaticities is None ==> collect_step(s, CHRM@, data).meta.chromaticities == chrm_of(
            data,
        ),
        s.meta.srgb is None ==> collect_step(s, SRGB@, data).meta.srgb == srgb_of(data),
        s.meta.cicp is None ==> collect_step(s, CICP@, data).meta.cicp == cicp_of(data),
        s.meta.icc_profile is None ==> {
            let next = collect_step(s, ICCP@, data);
            (next.meta.icc_profile, next.budget) == iccp_of(data, s.budget)
        },
        s.meta.icc_profile is Some ==> collect_step(s, ICCP@, data) == s,
        !s.seen_c2pa ==> {
            let next = collect_step(s, CABX@, data);
            &&& next.seen_c2pa
            &&& data.len() <= s.budget ==> next.meta.c2pa == Some(data) && next.budget == s.budget
                - data.len()
            &&& data.len() > s.budget ==> next.meta.c2pa == s.meta.c2pa && next.budget == s.budget
            &&& next.meta.c2pa_ignored == s.meta.c2pa_ignored
        },
        ({
            let next = collect_step(s, TEXT@, data);
            match text_of(data) {
                Some(text) => next.meta.texts == s.meta.texts.push(text),
                None => next.meta.texts == s.meta.texts,
            }
        }),
        ({
            let next = collect_step(s, ZTXT@, data);
            let (text, left) = ztxt_of(data, s.budget);
            &&& next.budget == left
            &&& match text {
                Some(text) => next.meta.texts == s.meta.texts.push(text),
                None => next.meta.texts == s.meta.texts,
            }
        }),
        ({
            let next = collect_step(s, ITXT@, data);
            let (itxt, left) = itxt_of(data, s.budget);
            &&& next.budget == left
            &&& match itxt {
                Some(ITxtModel::Text(text)) => next.meta.texts == s.meta.texts.push(text)
                    && next.meta.xmp == s.meta.xmp,
                Some(ITxtModel::Xmp(packet, framing)) => next.meta.texts == s.meta.texts && (
                s.meta.xmp is None ==> next.meta.xmp == Some(packet) && next.meta.xmp_framing == Some(
                    framing,
                )),
                None => next.meta == s.meta,
            }
        }),
{
    types_differ();
}

/// Filtering a list up to `n` filters it up to the element before and that element.
proof fn filter_upto<A>(list: Seq<A>, n: int, keep: spec_fn(A) -> bool)
    requires
        1 <= n <= list.len(),
    ensures
        list.take(n).filter(keep) == (if keep(list[n - 1]) {
            list.take(n - 1).filter(keep).push(list[n - 1])
        } else {
            list.take(n - 1).filter(keep)
        }),
{
    reveal(Seq::filter);
    assert(list.take(n).drop_last() =~= list.take(n - 1));
    assert(list.take(n).last() == list[n - 1]);
}

/// The intact chunks of a list that are of a type and whose payload has a shape.
pub open spec fn shaped(
    chunks: Seq<(Seq<u8>, Seq<u8>)>,
    name: Seq<u8>,
    shape: spec_fn(Seq<u8>) -> bool,
) -> Seq<(Seq<u8>, Seq<u8>)> {
    chunks.filter(|c: (Seq<u8>, Seq<u8>)| c.0 == name && shape(c.1))
}

proof fn fields_upto(chunks: Seq<(Seq<u8>, Seq<u8>)>, budget: int, n: int)
    requires
        0 <= n <= chunks.len(),
    ensures
        ({
            let s = collected(chunks, budget, n);
            let m = s.meta;
            let part = chunks.take(n);
            let exif = shaped(part, EXIF@, |d: Seq<u8>| true);
            let gama = shaped(part, GAMA@, |d: Seq<u8>| d.len() == 4);
            let chrm = shaped(part, CHRM@, |d: Seq<u8>| d.len() == 32);
            let srgb = shaped(part, SRGB@, |d: Seq<u8>| d.len() == 1 && d[0] <= 3);
            let cicp = shaped(part, CICP@, |d: Seq<u8>| d.len() == 4 && d[3] <= 1);
            let cabx = shaped(part, CABX@, |d: Seq<u8>| true);
            &&& m.exif == (if exif.len() > 0 {
                Some(exif[0].1)
            } else {
                None
            })
            &&& m.gamma == (if gama.len() > 0 {
                gama_of(gama[0].1)
            } else {
                None
            })
            &&& m.chromaticities == (if chrm.len() > 0 {
                chrm_of(chrm[0].1)
            } else {
                None
            })
            &&& m.srgb == (if srgb.len() > 0 {
                srgb_of(srgb[0].1)
            } else {
                None
            })
            &&& m.cicp == (if cicp.len() > 0 {
                cicp_of(cicp[0].1)
            } else {
                None
            })
            &&& s.seen_c2pa <==> cabx.len() > 0
            &&& m.c2pa matches Some(store) ==> cabx.len() > 0 && store == cabx[0].1
            &&& m.c2pa_ignored == (if cabx.len() > 0 {
                cabx.len() - 1
            } else {
                0
            })
            &&& forall|i: int| 0 <= i < gama.len() ==> (#[trigger] gama[i]).1.len() == 4
            &&& forall|i: int| 0 <= i < chrm.len() ==> (#[trigger] chrm[i]).1.len() == 32
            &&& forall|i: int|
                0 <= i < srgb.len() ==> (#[trigger] srgb[i]).1.len() == 1 && srgb[i].1[0] <= 3
            &&& forall|i: int|
                0 <= i < cicp.len() ==> (#[trigger] cicp[i]).1.len() == 4 && cicp[i].1[3] <= 1
        }),
    decreases n,
{
    reveal(Seq::filter);
    if n > 0 {
        fields_upto(chunks, budget, n - 1);
        let (name, data) = chunks[n - 1];
        let s = collected(chunks, budget, n - 1);
        types_differ();
        what_a_chunk_adds(s, data);
        a_chunk_adds_to_its_own_field(s, name, data);
        crate::decoded::first_occurrence_wins(s, name, data);
        let yes = |d: Seq<u8>| true;
        let four = |d: Seq<u8>| d.len() == 4;
        let long = |d: Seq<u8>| d.len() == 32;
        let code = |d: Seq<u8>| d.len() == 1 && d[0] <= 3;
        let flag = |d: Seq<u8>| d.len() == 4 && d[3] <= 1;
        filter_upto(chunks, n, |c: (Seq<u8>, Seq<u8>)| c.0 == EXIF@ && yes(c.1));
        filter_upto(chunks, n, |c: (Seq<u8>, Seq<u8>)| c.0 == CABX@ && yes(c.1));
        filter_upto(chunks, n, |c: (Seq<u8>, Seq<u8>)| c.0 == GAMA@ && four(c.1));
        filter_upto(chunks, n, |c: (Seq<u8>, Seq<u8>)| c.0 == CHRM@ && long(c.1));
        filter_upto(chunks, n, |c: (Seq<u8>, Seq<u8>)| c.0 == SRGB@ && code(c.1));
        filter_upto(chunks, n, |c: (Seq<u8>, Seq<u8>)| c.0 == CICP@ && flag(c.1));
    }
}

/// The metadata of a list of chunks holds, of each kind that comes once, the first that has the shape of
/// its kind: the first eXIf, the first gAMA of four bytes, the first cHRM of eight numbers, the first sRGB of
/// a defined intent, the first cICP with a flag that is one. The store is the first caBX or none; every other
/// caBX is counted.
pub proof fn the_first_of_each_kind_is_read(chunks: Seq<(Seq<u8>, Seq<u8>)>, budget: int)
    ensures
        ({
            let m = metadata_of(chunks, budget);
            let exif = shaped(chunks, EXIF@, |d: Seq<u8>| true);
            let gama = shaped(chunks, GAMA@, |d: Seq<u8>| d.len() == 4);
            let chrm = shaped(chunks, CHRM@, |d: Seq<u8>| d.len() == 32);
            let srgb = shaped(chunks, SRGB@, |d: Seq<u8>| d.len() == 1 && d[0] <= 3);
            let cicp = shaped(chunks, CICP@, |d: Seq<u8>| d.len() == 4 && d[3] <= 1);
            let cabx = shaped(chunks, CABX@, |d: Seq<u8>| true);
            &&& m.exif == (if exif.len() > 0 {
                Some(exif[0].1)
            } else {
                None
            })
            &&& m.gamma is Some <==> gama.len() > 0
            &&& gama.len() > 0 ==> m.gamma->0 == spelled(gama[0].1)
            &&& m.chromaticities is Some <==> chrm.len() > 0
            &&& chrm.len() > 0 ==> m.chromaticities == chrm_of(chrm[0].1)
            &&& m.srgb is Some <==> srgb.len() > 0
            &&& srgb.len() > 0 ==> m.srgb == intent_of(srgb[0].1[0])
            &&& m.cicp is Some <==> cicp.len() > 0
            &&& cicp.len() > 0 ==> m.cicp == cicp_of(cicp[0].1)
            &&& m.c2pa matches Some(store) ==> cabx.len() > 0 && store == cabx[0].1
            &&& m.c2pa_ignored == (if cabx.len() > 0 {
                cabx.len() - 1
            } else {
                0
            })
        }),
{
    let n = chunks.len() as int;
    fields_upto(chunks, budget, n);
    assert(chunks.take(n) =~= chunks);
    let gama = shaped(chunks, GAMA@, |d: Seq<u8>| d.len() == 4);
    if gama.len() > 0 {
        color_chunks_are_laid_out(gama[0].1);
    }
}

proof fn texts_upto(chunks: Seq<(Seq<u8>, Seq<u8>)>, budget: int, n: int)
    requires
        0 <= n <= chunks.len(),
    ensures
        collected(chunks, budget, n).meta.texts.filter(
            |t: TextModel| t.kind is Text,
        ) == chunks.take(n).filter(
            |c: (Seq<u8>, Seq<u8>)| c.0 == TEXT@ && keyword_split(c.1) is Some,
        ).map_values(|c: (Seq<u8>, Seq<u8>)| text_of(c.1)->0),
    decreases n,
{
    let keep = |t: TextModel| t.kind is Text;
    let wanted = |c: (Seq<u8>, Seq<u8>)| c.0 == TEXT@ && keyword_split(c.1) is Some;
    let made = |c: (Seq<u8>, Seq<u8>)| text_of(c.1)->0;
    reveal(Seq::filter);
    if n == 0 {
        assert(collected(chunks, budget, 0).meta.texts.filter(keep) =~= Seq::<TextModel>::empty());
        assert(chunks.take(0).filter(wanted).map_values(made) =~= Seq::<TextModel>::empty());
    } else {
        texts_upto(chunks, budget, n - 1);
        let (name, data) = chunks[n - 1];
        let s = collected(chunks, budget, n - 1);
        let next = collected(chunks, budget, n);
        types_differ();
        what_a_chunk_adds(s, data);
        a_chunk_adds_to_its_own_field(s, name, data);
        filter_upto(chunks, n, wanted);
        if next.meta.texts != s.meta.texts {
            assert(next.meta.texts.drop_last() =~= s.meta.texts);
        }
        if wanted(chunks[n - 1]) {
            assert(chunks.take(n - 1).filter(wanted).push(chunks[n - 1]).map_values(made)
                =~= chunks.take(n - 1).filter(wanted).map_values(made).push(made(chunks[n - 1])));
        }
    }
}

/// Every tEXt with a keyword is an annotation, in file order.
pub proof fn every_latin1_text_is_read(chunks: Seq<(Seq<u8>, Seq<u8>)>, budget: int)
    ensures
        metadata_of(chunks, budget).texts.filter(|t: TextModel| t.kind is Text) == chunks.filter(
            |c: (Seq<u8>, Seq<u8>)| c.0 == TEXT@ && keyword_split(c.1) is Some,
        ).map_values(|c: (Seq<u8>, Seq<u8>)| text_of(c.1)->0),
{
    let n = chunks.len() as int;
    texts_upto(chunks, budget, n);
    assert(chunks.take(n) =~= chunks);
}

/// A tEXt behind every other chunk adds its annotation behind every other annotation, and changes nothing
/// else.
pub proof fn a_last_text_is_the_last_annotation(
    chunks: Seq<(Seq<u8>, Seq<u8>)>,
    keyword: Seq<u8>,
    text: Seq<u8>,
    budget: int,
)
    requires
        1 <= keyword.len() <= 79,
        nul_free(keyword),
    ensures
        metadata_of(chunks.push((TEXT@, keyword + seq![0u8] + text)), budget) == (MetadataModel {
            texts: metadata_of(chunks, budget).texts.push(
                TextModel {
                    keyword: latin1_chars(keyword),
                    text: latin1_chars(text),
                    language: None,
                    translated_keyword: None,
                    kind: TextChunkKind::Text,
                },
            ),
            ..metadata_of(chunks, budget)
        }),
{
    let data = keyword + seq![0u8] + text;
    crate::parse::collected_push(chunks, (TEXT@, data), budget);
    latin1_payloads_are_read(keyword, text, 0, budget);
    let s = collected(chunks, budget, chunks.len() as int);
    types_differ();
    what_a_chunk_adds(s, data);
    a_chunk_adds_to_its_own_field(s, TEXT@, data);
}

/// The payloads that are written and never read back: pHYs is pixels per unit across and up and the unit,
/// tIME the seven bytes that were set; beside them the layouts of the colour chunks.
pub proof fn written_payloads_are_laid_out(a: Ancillary, effort: u8)
    ensures
        a.phys matches Some((x, y, unit)) ==> (a.phys_payload() matches Some(p) && p.len() == 9 && spelled(
            p.subrange(0, 4),
        ) == x && spelled(p.subrange(4, 8)) == y && p[8] == unit),
        a.phys is None ==> a.phys_payload() is None,
        a.time matches Some(t) ==> a.time_payload() == Some(t@),
        a.time is None ==> a.time_payload() is None,
        a.gamma matches Some(g) ==> (a.gama_payload() matches Some(p) && p.len() == 4 && spelled(p) == g),
        a.gamma is None ==> a.gama_payload() is None,
        a.srgb matches Some(code) ==> a.srgb_payload() == Some(seq![code]),
        a.srgb is None ==> a.srgb_payload() is None,
        a.cicp matches Some((primaries, transfer, full)) ==> (a.cicp_payload() matches Some(p) && p.len() == 4
            && p[0] == primaries && p[1] == transfer && p[2] == 0 && p[3] == (if full {
            1int
        } else {
            0
        })),
        a.cicp is None ==> a.cicp_payload() is None,
        a.chrm is None ==> a.chrm_payload() is None,
        a.iccp is None ==> a.iccp_payload(effort) is None,
{
    if let Some((x, y, unit)) = a.phys {
        let p = a.phys_payload()->0;
        assert(p.subrange(0, 4) =~= be32_seq(x as int));
        assert(p.subrange(4, 8) =~= be32_seq(y as int));
        numbers_are_big_endian(x, 0, p, 0);
        numbers_are_big_endian(y, 0, p, 0);
    }
    if let Some(g) = a.gamma {
        numbers_are_big_endian(g, 0, be32_seq(g as int), 0);
    }
}

/// A background is written as the colour it was set to, or not at all: an index of the caller's own palette
/// stays, a colour becomes the grey or the colour samples of the written image where they hold it, and the
/// entry of the palette that has it, an opaque one before any other.
pub proof fn a_written_background_is_the_colour_that_was_set(bkgd: Seq<u8>, written: WrittenModel)
    ensures
        bkgd.len() == 1 ==> (background_for(bkgd, written) is Some <==> written.color is Indexed && (
        written.palette matches Some(p) && p.origin is Caller && bkgd[0] < p.plte.len() as int / 3)),
        bkgd.len() == 1 && background_for(bkgd, written) is Some ==> background_for(bkgd, written) == Some(
            bkgd,
        ),
        bkgd.len() != 1 && bkgd.len() != 2 && bkgd.len() != 6 ==> background_for(bkgd, written) is None,
        bkgd.len() == 2 || bkgd.len() == 6 ==> {
            let r = 256 * bkgd[0] + bkgd[1];
            let g = if bkgd.len() == 2 {
                r
            } else {
                256 * bkgd[2] + bkgd[3]
            };
            let b = if bkgd.len() == 2 {
                r
            } else {
                256 * bkgd[4] + bkgd[5]
            };
            let got = background_for(bkgd, written);
            &&& (written.color is Grayscale || written.color is GrayscaleAlpha) && got is Some ==> r == g
                && g == b && got->0.len() == 2 && 256 * got->0[0] + got->0[1] == r
            &&& (written.color is Truecolor || written.color is TruecolorAlpha) && got is Some
                ==> got->0.len() == 6 && 256 * got->0[0] + got->0[1] == r && 256 * got->0[2] + got->0[3]
                == g && 256 * got->0[4] + got->0[5] == b
            &&& written.bit_depth == 16 && (written.color is Truecolor || written.color is TruecolorAlpha)
                ==> got is Some
            &&& written.bit_depth == 16 && (written.color is Grayscale || written.color is GrayscaleAlpha)
                ==> (got is Some <==> r == g && g == b)
            &&& written.bit_depth == 8 && (written.color is Truecolor || written.color is TruecolorAlpha)
                ==> (got is Some <==> r < 256 && g < 256 && b < 256)
            &&& written.bit_depth == 8 && (written.color is Grayscale || written.color is GrayscaleAlpha)
                ==> (got is Some <==> r == g && g == b && r < 256)
            &&& written.color is Indexed && got is Some ==> written.palette is Some && got->0.len() == 1 && {
                let p = written.palette->0;
                let i = got->0[0] as int;
                &&& 3 * i + 2 < p.plte.len()
                &&& p.plte[3 * i] == r && p.plte[3 * i + 1] == g && p.plte[3 * i + 2] == b
                &&& alpha_at(p.trns, i) != 255 ==> forall|j: int|
                    0 <= j < p.plte.len() as int / 3 && #[trigger] p.holds(j, (r as u8, g as u8, b as u8))
                        ==> alpha_at(p.trns, j) != 255
            }
        },
{
    reveal_with_fuel(crate::ancillary::two_to, 9);
    if let Some((r, g, b)) = background_samples(bkgd) {
        numbers_are_big_endian(0, r as u16, bkgd, 0);
        numbers_are_big_endian(0, g as u16, bkgd, 2);
        numbers_are_big_endian(0, b as u16, bkgd, 4);
        let out = be16_seq(r) + be16_seq(g) + be16_seq(b);
        assert(out[0] == be16_seq(r)[0] && out[1] == be16_seq(r)[1]);
        assert(out[2] == be16_seq(g)[0] && out[3] == be16_seq(g)[1]);
        assert(out[4] == be16_seq(b)[0] && out[5] == be16_seq(b)[1]);
        if written.palette is Some {
            let p = written.palette->0;
            let rgb = (r as u8, g as u8, b as u8);
            first_entry(p, rgb, true, 0);
            first_entry(p, rgb, false, 0);
        }
    }
}

/// The search of a palette finds the first entry of a colour, or there is none.
pub proof fn first_entry(p: PaletteModel, rgb: (u8, u8, u8), opaque_only: bool, from: int)
    requires
        0 <= from,
    ensures
        match p.first_from(rgb, opaque_only, from) {
            Some(i) => {
                &&& from <= i < p.plte.len() as int / 3
                &&& p.plte[3 * i] == rgb.0 && p.plte[3 * i + 1] == rgb.1 && p.plte[3 * i + 2] == rgb.2
                &&& opaque_only ==> alpha_at(p.trns, i) == 255
                &&& forall|j: int|
                    from <= j < i ==> !(#[trigger] p.holds(j, rgb)) || (opaque_only && alpha_at(p.trns, j)
                        != 255)
            },
            None => forall|j: int|
                from <= j < p.plte.len() as int / 3 ==> !(#[trigger] p.holds(j, rgb)) || (opaque_only
                    && alpha_at(p.trns, j) != 255),
        },
    decreases p.plte.len() as int / 3 - from,
{
    if from < p.plte.len() as int / 3 {
        first_entry(p, rgb, opaque_only, from + 1);
    }
}

/// Significant bits are written channel for channel: each channel of the written image has the count that
/// was set for it, a grey image only one that was set alike for all three colours, and no count is written
/// for an alpha that none was set for. A count of 0 or over the depth is not written; entries of a palette
/// count to 8.
pub proof fn written_significant_bits_are_those_that_were_set(sbit: Seq<u8>, color: ColorType, depth: u8)
    ensures
        ({
            let got = significant_for(sbit, color, depth);
            let rgb = if sbit.len() >= 3 {
                (sbit[0], sbit[1], sbit[2])
            } else {
                (sbit[0], sbit[0], sbit[0])
            };
            let has_alpha = sbit.len() == 2 || sbit.len() == 4;
            let limit = if color is Indexed {
                8
            } else {
                depth
            };
            let gray = rgb.0 == rgb.1 && rgb.1 == rgb.2;
            &&& got is Some ==> 1 <= sbit.len() <= 4 && forall|i: int|
                0 <= i < got->0.len() ==> 1 <= #[trigger] got->0[i] <= limit
            &&& got is Some && color is Grayscale ==> gray && got->0 == seq![rgb.0]
            &&& got is Some && color is GrayscaleAlpha ==> gray && has_alpha && got->0 == seq![
                rgb.0,
                sbit.last(),
            ]
            &&& got is Some && (color is Truecolor || color is Indexed) ==> got->0 == seq![
                rgb.0,
                rgb.1,
                rgb.2,
            ]
            &&& got is Some && color is TruecolorAlpha ==> has_alpha && got->0 == seq![
                rgb.0,
                rgb.1,
                rgb.2,
                sbit.last(),
            ]
            &&& 1 <= sbit.len() <= 4 && (forall|i: int|
                0 <= i < sbit.len() ==> 1 <= #[trigger] sbit[i] <= limit) && (color is Grayscale || color is
                GrayscaleAlpha ==> gray) && (color is GrayscaleAlpha || color is TruecolorAlpha
                ==> has_alpha) ==> got is Some
        }),
{
}

/// A keyword is refused exactly where it is empty or longer than 79 characters, holds a character that is
/// not printable Latin-1, or has a space at an end or two in a row.
pub proof fn keywords_are_restricted(keyword: Seq<char>)
    ensures
        keyword_rule(keyword) is None <==> {
            &&& 1 <= keyword.len() <= 79
            &&& forall|i: int|
                0 <= i < keyword.len() ==> 32 <= (#[trigger] keyword[i]) as u32 <= 126 || 161
                    <= keyword[i] as u32 <= 255
            &&& keyword[0] as u32 != 32
            &&& keyword.last() as u32 != 32
            &&& forall|i: int|
                0 < i < keyword.len() && (#[trigger] keyword[i]) as u32 == 32 ==> keyword[i - 1] as u32
                    != 32
        },
        keyword_rule(keyword) == Some(TextRule::KeywordLength) ==> keyword.len() == 0 || keyword.len() > 79,
        keyword_rule(keyword) == Some(TextRule::KeywordRepertoire) ==> exists|i: int|
            0 <= i < keyword.len() && !(32 <= (#[trigger] keyword[i]) as u32 <= 126 || 161
                <= keyword[i] as u32 <= 255),
{
}

/// UTF-8 is read where it is valid, and as the text that it spells.
pub proof fn utf8_is_read_as_it_was_written(text: Seq<char>, bytes: Seq<u8>)
    ensures
        utf8_of(encode_utf8(text)) == Some(text),
        utf8_of(bytes) is Some <==> valid_utf8(bytes),
{
    encode_utf8_valid_utf8(text);
    encode_utf8_decode_utf8(text);
}

/// The value that decimal digits spell.
pub open spec fn value_of(digits: Seq<char>) -> int
    decreases digits.len(),
{
    if digits.len() == 0 {
        0
    } else {
        10 * value_of(digits.drop_last()) + (digits.last() as u32 - 48)
    }
}

/// A number in decimal is digits that spell it, without a leading zero.
pub proof fn numbers_are_spelled_in_decimal(n: nat)
    ensures
        value_of(decimal_text(n)) == n,
        decimal_text(n).len() >= 1,
        forall|i: int|
            0 <= i < decimal_text(n).len() ==> 48 <= (#[trigger] decimal_text(n)[i]) as u32 <= 57,
        n > 0 ==> decimal_text(n)[0] as u32 != 48,
    decreases n,
{
    let digit = (48 + n % 10) as char;
    assert(digit as u32 == 48 + n % 10);
    let all = decimal_text(n);
    reveal_with_fuel(value_of, 2);
    if n < 10 {
        assert(all.drop_last() =~= Seq::<char>::empty());
        assert(all.last() == digit);
    } else {
        numbers_are_spelled_in_decimal(n / 10);
        let front = decimal_text(n / 10);
        assert(all.drop_last() =~= front);
        assert(all.last() == digit);
        assert(all[0] == front[0]);
        assert forall|i: int| 0 <= i < all.len() implies 48 <= (#[trigger] all[i]) as u32 <= 57 by {
            if i < front.len() {
                assert(all[i] == front[i]);
            }
        }
    }
}

/// Every intact caBX but the one that is the store is counted, those behind the image data too.
pub proof fn other_stores_are_counted(
    chunks: Seq<(Seq<u8>, Seq<u8>)>,
    late_stores: int,
    budget: int,
)
    ensures
        ({
            let n = chunks.filter(|c: (Seq<u8>, Seq<u8>)| c.0 == CABX@).len() as int;
            let m = metadata_with_late(chunks, late_stores, budget);
            &&& m.c2pa_ignored == late_stores + (if n > 0 {
                n - 1
            } else {
                0
            })
            &&& m == (MetadataModel { c2pa_ignored: m.c2pa_ignored, ..metadata_of(chunks, budget) })
        }),
{
    the_first_of_each_kind_is_read(chunks, budget);
    let yes = |d: Seq<u8>| true;
    assert((|c: (Seq<u8>, Seq<u8>)| c.0 == CABX@ && yes(c.1)) =~= (|c: (Seq<u8>, Seq<u8>)| c.0 == CABX@));
}

} // verus!
