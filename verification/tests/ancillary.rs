//! The chunks that annotate an image.
use gamut_png::ancillary::{
    bkgd_for, fits_depth, sbit_for, Ancillary, PaletteOrigin, PhysicalUnit, SrgbIntent,
    WrittenHeader, WrittenPalette,
};
use gamut_png::color::ColorType;
use gamut_png::zlib::DEFAULT_EFFORT;

fn rgb8() -> WrittenHeader<'static> {
    WrittenHeader::new(ColorType::Truecolor, 8)
}

fn find_chunk(png: &[u8], ty: &[u8; 4]) -> Option<Vec<u8>> {
    // Walk the chunk stream (after the 8-byte signature) and return a chunk's data.
    let mut i = 8;
    while i + 12 <= png.len() {
        let len = u32::from_be_bytes([png[i], png[i + 1], png[i + 2], png[i + 3]]) as usize;
        let kind = &png[i + 4..i + 8];
        if kind == ty {
            return Some(png[i + 8..i + 8 + len].to_vec());
        }
        i += 12 + len;
    }
    None
}

#[test]
fn physical_unit_codes_are_distinct() {
    let mut unitless = Ancillary::default();
    unitless.set_physical(300, 300, PhysicalUnit::Unknown);
    assert_eq!(unitless.phys, Some((300, 300, 0)));

    let mut metric = Ancillary::default();
    metric.set_physical(2835, 2835, PhysicalUnit::Meter);
    assert_eq!(metric.phys, Some((2835, 2835, 1)));
}

#[test]
fn pre_plte_serialisation() {
    let a = Ancillary {
        gamma: Some(45455),
        srgb: Some(SrgbIntent::Perceptual.code()),
        sbit: Some(vec![5, 6, 5]),
        ..Default::default()
    };
    let mut out = vec![0u8; 8]; // fake signature
    a.write_pre_plte(&mut out, DEFAULT_EFFORT, rgb8());
    assert_eq!(
        find_chunk(&out, b"gAMA"),
        Some(45455u32.to_be_bytes().to_vec())
    );
    assert_eq!(find_chunk(&out, b"sRGB"), Some(vec![0]));
    assert_eq!(find_chunk(&out, b"sBIT"), Some(vec![5, 6, 5]));
}

#[test]
fn post_plte_serialisation() {
    let mut a = Ancillary::default();
    a.set_physical(2835, 2835, PhysicalUnit::Meter);
    a.set_time(2026, 6, 13, 1, 2, 3);
    a.add_text_latin1("Title", "hi");
    let mut out = vec![0u8; 8];
    a.write_post_plte(&mut out, DEFAULT_EFFORT, rgb8());
    let phys = find_chunk(&out, b"pHYs").unwrap();
    assert_eq!(&phys[0..4], 2835u32.to_be_bytes());
    assert_eq!(phys[8], 1); // metre
    assert_eq!(
        find_chunk(&out, b"tIME").unwrap(),
        vec![7, 234, 6, 13, 1, 2, 3]
    ); // 2026 = 0x07EA
    assert_eq!(find_chunk(&out, b"tEXt").unwrap(), b"Title\0hi".to_vec());
}

#[test]
fn the_c2pa_store_is_written_raw_and_last_before_idat() {
    let mut a = Ancillary::default();
    a.add_text_latin1("Before", "set first");
    a.c2pa = Some(b"\0\0\0\x1fjumb".to_vec());
    a.add_text_compressed("After", "set later");
    a.set_time(2026, 9, 6, 0, 0, 0);
    let mut out = vec![0u8; 8];
    a.write_post_plte(&mut out, DEFAULT_EFFORT, rgb8());

    let mut types = Vec::new();
    let mut i = 8;
    while i + 12 <= out.len() {
        let len = u32::from_be_bytes([out[i], out[i + 1], out[i + 2], out[i + 3]]) as usize;
        types.push(out[i + 4..i + 8].to_vec());
        i += 12 + len;
    }
    assert_eq!(types.last().map(Vec::as_slice), Some(&b"caBX"[..]));
    assert_eq!(
        types.iter().filter(|t| t.as_slice() == b"caBX").count(),
        1,
        "exactly one store"
    );
    assert_eq!(
        find_chunk(&out, b"caBX"),
        Some(b"\0\0\0\x1fjumb".to_vec()),
        "the payload is the store verbatim"
    );
    // Unset, no chunk at all.
    let mut none = vec![0u8; 8];
    Ancillary::default().write_post_plte(&mut none, DEFAULT_EFFORT, rgb8());
    assert_eq!(find_chunk(&none, b"caBX"), None);
}

#[test]
fn iccp_and_exif_framing() {
    let a = Ancillary {
        iccp: Some(("p".to_string(), b"the quick brown fox".to_vec())),
        exif: Some(vec![0x49, 0x49, 0x2A, 0x00]),
        ..Default::default()
    };
    let mut pre = vec![0u8; 8];
    a.write_pre_plte(&mut pre, DEFAULT_EFFORT, rgb8());
    let iccp = find_chunk(&pre, b"iCCP").unwrap();
    assert_eq!(&iccp[..2], b"p\0"); // profile name + null
    assert_eq!(iccp[2], 0); // compression method
    assert_eq!(iccp[3], 0x78); // zlib CMF byte begins the compressed profile

    let mut post = vec![0u8; 8];
    a.write_post_plte(&mut post, DEFAULT_EFFORT, rgb8());
    assert_eq!(
        find_chunk(&post, b"eXIf").unwrap(),
        vec![0x49, 0x49, 0x2A, 0x00]
    );
}

#[test]
fn compressed_text_has_keyword_and_zlib_stream() {
    let mut a = Ancillary::default();
    a.add_text_compressed("Comment", "the quick brown fox");
    let mut out = vec![0u8; 8];
    a.write_post_plte(&mut out, DEFAULT_EFFORT, rgb8());
    let data = find_chunk(&out, b"zTXt").unwrap();
    assert_eq!(&data[..8], b"Comment\0");
    assert_eq!(data[8], 0); // compression method
    assert_eq!(data[9], 0x78); // the zlib CMF byte begins the compressed text
}

fn header(color: ColorType, bit_depth: u8) -> WrittenHeader<'static> {
    WrittenHeader::new(color, bit_depth)
}

const PLTE: [u8; 9] = [200, 30, 60, 77, 77, 77, 20, 90, 220];

fn palette(origin: PaletteOrigin, trns: Option<&'static [u8]>) -> WrittenHeader<'static> {
    WrittenHeader {
        color: ColorType::Indexed,
        bit_depth: 8,
        palette: Some(WrittenPalette {
            plte: &PLTE,
            trns,
            origin,
        }),
    }
}

fn indexed(bit_depth: u8) -> WrittenHeader<'static> {
    WrittenHeader {
        bit_depth,
        ..palette(PaletteOrigin::Caller, None)
    }
}

#[test]
fn a_background_index_survives_only_inside_the_callers_palette() {
    assert_eq!(bkgd_for(&[2], indexed(2)), Some(vec![2]));
    assert_eq!(bkgd_for(&[3], indexed(2)), None, "past the palette");
    // An encoder-derived palette is in an order the caller never saw.
    assert_eq!(bkgd_for(&[2], palette(PaletteOrigin::Derived, None)), None);
    // And under any other colour type there is no palette at all.
    assert_eq!(bkgd_for(&[0], header(ColorType::TruecolorAlpha, 8)), None);
    assert_eq!(bkgd_for(&[0], header(ColorType::Grayscale, 8)), None);
}

#[test]
fn a_colour_with_a_transparent_twin_names_the_opaque_entry() {
    // Two black entries: the transparent one first, as the encoder orders them.
    const BLACKS: [u8; 9] = [0, 0, 0, 0, 0, 0, 20, 90, 220];
    let twins = |trns: Option<&'static [u8]>| WrittenHeader {
        color: ColorType::Indexed,
        bit_depth: 8,
        palette: Some(WrittenPalette {
            plte: &BLACKS,
            trns,
            origin: PaletteOrigin::Derived,
        }),
    };
    assert_eq!(
        bkgd_for(&[0, 0, 0, 0, 0, 0], twins(Some(&[0]))),
        Some(vec![1])
    );
    // Past the end of tRNS every entry is opaque, so the first match is opaque and wins.
    assert_eq!(bkgd_for(&[0, 0, 0, 0, 0, 0], twins(None)), Some(vec![0]));
    // A triple that exists only under transparency still names that entry: its RGB is what a
    // compositing reader paints.
    assert_eq!(
        bkgd_for(&[0, 0, 0, 0, 0, 0], twins(Some(&[0, 0]))),
        Some(vec![0])
    );
    // Derivation is independent of the origin: an RGB colour resolves against either.
    assert_eq!(
        bkgd_for(&[0, 20, 0, 90, 0, 220], twins(Some(&[0]))),
        Some(vec![2])
    );
}

#[test]
fn a_colour_under_a_palette_becomes_the_index_of_its_entry() {
    // RGB (20, 90, 220) is entry 2; grey 77 is entry 1; (1, 2, 3) is nowhere.
    assert_eq!(bkgd_for(&[0, 20, 0, 90, 0, 220], indexed(8)), Some(vec![2]));
    assert_eq!(bkgd_for(&[0, 77], indexed(8)), Some(vec![1]));
    assert_eq!(bkgd_for(&[0, 1, 0, 2, 0, 3], indexed(8)), None);
    // A 16-bit sample has no 8-bit palette entry.
    assert_eq!(bkgd_for(&[1, 0, 1, 0, 1, 0], indexed(8)), None);
}

#[test]
fn grey_and_rgb_backgrounds_convert_where_the_channels_agree() {
    assert_eq!(
        bkgd_for(&[0, 77, 0, 77, 0, 77], header(ColorType::Grayscale, 8)),
        Some(vec![0, 77])
    );
    assert_eq!(
        bkgd_for(&[0, 77, 0, 77, 0, 78], header(ColorType::GrayscaleAlpha, 8)),
        None,
        "not a grey"
    );
    assert_eq!(
        bkgd_for(&[0, 77], header(ColorType::Truecolor, 8)),
        Some(vec![0, 77, 0, 77, 0, 77])
    );
    // Same colour type: byte for byte.
    assert_eq!(
        bkgd_for(&[0, 1, 0, 2, 0, 3], header(ColorType::TruecolorAlpha, 8)),
        Some(vec![0, 1, 0, 2, 0, 3])
    );
    // A wrong-length payload has no colour type at all.
    assert_eq!(bkgd_for(&[1, 2, 3], header(ColorType::Truecolor, 8)), None);
}

#[test]
fn a_background_sample_must_fit_the_written_depth() {
    // 256 does not fit depth 8 in either framing; anything fits depth 16.
    assert_eq!(bkgd_for(&[1, 0], header(ColorType::Grayscale, 8)), None);
    assert_eq!(
        bkgd_for(&[1, 0], header(ColorType::Grayscale, 16)),
        Some(vec![1, 0])
    );
    assert_eq!(
        bkgd_for(&[0, 1, 0, 2, 1, 0], header(ColorType::Truecolor, 8)),
        None
    );
    // Sub-byte grey: 3 is the last code at depth 2, 4 is not one.
    assert_eq!(
        bkgd_for(&[0, 3], header(ColorType::Grayscale, 2)),
        Some(vec![0, 3])
    );
    assert_eq!(bkgd_for(&[0, 4], header(ColorType::Grayscale, 2)), None);
    assert!(fits_depth(255, 8));
    assert!(!fits_depth(256, 8));
    assert!(fits_depth(65535, 16));
}

#[test]
fn significant_bits_follow_the_written_channels() {
    // Dropping a channel the written image no longer has.
    assert_eq!(
        sbit_for(&[5, 6, 5, 4], ColorType::Truecolor, 8),
        Some(vec![5, 6, 5])
    );
    assert_eq!(
        sbit_for(&[5, 6, 5, 4], ColorType::Indexed, 1),
        Some(vec![5, 6, 5]),
        "a palette's sBIT is three entries at any index depth"
    );
    assert_eq!(
        sbit_for(&[7, 7, 7, 4], ColorType::GrayscaleAlpha, 8),
        Some(vec![7, 4])
    );
    assert_eq!(sbit_for(&[7, 7, 7], ColorType::Grayscale, 8), Some(vec![7]));
    assert_eq!(sbit_for(&[7, 4], ColorType::Grayscale, 8), Some(vec![7]));
    // Grey to RGB where the channels agree, and never to a differing RGB.
    assert_eq!(sbit_for(&[7], ColorType::Truecolor, 8), Some(vec![7, 7, 7]));
    assert_eq!(sbit_for(&[5, 6, 5], ColorType::Grayscale, 8), None);
    // All three must agree, not any two: one agreeing pair is still not a grey.
    assert_eq!(sbit_for(&[5, 5, 6], ColorType::Grayscale, 8), None);
    assert_eq!(sbit_for(&[6, 5, 5], ColorType::GrayscaleAlpha, 8), None);
    // An alpha entry cannot be invented.
    assert_eq!(sbit_for(&[5, 6, 5], ColorType::TruecolorAlpha, 8), None);
    assert_eq!(sbit_for(&[7], ColorType::GrayscaleAlpha, 8), None);
    // Same colour type: byte for byte; a wrong length has no colour type.
    assert_eq!(
        sbit_for(&[5, 6, 5, 4], ColorType::TruecolorAlpha, 8),
        Some(vec![5, 6, 5, 4])
    );
    assert_eq!(sbit_for(&[], ColorType::Truecolor, 8), None);
    assert_eq!(sbit_for(&[1, 2, 3, 4, 5], ColorType::Truecolor, 8), None);
}

#[test]
fn a_significant_bit_count_is_one_to_the_written_depth() {
    assert_eq!(sbit_for(&[8], ColorType::Grayscale, 8), Some(vec![8]));
    assert_eq!(
        sbit_for(&[9], ColorType::Grayscale, 8),
        None,
        "past the depth"
    );
    assert_eq!(
        sbit_for(&[0], ColorType::Grayscale, 8),
        None,
        "zero is not a count"
    );
    assert_eq!(sbit_for(&[12], ColorType::Grayscale, 16), Some(vec![12]));
    // A palette's entries are 8-bit whatever the index depth.
    assert_eq!(
        sbit_for(&[8, 8, 8], ColorType::Indexed, 1),
        Some(vec![8, 8, 8])
    );
    assert_eq!(sbit_for(&[9, 8, 8], ColorType::Indexed, 8), None);
    // Sub-byte grey: the count cannot exceed the depth.
    assert_eq!(sbit_for(&[2], ColorType::Grayscale, 2), Some(vec![2]));
    assert_eq!(sbit_for(&[3], ColorType::Grayscale, 2), None);
}

#[test]
fn the_writers_emit_the_converted_chunk_or_none() {
    // The two `write_*` entry points route through the conversions rather than emitting the
    // stored bytes: a four-entry sBIT under a written palette comes out as three, and an RGB
    // background under a written greyscale it cannot name comes out not at all.
    let a = Ancillary {
        sbit: Some(vec![5, 6, 5, 4]),
        bkgd: Some(vec![0, 1, 0, 2, 0, 3]),
        ..Default::default()
    };
    let mut pre = vec![0u8; 8];
    a.write_pre_plte(&mut pre, DEFAULT_EFFORT, indexed(8));
    assert_eq!(find_chunk(&pre, b"sBIT"), Some(vec![5, 6, 5]));

    let mut post = vec![0u8; 8];
    a.write_post_plte(
        &mut post,
        DEFAULT_EFFORT,
        header(ColorType::Grayscale, 8),
    );
    assert_eq!(find_chunk(&post, b"bKGD"), None);
}

fn post_plte(a: &Ancillary) -> Vec<u8> {
    let mut out = vec![0u8; 8];
    a.write_post_plte(&mut out, DEFAULT_EFFORT, rgb8());
    out
}

fn refusal(a: &Ancillary) -> String {
    a.validate().expect_err("the encode is refused").to_text()
}

#[test]
fn latin1_text_is_written_one_byte_per_character() {
    let mut a = Ancillary::default();
    a.add_text_latin1("Author", "café ÿ");
    assert_eq!(
        find_chunk(&post_plte(&a), b"tEXt"),
        Some(b"Author\0caf\xE9 \xFF".to_vec())
    );
}

#[test]
fn text_outside_latin1_is_promoted_to_itxt() {
    let mut a = Ancillary::default();
    a.add_text_latin1("Title", "字");
    let out = post_plte(&a);
    assert_eq!(find_chunk(&out, b"tEXt"), None);
    // keyword, NUL, compression flag 0, method 0, empty language, empty translated keyword,
    // then the UTF-8 text (§11.3.3.4).
    assert_eq!(
        find_chunk(&out, b"iTXt"),
        Some(b"Title\0\0\0\0\0\xE5\xAD\x97".to_vec())
    );
}

#[test]
fn a_control_character_promotes_the_annotation_to_itxt() {
    let mut a = Ancillary::default();
    a.add_text_latin1("Title", "one\u{7F}two");
    let out = post_plte(&a);
    assert_eq!(find_chunk(&out, b"tEXt"), None);
    assert_eq!(
        find_chunk(&out, b"iTXt"),
        Some(b"Title\0\0\0\0\0one\x7Ftwo".to_vec())
    );
}

#[test]
fn a_line_feed_and_the_top_of_latin1_stay_in_a_text_chunk() {
    let mut a = Ancillary::default();
    a.add_text_latin1("Description", "line\nÿ");
    let out = post_plte(&a);
    assert_eq!(find_chunk(&out, b"iTXt"), None);
    assert_eq!(
        find_chunk(&out, b"tEXt"),
        Some(b"Description\0line\n\xFF".to_vec())
    );
}

#[test]
fn compressed_text_outside_latin1_stays_compressed_in_itxt() {
    let body = "字".repeat(200);
    let mut a = Ancillary::default();
    a.add_text_compressed("Comment", &body);
    let out = post_plte(&a);
    assert_eq!(find_chunk(&out, b"zTXt"), None);
    let itxt = find_chunk(&out, b"iTXt").expect("promoted to iTXt");
    assert_eq!(&itxt[..12], b"Comment\0\x01\0\0\0");
    assert!(
        itxt.len() < body.len(),
        "the body is deflated, not copied: {} bytes",
        itxt.len()
    );
}

#[test]
fn a_profile_and_a_rendering_intent_are_both_written() {
    let mut a = Ancillary::default();
    a.set_srgb(SrgbIntent::Perceptual);
    a.iccp = Some(("prof".to_string(), vec![0u8; 4]));
    assert!(a.validate().is_ok(), "the pair is legal");

    let mut out = vec![0u8; 8];
    a.write_pre_plte(&mut out, DEFAULT_EFFORT, rgb8());
    assert_eq!(find_chunk(&out, b"sRGB"), Some(vec![0]));
    assert!(
        find_chunk(&out, b"iCCP").is_some(),
        "the profile is written"
    );
}

#[test]
fn a_keyword_outside_one_to_seventy_nine_bytes_is_refused() {
    let mut ok = Ancillary::default();
    ok.add_text_latin1(&"k".repeat(79), "body");
    ok.add_text_latin1("k", "body");
    assert!(ok.validate().is_ok(), "79 bytes and 1 byte are inside");

    for keyword in ["", &"k".repeat(80)] {
        let mut a = Ancillary::default();
        a.add_text_latin1(keyword, "body");
        assert!(
            refusal(&a).contains("restricted to 1 to 79 bytes"),
            "keyword of {} bytes",
            keyword.len()
        );
    }
}

#[test]
fn a_keyword_outside_the_printable_latin1_repertoire_is_refused() {
    for keyword in [
        "Auth\0or",   // the field separator itself
        "Auth\u{7F}", // DELETE
        "Auth\u{9F}", // C1 control
        "Auth\u{A0}", // NON-BREAKING SPACE, named by the clause
        "题",         // outside Latin-1 altogether
    ] {
        let mut a = Ancillary::default();
        a.add_text_latin1(keyword, "body");
        assert!(
            refusal(&a).contains("code points 0x20-0x7E and 0xA1-0xFF"),
            "keyword {keyword:?}"
        );
    }

    let mut edges = Ancillary::default();
    edges.add_text_latin1("a\u{20}b\u{7E}\u{A1}\u{FF}", "body");
    assert!(edges.validate().is_ok(), "0x20, 0x7E, 0xA1 and 0xFF are in");
}

#[test]
fn a_keyword_with_a_leading_trailing_or_consecutive_space_is_refused() {
    for keyword in [" Author", "Author ", "Two  Words"] {
        let mut a = Ancillary::default();
        a.add_text_latin1(keyword, "body");
        assert!(
            refusal(&a).contains("leading, trailing or consecutive space"),
            "keyword {keyword:?}"
        );
    }

    let mut ok = Ancillary::default();
    ok.add_text_latin1("Two Words", "body");
    assert!(ok.validate().is_ok(), "a single interior space is allowed");
}

#[test]
fn a_null_in_a_text_string_is_refused() {
    let mut latin1 = Ancillary::default();
    latin1.add_text_latin1("Note", "before\0after");
    assert!(refusal(&latin1).contains("may not contain a null character"));

    let mut utf8 = Ancillary::default();
    utf8.add_text_international("Note", "before\0after");
    assert!(refusal(&utf8).contains("may not contain a null character"));
}

#[test]
fn a_null_in_a_translated_keyword_is_refused() {
    let mut a = Ancillary::default();
    a.add_text_international_tagged("Note", "de", "No\0tiz", "body", false);
    assert!(refusal(&a).contains("translated keyword may not contain a null"));
}

#[test]
fn a_language_tag_outside_bcp_47_is_refused() {
    for language in ["de\0DE", "zh_Hans", "dé"] {
        let mut a = Ancillary::default();
        a.add_text_international_tagged("Note", language, "", "body", false);
        assert!(
            refusal(&a).contains("ASCII letters, digits and '-'"),
            "language {language:?}"
        );
    }

    let mut ok = Ancillary::default();
    ok.add_text_international_tagged("Note", "", "", "body", false);
    ok.add_text_international_tagged("Note", "ar-AE-u-nu-latn", "", "body", false);
    assert!(
        ok.validate().is_ok(),
        "empty and a full BCP 47 tag are fine"
    );
}

#[test]
fn a_non_utf8_xmp_packet_is_refused() {
    let mut a = Ancillary::default();
    a.add_xmp(b"<x:xmpmeta \xFF\xFE/>");
    assert!(refusal(&a).contains("XMP packet is not UTF-8"));

    let mut valid = Ancillary::default();
    valid.add_xmp(b"<x:xmpmeta/>");
    assert!(valid.validate().is_ok(), "a UTF-8 packet is carried");
    assert!(find_chunk(&post_plte(&valid), b"iTXt").is_some());
}

#[test]
fn the_refusal_names_the_annotation_and_its_keyword() {
    let mut a = Ancillary::default();
    a.add_text_latin1("Title", "fine");
    a.add_text_latin1("Author", "bad\0body");
    let message = refusal(&a);
    assert!(message.contains("text annotation 1"), "{message}");
    assert!(message.contains(r#""Author""#), "{message}");
}

#[test]
fn a_tagged_itxt_keeps_its_language_and_translated_keyword() {
    let mut a = Ancillary::default();
    a.add_text_international_tagged("Author", "de", "Autor", "gämut", false);
    assert_eq!(
        find_chunk(&post_plte(&a), b"iTXt"),
        Some(b"Author\0\0\0de\0Autor\0g\xC3\xA4mut".to_vec())
    );
}

#[test]
fn a_second_carry_replaces_the_first_and_spares_direct_setters() {
    let mut a = Ancillary::default();
    a.add_text_latin1("Before", "kept");
    a.begin_carry();
    a.add_text_latin1("Carried", "once");
    a.end_carry();
    // Set *after* the carry ended: it must not be mistaken for part of it, which is what
    a.add_text_latin1("After", "kept");
    a.begin_carry();
    a.add_text_latin1("Carried", "once");
    a.end_carry();

    let keywords: Vec<&[u8]> = a.texts.iter().map(|e| e.keyword.as_slice()).collect();
    assert_eq!(
        keywords,
        [
            b"Before".as_slice(),
            b"After".as_slice(),
            b"Carried".as_slice()
        ]
    );
}

#[test]
fn cicp_is_written_with_the_matrix_fixed_at_zero() {
    let full = Ancillary {
        cicp: Some((9, 16, true)),
        ..Default::default()
    };
    let mut out = vec![0u8; 8];
    full.write_pre_plte(&mut out, DEFAULT_EFFORT, rgb8());
    assert_eq!(find_chunk(&out, b"cICP"), Some(vec![9, 16, 0, 1]));

    let narrow = Ancillary {
        cicp: Some((1, 13, false)),
        ..Default::default()
    };
    let mut out = vec![0u8; 8];
    narrow.write_pre_plte(&mut out, DEFAULT_EFFORT, rgb8());
    assert_eq!(find_chunk(&out, b"cICP"), Some(vec![1, 13, 0, 0]));
}
