//! Metadata set, written, read back and carried.
use gamut_png::ancillary::{PhysicalUnit, SrgbIntent};
use gamut_png::decoded::{
    Chromaticities, Cicp, IccProfile, PngMetadata, TextChunk, TextChunkKind, XmpFraming,
};
use gamut_png::decoder::{metadata, PngDecoder};
use gamut_png::encoder::{MetadataNotice, PngEncoder};
use gamut_png::error::Cause;
use gamut_png::palette::PngPalette;
use gamut_png::pixels::{ImageRef, PixelFormat};

const SAMPLES: [u8; 12] = [1, 2, 3, 4, 5, 6, 7, 8, 9, 10, 11, 12];

fn written(encoder: &PngEncoder) -> Vec<u8> {
    let image = ImageRef::new8(PixelFormat::Rgb8, &SAMPLES, 2, 2).unwrap();
    encoder.encode_to_vec(&image).unwrap()
}

fn text(keyword: &str, text: &str, kind: TextChunkKind) -> TextChunk {
    TextChunk {
        keyword: keyword.to_string(),
        text: text.to_string(),
        language: None,
        translated_keyword: None,
        kind,
    }
}

fn everything() -> PngMetadata {
    let mut m = PngMetadata::default();
    m.exif = Some(b"II*\0exif".to_vec());
    m.icc_profile = Some(IccProfile {
        name: "Display P3".to_string(),
        profile: (0..600u32).map(|i| (i % 7) as u8).collect(),
    });
    m.xmp = Some("<x:xmpmeta>\u{e9}</x:xmpmeta>".as_bytes().to_vec());
    m.xmp_framing = Some(XmpFraming {
        compressed: true,
        language: Some("en-GB".to_string()),
        translated_keyword: Some("paquet \u{e9}".to_string()),
    });
    m.texts = vec![
        text("Title", "plain \u{e9}\nsecond", TextChunkKind::Text),
        text("Comment", "squeezed squeezed squeezed", TextChunkKind::CompressedText),
        TextChunk {
            language: Some("pl".to_string()),
            translated_keyword: Some("Opis".to_string()),
            ..text("Description", "\u{17c}\u{f3}\u{142}w \u{1f422}", TextChunkKind::International)
        },
        TextChunk {
            language: Some("de".to_string()),
            ..text("Author", "gro\u{df} gro\u{df}", TextChunkKind::CompressedInternational)
        },
    ];
    m.gamma = Some(45_455);
    m.chromaticities = Some(Chromaticities {
        white: (31_270, 32_900),
        red: (64_000, 33_000),
        green: (30_000, 60_000),
        blue: (15_000, 0xFFFF_FFFF),
    });
    m.srgb = Some(SrgbIntent::Saturation);
    m.cicp = Some(Cicp {
        color_primaries: 12,
        transfer_function: 13,
        matrix_coefficients: 0,
        full_range: true,
    });
    m
}

#[test]
fn carried_metadata_is_what_is_read_back() {
    let m = everything();
    let encoder = PngEncoder::new().with_metadata(&m);
    assert_eq!(encoder.metadata_notices(), Vec::new());
    assert_eq!(metadata(&written(&encoder)).unwrap(), m);
}

#[test]
fn decoding_reads_the_same_metadata_and_carries_it() {
    let m = everything();
    let png = written(&PngEncoder::new().with_metadata(&m));
    let decoded = PngDecoder::new().decode(&png).unwrap();
    assert_eq!(decoded.texts, m.texts);
    assert_eq!(decoded.xmp, m.xmp);
    assert_eq!(decoded.icc_profile, m.icc_profile);
    let again = written(&PngEncoder::new().with_metadata_from(&decoded));
    assert_eq!(again, png, "a re-encode of what was decoded is the same file");
}

#[test]
fn carrying_twice_is_no_different_from_carrying_once() {
    let m = everything();
    let once = PngEncoder::new().with_metadata(&m);
    let twice = PngEncoder::new().with_metadata(&m).with_metadata(&m);
    assert_eq!(written(&once), written(&twice));
    assert_eq!(once.metadata_notices(), twice.metadata_notices());

    let palette = PngPalette::with_transparency(&[[1, 2, 3], [4, 5, 6]], &[9]).unwrap();
    let image = ImageRef::new8(PixelFormat::Indexed8, &[0, 1, 1, 0], 2, 2).unwrap();
    let (mut first, mut second) = (Vec::new(), Vec::new());
    once.encode_indexed8(&image, &palette, &mut first).unwrap();
    twice.encode_indexed8(&image, &palette, &mut second).unwrap();
    assert_eq!(first, second);
}

#[test]
fn a_refused_carry_is_refused_twice() {
    let mut m = PngMetadata::default();
    m.texts = vec![text("Title", "nul \0 inside", TextChunkKind::Text)];
    let image = ImageRef::new8(PixelFormat::Rgb8, &SAMPLES, 2, 2).unwrap();
    let once = PngEncoder::new().with_metadata(&m);
    let twice = PngEncoder::new().with_metadata(&m).with_metadata(&m);
    assert_eq!(once.encode_to_vec(&image).unwrap_err().cause, Cause::RefusedAnnotation);
    assert_eq!(once.encode_to_vec(&image), twice.encode_to_vec(&image));
    assert_eq!(once.refusal().unwrap().to_text(), twice.refusal().unwrap().to_text());
}

#[test]
fn a_carry_spares_what_was_set_directly() {
    let mut m = PngMetadata::default();
    m.texts = vec![text("Title", "carried", TextChunkKind::Text)];
    let encoder = PngEncoder::new()
        .with_text("Author", "set")
        .with_gamma(50_000)
        .with_metadata(&m)
        .with_metadata(&m);
    let back = metadata(&written(&encoder)).unwrap();
    let keywords: Vec<&str> = back.texts.iter().map(|t| t.keyword.as_str()).collect();
    assert_eq!(keywords, ["Author", "Title"]);
    assert_eq!(back.gamma, Some(50_000));
}

#[test]
fn a_manifest_store_and_a_cicp_that_is_not_rgb_stay_behind() {
    let mut m = PngMetadata::default();
    m.c2pa = Some(b"jumb".to_vec());
    m.cicp = Some(Cicp {
        color_primaries: 1,
        transfer_function: 1,
        matrix_coefficients: 6,
        full_range: false,
    });
    let encoder = PngEncoder::new().with_metadata(&m);
    assert_eq!(
        encoder.metadata_notices(),
        vec![MetadataNotice::NonRgbCicp, MetadataNotice::C2paManifestStore]
    );
    let back = metadata(&written(&encoder)).unwrap();
    assert_eq!((back.c2pa, back.cicp), (None, None));
    // The notices are those of the last carry.
    let clean = encoder.with_metadata(&PngMetadata::default());
    assert_eq!(clean.metadata_notices(), Vec::new());
}

#[test]
fn a_carried_keyword_that_no_chunk_holds_is_left_behind_with_a_notice() {
    let mut m = PngMetadata::default();
    let long = "k".repeat(80);
    m.texts = vec![
        text("\u{17c}", "not Latin-1", TextChunkKind::International),
        text("", "empty", TextChunkKind::Text),
        text(&long, "too long", TextChunkKind::Text),
        text("Kept", "kept", TextChunkKind::Text),
    ];
    let encoder = PngEncoder::new().with_metadata(&m);
    assert_eq!(
        encoder.metadata_notices(),
        vec![
            MetadataNotice::TextKeywordNotLatin1,
            MetadataNotice::TextKeywordLength,
            MetadataNotice::TextKeywordLength,
        ]
    );
    assert!(encoder.metadata_notices().iter().all(|n| !n.carried()));
    let back = metadata(&written(&encoder)).unwrap();
    assert_eq!(back.texts, vec![text("Kept", "kept", TextChunkKind::Text)]);
}

#[test]
fn a_carried_keyword_that_a_clause_advises_against_is_written_with_a_notice() {
    let mut m = PngMetadata::default();
    m.texts = vec![
        text("a\u{a0}b", "non-breaking", TextChunkKind::Text),
        text(" a", "leading", TextChunkKind::Text),
        text("a  b", "doubled", TextChunkKind::CompressedText),
    ];
    let encoder = PngEncoder::new().with_metadata(&m);
    assert_eq!(
        encoder.metadata_notices(),
        vec![
            MetadataNotice::TextKeywordRepertoire,
            MetadataNotice::TextKeywordSpacing,
            MetadataNotice::TextKeywordSpacing,
        ]
    );
    assert!(encoder.metadata_notices().iter().all(|n| n.carried()));
    assert_eq!(metadata(&written(&encoder)).unwrap().texts, m.texts);
}

#[test]
fn a_carried_tag_of_the_wrong_shape_is_dropped_with_a_notice() {
    let mut m = PngMetadata::default();
    m.texts = vec![TextChunk {
        language: Some("en_US".to_string()),
        ..text("Title", "tagged", TextChunkKind::International)
    }];
    let encoder = PngEncoder::new().with_metadata(&m);
    assert_eq!(encoder.metadata_notices(), vec![MetadataNotice::ItxtLanguageTag]);
    let back = metadata(&written(&encoder)).unwrap();
    assert_eq!(back.texts, vec![text("Title", "tagged", TextChunkKind::International)]);
}

#[test]
fn a_carried_packet_that_is_not_utf8_is_left_behind_with_a_notice() {
    let mut m = PngMetadata::default();
    m.xmp = Some(vec![0xFF, 0xFE]);
    let encoder = PngEncoder::new().with_metadata(&m);
    assert_eq!(encoder.metadata_notices(), vec![MetadataNotice::XmpNotUtf8]);
    assert_eq!(metadata(&written(&encoder)).unwrap().xmp, None);
}

#[test]
fn only_a_null_refuses_a_carry() {
    let image = ImageRef::new8(PixelFormat::Rgb8, &SAMPLES, 2, 2).unwrap();
    for broken in [
        text("a\0b", "keyword", TextChunkKind::Text),
        text("Title", "te\0xt", TextChunkKind::Text),
        TextChunk {
            translated_keyword: Some("t\0".to_string()),
            ..text("Title", "text", TextChunkKind::International)
        },
    ] {
        let mut m = PngMetadata::default();
        m.texts = vec![broken];
        let encoder = PngEncoder::new().with_metadata(&m);
        assert_eq!(
            encoder.encode_to_vec(&image).unwrap_err().cause,
            Cause::RefusedAnnotation
        );
    }
}

#[test]
fn direct_setters_are_read_back() {
    let encoder = PngEncoder::new()
        .with_text("Title", "caf\u{e9}")
        .with_text("Tab", "a\tb")
        .with_compressed_text("Comment", "zzzzzzzzzz")
        .with_international_text("Opis", "\u{17c}")
        .with_xmp("<x/>")
        .with_exif(b"MM\0*")
        .with_icc_profile("sRGB", b"profile")
        .with_srgb(SrgbIntent::Perceptual)
        .with_cicp(9, 16, false)
        .with_gamma(100_000)
        .with_chromaticities((1, 2), (3, 4), (5, 6), (7, 8))
        .with_physical_dimensions(1, 2, PhysicalUnit::Unknown)
        .with_time(2026, 1, 2, 3, 4, 5)
        .with_c2pa(b"store");
    let back = metadata(&written(&encoder)).unwrap();
    let mut wanted = PngMetadata::default();
    wanted.texts = vec![
        text("Title", "caf\u{e9}", TextChunkKind::Text),
        text("Tab", "a\tb", TextChunkKind::International),
        text("Comment", "zzzzzzzzzz", TextChunkKind::CompressedText),
        text("Opis", "\u{17c}", TextChunkKind::International),
    ];
    wanted.xmp = Some(b"<x/>".to_vec());
    wanted.xmp_framing = Some(XmpFraming {
        compressed: false,
        language: None,
        translated_keyword: None,
    });
    wanted.exif = Some(b"MM\0*".to_vec());
    wanted.icc_profile = Some(IccProfile {
        name: "sRGB".to_string(),
        profile: b"profile".to_vec(),
    });
    wanted.srgb = Some(SrgbIntent::Perceptual);
    wanted.cicp = Some(Cicp {
        color_primaries: 9,
        transfer_function: 16,
        matrix_coefficients: 0,
        full_range: false,
    });
    wanted.gamma = Some(100_000);
    wanted.chromaticities = Some(Chromaticities {
        white: (1, 2),
        red: (3, 4),
        green: (5, 6),
        blue: (7, 8),
    });
    wanted.c2pa = Some(b"store".to_vec());
    assert_eq!(back, wanted);
}

#[test]
fn a_profile_name_beyond_ascii_is_read_as_latin1() {
    let png = written(&PngEncoder::new().with_icc_profile("\u{e9}", b"p"));
    assert_eq!(
        metadata(&png).unwrap().icc_profile,
        Some(IccProfile {
            name: "\u{c3}\u{a9}".to_string(),
            profile: b"p".to_vec(),
        })
    );
}

#[test]
fn the_metadata_budget_is_shared_and_skips_what_does_not_fit() {
    let encoder = PngEncoder::new()
        .with_icc_profile("p", &[7u8; 100])
        .with_compressed_text("A", &"a".repeat(50))
        .with_compressed_text("B", &"b".repeat(10));
    let png = written(&encoder);
    let kept = |budget: usize| {
        let back = PngDecoder::new().with_max_metadata_bytes(budget).metadata(&png).unwrap();
        let keywords: String = back.texts.iter().map(|t| t.keyword.as_str()).collect();
        (back.icc_profile.is_some(), keywords)
    };
    assert_eq!(kept(160), (true, "AB".to_string()));
    assert_eq!(kept(159), (true, "A".to_string()));
    assert_eq!(kept(110), (true, "B".to_string()));
    assert_eq!(kept(60), (false, "AB".to_string()));
    assert_eq!(kept(0), (false, String::new()));
}

#[test]
fn a_refusal_names_the_annotation() {
    let encoder = PngEncoder::new().with_text("Fine", "x").with_text("Bad \"key\" ", "x");
    let refusal = encoder.refusal().unwrap();
    assert_eq!(refusal.index, 1);
    assert_eq!(
        refusal.to_text(),
        "text annotation 1 (keyword \"Bad \\\"key\\\" \"): a keyword may not have a leading, \
         trailing or consecutive space (§11.3.3.1)"
    );
    assert!(PngEncoder::new().with_text("Fine", "x").refusal().is_none());
}
