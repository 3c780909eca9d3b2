//! The metadata collected from a file's ancillary chunks.
use gamut_png::ancillary::SrgbIntent;
use gamut_png::chunk::CABX;
use gamut_png::decoded::collect;
use gamut_png::zlib::{zlib_compress, DEFAULT_EFFORT};


fn deflated(payload: &[u8]) -> Vec<u8> {
    zlib_compress(payload, DEFAULT_EFFORT)
}

#[test]
fn parses_fixed_layout_colour_chunks() {
    let meta = collect(
        &[
            (*b"gAMA", &45455u32.to_be_bytes()),
            (*b"sRGB", &[0]),
            (*b"cICP", &[9, 16, 0, 1]),
        ],
        1024,
    );
    assert_eq!(meta.gamma, Some(45455));
    assert_eq!(meta.srgb, Some(SrgbIntent::Perceptual));
    let cicp = meta.cicp.unwrap();
    assert_eq!(
        (
            cicp.color_primaries,
            cicp.transfer_function,
            cicp.matrix_coefficients
        ),
        (9, 16, 0)
    );
    assert!(cicp.full_range);
}

#[test]
fn malformed_payloads_are_skipped_not_errors() {
    let meta = collect(
        &[
            (*b"gAMA", &[1, 2, 3]),        // wrong length
            (*b"sRGB", &[9]),              // undefined intent
            (*b"cICP", &[9, 16, 0, 2]),    // full-range flag out of range
            (*b"tEXt", &[0, b'x']),        // empty keyword
            (*b"iCCP", b"name\0\x01abc"),  // compression method 1
            (*b"zTXt", b"kw\0\0not-zlib"), // corrupt stream
        ],
        1024,
    );
    assert!(meta.gamma.is_none());
    assert!(meta.srgb.is_none());
    assert!(meta.cicp.is_none());
    assert!(meta.texts.is_empty());
    assert!(meta.icc_profile.is_none());
}

#[test]
fn text_flavours_round_trip() {
    let ztxt: Vec<u8> = [b"Comment\0\0".to_vec(), deflated(b"compressed body")].concat();
    let itxt = b"Author\0\0\0de\0Autor\0g\xC3\xA4mut".to_vec();
    let meta = collect(
        &[
            (*b"tEXt", b"Title\0plain body"),
            (*b"zTXt", &ztxt),
            (*b"iTXt", &itxt),
        ],
        1024,
    );
    assert_eq!(meta.texts.len(), 3);
    assert_eq!(meta.texts[0].keyword, "Title");
    assert_eq!(meta.texts[0].text, "plain body");
    assert_eq!(meta.texts[1].text, "compressed body");
    assert_eq!(meta.texts[2].text, "gämut");
    assert_eq!(meta.texts[2].language.as_deref(), Some("de"));
    assert_eq!(meta.texts[2].translated_keyword.as_deref(), Some("Autor"));
}

#[test]
fn xmp_is_surfaced_separately() {
    let packet = b"<x:xmpmeta/>";
    let itxt: Vec<u8> = [b"XML:com.adobe.xmp\0\0\0\0\0".to_vec(), packet.to_vec()].concat();
    let meta = collect(&[(*b"iTXt", &itxt)], 1024);
    assert_eq!(meta.xmp.as_deref(), Some(&packet[..]));
    assert!(meta.texts.is_empty());
}

#[test]
fn metadata_budget_is_cumulative_and_skips_busting_chunks() {
    let body = vec![b'a'; 600];
    let ztxt: Vec<u8> = [b"One\0\0".to_vec(), deflated(&body)].concat();
    let ztxt2: Vec<u8> = [b"Two\0\0".to_vec(), deflated(&body)].concat();
    // Budget fits one payload, not both: the second is skipped, the first survives.
    let meta = collect(&[(*b"zTXt", &ztxt), (*b"zTXt", &ztxt2)], 1000);
    assert_eq!(meta.texts.len(), 1);
    assert_eq!(meta.texts[0].keyword, "One");
}

#[test]
fn once_only_chunks_keep_the_first() {
    let iccp_a: Vec<u8> = [b"a\0\0".to_vec(), deflated(b"profile-a")].concat();
    let iccp_b: Vec<u8> = [b"b\0\0".to_vec(), deflated(b"profile-b")].concat();
    let chrm_a: Vec<u8> = (1u32..=8).flat_map(|v| v.to_be_bytes()).collect();
    let chrm_b: Vec<u8> = (11u32..=18).flat_map(|v| v.to_be_bytes()).collect();
    let meta = collect(
        &[
            (*b"gAMA", &45455u32.to_be_bytes()),
            (*b"gAMA", &10000u32.to_be_bytes()),
            (*b"eXIf", b"II*\0first"),
            (*b"eXIf", b"II*\0second"),
            (*b"iCCP", &iccp_a),
            (*b"iCCP", &iccp_b),
            (*b"cHRM", &chrm_a),
            (*b"cHRM", &chrm_b),
            (*b"sRGB", &[0]),
            (*b"sRGB", &[3]),
            (*b"cICP", &[9, 16, 0, 1]),
            (*b"cICP", &[1, 13, 0, 0]),
        ],
        1024,
    );
    assert_eq!(meta.gamma, Some(45455));
    assert_eq!(meta.exif.as_deref(), Some(&b"II*\0first"[..]));
    let icc = meta.icc_profile.unwrap();
    assert_eq!(
        (icc.name.as_str(), icc.profile.as_slice()),
        ("a", &b"profile-a"[..])
    );
    assert_eq!(meta.chromaticities.unwrap().white, (1, 2));
    assert_eq!(meta.srgb, Some(SrgbIntent::Perceptual));
    assert_eq!(meta.cicp.unwrap().color_primaries, 9);
}

#[test]
fn the_first_cabx_is_the_store_and_later_ones_are_counted_not_concatenated() {
    let meta = collect(
        &[(CABX, b"first store"), (CABX, b"second"), (CABX, b"third")],
        1024,
    );
    assert_eq!(meta.c2pa.as_deref(), Some(&b"first store"[..]));
    assert_eq!(meta.c2pa_ignored, 2);

    let single = collect(&[(CABX, b"only")], 1024);
    assert_eq!(single.c2pa.as_deref(), Some(&b"only"[..]));
    assert_eq!(single.c2pa_ignored, 0);
    assert_eq!(collect(&[], 1024).c2pa, None);
}

#[test]
fn the_ignored_count_reports_every_chunk_not_a_saturated_ceiling() {
    let chunks: Vec<([u8; 4], &[u8])> = (0..301).map(|_| (CABX, &b"s"[..])).collect();
    let meta = collect(&chunks, 1024);
    assert_eq!(meta.c2pa_ignored, 300);
}

#[test]
fn the_cabx_store_is_charged_to_the_metadata_budget() {
    let ztxt: Vec<u8> = [b"kw\0\0".to_vec(), deflated(b"x")].concat();
    let store = [7u8; 10];
    let fits = collect(&[(CABX, &store), (*b"zTXt", &ztxt)], 10);
    assert_eq!(
        fits.c2pa.as_deref(),
        Some(&store[..]),
        "exactly the budget fits"
    );
    assert!(
        fits.texts.is_empty(),
        "the store consumed the budget, so the zTXt after it is skipped"
    );

    let busts = collect(&[(CABX, &store), (CABX, b"tiny")], 9);
    assert_eq!(busts.c2pa, None, "one byte over the budget is skipped");
    assert_eq!(
        busts.c2pa_ignored, 1,
        "the skipped store is still the first; the next is a duplicate, not a substitute"
    );
}

#[test]
fn chrm_coordinates_map_position_for_position() {
    // Every byte distinct, so any index-arithmetic slip changes some coordinate.
    let payload: Vec<u8> = (0u8..32).collect();
    let meta = collect(&[(*b"cHRM", &payload)], 0);
    let chrm = meta.chromaticities.unwrap();
    assert_eq!(chrm.white, (0x0001_0203, 0x0405_0607));
    assert_eq!(chrm.red, (0x0809_0A0B, 0x0C0D_0E0F));
    assert_eq!(chrm.green, (0x1011_1213, 0x1415_1617));
    assert_eq!(chrm.blue, (0x1819_1A1B, 0x1C1D_1E1F));
}

#[test]
fn keyword_length_boundary_is_79_bytes() {
    let mut ok = vec![b'k'; 79];
    ok.push(0);
    ok.extend_from_slice(b"body");
    let meta = collect(&[(*b"tEXt", &ok)], 0);
    assert_eq!(meta.texts.len(), 1, "79-byte keyword accepted");
    assert_eq!(meta.texts[0].keyword.len(), 79);
    let mut too_long = vec![b'k'; 80];
    too_long.push(0);
    too_long.extend_from_slice(b"body");
    let meta = collect(&[(*b"tEXt", &too_long)], 0);
    assert!(meta.texts.is_empty(), "80-byte keyword skipped");
}

#[test]
fn metadata_budget_decrements_by_inflated_size() {
    // Two 400-byte payloads under a 1000-byte budget must BOTH survive — the budget shrinks
    // by what was actually inflated, nothing more aggressive.
    let body = vec![b'a'; 400];
    let one: Vec<u8> = [b"One\0\0".to_vec(), deflated(&body)].concat();
    let two: Vec<u8> = [b"Two\0\0".to_vec(), deflated(&body)].concat();
    let meta = collect(&[(*b"zTXt", &one), (*b"zTXt", &two)], 1000);
    assert_eq!(meta.texts.len(), 2);
}

#[test]
fn compressed_itxt_with_unknown_method_is_skipped() {
    // Compression flag 1 with method 1: undefined, so the chunk is skipped even though the
    // trailing bytes happen to be a perfectly valid zlib stream.
    let itxt: Vec<u8> = [b"Key\0\x01\x01\0\0".to_vec(), deflated(b"valid stream")].concat();
    let meta = collect(&[(*b"iTXt", &itxt)], 1024);
    assert!(meta.texts.is_empty());
}
