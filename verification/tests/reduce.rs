//! Which smaller layouts an image reduces to.
use gamut_png::reduce::{
    analyze16, analyze8, clean_transparent, colour_key, keyed_size, may_have_colour_key,
    ordered_palette, Reduced, Reductions, GREY_KEY_COST, RGB_KEY_COST,
};

#[test]
fn a_colour_key_is_only_possible_with_an_alpha_channel_carrying_something() {
    assert!(may_have_colour_key(false, 4), "RGBA with transparency");
    assert!(
        may_have_colour_key(false, 2),
        "grey+alpha with transparency"
    );
    // An all-opaque image drops the channel outright, which costs no chunk.
    assert!(!may_have_colour_key(true, 4));
    // No alpha channel to drop in the first place.
    assert!(!may_have_colour_key(false, 3));
    assert!(!may_have_colour_key(false, 1));
}

#[test]
fn the_keyed_cost_is_the_samples_plus_one_trns_chunk() {
    // Greyscale: one byte per pixel, and a tRNS of one 16-bit sample plus 12 framing.
    assert_eq!(keyed_size(100, true), 100 + 2 + 12);
    // Truecolour: three bytes per pixel, and three 16-bit samples plus 12 framing.
    assert_eq!(keyed_size(100, false), 300 + 6 + 12);
    // The chunk is a flat cost -- it does not scale with the image.
    assert_eq!(keyed_size(0, true), GREY_KEY_COST);
    assert_eq!(keyed_size(0, false), RGB_KEY_COST);
}

#[test]
fn cleaning_declines_when_there_is_nothing_invisible_to_clean() {
    // `None` rather than an unchanged copy: the encoder must be able to tell "no work" from
    // "work that happened to change nothing", or it allocates a whole image for nothing.
    let opaque: Vec<u8> = (0..16u8).flat_map(|i| [i, i + 1, i + 2, 255]).collect();
    assert!(clean_transparent(&opaque, 4).is_none());

    // Layouts with no alpha channel have nothing to clean, whatever the samples say.
    assert!(clean_transparent(&opaque, 3).is_none());
    assert!(clean_transparent(&opaque, 1).is_none());
}

#[test]
fn cleaning_zeroes_invisible_colour_and_leaves_everything_else() {
    let src: Vec<u8> = vec![
        10, 20, 30, 255, // visible
        40, 50, 60, 0, // invisible: colour must go
        70, 80, 90, 128, // partially transparent: still visible, must stay
    ];
    let cleaned = clean_transparent(&src, 4).expect("there is a transparent pixel");
    assert_eq!(
        cleaned,
        vec![
            10, 20, 30, 255, //
            0, 0, 0, 0, //
            70, 80, 90, 128,
        ]
    );
}

#[test]
fn cleaning_grey_alpha_zeroes_only_the_grey_channel() {
    let src: Vec<u8> = vec![200, 255, 111, 0, 90, 1];
    let cleaned = clean_transparent(&src, 2).expect("there is a transparent pixel");
    assert_eq!(cleaned, vec![200, 255, 0, 0, 90, 1]);
}

#[test]
fn drops_opaque_alpha() {
    // Opaque, non-grey RGBA -> RGB.
    let rgba = [10, 20, 30, 255, 40, 50, 60, 255];
    match analyze8(&rgba, 4) {
        Reductions::ChunkFree(Reduced::Rgb8(rgb)) => {
            assert_eq!(rgb, vec![10, 20, 30, 40, 50, 60]);
        }
        _ => panic!("expected a chunk-free Rgb8"),
    }
}

#[test]
fn detects_grayscale() {
    // Opaque R=G=B RGB with many levels -> 8-bit grey.
    let rgb: Vec<u8> = (0..60u8).flat_map(|v| [v, v, v]).collect();
    match analyze8(&rgb, 3) {
        Reductions::ChunkFree(Reduced::Gray { depth: 8, samples }) => {
            assert_eq!(samples, (0..60u8).collect::<Vec<_>>());
        }
        _ => panic!("expected a chunk-free 8-bit Gray"),
    }
}

#[test]
fn grey_with_alpha_chooses_gray_alpha() {
    let mut rgba = Vec::new();
    for i in 0..300u32 {
        let g = (i % 256) as u8;
        let a = (i / 2 % 254) as u8; // never 255: every pixel is genuinely translucent
        rgba.extend_from_slice(&[g, g, g, a]);
    }
    match analyze8(&rgba, 4) {
        Reductions::ChunkFree(Reduced::GrayAlpha8(samples)) => {
            assert_eq!(samples.len(), 600, "two bytes per pixel");
        }
        _ => panic!("expected a chunk-free GrayAlpha8"),
    }
}

#[test]
fn palette_overhead_decides_against_rgb_at_the_margin() {
    let mut rgba = Vec::new();
    for i in 0..350u32 {
        // 200 distinct colours, none grey (R != G), all fully opaque.
        let c = (i % 200) as u8;
        rgba.extend_from_slice(&[c, c.wrapping_add(64), 200, 255]);
    }
    match analyze8(&rgba, 4) {
        Reductions::Chunked {
            chunked:
                Reduced::Indexed {
                    depth, plte, trns, ..
                },
            ..
        } => {
            assert_eq!(depth, 8, "200 entries need the 8-bit index depth");
            assert_eq!(plte.len(), 200 * 3);
            assert_eq!(trns, None, "an all-opaque palette carries no tRNS");
        }
        _ => panic!("expected Indexed"),
    }
}

#[test]
fn an_opaque_palette_hands_over_the_alpha_drop_it_beat() {
    let mut rgba = Vec::new();
    for i in 0..350u32 {
        // 200 distinct colours, none grey (R != G), all fully opaque.
        let c = (i % 200) as u8;
        rgba.extend_from_slice(&[c, c.wrapping_add(64), 200, 255]);
    }
    match analyze8(&rgba, 4) {
        Reductions::Chunked {
            chunked: Reduced::Indexed { .. },
            chunk_free: Some(Reduced::Rgb8(rgb)),
        } => {
            assert_eq!(rgb.len(), 350 * 3, "three channels, one alpha dropped");
            assert_eq!(&rgb[0..6], &[0, 64, 200, 1, 65, 200]);
        }
        _ => panic!("expected Indexed with an Rgb8 runner-up"),
    }
}

#[test]
fn an_identity_layout_is_not_offered_as_a_runner_up() {
    let ga: Vec<u8> = [0, 0, 255, 255].repeat(40); // transparent black, opaque white
    match analyze8(&ga, 2) {
        Reductions::Chunked {
            chunked: Reduced::Indexed { .. },
            chunk_free,
        } => assert!(
            chunk_free.is_none(),
            "grey+alpha of a grey+alpha input stores exactly the input's bytes"
        ),
        _ => panic!("expected Indexed"),
    }
}

#[test]
fn a_demotable_palette_keeps_the_plain_demotion_as_its_runner_up() {
    let rgb16: Vec<u16> = (0..600u32)
        .flat_map(|i| {
            let c = (i % 64) as u8;
            [
                u16::from(c) * 257,
                u16::from(c.wrapping_add(64)) * 257,
                200 * 257,
            ]
        })
        .collect();
    match analyze16(&rgb16, 3) {
        Reductions::Chunked {
            chunked: Reduced::Indexed { .. },
            chunk_free: Some(Reduced::Rgb8(demoted)),
        } => {
            assert_eq!(demoted.len(), 600 * 3, "half the 16-bit payload");
            assert_eq!(&demoted[0..3], &[0, 64, 200]);
        }
        _ => panic!("expected Indexed with a demoted Rgb8 runner-up"),
    }
}

#[test]
fn a_translucent_palette_pays_for_its_trns_table() {
    let mut rgba = Vec::new();
    for i in 0..300u32 {
        // 200 distinct entries, every one translucent, none grey.
        let c = (i % 200) as u8;
        rgba.extend_from_slice(&[c, c.wrapping_add(64), 200, 128]);
    }
    match analyze8(&rgba, 4) {
        Reductions::Chunked {
            chunked: Reduced::Indexed { depth, trns, .. },
            ..
        } => {
            assert_eq!(depth, 8, "200 entries need the 8-bit index depth");
            assert_eq!(
                trns.map(|t| t.len()),
                Some(200),
                "every entry is translucent, so none is trimmed"
            );
        }
        _ => panic!("expected Indexed"),
    }
}

#[test]
fn trns_keeps_up_to_the_last_translucent_entry() {
    // Palette order follows first appearance: translucent, then two opaque. Repeated enough
    // times that the palette actually beats the raw input -- with only three pixels the
    // 36-byte palette overhead loses to 12 bytes of RGBA and nothing is reduced at all.
    let mut rgba = Vec::new();
    for _ in 0..100 {
        rgba.extend_from_slice(&[10, 20, 30, 128]);
        rgba.extend_from_slice(&[40, 50, 60, 255]);
        rgba.extend_from_slice(&[70, 80, 90, 255]);
    }
    match analyze8(&rgba, 4) {
        Reductions::Chunked {
            chunked: Reduced::Indexed { trns, .. },
            ..
        } => {
            assert_eq!(
                trns,
                Some(vec![128]),
                "the two trailing opaque entries are omitted, the translucent one kept"
            );
        }
        _ => panic!("expected Indexed"),
    }
}

#[test]
fn builds_palette_for_few_colours() {
    // Two distinct colours over many pixels -> indexed at 1 bit.
    let mut rgb = Vec::new();
    for i in 0..100u32 {
        if i % 2 == 0 {
            rgb.extend_from_slice(&[200, 10, 10]);
        } else {
            rgb.extend_from_slice(&[10, 10, 200]);
        }
    }
    match analyze8(&rgb, 3) {
        Reductions::Chunked {
            chunked:
                Reduced::Indexed {
                    depth,
                    plte,
                    trns,
                    indices,
                },
            ..
        } => {
            assert_eq!(depth, 1);
            assert_eq!(plte.len(), 6); // two RGB entries
            assert!(trns.is_none());
            assert_eq!(indices.len(), 100);
        }
        _ => panic!("expected Indexed"),
    }
}

#[test]
fn keeps_full_colour_photographic_data() {
    // Many distinct opaque colours, not grey -> no reduction.
    let rgb: Vec<u8> = (0..300u32)
        .flat_map(|i| [i as u8, (i >> 1) as u8, (i >> 2) as u8])
        .collect();
    assert!(matches!(analyze8(&rgb, 3), Reductions::Nothing));
}

#[test]
fn the_palette_orders_by_rec_601_luma() {
    let palette = [
        [255, 0, 0, 255],
        [0, 100, 0, 255],
        [0, 130, 0, 255],
        [0, 0, 255, 255],
        [0, 49, 0, 255],
    ];
    assert_eq!(
        ordered_palette(&palette),
        vec![
            [0, 49, 0, 255],
            [0, 0, 255, 255],
            [0, 100, 0, 255],
            [255, 0, 0, 255],
            [0, 130, 0, 255],
        ]
    );
}

#[test]
fn entries_of_one_rank_keep_their_order_and_number() {
    let (a, b) = ([15, 0, 7, 255], [0, 9, 0, 255]);
    assert_eq!(299 * 15 + 114 * 7, 587 * 9);
    let dark = [0, 0, 0, 255];
    assert_eq!(ordered_palette(&[a, b, dark, a]), vec![dark, a, b, a]);
    assert_eq!(ordered_palette(&[b, a, dark, b]), vec![dark, b, a, b]);
}

#[test]
fn a_late_transparent_entry_moves_to_index_zero_and_shortens_trns() {
    let mut rgba = Vec::new();
    for i in 0..80u32 {
        if i % 2 == 0 {
            rgba.extend_from_slice(&[255, 255, 255, 255]); // opaque white
        } else {
            rgba.extend_from_slice(&[200, 10, 10, 255]); // opaque red
        }
    }
    rgba.extend_from_slice(&[0, 0, 0, 0].repeat(40)); // invisible, discovered last

    match analyze8(&rgba, 4) {
        Reductions::Chunked {
            chunked: Reduced::Indexed { plte, trns, .. },
            ..
        } => {
            assert_eq!(
                plte,
                vec![0, 0, 0, 200, 10, 10, 255, 255, 255],
                "transparent first, then opaque by luma"
            );
            assert_eq!(trns, Some(vec![0]), "the trim reaches every opaque entry");
        }
        _ => panic!("expected Indexed"),
    }
}

#[test]
fn palette_with_transparency_emits_trns() {
    let rgba = [
        0, 0, 0, 0, // transparent black
        255, 255, 255, 255, // opaque white
    ]
    .repeat(20);
    match analyze8(&rgba, 4) {
        Reductions::Chunked {
            chunked: Reduced::Indexed { trns: Some(t), .. },
            ..
        } => assert_eq!(t, vec![0]),
        _ => panic!("expected indexed with tRNS"),
    }
}

fn expect_gray(pixels: &[u8], channels: usize, depth: u8, codes: &[u8]) {
    match analyze8(pixels, channels) {
        Reductions::ChunkFree(Reduced::Gray {
            depth: got,
            samples,
        }) => {
            assert_eq!(got, depth, "depth");
            assert_eq!(samples, codes, "codes");
        }
        _ => panic!("expected a chunk-free Gray at depth {depth}"),
    }
}

#[test]
fn grey_packs_to_the_smallest_exact_depth() {
    // §13.12 exactness per depth: 1-bit {0,255}, 2-bit multiples of 85, 4-bit multiples of 17.
    // Each set breaks the next-lower depth's divisibility, pinning the moduli individually.
    let bw: Vec<u8> = [0u8, 255].repeat(30);
    expect_gray(&bw, 1, 1, &[0, 1].repeat(30));

    let quarters: Vec<u8> = [0u8, 85, 170, 255].repeat(20);
    expect_gray(&quarters, 1, 2, &[0, 1, 2, 3].repeat(20));

    let sixteenths: Vec<u8> = (0..16u8).map(|v| v * 17).collect::<Vec<_>>().repeat(10);
    expect_gray(&sixteenths, 1, 4, &(0..16u8).collect::<Vec<_>>().repeat(10));

    // The same values arriving as opaque RGBA reduce straight to sub-byte grey too.
    let rgba: Vec<u8> = quarters.iter().flat_map(|&v| [v, v, v, 255]).collect();
    expect_gray(&rgba, 4, 2, &[0, 1, 2, 3].repeat(20));
}

#[test]
fn low_cardinality_grey_off_the_scale_grid_is_indexed() {
    // Three grey levels, none a §13.12 multiple: not packable as grey, but a grey palette at
    // 2 bits still beats 8-bit grey.
    let gray: Vec<u8> = [5u8, 9, 200].repeat(40);
    match analyze8(&gray, 1) {
        Reductions::Chunked {
            chunked:
                Reduced::Indexed {
                    depth, plte, trns, ..
                },
            ..
        } => {
            assert_eq!(depth, 2);
            assert_eq!(plte, vec![5, 5, 5, 9, 9, 9, 200, 200, 200]);
            assert!(trns.is_none());
        }
        _ => panic!("expected Indexed"),
    }
}

#[test]
fn grey_input_with_full_range_keeps_its_encoding() {
    // 8-bit grey using values off every sub-byte grid and >16 distinct levels: nothing beats
    // the input.
    let gray: Vec<u8> = (0..=255u8).collect();
    assert!(matches!(analyze8(&gray, 1), Reductions::Nothing));
}

#[test]
fn grey_alpha_drops_an_opaque_alpha_channel() {
    let ga: Vec<u8> = (0..90u8).flat_map(|v| [v, 255]).collect();
    expect_gray(&ga, 2, 8, &(0..90u8).collect::<Vec<_>>());
}

#[test]
fn grey_alpha_with_few_combinations_is_indexed_with_trns() {
    let ga: Vec<u8> = [0, 0, 255, 255].repeat(40); // transparent black, opaque white
    match analyze8(&ga, 2) {
        Reductions::Chunked {
            chunked:
                Reduced::Indexed {
                    depth,
                    plte,
                    trns: Some(t),
                    ..
                },
            ..
        } => {
            assert_eq!(depth, 1);
            assert_eq!(plte, vec![0, 0, 0, 255, 255, 255]);
            assert_eq!(t, vec![0]);
        }
        _ => panic!("expected indexed with tRNS"),
    }
}

#[test]
fn binary_alpha_grey_reduces_to_a_colour_keyed_greyscale() {
    let ga: Vec<u8> = (0..256u32)
        .flat_map(|i| {
            if i % 5 == 0 {
                [7, 0] // invisible, all one grey
            } else {
                [8 + (i % 64) as u8, 255]
            }
        })
        .collect();

    match analyze8(&ga, 2) {
        Reductions::Chunked {
            chunked: Reduced::GrayKeyed { samples, key },
            ..
        } => {
            assert_eq!(key, 7, "the one grey every invisible pixel carries");
            assert_eq!(samples.len(), 256, "one sample per pixel, alpha gone");
            // The key erases whatever wears it, so nothing visible may wear it.
            for (i, px) in ga.chunks_exact(2).enumerate() {
                if px[1] == 255 {
                    assert_ne!(samples[i], key, "visible pixel {i} would be erased");
                }
            }
        }
        other => panic!(
            "expected a chunk-carrying GrayKeyed, got {}",
            match other {
                Reductions::Chunked {
                    chunked: Reduced::Indexed { .. },
                    ..
                } => "Indexed",
                Reductions::Chunked {
                    chunked: Reduced::Rgb8Keyed { .. },
                    ..
                } => "Rgb8Keyed",
                Reductions::ChunkFree(Reduced::GrayAlpha8(_)) => "GrayAlpha8",
                Reductions::ChunkFree(_) | Reductions::Chunked { .. } => "some other reduction",
                Reductions::Nothing => "no reduction",
            }
        ),
    }
}

#[test]
fn grey_alpha_noise_keeps_its_encoding() {
    let ga: Vec<u8> = (0..600u32)
        .flat_map(|i| [(i % 251) as u8, (i % 249) as u8])
        .collect();
    assert!(matches!(analyze8(&ga, 2), Reductions::Nothing));
}

#[test]
fn demotable_sixteen_bit_recurses_into_the_eight_bit_analysis() {
    // Grey, opaque, every sample k*257 -> demoted and reduced all the way to 8-bit grey.
    let rgba16: Vec<u16> = (0..80u16)
        .flat_map(|i| {
            let v = (i % 60) * 257;
            [v, v, v, u16::MAX]
        })
        .collect();
    match analyze16(&rgba16, 4) {
        Reductions::ChunkFree(Reduced::Gray { depth: 8, samples }) => {
            assert_eq!(samples, (0..80).map(|i| (i % 60) as u8).collect::<Vec<_>>());
        }
        _ => panic!("expected a chunk-free 8-bit Gray"),
    }
}

#[test]
fn demotable_but_irreducible_sixteen_bit_falls_back_to_plain_demotion() {
    // Every sample k*257 but many colours and varied alpha: the demotion itself is the win.
    let rgba16: Vec<u16> = (0..600u32)
        .flat_map(|i| {
            [
                ((i % 251) * 257) as u16,
                ((i % 241) * 257) as u16,
                ((i % 239) * 257) as u16,
                ((i % 233) * 257) as u16,
            ]
        })
        .collect();
    match analyze16(&rgba16, 4) {
        Reductions::ChunkFree(Reduced::Rgba8(demoted)) => {
            assert_eq!(demoted.len(), 600 * 4);
            assert_eq!(demoted[0..4], [0, 0, 0, 0]);
            assert_eq!(demoted[4 * 250], 250u8);
        }
        _ => panic!("expected demoted Rgba8"),
    }
}

#[test]
fn two_matching_channels_are_not_grey() {
    // R == G but B differs on every pixel: not greyscale, too many colours to palette.
    let rgb: Vec<u8> = (0..60u8).flat_map(|v| [v, v, 200]).collect();
    assert!(matches!(analyze8(&rgb, 3), Reductions::Nothing));
    // The 16-bit twin (non-demotable): same verdict.
    let rgb16: Vec<u16> = (0..60u32)
        .flat_map(|i| {
            let v = (i * 501 + 1) as u16;
            [v, v, 200]
        })
        .collect();
    assert!(matches!(analyze16(&rgb16, 3), Reductions::Nothing));
}

#[test]
fn sixteen_bit_identity_reductions_are_rejected() {
    // Non-demotable grey noise arriving as Gray16 is already minimal.
    let gray16: Vec<u16> = (0..90u32).map(|i| (i * 501 + 1) as u16).collect();
    assert!(matches!(analyze16(&gray16, 1), Reductions::Nothing));
}

#[test]
fn demotable_grey_alpha_and_rgb_fall_back_to_their_own_layout() {
    // GrayAlpha16, every sample k*257, varied alpha, >256 (grey, alpha) combos: the demotion
    // itself is the only win, and it must keep the grey+alpha layout.
    let ga16: Vec<u16> = (0..600u32)
        .flat_map(|i| [((i % 251) * 257) as u16, ((i % 33) * 7 * 257) as u16])
        .collect();
    match analyze16(&ga16, 2) {
        Reductions::ChunkFree(Reduced::GrayAlpha8(demoted)) => {
            assert_eq!(demoted.len(), 600 * 2);
        }
        _ => panic!("expected a chunk-free demoted GrayAlpha8"),
    }

    // Rgb16, every sample k*257, many non-grey colours: plain demotion keeps RGB.
    let rgb16: Vec<u16> = (0..600u32)
        .flat_map(|i| {
            [
                ((i % 251) * 257) as u16,
                ((i % 241) * 257) as u16,
                ((i % 239) * 257) as u16,
            ]
        })
        .collect();
    match analyze16(&rgb16, 3) {
        Reductions::ChunkFree(Reduced::Rgb8(demoted)) => {
            assert_eq!(demoted.len(), 600 * 3);
        }
        _ => panic!("expected a chunk-free demoted Rgb8"),
    }
}

#[test]
fn one_asymmetric_sample_disables_demotion() {
    // All grey/opaque k*257 except a single 0x0100 (hi != lo): must stay 16-bit native.
    let mut rgba16: Vec<u16> = (0..80u16)
        .flat_map(|i| {
            let v = (i % 60) * 257;
            [v, v, v, u16::MAX]
        })
        .collect();
    rgba16[0] = 0x0100;
    rgba16[1] = 0x0100;
    rgba16[2] = 0x0100; // keep the pixel grey so the native grey reduction still applies
    match analyze16(&rgba16, 4) {
        Reductions::ChunkFree(Reduced::Gray16Be(bytes)) => {
            assert_eq!(&bytes[0..2], &[0x01, 0x00], "big-endian, undemoted");
        }
        _ => panic!("expected a chunk-free Gray16Be"),
    }
}

#[test]
fn sixteen_bit_native_reductions_serialise_big_endian() {
    // Opaque, non-grey, non-demotable RGBA16 -> RGB16, big-endian.
    let rgba16: Vec<u16> = (0..90u32)
        .flat_map(|i| [(i * 501 + 1) as u16, (i * 703 + 2) as u16, 3, u16::MAX])
        .collect();
    match analyze16(&rgba16, 4) {
        Reductions::ChunkFree(Reduced::Rgb16Be(bytes)) => {
            assert_eq!(bytes.len(), 90 * 6);
            assert_eq!(&bytes[0..6], &[0, 1, 0, 2, 0, 3]);
        }
        _ => panic!("expected a chunk-free Rgb16Be"),
    }

    // Grey non-demotable RGB16 -> Gray16.
    let rgb16: Vec<u16> = (0..90u32)
        .flat_map(|i| {
            let v = (i * 501 + 1) as u16;
            [v, v, v]
        })
        .collect();
    assert!(matches!(
        analyze16(&rgb16, 3),
        Reductions::ChunkFree(Reduced::Gray16Be(bytes)) if bytes.len() == 90 * 2
    ));

    // Opaque non-demotable GrayAlpha16 -> Gray16.
    let ga16: Vec<u16> = (0..90u32)
        .flat_map(|i| [(i * 501 + 1) as u16, u16::MAX])
        .collect();
    assert!(matches!(
        analyze16(&ga16, 2),
        Reductions::ChunkFree(Reduced::Gray16Be(bytes)) if bytes.len() == 90 * 2
    ));

    // A translucent grey+alpha pair -> gets a full 16-bit gray+alpha only when smaller, which
    // it never is for GrayAlpha16 input; and 16-bit noise stays as-is.
    let translucent: Vec<u16> = (0..90u32)
        .flat_map(|i| [(i * 501 + 1) as u16, (i * 703) as u16 | 1])
        .collect();
    assert!(matches!(analyze16(&translucent, 2), Reductions::Nothing));
    let noise: Vec<u16> = (0..600u32)
        .flat_map(|i| {
            [
                (i * 501 + 1) as u16,
                (i * 703 + 2) as u16,
                (i * 907 + 3) as u16,
                (i * 111) as u16 | 1,
            ]
        })
        .collect();
    assert!(matches!(analyze16(&noise, 4), Reductions::Nothing));
}

#[test]
fn translucent_rgba16_reduces_to_grey_alpha() {
    // Grey with varied (non-demotable) alpha -> GrayAlpha16Be at 4 bytes/px vs 8.
    let rgba16: Vec<u16> = (0..90u32)
        .flat_map(|i| {
            let v = (i * 501 + 1) as u16;
            [v, v, v, (i * 703) as u16 | 1]
        })
        .collect();
    match analyze16(&rgba16, 4) {
        Reductions::ChunkFree(Reduced::GrayAlpha16Be(bytes)) => {
            assert_eq!(bytes.len(), 90 * 4);
        }
        _ => panic!("expected a chunk-free GrayAlpha16Be"),
    }
}

#[test]
fn a_colour_key_is_one_transparent_colour_no_opaque_pixel_uses() {
    let keyed = [1u8, 2, 3, 0, 9, 9, 9, 255, 1, 2, 3, 0];
    assert_eq!(colour_key(&keyed, 4), Some([1, 2, 3, 0]));
    let used = [1u8, 2, 3, 0, 1, 2, 3, 255];
    assert_eq!(colour_key(&used, 4), None);
    let two = [1u8, 2, 3, 0, 4, 5, 6, 0];
    assert_eq!(colour_key(&two, 4), None);
    let soft = [1u8, 2, 3, 0, 4, 5, 6, 128];
    assert_eq!(colour_key(&soft, 4), None);
    let opaque = [1u8, 2, 3, 255];
    assert_eq!(colour_key(&opaque, 4), None);
    let gray = [7u8, 0, 8, 255];
    assert_eq!(colour_key(&gray, 2), Some([7, 7, 7, 0]));
}
