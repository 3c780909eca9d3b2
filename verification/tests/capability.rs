//! The table of what each format's crate can locate or write.
use gamut_png::capability::{supports, typed_wiring, Carrier, Direction, Format};

const SUPPORTED: &[(Format, Carrier, Direction)] = &[
    (Format::Jpeg, Carrier::Exif, Direction::Read),
    (Format::Jpeg, Carrier::Exif, Direction::Write),
    (Format::Jpeg, Carrier::Xmp, Direction::Read),
    (Format::Jpeg, Carrier::Xmp, Direction::Write),
    (Format::Jpeg, Carrier::Icc, Direction::Read),
    (Format::Jpeg, Carrier::Icc, Direction::Write),
    (Format::Png, Carrier::Exif, Direction::Read),
    (Format::Png, Carrier::Exif, Direction::Write),
    (Format::Png, Carrier::Xmp, Direction::Read),
    (Format::Png, Carrier::Xmp, Direction::Write),
    (Format::Png, Carrier::Icc, Direction::Read),
    (Format::Png, Carrier::Icc, Direction::Write),
    (Format::WebP, Carrier::Exif, Direction::Read),
    (Format::WebP, Carrier::Exif, Direction::Write),
    (Format::WebP, Carrier::Xmp, Direction::Read),
    (Format::WebP, Carrier::Xmp, Direction::Write),
    (Format::WebP, Carrier::Icc, Direction::Read),
    (Format::WebP, Carrier::Icc, Direction::Write),
    (Format::Avif, Carrier::Exif, Direction::Read),
    (Format::Avif, Carrier::Exif, Direction::Write),
    (Format::Avif, Carrier::Xmp, Direction::Read),
    (Format::Avif, Carrier::Xmp, Direction::Write),
    (Format::Avif, Carrier::Icc, Direction::Read),
    (Format::Avif, Carrier::Icc, Direction::Write),
    (Format::Heic, Carrier::Exif, Direction::Read),
    (Format::Heic, Carrier::Xmp, Direction::Read),
    (Format::Heic, Carrier::Icc, Direction::Read),
    (Format::Heic, Carrier::C2pa, Direction::Read),
    (Format::Jxl, Carrier::Exif, Direction::Read),
    (Format::Jxl, Carrier::Exif, Direction::Write),
    (Format::Jxl, Carrier::Xmp, Direction::Read),
    (Format::Jxl, Carrier::Xmp, Direction::Write),
    (Format::Jxl, Carrier::Icc, Direction::Read),
    (Format::Jxl, Carrier::Icc, Direction::Write),
    (Format::Dng, Carrier::Exif, Direction::Read),
    (Format::Dng, Carrier::Exif, Direction::Write),
    (Format::Dng, Carrier::Xmp, Direction::Read),
    (Format::Dng, Carrier::Xmp, Direction::Write),
    (Format::Dng, Carrier::Icc, Direction::Read),
    (Format::Dng, Carrier::Icc, Direction::Write),
    (Format::Dng, Carrier::IptcIim, Direction::Read),
    (Format::Dng, Carrier::IptcIim, Direction::Write),
];

#[test]
fn supports_equals_the_documented_matrix_in_every_cell() {
    // Walks the full product so a flipped arm anywhere in `supports` is a named cell here.
    for format in Format::ALL {
        for carrier in Carrier::ALL {
            for direction in Direction::ALL {
                let expected = SUPPORTED.contains(&(format, carrier, direction));
                assert_eq!(
                    supports(format, carrier, direction),
                    expected,
                    "{format:?} / {carrier:?} / {direction:?}"
                );
            }
        }
    }
}

#[test]
fn typed_wiring_names_exactly_the_four_wired_crates() {
    let wired: Vec<Format> = Format::ALL
        .iter()
        .copied()
        .filter(|&f| typed_wiring(f))
        .collect();
    assert_eq!(
        wired,
        vec![Format::Jpeg, Format::Heic, Format::Jxl, Format::Dng]
    );
}

#[test]
fn crate_name_follows_the_workspace_naming() {
    for format in Format::ALL {
        let name = format.crate_name();
        assert!(name.starts_with("gamut-"), "{format:?}: {name}");
        assert_eq!(
            name.trim_start_matches("gamut-"),
            format!("{format:?}").to_ascii_lowercase(),
            "{format:?}: {name}"
        );
    }
}

#[test]
fn discriminants_are_the_documented_append_only_values() {
    // The order of the variants is permanent: a reorder is a failure.
    assert_eq!(
        Format::ALL.iter().map(|&f| f as u8).collect::<Vec<_>>(),
        (0..8).collect::<Vec<u8>>()
    );
    assert_eq!(
        Carrier::ALL.iter().map(|&c| c as u8).collect::<Vec<_>>(),
        (0..5).collect::<Vec<u8>>()
    );
    assert_eq!(Direction::ALL.map(|d| d as u8), [0, 1]);
}
