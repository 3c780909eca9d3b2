//! Palettes, their transparency, and what cleaning makes of them.
use gamut_png::palette::{trim_trailing_opaque, PngPalette, OPAQUE};

#[test]
fn a_constructed_palette_is_never_empty() {
    let one = PngPalette::new(&[[1, 2, 3]]).expect("one entry is a palette");
    assert!(!one.is_empty());
    assert_eq!(one.len(), 1);

    assert!(
        PngPalette::new(&[]).is_err(),
        "the constructor is what makes is_empty invariantly false"
    );
}

#[test]
fn rejects_invalid_sizes() {
    assert!(PngPalette::new(&[]).is_err());
    assert!(PngPalette::new(&vec![[0, 0, 0]; 257]).is_err());
    assert!(PngPalette::with_transparency(&[[0, 0, 0]], &[1, 2]).is_err());
    assert!(PngPalette::new(&[[1, 2, 3]]).is_ok());
}

#[test]
fn serialises_plte_and_trns() {
    let p = PngPalette::with_transparency(&[[1, 2, 3], [4, 5, 6]], &[0]).unwrap();
    assert_eq!(p.len(), 2);
    assert_eq!(p.plte(), vec![1, 2, 3, 4, 5, 6]);
    assert_eq!(p.trns(), Some(&[0u8][..]));
    let opaque = PngPalette::new(&[[7, 8, 9]]).unwrap();
    assert_eq!(opaque.trns(), None);
}

#[test]
fn alphas_that_are_all_opaque_have_no_trns() {
    let p = PngPalette::with_transparency(&[[1, 2, 3], [4, 5, 6]], &[255, 255]).unwrap();
    assert_eq!(p.trns(), None);
    let q = PngPalette::with_transparency(&[[1, 2, 3], [4, 5, 6]], &[255, 254]).unwrap();
    assert_eq!(q.trns(), Some(&[255u8, 254][..]));
}

#[test]
fn from_chunks_round_trips_serialisation() {
    let original =
        PngPalette::with_transparency(&[[1, 2, 3], [4, 5, 6], [7, 8, 9]], &[0, 128]).unwrap();
    let parsed = PngPalette::from_chunks(&original.plte(), original.trns()).unwrap();
    assert_eq!(parsed.len(), 3);
    assert_eq!(parsed.rgb(0), Some([1, 2, 3]));
    assert_eq!(parsed.rgb(2), Some([7, 8, 9]));
    assert_eq!(parsed.rgb(3), None);
    assert_eq!(parsed.alpha(0), Some(0));
    assert_eq!(parsed.alpha(1), Some(128));
    assert_eq!(parsed.alpha(2), Some(255)); // beyond tRNS: opaque
    assert_eq!(parsed.alpha(3), None);
    assert!(parsed.has_transparency());
    assert!(!PngPalette::new(&[[0, 0, 0]]).unwrap().has_transparency());
}

fn used_by(indices: &[u8]) -> [bool; 256] {
    let mut used = [false; 256];
    for &index in indices {
        used[usize::from(index)] = true;
    }
    used
}

#[test]
fn trailing_opaque_alphas_are_the_ones_trns_may_omit() {
    let mut alphas = vec![0, OPAQUE, 128, OPAQUE, OPAQUE];
    trim_trailing_opaque(&mut alphas);
    assert_eq!(alphas, vec![0, OPAQUE, 128]);

    // A wholly opaque run leaves nothing, which is the chunk not being written at all.
    let mut all_opaque = vec![OPAQUE; 4];
    trim_trailing_opaque(&mut all_opaque);
    assert!(all_opaque.is_empty());

    // Nothing to trim is not an error.
    let mut none = vec![7, 8];
    trim_trailing_opaque(&mut none);
    assert_eq!(none, vec![7, 8]);
}

#[test]
fn cleaning_drops_an_entry_no_index_marks() {
    let palette = PngPalette::new(&[[0, 0, 0], [1, 1, 1], [2, 2, 2], [3, 3, 3]]).unwrap();
    let (cleaned, remap) = palette.cleaned(&used_by(&[1, 3]));

    assert_eq!(cleaned.len(), 2);
    assert_eq!(cleaned.rgb(0), Some([1, 1, 1]));
    assert_eq!(cleaned.rgb(1), Some([3, 3, 3]));
    // The survivors keep the caller's relative order, so 1 lands before 3.
    assert_eq!(remap[1], 0);
    assert_eq!(remap[3], 1);
}

#[test]
fn cleaning_merges_entries_that_name_the_same_colour() {
    let palette = PngPalette::new(&[[9, 9, 9], [4, 4, 4], [9, 9, 9]]).unwrap();
    let (cleaned, remap) = palette.cleaned(&used_by(&[0, 1, 2]));

    assert_eq!(cleaned.len(), 2, "the repeated colour is written once");
    assert_eq!(cleaned.rgb(0), Some([9, 9, 9]));
    assert_eq!(cleaned.rgb(1), Some([4, 4, 4]));
    assert_eq!(
        remap[2], remap[0],
        "the duplicate resolves to the first entry"
    );
    assert_eq!(remap[1], 1);
}

#[test]
fn an_entry_is_its_alpha_as_well_as_its_rgb() {
    let palette = PngPalette::with_transparency(&[[9, 9, 9], [9, 9, 9]], &[0, 200]).unwrap();
    let (cleaned, remap) = palette.cleaned(&used_by(&[0, 1]));

    assert_eq!(cleaned.len(), 2);
    assert_eq!(cleaned.alpha(0), Some(0));
    assert_eq!(cleaned.alpha(1), Some(200));
    assert_ne!(remap[0], remap[1]);
}

#[test]
fn a_missing_trns_entry_is_opaque_when_entries_are_compared() {
    let palette =
        PngPalette::with_transparency(&[[0, 0, 0], [5, 5, 5], [5, 5, 5]], &[0, OPAQUE])
            .unwrap();
    let (cleaned, remap) = palette.cleaned(&used_by(&[0, 1, 2]));

    assert_eq!(cleaned.len(), 2);
    assert_eq!(remap[2], remap[1]);
}

#[test]
fn a_cleaned_palette_carries_a_trimmed_trns() {
    let palette =
        PngPalette::with_transparency(&[[0, 0, 0], [1, 1, 1], [2, 2, 2]], &[0, OPAQUE, OPAQUE])
            .unwrap();
    let (cleaned, _) = palette.cleaned(&used_by(&[0, 1, 2]));
    assert_eq!(cleaned.trns(), Some(&[0u8][..]));

    // Nothing transparent survives: no chunk at all.
    let (opaque, _) = palette.cleaned(&used_by(&[1, 2]));
    assert_eq!(opaque.trns(), None);
}

#[test]
fn from_chunks_rejects_malformed_payloads() {
    assert!(PngPalette::from_chunks(&[1, 2, 3, 4], None).is_err()); // not a triple multiple
    assert!(PngPalette::from_chunks(&[], None).is_err()); // zero entries
    assert!(PngPalette::from_chunks(&[0; 771], None).is_err()); // 257 entries
    assert!(PngPalette::from_chunks(&[1, 2, 3], Some(&[0, 0])).is_err()); // tRNS too long
}
