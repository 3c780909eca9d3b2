//! Trying more than one encoding never costs a byte.
use gamut_png::encoder::{keep_smaller, PngEncoder};
use gamut_png::filter::{FilterStrategy, FilterType};
use gamut_png::pixels::{ImageRef, PixelFormat};

fn pictures() -> Vec<(u32, u32, Vec<u8>)> {
    let mut all = Vec::new();
    for (w, h) in [(3u32, 3u32), (16, 16), (33, 20)] {
        let n = (w * h) as usize;
        all.push((w, h, (0..n).flat_map(|i| [i as u8, 3, 9, (i % 2) as u8 * 255]).collect()));
        all.push((w, h, (0..n).flat_map(|i| [(i / 4) as u8; 4]).collect()));
        all.push((
            w,
            h,
            (0..n)
                .flat_map(|i| [(i * i) as u8, (i * 7) as u8, (i >> 2) as u8, (i % 3) as u8 * 127])
                .collect(),
        ));
        all.push((w, h, (0..n).flat_map(|i| [(i % 5) as u8 * 50, 0, 0, 255]).collect()));
    }
    all
}

#[test]
fn brute_force_is_no_larger_than_any_strategy_it_tries() {
    for (w, h, samples) in pictures() {
        let image = ImageRef::new8(PixelFormat::Rgba8, &samples, w, h).unwrap();
        let size = |filter: FilterStrategy| {
            PngEncoder::new().with_filter(filter).encode_to_vec(&image).unwrap().len()
        };
        let brute = size(FilterStrategy::BruteForce);
        for filter in [
            FilterStrategy::Unfiltered,
            FilterStrategy::Fixed(FilterType::Sub),
            FilterStrategy::Fixed(FilterType::Up),
            FilterStrategy::Fixed(FilterType::Average),
            FilterStrategy::Fixed(FilterType::Paeth),
            FilterStrategy::MinSumAbs,
            FilterStrategy::MinBigrams,
        ] {
            assert!(brute <= size(filter), "{w}x{h} {filter:?}");
        }
    }
}

#[test]
fn cleanup_that_saves_nothing_changes_nothing() {
    let mut ties = 0;
    for (w, h, samples) in pictures() {
        let image = ImageRef::new8(PixelFormat::Rgba8, &samples, w, h).unwrap();
        for reduce in [false, true] {
            let file = |clean: bool| {
                PngEncoder::new()
                    .with_auto_reduce(reduce)
                    .with_transparent_cleanup(clean)
                    .encode_to_vec(&image)
                    .unwrap()
            };
            let (cleaned, plain) = (file(true), file(false));
            if cleaned.len() == plain.len() {
                assert_eq!(cleaned, plain, "{w}x{h}");
                ties += 1;
            }
        }
    }
    assert!(ties > 0);
}

#[test]
fn cleanup_is_no_larger_than_no_cleanup() {
    for (w, h, samples) in pictures() {
        let image = ImageRef::new8(PixelFormat::Rgba8, &samples, w, h).unwrap();
        for reduce in [false, true] {
            let size = |clean: bool| {
                PngEncoder::new()
                    .with_auto_reduce(reduce)
                    .with_transparent_cleanup(clean)
                    .encode_to_vec(&image)
                    .unwrap()
                    .len()
            };
            assert!(size(true) <= size(false), "{w}x{h}");
        }
    }
}

#[test]
fn the_smaller_candidate_is_kept_and_the_earlier_on_a_tie() {
    assert_eq!(keep_smaller(vec![1, 1], vec![2]), vec![2]);
    assert_eq!(keep_smaller(vec![1], vec![2, 2]), vec![1]);
    assert_eq!(keep_smaller(vec![1], vec![2]), vec![1]);
}
