//! Scanline filters and the scores that choose between them.
use gamut_png::filter::{
    choose_by, filter_image, filter_row, paeth, score, unfilter_row, FilterStrategy, FilterType,
    Score, Scratch,
};

fn reconstruct(filter: FilterType, filt: &[u8], prev: &[u8], bpp: usize) -> Vec<u8> {
    let mut cur = filt.to_vec();
    unfilter_row(filter, &mut cur, prev, bpp);
    cur
}

#[test]
fn every_filter_is_invertible() {
    let filters = [
        FilterType::Unfiltered,
        FilterType::Sub,
        FilterType::Up,
        FilterType::Average,
        FilterType::Paeth,
    ];
    for bpp in [1usize, 2, 3, 4] {
        for seed in 0..8u32 {
            let n = 4 * bpp + (seed as usize % 5);
            let cur: Vec<u8> = (0..n)
                .map(|i| {
                    (i as u32)
                        .wrapping_mul(seed.wrapping_add(7))
                        .wrapping_mul(31) as u8
                })
                .collect();
            let prev: Vec<u8> = (0..n)
                .map(|i| (i as u32 ^ seed.wrapping_mul(13)).wrapping_mul(17) as u8)
                .collect();
            for &f in &filters {
                let mut filt = Vec::new();
                filter_row(f, &cur, &prev, bpp, &mut filt);
                assert_eq!(reconstruct(f, &filt, &prev, bpp), cur, "{f:?} bpp={bpp}");
            }
        }
    }
}

#[test]
fn paeth_matches_spec_examples() {
    // a + b - c closest wins; ties favour a, then b.
    assert_eq!(paeth(10, 20, 10), 20); // p=20 -> b
    assert_eq!(paeth(100, 90, 80), 100); // p=110 -> a (|10| vs |20| vs |30|)
    assert_eq!(paeth(0, 0, 0), 0);
    assert_eq!(paeth(255, 0, 0), 255); // p=255 -> a
}

#[test]
fn paeth_tie_breaks_exactly_per_spec() {
    // The observable tie is pb == pc < pa, where the spec's order picks b over c: with
    // c = (2a + b) / 3, pb = pc = |a-b|/3 while pa = 2|a-b|/3.
    assert_eq!(paeth(0, 9, 3), 9); // pa=6, pb=pc=3 -> b
    assert_eq!(paeth(90, 0, 60), 0); // pa=60, pb=pc=30 -> b
    // pa == pb with distinct a and b forces pc = 0, so c wins outright.
    assert_eq!(paeth(10, 30, 20), 20); // p=20: pa=pb=10, pc=0 -> c
    assert_eq!(paeth(100, 60, 80), 80); // p=80: pa=pb=20, pc=0 -> c
}

#[test]
fn unfilter_golden_vectors() {
    // Hand-computed reconstructions with non-trivial predecessors (bpp = 2).
    let prev = [10u8, 20, 30, 40, 50, 60];
    let mut sub = [1u8, 2, 3, 4, 5, 6];
    unfilter_row(FilterType::Sub, &mut sub, &prev, 2);
    assert_eq!(sub, [1, 2, 4, 6, 9, 12]);
    let mut up = [1u8, 2, 3, 4, 5, 6];
    unfilter_row(FilterType::Up, &mut up, &prev, 2);
    assert_eq!(up, [11, 22, 33, 44, 55, 66]);
    // Average: floor((a + b) / 2) with u16 widening; first pixel has a = 0.
    let mut avg = [1u8, 2, 3, 4, 5, 6];
    unfilter_row(FilterType::Average, &mut avg, &prev, 2);
    // x0: 1+10/2=6, 2+20/2=12; x1: 3+(6+30)/2=21, 4+(12+40)/2=30; x2: 5+(21+50)/2=40, 6+(30+60)/2=51
    assert_eq!(avg, [6, 12, 21, 30, 40, 51]);
    // Average overflow: a + b = 255 + 255 must widen, not wrap, before halving.
    let mut wide = [0u8, 0];
    unfilter_row(FilterType::Average, &mut wide, &[255, 255], 2);
    let mut wide2 = [1u8, 255];
    unfilter_row(FilterType::Average, &mut wide2, &[255, 255], 1);
    assert_eq!(wide, [127, 127]); // floor(255/2) twice (a = 0 for the first pixel)
    assert_eq!(wide2, [128, 190]); // 1+floor(255/2)=128, then 255+floor((128+255)/2)=255+191 wraps to 190
}

#[test]
fn entropy_and_bigrams_prefer_repetition_where_sum_abs_prefers_smallness() {
    let repetitive: Vec<u8> = (0..64).map(|i| if i % 2 == 0 { 0 } else { 200 }).collect();
    let varied: Vec<u8> = (0..64u8).map(|i| i / 8).collect();
    let mut aux = Scratch::new();

    // Sum-of-absolutes: the varied row is far "smaller" and wins.
    assert!(
        score(Score::SumAbs, &varied, &mut aux) < score(Score::SumAbs, &repetitive, &mut aux)
    );
    // Entropy and bigrams: the repetitive row has two symbols and one alternating pair, and
    // wins by a mile.
    assert!(
        score(Score::Entropy, &repetitive, &mut aux) < score(Score::Entropy, &varied, &mut aux)
    );
    assert!(
        score(Score::Bigrams, &repetitive, &mut aux) < score(Score::Bigrams, &varied, &mut aux)
    );
}

#[test]
fn the_bigram_score_counts_distinct_adjacent_pairs() {
    let mut aux = Scratch::new();
    // (1,2), (2,1), (1,2), (2,1) -> two distinct pairs, however long the run.
    assert_eq!(score(Score::Bigrams, &[1, 2, 1, 2, 1], &mut aux), 2);
    // A constant row has exactly one.
    assert_eq!(score(Score::Bigrams, &[7, 7, 7, 7], &mut aux), 1);
    // Every pair distinct.
    assert_eq!(score(Score::Bigrams, &[1, 2, 3, 4], &mut aux), 3);
    // Fewer than two bytes has no pairs at all.
    assert_eq!(score(Score::Bigrams, &[9], &mut aux), 0);
    assert_eq!(score(Score::Bigrams, &[], &mut aux), 0);
    // Distinct *pairs*, not distinct second bytes: (1,3), (3,2), (2,3) is three pairs over two
    // distinct second bytes, so an index that dropped the high byte would report two. Every
    // vector above happens to have as many pairs as second bytes, so none of them can tell.
    assert_eq!(score(Score::Bigrams, &[1, 3, 2, 3], &mut aux), 3);
}

#[test]
fn the_scratch_is_reusable_across_rows() {
    // The histogram and bigram set are allocated once per image, so a stale one would silently
    // score the wrong thing on every row after the first.
    let mut aux = Scratch::new();
    let first = score(Score::Bigrams, &[1, 2, 3, 4], &mut aux);
    let second = score(Score::Bigrams, &[7, 7, 7, 7], &mut aux);
    assert_eq!(first, 3);
    assert_eq!(second, 1, "the previous row's pairs must not carry over");

    let a = score(Score::Entropy, &[0, 0, 0, 0], &mut aux);
    let b = score(Score::Entropy, &[0, 1, 2, 3], &mut aux);
    assert!(a < b, "a constant row must stay the lower-entropy one");
}

#[test]
fn a_universal_score_tie_keeps_the_first_filters_bytes() {
    // Every candidate for this row has all-distinct bytes, so under a scorer that ranks by
    // repetition they all score identically. `choose_by` must still emit the first candidate's
    // bytes, not a one-byte stream for a two-byte row.
    assert_eq!(
        filter_image(FilterStrategy::MinEntropy, &[1, 3], 2, 1),
        [FilterType::Unfiltered as u8, 1, 3]
    );
}

#[test]
fn a_tied_row_does_not_reuse_the_previous_rows_residuals() {
    // A row whose candidates all tie must still carry its own bytes, not those of the row before.
    assert_eq!(
        filter_image(FilterStrategy::MinEntropy, &[0, 0, 0, 1], 2, 1),
        [FilterType::Unfiltered as u8, 0, 0, FilterType::Unfiltered as u8, 0, 1]
    );
}

#[test]
fn the_entropy_score_weights_each_symbol_by_how_often_it_occurs() {
    // Entropy is `sum c*log2(n/c)`, not `sum log2(n/c)`: each symbol's surprise is weighted by
    // how much of the row it accounts for. Drop the weighting and the score degenerates into
    // something that mostly counts distinct symbols, which ranks these two rows the other way
    // round.
    //
    // `balanced` is two symbols split evenly -- the worst case for a two-symbol row, a full
    // bit per byte. `concentrated` has *more* distinct symbols but spends 14 of its 16 bytes
    // on one of them, so it carries less information and must score lower. Unweighted it
    // scores higher, because it has three log terms against two.
    let mut aux = Scratch::new();
    let mut balanced = vec![0u8; 8];
    balanced.extend(vec![1u8; 8]);
    let mut concentrated = vec![0u8; 14];
    concentrated.extend_from_slice(&[1, 2]);

    let balanced = score(Score::Entropy, &balanced, &mut aux);
    let concentrated = score(Score::Entropy, &concentrated, &mut aux);
    assert!(
        concentrated < balanced,
        "concentrated {concentrated} should score below balanced {balanced}"
    );
}

#[test]
fn the_entropy_scale_separates_rows_closer_than_one_bit() {
    // The scale is what makes the score integer-exact: these two rows carry 8.000 and 8.490
    // bits, which both floor to 8. Only multiplying by 256 before the cast keeps them apart,
    // so this is the assertion that a `+ 256.0` or `/ 256.0` scale cannot satisfy.
    let mut aux = Scratch::new();
    let even = score(Score::Entropy, &[0, 0, 0, 0, 1, 1, 1, 1], &mut aux);
    let skewed = score(Score::Entropy, &[0, 0, 0, 0, 0, 0, 1, 2], &mut aux);
    assert!(even < skewed, "{even} < {skewed}");
}

#[test]
fn min_sum_abs_prefers_flat_residuals() {
    // scores far below None.
    let row: Vec<u8> = (0..30u8).map(|i| i.wrapping_mul(3)).collect();
    let prev = vec![0u8; row.len()];
    let chosen = choose_by(
        Score::SumAbs,
        &row,
        &prev,
        1,
        &mut Vec::new(),
        &mut Vec::new(),
        &mut Scratch::new(),
    );
    assert_eq!(chosen, FilterType::Sub);
}
