//! What an encoder chooses between, and what it takes: the smallest depth, the first of the smallest files,
//! the filter of each row, the entries of a palette.
use crate::ancillary::EntryModel;
use crate::carry::{carried_entries, carried_text, carried_xmp, carry_notices, own_entries};
use crate::decoded::{MetadataModel, TextModel};
use crate::draft::smallest;
use crate::encoder::{
    bilevel_codes, brute_force_strategy, cleaned16, cleaned8, named_entries, new_index, FileModel,
    MetadataNotice, PngEncoder,
};
use crate::filter::{
    bigrams_of, entropy_of, entropy_sum, filtered_image, filtered_row, log2_fixed, log2_scaled, occurrences,
    row_above, row_at, score_of, strategy_filter, FilterStrategy, FilterType, Score, LOG_ONE, MANTISSA_ONE,
};
use crate::palette::{
    alpha_at, entry_alphas, kept_entries, trimmed, trimmed_is_no_longer, trimming_keeps_every_alpha, trns_payload, Entry,
    PngPalette,
};
use crate::pixels::{ImageRef, PixelFormat};
use crate::reduce::{
    colour_key_of, demotable, discovered, discovered_holds_each_once, gray, gray_depth_of,
    has_invisible_pixel, index_depth, indexed_reduction, ints16, ints8, invisible, opaque, ordered, ordered_is_a_sorted_rearrangement,
    palette_rank, quad_alphas, quads16, reductions16, reductions8, stored_estimate, without_hidden_color, Quad, ReducedModel, ReductionsModel,
};
use crate::zlib::Level;
use vstd::prelude::*;

verus! {

/// The levels of compression: fast is 1, the default 6, and the best what effort asks for, no less than the
/// default and no more than 10.
pub proof fn levels_of_compression(effort: u8)
    ensures
        Level::Fast.spec_strength(effort) == 1,
        Level::Default.spec_strength(effort) == 6,
        6 <= Level::Best.spec_strength(effort) <= 10,
        6 <= effort <= 10 ==> Level::Best.spec_strength(effort) == effort,
        effort < 6 ==> Level::Best.spec_strength(effort) == 6,
        effort > 10 ==> Level::Best.spec_strength(effort) == 10,
{
}

/// A depth for indices addresses every entry, and no smaller depth does.
pub proof fn the_smallest_index_depth(n: nat)
    requires
        n <= 256,
    ensures
        ({
            let d = index_depth(n);
            &&& d == 1 || d == 2 || d == 4 || d == 8
            &&& d == 1 ==> n <= 2
            &&& d == 2 ==> 2 < n <= 4
            &&& d == 4 ==> 4 < n <= 16
            &&& d == 8 ==> 16 < n
        }),
{
}

/// A depth for grey holds every value exactly, and no smaller depth does: at `d` bits the values are those
/// that full scale divides into `2^d - 1` equal steps.
pub proof fn the_smallest_gray_depth(q: Seq<Quad>)
    ensures
        ({
            let d = gray_depth_of(q);
            &&& d == 1 || d == 2 || d == 4 || d == 8
            &&& d == 1 ==> forall|i: int| 0 <= i < q.len() ==> (#[trigger] q[i]).0 == 0 || q[i].0 == 255
            &&& d == 2 ==> forall|i: int| 0 <= i < q.len() ==> (#[trigger] q[i]).0 as int % 85 == 0
            &&& d == 4 ==> forall|i: int| 0 <= i < q.len() ==> (#[trigger] q[i]).0 as int % 17 == 0
            &&& d > 1 ==> exists|i: int| 0 <= i < q.len() && (#[trigger] q[i]).0 != 0 && q[i].0 != 255
            &&& d > 2 ==> exists|i: int| 0 <= i < q.len() && (#[trigger] q[i]).0 as int % 85 != 0
            &&& d > 4 ==> exists|i: int| 0 <= i < q.len() && (#[trigger] q[i]).0 as int % 17 != 0
        }),
{
    assert(forall|v: u8| v as int % 255 == 0 ==> #[trigger] is_end(v)) by {}
    if gray_depth_of(q) > 1 {
        let i = choose|i: int| 0 <= i < q.len() && (#[trigger] q[i]).0 as int % 255 != 0;
        assert(q[i].0 != 0 && q[i].0 != 255);
    } else {
        assert forall|i: int| 0 <= i < q.len() implies (#[trigger] q[i]).0 == 0 || q[i].0 == 255 by {
            assert(q[i].0 as int % 255 == 0);
            assert(is_end(q[i].0));
        }
    }
}

spec fn is_end(v: u8) -> bool {
    v == 0 || v == 255
}

/// A palette is ordered by opacity, the most transparent entry first, and among entries of one opacity by
/// luma.
pub proof fn entries_are_ranked(a: Quad, b: Quad)
    ensures
        a.3 < b.3 ==> palette_rank(a) < palette_rank(b),
        a.3 == b.3 ==> (palette_rank(a) < palette_rank(b) <==> 299 * a.0 + 587 * a.1 + 114 * a.2 < 299 * b.0
            + 587 * b.1 + 114 * b.2),
{
}

/// How many bytes the layouts of an image of `n` pixels store, as far as it has one: grey, grey and alpha,
/// or colour.
pub open spec fn stores(q: Seq<Quad>, channels: int, bytes: int) -> bool {
    let n = q.len() as int;
    ||| gray(q) && opaque(q) && bytes == n * gray_depth_of(q) / 8
    ||| gray(q) && !opaque(q) && bytes == 2 * n
    ||| !gray(q) && opaque(q) && channels == 4 && bytes == 3 * n
    ||| discovered(q).len() <= 256 && bytes == n * index_depth(discovered(q).len()) / 8 + 3
        * discovered(q).len() + (if opaque(q) {
        0
    } else {
        discovered(q).len() as int
    }) + 24
    ||| !opaque(q) && channels % 2 == 0 && colour_key_of(q) is Some && bytes == (if gray(q) {
        n + 14
    } else {
        3 * n + 18
    })
}

/// The reduction that is offered first stores no more than any other that applies, and where none is offered
/// none would store less than the image itself.
pub proof fn the_best_reduction_is_offered(q: Seq<Quad>, channels: int, bytes: int)
    requires
        1 <= channels <= 4,
        q.len() * channels <= usize::MAX,
        stores(q, channels, bytes),
    ensures
        match reductions8(q, channels) {
            ReductionsModel::Nothing => bytes >= q.len() * channels,
            ReductionsModel::ChunkFree(m) => stored_estimate(m) <= bytes,
            ReductionsModel::Chunked { chunked, .. } => stored_estimate(chunked) <= bytes || bytes
                >= q.len() * channels,
        },
{
    discovered_holds_each_once(q);
    ordered_is_a_sorted_rearrangement(discovered(q));
    let entries = discovered(q);
    assert(opaque(entries) <==> opaque(q)) by {
        if opaque(q) {
            assert forall|i: int| 0 <= i < entries.len() implies (#[trigger] entries[i]).3 == 255 by {
                assert(entries.contains(entries[i]));
                let j = choose|j: int| 0 <= j < q.len() && q[j] == entries[i];
                assert(q[j].3 == 255);
            }
        }
        if opaque(entries) {
            assert forall|i: int| 0 <= i < q.len() implies (#[trigger] q[i]).3 == 255 by {
                assert(q.contains(q[i]));
                let j = choose|j: int| 0 <= j < entries.len() && entries[j] == q[i];
                assert(entries[j].3 == 255);
            }
        }
    }
}

/// How many bytes an image stores without a chunk of its own, where it has such a layout: grey, grey and
/// alpha, or colour without alpha.
pub open spec fn free_bytes(q: Seq<Quad>, channels: int) -> Option<int> {
    if gray(q) && opaque(q) {
        Some(q.len() * gray_depth_of(q) as int / 8)
    } else if gray(q) {
        Some(2 * q.len() as int)
    } else if !gray(q) && opaque(q) && channels == 4 {
        Some(3 * q.len() as int)
    } else {
        None
    }
}

/// How many bytes an image stores with a palette, where one holds its colours.
pub open spec fn palette_bytes(q: Seq<Quad>) -> Option<int> {
    let n = discovered(q).len();
    if n <= 256 {
        Some(
            q.len() * index_depth(n) as int / 8 + 3 * n + 24 + (if opaque(discovered(q)) {
                0int
            } else {
                n as int
            }),
        )
    } else {
        None
    }
}

/// How many bytes an image stores with a transparent colour, where it has one.
pub open spec fn keyed_bytes(q: Seq<Quad>, channels: int) -> Option<int> {
    if !opaque(q) && (channels == 2 || channels == 4) && colour_key_of(q) is Some {
        Some(if gray(q) {
            q.len() as int + 14
        } else {
            3 * q.len() as int + 18
        })
    } else {
        None
    }
}

/// Whether one layout is there and stores no more than another, or the other is not there.
pub open spec fn is_no_larger(a: Option<int>, b: Option<int>) -> bool {
    a is Some && (b is Some ==> a->0 <= b->0)
}

/// Which reduction is offered. Of layouts that store as little, one without a chunk of its own comes before
/// the others, and a transparent colour before a palette.
pub proof fn which_reduction_is_offered(q: Seq<Quad>, channels: int)
    requires
        1 <= channels <= 4,
        q.len() * channels <= usize::MAX,
    ensures
        ({
            let (free, palette, keyed) = (
                free_bytes(q, channels),
                palette_bytes(q),
                keyed_bytes(q, channels),
            );
            let input = q.len() * channels;
            let smaller = |bytes: Option<int>| bytes is Some && bytes->0 < input;
            match reductions8(q, channels) {
                ReductionsModel::Nothing => !smaller(free) && !smaller(palette) && !smaller(keyed),
                ReductionsModel::ChunkFree(_) => smaller(free) && is_no_larger(free, palette)
                    && is_no_larger(free, keyed),
                ReductionsModel::Chunked { chunked, chunk_free } => {
                    &&& smaller(palette) || smaller(keyed)
                    &&& chunk_free is Some <==> smaller(free)
                    &&& chunked is Indexed <==> !is_no_larger(keyed, palette)
                    &&& chunked is GrayKeyed <==> is_no_larger(keyed, palette) && gray(q)
                    &&& chunked is Rgb8Keyed <==> is_no_larger(keyed, palette) && !gray(q)
                },
            }
        }),
{
}

/// Of some files the one that is kept is the smallest, and the first of those of one size.
pub proof fn the_first_smallest_is_kept(files: Seq<Seq<u8>>) -> (at: int)
    requires
        files.len() >= 1,
    ensures
        0 <= at < files.len(),
        smallest(files) == files[at],
        forall|i: int| 0 <= i < files.len() ==> files[at].len() <= (#[trigger] files[i]).len(),
        forall|i: int| 0 <= i < at ==> files[at].len() < (#[trigger] files[i]).len(),
    decreases files.len(),
{
    if files.len() == 1 {
        0
    } else {
        let rest = files.drop_last();
        let at = the_first_smallest_is_kept(rest);
        assert forall|i: int| 0 <= i < rest.len() implies #[trigger] files[i] == rest[i] by {}
        assert(files[at] == rest[at]);
        if files.last().len() < rest[at].len() {
            assert forall|i: int| 0 <= i < files.len() - 1 implies files.last().len() < (
            #[trigger] files[i]).len() by {
                assert(rest[at].len() <= rest[i].len());
            }
            files.len() - 1
        } else {
            assert forall|i: int| 0 <= i < files.len() implies files[at].len() <= (
            #[trigger] files[i]).len() by {
                if i < rest.len() {
                    assert(rest[at].len() <= rest[i].len());
                }
            }
            assert forall|i: int| 0 <= i < at implies files[at].len() < (#[trigger] files[i]).len() by {
                assert(rest[at].len() < rest[i].len());
            }
            at
        }
    }
}

/// The strategies that are tried in turn: each of the five filters throughout, the smallest sum of
/// magnitudes, and the fewest pairs of neighbours.
pub proof fn strategies_of_brute_force(k: int)
    ensures
        0 <= k < 5 ==> forall|cur: Seq<u8>, prev: Seq<u8>, bpp: int|
            (#[trigger] strategy_filter(brute_force_strategy(k), cur, prev, bpp)).spec_code() == k,
        brute_force_strategy(5) is MinSumAbs,
        brute_force_strategy(6) is MinBigrams,
{
}

/// A strategy that scores takes, for each row, a filter that scores no more than any other, and the one of
/// the lowest code among those.
pub proof fn a_scored_row_has_the_lowest_score(
    kind: Score,
    cur: Seq<u8>,
    prev: Seq<u8>,
    bpp: int,
    other: FilterType,
)
    ensures
        ({
            let strategy = match kind {
                Score::SumAbs => FilterStrategy::MinSumAbs,
                Score::Entropy => FilterStrategy::MinEntropy,
                Score::Bigrams => FilterStrategy::MinBigrams,
            };
            let f = strategy_filter(strategy, cur, prev, bpp);
            let (least, rival) = (
                score_of(kind, filtered_row(f, cur, prev, bpp)),
                score_of(kind, filtered_row(other, cur, prev, bpp)),
            );
            &&& least <= rival
            &&& other.spec_code() < f.spec_code() ==> least < rival
        }),
        strategy_filter(FilterStrategy::Unfiltered, cur, prev, bpp) is Unfiltered,
        strategy_filter(FilterStrategy::Fixed(other), cur, prev, bpp) == other,
{
    crate::filter::best_filter_is_first_minimum(kind, cur, prev, bpp, other);
}

/// Each row of a filtered image stands behind those above it: the code of its filter, then the row filtered
/// against the row above, which is all zero for the first.
pub proof fn a_filtered_image_is_its_rows(
    strategy: FilterStrategy,
    samples: Seq<u8>,
    row_bytes: int,
    bpp: int,
    rows: nat,
)
    requires
        row_bytes >= 1,
        samples.len() >= (rows + 1) * row_bytes,
    ensures
        ({
            let y = rows as int;
            let cur = Seq::new(row_bytes as nat, |i: int| samples[y * row_bytes + i]);
            let prev = Seq::new(
                row_bytes as nat,
                |i: int|
                    if y == 0 {
                        0u8
                    } else {
                        samples[(y - 1) * row_bytes + i]
                    },
            );
            let f = strategy_filter(strategy, cur, prev, bpp);
            filtered_image(strategy, samples, row_bytes, bpp, rows + 1) == filtered_image(
                strategy,
                samples,
                row_bytes,
                bpp,
                rows,
            ) + seq![f.spec_code()] + filtered_row(f, cur, prev, bpp)
        }),
        filtered_image(strategy, samples, row_bytes, bpp, 0) == Seq::<u8>::empty(),
{
    let y = rows as int;
    assert((y + 1) * row_bytes == y * row_bytes + row_bytes && 0 <= y * row_bytes) by (nonlinear_arith)
        requires
            y >= 0,
            row_bytes >= 1,
    ;
    assert(row_at(samples, row_bytes, y) =~= Seq::new(
        row_bytes as nat,
        |i: int| samples[y * row_bytes + i],
    ));
    if y > 0 {
        assert((y - 1) * row_bytes == y * row_bytes - row_bytes && 0 <= (y - 1) * row_bytes)
            by (nonlinear_arith)
            requires
                y >= 1,
                row_bytes >= 1,
        ;
        assert(y * row_bytes == (y - 1 + 1) * row_bytes);
    }
    assert(row_above(samples, row_bytes, y) =~= Seq::new(
        row_bytes as nat,
        |i: int|
            if y == 0 {
                0u8
            } else {
                samples[(y - 1) * row_bytes + i]
            },
    ));
}

/// The score by pairs counts the different pairs of neighbours in a row, in their order.
pub proof fn pairs_are_neighbours(row: Seq<u8>, a: u8, b: u8)
    ensures
        bigrams_of(row).contains((a, b)) <==> exists|i: int|
            0 < i < row.len() && row[i - 1] == a && #[trigger] row[i] == b,
{
    if bigrams_of(row).contains((a, b)) {
        let i = choose|i: int| 0 <= i < row.len() - 1 && row[i] == a && #[trigger] row[i + 1] == b;
        assert(row[i + 1] == b && row[i + 1 - 1] == a);
    }
    if exists|i: int| 0 < i < row.len() && row[i - 1] == a && #[trigger] row[i] == b {
        let i = choose|i: int| 0 < i < row.len() && row[i - 1] == a && #[trigger] row[i] == b;
        assert(row[(i - 1) + 1] == b);
    }
}

/// Doubling adds one to the logarithm.
pub proof fn doubling_adds_one(x: int)
    requires
        1 <= x < MANTISSA_ONE,
    ensures
        log2_fixed(2 * x) == log2_fixed(x) + 0x1_0000_0000,
{
    reveal_with_fuel(pow_two, 63);
    let p = pow_two(62);
    assert(p == 0x4000_0000_0000_0000);
    assert(2 * x * p >= 2 * p) by (nonlinear_arith)
        requires
            x >= 1,
            p >= 0,
    ;
    one_exponent_less(2 * x, 62, 63);
}

/// A number of `n` bits, however far it is shifted, keeps its digits.
proof fn one_exponent_less(m: int, e: nat, n: nat)
    requires
        1 <= m,
        m < 2 * MANTISSA_ONE,
        e < n,
        n == e + 1,
        m * pow_two(e) >= MANTISSA_ONE,
    ensures
        log2_scaled(m, n) == log2_scaled(m, e) + 0x1_0000_0000,
    decreases e,
{
    if m >= MANTISSA_ONE {
        assert(n * LOG_ONE == e * LOG_ONE + LOG_ONE) by (nonlinear_arith)
            requires
                n == e + 1,
        ;
    } else {
        assert(e > 0) by {
            if e == 0 {
                assert(pow_two(0) == 1);
                assert(m * 1 == m);
            }
        }
        assert(pow_two(e) == 2 * pow_two((e - 1) as nat));
        assert(2 * m * pow_two((e - 1) as nat) == m * (2 * pow_two((e - 1) as nat))) by (nonlinear_arith);
        one_exponent_less(2 * m, (e - 1) as nat, e);
    }
}

/// Two to the power of `n`.
spec fn pow_two(n: nat) -> int
    decreases n,
{
    if n == 0 {
        1
    } else {
        2 * pow_two((n - 1) as nat)
    }
}

/// The score by entropy depends on how often each byte occurs, and on nothing else of a row.
pub proof fn entropy_is_of_the_counts(a: Seq<u8>, b: Seq<u8>)
    requires
        a.len() == b.len(),
        forall|x: u8| #[trigger] occurrences(a, x) == occurrences(b, x),
    ensures
        entropy_of(a) == entropy_of(b),
{
    same_sums(a, b, 256);
}

proof fn same_sums(a: Seq<u8>, b: Seq<u8>, symbols: int)
    requires
        a.len() == b.len(),
        forall|x: u8| #[trigger] occurrences(a, x) == occurrences(b, x),
    ensures
        entropy_sum(a, symbols) == entropy_sum(b, symbols),
    decreases symbols,
{
    if symbols > 0 {
        same_sums(a, b, symbols - 1);
        assert(occurrences(a, (symbols - 1) as u8) == occurrences(b, (symbols - 1) as u8));
    }
}

/// A row of one byte throughout has no entropy.
pub proof fn a_constant_row_has_no_entropy(row: Seq<u8>, x: u8)
    requires
        forall|i: int| 0 <= i < row.len() ==> (#[trigger] row[i]) == x,
    ensures
        entropy_of(row) == 0,
{
    constant_sum(row, x, 256);
}

proof fn constant_sum(row: Seq<u8>, x: u8, symbols: int)
    requires
        forall|i: int| 0 <= i < row.len() ==> (#[trigger] row[i]) == x,
        symbols <= 256,
    ensures
        entropy_sum(row, symbols) == 0,
    decreases symbols,
{
    if symbols > 0 {
        constant_sum(row, x, symbols - 1);
        constant_counts(row, x, (symbols - 1) as u8);
        let c = occurrences(row, (symbols - 1) as u8);
        if c > 0 {
            assert(c * (log2_fixed(row.len() as int) - log2_fixed(c)) == 0) by (nonlinear_arith)
                requires
                    log2_fixed(row.len() as int) == log2_fixed(c),
            ;
        }
    }
}

proof fn constant_counts(row: Seq<u8>, x: u8, b: u8)
    requires
        forall|i: int| 0 <= i < row.len() ==> (#[trigger] row[i]) == x,
    ensures
        occurrences(row, b) == (if b == x {
            row.len() as int
        } else {
            0
        }),
    decreases row.len(),
{
    if row.len() > 0 {
        let rest = row.drop_last();
        assert forall|i: int| 0 <= i < rest.len() implies (#[trigger] rest[i]) == x by {
            assert(rest[i] == row[i]);
        }
        constant_counts(rest, x, b);
        assert(row[row.len() - 1] == x);
    }
}

/// Two bytes that occur equally often make one bit each: of `2c` bytes half the one and half the other, the
/// score is `2c` bits in its unit of 1/256 bit.
pub proof fn two_even_bytes_make_a_bit_each(row: Seq<u8>, x: u8, y: u8, c: int)
    requires
        x < y,
        1 <= c < MANTISSA_ONE,
        row.len() == 2 * c,
        occurrences(row, x) == c,
        occurrences(row, y) == c,
        forall|b: u8| b != x && b != y ==> #[trigger] occurrences(row, b) == 0,
    ensures
        entropy_of(row) == 2 * c * 256,
{
    doubling_adds_one(c);
    even_sum(row, x, y, c, 256);
    assert(2 * c * 0x1_0000_0000 / 0x100_0000 == 2 * c * 256);
}

proof fn even_sum(row: Seq<u8>, x: u8, y: u8, c: int, symbols: int)
    requires
        x < y,
        1 <= c,
        row.len() == 2 * c,
        log2_fixed(2 * c) == log2_fixed(c) + 0x1_0000_0000,
        occurrences(row, x) == c,
        occurrences(row, y) == c,
        forall|b: u8| b != x && b != y ==> #[trigger] occurrences(row, b) == 0,
        0 <= symbols <= 256,
    ensures
        entropy_sum(row, symbols) == (if symbols > x {
            c * 0x1_0000_0000
        } else {
            0
        }) + (if symbols > y {
            c * 0x1_0000_0000
        } else {
            0
        }),
    decreases symbols,
{
    if symbols > 0 {
        even_sum(row, x, y, c, symbols - 1);
        let b = (symbols - 1) as u8;
        if b == x || b == y {
            assert(occurrences(row, b) == c);
            assert(log2_fixed(row.len() as int) - log2_fixed(c) == 0x1_0000_0000);
        } else {
            assert(occurrences(row, b) == 0);
        }
    }
}

/// The entries that are kept of a palette are those that are named, each colour and alpha once, in the order
/// of their first appearance.
pub proof fn named_entries_are_kept_once(entries: Seq<Entry>, used: Seq<bool>, n: int)
    requires
        0 <= n <= entries.len(),
        n <= used.len(),
    ensures
        ({
            let kept = kept_entries(entries, used, n);
            &&& kept.no_duplicates()
            &&& forall|i: int| 0 <= i < n && #[trigger] used[i] ==> kept.contains(entries[i])
            &&& forall|k: int|
                0 <= k < kept.len() ==> exists|i: int|
                    0 <= i < n && #[trigger] used[i] && entries[i] == #[trigger] kept[k]
            &&& kept.len() <= n
        }),
    decreases n,
{
    if n > 0 {
        named_entries_are_kept_once(entries, used, n - 1);
        let before = kept_entries(entries, used, n - 1);
        let kept = kept_entries(entries, used, n);
        assert forall|i: int| 0 <= i < n && #[trigger] used[i] implies kept.contains(entries[i]) by {
            if i < n - 1 {
                assert(before.contains(entries[i]));
                let k = choose|k: int| 0 <= k < before.len() && before[k] == entries[i];
                assert(kept[k] == entries[i]);
            } else if !before.contains(entries[i]) {
                assert(kept[kept.len() - 1] == entries[i]);
            }
        }
        assert forall|k: int| 0 <= k < kept.len() implies exists|i: int|
            0 <= i < n && #[trigger] used[i] && entries[i] == #[trigger] kept[k] by {
            if k < before.len() {
                assert(kept[k] == before[k]);
                let i = choose|i: int| 0 <= i < n - 1 && #[trigger] used[i] && entries[i] == before[k];
                assert(used[i] && entries[i] == kept[k]);
            } else {
                assert(used[n - 1] && entries[n - 1] == kept[k]);
            }
        }
    }
}

/// A renumbered index names the entry it named before.
pub proof fn a_new_index_names_the_same_entry(entries: Seq<Entry>, used: Seq<bool>, i: int)
    requires
        0 <= i < entries.len() <= 256,
        entries.len() <= used.len(),
        used[i],
    ensures
        ({
            let kept = kept_entries(entries, used, entries.len() as int);
            let at = new_index(entries, kept, i) as int;
            at < kept.len() && kept[at] == entries[i]
        }),
{
    let kept = kept_entries(entries, used, entries.len() as int);
    named_entries_are_kept_once(entries, used, entries.len() as int);
    assert(used[i] && kept.contains(entries[i]));
    let k = choose|k: int| 0 <= k < kept.len() && kept[k] == entries[i];
    assert(kept[kept.index_of(entries[i])] == entries[i]);
}

/// An entry is named exactly where some pixel has its number or the background does.
pub proof fn what_is_named(indices: Seq<u8>, background: Option<u8>, i: int)
    requires
        0 <= i < 256,
    ensures
        named_entries(indices, background).len() == 256,
        named_entries(indices, background)[i] <==> (exists|k: int|
            0 <= k < indices.len() && #[trigger] indices[k] == i) || (background matches Some(b) && b == i),
{
    if exists|k: int| 0 <= k < indices.len() && #[trigger] indices[k] == i {
        let k = choose|k: int| 0 <= k < indices.len() && #[trigger] indices[k] == i;
        assert(indices.contains(i as u8));
    }
}

/// Which notices say that something was left behind, and which that it was written all the same.
pub proof fn what_a_notice_says(notice: MetadataNotice)
    ensures
        notice.spec_carried() <==> notice is TextKeywordRepertoire || notice is TextKeywordSpacing
            || notice is ItxtLanguageTag,
{
}

/// Without reduction and cleanup an image is written in its own layout: its dimensions, the colour type of its
/// channels and its depth, one bit for each pixel of two levels.
pub proof fn an_image_is_written_in_its_layout(e: PngEncoder, image: ImageRef<'_>)
    requires
        image.wf(),
        !(image.spec_format() is Indexed8),
        !e.auto_reduce,
    ensures
        ({
            let f = e.encoded(image);
            &&& f.header.width == image.spec_width() && f.header.height == image.spec_height()
            &&& f.header.color.spec_channels() == image.spec_format().spec_channels()
            &&& !(f.header.color is Indexed)
            &&& !f.header.interlaced
            &&& f.header.bit_depth == (match image.spec_format() {
                PixelFormat::Bilevel => 1,
                PixelFormat::Gray16
                | PixelFormat::GrayAlpha16
                | PixelFormat::Rgb16
                | PixelFormat::Rgba16 => 16int,
                _ => 8,
            })
            &&& f.plte is None && f.trns is None
        }),
{
}

/// Two levels are written as one bit each: black where a sample is 0, white where it is anything else.
pub proof fn two_levels_are_bits(samples: Seq<u8>, i: int)
    requires
        0 <= i < samples.len(),
    ensures
        bilevel_codes(samples).len() == samples.len(),
        bilevel_codes(samples)[i] == 0 <==> samples[i] == 0,
        bilevel_codes(samples)[i] <= 1,
{
}

/// With cleanup switched on the file of an image with a fully transparent pixel is no larger than that of the
/// cleaned image, and no larger than that of the image as it is.
pub proof fn cleanup_is_tried(e: PngEncoder, width: u32, height: u32, format: PixelFormat, s: Seq<u8>, i: int)
    requires
        e.clean_transparent,
        format is GrayAlpha8 || format is Rgba8,
        0 <= i < s.len() as int / format.spec_channels(),
        s[i * format.spec_channels() + format.spec_channels() - 1] == 0,
    ensures
        ({
            let ch = format.spec_channels();
            let size = e.file_of(e.samples_file8(width, height, format, s)).len();
            &&& size <= e.file_of(e.layout8(width, height, format, cleaned8(s, ch))).len()
            &&& size <= e.file_of(e.layout8(width, height, format, s)).len()
        }),
{
    let ch = format.spec_channels();
    crate::reduce::pixel_inside(s.len() as int, ch, i);
    assert(ints8(s)[i * ch + ch - 1] == 0);
    assert(invisible(ints8(s), ch, i));
    assert(has_invisible_pixel(ints8(s), ch));
}

/// The same of 16-bit images.
pub proof fn cleanup_is_tried_at_16_bits(
    e: PngEncoder,
    width: u32,
    height: u32,
    format: PixelFormat,
    s: Seq<u16>,
    i: int,
)
    requires
        e.clean_transparent,
        format is GrayAlpha16 || format is Rgba16,
        0 <= i < s.len() as int / format.spec_channels(),
        s[i * format.spec_channels() + format.spec_channels() - 1] == 0,
    ensures
        ({
            let ch = format.spec_channels();
            let size = e.file_of(e.samples_file16(width, height, format, s)).len();
            &&& size <= e.file_of(e.layout16(width, height, format, cleaned16(s, ch))).len()
            &&& size <= e.file_of(e.layout16(width, height, format, s)).len()
        }),
{
    let ch = format.spec_channels();
    crate::reduce::pixel_inside(s.len() as int, ch, i);
    assert(ints16(s)[i * ch + ch - 1] == 0);
    assert(invisible(ints16(s), ch, i));
    assert(has_invisible_pixel(ints16(s), ch));
}

/// A reduction that needs no chunk is written as soon as it is offered: the header has its colour type and
/// its depth.
pub proof fn a_free_reduction_is_written(
    e: PngEncoder,
    width: u32,
    height: u32,
    plain: FileModel,
    m: ReducedModel,
)
    ensures
        ({
            let f = e.raced(width, height, plain, ReductionsModel::ChunkFree(m));
            let h = f.header;
            &&& h.width == width && h.height == height
            &&& match m {
                ReducedModel::Gray { depth, .. } => h.color is Grayscale && h.bit_depth == depth && f.trns is
                    None,
                ReducedModel::GrayAlpha8(_) => h.color is GrayscaleAlpha && h.bit_depth == 8,
                ReducedModel::Rgb8(_) => h.color is Truecolor && h.bit_depth == 8 && f.trns is None,
                ReducedModel::Rgba8(_) => h.color is TruecolorAlpha && h.bit_depth == 8,
                ReducedModel::Gray16Be(_) => h.color is Grayscale && h.bit_depth == 16 && f.trns is None,
                ReducedModel::GrayAlpha16Be(_) => h.color is GrayscaleAlpha && h.bit_depth == 16,
                ReducedModel::Rgb16Be(_) => h.color is Truecolor && h.bit_depth == 16 && f.trns is None,
                ReducedModel::Rgb8Keyed { .. } => h.color is Truecolor && f.trns is Some,
                ReducedModel::GrayKeyed { .. } => h.color is Grayscale && f.trns is Some,
                ReducedModel::Indexed { depth, plte, .. } => h.color is Indexed && h.bit_depth == depth
                    && f.plte == Some(plte),
            }
        }),
        e.raced(width, height, plain, ReductionsModel::Nothing) == plain,
{
}

/// A 16-bit image whose samples all repeat one byte is reduced to 8 bits; of any other image only channels
/// are dropped, and all of those that can be.
pub proof fn deep_images_are_reduced(samples: Seq<u16>, channels: int)
    requires
        1 <= channels <= 4,
        samples.len() % channels as nat == 0,
    ensures
        ({
            let q = quads16(samples, channels);
            let repeats = forall|i: int|
                0 <= i < samples.len() ==> #[trigger] samples[i] == 257 * (samples[i] as int / 256);
            let grays = forall|i: int|
                0 <= i < q.len() ==> (#[trigger] q[i]).0 == q[i].1 && q[i].1 == q[i].2;
            let solid = forall|i: int| 0 <= i < q.len() ==> (#[trigger] q[i]).3 == 65535;
            &&& repeats ==> !(reductions16(samples, channels) is Nothing)
            &&& !repeats ==> match reductions16(samples, channels) {
                ReductionsModel::ChunkFree(ReducedModel::Gray16Be(_)) => grays && solid && channels > 1,
                ReductionsModel::ChunkFree(ReducedModel::GrayAlpha16Be(_)) => grays && !solid && channels > 2
                    || grays && solid && channels == 1,
                ReductionsModel::ChunkFree(ReducedModel::Rgb16Be(_)) => !grays && solid && channels == 4,
                ReductionsModel::Nothing => !(grays && solid && channels > 1) && !(grays && channels > 2)
                    && !(solid && channels == 4),
                _ => false,
            }
        }),
{
    if demotable(samples) {
        assert forall|i: int| 0 <= i < samples.len() implies #[trigger] samples[i] == 257 * (samples[i] as int
            / 256) by {
            assert(samples[i] / 256 == samples[i] % 256);
        }
    }
    if forall|i: int|
        0 <= i < samples.len() ==> #[trigger] samples[i] == 257 * (samples[i] as int / 256) {
        assert forall|i: int| 0 <= i < samples.len() implies (#[trigger] samples[i]) / 256 == samples[i] % 256 by {
            assert(samples[i] == 257 * (samples[i] as int / 256));
        }
    }
}

/// What a carry leaves behind is said: a cICP whose matrix is not that of RGB, and a manifest store.
pub proof fn what_a_carry_says(m: MetadataModel)
    ensures
        carry_notices(m).contains(MetadataNotice::NonRgbCicp) <==> (m.cicp matches Some(c)
            && c.matrix_coefficients != 0),
        carry_notices(m).contains(MetadataNotice::C2paManifestStore) <==> m.c2pa is Some,
        forall|i: int|
            0 <= i < carry_notices(m).len() ==> (#[trigger] carry_notices(m)[i]) is NonRgbCicp
                || carry_notices(m)[i] is C2paManifestStore,
{
    let n = carry_notices(m);
    if m.cicp matches Some(c) && c.matrix_coefficients != 0 {
        assert(n[0] == MetadataNotice::NonRgbCicp);
    }
    if m.c2pa is Some {
        assert(n[n.len() - 1] == MetadataNotice::C2paManifestStore);
    }
}

/// What a carry carries. The annotations that were set directly come first, in their order, then the packet,
/// then the texts in the order in which they were read. What the metadata holds of the colour takes the place
/// of what was set, and what it does not hold stays. The manifest store, the background, the significant
/// bits, the pixel size and the time are never carried.
pub proof fn what_a_carry_carries(before: PngEncoder, after: PngEncoder, m: MetadataModel, i: int)
    requires
        after.carries(before, m),
    ensures
        ({
            let (a, b) = (after.ancillary, before.ancillary);
            let own = b.entries().filter(|e: EntryModel| !e.carried);
            let behind = own.len() + (if m.xmp is Some {
                1int
            } else {
                0
            });
            &&& a.entries().len() == behind + m.texts.len()
            &&& a.entries().take(own.len() as int) == own
            &&& m.xmp matches Some(packet) ==> a.entries()[own.len() as int] == carried_xmp(
                packet,
                m.xmp_framing,
            )
            &&& 0 <= i < m.texts.len() ==> a.entries()[behind + i] == carried_text(m.texts[i])
            &&& a.gamma == (if m.gamma is Some {
                m.gamma
            } else {
                b.gamma
            })
            &&& m.exif matches Some(stream) ==> (a.exif matches Some(held) && held@ == stream)
            &&& m.exif is None ==> a.exif == b.exif
            &&& m.icc_profile matches Some(profile) ==> (a.iccp matches Some(held) && (held.0@, held.1@)
                == profile)
            &&& m.icc_profile is None ==> a.iccp == b.iccp
            &&& m.srgb is None ==> a.srgb == b.srgb
            &&& m.srgb matches Some(intent) ==> a.srgb == Some(intent.spec_code())
            &&& m.cicp is None ==> a.cicp == b.cicp
            &&& m.cicp matches Some(c) ==> a.cicp == (if c.matrix_coefficients == 0 {
                Some((c.color_primaries, c.transfer_function, c.full_range))
            } else {
                b.cicp
            })
            &&& m.chromaticities is None ==> a.chrm == b.chrm
            &&& m.chromaticities matches Some(c) ==> (a.chrm matches Some(xy) && xy@ == seq![
                c.white.0,
                c.white.1,
                c.red.0,
                c.red.1,
                c.green.0,
                c.green.1,
                c.blue.0,
                c.blue.1,
            ])
            &&& a.c2pa == b.c2pa && a.bkgd == b.bkgd && a.sbit == b.sbit && a.phys == b.phys && a.time
                == b.time
            &&& after.effort == before.effort && after.filter == before.filter && after.auto_reduce
                == before.auto_reduce && after.clean_transparent == before.clean_transparent
        }),
{
    let (a, b) = (after.ancillary, before.ancillary);
    let own = b.entries().filter(|e: EntryModel| !e.carried);
    assert(own == own_entries(b.entries()));
    let carried = carried_entries(m);
    assert(a.entries() == own + carried);
    assert(a.entries().take(own.len() as int) =~= own);
    let texts = m.texts.map_values(|t: TextModel| carried_text(t));
    if let Some(packet) = m.xmp {
        assert(carried[0] == carried_xmp(packet, m.xmp_framing));
        if 0 <= i < m.texts.len() {
            assert(carried[1 + i] == texts[i]);
        }
    } else if 0 <= i < m.texts.len() {
        assert(carried[i] == texts[i]);
    }
    if let Some(c) = m.chromaticities {
        assert(a.chrm->0@ =~= seq![
            c.white.0,
            c.white.1,
            c.red.0,
            c.red.1,
            c.green.0,
            c.green.1,
            c.blue.0,
            c.blue.1,
        ]);
    }
}

/// The files that contend for one image: the image as it arrived where nothing smaller is known, the
/// reduction alone where it takes no chunk of its own, and otherwise the reduction with its chunk, the one
/// without, and the image as it arrived.
pub proof fn what_contends(
    e: PngEncoder,
    width: u32,
    height: u32,
    plain: FileModel,
    reductions: ReductionsModel,
)
    ensures
        ({
            let files = e.contenders(width, height, plain, reductions);
            &&& reductions is Nothing ==> files == seq![plain]
            &&& reductions matches ReductionsModel::ChunkFree(m) ==> files == seq![
                e.reduced_file(width, height, m),
            ]
            &&& reductions matches ReductionsModel::Chunked { chunked, chunk_free } ==> {
                &&& files.first() == e.reduced_file(width, height, chunked)
                &&& files.last() == plain
                &&& chunk_free is None ==> files.len() == 2
                &&& chunk_free matches Some(m) ==> files.len() == 3 && files[1] == e.reduced_file(
                    width,
                    height,
                    m,
                )
            }
        }),
{
}

/// Of the files that contend the first of the smallest is written.
pub proof fn the_first_of_the_smallest_wins(
    e: PngEncoder,
    width: u32,
    height: u32,
    plain: FileModel,
    reductions: ReductionsModel,
) -> (at: int)
    ensures
        ({
            let files = e.contenders(width, height, plain, reductions);
            &&& 0 <= at < files.len()
            &&& e.raced(width, height, plain, reductions) == files[at]
            &&& forall|j: int|
                0 <= j < files.len() ==> e.file_of(files[at]).len() <= e.file_of(#[trigger] files[j]).len()
            &&& forall|j: int|
                0 <= j < at ==> e.file_of(files[at]).len() < e.file_of(#[trigger] files[j]).len()
        }),
{
    match reductions {
        ReductionsModel::Chunked { chunked, chunk_free } => {
            let first = e.reduced_file(width, height, chunked);
            let (n, m) = (e.file_of(first).len(), e.file_of(plain).len());
            match chunk_free {
                Some(free) => {
                    let k = e.file_of(e.reduced_file(width, height, free)).len();
                    if k < n {
                        if m < k {
                            2
                        } else {
                            1
                        }
                    } else if m < n {
                        2
                    } else {
                        0
                    }
                },
                None => if m < n {
                    1
                } else {
                    0
                },
            }
        },
        _ => 0,
    }
}

/// Cleanup clears the colour of every pixel that is fully transparent, and touches nothing else.
pub proof fn a_hidden_color_is_cleared(samples: Seq<int>, channels: int, i: int, c: int)
    requires
        channels == 2 || channels == 4,
        0 <= i < samples.len() as int / channels,
        0 <= c < channels,
    ensures
        without_hidden_color(samples, channels).len() == samples.len(),
        without_hidden_color(samples, channels)[i * channels + c] == (if samples[i * channels + channels - 1]
            == 0 {
            0
        } else {
            samples[i * channels + c]
        }),
{
    crate::reduce::pixel_inside(samples.len() as int, channels, i);
    let j = i * channels + c;
    assert(j / channels == i && j % channels == c);
    assert(invisible(samples, channels, i) <==> samples[i * channels + channels - 1] == 0);
}

/// A palette needs a tRNS exactly where some entry is not opaque.
pub proof fn when_alphas_are_written(alphas: Seq<u8>)
    ensures
        trns_payload(alphas) is Some <==> exists|i: int| 0 <= i < alphas.len() && #[trigger] alphas[i] != 255,
        trns_payload(alphas) matches Some(held) ==> held == alphas,
{
}

/// The background of an indexed image names the entry that it named before entries were dropped.
pub proof fn a_background_follows_its_entry(
    e: PngEncoder,
    width: u32,
    height: u32,
    indices: Seq<u8>,
    palette: PngPalette,
)
    requires
        palette.entries().len() <= 256,
        e.background_entry(palette) matches Some(b) ==> b < palette.entries().len(),
    ensures
        ({
            let f = e.indexed_file(width, height, indices, palette);
            let kept = e.written_entries(indices, palette);
            &&& f.bkgd is Some <==> e.background_entry(palette) is Some
            &&& e.background_entry(palette) matches Some(b) ==> f.bkgd->0.len() == 1 && f.bkgd->0[0]
                < kept.len() && kept[f.bkgd->0[0] as int] == palette.entries()[b as int]
        }),
{
    if let Some(b) = e.background_entry(palette) {
        what_is_named(indices, Some(b), b as int);
        a_new_index_names_the_same_entry(
            palette.entries(),
            named_entries(indices, Some(b)),
            b as int,
        );
    }
}

/// An indexed image is written with one entry of PLTE for each entry that is kept, at the smallest depth that
/// addresses them, and with a tRNS that ends in an entry that is not opaque.
pub proof fn an_indexed_image_is_written_small(
    e: PngEncoder,
    width: u32,
    height: u32,
    indices: Seq<u8>,
    palette: PngPalette,
)
    ensures
        ({
            let f = e.indexed_file(width, height, indices, palette);
            let kept = e.written_entries(indices, palette);
            &&& f.header.width == width && f.header.height == height && f.header.color is Indexed
            &&& f.header.bit_depth == index_depth(kept.len())
            &&& f.plte matches Some(p) && p.len() == 3 * kept.len()
            &&& f.trns matches Some(t) ==> 0 < t.len() <= kept.len() && t.last() != 255
        }),
{
    let alphas = entry_alphas(e.written_entries(indices, palette));
    trimming_keeps_every_alpha(alphas);
    trimmed_is_no_longer(alphas);
}

/// A palette that an encoder makes of an image holds each of its colours once, ordered from the most
/// transparent and the darkest on, at the smallest depth that addresses them.
pub proof fn a_palette_is_ordered(q: Seq<Quad>, i: int, j: int)
    requires
        0 <= i < j < discovered(q).len(),
    ensures
        indexed_reduction(q) matches ReducedModel::Indexed { depth, indices, plte, trns } && {
            let n = discovered(q).len();
            let alphas = match trns {
                Some(t) => t,
                None => Seq::empty(),
            };
            let (a, b) = (alpha_at(alphas, i), alpha_at(alphas, j));
            &&& depth == index_depth(n)
            &&& indices.len() == q.len()
            &&& plte.len() == 3 * n
            &&& a <= b
            &&& a == b ==> 299 * plte[3 * i] + 587 * plte[3 * i + 1] + 114 * plte[3 * i + 2] <= 299 * plte[3
                * j] + 587 * plte[3 * j + 1] + 114 * plte[3 * j + 2]
            &&& trns matches Some(t) ==> t.len() > 0 ==> t.last() != 255
        },
{
    let entries = ordered(discovered(q));
    ordered_is_a_sorted_rearrangement(discovered(q));
    let alphas = quad_alphas(entries);
    trimming_keeps_every_alpha(alphas);
    assert(palette_rank(entries[i]) <= palette_rank(entries[j]));
    assert((3 * i) / 3 == i && (3 * i) % 3 == 0);
    assert((3 * i + 1) / 3 == i && (3 * i + 1) % 3 == 1);
    assert((3 * i + 2) / 3 == i && (3 * i + 2) % 3 == 2);
    assert((3 * j) / 3 == j && (3 * j) % 3 == 0);
    assert((3 * j + 1) / 3 == j && (3 * j + 1) % 3 == 1);
    assert((3 * j + 2) / 3 == j && (3 * j + 2) % 3 == 2);
    entries_are_ranked(entries[i], entries[j]);
    entries_are_ranked(entries[j], entries[i]);
    assert(alpha_at(alphas, i) == entries[i].3 && alpha_at(alphas, j) == entries[j].3);
    if opaque(entries) {
        assert(entries[i].3 == 255 && entries[j].3 == 255);
    } else {
        assert(alpha_at(trimmed(alphas), i) == alpha_at(alphas, i));
        assert(alpha_at(trimmed(alphas), j) == alpha_at(alphas, j));
    }
}

} // verus!
