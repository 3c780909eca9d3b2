//! PNG scanline filtering (PNG §9).
//!
//! Before compression each scanline is transformed by one of five filters that predict every byte
//! from its neighbours (left, above, above-left) and store the residual modulo 256. Filters work on
//! raw bytes with a stride of `bpp` bytes (at least one) and refer to the *unfiltered* bytes of the
//! current and the previous row.
use crate::bytes::append;
use vstd::math::abs;
use vstd::prelude::*;

verus! {

/// A PNG scanline filter type (the leading byte of each filtered scanline).
#[derive(Debug, Clone, Copy, PartialEq, Eq, Structural)]
pub enum FilterType {
    /// No filtering; the bytes are stored as they are.
    Unfiltered,
    /// Residual from the byte `bpp` to the left.
    Sub,
    /// Residual from the byte directly above.
    Up,
    /// Residual from the floor-average of the left and above bytes.
    Average,
    /// Residual from the Paeth predictor of left, above and above-left.
    Paeth,
}

/// How the encoder chooses a filter for each scanline (a space/time trade-off).
#[derive(Debug, Clone, Copy, PartialEq, Eq, Structural)]
#[non_exhaustive]
pub enum FilterStrategy {
    /// Filter every scanline with [`FilterType::Unfiltered`].
    Unfiltered,
    /// Use one fixed filter for every scanline.
    Fixed(FilterType),
    /// Per scanline, the filter with the smallest sum of absolute residuals.
    MinSumAbs,
    /// Per scanline, the filter whose residuals have the lowest Shannon entropy.
    MinEntropy,
    /// Per scanline, the filter with the fewest distinct adjacent byte pairs.
    MinBigrams,
    /// Encode the whole image under several strategies and keep the smallest result.
    BruteForce,
}

/// The five filters, by code.
pub open spec fn filter_at(code: int) -> FilterType {
    if code == 0 {
        FilterType::Unfiltered
    } else if code == 1 {
        FilterType::Sub
    } else if code == 2 {
        FilterType::Up
    } else if code == 3 {
        FilterType::Average
    } else {
        FilterType::Paeth
    }
}

impl FilterType {
    /// The leading byte that names this filter.
    pub open spec fn spec_code(self) -> u8 {
        match self {
            FilterType::Unfiltered => 0,
            FilterType::Sub => 1,
            FilterType::Up => 2,
            FilterType::Average => 3,
            FilterType::Paeth => 4,
        }
    }

    /// The leading byte that names this filter.
    pub fn code(self) -> (code: u8)
        ensures
            code == self.spec_code(),
            code <= 4,
            filter_at(code as int) == self,
    {
        match self {
            FilterType::Unfiltered => 0,
            FilterType::Sub => 1,
            FilterType::Up => 2,
            FilterType::Average => 3,
            FilterType::Paeth => 4,
        }
    }

    /// The filter type for a scanline's leading byte, or `None` for an undefined code (PNG §9.1
    /// defines exactly 0 to 4).
    pub fn from_code(code: u8) -> (filter: Option<Self>)
        ensures
            filter == (if code <= 4 {
                Some(filter_at(code as int))
            } else {
                None
            }),
            filter matches Some(f) ==> f.spec_code() == code,
    {
        match code {
            0 => Some(FilterType::Unfiltered),
            1 => Some(FilterType::Sub),
            2 => Some(FilterType::Up),
            3 => Some(FilterType::Average),
            4 => Some(FilterType::Paeth),
            _ => None,
        }
    }
}

/// `|x|`.
pub open spec fn magnitude(x: int) -> int {
    if x < 0 {
        -x
    } else {
        x
    }
}

/// The Paeth predictor (PNG §9.4): whichever of `a` (left), `b` (above), `c` (above-left) is
/// closest to `a + b - c`; ties go to `a`, then to `b`.
pub open spec fn paeth_of(a: u8, b: u8, c: u8) -> u8 {
    let p = a + b - c;
    let pa = magnitude(p - a);
    let pb = magnitude(p - b);
    let pc = magnitude(p - c);
    if pa <= pb && pa <= pc {
        a
    } else if pb <= pc {
        b
    } else {
        c
    }
}

/// The Paeth predictor of left `a`, above `b` and above-left `c`.
pub fn paeth(a: u8, b: u8, c: u8) -> (p: u8)
    ensures
        p == paeth_of(a, b, c),
        p == a || p == b || p == c,
        abs(a + b - c - p) <= abs(a + b - c - a),
        abs(a + b - c - p) <= abs(a + b - c - b),
        abs(a + b - c - p) <= abs(a + b - c - c),
{
    proof {
        paeth_picks_the_nearest(a, b, c);
    }
    let ai: i32 = a as i32;
    let bi: i32 = b as i32;
    let ci: i32 = c as i32;
    let p: i32 = ai + bi - ci;
    let pa: i32 = distance(p, ai);
    let pb: i32 = distance(p, bi);
    let pc: i32 = distance(p, ci);
    if pa <= pb && pa <= pc {
        a
    } else if pb <= pc {
        b
    } else {
        c
    }
}

fn distance(p: i32, q: i32) -> (d: i32)
    requires
        -1000 <= p <= 1000,
        -1000 <= q <= 1000,
    ensures
        d == magnitude(p - q),
{
    if p < q {
        q - p
    } else {
        p - q
    }
}

/// The Paeth predictor is the one of left, above and above-left that is nearest to left plus above less
/// above-left, taken as integers of any size. Of equally near ones it is the left, then the one above.
pub proof fn paeth_picks_the_nearest(a: u8, b: u8, c: u8)
    ensures
        ({
            let r = paeth_of(a, b, c);
            let target = a + b - c;
            &&& r == a || r == b || r == c
            &&& abs(target - r) <= abs(target - a)
            &&& abs(target - r) <= abs(target - b)
            &&& abs(target - r) <= abs(target - c)
            &&& abs(target - a) == abs(target - r) ==> r == a
            &&& abs(target - b) == abs(target - r) ==> r == a || r == b
        }),
        c <= a && c <= b ==> paeth_of(a, b, c) == (if a >= b {
            a
        } else {
            b
        }),
        c >= a && c >= b ==> paeth_of(a, b, c) == (if a <= b {
            a
        } else {
            b
        }),
{
}

/// With no left neighbour the Paeth predictor is the byte above.
pub proof fn paeth_without_left_is_above(b: u8)
    ensures
        paeth_of(0, b, 0) == b,
{
}

/// The byte `bpp` to the left of position `i`, zero where there is none.
pub open spec fn left_of(row: Seq<u8>, i: int, bpp: int) -> u8 {
    if i >= bpp {
        row[i - bpp]
    } else {
        0
    }
}

/// What `filter` predicts from the left, above and above-left bytes.
pub open spec fn predicted(filter: FilterType, a: u8, b: u8, c: u8) -> u8 {
    match filter {
        FilterType::Unfiltered => 0,
        FilterType::Sub => a,
        FilterType::Up => b,
        FilterType::Average => ((a + b) / 2) as u8,
        FilterType::Paeth => paeth_of(a, b, c),
    }
}

/// `x - p` modulo 256.
pub open spec fn residual(x: u8, p: u8) -> u8 {
    if x >= p {
        (x - p) as u8
    } else {
        (x - p + 256) as u8
    }
}

/// `r + p` modulo 256.
pub open spec fn restored(r: u8, p: u8) -> u8 {
    if r + p < 256 {
        (r + p) as u8
    } else {
        (r + p - 256) as u8
    }
}

/// The filtered form of the scanline `cur` under the raw previous scanline `prev` (PNG §9.2).
pub open spec fn filtered_row(filter: FilterType, cur: Seq<u8>, prev: Seq<u8>, bpp: int) -> Seq<
    u8,
> {
    Seq::new(
        cur.len(),
        |i: int|
            residual(
                cur[i],
                predicted(filter, left_of(cur, i, bpp), prev[i], left_of(prev, i, bpp)),
            ),
    )
}

/// The raw scanline whose filtered bytes are `row`: each byte is restored from its residual and
/// the *already restored* bytes before it.
pub open spec fn unfiltered_row(filter: FilterType, row: Seq<u8>, prev: Seq<u8>, bpp: int) -> Seq<
    u8,
>
    decreases row.len(),
{
    if row.len() == 0 {
        Seq::empty()
    } else {
        let before = unfiltered_row(filter, row.drop_last(), prev, bpp);
        let i = row.len() - 1;
        before.push(
            restored(
                row[i],
                predicted(filter, left_of(before, i, bpp), prev[i], left_of(prev, i, bpp)),
            ),
        )
    }
}

proof fn unfiltered_row_len(filter: FilterType, row: Seq<u8>, prev: Seq<u8>, bpp: int)
    ensures
        unfiltered_row(filter, row, prev, bpp).len() == row.len(),
    decreases row.len(),
{
    if row.len() > 0 {
        unfiltered_row_len(filter, row.drop_last(), prev, bpp);
    }
}

/// Every filter is invertible: restoring a filtered scanline gives the scanline back.
pub proof fn every_filter_is_invertible(filter: FilterType, cur: Seq<u8>, prev: Seq<u8>, bpp: int)
    requires
        bpp >= 1,
        prev.len() >= cur.len(),
    ensures
        unfiltered_row(filter, filtered_row(filter, cur, prev, bpp), prev, bpp) == cur,
    decreases cur.len(),
{
    let row = filtered_row(filter, cur, prev, bpp);
    if cur.len() == 0 {
        assert(cur =~= Seq::<u8>::empty());
    } else {
        let init = cur.drop_last();
        assert(row.drop_last() =~= filtered_row(filter, init, prev, bpp));
        every_filter_is_invertible(filter, init, prev, bpp);
        let i = cur.len() - 1;
        assert(left_of(init, i, bpp) == left_of(cur, i, bpp));
        assert(unfiltered_row(filter, row, prev, bpp) =~= cur);
    }
}

/// The five filters predict nothing, the byte to the left, the byte above, the mean of both rounded
/// down, and the nearest of the three neighbours, and are named by 0 to 4 in this order.
pub proof fn filters_are_those_of_the_format(a: u8, b: u8, c: u8)
    ensures
        predicted(FilterType::Unfiltered, a, b, c) == 0,
        predicted(FilterType::Sub, a, b, c) == a,
        predicted(FilterType::Up, a, b, c) == b,
        2 * predicted(FilterType::Average, a, b, c) <= a + b <= 2 * predicted(
            FilterType::Average,
            a,
            b,
            c,
        ) + 1,
        predicted(FilterType::Paeth, a, b, c) == paeth_of(a, b, c),
        FilterType::Unfiltered.spec_code() == 0,
        FilterType::Sub.spec_code() == 1,
        FilterType::Up.spec_code() == 2,
        FilterType::Average.spec_code() == 3,
        FilterType::Paeth.spec_code() == 4,
        forall|f: FilterType| filter_at(#[trigger] f.spec_code() as int) == f,
{
}

/// Filtering takes from each byte, modulo 256, what the filter predicts from its raw neighbours: the byte
/// one pixel to the left, the byte above and the byte above that to the left, each zero where the row
/// has none.
pub proof fn a_filtered_byte_is_a_difference(
    filter: FilterType,
    cur: Seq<u8>,
    prev: Seq<u8>,
    bpp: int,
    i: int,
)
    requires
        0 <= i < cur.len(),
    ensures
        ({
            let row = filtered_row(filter, cur, prev, bpp);
            let left = if i >= bpp {
                cur[i - bpp]
            } else {
                0
            };
            let corner = if i >= bpp {
                prev[i - bpp]
            } else {
                0
            };
            &&& row.len() == cur.len()
            &&& (cur[i] - row[i] - predicted(filter, left, prev[i], corner)) % 256 == 0
        }),
{
}

/// Restoring adds to each byte, modulo 256, what the filter predicts from the bytes already restored and
/// from the row above.
pub proof fn a_restored_byte_is_a_sum(
    filter: FilterType,
    row: Seq<u8>,
    prev: Seq<u8>,
    bpp: int,
    i: int,
)
    requires
        0 <= i < row.len(),
        bpp >= 1,
    ensures
        ({
            let raw = unfiltered_row(filter, row, prev, bpp);
            let left = if i >= bpp {
                raw[i - bpp]
            } else {
                0
            };
            let corner = if i >= bpp {
                prev[i - bpp]
            } else {
                0
            };
            &&& raw.len() == row.len()
            &&& (raw[i] - row[i] - predicted(filter, left, prev[i], corner)) % 256 == 0
        }),
    decreases row.len(),
{
    let init = row.drop_last();
    unfiltered_row_len(filter, row, prev, bpp);
    unfiltered_row_len(filter, init, prev, bpp);
    let raw = unfiltered_row(filter, row, prev, bpp);
    let before = unfiltered_row(filter, init, prev, bpp);
    if i < init.len() {
        a_restored_byte_is_a_sum(filter, init, prev, bpp, i);
        assert(raw[i] == before[i]);
    } else {
        assert(left_of(before, i, bpp) == left_of(raw, i, bpp));
    }
}

/// The score by magnitude counts each byte at its distance from the nearest multiple of 256.
pub proof fn magnitudes_add_up(row: Seq<u8>, x: u8)
    ensures
        sum_abs_of(Seq::<u8>::empty()) == 0,
        sum_abs_of(row.push(x)) == sum_abs_of(row) + (if x <= 256 - x {
            x as int
        } else {
            256 - x
        }),
{
    assert(row.push(x).drop_last() =~= row);
}

fn wrapping_residual(x: u8, p: u8) -> (r: u8)
    ensures
        r == residual(x, p),
{
    x.wrapping_sub(p)
}

fn wrapping_restored(r: u8, p: u8) -> (x: u8)
    ensures
        x == restored(r, p),
{
    r.wrapping_add(p)
}

/// The floor-average of two bytes.
fn average(a: u8, b: u8) -> (m: u8)
    ensures
        m == (a + b) / 2,
{
    ((a as u16 + b as u16) / 2) as u8
}

fn predict(filter: FilterType, a: u8, b: u8, c: u8) -> (p: u8)
    ensures
        p == predicted(filter, a, b, c),
{
    match filter {
        FilterType::Unfiltered => 0,
        FilterType::Sub => a,
        FilterType::Up => b,
        FilterType::Average => average(a, b),
        FilterType::Paeth => paeth(a, b, c),
    }
}

/// Filters one scanline `cur` (with previous raw row `prev`, all zero for the first row) into
/// `out`, whose former contents are dropped.
///
/// The row splits into a `bpp`-long prologue, where the left and above-left bytes are implicit
/// zeros, and a body where they are not; each filter is one straight loop over the body.
pub fn filter_row(filter: FilterType, cur: &[u8], prev: &[u8], bpp: usize, out: &mut Vec<u8>)
    requires
        bpp >= 1,
        prev@.len() >= cur@.len(),
    ensures
        final(out)@ == filtered_row(filter, cur@, prev@, bpp as int),
{
    let n: usize = cur.len();
    out.clear();
    let head: usize = if bpp < n {
        bpp
    } else {
        n
    };
    let ghost want = filtered_row(filter, cur@, prev@, bpp as int);
    let mut i: usize = 0;
    while i < head
        invariant
            head <= n,
            head <= bpp,
            n == cur@.len(),
            prev@.len() >= n,
            i <= head,
            want == filtered_row(filter, cur@, prev@, bpp as int),
            out@ == want.subrange(0, i as int),
        decreases head - i,
    {
        let x: u8 = cur[i];
        let r: u8 = match filter {
            FilterType::Unfiltered | FilterType::Sub => x,
            FilterType::Up | FilterType::Paeth => wrapping_residual(x, prev[i]),
            FilterType::Average => wrapping_residual(x, prev[i] / 2),
        };
        proof {
            paeth_without_left_is_above(prev@[i as int]);
            assert(r == want[i as int]);
        }
        out.push(r);
        i += 1;
        assert(out@ =~= want.subrange(0, i as int));
    }
    match filter {
        FilterType::Unfiltered => {
            while i < n
                invariant
                    n == cur@.len(),
                    head <= i <= n,
                    filter is Unfiltered,
                    want == filtered_row(filter, cur@, prev@, bpp as int),
                    out@ == want.subrange(0, i as int),
                decreases n - i,
            {
                out.push(cur[i]);
                i += 1;
                assert(out@ =~= want.subrange(0, i as int));
            }
        },
        FilterType::Sub => {
            while i < n
                invariant
                    n == cur@.len(),
                    i < n ==> bpp <= i,
                    i <= n,
                    filter is Sub,
                    want == filtered_row(filter, cur@, prev@, bpp as int),
                    out@ == want.subrange(0, i as int),
                decreases n - i,
            {
                out.push(wrapping_residual(cur[i], cur[i - bpp]));
                i += 1;
                assert(out@ =~= want.subrange(0, i as int));
            }
        },
        FilterType::Up => {
            while i < n
                invariant
                    n == cur@.len(),
                    prev@.len() >= n,
                    i <= n,
                    filter is Up,
                    want == filtered_row(filter, cur@, prev@, bpp as int),
                    out@ == want.subrange(0, i as int),
                decreases n - i,
            {
                out.push(wrapping_residual(cur[i], prev[i]));
                i += 1;
                assert(out@ =~= want.subrange(0, i as int));
            }
        },
        FilterType::Average => {
            while i < n
                invariant
                    n == cur@.len(),
                    prev@.len() >= n,
                    i < n ==> bpp <= i,
                    i <= n,
                    filter is Average,
                    want == filtered_row(filter, cur@, prev@, bpp as int),
                    out@ == want.subrange(0, i as int),
                decreases n - i,
            {
                out.push(wrapping_residual(cur[i], average(cur[i - bpp], prev[i])));
                i += 1;
                assert(out@ =~= want.subrange(0, i as int));
            }
        },
        FilterType::Paeth => {
            while i < n
                invariant
                    n == cur@.len(),
                    prev@.len() >= n,
                    i < n ==> bpp <= i,
                    i <= n,
                    filter is Paeth,
                    want == filtered_row(filter, cur@, prev@, bpp as int),
                    out@ == want.subrange(0, i as int),
                decreases n - i,
            {
                out.push(wrapping_residual(cur[i], paeth(cur[i - bpp], prev[i], prev[i - bpp])));
                i += 1;
                assert(out@ =~= want.subrange(0, i as int));
            }
        },
    }
    assert(out@ =~= want);
}

/// Restores one scanline in place (PNG §9.2 to §9.4): `row` holds the filtered bytes on entry and
/// the raw bytes on exit. `prev` is the *raw* previous scanline, all zero for the first row.
pub fn unfilter_row(filter: FilterType, row: &mut [u8], prev: &[u8], bpp: usize)
    requires
        bpp >= 1,
        prev@.len() >= old(row)@.len(),
    ensures
        final(row)@ == unfiltered_row(filter, old(row)@, prev@, bpp as int),
{
    let ghost start = row@;
    let n: usize = row.len();
    let mut i: usize = 0;
    assert(row@.subrange(0, 0) =~= unfiltered_row(filter, start.subrange(0, 0), prev@, bpp as int));
    while i < n
        invariant
            bpp >= 1,
            n == start.len(),
            row@.len() == n,
            prev@.len() >= n,
            i <= n,
            row@.subrange(0, i as int) == unfiltered_row(
                filter,
                start.subrange(0, i as int),
                prev@,
                bpp as int,
            ),
            forall|j: int| i <= j < n ==> row@[j] == start[j],
        decreases n - i,
    {
        let a: u8 = if i >= bpp {
            row[i - bpp]
        } else {
            0
        };
        let b: u8 = prev[i];
        let c: u8 = if i >= bpp {
            prev[i - bpp]
        } else {
            0
        };
        let ghost before = row@.subrange(0, i as int);
        let x: u8 = wrapping_restored(row[i], predict(filter, a, b, c));
        row[i] = x;
        proof {
            let taken = start.subrange(0, i + 1);
            assert(taken.drop_last() =~= start.subrange(0, i as int));
            assert(left_of(before, i as int, bpp as int) == a);
            assert(row@.subrange(0, i + 1) =~= before.push(x));
            assert(row@.subrange(0, i + 1) =~= unfiltered_row(filter, taken, prev@, bpp as int));
        }
        i += 1;
    }
    assert(row@.subrange(0, n as int) =~= row@);
    assert(start.subrange(0, n as int) =~= start);
}


/// A residual byte read as a signed magnitude.
pub open spec fn signed_magnitude(x: u8) -> int {
    if x <= 128 {
        x as int
    } else {
        256 - x
    }
}

/// The sum of absolute residuals of a filtered row.
pub open spec fn sum_abs_of(row: Seq<u8>) -> int
    decreases row.len(),
{
    if row.len() == 0 {
        0
    } else {
        sum_abs_of(row.drop_last()) + signed_magnitude(row.last())
    }
}

/// The sum of absolute residuals of a filtered row, each byte counted as a signed magnitude.
pub fn sum_abs(filtered: &[u8]) -> (sum: u128)
    ensures
        sum == sum_abs_of(filtered@),
{
    let mut sum: u128 = 0;
    let mut i: usize = 0;
    assert(filtered@.subrange(0, 0) =~= Seq::<u8>::empty());
    while i < filtered.len()
        invariant
            i <= filtered@.len(),
            sum == sum_abs_of(filtered@.subrange(0, i as int)),
            sum <= 128 * i,
        decreases filtered@.len() - i,
    {
        let x: u8 = filtered[i];
        assert(filtered@.subrange(0, i + 1).drop_last() =~= filtered@.subrange(0, i as int));
        sum += (if x <= 128 {
            x
        } else {
            (256 - x as u16) as u8
        }) as u128;
        i += 1;
    }
    assert(filtered@.subrange(0, i as int) =~= filtered@);
    sum
}

/// How a candidate row is judged; lower is better for all three.
#[derive(Debug, Clone, Copy, PartialEq, Eq, Structural)]
pub enum Score {
    /// Sum of absolute residuals, bytes read as signed magnitudes.
    SumAbs,
    /// Shannon entropy of the byte histogram.
    Entropy,
    /// Count of distinct adjacent byte pairs.
    Bigrams,
}

/// How often `b` occurs in `row`.
pub open spec fn occurrences(row: Seq<u8>, b: u8) -> int
    decreases row.len(),
{
    if row.len() == 0 {
        0
    } else {
        occurrences(row.drop_last(), b) + (if row.last() == b {
            1int
        } else {
            0
        })
    }
}

proof fn occurrences_bound(row: Seq<u8>, b: u8)
    ensures
        0 <= occurrences(row, b) <= row.len(),
    decreases row.len(),
{
    if row.len() > 0 {
        occurrences_bound(row.drop_last(), b);
    }
}

/// 2^63, the fixed-point one of the logarithm's mantissa.
pub const MANTISSA_ONE: u64 = 0x8000_0000_0000_0000;

/// 2^32, the fixed-point one of a logarithm.
pub const LOG_ONE: u64 = 0x1_0000_0000;

/// Appends binary digits of the base-2 logarithm of the mantissa `m` (between 1 and 2 in units of
/// [`MANTISSA_ONE`]) to `acc` until `scale`, which doubles with each digit, reaches [`LOG_ONE`].
/// Squaring doubles the logarithm, so its next digit is whether the square reaches 2.
pub open spec fn log2_digits(m: int, scale: int, acc: int) -> int
    decreases 2 * LOG_ONE - scale,
{
    if scale < 1 || scale >= LOG_ONE {
        acc
    } else {
        let square = m * m / (MANTISSA_ONE as int);
        if square >= 2 * MANTISSA_ONE {
            log2_digits(square / 2, 2 * scale, 2 * acc + 1)
        } else {
            log2_digits(square, 2 * scale, 2 * acc)
        }
    }
}

/// The base-2 logarithm of `m * 2^(e - 63)` in units of 1/2^32, truncated.
pub open spec fn log2_scaled(m: int, e: nat) -> int
    decreases e,
{
    if m >= MANTISSA_ONE || e == 0 {
        e * LOG_ONE + log2_digits(m, 1, 0)
    } else {
        log2_scaled(2 * m, (e - 1) as nat)
    }
}

/// The base-2 logarithm of `x >= 1` in units of 1/2^32, truncated.
pub open spec fn log2_fixed(x: int) -> int {
    log2_scaled(x, 63)
}

fn log2(x: u64) -> (l: i128)
    requires
        1 <= x,
    ensures
        l == log2_fixed(x as int),
        0 <= l < 0x41_0000_0000,
{
    let mut m: u64 = x;
    let mut e: u32 = 63;
    while m < MANTISSA_ONE && e > 0
        invariant
            e <= 63,
            1 <= m,
            log2_scaled(m as int, e as nat) == log2_fixed(x as int),
        decreases e,
    {
        m = m * 2;
        e = e - 1;
    }
    let ghost (start, exponent) = (m as int, e as int);
    let mut acc: u64 = 0;
    let mut scale: u64 = 1;
    while scale < LOG_ONE
        invariant
            1 <= scale <= 2 * LOG_ONE,
            acc < scale,
            log2_digits(m as int, scale as int, acc as int) == log2_digits(start, 1, 0),
        decreases 2 * LOG_ONE - scale,
    {
        assert(m * m <= 0xFFFF_FFFF_FFFF_FFFF * 0xFFFF_FFFF_FFFF_FFFF) by (nonlinear_arith)
            requires
                0 <= m <= 0xFFFF_FFFF_FFFF_FFFF,
        ;
        let square: u128 = m as u128 * m as u128 / (MANTISSA_ONE as u128);
        if square >= 2 * MANTISSA_ONE as u128 {
            m = (square / 2) as u64;
            acc = 2 * acc + 1;
        } else {
            m = square as u64;
            acc = 2 * acc;
        }
        scale = 2 * scale;
    }
    e as i128 * (LOG_ONE as i128) + acc as i128
}

/// The sum over the byte values below `symbols` of `c * log2(n / c)`, in units of 1/2^32 bit,
/// where `c` is how often the value occurs in the `n`-byte row.
pub open spec fn entropy_sum(row: Seq<u8>, symbols: int) -> int
    decreases symbols,
{
    if symbols <= 0 {
        0
    } else {
        let c = occurrences(row, (symbols - 1) as u8);
        entropy_sum(row, symbols - 1) + (if c > 0 {
            c * (log2_fixed(row.len() as int) - log2_fixed(c))
        } else {
            0
        })
    }
}

/// The Shannon entropy of a row times its length, in 1/256ths of a bit.
pub open spec fn entropy_of(row: Seq<u8>) -> int {
    let bits = entropy_sum(row, 256) / 0x100_0000;
    if bits < 0 {
        0
    } else {
        bits
    }
}

/// The adjacent byte pairs that occur in a row.
pub open spec fn bigrams_of(row: Seq<u8>) -> Set<(u8, u8)> {
    Set::new(
        |p: (u8, u8)| exists|i: int| 0 <= i < row.len() - 1 && row[i] == p.0 && #[trigger] row[i + 1] == p.1,
    )
}

/// What a filtered row scores; lower is better.
pub open spec fn score_of(kind: Score, row: Seq<u8>) -> int {
    match kind {
        Score::SumAbs => sum_abs_of(row),
        Score::Entropy => entropy_of(row),
        Score::Bigrams => bigrams_of(row).len() as int,
    }
}

/// Scratch a scorer needs, allocated once per image rather than per scanline.
pub struct Scratch {
    /// Byte histogram for [`Score::Entropy`].
    histogram: Vec<u64>,
    /// One bit per (previous, current) byte pair for [`Score::Bigrams`].
    bigrams: Vec<u64>,
    /// The `bigrams` words that are not zero, so that clearing touches only them.
    dirty: Vec<usize>,
}

impl Scratch {
    /// The scratch holds nothing of an earlier row.
    pub closed spec fn is_clear(&self) -> bool {
        &&& self.histogram@.len() == 256
        &&& self.bigrams@.len() == 1024
        &&& self.dirty@.len() == 0
        &&& forall|w: int| 0 <= w < 1024 ==> self.bigrams@[w] == 0
    }

    /// A clear scratch.
    pub fn new() -> (scratch: Self)
        ensures
            scratch.is_clear(),
    {
        Scratch { histogram: vec![0; 256], bigrams: vec![0; 1024], dirty: Vec::new() }
    }
}

/// Whether the bit of the pair `(a, b)` is set.
spec fn pair_bit(words: Seq<u64>, a: u8, b: u8) -> bool {
    let index = a * 256 + b;
    words[index / 64] & (1u64 << ((index % 64) as u64)) != 0
}

proof fn setting_a_bit(w: u64, b: u64, c: u64)
    by (bit_vector)
    requires
        b < 64,
        c < 64,
    ensures
        ((w | (1u64 << b)) & (1u64 << c) != 0) == (c == b || w & (1u64 << c) != 0),
        w | (1u64 << b) != 0,
{
}

proof fn clear_word_has_no_bit(c: u64)
    by (bit_vector)
    ensures
        0u64 & (1u64 << c) == 0,
{
}

fn entropy(filtered: &[u8], scratch: &mut Scratch) -> (score: u128)
    requires
        old(scratch).is_clear(),
    ensures
        final(scratch).is_clear(),
        score == entropy_of(filtered@),
{
    let mut k: usize = 0;
    while k < 256
        invariant
            k <= 256,
            scratch.is_clear(),
            forall|b: int| 0 <= b < k ==> scratch.histogram@[b] == 0,
        decreases 256 - k,
    {
        scratch.histogram[k] = 0;
        k += 1;
    }
    let mut i: usize = 0;
    assert(filtered@.subrange(0, 0) =~= Seq::<u8>::empty());
    while i < filtered.len()
        invariant
            i <= filtered@.len(),
            scratch.is_clear(),
            forall|b: u8|
                #![auto]
                scratch.histogram@[b as int] == occurrences(filtered@.subrange(0, i as int), b),
        decreases filtered@.len() - i,
    {
        let b: usize = filtered[i] as usize;
        proof {
            assert(filtered@.subrange(0, i + 1).drop_last() =~= filtered@.subrange(0, i as int));
            occurrences_bound(filtered@.subrange(0, i as int), b as u8);
        }
        let count: u64 = scratch.histogram[b];
        scratch.histogram[b] = count + 1;
        i += 1;
    }
    assert(filtered@.subrange(0, i as int) =~= filtered@);
    if filtered.len() == 0 {
        proof {
            empty_row_has_no_entropy(filtered@, 256);
        }
        return 0;
    }
    let n: u64 = filtered.len() as u64;
    let whole: i128 = log2(n);
    let mut bits: i128 = 0;
    let mut s: usize = 0;
    while s < 256
        invariant
            s <= 256,
            1 <= n,
            n == filtered@.len(),
            scratch.is_clear(),
            whole == log2_fixed(n as int),
            0 <= whole < 0x41_0000_0000,
            forall|b: u8| #![auto] scratch.histogram@[b as int] == occurrences(filtered@, b),
            bits == entropy_sum(filtered@, s as int),
            -0x41_0000_0000_0000_0000_0000_0000 * s <= bits
                <= 0x41_0000_0000_0000_0000_0000_0000 * s,
        decreases 256 - s,
    {
        let c: u64 = scratch.histogram[s];
        proof {
            occurrences_bound(filtered@, s as u8);
            assert(c == occurrences(filtered@, s as u8));
        }
        if c > 0 {
            let own: i128 = log2(c);
            let gap: i128 = whole - own;
            assert(-0x41_0000_0000_0000_0000_0000_0000 <= c * gap
                <= 0x41_0000_0000_0000_0000_0000_0000) by (nonlinear_arith)
                requires
                    0 <= c <= 0x1_0000_0000_0000_0000,
                    -0x41_0000_0000 <= gap <= 0x41_0000_0000,
            ;
            bits = bits + c as i128 * gap;
        }
        s += 1;
    }
    if bits < 0 {
        0
    } else {
        (bits / 0x100_0000) as u128
    }
}

proof fn empty_row_has_no_entropy(row: Seq<u8>, symbols: int)
    requires
        row.len() == 0,
        symbols >= 0,
    ensures
        entropy_sum(row, symbols) == 0,
    decreases symbols,
{
    if symbols > 0 {
        empty_row_has_no_entropy(row, symbols - 1);
    }
}


/// Whether word `w` is listed as dirty.
spec fn is_listed(dirty: Seq<usize>, w: int) -> bool {
    exists|d: int| 0 <= d < dirty.len() && #[trigger] dirty[d] == w
}

fn distinct_bigrams(filtered: &[u8], scratch: &mut Scratch) -> (score: u64)
    requires
        old(scratch).is_clear(),
    ensures
        final(scratch).is_clear(),
        score == bigrams_of(filtered@).len(),
{
    let mut distinct: u64 = 0;
    let ghost mut seen = Set::<(u8, u8)>::empty();
    let mut i: usize = 0;
    proof {
        assert forall|a: u8, b: u8| !pair_bit(scratch.bigrams@, a, b) by {
            clear_word_has_no_bit((((a * 256 + b) % 64) as u64));
        }
    }
    let last: usize = if filtered.len() == 0 {
        0
    } else {
        filtered.len() - 1
    };
    while i < last
        invariant
            i <= last,
            last == (if filtered@.len() == 0 {
                0
            } else {
                filtered@.len() - 1
            }),
            seen.finite(),
            distinct == seen.len(),
            distinct <= i,
            forall|p: (u8, u8)| #[trigger]
                seen.contains(p) <==> exists|j: int|
                    0 <= j < i && filtered@[j] == p.0 && #[trigger] filtered@[j + 1] == p.1,
            scratch.histogram@.len() == 256,
            scratch.bigrams@.len() == 1024,
            forall|a: u8, b: u8| #[trigger]
                pair_bit(scratch.bigrams@, a, b) <==> seen.contains((a, b)),
            forall|d: int| 0 <= d < scratch.dirty@.len() ==> scratch.dirty@[d] < 1024,
            forall|w: int|
                0 <= w < 1024 && #[trigger] scratch.bigrams@[w] != 0 ==> is_listed(
                    scratch.dirty@,
                    w,
                ),
        decreases last - i,
    {
        let x: u8 = filtered[i];
        let y: u8 = filtered[i + 1];
        let index: usize = x as usize * 256 + y as usize;
        let word: usize = index / 64;
        let bit: u64 = (index % 64) as u64;
        let old_word: u64 = scratch.bigrams[word];
        let ghost words = scratch.bigrams@;
        let ghost was_dirty = scratch.dirty@;
        let ghost was_seen = seen;
        assert(pair_bit(words, x, y) <==> old_word & (1u64 << bit) != 0);
        if old_word & (1u64 << bit) == 0 {
            if old_word == 0 {
                scratch.dirty.push(word);
                proof {
                    assert(scratch.dirty@[was_dirty.len() as int] == word);
                    assert forall|w: int| #[trigger] is_listed(was_dirty, w) implies is_listed(
                        scratch.dirty@,
                        w,
                    ) by {
                        let d = choose|d: int| 0 <= d < was_dirty.len() && was_dirty[d] == w;
                        assert(scratch.dirty@[d] == w);
                    }
                }
            }
            assert(is_listed(scratch.dirty@, word as int));
            scratch.bigrams[word] = old_word | (1u64 << bit);
            distinct += 1;
            proof {
                seen = seen.insert((x, y));
                setting_a_bit(old_word, bit, bit);
                assert forall|a: u8, b: u8| #[trigger]
                    pair_bit(scratch.bigrams@, a, b) <==> seen.contains((a, b)) by {
                    let at = a * 256 + b;
                    setting_a_bit(old_word, bit, (at % 64) as u64);
                    assert(pair_bit(words, a, b) <==> was_seen.contains((a, b)));
                    if at / 64 == word as int {
                        if at % 64 == bit as int {
                            assert(at == index);
                            assert(a == x && b == y);
                        }
                    }
                }
            }
        }
        proof {
            assert forall|p: (u8, u8)| #[trigger] seen.contains(p) implies exists|j: int|
                0 <= j < i + 1 && filtered@[j] == p.0 && #[trigger] filtered@[j + 1] == p.1 by {
                if p == (x, y) {
                    assert(filtered@[i + 1] == p.1);
                } else {
                    let j = choose|j: int|
                        0 <= j < i && filtered@[j] == p.0 && #[trigger] filtered@[j + 1] == p.1;
                    assert(filtered@[j + 1] == p.1);
                }
            }
        }
        i += 1;
    }
    proof {
        assert(seen =~= bigrams_of(filtered@));
    }
    let ghost words = scratch.bigrams@;
    let mut d: usize = 0;
    while d < scratch.dirty.len()
        invariant
            d <= scratch.dirty@.len(),
            scratch.histogram@.len() == 256,
            scratch.bigrams@.len() == 1024,
            words.len() == 1024,
            forall|e: int| 0 <= e < scratch.dirty@.len() ==> scratch.dirty@[e] < 1024,
            forall|w: int|
                0 <= w < 1024 && #[trigger] words[w] != 0 ==> is_listed(scratch.dirty@, w),
            forall|e: int| 0 <= e < d ==> scratch.bigrams@[#[trigger] scratch.dirty@[e] as int] == 0,
            forall|w: int|
                0 <= w < 1024 ==> #[trigger] scratch.bigrams@[w] == 0 || scratch.bigrams@[w]
                    == words[w],
        decreases scratch.dirty@.len() - d,
    {
        let word: usize = scratch.dirty[d];
        scratch.bigrams[word] = 0;
        d += 1;
    }
    proof {
        assert forall|w: int| 0 <= w < 1024 implies #[trigger] scratch.bigrams@[w] == 0 by {
            if words[w] != 0 {
                let e = choose|e: int|
                    0 <= e < scratch.dirty@.len() && scratch.dirty@[e] == w;
                assert(scratch.bigrams@[scratch.dirty@[e] as int] == 0);
            }
        }
    }
    scratch.dirty.clear();
    distinct
}

/// Scores a filtered row; lower is better in every variant, so candidates compare directly. The
/// scratch is clear again afterwards.
pub fn score(kind: Score, filtered: &[u8], scratch: &mut Scratch) -> (score: u128)
    requires
        old(scratch).is_clear(),
    ensures
        final(scratch).is_clear(),
        score == score_of(kind, filtered@),
{
    match kind {
        Score::SumAbs => sum_abs(filtered),
        Score::Entropy => entropy(filtered, scratch),
        Score::Bigrams => distinct_bigrams(filtered, scratch) as u128,
    }
}

/// The filter among the first `tried` codes whose row scores lowest; the first of several.
pub open spec fn best_code(kind: Score, cur: Seq<u8>, prev: Seq<u8>, bpp: int, tried: int) -> int
    decreases tried,
{
    if tried <= 1 {
        0
    } else {
        let best = best_code(kind, cur, prev, bpp, tried - 1);
        if score_of(kind, filtered_row(filter_at(tried - 1), cur, prev, bpp)) < score_of(
            kind,
            filtered_row(filter_at(best), cur, prev, bpp),
        ) {
            tried - 1
        } else {
            best
        }
    }
}

/// The filter that `kind` ranks lowest for a row; a tie goes to the earlier filter in code order.
pub open spec fn best_filter(kind: Score, cur: Seq<u8>, prev: Seq<u8>, bpp: int) -> FilterType {
    filter_at(best_code(kind, cur, prev, bpp, 5))
}

proof fn best_code_is_least(kind: Score, cur: Seq<u8>, prev: Seq<u8>, bpp: int, tried: int)
    requires
        1 <= tried,
    ensures
        0 <= best_code(kind, cur, prev, bpp, tried) < tried,
        forall|k: int|
            0 <= k < tried ==> score_of(
                kind,
                filtered_row(filter_at(best_code(kind, cur, prev, bpp, tried)), cur, prev, bpp),
            ) <= score_of(kind, filtered_row(#[trigger] filter_at(k), cur, prev, bpp)),
        forall|k: int|
            0 <= k < best_code(kind, cur, prev, bpp, tried) ==> score_of(
                kind,
                filtered_row(filter_at(best_code(kind, cur, prev, bpp, tried)), cur, prev, bpp),
            ) < score_of(kind, filtered_row(#[trigger] filter_at(k), cur, prev, bpp)),
    decreases tried,
{
    if tried > 1 {
        best_code_is_least(kind, cur, prev, bpp, tried - 1);
    }
}

/// The chosen filter scores no more than any other, and less than every filter before it.
pub proof fn best_filter_is_first_minimum(
    kind: Score,
    cur: Seq<u8>,
    prev: Seq<u8>,
    bpp: int,
    other: FilterType,
)
    ensures
        ({
            let best = best_filter(kind, cur, prev, bpp);
            let least = score_of(kind, filtered_row(best, cur, prev, bpp));
            let rival = score_of(kind, filtered_row(other, cur, prev, bpp));
            least <= rival && (other.spec_code() < best.spec_code() ==> least < rival)
        }),
{
    best_code_is_least(kind, cur, prev, bpp, 5);
    assert(filter_at(other.spec_code() as int) == other);
}

/// Tries all five filters and keeps the one `kind` ranks lowest, leaving its bytes in
/// `best_bytes`. The first minimum wins.
pub fn choose_by(
    kind: Score,
    cur: &[u8],
    prev: &[u8],
    bpp: usize,
    scratch: &mut Vec<u8>,
    best_bytes: &mut Vec<u8>,
    aux: &mut Scratch,
) -> (best: FilterType)
    requires
        bpp >= 1,
        prev@.len() >= cur@.len(),
        old(aux).is_clear(),
    ensures
        final(aux).is_clear(),
        best == best_filter(kind, cur@, prev@, bpp as int),
        final(best_bytes)@ == filtered_row(best, cur@, prev@, bpp as int),
{
    let mut best: FilterType = FilterType::Unfiltered;
    let mut best_score: u128 = 0;
    let mut tried: u8 = 0;
    while tried < 5
        invariant
            tried <= 5,
            bpp >= 1,
            prev@.len() >= cur@.len(),
            aux.is_clear(),
            tried > 0 ==> {
                &&& best == filter_at(best_code(kind, cur@, prev@, bpp as int, tried as int))
                &&& best_bytes@ == filtered_row(best, cur@, prev@, bpp as int)
                &&& best_score == score_of(kind, best_bytes@)
            },
        decreases 5 - tried,
    {
        let filter: FilterType = match tried {
            0 => FilterType::Unfiltered,
            1 => FilterType::Sub,
            2 => FilterType::Up,
            3 => FilterType::Average,
            _ => FilterType::Paeth,
        };
        assert(filter == filter_at(tried as int));
        filter_row(filter, cur, prev, bpp, scratch);
        let candidate: u128 = score(kind, scratch.as_slice(), aux);
        if tried == 0 || candidate < best_score {
            best_score = candidate;
            best = filter;
            best_bytes.clear();
            append(best_bytes, scratch.as_slice());
            assert(best_bytes@ =~= scratch@);
        }
        tried += 1;
    }
    best
}

/// Row `y` of an image.
pub open spec fn row_at(samples: Seq<u8>, row_bytes: int, y: int) -> Seq<u8> {
    samples.subrange(y * row_bytes, (y + 1) * row_bytes)
}

/// The row above row `y`: all zero for the first row.
pub open spec fn row_above(samples: Seq<u8>, row_bytes: int, y: int) -> Seq<u8> {
    if y == 0 {
        Seq::new(row_bytes as nat, |i: int| 0u8)
    } else {
        row_at(samples, row_bytes, y - 1)
    }
}

/// The filter a strategy uses for one row.
pub open spec fn strategy_filter(
    strategy: FilterStrategy,
    cur: Seq<u8>,
    prev: Seq<u8>,
    bpp: int,
) -> FilterType {
    match strategy {
        FilterStrategy::Unfiltered => FilterType::Unfiltered,
        FilterStrategy::Fixed(f) => f,
        FilterStrategy::MinSumAbs => best_filter(Score::SumAbs, cur, prev, bpp),
        FilterStrategy::MinEntropy => best_filter(Score::Entropy, cur, prev, bpp),
        FilterStrategy::MinBigrams => best_filter(Score::Bigrams, cur, prev, bpp),
        FilterStrategy::BruteForce => best_filter(Score::SumAbs, cur, prev, bpp),
    }
}

/// The filter-prefixed stream of the first `rows` rows of an image.
pub open spec fn filtered_image(
    strategy: FilterStrategy,
    samples: Seq<u8>,
    row_bytes: int,
    bpp: int,
    rows: nat,
) -> Seq<u8>
    decreases rows,
{
    if rows == 0 {
        Seq::empty()
    } else {
        let y = rows - 1;
        let cur = row_at(samples, row_bytes, y);
        let prev = row_above(samples, row_bytes, y);
        let filter = strategy_filter(strategy, cur, prev, bpp);
        filtered_image(strategy, samples, row_bytes, bpp, y as nat) + seq![filter.spec_code()]
            + filtered_row(filter, cur, prev, bpp)
    }
}

/// How many whole rows `len` bytes hold.
pub open spec fn whole_rows(len: nat, row_bytes: int) -> nat {
    if row_bytes <= 0 {
        0
    } else {
        len / (row_bytes as nat)
    }
}

/// Filters every scanline of `samples` (row-major, `row_bytes` per row) per `strategy`, producing
/// the stream that gets compressed: a filter-type byte then the filtered row, for each scanline.
/// [`FilterStrategy::BruteForce`] is the encoder's to resolve; here it is
/// [`FilterStrategy::MinSumAbs`].
pub fn filter_image(strategy: FilterStrategy, samples: &[u8], row_bytes: usize, bpp: usize) -> (out:
    Vec<u8>)
    requires
        bpp >= 1,
    ensures
        out@ == filtered_image(
            strategy,
            samples@,
            row_bytes as int,
            bpp as int,
            whole_rows(samples@.len(), row_bytes as int),
        ),
{
    let height: usize = if row_bytes == 0 {
        0
    } else {
        samples.len() / row_bytes
    };
    let mut out: Vec<u8> = Vec::new();
    let zero_row: Vec<u8> = vec![0u8; if height == 0 { 0 } else { row_bytes }];
    let mut scratch: Vec<u8> = Vec::new();
    let mut chosen: Vec<u8> = Vec::new();
    let mut aux: Scratch = Scratch::new();
    let adaptive: Option<Score> = match strategy {
        FilterStrategy::MinSumAbs | FilterStrategy::BruteForce => Some(Score::SumAbs),
        FilterStrategy::MinEntropy => Some(Score::Entropy),
        FilterStrategy::MinBigrams => Some(Score::Bigrams),
        FilterStrategy::Unfiltered | FilterStrategy::Fixed(_) => None,
    };
    let mut y: usize = 0;
    let mut start: usize = 0;
    proof {
        if row_bytes > 0 {
            vstd::arithmetic::div_mod::lemma_fundamental_div_mod(
                samples@.len() as int,
                row_bytes as int,
            );
            assert(row_bytes * height == height * row_bytes) by (nonlinear_arith);
        }
    }
    while y < height
        invariant
            bpp >= 1,
            y <= height,
            start == y * row_bytes,
            height * row_bytes <= samples.len(),
            aux.is_clear(),
            height > 0 ==> zero_row@.len() == row_bytes,
            forall|i: int| 0 <= i < zero_row@.len() ==> zero_row@[i] == 0,
            adaptive == (match strategy {
                FilterStrategy::MinSumAbs | FilterStrategy::BruteForce => Some(Score::SumAbs),
                FilterStrategy::MinEntropy => Some(Score::Entropy),
                FilterStrategy::MinBigrams => Some(Score::Bigrams),
                FilterStrategy::Unfiltered | FilterStrategy::Fixed(_) => None,
            }),
            out@ == filtered_image(
                strategy,
                samples@,
                row_bytes as int,
                bpp as int,
                y as nat,
            ),
        decreases height - y,
    {
        proof {
            assert((y + 1) * row_bytes == y * row_bytes + row_bytes) by (nonlinear_arith);
            assert((y + 1) * row_bytes <= height * row_bytes) by (nonlinear_arith)
                requires
                    y + 1 <= height,
            ;
            if y > 0 {
                assert((y - 1) * row_bytes == y * row_bytes - row_bytes) by (nonlinear_arith);
                assert(y * row_bytes >= row_bytes) by (nonlinear_arith)
                    requires
                        y >= 1,
                ;
            }
        }
        let cur: &[u8] = &samples[start..start + row_bytes];
        let prev: &[u8] = if y == 0 {
            zero_row.as_slice()
        } else {
            &samples[start - row_bytes..start]
        };
        assert(cur@ =~= row_at(samples@, row_bytes as int, y as int));
        assert(prev@ =~= row_above(samples@, row_bytes as int, y as int));
        let ghost before = out@;
        let filter: FilterType = match adaptive {
            Some(kind) => choose_by(kind, cur, prev, bpp, &mut scratch, &mut chosen, &mut aux),
            None => {
                let fixed: FilterType = match strategy {
                    FilterStrategy::Fixed(f) => f,
                    _ => FilterType::Unfiltered,
                };
                filter_row(fixed, cur, prev, bpp, &mut chosen);
                fixed
            },
        };
        out.push(filter.code());
        append(&mut out, chosen.as_slice());
        assert(out@ =~= before + seq![filter.spec_code()] + filtered_row(
            filter,
            cur@,
            prev@,
            bpp as int,
        ));
        y += 1;
        start += row_bytes;
    }
    out
}

} // verus!
