//! Which scanline filters an encoder chose.
use crate::adam7::{
    expected_stream_len, pass_at, pass_bounds, pass_count, pass_dimensions, pass_height,
    pass_is_empty, pass_len, pass_row_len, pass_width, passes_for, passes_len, stream_fits,
    stream_len, Pass,
};
use crate::decoder::DEFAULT_MAX_IMAGE_BYTES;
use crate::deconstruct::{sum_of, FilterHistogram, FilterScan, PassStats, SkippedFilterScan};
use crate::filter::{occurrences, FilterType};
use crate::ihdr::{decoded_bytes, native_bytes, Ihdr};
use crate::zlib::{inflate_zlib, zlib_contents};
use vstd::prelude::*;

verus! {

/// The figures of pass `k`.
pub open spec fn pass_figures(h: Ihdr, k: int) -> PassStats {
    PassStats {
        index: k as u8,
        width: pass_width(h, k) as u32,
        height: pass_height(h, k) as u32,
        row_bytes: pass_row_len(h, k) as usize,
        filtered_len: pass_len(h, k) as usize,
    }
}

/// The figures of the passes before `k` that hold pixels.
pub open spec fn figures_before(h: Ihdr, k: int) -> Seq<PassStats>
    decreases k,
{
    if k <= 0 {
        Seq::empty()
    } else if pass_is_empty(h, k - 1) {
        figures_before(h, k - 1)
    } else {
        figures_before(h, k - 1).push(pass_figures(h, k - 1))
    }
}

/// The figures of the reduced images making up a filtered stream, none where the stream cannot be
/// addressed.
pub open spec fn figures_of(h: Ihdr) -> Seq<PassStats> {
    if stream_fits(h) {
        figures_before(h, pass_count(h.interlaced))
    } else {
        Seq::empty()
    }
}

/// The bytes of the passes of a list.
pub open spec fn figures_len(passes: Seq<PassStats>) -> int
    decreases passes.len(),
{
    if passes.len() == 0 {
        0
    } else {
        figures_len(passes.drop_last()) + passes.last().filtered_len
    }
}

/// The figures of the passes add up to the length of the filtered stream.
pub proof fn figures_add_up(h: Ihdr)
    requires
        h.wf(),
        stream_fits(h),
    ensures
        figures_len(figures_of(h)) == stream_len(h),
{
    figures_before_add_up(h, pass_count(h.interlaced));
}

/// The figures of the passes before `k` add up to where pass `k` starts.
pub proof fn figures_before_add_up(h: Ihdr, k: int)
    requires
        h.wf(),
        stream_fits(h),
        0 <= k <= pass_count(h.interlaced),
    ensures
        figures_len(figures_before(h, k)) == passes_len(h, k),
    decreases k,
{
    if k > 0 {
        figures_before_add_up(h, k - 1);
        pass_bounds(h, k - 1);
        if !pass_is_empty(h, k - 1) {
            let list = figures_before(h, k);
            assert(list.drop_last() =~= figures_before(h, k - 1));
        }
    }
}

/// The reduced images making up the filtered stream, skipping empty passes. None where the stream
/// cannot be addressed, so that the figures always add up to the length reported.
pub fn pass_stats(header: &Ihdr) -> (passes: Vec<PassStats>)
    requires
        header.wf(),
    ensures
        passes@ == figures_of(*header),
{
    let ghost h = *header;
    let mut out: Vec<PassStats> = Vec::new();
    if expected_stream_len(header).is_none() {
        return out;
    }
    let bits: u64 = header.bits_per_pixel() as u64;
    let passes: Vec<Pass> = passes_for(header.interlaced);
    let mut k: usize = 0;
    while k < passes.len()
        invariant
            h == *header,
            h.wf(),
            stream_fits(h),
            bits == h.spec_bits_per_pixel(),
            passes@.len() == pass_count(h.interlaced),
            passes@.len() <= 7,
            forall|j: int|
                0 <= j < passes@.len() ==> #[trigger] passes@[j] == pass_at(h.interlaced, j),
            k <= passes@.len(),
            out@ == figures_before(h, k as int),
        decreases passes@.len() - k,
    {
        let pass: Pass = passes[k];
        assert(pass == pass_at(h.interlaced, k as int));
        let (width, height): (u32, u32) = pass_dimensions(pass, header.width, header.height);
        proof {
            pass_bounds(h, k as int);
        }
        if width != 0 && height != 0 {
            let row: u64 = (width as u64 * bits + 7) / 8;
            assert(pass_len(h, k as int) == height * (row + 1));
            proof {
                assert(row + 1 <= height * (row + 1)) by (nonlinear_arith)
                    requires
                        height >= 1,
                        row >= 0,
                ;
            }
            let row_bytes: usize = row as usize;
            let filtered_len: usize = height as usize * (row_bytes + 1);
            out.push(PassStats { index: k as u8, width, height, row_bytes, filtered_len });
        }
        k += 1;
    }
    out
}

/// Whether the decoded image fits a byte budget.
pub open spec fn fits_budget(h: Ihdr, max_image_bytes: int) -> bool {
    decoded_bytes(h.width, h.height, h.color.spec_channels(), h.bit_depth) <= max_image_bytes
}

/// Whether the image a header describes fits a byte budget: the quantity a decoder budgets.
pub fn fits_decode_budget(header: &Ihdr, max_image_bytes: usize) -> (fits: bool)
    ensures
        fits == fits_budget(*header, max_image_bytes as int),
{
    match native_bytes(header.width, header.height, header.color.channels(), header.bit_depth) {
        Some(native) => native <= max_image_bytes,
        None => false,
    }
}

/// How many times its own length an IDAT stream may inflate, once the image it describes is past the
/// decoder's default budget.
pub const INFLATION_RATIO: usize = 64;

/// Whether a stream may be inflated to a length: at least a sixty-fourth of it must be there. A
/// stream too long to multiply is allowed anything.
pub fn fits_inflation_ratio(filtered_len: usize, idat_len: usize) -> (fits: bool)
    ensures
        fits == (filtered_len <= idat_len * INFLATION_RATIO),
{
    if idat_len > usize::MAX / INFLATION_RATIO {
        true
    } else {
        filtered_len <= idat_len * INFLATION_RATIO
    }
}

/// The leading bytes of the rows of a pass whose stream starts at `at`.
pub open spec fn row_codes(stream: Seq<u8>, at: int, pass: PassStats, rows: nat) -> Seq<u8> {
    Seq::new(rows, |y: int| stream[at + y * (pass.row_bytes + 1)])
}

/// The leading bytes of all rows, pass by pass.
pub open spec fn all_codes(stream: Seq<u8>, passes: Seq<PassStats>) -> Seq<u8>
    decreases passes.len(),
{
    if passes.len() == 0 {
        Seq::empty()
    } else {
        let rest = passes.drop_last();
        all_codes(stream, rest) + row_codes(
            stream,
            figures_len(rest),
            passes.last(),
            passes.last().height as nat,
        )
    }
}

/// Whether every byte is a defined filter code.
pub open spec fn codes_are_defined(codes: Seq<u8>) -> bool {
    forall|i: int| 0 <= i < codes.len() ==> (#[trigger] codes[i]) <= 4
}

/// Whether a histogram counts the filter codes.
pub open spec fn counts_codes(histogram: FilterHistogram, codes: Seq<u8>) -> bool {
    &&& histogram.spec_counts().len() == 5
    &&& forall|c: int|
        0 <= c < 5 ==> #[trigger] histogram.spec_counts()[c] == occurrences(codes, c as u8)
}

/// Whether a scan is the outcome for an inflated scanline stream.
pub open spec fn is_count_of(
    scan: FilterScan,
    stream: Seq<u8>,
    filtered_len: int,
    passes: Seq<PassStats>,
) -> bool {
    if stream.len() != filtered_len {
        scan == FilterScan::Skipped(SkippedFilterScan::LengthMismatch)
    } else if !codes_are_defined(all_codes(stream, passes)) {
        scan == FilterScan::Skipped(SkippedFilterScan::UndefinedFilterCode)
    } else {
        scan matches FilterScan::Counted(histogram) && counts_codes(
            histogram,
            all_codes(stream, passes),
        )
    }
}

/// Whether a scan is the outcome for an image data stream.
pub open spec fn is_scan_of(
    scan: FilterScan,
    h: Ihdr,
    idat: Seq<u8>,
    filtered_len: int,
    passes: Seq<PassStats>,
    max_image_bytes: int,
) -> bool {
    if !fits_budget(h, max_image_bytes) {
        scan == FilterScan::Skipped(SkippedFilterScan::OverBudget)
    } else if !fits_budget(h, DEFAULT_MAX_IMAGE_BYTES as int) && filtered_len > idat.len()
        * INFLATION_RATIO {
        scan == FilterScan::Skipped(SkippedFilterScan::ImplausibleInflation)
    } else {
        match zlib_contents(idat, filtered_len) {
            None => scan == FilterScan::Skipped(SkippedFilterScan::CorruptStream),
            Some(stream) => is_count_of(scan, stream, filtered_len, passes),
        }
    }
}

/// The rows of all passes.
pub open spec fn row_sum(passes: Seq<PassStats>) -> int
    decreases passes.len(),
{
    if passes.len() == 0 {
        0
    } else {
        row_sum(passes.drop_last()) + passes.last().height
    }
}

/// Whether the figures of passes are consistent: each pass's length is that of its rows.
pub open spec fn figures_fit(passes: Seq<PassStats>) -> bool {
    forall|i: int|
        0 <= i < passes.len() ==> (#[trigger] passes[i]).filtered_len == passes[i].height * (
        passes[i].row_bytes + 1)
}

proof fn figures_len_grows(passes: Seq<PassStats>, k: int)
    requires
        0 <= k <= passes.len(),
    ensures
        0 <= figures_len(passes.subrange(0, k)) <= figures_len(passes),
    decreases passes.len(),
{
    let rest = passes.drop_last();
    if passes.len() > 0 {
        if k < passes.len() {
            figures_len_grows(rest, k);
            assert(rest.subrange(0, k) =~= passes.subrange(0, k));
        } else {
            figures_len_grows(rest, k - 1);
            assert(passes.subrange(0, k) =~= passes);
            assert(rest.subrange(0, k - 1) =~= rest);
        }
    } else {
        assert(passes.subrange(0, k) =~= passes);
    }
}

proof fn row_sum_grows(passes: Seq<PassStats>, k: int)
    requires
        0 <= k <= passes.len(),
    ensures
        0 <= row_sum(passes.subrange(0, k)) <= row_sum(passes),
    decreases passes.len(),
{
    let rest = passes.drop_last();
    if passes.len() > 0 {
        if k < passes.len() {
            row_sum_grows(rest, k);
            assert(rest.subrange(0, k) =~= passes.subrange(0, k));
        } else {
            row_sum_grows(rest, k - 1);
            assert(passes.subrange(0, k) =~= passes);
            assert(rest.subrange(0, k - 1) =~= rest);
        }
    } else {
        assert(passes.subrange(0, k) =~= passes);
    }
}

proof fn counts_are_bounded(codes: Seq<u8>, b: u8)
    ensures
        0 <= occurrences(codes, b) <= codes.len(),
    decreases codes.len(),
{
    if codes.len() > 0 {
        counts_are_bounded(codes.drop_last(), b);
    }
}

proof fn all_codes_len(stream: Seq<u8>, passes: Seq<PassStats>)
    ensures
        all_codes(stream, passes).len() == row_sum(passes),
    decreases passes.len(),
{
    if passes.len() > 0 {
        all_codes_len(stream, passes.drop_last());
    }
}

/// A code that occurs in part of the passes occurs in all of them.
proof fn undefined_code_stays(stream: Seq<u8>, passes: Seq<PassStats>, k: int, i: int)
    requires
        0 <= k <= passes.len(),
        0 <= i < all_codes(stream, passes.subrange(0, k)).len(),
        all_codes(stream, passes.subrange(0, k))[i] > 4,
    ensures
        !codes_are_defined(all_codes(stream, passes)),
    decreases passes.len() - k,
{
    let part = passes.subrange(0, k);
    if k < passes.len() {
        let longer = passes.subrange(0, k + 1);
        assert(longer.drop_last() =~= part);
        assert(all_codes(stream, longer)[i] == all_codes(stream, part)[i]);
        undefined_code_stays(stream, passes, k + 1, i);
    } else {
        assert(part =~= passes);
    }
}

/// One pass's worth of counting: the codes of `rows` rows are added to the counts, or one of them is
/// undefined.
fn count_pass(stream: &[u8], at: usize, pass: PassStats, counts: &mut [u32; 5], codes: Ghost<Seq<u8>>) -> (defined:
    bool)
    requires
        pass.filtered_len == pass.height * (pass.row_bytes + 1),
        at + pass.filtered_len <= stream@.len(),
        codes@.len() + pass.height <= u32::MAX,
        forall|c: int| 0 <= c < 5 ==> #[trigger] old(counts)@[c] == occurrences(codes@, c as u8),
    ensures
        ({
            let more = row_codes(stream@, at as int, pass, pass.height as nat);
            if defined {
                codes_are_defined(more) && forall|c: int|
                    0 <= c < 5 ==> #[trigger] final(counts)@[c] == occurrences(
                        codes@ + more,
                        c as u8,
                    )
            } else {
                !codes_are_defined(more)
            }
        }),
{
    let ghost more = row_codes(stream@, at as int, pass, pass.height as nat);
    let ghost step = pass.row_bytes + 1;
    let mut y: u32 = 0;
    let mut i: usize = at;
    assert(codes@ + more.subrange(0, 0) =~= codes@);
    assert(0 * step == 0);
    while y < pass.height
        invariant
            y <= pass.height,
            step == pass.row_bytes + 1,
            pass.filtered_len == pass.height * step,
            at + pass.filtered_len <= stream.len(),
            i == at + y * step,
            more == row_codes(stream@, at as int, pass, pass.height as nat),
            codes@.len() + pass.height <= u32::MAX,
            forall|j: int| 0 <= j < y ==> (#[trigger] more[j]) <= 4,
            forall|c: int|
                0 <= c < 5 ==> #[trigger] counts@[c] == occurrences(
                    codes@ + more.subrange(0, y as int),
                    c as u8,
                ),
        decreases pass.height - y,
    {
        proof {
            assert((y + 1) * step == y * step + step) by (nonlinear_arith);
            assert((y + 1) * step <= pass.height * step) by (nonlinear_arith)
                requires
                    y + 1 <= pass.height,
                    step >= 1,
            ;
        }
        let code: u8 = stream[i];
        assert(code == more[y as int]);
        let filter: FilterType = match FilterType::from_code(code) {
            Some(filter) => filter,
            None => {
                assert(more[y as int] > 4);
                return false;
            },
        };
        let slot: usize = filter.code() as usize;
        proof {
            let before = codes@ + more.subrange(0, y as int);
            let after = codes@ + more.subrange(0, y + 1);
            assert(after.drop_last() =~= before);
            assert(after.last() == code);
            counts_are_bounded(before, code);
            assert(counts@[slot as int] == occurrences(before, code));
            assert forall|c: int| 0 <= c < 5 implies #[trigger] occurrences(after, c as u8)
                == occurrences(before, c as u8) + (if c == code {
                1int
            } else {
                0
            }) by {}
        }
        let ghost old_counts = counts@;
        counts[slot] = counts[slot] + 1;
        proof {
            assert forall|c: int| 0 <= c < 5 implies #[trigger] counts@[c] == occurrences(
                codes@ + more.subrange(0, y + 1),
                c as u8,
            ) by {
                assert(old_counts[c] == occurrences(codes@ + more.subrange(0, y as int), c as u8));
            }
        }
        y += 1;
        if y < pass.height {
            proof {
                assert((y + 1) * step == y * step + step) by (nonlinear_arith);
                assert((y + 1) * step <= pass.height * step) by (nonlinear_arith)
                    requires
                        y + 1 <= pass.height,
                        step >= 1,
                ;
            }
        }
        i = i + (pass.row_bytes + 1);
    }
    assert(more.subrange(0, y as int) =~= more);
    true
}

/// Counts the filter byte leading each scanline of an inflated stream.
pub fn count_filters(stream: &[u8], filtered_len: usize, passes: &Vec<PassStats>) -> (scan:
    FilterScan)
    requires
        figures_fit(passes@),
        figures_len(passes@) == filtered_len,
        row_sum(passes@) <= u32::MAX,
    ensures
        is_count_of(scan, stream@, filtered_len as int, passes@),
{
    if stream.len() != filtered_len {
        return FilterScan::Skipped(SkippedFilterScan::LengthMismatch);
    }
    let mut counts: [u32; 5] = [0, 0, 0, 0, 0];
    let mut at: usize = 0;
    let mut k: usize = 0;
    assert(passes@.subrange(0, 0) =~= Seq::<PassStats>::empty());
    while k < passes.len()
        invariant
            figures_fit(passes@),
            figures_len(passes@) == filtered_len,
            row_sum(passes@) <= u32::MAX,
            stream@.len() == filtered_len,
            k <= passes@.len(),
            at == figures_len(passes@.subrange(0, k as int)),
            codes_are_defined(all_codes(stream@, passes@.subrange(0, k as int))),
            forall|c: int|
                0 <= c < 5 ==> #[trigger] counts@[c] == occurrences(
                    all_codes(stream@, passes@.subrange(0, k as int)),
                    c as u8,
                ),
        decreases passes@.len() - k,
    {
        let pass: PassStats = passes[k];
        let ghost part = passes@.subrange(0, k as int);
        let ghost longer = passes@.subrange(0, k + 1);
        let ghost codes = all_codes(stream@, part);
        let ghost more = row_codes(stream@, at as int, pass, pass.height as nat);
        proof {
            assert(longer.drop_last() =~= part);
            assert(longer.last() == pass);
            figures_len_grows(passes@, k + 1);
            row_sum_grows(passes@, k + 1);
            all_codes_len(stream@, part);
            assert(all_codes(stream@, longer) == codes + more);
        }
        if !count_pass(stream, at, pass, &mut counts, Ghost(codes)) {
            proof {
                let j = choose|j: int| 0 <= j < more.len() && more[j] > 4;
                assert((codes + more)[codes.len() + j] == more[j]);
                undefined_code_stays(stream@, passes@, k + 1, codes.len() + j);
            }
            return FilterScan::Skipped(SkippedFilterScan::UndefinedFilterCode);
        }
        proof {
            assert forall|i: int| 0 <= i < (codes + more).len() implies (#[trigger] (codes
                + more)[i]) <= 4 by {
                if i < codes.len() {
                    assert((codes + more)[i] == codes[i]);
                } else {
                    assert((codes + more)[i] == more[i - codes.len()]);
                }
            }
        }
        at = at + pass.filtered_len;
        k += 1;
    }
    assert(passes@.subrange(0, k as int) =~= passes@);
    FilterScan::Counted(FilterHistogram::from_counts(counts))
}

/// Inflates the IDAT stream and counts the filter byte leading each scanline. Every early return
/// names its own reason.
pub fn scan_filters(
    header: &Ihdr,
    idat: &[u8],
    filtered_len: usize,
    passes: &Vec<PassStats>,
    max_image_bytes: usize,
) -> (scan: FilterScan)
    requires
        figures_fit(passes@),
        figures_len(passes@) == filtered_len,
        row_sum(passes@) <= u32::MAX,
    ensures
        is_scan_of(scan, *header, idat@, filtered_len as int, passes@, max_image_bytes as int),
{
    if !fits_decode_budget(header, max_image_bytes) {
        return FilterScan::Skipped(SkippedFilterScan::OverBudget);
    }
    if !fits_decode_budget(header, DEFAULT_MAX_IMAGE_BYTES) && !fits_inflation_ratio(
        filtered_len,
        idat.len(),
    ) {
        return FilterScan::Skipped(SkippedFilterScan::ImplausibleInflation);
    }
    match inflate_zlib(idat, filtered_len) {
        Ok(stream) => count_filters(stream.as_slice(), filtered_len, passes),
        Err(_) => FilterScan::Skipped(SkippedFilterScan::CorruptStream),
    }
}

proof fn defined_codes_add_up(codes: Seq<u8>)
    requires
        codes_are_defined(codes),
    ensures
        occurrences(codes, 0) + occurrences(codes, 1) + occurrences(codes, 2) + occurrences(
            codes,
            3,
        ) + occurrences(codes, 4) == codes.len(),
    decreases codes.len(),
{
    if codes.len() > 0 {
        let rest = codes.drop_last();
        assert forall|i: int| 0 <= i < rest.len() implies (#[trigger] rest[i]) <= 4 by {
            assert(rest[i] == codes[i]);
        }
        defined_codes_add_up(rest);
        assert(codes[codes.len() - 1] <= 4);
    }
}

/// A scan that ran has counted every scanline of every pass once.
pub proof fn a_scan_counts_every_row(
    histogram: FilterHistogram,
    h: Ihdr,
    idat: Seq<u8>,
    filtered_len: int,
    passes: Seq<PassStats>,
    max_image_bytes: int,
)
    requires
        is_scan_of(
            FilterScan::Counted(histogram),
            h,
            idat,
            filtered_len,
            passes,
            max_image_bytes,
        ),
    ensures
        sum_of(histogram.spec_counts()) == row_sum(passes),
{
    let stream = zlib_contents(idat, filtered_len)->0;
    let codes = all_codes(stream, passes);
    all_codes_len(stream, passes);
    defined_codes_add_up(codes);
    let counts = histogram.spec_counts();
    assert(counts[0] == occurrences(codes, 0));
    assert(counts[1] == occurrences(codes, 1));
    assert(counts[2] == occurrences(codes, 2));
    assert(counts[3] == occurrences(codes, 3));
    assert(counts[4] == occurrences(codes, 4));
}

} // verus!
