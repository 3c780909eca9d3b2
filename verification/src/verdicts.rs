//! What a report says of a file, held against the file itself and against what a decoder makes of it.
use crate::adam7::{
    pass_bounds, pass_count, pass_height, pass_is_empty, pass_len, pass_row_len, pass_width, passes_len,
    stream_fits, stream_len,
};
use crate::canvas::{every_pass_restores, pass_rows, restored_rows_follow_each_other, stride_of};
use crate::chunk::IEND;
use crate::decoder::{native_of, Limits, DEFAULT_MAX_IMAGE_BYTES};
use crate::deconstruct::{
    type_position_is_first, FilterHistogram, FilterScan, KindModel, PassStats, PngReport, SegmentModel,
    SkippedFilterScan,
};
use crate::filter::{occurrences, FilterType};
use crate::frames::{
    a_survey_holds_the_stream_that_is_decoded, a_survey_lists_every_chunk, frames, frames_end,
    last_frame_is_the_end, segment_kind,
};
use crate::ihdr::Ihdr;
use crate::parse::{opening, parsed_stream};
use crate::scan::{
    all_codes, codes_are_defined, figures_before, figures_before_add_up, figures_len, figures_of, is_scan_of,
    pass_figures, row_codes,
};
use crate::survey::{
    chunks_among, count_of, every_byte_is_classified, reports, surveyed, totals_of, Survey,
};
use vstd::prelude::*;

verus! {

/// A count of a byte is how many of the bytes are that one.
pub proof fn occurrences_are_counted(row: Seq<u8>, b: u8)
    ensures
        occurrences(row, b) == row.filter(|x: u8| x == b).len(),
    decreases row.len(),
{
    reveal(Seq::filter);
    if row.len() > 0 {
        occurrences_are_counted(row.drop_last(), b);
    }
}

/// The filter bytes of the passes before `k + 1` are those of the passes before `k`, and then the first
/// byte of each row of pass `k`, where the pass stands in the stream.
pub proof fn filter_bytes_lead_their_rows(h: Ihdr, stream: Seq<u8>, k: int)
    requires
        h.wf(),
        stream_fits(h),
        0 <= k < pass_count(h.interlaced),
    ensures
        all_codes(stream, figures_before(h, k + 1)) == (if pass_width(h, k) > 0 && pass_height(h, k) > 0 {
            all_codes(stream, figures_before(h, k)) + Seq::new(
                pass_height(h, k) as nat,
                |y: int| stream[passes_len(h, k) + y * (pass_row_len(h, k) + 1)],
            )
        } else {
            all_codes(stream, figures_before(h, k))
        }),
        all_codes(stream, figures_before(h, 0)) == Seq::<u8>::empty(),
{
    pass_bounds(h, k);
    figures_before_add_up(h, k);
    if !pass_is_empty(h, k) {
        let (height, row) = (pass_height(h, k), pass_row_len(h, k));
        assert(row + 1 <= height * (row + 1)) by (nonlinear_arith)
            requires
                height >= 1,
                row >= 0,
        ;
        let list = figures_before(h, k + 1);
        let rest = figures_before(h, k);
        assert(list.drop_last() =~= rest);
        assert(list.last() == pass_figures(h, k));
        assert(pass_figures(h, k).height == height);
        assert(pass_figures(h, k).row_bytes == row);
        assert(row_codes(stream, figures_len(rest), list.last(), height as nat) =~= Seq::new(
            height as nat,
            |y: int| stream[passes_len(h, k) + y * (row + 1)],
        ));
    }
}

/// A stream whose rows are restored names a filter in each of them.
pub proof fn restored_codes_are_defined(h: Ihdr, stream: Seq<u8>, k: int)
    requires
        h.wf(),
        stream_fits(h),
        stream.len() == stream_len(h),
        every_pass_restores(h, stream),
        0 <= k <= pass_count(h.interlaced),
    ensures
        codes_are_defined(all_codes(stream, figures_before(h, k))),
    decreases k,
{
    if k > 0 {
        let j = k - 1;
        restored_codes_are_defined(h, stream, j);
        filter_bytes_lead_their_rows(h, stream, j);
        pass_bounds(h, j);
        let (height, row) = (pass_height(h, j), pass_row_len(h, j));
        if pass_width(h, j) > 0 && height > 0 {
            let part = stream.subrange(passes_len(h, j), passes_len(h, j + 1));
            assert(pass_rows(h, stream, j) is Some);
            assert(part.len() == height * (row + 1));
            let before = all_codes(stream, figures_before(h, j));
            let all = all_codes(stream, figures_before(h, k));
            assert forall|i: int| 0 <= i < all.len() implies (#[trigger] all[i]) <= 4 by {
                if i < before.len() {
                    assert(all[i] == before[i]);
                } else {
                    let y = i - before.len();
                    restored_rows_follow_each_other(part, row, stride_of(h), height as nat, y);
                    assert(0 <= y * (row + 1) < height * (row + 1)) by (nonlinear_arith)
                        requires
                            0 <= y < height,
                            row >= 0,
                    ;
                    assert(part[y * (row + 1)] == stream[passes_len(h, j) + y * (row + 1)]);
                }
            }
        }
    }
}

/// A file that decodes is never reported as damaged: where the image fits the report's budget and the
/// decoder's default one, its filters were read and counted.
pub proof fn a_file_that_decodes_is_counted(
    l: Limits,
    png: Seq<u8>,
    report: PngReport,
    max_chunks: int,
    max_image_bytes: int,
)
    requires
        parsed_stream(png, true) matches Ok((h, s)) && native_of(l, h, s) is Ok,
        surveyed(png, max_chunks) matches Ok((h, s)) && reports(report, png, h, s, max_image_bytes),
    ensures
        !report.filters.spec_is_damage(),
        ({
            let h = parsed_stream(png, true)->Ok_0.0;
            let bytes = h.width * h.height * h.color.spec_channels() * (if h.bit_depth == 16 {
                2int
            } else {
                1
            });
            bytes <= max_image_bytes && bytes <= DEFAULT_MAX_IMAGE_BYTES ==> report.filters is Counted
        }),
{
    let (h, s) = parsed_stream(png, true)->Ok_0;
    a_survey_holds_the_stream_that_is_decoded(png, true, max_chunks);
    crate::decoder::opened_header_is_valid(png);
    let stream = crate::zlib::zlib_contents(s.idat, stream_len(h))->0;
    restored_codes_are_defined(h, stream, pass_count(h.interlaced));
}

/// Which reasons for not counting speak of the file, and which of the reader alone.
pub proof fn damage_is_about_the_file(reason: SkippedFilterScan, histogram: FilterHistogram)
    ensures
        SkippedFilterScan::CorruptStream.spec_is_damage(),
        SkippedFilterScan::LengthMismatch.spec_is_damage(),
        SkippedFilterScan::UndefinedFilterCode.spec_is_damage(),
        !SkippedFilterScan::OverBudget.spec_is_damage(),
        !SkippedFilterScan::ImplausibleInflation.spec_is_damage(),
        !FilterScan::Counted(histogram).spec_is_damage(),
        FilterScan::Skipped(reason).spec_is_damage() == reason.spec_is_damage(),
{
}

/// A type that has a segment is counted.
proof fn a_segment_is_counted(segments: Seq<SegmentModel>, of: Seq<u8>, i: int)
    requires
        0 <= i < segments.len(),
        segments[i].kind matches KindModel::Chunk { chunk_type, .. } && chunk_type == of,
    ensures
        chunks_among(segments, of) >= 1,
    decreases segments.len(),
{
    let rest = segments.drop_last();
    if i < rest.len() {
        a_segment_is_counted(rest, of, i);
        assert(rest[i] == segments[i]);
    } else {
        no_count_is_negative(rest, of);
    }
}

proof fn no_count_is_negative(segments: Seq<SegmentModel>, of: Seq<u8>)
    ensures
        chunks_among(segments, of) >= 0,
    decreases segments.len(),
{
    if segments.len() > 0 {
        no_count_is_negative(segments.drop_last(), of);
    }
}

/// A file that reaches its IEND is reported intact exactly where every checksum is right, nothing stands
/// behind the IEND, and no damage was found in its image data.
pub proof fn an_intact_report_is_an_intact_file(
    png: Seq<u8>,
    report: PngReport,
    max_chunks: int,
    max_image_bytes: int,
)
    requires
        opening(png) is Ok,
        frames(png, 8) is Some,
        surveyed(png, max_chunks) matches Ok((h, s)) && reports(report, png, h, s, max_image_bytes),
    ensures
        report.spec_is_intact() <==> {
            &&& forall|i: int| 0 <= i < frames(png, 8)->0.len() ==> (#[trigger] frames(png, 8)->0[i]).intact
            &&& frames_end(png, 8) >= png.len()
            &&& !report.filters.spec_is_damage()
        },
{
    let (h, s) = surveyed(png, max_chunks)->Ok_0;
    let list = frames(png, 8)->0;
    let n = list.len() as int;
    a_survey_lists_every_chunk(png, max_chunks);
    every_byte_is_classified(png, max_chunks);
    last_frame_is_the_end(png, 8);
    let models = report.segment_models();
    assert(models == s.segments);
    assert forall|i: int| 0 <= i < report.segments@.len() implies (#[trigger] report.segments@[i])@
        == s.segments[i] by {
        assert(models[i] == report.segments@[i]@);
    }
    assert(segment_kind(list[n - 1]) == s.segments[1 + (n - 1)].kind);
    assert(IEND@ =~= seq![0x49u8, 0x45, 0x4E, 0x44]);
    a_segment_is_counted(s.segments, IEND@, n);
    type_position_is_first(s.stats, IEND@);
    assert(count_of(s.stats, IEND@) == chunks_among(s.segments, IEND@));
    assert(report.has_chunk(IEND@));
    if report.spec_is_intact() {
        assert forall|i: int| 0 <= i < n implies (#[trigger] list[i]).intact by {
            assert(segment_kind(list[i]) == s.segments[1 + i].kind);
            assert(report.segments@[1 + i]@ == s.segments[1 + i]);
        }
        if frames_end(png, 8) < png.len() {
            let last = report.segments@.len() - 1;
            assert(report.segments@[last]@ == s.segments.last());
        }
    }
    if frames_end(png, 8) >= png.len() && (forall|i: int|
        0 <= i < n ==> (#[trigger] list[i]).intact) {
        assert forall|i: int| 0 <= i < report.segments@.len() implies crate::deconstruct::is_sound(
            (#[trigger] report.segments@[i])@.kind,
        ) by {
            if i > 0 {
                assert(segment_kind(list[i - 1]) == s.segments[1 + (i - 1)].kind);
                assert(list[i - 1].intact);
            }
        }
    }
}

/// A file that is cut off before its IEND is never reported intact.
pub proof fn a_truncated_file_is_not_intact(
    png: Seq<u8>,
    report: PngReport,
    h: Ihdr,
    s: Survey,
    max_image_bytes: int,
)
    requires
        reports(report, png, h, s, max_image_bytes),
        s.segments.len() >= 1,
        s.segments.last().kind is Truncated || s.segments.last().kind is Trailer || count_of(s.stats, IEND@)
            == 0,
        totals_of(s.stats, s.segments),
    ensures
        !report.spec_is_intact(),
{
    let models = report.segment_models();
    let last = s.segments.len() - 1;
    assert(models[last] == report.segments@[last]@);
    type_position_is_first(s.stats, IEND@);
    if report.has_chunk(IEND@) {
        assert(s.stats[crate::deconstruct::type_position(s.stats, IEND@)].count >= 1);
    }
}

/// The figures of the passes are those of the passes that hold pixels, in order: the number of the pass, its
/// columns and rows, the bytes of a row, and the bytes of all its rows with their filter bytes.
pub proof fn figures_are_those_of_the_passes(h: Ihdr, k: int)
    requires
        h.wf(),
        stream_fits(h),
        0 <= k < pass_count(h.interlaced),
    ensures
        figures_before(h, 0) == Seq::<PassStats>::empty(),
        figures_of(h) == figures_before(h, if h.interlaced {
            7
        } else {
            1
        }),
        pass_width(h, k) == 0 || pass_height(h, k) == 0 ==> figures_before(h, k + 1) == figures_before(h, k),
        pass_width(h, k) > 0 && pass_height(h, k) > 0 ==> {
            let (was, is) = (figures_before(h, k), figures_before(h, k + 1));
            let p = is.last();
            &&& is.len() == was.len() + 1
            &&& is.drop_last() == was
            &&& p.index == k
            &&& p.width == pass_width(h, k) && p.height == pass_height(h, k)
            &&& p.row_bytes == pass_row_len(h, k)
            &&& p.filtered_len == pass_height(h, k) * (1 + pass_row_len(h, k))
        },
{
    pass_bounds(h, k);
    let (height, row) = (pass_height(h, k), pass_row_len(h, k));
    if pass_width(h, k) > 0 && height > 0 {
        assert(row + 1 <= height * (row + 1)) by (nonlinear_arith)
            requires
                height >= 1,
                row >= 0,
        ;
        assert(pass_len(h, k) == height * (row + 1));
        assert(figures_before(h, k + 1).drop_last() =~= figures_before(h, k));
    }
}

/// Why filters were not counted: over the budget where the decoded image is larger; implausible where it is
/// also past the decoder's default budget and would inflate to over 64 times its length; corrupt where it does not inflate;
/// and otherwise of another length, or with a byte that names no filter.
pub proof fn why_filters_were_not_counted(
    scan: FilterScan,
    h: Ihdr,
    idat: Seq<u8>,
    filtered_len: int,
    passes: Seq<PassStats>,
    max_image_bytes: int,
)
    requires
        is_scan_of(scan, h, idat, filtered_len, passes, max_image_bytes),
    ensures
        ({
            let bytes = h.width * h.height * h.color.spec_channels() * (if h.bit_depth == 16 {
                2int
            } else {
                1
            });
            let over = bytes > max_image_bytes;
            let wild = bytes > DEFAULT_MAX_IMAGE_BYTES && filtered_len > 64 * idat.len();
            let inflated = crate::zlib::zlib_contents(idat, filtered_len);
            &&& over <==> scan == FilterScan::Skipped(SkippedFilterScan::OverBudget)
            &&& !over && wild <==> scan == FilterScan::Skipped(SkippedFilterScan::ImplausibleInflation)
            &&& !over && !wild && inflated is None <==> scan == FilterScan::Skipped(
                SkippedFilterScan::CorruptStream,
            )
            &&& !over && !wild && inflated is Some && inflated->0.len() != filtered_len <==> scan
                == FilterScan::Skipped(SkippedFilterScan::LengthMismatch)
            &&& !over && !wild && inflated is Some && inflated->0.len() == filtered_len && !codes_are_defined(
                all_codes(inflated->0, passes),
            ) <==> scan == FilterScan::Skipped(SkippedFilterScan::UndefinedFilterCode)
            &&& scan matches FilterScan::Counted(counted) ==> forall|f: FilterType|
                counted.spec_counts()[#[trigger] f.spec_code() as int] == all_codes(
                    inflated->0,
                    passes,
                ).filter(|x: u8| x == f.spec_code()).len()
        }),
{
    if let FilterScan::Counted(counted) = scan {
        let codes = all_codes(crate::zlib::zlib_contents(idat, filtered_len)->0, passes);
        assert forall|f: FilterType| counted.spec_counts()[#[trigger] f.spec_code() as int] == codes.filter(
            |x: u8| x == f.spec_code(),
        ).len() by {
            let c = f.spec_code() as int;
            assert(counted.spec_counts()[c] == occurrences(codes, c as u8));
            occurrences_are_counted(codes, f.spec_code());
        }
    }
}

} // verus!
