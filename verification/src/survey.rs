//! The walk that classifies every byte of a file.
use crate::adam7::{
    expected_stream_len, pass_bounds, pass_count, pass_height, pass_is_empty, pass_len,
    pass_row_len, stream_fits, stream_len,
};
use crate::bytes::append;
use crate::chunk::{
    chunk_at, framing_fault, same_type, signature, ChunkModel, ChunkReader, RawChunk, IDAT, IEND,
    IHDR,
};
use crate::decoded::PngHeader;
use crate::decoder::DEFAULT_MAX_IMAGE_BYTES;
use crate::deconstruct::{
    framing_sum, segment_models, sum_of, tally_step, tiles, type_position, type_position_is_first,
    ChunkTally, FilterScan, KindModel, PassStats, PngReport, Segment, SegmentKind, SegmentModel,
    SkippedFilterScan, StatsModel, FRAMING,
};
use crate::error::{Cause, Error};
use crate::ihdr::{ihdr_fault, ihdr_of, parse, Ihdr};
use crate::parse::error_of;
use crate::scan::{
    a_scan_counts_every_row, figures_add_up, figures_before, figures_fit, figures_len, figures_of,
    fits_budget, is_scan_of, pass_stats, row_sum, scan_filters,
};
use vstd::prelude::*;

verus! {

/// The chunk-count ceiling a default [`deconstruct`] walk observes.
pub const DEFAULT_MAX_CHUNKS: usize = 0x10_0000;

/// The ceilings a [`deconstruct`] walk observes on quantities the input chooses.
#[derive(Debug, Clone, Copy, PartialEq, Eq, Structural)]
#[non_exhaustive]
pub struct DeconstructLimits {
    /// The largest decoded image, in bytes, whose IDAT stream is worth inflating to count filters.
    /// Above it the scan is skipped and every other figure is still reported.
    pub max_image_bytes: usize,
    /// The largest number of chunks the walk admits, IHDR included.
    pub max_chunks: usize,
}

impl Default for DeconstructLimits {
    /// The decoder's default image budget, and [`DEFAULT_MAX_CHUNKS`].
    fn default() -> (limits: Self)
        ensures
            limits.max_image_bytes == DEFAULT_MAX_IMAGE_BYTES,
            limits.max_chunks == DEFAULT_MAX_CHUNKS,
    {
        DeconstructLimits {
            max_image_bytes: DEFAULT_MAX_IMAGE_BYTES,
            max_chunks: DEFAULT_MAX_CHUNKS,
        }
    }
}

impl DeconstructLimits {
    /// Sets the image budget.
    #[must_use]
    pub fn with_max_image_bytes(self, bytes: usize) -> (limits: Self)
        ensures
            limits == (DeconstructLimits { max_image_bytes: bytes, ..self }),
    {
        DeconstructLimits { max_image_bytes: bytes, max_chunks: self.max_chunks }
    }

    /// Sets the chunk ceiling.
    #[must_use]
    pub fn with_max_chunks(self, chunks: usize) -> (limits: Self)
        ensures
            limits == (DeconstructLimits { max_chunks: chunks, ..self }),
    {
        DeconstructLimits { max_image_bytes: self.max_image_bytes, max_chunks: chunks }
    }
}

/// What a walk has seen: the segments, the totals per chunk type, and the compressed image data.
pub struct Survey {
    pub segments: Seq<SegmentModel>,
    pub stats: Seq<StatsModel>,
    pub idat: Seq<u8>,
}

/// A walk at the end of the signature.
pub open spec fn signature_seen() -> Survey {
    Survey {
        segments: seq![SegmentModel { start: 0, end: 8, kind: KindModel::Signature }],
        stats: Seq::empty(),
        idat: Seq::empty(),
    }
}

/// The segment of a chunk.
pub open spec fn chunk_segment(c: ChunkModel) -> SegmentModel {
    SegmentModel {
        start: c.start,
        end: c.end,
        kind: KindModel::Chunk {
            chunk_type: c.chunk_type,
            payload_len: c.data.len() as int,
            crc_ok: c.crc_ok,
        },
    }
}

/// The walk with one more chunk.
pub open spec fn survey_step(s: Survey, c: ChunkModel) -> Survey {
    Survey {
        segments: s.segments.push(chunk_segment(c)),
        stats: tally_step(s.stats, c.chunk_type, c.data.len() as int),
        idat: if c.chunk_type == IDAT@ {
            s.idat + c.data
        } else {
            s.idat
        },
    }
}

/// The walk with one more run that is no chunk.
pub open spec fn with_run(s: Survey, start: int, end: int, kind: KindModel) -> Survey {
    Survey { segments: s.segments.push(SegmentModel { start, end, kind }), ..s }
}

/// How many chunks a walk has seen: everything but the signature.
pub open spec fn chunks_seen(s: Survey) -> int {
    s.segments.len() - 1
}

/// The walk from `at` to the end of the file, or `None` where it meets more chunks than admitted.
pub open spec fn survey_from(png: Seq<u8>, at: int, s: Survey, max_chunks: int) -> Option<Survey>
    decreases png.len() - at,
{
    if at >= png.len() {
        Some(s)
    } else if framing_fault(png, at) is Some {
        Some(with_run(s, at, png.len() as int, KindModel::Truncated))
    } else {
        let c = chunk_at(png, at);
        let next = survey_step(s, c);
        if chunks_seen(next) > max_chunks {
            None
        } else if c.chunk_type == IEND@ {
            if c.end < png.len() {
                Some(with_run(next, c.end, png.len() as int, KindModel::Trailer))
            } else {
                Some(next)
            }
        } else if c.end <= at {
            None
        } else {
            survey_from(png, c.end, next, max_chunks)
        }
    }
}

/// The header of a file and the walk over all of it.
pub open spec fn surveyed(png: Seq<u8>, max_chunks: int) -> Result<(Ihdr, Survey), Error> {
    if !signature().is_prefix_of(png) {
        Err(Error { cause: Cause::BadSignature, offset: Some(0) })
    } else if png.len() == 8 {
        Err(error_of(Cause::NoFirstChunk))
    } else {
        match framing_fault(png, 8) {
            Some(cause) => Err(Error { cause, offset: Some(8) }),
            None => {
                let first = chunk_at(png, 8);
                if first.chunk_type != IHDR@ {
                    Err(error_of(Cause::HeaderNotFirst))
                } else {
                    match ihdr_fault(first.data) {
                        Some(cause) => Err(error_of(cause)),
                        None => match survey_from(png, 8, signature_seen(), max_chunks) {
                            Some(s) => Ok((ihdr_of(first.data), s)),
                            None => Err(error_of(Cause::TooManyChunks)),
                        },
                    }
                }
            },
        }
    }
}

/// The payload bytes of chunk totals.
pub open spec fn payload_sum(stats: Seq<StatsModel>) -> int
    decreases stats.len(),
{
    if stats.len() == 0 {
        0
    } else {
        payload_sum(stats.drop_last()) + stats.last().payload_bytes
    }
}

/// The payload bytes of one chunk type.
pub open spec fn payload_of(stats: Seq<StatsModel>, chunk_type: Seq<u8>) -> int {
    let p = type_position(stats, chunk_type);
    if p < stats.len() {
        stats[p].payload_bytes
    } else {
        0
    }
}

/// The chunks of one type that totals count.
pub open spec fn count_of(stats: Seq<StatsModel>, chunk_type: Seq<u8>) -> int {
    let p = type_position(stats, chunk_type);
    if p < stats.len() {
        stats[p].count
    } else {
        0
    }
}

/// The chunks of one type among segments.
pub open spec fn chunks_among(segments: Seq<SegmentModel>, of: Seq<u8>) -> int
    decreases segments.len(),
{
    if segments.len() == 0 {
        0
    } else {
        chunks_among(segments.drop_last(), of) + match segments.last().kind {
            KindModel::Chunk { chunk_type, .. } if chunk_type == of => 1int,
            _ => 0,
        }
    }
}

/// The payload bytes of one chunk type among segments.
pub open spec fn payload_among(segments: Seq<SegmentModel>, of: Seq<u8>) -> int
    decreases segments.len(),
{
    if segments.len() == 0 {
        0
    } else {
        payload_among(segments.drop_last(), of) + match segments.last().kind {
            KindModel::Chunk { chunk_type, payload_len, .. } if chunk_type == of => payload_len,
            _ => 0,
        }
    }
}

/// The bytes of a last segment that is no chunk: a trailer or a truncated tail.
pub open spec fn tail_len(segments: Seq<SegmentModel>) -> int {
    if segments.len() > 0 && (segments.last().kind is Trailer || segments.last().kind is Truncated) {
        segments.last().end - segments.last().start
    } else {
        0
    }
}

/// Whether totals are those of the segments: each type has one entry, and its count and bytes are those
/// of its chunks.
pub open spec fn totals_of(stats: Seq<StatsModel>, segments: Seq<SegmentModel>) -> bool {
    &&& forall|t: Seq<u8>| #[trigger] count_of(stats, t) == chunks_among(segments, t)
    &&& forall|t: Seq<u8>| #[trigger] payload_of(stats, t) == payload_among(segments, t)
    &&& forall|i: int, j: int|
        0 <= i < j < stats.len() ==> (#[trigger] stats[i]).chunk_type != (
        #[trigger] stats[j]).chunk_type
    &&& forall|i: int|
        0 <= i < stats.len() ==> (#[trigger] stats[i]).count >= 1 && stats[i].payload_bytes >= 0
}

/// Whether a walk accounts for the bytes before `at`: the segments cover them without gap or
/// overlap, signature, framing and payloads add up to them, and the totals are those of the segments.
#[verifier::opaque]
pub open spec fn accounts_for(s: Survey, at: int) -> bool {
    &&& s.segments.len() >= 1
    &&& tiles(s.segments, 0, at)
    &&& 8 + framing_sum(s.stats) + payload_sum(s.stats) == at
    &&& framing_sum(s.stats) == chunks_seen(s) * FRAMING
    &&& payload_of(s.stats, IDAT@) == s.idat.len()
    &&& totals_of(s.stats, s.segments)
    &&& tail_len(s.segments) == 0
}

/// Changing one entry changes the sums by the difference.
proof fn sums_after_update(stats: Seq<StatsModel>, p: int, entry: StatsModel)
    requires
        0 <= p < stats.len(),
    ensures
        framing_sum(stats.update(p, entry)) == framing_sum(stats) + (entry.count - stats[p].count)
            * FRAMING,
        payload_sum(stats.update(p, entry)) == payload_sum(stats) + entry.payload_bytes
            - stats[p].payload_bytes,
    decreases stats.len(),
{
    let after = stats.update(p, entry);
    if p == stats.len() - 1 {
        assert(after.drop_last() =~= stats.drop_last());
    } else {
        assert(after.drop_last() =~= stats.drop_last().update(p, entry));
        assert(after.last() == stats.last());
        sums_after_update(stats.drop_last(), p, entry);
    }
}

/// One more chunk adds its framing and its payload.
proof fn a_step_adds_a_chunk(stats: Seq<StatsModel>, chunk_type: Seq<u8>, payload_len: int)
    ensures
        ({
            let after = tally_step(stats, chunk_type, payload_len);
            &&& framing_sum(after) == framing_sum(stats) + FRAMING
            &&& payload_sum(after) == payload_sum(stats) + payload_len
        }),
{
    let p = type_position(stats, chunk_type);
    type_position_is_first(stats, chunk_type);
    let after = tally_step(stats, chunk_type, payload_len);
    if p < stats.len() {
        sums_after_update(stats, p, after[p]);
    } else {
        assert(after.drop_last() =~= stats);
    }
}

/// One more chunk adds to the totals of its own type and of no other.
proof fn a_step_adds_to_its_type(
    stats: Seq<StatsModel>,
    chunk_type: Seq<u8>,
    payload_len: int,
    other: Seq<u8>,
)
    ensures
        payload_of(tally_step(stats, chunk_type, payload_len), other) == payload_of(stats, other)
            + (if other == chunk_type {
            payload_len
        } else {
            0
        }),
        count_of(tally_step(stats, chunk_type, payload_len), other) == count_of(stats, other) + (
        if other == chunk_type {
            1int
        } else {
            0
        }),
{
    let after = tally_step(stats, chunk_type, payload_len);
    let p = type_position(stats, chunk_type);
    let q = type_position(stats, other);
    let r = type_position(after, other);
    type_position_is_first(stats, chunk_type);
    type_position_is_first(stats, other);
    type_position_is_first(after, other);
    assert forall|i: int| 0 <= i < stats.len() implies (#[trigger] after[i]).chunk_type
        == stats[i].chunk_type by {}
    if q < stats.len() {
        assert(after[q].chunk_type == other);
        if r < q {
            assert(stats[r].chunk_type == after[r].chunk_type);
        }
        assert(r == q);
    } else if other == chunk_type {
        assert(after.last().chunk_type == other);
        assert(after.len() == stats.len() + 1);
        if r < stats.len() {
            assert(stats[r].chunk_type == after[r].chunk_type);
        }
        assert(r == stats.len());
    } else if r < after.len() {
        if r < stats.len() {
            assert(stats[r].chunk_type == after[r].chunk_type);
        }
        assert(after[r].chunk_type == other);
        assert(false);
    }
}

/// An entry is no larger than the sums.
proof fn an_entry_is_bounded(stats: Seq<StatsModel>, i: int)
    requires
        0 <= i < stats.len(),
        forall|j: int|
            0 <= j < stats.len() ==> (#[trigger] stats[j]).count >= 1 && stats[j].payload_bytes
                >= 0,
    ensures
        stats[i].count * FRAMING <= framing_sum(stats),
        stats[i].payload_bytes <= payload_sum(stats),
    decreases stats.len(),
{
    let rest = stats.drop_last();
    assert forall|j: int| 0 <= j < rest.len() implies (#[trigger] rest[j]).count >= 1
        && rest[j].payload_bytes >= 0 by {
        assert(rest[j] == stats[j]);
    }
    sums_are_natural(rest);
    if i < rest.len() {
        an_entry_is_bounded(rest, i);
        assert(rest[i] == stats[i]);
    }
    assert(stats.last().count >= 1);
}

proof fn sums_are_natural(stats: Seq<StatsModel>)
    requires
        forall|j: int|
            0 <= j < stats.len() ==> (#[trigger] stats[j]).count >= 1 && stats[j].payload_bytes
                >= 0,
    ensures
        framing_sum(stats) >= 0,
        payload_sum(stats) >= 0,
    decreases stats.len(),
{
    if stats.len() > 0 {
        let rest = stats.drop_last();
        assert forall|j: int| 0 <= j < rest.len() implies (#[trigger] rest[j]).count >= 1
            && rest[j].payload_bytes >= 0 by {
            assert(rest[j] == stats[j]);
        }
        sums_are_natural(rest);
        assert(stats.last().count >= 1);
    }
}

/// A chunk taken up keeps the account.
proof fn a_chunk_is_accounted(png: Seq<u8>, at: int, s: Survey)
    requires
        8 <= at < png.len(),
        framing_fault(png, at) is None,
        accounts_for(s, at),
    ensures
        accounts_for(survey_step(s, chunk_at(png, at)), chunk_at(png, at).end),
        at + FRAMING <= chunk_at(png, at).end <= png.len(),
{
    reveal(accounts_for);
    let c = chunk_at(png, at);
    let next = survey_step(s, c);
    let len = c.data.len() as int;
    assert(next.segments.drop_last() =~= s.segments);
    a_step_adds_a_chunk(s.stats, c.chunk_type, len);
    a_step_adds_to_its_type(s.stats, c.chunk_type, len, IDAT@);
    totals_take_up_a_chunk(s, c);
}

/// The totals of one more chunk are those of one more segment.
proof fn totals_take_up_a_chunk(s: Survey, c: ChunkModel)
    requires
        totals_of(s.stats, s.segments),
    ensures
        totals_of(survey_step(s, c).stats, survey_step(s, c).segments),
{
    let next = survey_step(s, c);
    let len = c.data.len() as int;
    assert(next.segments.drop_last() =~= s.segments);
    assert forall|t: Seq<u8>| #[trigger]
        count_of(next.stats, t) == chunks_among(next.segments, t) by {
        a_step_adds_to_its_type(s.stats, c.chunk_type, len, t);
        assert(count_of(s.stats, t) == chunks_among(s.segments, t));
    }
    assert forall|t: Seq<u8>| #[trigger]
        payload_of(next.stats, t) == payload_among(next.segments, t) by {
        a_step_adds_to_its_type(s.stats, c.chunk_type, len, t);
        assert(payload_of(s.stats, t) == payload_among(s.segments, t));
    }
    type_position_is_first(s.stats, c.chunk_type);
    assert forall|i: int| 0 <= i < next.stats.len() implies (#[trigger] next.stats[i]).count >= 1
        && next.stats[i].payload_bytes >= 0 by {
        if i < s.stats.len() {
            assert(s.stats[i].count >= 1);
        }
    }
    assert forall|i: int, j: int| 0 <= i < j < next.stats.len() implies (
    #[trigger] next.stats[i]).chunk_type != (#[trigger] next.stats[j]).chunk_type by {
        assert(next.stats[i].chunk_type == s.stats[i].chunk_type);
        if j < s.stats.len() {
            assert(next.stats[j].chunk_type == s.stats[j].chunk_type);
        }
    }
}

/// What is accounted for is covered.
proof fn an_account_covers(s: Survey, at: int)
    requires
        accounts_for(s, at),
    ensures
        covers(s, at),
        tail_len(s.segments) == 0,
        chunks_counted(s) == chunks_seen(s),
{
    reveal(accounts_for);
    sums_are_natural(s.stats);
    let p = type_position(s.stats, IDAT@);
    type_position_is_first(s.stats, IDAT@);
    if p < s.stats.len() {
        an_entry_is_bounded(s.stats, p);
    }
}

/// A last run that is no chunk extends the cover.
proof fn a_run_covers(s: Survey, start: int, end: int, kind: KindModel)
    requires
        covers(s, start),
        tail_len(s.segments) == 0,
        start < end,
        kind is Trailer || kind is Truncated,
    ensures
        covers(with_run(s, start, end, kind), end),
{
    let next = with_run(s, start, end, kind);
    assert(next.segments.drop_last() =~= s.segments);
    assert forall|t: Seq<u8>| #[trigger]
        count_of(next.stats, t) == chunks_among(next.segments, t) by {
        assert(count_of(s.stats, t) == chunks_among(s.segments, t));
    }
    assert forall|t: Seq<u8>| #[trigger]
        payload_of(next.stats, t) == payload_among(next.segments, t) by {
        assert(payload_of(s.stats, t) == payload_among(s.segments, t));
    }
}

proof fn a_walk_accounts_for_the_file(png: Seq<u8>, at: int, s: Survey, max_chunks: int)
    requires
        8 <= at <= png.len(),
        accounts_for(s, at),
        chunks_seen(s) <= max_chunks || at < png.len() && framing_fault(png, at) is None,
    ensures
        survey_from(png, at, s, max_chunks) matches Some(t) ==> covers(t, png.len() as int)
            && chunks_counted(t) <= max_chunks,
    decreases png.len() - at,
{
    an_account_covers(s, at);
    if at < png.len() {
        if framing_fault(png, at) is Some {
            a_run_covers(s, at, png.len() as int, KindModel::Truncated);
        } else {
            let c = chunk_at(png, at);
            let next = survey_step(s, c);
            a_chunk_is_accounted(png, at, s);
            an_account_covers(next, c.end);
            if chunks_seen(next) <= max_chunks {
                if c.chunk_type == IEND@ {
                    if c.end < png.len() {
                        a_run_covers(next, c.end, png.len() as int, KindModel::Trailer);
                    }
                } else {
                    a_walk_accounts_for_the_file(png, c.end, next, max_chunks);
                }
            }
        }
    }
}

/// The chunks of the totals.
pub open spec fn chunks_counted(s: Survey) -> int {
    framing_sum(s.stats) / (FRAMING as int)
}

/// Whether a finished walk classifies every byte of a file of the given length.
pub open spec fn covers(s: Survey, file_len: int) -> bool {
    &&& tiles(s.segments, 0, file_len)
    &&& 8 + framing_sum(s.stats) + payload_sum(s.stats) + tail_len(s.segments) == file_len
    &&& tail_len(s.segments) >= 0
    &&& totals_of(s.stats, s.segments)
    &&& payload_of(s.stats, IDAT@) == s.idat.len()
    &&& s.idat.len() <= payload_sum(s.stats)
    &&& framing_sum(s.stats) >= 0
}

/// **Every byte is classified.** The segments of a report tile the file: the first starts at 0, each
/// ends where the next starts, none is empty, and the last ends at the end of the file. Signature,
/// framing, payloads and the tail add up to the file. The totals of each chunk type are those of its
/// segments, the image data is what the IDAT totals say, and the totals count no more chunks than the
/// walk admits.
pub proof fn every_byte_is_classified(png: Seq<u8>, max_chunks: int)
    ensures
        surveyed(png, max_chunks) matches Ok((_, s)) ==> covers(s, png.len() as int)
            && chunks_counted(s) <= max_chunks,
{
    if surveyed(png, max_chunks) is Ok {
        signature_is_accounted();
        reveal(accounts_for);
        a_walk_accounts_for_the_file(png, 8, signature_seen(), max_chunks);
    }
}

/// The figures of the passes are consistent, and their rows are no more than a `u32` counts.
proof fn figures_are_consistent(h: Ihdr, k: int)
    requires
        h.wf(),
        stream_fits(h),
        0 <= k <= pass_count(h.interlaced),
    ensures
        figures_fit(figures_before(h, k)),
        row_sum(figures_before(h, k)) <= rows_before(h, k),
    decreases k,
{
    if k > 0 {
        figures_are_consistent(h, k - 1);
        pass_bounds(h, k - 1);
        let list = figures_before(h, k);
        let rest = figures_before(h, k - 1);
        if !pass_is_empty(h, k - 1) {
            assert(list.drop_last() =~= rest);
            let height = pass_height(h, k - 1);
            let row = pass_row_len(h, k - 1);
            assert(pass_len(h, k - 1) == height * (row + 1));
            assert(row + 1 <= height * (row + 1)) by (nonlinear_arith)
                requires
                    height >= 1,
                    row >= 0,
            ;
            assert forall|i: int| 0 <= i < list.len() implies (#[trigger] list[i]).filtered_len
                == list[i].height * (list[i].row_bytes + 1) by {
                if i < rest.len() {
                    assert(list[i] == rest[i]);
                }
            }
        }
    }
}

/// The rows of the passes before `k`, empty ones included.
pub open spec fn rows_before(h: Ihdr, k: int) -> int
    decreases k,
{
    if k <= 0 {
        0
    } else {
        rows_before(h, k - 1) + pass_height(h, k - 1)
    }
}

/// The rows of all passes fit a `u32`.
proof fn rows_fit(h: Ihdr)
    requires
        h.wf(),
    ensures
        rows_before(h, pass_count(h.interlaced)) <= u32::MAX,
{
    reveal_with_fuel(rows_before, 8);
}

/// What the parts of a walk hold.
pub open spec fn survey_of(segments: Seq<Segment>, tally: ChunkTally, idat: Seq<u8>) -> Survey {
    Survey { segments: segment_models(segments), stats: tally.models(), idat }
}

/// Takes up one chunk, and tells whether it is still within the ceiling.
fn take_chunk(
    segments: &mut Vec<Segment>,
    tally: &mut ChunkTally,
    idat: &mut Vec<u8>,
    chunk: &RawChunk<'_>,
    max_chunks: usize,
    png: Ghost<Seq<u8>>,
) -> (admitted: bool)
    requires
        8 <= chunk@.start < png@.len() <= isize::MAX,
        framing_fault(png@, chunk@.start) is None,
        chunk@ == chunk_at(png@, chunk@.start),
        old(tally).wf(),
        old(tally).probes == old(segments)@.len() - 1,
        accounts_for(survey_of(old(segments)@, *old(tally), old(idat)@), chunk@.start),
    ensures
        final(tally).wf(),
        final(tally).probes == final(segments)@.len() - 1,
        survey_of(final(segments)@, *final(tally), final(idat)@) == survey_step(
            survey_of(old(segments)@, *old(tally), old(idat)@),
            chunk@,
        ),
        accounts_for(survey_of(final(segments)@, *final(tally), final(idat)@), chunk@.end),
        chunk@.start + FRAMING <= chunk@.end <= png@.len(),
        admitted == (final(segments)@.len() - 1 <= max_chunks),
{
    let ghost before = survey_of(segments@, *tally, idat@);
    let ghost segments0 = segments@;
    proof {
        reveal(accounts_for);
        a_chunk_is_accounted(png@, chunk@.start, before);
        sums_are_natural(before.stats);
        assert forall|i: int| 0 <= i < tally.stats@.len() implies (#[trigger] tally.stats@[i]).count
            < usize::MAX && tally.stats@[i].payload_bytes + chunk.data@.len() <= usize::MAX by {
            an_entry_is_bounded(before.stats, i);
            assert(before.stats[i] == tally.stats@[i]@);
        }
        assert(chunk.data@.len() < 0x8000_0000);
    }
    if same_type(chunk.chunk_type, IDAT) {
        append(idat, chunk.data);
    }
    segments.push(
        Segment {
            start: chunk.start,
            end: chunk.end,
            kind: SegmentKind::Chunk {
                chunk_type: chunk.chunk_type,
                payload_len: chunk.data.len(),
                crc_ok: chunk.crc_ok,
            },
        },
    );
    tally.record(chunk.chunk_type, chunk.data.len());
    proof {
        let after = survey_of(segments@, *tally, idat@);
        assert(segments@.last()@ == chunk_segment(chunk@));
        assert(after.segments =~= before.segments.push(chunk_segment(chunk@)));
        assert(after.idat =~= survey_step(before, chunk@).idat);
    }
    segments.len() - 1 <= max_chunks
}

/// Whether a report says what the walk over a file found.
pub open spec fn reports(
    report: PngReport,
    png: Seq<u8>,
    h: Ihdr,
    s: Survey,
    max_image_bytes: int,
) -> bool {
    &&& report.file_len == png.len()
    &&& report.header == (PngHeader {
        width: h.width,
        height: h.height,
        bit_depth: h.bit_depth,
        color_type: h.color,
        interlaced: h.interlaced,
    })
    &&& report.segment_models() == s.segments
    &&& report.stats_models() == s.stats
    &&& report.idat_compressed == s.idat.len()
    &&& report.filtered_len == (if stream_fits(h) {
        stream_len(h)
    } else {
        0
    })
    &&& report.passes@ == figures_of(h)
    &&& is_scan_of(
        report.filters,
        h,
        s.idat,
        report.filtered_len as int,
        figures_of(h),
        max_image_bytes,
    )
}

/// Walks every chunk of a file: the segments, the totals, the compressed image data, or nothing where
/// the ceiling is passed.
fn walk_chunks<'a>(
    reader: ChunkReader<'a>,
    first: RawChunk<'a>,
    file_len: usize,
    max_chunks: usize,
) -> (walked: Option<(Vec<Segment>, ChunkTally, Vec<u8>)>)
    requires
        reader.wf(),
        8 < reader.input().len() == file_len,
        framing_fault(reader.input(), 8) is None,
        first@ == chunk_at(reader.input(), 8),
        first@.chunk_type == IHDR@,
        reader.spec_offset() == first@.end,
    ensures
        match survey_from(reader.input(), 8, signature_seen(), max_chunks as int) {
            None => walked is None,
            Some(s) => walked matches Some(w) && survey_of(w.0@, w.1, w.2@) == s,
        },
{
    let ghost png = reader.input();
    let ghost whole = survey_from(png, 8, signature_seen(), max_chunks as int);
    let mut cursor: ChunkReader<'a> = reader;
    let mut segments: Vec<Segment> = Vec::new();
    segments.push(Segment { start: 0, end: 8, kind: SegmentKind::Signature });
    let mut tally: ChunkTally = ChunkTally::new();
    let mut idat: Vec<u8> = Vec::new();
    proof {
        let s = survey_of(segments@, tally, idat@);
        assert(s.segments =~= signature_seen().segments);
        assert(s.stats =~= signature_seen().stats);
        assert(s.idat =~= signature_seen().idat);
        assert(s == signature_seen());
        signature_is_accounted();
        assert(IHDR@[1] != IEND@[1]);
    }
    if !take_chunk(&mut segments, &mut tally, &mut idat, &first, max_chunks, Ghost(png)) {
        return None;
    }
    loop
        invariant_except_break
            cursor.wf(),
            cursor.input() == png,
            png == reader.input(),
            png.len() == file_len,
            tally.wf(),
            tally.probes == segments@.len() - 1,
            segments@.len() - 1 <= max_chunks,
            accounts_for(survey_of(segments@, tally, idat@), cursor.spec_offset()),
            whole == survey_from(
                png,
                cursor.spec_offset(),
                survey_of(segments@, tally, idat@),
                max_chunks as int,
            ),
            whole == survey_from(png, 8, signature_seen(), max_chunks as int),
        ensures
            whole == survey_from(png, 8, signature_seen(), max_chunks as int),
            whole == Some(survey_of(segments@, tally, idat@)),
        decreases png.len() - cursor.spec_offset(),
    {
        let ghost at = cursor.spec_offset();
        let ghost s = survey_of(segments@, tally, idat@);
        match cursor.next_chunk() {
            Ok(None) => {
                break;
            },
            Err(_) => {
                let start: usize = cursor.offset();
                segments.push(Segment { start, end: file_len, kind: SegmentKind::Truncated });
                assert(segment_models(segments@) =~= with_run(
                    s,
                    at,
                    png.len() as int,
                    KindModel::Truncated,
                ).segments);
                break;
            },
            Ok(Some(chunk)) => {
                let admitted: bool = take_chunk(
                    &mut segments,
                    &mut tally,
                    &mut idat,
                    &chunk,
                    max_chunks,
                    Ghost(png),
                );
                if !admitted {
                    return None;
                }
                if same_type(chunk.chunk_type, IEND) {
                    if chunk.end < file_len {
                        let ghost next = survey_of(segments@, tally, idat@);
                        segments.push(
                            Segment { start: chunk.end, end: file_len, kind: SegmentKind::Trailer },
                        );
                        assert(segment_models(segments@) =~= with_run(
                            next,
                            chunk@.end,
                            png.len() as int,
                            KindModel::Trailer,
                        ).segments);
                    }
                    break;
                }
            },
        }
    }
    Some((segments, tally, idat))
}

/// The signature is accounted for.
proof fn signature_is_accounted()
    ensures
        accounts_for(signature_seen(), 8),
{
    reveal(accounts_for);
    reveal_with_fuel(tiles, 2);
    reveal_with_fuel(chunks_among, 2);
    reveal_with_fuel(payload_among, 2);
    assert(signature_seen().segments.drop_last() =~= Seq::<SegmentModel>::empty());
}

/// [`deconstruct`], under caller-chosen [`DeconstructLimits`].
pub fn deconstruct_with_limits(png: &[u8], limits: DeconstructLimits) -> (report: Result<
    PngReport,
    Error,
>)
    ensures
        match surveyed(png@, limits.max_chunks as int) {
            Err(e) => report matches Err(f) && f == e,
            Ok((h, s)) => report matches Ok(r) && reports(
                r,
                png@,
                h,
                s,
                limits.max_image_bytes as int,
            ),
        },
{
    let mut reader: ChunkReader<'_> = match ChunkReader::new(png) {
        Ok(reader) => reader,
        Err(e) => {
            return Err(e);
        },
    };
    let first: RawChunk<'_> = match reader.next_chunk() {
        Err(e) => {
            return Err(e);
        },
        Ok(None) => {
            return Err(Error::new(Cause::NoFirstChunk));
        },
        Ok(Some(chunk)) => chunk,
    };
    if !same_type(first.chunk_type, IHDR) {
        return Err(Error::new(Cause::HeaderNotFirst));
    }
    let native: Ihdr = match parse(first.data) {
        Ok(native) => native,
        Err(e) => {
            return Err(e);
        },
    };
    let walked: Option<(Vec<Segment>, ChunkTally, Vec<u8>)> = walk_chunks(
        reader,
        first,
        png.len(),
        limits.max_chunks,
    );
    let (segments, tally, idat) = match walked {
        Some(walked) => walked,
        None => {
            return Err(Error::new(Cause::TooManyChunks));
        },
    };
    let passes: Vec<PassStats> = pass_stats(&native);
    let filtered_len: usize = match expected_stream_len(&native) {
        Some(len) => len,
        None => 0,
    };
    proof {
        if stream_fits(native) {
            figures_add_up(native);
            figures_are_consistent(native, pass_count(native.interlaced));
            rows_fit(native);
        }
    }
    let filters: FilterScan = scan_filters(
        &native,
        idat.as_slice(),
        filtered_len,
        &passes,
        limits.max_image_bytes,
    );
    let header: PngHeader = PngHeader {
        width: native.width,
        height: native.height,
        bit_depth: native.bit_depth,
        color_type: native.color,
        interlaced: native.interlaced,
    };
    Ok(
        PngReport {
            file_len: png.len(),
            header,
            segments,
            chunks: tally.into_stats(),
            idat_compressed: idat.len(),
            filtered_len,
            passes,
            filters,
        },
    )
}

/// Classifies every byte of a PNG, under the default limits.
///
/// Pixels are never reconstructed: the walk reads chunk framing and the IHDR, and inflates IDAT only
/// to read one filter byte per scanline. A bad signature, no first chunk, a first chunk that is not
/// IHDR, an invalid IHDR and more chunks than the ceiling admits are errors; everything else is
/// reported.
pub fn deconstruct(png: &[u8]) -> (report: Result<PngReport, Error>)
    ensures
        match surveyed(png@, DEFAULT_MAX_CHUNKS as int) {
            Err(e) => report matches Err(f) && f == e,
            Ok((h, s)) => report matches Ok(r) && reports(
                r,
                png@,
                h,
                s,
                DEFAULT_MAX_IMAGE_BYTES as int,
            ),
        },
{
    deconstruct_with_limits(png, DeconstructLimits::default())
}

/// A report is fully classified, its figures add up to the file, its totals are those of its segments,
/// and every sum of it fits its type: every figure of it can be asked for.
pub proof fn a_report_is_fully_classified(
    png: Seq<u8>,
    limits: DeconstructLimits,
    report: PngReport,
)
    requires
        surveyed(png, limits.max_chunks as int) is Ok,
        reports(
            report,
            png,
            surveyed(png, limits.max_chunks as int)->Ok_0.0,
            surveyed(png, limits.max_chunks as int)->Ok_0.1,
            limits.max_image_bytes as int,
        ),
    ensures
        report.spec_is_fully_classified(),
        8 + framing_sum(report.stats_models()) + payload_sum(report.stats_models()) + tail_len(
            report.segment_models(),
        ) == report.file_len,
        totals_of(report.stats_models(), report.segment_models()),
        report.idat_compressed + framing_sum(report.stats_models()) + 8 <= report.file_len,
        report.idat_compressed == payload_of(report.stats_models(), IDAT@),
        forall|i: int|
            0 <= i < report.stats_models().len() ==> (#[trigger] report.stats_models()[i]).count
                * FRAMING + report.stats_models()[i].payload_bytes <= report.file_len,
        stream_fits(surveyed(png, limits.max_chunks as int)->Ok_0.0) ==> report.filtered_len
            == figures_len(report.passes@),
        report.filters matches FilterScan::Counted(histogram) ==> sum_of(histogram.spec_counts())
            == row_sum(report.passes@) && sum_of(histogram.spec_counts()) <= u32::MAX,
{
    every_byte_is_classified(png, limits.max_chunks as int);
    let (h, s) = surveyed(png, limits.max_chunks as int)->Ok_0;
    let stats = report.stats_models();
    assert forall|i: int| 0 <= i < stats.len() implies (#[trigger] stats[i]).count * FRAMING
        + stats[i].payload_bytes <= report.file_len by {
        an_entry_is_bounded(stats, i);
    }
    if stream_fits(h) {
        figures_add_up(h);
        figures_are_consistent(h, pass_count(h.interlaced));
        rows_fit(h);
    }
    if let FilterScan::Counted(histogram) = report.filters {
        a_scan_counts_every_row(
            histogram,
            h,
            s.idat,
            report.filtered_len as int,
            report.passes@,
            limits.max_image_bytes as int,
        );
    }
}

/// A scan is over budget exactly where the decoded image is larger than the budget, and within the
/// decoder's default budget no stream is refused for its inflation ratio.
pub proof fn a_refusal_to_read_is_about_the_reader(
    scan: FilterScan,
    h: Ihdr,
    idat: Seq<u8>,
    filtered_len: int,
    passes: Seq<PassStats>,
    max_image_bytes: int,
)
    requires
        is_scan_of(scan, h, idat, filtered_len, passes, max_image_bytes),
    ensures
        scan == FilterScan::Skipped(SkippedFilterScan::OverBudget) <==> !fits_budget(
            h,
            max_image_bytes,
        ),
        fits_budget(h, DEFAULT_MAX_IMAGE_BYTES as int) ==> scan != FilterScan::Skipped(
            SkippedFilterScan::ImplausibleInflation,
        ),
{
}

} // verus!
