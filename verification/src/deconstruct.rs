//! Where a PNG's bytes went: every byte of the file classified into a typed segment, and the
//! figures of each stage.
//!
//! Unknown chunks, CRC mismatches, a missing IEND, trailing bytes and a truncated tail are reported,
//! never errors. Only a file with no header to report on fails, and one with more chunks than the
//! walk admits.
use crate::bytes::{be32, read_be32};
use crate::chunk::{ancillary_type, same_type, IEND};
use crate::decoded::PngHeader;
use crate::filter::FilterType;
use crate::ihdr::decoded_bytes;
use std::collections::HashMap;
use vstd::prelude::*;

verus! {

broadcast use vstd::std_specs::hash::group_hash_axioms;

/// Chunk framing overhead: length, type and CRC (§5.3).
pub const FRAMING: usize = 12;

/// One contiguous run of the input file, tagged by what it holds.
#[derive(Debug, Clone, Copy, PartialEq, Eq)]
pub struct Segment {
    /// Where the run starts.
    pub start: usize,
    /// Where the run ends.
    pub end: usize,
    /// What the bytes are.
    pub kind: SegmentKind,
}

/// What a [`Segment`] holds.
#[derive(Debug, Clone, Copy, PartialEq, Eq)]
#[non_exhaustive]
pub enum SegmentKind {
    /// The 8-byte file signature. Always the first segment.
    Signature,
    /// One complete chunk.
    Chunk {
        /// The chunk's four-character type.
        chunk_type: [u8; 4],
        /// The declared payload length, framing excluded.
        payload_len: usize,
        /// Whether the stored CRC matched.
        crc_ok: bool,
    },
    /// Bytes after IEND.
    Trailer,
    /// From the first chunk header that does not frame to end of file.
    Truncated,
}

/// [`SegmentKind`] as values.
pub enum KindModel {
    Signature,
    Chunk { chunk_type: Seq<u8>, payload_len: int, crc_ok: bool },
    Trailer,
    Truncated,
}

/// [`Segment`] as values.
pub struct SegmentModel {
    pub start: int,
    pub end: int,
    pub kind: KindModel,
}

impl View for Segment {
    type V = SegmentModel;

    open spec fn view(&self) -> SegmentModel {
        SegmentModel {
            start: self.start as int,
            end: self.end as int,
            kind: match self.kind {
                SegmentKind::Signature => KindModel::Signature,
                SegmentKind::Chunk { chunk_type, payload_len, crc_ok } => KindModel::Chunk {
                    chunk_type: chunk_type@,
                    payload_len: payload_len as int,
                    crc_ok,
                },
                SegmentKind::Trailer => KindModel::Trailer,
                SegmentKind::Truncated => KindModel::Truncated,
            },
        }
    }
}

/// Segments as values.
pub open spec fn segment_models(segments: Seq<Segment>) -> Seq<SegmentModel> {
    segments.map_values(|s: Segment| s@)
}

/// Per-chunk-type totals.
#[derive(Debug, Clone, Copy, PartialEq, Eq)]
#[non_exhaustive]
pub struct ChunkStats {
    /// The chunk's four-character type.
    pub chunk_type: [u8; 4],
    /// How many chunks of this type the file carries.
    pub count: usize,
    /// Total payload bytes across those chunks, framing excluded.
    pub payload_bytes: usize,
}

/// [`ChunkStats`] as values.
pub struct StatsModel {
    pub chunk_type: Seq<u8>,
    pub count: int,
    pub payload_bytes: int,
}

impl View for ChunkStats {
    type V = StatsModel;

    open spec fn view(&self) -> StatsModel {
        StatsModel {
            chunk_type: self.chunk_type@,
            count: self.count as int,
            payload_bytes: self.payload_bytes as int,
        }
    }
}

/// Totals as values.
pub open spec fn stats_models(stats: Seq<ChunkStats>) -> Seq<StatsModel> {
    stats.map_values(|s: ChunkStats| s@)
}

impl ChunkStats {
    /// Framing bytes these chunks cost: 12 per chunk.
    pub fn framing_bytes(&self) -> (bytes: usize)
        requires
            self.count * FRAMING <= usize::MAX,
        ensures
            bytes == self.count * FRAMING,
    {
        self.count * FRAMING
    }

    /// Payload plus framing.
    pub fn total_bytes(&self) -> (bytes: usize)
        requires
            self.payload_bytes + self.count * FRAMING <= usize::MAX,
        ensures
            bytes == self.payload_bytes + self.count * FRAMING,
    {
        self.payload_bytes + self.framing_bytes()
    }

    /// Whether the type is ancillary, i.e. lowercase (§5.4).
    pub fn is_ancillary(&self) -> (ancillary: bool)
        ensures
            ancillary == ancillary_type(self.chunk_type@),
    {
        self.chunk_type[0] & 0x20 != 0
    }
}

/// One reduced image making up the filtered stream: an Adam7 pass, or the whole image.
#[derive(Debug, Clone, Copy, PartialEq, Eq, Structural)]
#[non_exhaustive]
pub struct PassStats {
    /// Pass index in transmission order; always 0 when the file is not interlaced.
    pub index: u8,
    /// The reduced image's width in pixels. Never zero.
    pub width: u32,
    /// The reduced image's height in pixels. Never zero.
    pub height: u32,
    /// Bytes per scanline excluding the filter-type byte.
    pub row_bytes: usize,
    /// This pass's contribution to the filtered stream: `height * (1 + row_bytes)`.
    pub filtered_len: usize,
}

/// How many scanlines chose each of the five filters, summed over every pass.
#[derive(Debug, Clone, Copy, PartialEq, Eq)]
pub struct FilterHistogram {
    counts: [u32; 5],
}

/// The sum of counts.
pub open spec fn sum_of(counts: Seq<u32>) -> int {
    counts[0] + counts[1] + counts[2] + counts[3] + counts[4]
}

impl FilterHistogram {
    /// The counts, by filter code.
    pub closed spec fn spec_counts(&self) -> Seq<u32> {
        self.counts@
    }

    /// A histogram of the given counts, by filter code.
    pub fn from_counts(counts: [u32; 5]) -> (histogram: Self)
        ensures
            histogram.spec_counts() == counts@,
    {
        FilterHistogram { counts }
    }

    /// Scanlines that chose `filter`.
    pub fn count(self, filter: FilterType) -> (count: u32)
        ensures
            count == self.spec_counts()[filter.spec_code() as int],
    {
        self.counts[filter.code() as usize]
    }

    /// Total scanlines.
    pub fn total(self) -> (total: u32)
        requires
            sum_of(self.spec_counts()) <= u32::MAX,
        ensures
            total == sum_of(self.spec_counts()),
    {
        self.counts[0] + self.counts[1] + self.counts[2] + self.counts[3] + self.counts[4]
    }
}

/// The outcome of the walk's filter scan: the counts, or why there are none.
#[derive(Debug, Clone, Copy, PartialEq, Eq)]
pub enum FilterScan {
    /// Every scanline's filter code was read.
    Counted(FilterHistogram),
    /// No counts, for the stated reason.
    Skipped(SkippedFilterScan),
}

/// Why a [`FilterScan`] carries no counts. The order of the reasons is permanent.
#[derive(Debug, Clone, Copy, PartialEq, Eq, Structural)]
#[non_exhaustive]
pub enum SkippedFilterScan {
    /// The image the header describes is larger than this reader's byte budget.
    OverBudget,
    /// The IDAT stream is not a valid zlib stream, is truncated, or inflates past the length the
    /// header implies.
    CorruptStream,
    /// The stream inflated, but to a different length than the header implies.
    LengthMismatch,
    /// A scanline's leading byte is not one of the five filter codes.
    UndefinedFilterCode,
    /// The image fits the budget but is past the decoder's default one, and the stream would inflate
    /// to more than sixty-four times its length.
    ImplausibleInflation,
}

impl SkippedFilterScan {
    /// Whether the missing counts mean the file is damaged, not merely unread.
    pub open spec fn spec_is_damage(self) -> bool {
        !(self is OverBudget || self is ImplausibleInflation)
    }

    /// Whether the missing counts mean the file is damaged: declining to inflate a stream is a
    /// statement about this reader, everything else about the file.
    pub fn is_damage(self) -> (damage: bool)
        ensures
            damage == self.spec_is_damage(),
    {
        match self {
            SkippedFilterScan::OverBudget | SkippedFilterScan::ImplausibleInflation => false,
            _ => true,
        }
    }
}

impl FilterScan {
    /// Whether the missing counts mean the file is damaged.
    pub open spec fn spec_is_damage(self) -> bool {
        self matches FilterScan::Skipped(reason) && reason.spec_is_damage()
    }

    /// The per-filter counts, if the scan ran.
    pub fn histogram(self) -> (histogram: Option<FilterHistogram>)
        ensures
            histogram == (match self {
                FilterScan::Counted(h) => Some(h),
                FilterScan::Skipped(_) => None,
            }),
    {
        match self {
            FilterScan::Counted(histogram) => Some(histogram),
            FilterScan::Skipped(_) => None,
        }
    }

    /// Why there are no counts, if there are none.
    pub fn skipped(self) -> (reason: Option<SkippedFilterScan>)
        ensures
            reason == (match self {
                FilterScan::Counted(_) => None,
                FilterScan::Skipped(r) => Some(r),
            }),
    {
        match self {
            FilterScan::Counted(_) => None,
            FilterScan::Skipped(reason) => Some(reason),
        }
    }

    /// Whether the scan actually ran.
    pub fn is_counted(self) -> (counted: bool)
        ensures
            counted == (self is Counted),
    {
        match self {
            FilterScan::Counted(_) => true,
            FilterScan::Skipped(_) => false,
        }
    }

    /// Whether the missing counts mean the file is damaged. A scan that ran is never damage.
    pub fn is_damage(self) -> (damage: bool)
        ensures
            damage == self.spec_is_damage(),
    {
        match self {
            FilterScan::Counted(_) => false,
            FilterScan::Skipped(reason) => reason.is_damage(),
        }
    }
}

/// The position of a chunk type in a list of totals, or the length where there is none.
pub open spec fn type_position(stats: Seq<StatsModel>, chunk_type: Seq<u8>) -> int
    decreases stats.len(),
{
    if stats.len() == 0 {
        0
    } else {
        let before = type_position(stats.drop_last(), chunk_type);
        if before < stats.len() - 1 {
            before
        } else if stats.last().chunk_type == chunk_type {
            stats.len() - 1
        } else {
            stats.len() as int
        }
    }
}

/// The position of a type is that of its first entry.
pub proof fn type_position_is_first(stats: Seq<StatsModel>, chunk_type: Seq<u8>)
    ensures
        ({
            let p = type_position(stats, chunk_type);
            &&& 0 <= p <= stats.len()
            &&& p < stats.len() ==> stats[p].chunk_type == chunk_type
            &&& forall|i: int| 0 <= i < p ==> (#[trigger] stats[i]).chunk_type != chunk_type
        }),
    decreases stats.len(),
{
    if stats.len() > 0 {
        let rest = stats.drop_last();
        type_position_is_first(rest, chunk_type);
        assert forall|i: int| 0 <= i < type_position(stats, chunk_type) implies (
        #[trigger] stats[i]).chunk_type != chunk_type by {
            if i < rest.len() {
                assert(stats[i] == rest[i]);
            }
        }
    }
}

/// The totals after one more chunk.
pub open spec fn tally_step(stats: Seq<StatsModel>, chunk_type: Seq<u8>, payload_len: int) -> Seq<
    StatsModel,
> {
    let p = type_position(stats, chunk_type);
    if p < stats.len() {
        stats.update(
            p,
            StatsModel {
                count: stats[p].count + 1,
                payload_bytes: stats[p].payload_bytes + payload_len,
                ..stats[p]
            },
        )
    } else {
        stats.push(StatsModel { chunk_type, count: 1, payload_bytes: payload_len })
    }
}

/// Chunk totals, accumulated in first-appearance order with a lookup that does not grow with the
/// number of types.
#[derive(Debug)]
pub struct ChunkTally {
    /// One entry per distinct type, in first-appearance order.
    pub stats: Vec<ChunkStats>,
    /// The place of each type, by its big-endian number.
    pub index: HashMap<u32, usize>,
    /// Entries examined by lookups so far.
    pub probes: usize,
}

/// The number of a chunk type.
pub open spec fn type_number(chunk_type: Seq<u8>) -> u32 {
    be32(chunk_type, 0) as u32
}

proof fn type_numbers_are_distinct(a: Seq<u8>, b: Seq<u8>)
    requires
        a.len() == 4,
        b.len() == 4,
        type_number(a) == type_number(b),
    ensures
        a == b,
{
    number_digits(a);
    number_digits(b);
    assert(a =~= b);
}

/// The bytes of a chunk type are the digits of its number.
proof fn number_digits(a: Seq<u8>)
    requires
        a.len() == 4,
    ensures
        type_number(a) == be32(a, 0),
        a[0] == type_number(a) / 0x100_0000,
        a[1] == type_number(a) / 0x1_0000 % 256,
        a[2] == type_number(a) / 256 % 256,
        a[3] == type_number(a) % 256,
{
    let n = be32(a, 0);
    assert(n == a[0] * 0x100_0000 + a[1] * 0x1_0000 + a[2] * 256 + a[3]);
    assert(n / 256 == a[0] * 0x1_0000 + a[1] * 256 + a[2]);
    assert(n / 0x1_0000 == a[0] * 256 + a[1]);
}

impl ChunkTally {
    /// Types are distinct, and the index names every type at its position and nothing else.
    pub open spec fn wf(&self) -> bool {
        &&& forall|i: int|
            0 <= i < self.stats@.len() ==> self.index@.contains_pair(
                type_number((#[trigger] self.stats@[i]).chunk_type@),
                i as usize,
            )
        &&& forall|n: u32|
            #[trigger] self.index@.contains_key(n) ==> self.index@[n] < self.stats@.len()
                && type_number(self.stats@[self.index@[n] as int].chunk_type@) == n
    }

    /// The totals, as values.
    pub open spec fn models(&self) -> Seq<StatsModel> {
        stats_models(self.stats@)
    }

    /// An empty tally.
    pub fn new() -> (tally: Self)
        ensures
            tally.wf(),
            tally.models() == Seq::<StatsModel>::empty(),
            tally.probes == 0,
    {
        let tally = ChunkTally { stats: Vec::new(), index: HashMap::new(), probes: 0 };
        assert(tally.models() =~= Seq::<StatsModel>::empty());
        tally
    }

    /// Where a type's entry sits, if it has one. A hash lookup examines one entry, whatever the
    /// tally holds.
    pub fn lookup(&mut self, chunk_type: [u8; 4]) -> (at: Option<usize>)
        requires
            old(self).wf(),
            old(self).probes < usize::MAX,
        ensures
            final(self).wf(),
            final(self).stats == old(self).stats,
            final(self).index == old(self).index,
            final(self).probes == old(self).probes + 1,
            ({
                let p = type_position(old(self).models(), chunk_type@);
                match at {
                    Some(i) => i == p && p < old(self).stats@.len(),
                    None => p == old(self).stats@.len(),
                }
            }),
    {
        let number: u32 = read_be32(chunk_type.as_slice(), 0);
        self.probes = self.probes + 1;
        proof {
            let models = self.models();
            let p = type_position(models, chunk_type@);
            type_position_is_first(models, chunk_type@);
            if p < models.len() {
                assert(models[p].chunk_type == self.stats@[p].chunk_type@);
                assert(self.index@.contains_pair(type_number(self.stats@[p].chunk_type@), p as usize));
            }
            if self.index@.contains_key(number) {
                let i = self.index@[number] as int;
                type_numbers_are_distinct(self.stats@[i].chunk_type@, chunk_type@);
                assert(models[i].chunk_type == chunk_type@);
                assert(p <= i);
            }
        }
        match self.index.get(&number) {
            Some(at) => Some(*at),
            None => None,
        }
    }

    /// Adds one chunk of a type and payload length.
    pub fn record(&mut self, chunk_type: [u8; 4], payload_len: usize)
        requires
            old(self).wf(),
            old(self).probes < usize::MAX,
            forall|i: int|
                0 <= i < old(self).stats@.len() ==> (#[trigger] old(self).stats@[i]).count
                    < usize::MAX && old(self).stats@[i].payload_bytes + payload_len <= usize::MAX,
        ensures
            final(self).wf(),
            final(self).models() == tally_step(
                old(self).models(),
                chunk_type@,
                payload_len as int,
            ),
            final(self).probes == old(self).probes + 1,
    {
        let ghost before = self.models();
        let ghost stats0 = self.stats@;
        let ghost index0 = self.index@;
        match self.lookup(chunk_type) {
            Some(at) => {
                let entry: ChunkStats = self.stats[at];
                assert(entry == stats0[at as int]);
                let updated: ChunkStats = ChunkStats {
                    chunk_type: entry.chunk_type,
                    count: entry.count + 1,
                    payload_bytes: entry.payload_bytes + payload_len,
                };
                self.stats.set(at, updated);
                proof {
                    assert(self.models() =~= tally_step(before, chunk_type@, payload_len as int));
                    assert forall|i: int| 0 <= i < self.stats@.len() implies self.index@.contains_pair(
                        type_number((#[trigger] self.stats@[i]).chunk_type@),
                        i as usize,
                    ) by {
                        assert(stats0[i].chunk_type == self.stats@[i].chunk_type);
                    }
                }
            },
            None => {
                let number: u32 = read_be32(chunk_type.as_slice(), 0);
                let place: usize = self.stats.len();
                proof {
                    type_position_is_first(before, chunk_type@);
                    assert forall|i: int| 0 <= i < stats0.len() implies type_number(
                        (#[trigger] stats0[i]).chunk_type@,
                    ) != number by {
                        if type_number(stats0[i].chunk_type@) == number {
                            type_numbers_are_distinct(stats0[i].chunk_type@, chunk_type@);
                            assert(before[i].chunk_type == chunk_type@);
                        }
                    }
                }
                self.index.insert(number, place);
                self.stats.push(ChunkStats { chunk_type, count: 1, payload_bytes: payload_len });
                proof {
                    assert(self.models() =~= tally_step(before, chunk_type@, payload_len as int));
                    assert forall|i: int| 0 <= i < self.stats@.len() implies self.index@.contains_pair(
                        type_number((#[trigger] self.stats@[i]).chunk_type@),
                        i as usize,
                    ) by {
                        if i < stats0.len() {
                            assert(stats0[i] == self.stats@[i]);
                            assert(index0.contains_pair(
                                type_number(stats0[i].chunk_type@),
                                i as usize,
                            ));
                        }
                    }
                    assert forall|n: u32| #[trigger] self.index@.contains_key(n) implies self.index@[n]
                        < self.stats@.len() && type_number(
                        self.stats@[self.index@[n] as int].chunk_type@,
                    ) == n by {
                        if n != number {
                            assert(index0.contains_key(n));
                        }
                    }
                }
            },
        }
    }

    /// The accumulated totals, in first-appearance order.
    pub fn into_stats(self) -> (stats: Vec<ChunkStats>)
        ensures
            stats == self.stats,
    {
        self.stats
    }
}

/// What a report holds.
#[derive(Debug, Clone, PartialEq, Eq)]
pub struct PngReport {
    /// The length of the file.
    pub file_len: usize,
    /// The image header, as stored.
    pub header: PngHeader,
    /// Every byte of the file, classified, in file order.
    pub segments: Vec<Segment>,
    /// Totals per chunk type, in first-appearance order.
    pub chunks: Vec<ChunkStats>,
    /// Total IDAT payload bytes.
    pub idat_compressed: usize,
    /// The length of the filtered scanline stream the header implies; 0 where it cannot be
    /// addressed.
    pub filtered_len: usize,
    /// The reduced images making up the filtered stream.
    pub passes: Vec<PassStats>,
    /// The scanline filters chosen, or why they were not read.
    pub filters: FilterScan,
}

/// Whether segments chain without gap, overlap or empty run from `from` to `to`.
pub open spec fn tiles(segments: Seq<SegmentModel>, from: int, to: int) -> bool
    decreases segments.len(),
{
    if segments.len() == 0 {
        from == to
    } else {
        segments.last().end == to && segments.last().start < segments.last().end && tiles(
            segments.drop_last(),
            from,
            segments.last().start,
        )
    }
}

/// Whether a segment is sound: a chunk with a matching CRC, or the signature.
pub open spec fn is_sound(kind: KindModel) -> bool {
    match kind {
        KindModel::Signature => true,
        KindModel::Chunk { crc_ok, .. } => crc_ok,
        _ => false,
    }
}

/// The framing bytes of chunk totals.
pub open spec fn framing_sum(stats: Seq<StatsModel>) -> int
    decreases stats.len(),
{
    if stats.len() == 0 {
        0
    } else {
        framing_sum(stats.drop_last()) + stats.last().count * FRAMING
    }
}

impl PngReport {
    /// The segments, as values.
    pub open spec fn segment_models(&self) -> Seq<SegmentModel> {
        segment_models(self.segments@)
    }

    /// The chunk totals, as values.
    pub open spec fn stats_models(&self) -> Seq<StatsModel> {
        stats_models(self.chunks@)
    }

    /// Whether the segments cover the file exactly.
    pub open spec fn spec_is_fully_classified(&self) -> bool {
        tiles(self.segment_models(), 0, self.file_len as int)
    }

    /// Whether the totals hold a chunk type.
    pub open spec fn has_chunk(&self, chunk_type: Seq<u8>) -> bool {
        type_position(self.stats_models(), chunk_type) < self.chunks@.len()
    }

    /// Whether nothing is known to be wrong with the file.
    pub open spec fn spec_is_intact(&self) -> bool {
        &&& self.spec_is_fully_classified()
        &&& !self.filters.spec_is_damage()
        &&& forall|i: int|
            0 <= i < self.segments@.len() ==> is_sound((#[trigger] self.segments@[i])@.kind)
        &&& self.has_chunk(IEND@)
    }

    /// Whether the segments are contiguous, non-empty, and cover the file exactly.
    pub fn is_fully_classified(&self) -> (classified: bool)
        ensures
            classified == self.spec_is_fully_classified(),
    {
        let ghost all = self.segment_models();
        let mut expected: usize = self.file_len;
        let mut i: usize = self.segments.len();
        assert(all.subrange(0, i as int) =~= all);
        while i > 0
            invariant
                i <= self.segments@.len(),
                all == self.segment_models(),
                self.spec_is_fully_classified() == tiles(
                    all.subrange(0, i as int),
                    0,
                    expected as int,
                ),
            decreases i,
        {
            let segment: Segment = self.segments[i - 1];
            proof {
                let taken = all.subrange(0, i as int);
                assert(taken.last() == segment@);
                assert(taken.drop_last() =~= all.subrange(0, i - 1));
            }
            if segment.end != expected || segment.start >= segment.end {
                return false;
            }
            expected = segment.start;
            i -= 1;
        }
        expected == 0
    }

    /// The totals of one chunk type, if the file carries it.
    pub fn chunk(&self, chunk_type: &[u8; 4]) -> (stats: Option<ChunkStats>)
        ensures
            ({
                let p = type_position(self.stats_models(), chunk_type@);
                match stats {
                    Some(s) => p < self.chunks@.len() && s == self.chunks@[p],
                    None => p == self.chunks@.len(),
                }
            }),
    {
        let ghost models = self.stats_models();
        let mut i: usize = 0;
        proof {
            type_position_is_first(models, chunk_type@);
        }
        while i < self.chunks.len()
            invariant
                i <= self.chunks@.len(),
                models == self.stats_models(),
                models.len() == self.chunks@.len(),
                i <= type_position(models, chunk_type@) <= models.len(),
                type_position(models, chunk_type@) < models.len() ==> models[type_position(
                    models,
                    chunk_type@,
                )].chunk_type == chunk_type@,
                forall|j: int|
                    0 <= j < type_position(models, chunk_type@) ==> (
                    #[trigger] models[j]).chunk_type != chunk_type@,
            decreases self.chunks@.len() - i,
        {
            let stats: ChunkStats = self.chunks[i];
            assert(models[i as int].chunk_type == stats.chunk_type@);
            if same_type(stats.chunk_type, *chunk_type) {
                return Some(stats);
            }
            i += 1;
        }
        None
    }

    /// Whether nothing is known to be wrong with the file: every byte classified, every CRC matching,
    /// IEND present with nothing behind it, and no damage found in the image data.
    pub fn is_intact(&self) -> (intact: bool)
        ensures
            intact == self.spec_is_intact(),
    {
        if !self.is_fully_classified() || self.filters.is_damage() {
            return false;
        }
        let mut i: usize = 0;
        while i < self.segments.len()
            invariant
                i <= self.segments@.len(),
                forall|j: int| 0 <= j < i ==> is_sound((#[trigger] self.segments@[j])@.kind),
            decreases self.segments@.len() - i,
        {
            let sound: bool = match self.segments[i].kind {
                SegmentKind::Truncated | SegmentKind::Trailer => false,
                SegmentKind::Chunk { crc_ok, .. } => crc_ok,
                SegmentKind::Signature => true,
            };
            assert(sound == is_sound(self.segments@[i as int]@.kind));
            if !sound {
                return false;
            }
            i += 1;
        }
        self.chunk(&IEND).is_some()
    }

    /// Whether the file is intact and its scanline filters were actually read.
    pub fn is_verified(&self) -> (verified: bool)
        ensures
            verified == (self.spec_is_intact() && self.filters is Counted),
    {
        self.is_intact() && self.filters.is_counted()
    }

    /// Bytes that are not compressed image data.
    pub fn overhead_bytes(&self) -> (bytes: usize)
        requires
            self.idat_compressed <= self.file_len,
        ensures
            bytes == self.file_len - self.idat_compressed,
    {
        self.file_len - self.idat_compressed
    }

    /// Bytes spent on chunk framing.
    pub fn framing_bytes(&self) -> (bytes: usize)
        requires
            framing_sum(self.stats_models()) <= usize::MAX,
        ensures
            bytes == framing_sum(self.stats_models()),
    {
        let ghost all = self.stats_models();
        let mut bytes: usize = 0;
        let mut i: usize = 0;
        while i < self.chunks.len()
            invariant
                i <= self.chunks@.len(),
                all == self.stats_models(),
                framing_sum(all) <= usize::MAX,
                bytes == framing_sum(all.subrange(0, i as int)),
            decreases self.chunks@.len() - i,
        {
            proof {
                let taken = all.subrange(0, i + 1);
                assert(taken.drop_last() =~= all.subrange(0, i as int));
                assert(taken.last() == self.chunks@[i as int]@);
                framing_sum_grows(all, i + 1);
                framing_sum_grows(taken, i as int);
                assert(taken.subrange(0, i as int) =~= all.subrange(0, i as int));
            }
            let stats: ChunkStats = self.chunks[i];
            bytes = bytes + stats.framing_bytes();
            i += 1;
        }
        assert(all.subrange(0, i as int) =~= all);
        bytes
    }

    /// The size of the decoded image in bytes, or `None` where it does not fit `usize`.
    pub fn native_bytes(&self) -> (bytes: Option<usize>)
        ensures
            ({
                let native = decoded_bytes(
                    self.header.width,
                    self.header.height,
                    self.header.color_type.spec_channels(),
                    self.header.bit_depth,
                );
                match bytes {
                    Some(b) => b == native,
                    None => native > usize::MAX,
                }
            }),
    {
        crate::ihdr::native_bytes(
            self.header.width,
            self.header.height,
            self.header.color_type.channels(),
            self.header.bit_depth,
        )
    }
}

proof fn framing_sum_grows(stats: Seq<StatsModel>, k: int)
    requires
        0 <= k <= stats.len(),
        forall|i: int| 0 <= i < stats.len() ==> (#[trigger] stats[i]).count >= 0,
    ensures
        0 <= framing_sum(stats.subrange(0, k)) <= framing_sum(stats),
    decreases stats.len(),
{
    let rest = stats.drop_last();
    if stats.len() > 0 {
        assert(stats.last().count >= 0);
        if k < stats.len() {
            framing_sum_grows(rest, k);
            assert(rest.subrange(0, k) =~= stats.subrange(0, k));
        } else {
            framing_sum_grows(rest, k - 1);
            assert(stats.subrange(0, k) =~= stats);
            assert(rest.subrange(0, k - 1) =~= rest);
        }
    } else {
        assert(stats.subrange(0, k) =~= stats);
    }
}

} // verus!
