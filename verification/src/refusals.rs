//! Why a stream is refused, and what is still reported of one that is.
use crate::chunk::{chunk_at, framing_fault, signature, ChunkModel, IDAT, IEND, IHDR, PLTE, TRNS};
use crate::deconstruct::{KindModel, SegmentModel};
use crate::error::{Cause, Error};
use crate::frames::{
    frame_at, frames_end, image_data, names, nothing_carried, one_chunk, one_more_in_front, segment_kind, spelled, Frame,
};
use crate::ihdr::{ihdr_fault, ihdr_of};
use crate::parse::{
    opening, parse_from, parse_step, walk_from, walk_step, ParseState, ParseStep, WalkState, WalkStep,
};
use crate::survey::{signature_seen, survey_from, survey_step, surveyed, Survey};
use vstd::prelude::*;

verus! {

/// Why no chunk is framed where input is left: fewer than eight bytes for its length and type, a length of
/// 2^31 or more, a payload that overruns the input, or a checksum that is cut off.
pub proof fn why_no_chunk_is_framed(png: Seq<u8>, at: int)
    requires
        0 <= at <= png.len(),
    ensures
        ({
            let left = png.len() - at;
            let len = spelled(png.subrange(at, at + 4));
            framing_fault(png, at) == (if left < 8 {
                Some(Cause::TruncatedChunk)
            } else if len > 2147483647 {
                Some(Cause::ChunkTooLong)
            } else if left < 8 + len {
                Some(Cause::ChunkOverrun)
            } else if left < 12 + len {
                Some(Cause::TruncatedCrc)
            } else {
                None
            })
        }),
{
    if png.len() - at >= 8 {
        assert(spelled(png.subrange(at, at + 4)) == crate::bytes::be32(png, at));
    }
}

/// A stream opens with the eight bytes of the signature and an intact IHDR whose payload is a valid header.
pub proof fn how_a_stream_opens(png: Seq<u8>)
    ensures
        ({
            let signed = png.len() >= 8 && png.subrange(0, 8) == seq![137u8, 80, 78, 71, 13, 10, 26, 10];
            let first = frame_at(png, 8);
            let named = first matches Some(f) && f.name == seq![0x49u8, 0x48, 0x44, 0x52];
            let fault = match opening(png) {
                Ok(_) => None,
                Err(e) => Some(e.cause),
            };
            &&& opening(png) is Ok <==> signed && named && first->0.intact && ihdr_fault(first->0.data) is
                None
            &&& opening(png) matches Ok((h, at)) ==> h == ihdr_of(first->0.data) && at == 20
                + first->0.data.len()
            &&& fault == Some(Cause::BadSignature) <==> !signed
            &&& signed && png.len() == 8 <==> fault == Some(Cause::MissingIhdr)
            &&& signed && first is Some && !named <==> fault == Some(Cause::FirstChunkNotIhdr)
            &&& signed && named && !first->0.intact <==> fault == Some(Cause::CriticalCrcMismatch)
            &&& signed && named && first->0.intact && ihdr_fault(first->0.data) is Some ==> fault
                == ihdr_fault(first->0.data)
            &&& signed && png.len() > 8 && first is None ==> opening(png) == Err::<(crate::ihdr::Ihdr, int), Error>(
                Error { cause: framing_fault(png, 8)->0, offset: Some(8) },
            )
        }),
{
    names();
    one_chunk(png, 8);
    assert(signature() =~= seq![137u8, 80, 78, 71, 13, 10, 26, 10]);
}

/// What a chunk behind the header does to a decode. Each refusal has its own reason, and of several the
/// first in this order is given: a second IHDR; a damaged IEND, or one with a payload; a damaged IDAT, or one
/// that does not follow the others; a damaged PLTE, a second one, one behind IDAT, one behind tRNS; a tRNS
/// behind IDAT; and a critical chunk that is none of these.
pub proof fn why_a_chunk_is_refused(s: ParseState, c: ChunkModel, want: bool)
    ensures
        ({
            let got = parse_step(s, c, want);
            let t = c.chunk_type;
            let away = s.idat_done;
            let critical = (t[0] / 32) % 2 == 0;
            let known = t == IHDR@ || t == IEND@ || t == IDAT@ || t == PLTE@;
            &&& t == IHDR@ ==> got == ParseStep::Fail(Cause::DuplicateIhdr)
            &&& known && t != IHDR@ && !c.crc_ok ==> got == ParseStep::Fail(Cause::CriticalCrcMismatch)
            &&& t == IEND@ && c.crc_ok && c.data.len() > 0 ==> got == ParseStep::Fail(Cause::IendNotEmpty)
            &&& t == IEND@ && c.crc_ok && c.data.len() == 0 ==> got is End
            &&& t == IDAT@ && c.crc_ok ==> if away {
                got == ParseStep::Fail(Cause::IdatNotConsecutive)
            } else {
                got matches ParseStep::Go(u) && u.idat == s.idat + c.data && u.seen_idat
            }
            &&& t == PLTE@ && c.crc_ok ==> if s.plte is Some {
                got == ParseStep::Fail(Cause::DuplicatePlte)
            } else if s.seen_idat {
                got == ParseStep::Fail(Cause::PlteAfterIdat)
            } else if s.trns is Some {
                got == ParseStep::Fail(Cause::PlteAfterTrns)
            } else {
                got matches ParseStep::Go(u) && u.plte == Some(c.data)
            }
            &&& t == TRNS@ ==> if s.seen_idat {
                got == ParseStep::Fail(Cause::TrnsAfterIdat)
            } else {
                got is Go
            }
            &&& critical && !known ==> got == ParseStep::Fail(Cause::UnknownCriticalChunk)
            &&& !critical && t != TRNS@ ==> got is Go
            &&& s.seen_idat && t != IDAT@ ==> (got matches ParseStep::Go(u) ==> u.idat_done)
        }),
{
    names();
}

/// What a chunk behind the header does to a metadata walk: as to a decode, but that IDAT and PLTE are passed
/// over, damaged or not, wherever they stand.
pub proof fn why_a_walk_ends(s: WalkState, c: ChunkModel)
    ensures
        ({
            let got = walk_step(s, c);
            let t = c.chunk_type;
            let critical = (t[0] / 32) % 2 == 0;
            &&& t == IHDR@ ==> got == WalkStep::Fail(Cause::DuplicateIhdr)
            &&& t == IEND@ && !c.crc_ok ==> got == WalkStep::Fail(Cause::CriticalCrcMismatch)
            &&& t == IEND@ && c.crc_ok && c.data.len() > 0 ==> got == WalkStep::Fail(Cause::IendNotEmpty)
            &&& t == IEND@ && c.crc_ok && c.data.len() == 0 ==> got == WalkStep::End(s)
            &&& t == IDAT@ || t == PLTE@ ==> (got matches WalkStep::Go(u) && u.chunks == s.chunks
                && u.late_stores == s.late_stores)
            &&& critical && t != IHDR@ && t != IEND@ && t != IDAT@ && t != PLTE@ ==> got
                == WalkStep::Fail(Cause::UnknownCriticalChunk)
            &&& !critical ==> got is Go
        }),
{
    names();
}

/// A stream that ends or breaks off where the next chunk would start is refused for that: with no chunk left
/// for the missing IEND, and otherwise for the framing, at the offset of the chunk.
pub proof fn a_stream_that_breaks_off_is_refused(
    png: Seq<u8>,
    at: int,
    s: ParseState,
    w: WalkState,
    want: bool,
)
    requires
        0 <= at <= png.len() <= u64::MAX,
        frame_at(png, at) is None,
    ensures
        match parse_from(png, at, s, want) {
            Ok(_) => false,
            Err(e) => if at == png.len() {
                e.cause is MissingIend && e.offset is None
            } else {
                Some(e.cause) == framing_fault(png, at) && (e.offset matches Some(o) && o == at)
            },
        },
        match walk_from(png, at, w) {
            Ok(_) => false,
            Err(e) => if at == png.len() {
                e.cause is MissingIend && e.offset is None
            } else {
                Some(e.cause) == framing_fault(png, at) && (e.offset matches Some(o) && o == at)
            },
        },
{
    one_chunk(png, at);
}

/// The chunks of a file from `at` on that are all there, up to the first IEND.
pub open spec fn framed(png: Seq<u8>, at: int) -> Seq<Frame>
    decreases png.len() - at,
{
    match frame_at(png, at) {
        None => Seq::empty(),
        Some(f) => if f.name == seq![0x49u8, 0x45, 0x4E, 0x44] {
            seq![f]
        } else {
            seq![f] + framed(png, at + 12 + f.data.len())
        },
    }
}

/// Whether the last of some chunks is an IEND.
pub open spec fn reaches_the_end(list: Seq<Frame>) -> bool {
    list.len() > 0 && list.last().name == seq![0x49u8, 0x45, 0x4E, 0x44]
}

proof fn surveyed_to_the_break(png: Seq<u8>, at: int, s: Survey, max_chunks: int)
    requires
        0 <= at <= png.len(),
        s.segments.len() >= 1,
        s.segments.len() - 1 + framed(png, at).len() <= max_chunks,
    ensures
        survey_from(png, at, s, max_chunks) matches Some(t) && ({
            let list = framed(png, at);
            let stop = frames_end(png, at);
            let n = s.segments.len() + list.len();
            &&& t.idat == s.idat + image_data(list)
            &&& at <= stop <= png.len()
            &&& t.segments.len() == n + (if stop < png.len() {
                1int
            } else {
                0
            })
            &&& stop < png.len() ==> t.segments[n as int] == (SegmentModel {
                start: stop,
                end: png.len() as int,
                kind: if reaches_the_end(list) {
                    KindModel::Trailer
                } else {
                    KindModel::Truncated
                },
            })
            &&& forall|i: int| 0 <= i < s.segments.len() ==> t.segments[i] == #[trigger] s.segments[i]
            &&& forall|i: int|
                0 <= i < list.len() ==> t.segments[s.segments.len() + i].kind
                    == #[trigger] segment_kind(list[i])
        }),
    decreases png.len() - at,
{
    names();
    one_chunk(png, at);
    nothing_carried();
    let none = Seq::<Frame>::empty();
    assert(s.idat + Seq::<u8>::empty() =~= s.idat);
    if let Some(f) = frame_at(png, at) {
        let c = chunk_at(png, at);
        let next = survey_step(s, c);
        assert(is_idat_of(f) ==> f.name[1] == 0x44);
        if f.name == IEND@ {
            assert(seq![f] + none =~= seq![f]);
            one_more_in_front(f, none, 0);
            assert(seq![f].last() == f);
            assert(seq![f][0] == f);
        } else {
            let rest = framed(png, c.end);
            let list = seq![f] + rest;
            surveyed_to_the_break(png, c.end, next, max_chunks);
            one_more_in_front(f, rest, 0);
            assert(s.idat + (f.data + image_data(rest)) =~= s.idat + f.data + image_data(rest));
            if rest.len() > 0 {
                assert(list.last() == rest.last());
            } else {
                assert(list.last() == f);
            }
            let t = survey_from(png, at, s, max_chunks)->0;
            assert(t.segments[s.segments.len() as int] == next.segments[s.segments.len() as int]);
            assert forall|i: int| 0 <= i < s.segments.len() implies t.segments[i]
                == #[trigger] s.segments[i] by {
                assert(next.segments[i] == s.segments[i]);
            }
            assert forall|i: int| 0 <= i < list.len() implies t.segments[s.segments.len() + i].kind
                == #[trigger] segment_kind(list[i]) by {
                if i > 0 {
                    assert(list[i] == rest[i - 1]);
                    assert(t.segments[next.segments.len() + (i - 1)].kind == segment_kind(rest[i - 1]));
                }
            }
        }
    }
}

spec fn is_idat_of(f: Frame) -> bool {
    f.name == seq![0x49u8, 0x44, 0x41, 0x54]
}

/// A survey of any file lists every chunk that is all there, in file order, and then the rest of the file as
/// one run: what stands behind IEND as a trailer, and what stands in the place of a chunk as truncated. The
/// image data is that of the chunks it lists.
pub proof fn a_survey_reports_what_is_there(png: Seq<u8>, max_chunks: int)
    requires
        surveyed(png, max_chunks) is Ok,
        framed(png, 8).len() <= max_chunks,
    ensures
        ({
            let s = surveyed(png, max_chunks)->Ok_0.1;
            let list = framed(png, 8);
            let stop = frames_end(png, 8);
            &&& s.idat == image_data(list)
            &&& s.segments[0] == (SegmentModel { start: 0, end: 8, kind: KindModel::Signature })
            &&& s.segments.len() == 1 + list.len() + (if stop < png.len() {
                1int
            } else {
                0
            })
            &&& forall|i: int|
                0 <= i < list.len() ==> s.segments[1 + i].kind == #[trigger] segment_kind(list[i])
            &&& stop < png.len() ==> s.segments.last() == (SegmentModel {
                start: stop,
                end: png.len() as int,
                kind: if reaches_the_end(list) {
                    KindModel::Trailer
                } else {
                    KindModel::Truncated
                },
            })
        }),
{
    surveyed_to_the_break(png, 8, signature_seen(), max_chunks);
    assert(signature_seen().segments[0] == (SegmentModel { start: 0, end: 8, kind: KindModel::Signature }));
    assert(Seq::<u8>::empty() + image_data(framed(png, 8)) =~= image_data(framed(png, 8)));
}

/// A survey takes every file that opens with the signature and a first chunk that is an IHDR with a valid
/// payload, whatever its checksum, unless its chunks are more than admitted.
pub proof fn how_a_survey_opens(png: Seq<u8>, max_chunks: int)
    ensures
        ({
            let signed = png.len() >= 8 && png.subrange(0, 8) == seq![137u8, 80, 78, 71, 13, 10, 26, 10];
            let first = frame_at(png, 8);
            let named = first matches Some(f) && f.name == seq![0x49u8, 0x48, 0x44, 0x52];
            let valid = signed && named && ihdr_fault(first->0.data) is None;
            let fault = match surveyed(png, max_chunks) {
                Ok(_) => None,
                Err(e) => Some(e.cause),
            };
            &&& surveyed(png, max_chunks) is Ok ==> valid
            &&& valid && framed(png, 8).len() <= max_chunks ==> surveyed(png, max_chunks) is Ok
            &&& valid && surveyed(png, max_chunks) is Err ==> fault == Some(Cause::TooManyChunks)
            &&& surveyed(png, max_chunks) matches Ok((h, _)) ==> h == ihdr_of(first->0.data)
            &&& !signed <==> fault == Some(Cause::BadSignature)
            &&& signed && png.len() == 8 ==> fault == Some(Cause::NoFirstChunk)
            &&& signed && first is Some && !named ==> fault == Some(Cause::HeaderNotFirst)
            &&& signed && named && !valid ==> fault == ihdr_fault(first->0.data)
        }),
{
    names();
    one_chunk(png, 8);
    assert(signature() =~= seq![137u8, 80, 78, 71, 13, 10, 26, 10]);
    if png.len() >= 8 && framed(png, 8).len() <= max_chunks {
        surveyed_to_the_break(png, 8, signature_seen(), max_chunks);
    }
}

} // verus!
