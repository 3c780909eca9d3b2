//! A file as the list of its chunks, and what the walks over it find.
//!
//! [`frames`] cuts a file into its chunks by the layout of PNG §5.3 alone. What is stated here of the walks
//! is stated of that list: which streams are accepted, and that nothing in them is lost, moved or read twice.
use crate::chunk::{
    ancillary_type, chunk_at, framing_fault, ChunkModel, CABX, IDAT, IEND, IHDR, PLTE, TEXT,
    TRNS,
};
use crate::crc32::crc32_of;
use crate::decoded::{MetadataModel, TextChunkKind, TextModel};
use crate::decoder::metadata_of_file;
use crate::deconstruct::{KindModel, SegmentModel};
use crate::parse::{
    nothing_read, nothing_walked, opening, parse_from, parse_step, parsed_stream, walk_from,
    walk_step, walked_stream, ParseState, ParseStep, WalkState, WalkStep,
};
use crate::survey::{signature_seen, survey_from, survey_step, surveyed, Survey};
use crate::text::latin1_chars;
use vstd::prelude::*;

verus! {

/// One chunk of a file.
pub struct Frame {
    /// The four bytes of the type.
    pub name: Seq<u8>,
    /// The payload.
    pub data: Seq<u8>,
    /// Whether the stored checksum is that of type and payload.
    pub intact: bool,
}

/// The number that four bytes spell, most significant first.
pub open spec fn spelled(b: Seq<u8>) -> int {
    ((b[0] * 256 + b[1]) * 256 + b[2]) * 256 + b[3]
}

/// The chunk whose length field starts at `at`, where it is all there.
pub open spec fn frame_at(png: Seq<u8>, at: int) -> Option<Frame> {
    let len = spelled(png.subrange(at, at + 4));
    if at < 0 || at + 12 > png.len() || len > 0x7FFF_FFFF || at + 12 + len > png.len() {
        None
    } else {
        let name = png.subrange(at + 4, at + 8);
        let data = png.subrange(at + 8, at + 8 + len);
        Some(
            Frame {
                name,
                data,
                intact: spelled(png.subrange(at + 8 + len, at + 12 + len)) == crc32_of(name + data),
            },
        )
    }
}

/// The chunks of a file from `at` to the first IEND, that one too, where all of them are there.
pub open spec fn frames(png: Seq<u8>, at: int) -> Option<Seq<Frame>>
    decreases png.len() - at,
{
    match frame_at(png, at) {
        None => None,
        Some(f) => if f.name == seq![0x49u8, 0x45, 0x4E, 0x44] {
            Some(seq![f])
        } else {
            match frames(png, at + 12 + f.data.len()) {
                None => None,
                Some(rest) => Some(seq![f] + rest),
            }
        },
    }
}

/// Where the chunks from `at` to the first IEND end.
pub open spec fn frames_end(png: Seq<u8>, at: int) -> int
    decreases png.len() - at,
{
    match frame_at(png, at) {
        None => at,
        Some(f) => if f.name == seq![0x49u8, 0x45, 0x4E, 0x44] {
            at + 12 + f.data.len()
        } else {
            frames_end(png, at + 12 + f.data.len())
        },
    }
}

/// Whether a chunk is an IDAT.
pub open spec fn is_idat(f: Frame) -> bool {
    f.name == seq![0x49u8, 0x44, 0x41, 0x54]
}

/// Whether a chunk is a PLTE.
pub open spec fn is_plte(f: Frame) -> bool {
    f.name == seq![0x50u8, 0x4C, 0x54, 0x45]
}

/// Whether a chunk is a tRNS.
pub open spec fn is_trns(f: Frame) -> bool {
    f.name == seq![0x74u8, 0x52, 0x4E, 0x53]
}

/// Whether a chunk is a caBX.
pub open spec fn is_cabx(f: Frame) -> bool {
    f.name == seq![0x63u8, 0x61, 0x42, 0x58]
}

/// Whether a reader may pass over a chunk: its type starts with a lower-case letter, one with 32 among its
/// powers of two.
pub open spec fn may_be_skipped(f: Frame) -> bool {
    (f.name[0] / 32) % 2 == 1
}

/// Whether `d` is the place of the first IDAT, or the length of a list without one.
pub open spec fn first_idat(list: Seq<Frame>, d: int) -> bool {
    &&& 0 <= d <= list.len()
    &&& forall|i: int| 0 <= i < d ==> !is_idat(#[trigger] list[i])
    &&& d < list.len() ==> is_idat(list[d])
}

/// Types and payloads of chunks.
pub open spec fn contents_of(list: Seq<Frame>) -> Seq<(Seq<u8>, Seq<u8>)> {
    list.map_values(|f: Frame| (f.name, f.data))
}

/// Every intact chunk that may be skipped, in file order, but for the caBX behind the first IDAT at `d`.
pub open spec fn carried(list: Seq<Frame>, d: int) -> Seq<(Seq<u8>, Seq<u8>)> {
    contents_of(list.take(d).filter(|f: Frame| may_be_skipped(f) && f.intact)) + contents_of(
        list.skip(d).filter(|f: Frame| may_be_skipped(f) && f.intact && !is_cabx(f)),
    )
}

/// How many intact caBX chunks stand behind the first IDAT at `d`.
pub open spec fn stores_behind(list: Seq<Frame>, d: int) -> int {
    list.skip(d).filter(|f: Frame| is_cabx(f) && f.intact).len() as int
}

/// The payload of the first chunk of a list, if there is one.
pub open spec fn first_payload(list: Seq<Frame>) -> Option<Seq<u8>> {
    if list.len() == 0 {
        None
    } else {
        Some(list[0].data)
    }
}

/// The payloads of the IDAT chunks, one behind the other.
pub open spec fn image_data(list: Seq<Frame>) -> Seq<u8> {
    list.filter(|f: Frame| is_idat(f)).map_values(|f: Frame| f.data).flatten()
}

/// The types that the walks tell apart, byte by byte, and which bit marks one that may be skipped.
pub proof fn names()
    ensures
        IHDR@ == seq![0x49u8, 0x48, 0x44, 0x52],
        IEND@ == seq![0x49u8, 0x45, 0x4E, 0x44],
        IDAT@ == seq![0x49u8, 0x44, 0x41, 0x54],
        PLTE@ == seq![0x50u8, 0x4C, 0x54, 0x45],
        TRNS@ == seq![0x74u8, 0x52, 0x4E, 0x53],
        CABX@ == seq![0x63u8, 0x61, 0x42, 0x58],
        seq![0x49u8, 0x48, 0x44, 0x52][1] == 0x48,
        seq![0x49u8, 0x45, 0x4E, 0x44][1] == 0x45,
        seq![0x49u8, 0x44, 0x41, 0x54][1] == 0x44,
        seq![0x50u8, 0x4C, 0x54, 0x45][0] == 0x50,
        seq![0x74u8, 0x52, 0x4E, 0x53][0] == 0x74,
        seq![0x63u8, 0x61, 0x42, 0x58][0] == 0x63,
        forall|t: Seq<u8>| #[trigger] ancillary_type(t) <==> (t[0] / 32) % 2 == 1,
{
    assert(IHDR@ =~= seq![0x49u8, 0x48, 0x44, 0x52]);
    assert(IEND@ =~= seq![0x49u8, 0x45, 0x4E, 0x44]);
    assert(IDAT@ =~= seq![0x49u8, 0x44, 0x41, 0x54]);
    assert(PLTE@ =~= seq![0x50u8, 0x4C, 0x54, 0x45]);
    assert(TRNS@ =~= seq![0x74u8, 0x52, 0x4E, 0x53]);
    assert(CABX@ =~= seq![0x63u8, 0x61, 0x42, 0x58]);
    assert forall|t: Seq<u8>| #[trigger] ancillary_type(t) <==> (t[0] / 32) % 2 == 1 by {
        let b = t[0];
        assert((b & 0x20 != 0) == ((b / 32) % 2 == 1)) by (bit_vector);
    }
}

/// The chunk that the reader frames is the chunk that is there.
pub proof fn one_chunk(png: Seq<u8>, at: int)
    requires
        at >= 0,
    ensures
        (at < png.len() && framing_fault(png, at) is None) <==> frame_at(png, at) is Some,
        frame_at(png, at) matches Some(f) ==> {
            let c = chunk_at(png, at);
            &&& f == (Frame { name: c.chunk_type, data: c.data, intact: c.crc_ok })
            &&& c.start == at
            &&& c.end == at + 12 + f.data.len()
            &&& f.name.len() == 4
        },
{
    if png.len() - at >= 8 {
        let head = png.subrange(at, at + 4);
        assert(spelled(head) == crate::bytes::be32(png, at));
    }
    if frame_at(png, at) is Some {
        let c = chunk_at(png, at);
        let len = c.data.len() as int;
        let field = png.subrange(at + 8 + len, at + 12 + len);
        crate::bytes::be32_field(field, crc32_of(c.chunk_type + c.data));
        assert(spelled(field) == crate::bytes::be32(field, 0));
    }
}

/// Filtering a list filters its first element and the rest.
proof fn filter_first<A>(f: A, rest: Seq<A>, keep: spec_fn(A) -> bool)
    ensures
        (seq![f] + rest).filter(keep) == (if keep(f) {
            seq![f] + rest.filter(keep)
        } else {
            rest.filter(keep)
        }),
{
    reveal(Seq::filter);
    Seq::filter_distributes_over_add(seq![f], rest, keep);
    let one = seq![f];
    assert(one.drop_last() =~= Seq::<A>::empty());
    assert(one.drop_last().filter(keep) =~= Seq::<A>::empty());
    assert(one.last() == f);
    if keep(f) {
        assert(one.filter(keep) =~= one);
    } else {
        assert(one.filter(keep) =~= Seq::<A>::empty());
        assert(Seq::<A>::empty() + rest.filter(keep) =~= rest.filter(keep));
    }
}

/// What one more chunk in front adds to what is carried and to the image data.
pub proof fn one_more_in_front(f: Frame, rest: Seq<Frame>, d: int)
    requires
        0 <= d <= rest.len(),
    ensures
        image_data(seq![f] + rest) == (if is_idat(f) {
            f.data + image_data(rest)
        } else {
            image_data(rest)
        }),
        carried(seq![f] + rest, d + 1) == (if may_be_skipped(f) && f.intact {
            seq![(f.name, f.data)] + carried(rest, d)
        } else {
            carried(rest, d)
        }),
        stores_behind(seq![f] + rest, d + 1) == stores_behind(rest, d),
        stores_behind(seq![f] + rest, 0) == stores_behind(rest, 0) + (if is_cabx(f) && f.intact {
            1int
        } else {
            0
        }),
        first_payload((seq![f] + rest).filter(|f: Frame| is_plte(f))) == (if is_plte(f) {
            Some(f.data)
        } else {
            first_payload(rest.filter(|f: Frame| is_plte(f)))
        }),
        first_payload((seq![f] + rest).filter(|f: Frame| is_trns(f) && f.intact)) == (if is_trns(f)
            && f.intact {
            Some(f.data)
        } else {
            first_payload(rest.filter(|f: Frame| is_trns(f) && f.intact))
        }),
        carried(seq![f] + rest, 0) == (if may_be_skipped(f) && f.intact && !is_cabx(f) {
            seq![(f.name, f.data)] + carried(rest, 0)
        } else {
            carried(rest, 0)
        }),
{
    let list = seq![f] + rest;
    let idat = |f: Frame| is_idat(f);
    let early = |f: Frame| may_be_skipped(f) && f.intact;
    let late = |f: Frame| may_be_skipped(f) && f.intact && !is_cabx(f);
    let data = |f: Frame| f.data;
    filter_first(f, rest, idat);
    if is_idat(f) {
        let runs = list.filter(idat).map_values(data);
        assert(runs.first() == f.data);
        assert(runs.drop_first() =~= rest.filter(idat).map_values(data));
    }
    assert(list.take(d + 1) =~= seq![f] + rest.take(d));
    assert(list.skip(d + 1) =~= rest.skip(d));
    filter_first(f, rest.take(d), early);
    assert(contents_of(seq![f] + rest.take(d).filter(early)) =~= seq![(f.name, f.data)] + contents_of(
        rest.take(d).filter(early),
    ));
    assert(carried(list, d + 1) =~= (if early(f) {
        seq![(f.name, f.data)] + carried(rest, d)
    } else {
        carried(rest, d)
    }));
    assert(list.skip(0) =~= list);
    assert(rest.skip(0) =~= rest);
    assert(list.take(0) =~= rest.take(0));
    filter_first(f, rest, late);
    filter_first(f, rest, |f: Frame| is_cabx(f) && f.intact);
    filter_first(f, rest, |f: Frame| is_plte(f));
    filter_first(f, rest, |f: Frame| is_trns(f) && f.intact);
    assert(contents_of(seq![f] + rest.filter(late)) =~= seq![(f.name, f.data)] + contents_of(
        rest.filter(late),
    ));
    reveal(Seq::filter);
    assert(contents_of(list.take(0).filter(early)) =~= Seq::<(Seq<u8>, Seq<u8>)>::empty());
    assert(carried(list, 0) =~= (if late(f) {
        seq![(f.name, f.data)] + carried(rest, 0)
    } else {
        carried(rest, 0)
    }));
}

/// Nothing is carried by no chunks.
pub proof fn nothing_carried()
    ensures
        carried(Seq::empty(), 0) == Seq::<(Seq<u8>, Seq<u8>)>::empty(),
        image_data(Seq::empty()) == Seq::<u8>::empty(),
{
    reveal(Seq::filter);
    let none = Seq::<Frame>::empty();
    assert(none.take(0) =~= none);
    assert(none.skip(0) =~= none);
    assert(carried(none, 0) =~= Seq::<(Seq<u8>, Seq<u8>)>::empty());
    assert(none.filter(|f: Frame| is_idat(f)).map_values(|f: Frame| f.data) =~= Seq::<
        Seq<u8>,
    >::empty());
}

/// Whether a list of chunks, header first and IEND last, is one that a decoder accepts: the header and
/// every other critical chunk are intact, IEND is empty, no critical chunk but PLTE and IDAT stands between
/// them, the IDAT chunks are there and stand side by side, and PLTE stands at most once, before IDAT and
/// before an intact tRNS; every tRNS stands before IDAT.
pub open spec fn orderly(list: Seq<Frame>) -> bool {
    &&& list.len() >= 2
    &&& list[0].name == seq![0x49u8, 0x48, 0x44, 0x52]
    &&& list.last().data.len() == 0
    &&& forall|i: int| 0 < i < list.len() ==> (#[trigger] list[i]).name != seq![0x49u8, 0x48, 0x44, 0x52]
    &&& forall|i: int|
        0 <= i < list.len() && !may_be_skipped(#[trigger] list[i]) ==> list[i].intact && (i == 0 || i
            == list.len() - 1 || is_idat(list[i]) || is_plte(list[i]))
    &&& exists|i: int| 0 <= i < list.len() && is_idat(#[trigger] list[i])
    &&& forall|i: int, j: int, k: int|
        0 <= i < j < k < list.len() && is_idat(#[trigger] list[i]) && is_idat(#[trigger] list[k])
            ==> is_idat(#[trigger] list[j])
    &&& forall|i: int, j: int|
        0 <= i < j < list.len() && is_idat(#[trigger] list[i]) ==> !is_plte(#[trigger] list[j])
            && !is_trns(list[j])
    &&& forall|i: int, j: int|
        0 <= i < j < list.len() && is_plte(#[trigger] list[i]) ==> !is_plte(#[trigger] list[j])
    &&& forall|i: int, j: int|
        0 <= i < j < list.len() && is_trns(#[trigger] list[i]) && list[i].intact ==> !is_plte(
            #[trigger] list[j],
        )
}

/// Whether the chunks that are left go on from a state as [`orderly`] asks.
spec fn goes_on(list: Seq<Frame>, s: ParseState) -> bool {
    &&& list.len() >= 1
    &&& list.last().data.len() == 0
    &&& forall|i: int| 0 <= i < list.len() ==> (#[trigger] list[i]).name != seq![0x49u8, 0x48, 0x44, 0x52]
    &&& forall|i: int|
        0 <= i < list.len() && !may_be_skipped(#[trigger] list[i]) ==> list[i].intact && (i
            == list.len() - 1 || is_idat(list[i]) || is_plte(list[i]))
    &&& s.seen_idat || exists|i: int| 0 <= i < list.len() && is_idat(#[trigger] list[i])
    &&& forall|i: int, j: int, k: int|
        0 <= i < j < k < list.len() && is_idat(#[trigger] list[i]) && is_idat(#[trigger] list[k])
            ==> is_idat(#[trigger] list[j])
    &&& s.seen_idat ==> forall|j: int, k: int|
        0 <= j < k < list.len() && is_idat(#[trigger] list[k]) ==> is_idat(#[trigger] list[j])
    &&& s.idat_done ==> forall|k: int| 0 <= k < list.len() ==> !is_idat(#[trigger] list[k])
    &&& forall|i: int, j: int|
        0 <= i < j < list.len() && is_idat(#[trigger] list[i]) ==> !is_plte(#[trigger] list[j])
            && !is_trns(list[j])
    &&& s.seen_idat ==> forall|j: int|
        0 <= j < list.len() ==> !is_plte(#[trigger] list[j]) && !is_trns(list[j])
    &&& forall|i: int, j: int|
        0 <= i < j < list.len() && is_plte(#[trigger] list[i]) ==> !is_plte(#[trigger] list[j])
    &&& forall|i: int, j: int|
        0 <= i < j < list.len() && is_trns(#[trigger] list[i]) && list[i].intact ==> !is_plte(
            #[trigger] list[j],
        )
    &&& s.plte is Some || s.trns is Some ==> forall|j: int|
        0 <= j < list.len() ==> !is_plte(#[trigger] list[j])
}

/// The chunk of a frame, as the walks see it.
spec fn chunk_of(f: Frame) -> ChunkModel {
    ChunkModel { chunk_type: f.name, data: f.data, crc_ok: f.intact, start: 0, end: 0 }
}

/// The last of a list goes on exactly where it ends the walk.
proof fn the_last_chunk(f: Frame, s: ParseState, want: bool)
    requires
        f.name == IEND@,
    ensures
        goes_on(seq![f], s) <==> parse_step(s, chunk_of(f), want) is End && s.seen_idat,
{
    names();
    let list = seq![f];
    assert(list[0] == f);
    assert(!is_idat(f) && !is_plte(f) && !is_trns(f) && !may_be_skipped(f)) by {
        assert(f.name[0] == 0x49 && f.name[1] == 0x45);
        assert(seq![0x49u8, 0x44, 0x41, 0x54][1] == 0x44);
        assert(seq![0x50u8, 0x4C, 0x54, 0x45][0] == 0x50);
    }
}

/// One chunk that is not the last goes on exactly where its step does and the rest goes on from there.
#[verifier::rlimit(60)]
proof fn one_chunk_goes_on(f: Frame, rest: Seq<Frame>, s: ParseState, want: bool)
    requires
        f.name != IEND@,
        rest.len() >= 1,
        s.idat_done ==> s.seen_idat,
    ensures
        goes_on(seq![f] + rest, s) <==> (parse_step(s, chunk_of(f), want) matches ParseStep::Go(t)
            && goes_on(rest, t)),
{
    names();
    let list = seq![f] + rest;
    assert(list[0] == f);
    assert(list.last() == rest.last());
    assert forall|i: int| 0 <= i < rest.len() implies #[trigger] rest[i] == list[i + 1] by {}
    assert(is_idat(f) ==> f.name[0] == 0x49 && f.name[1] == 0x44);
    assert(is_plte(f) ==> f.name[0] == 0x50);
    assert(is_trns(f) ==> f.name[0] == 0x74);
    assert(is_cabx(f) ==> f.name[0] == 0x63);
    let step = parse_step(s, chunk_of(f), want);
    if goes_on(list, s) {
        assert(step is Go);
        let t = step->Go_0;
        if !s.seen_idat && !is_idat(f) {
            let k = choose|i: int| 0 <= i < list.len() && is_idat(#[trigger] list[i]);
            assert(rest[k - 1] == list[k]);
        }
        assert(goes_on(rest, t));
    }
    if step is Go && goes_on(rest, step->Go_0) {
        let t = step->Go_0;
        assert forall|i: int| 0 < i < list.len() implies #[trigger] list[i] == rest[i - 1] by {}
        if !s.seen_idat && !is_idat(f) {
            let k = choose|i: int| 0 <= i < rest.len() && is_idat(#[trigger] rest[i]);
            assert(is_idat(list[k + 1]));
        }
        assert(goes_on(list, s));
    }
}

proof fn step_ignores_places(s: ParseState, w: WalkState, c: ChunkModel, f: Frame, want: bool)
    requires
        f == (Frame { name: c.chunk_type, data: c.data, intact: c.crc_ok }),
    ensures
        parse_step(s, c, want) == parse_step(s, chunk_of(f), want),
        walk_step(w, c) == walk_step(w, chunk_of(f)),
{
}

/// A stream is accepted from a state exactly where its chunks go on from it.
proof fn accepted_from(png: Seq<u8>, at: int, s: ParseState, want: bool)
    requires
        at >= 0,
        s.idat_done ==> s.seen_idat,
    ensures
        parse_from(png, at, s, want) is Ok <==> (frames(png, at) matches Some(list) && goes_on(list, s)),
    decreases png.len() - at,
{
    names();
    one_chunk(png, at);
    if let Some(f) = frame_at(png, at) {
        let c = chunk_at(png, at);
        step_ignores_places(s, nothing_walked(), c, f, want);
        if f.name == IEND@ {
            the_last_chunk(f, s, want);
        } else {
            let step = parse_step(s, c, want);
            if let ParseStep::Go(t) = step {
                accepted_from(png, c.end, t, want);
            }
            if let Some(rest) = frames(png, c.end) {
                last_frame_is_the_end(png, c.end);
                one_chunk_goes_on(f, rest, s, want);
            }
        }
    }
}

/// The chunks up to the first IEND are at least that one, and it is the last of them.
pub proof fn last_frame_is_the_end(png: Seq<u8>, at: int)
    requires
        frames(png, at) is Some,
    ensures
        frames(png, at)->0.len() >= 1,
        frames(png, at)->0.last().name == seq![0x49u8, 0x45, 0x4E, 0x44],
    decreases png.len() - at,
{
    let f = frame_at(png, at)->0;
    if f.name != seq![0x49u8, 0x45, 0x4E, 0x44] {
        let next = at + 12 + f.data.len();
        last_frame_is_the_end(png, next);
        let rest = frames(png, next)->0;
        assert((seq![f] + rest).last() == rest.last());
    }
}

/// Whether a chunk is no tRNS.
spec fn no_transparency() -> spec_fn((Seq<u8>, Seq<u8>)) -> bool {
    |c: (Seq<u8>, Seq<u8>)| c.0 != seq![0x74u8, 0x52, 0x4E, 0x53]
}

/// What is read from a state on: what the chunks hold, behind what was there.
proof fn read_from(png: Seq<u8>, at: int, s: ParseState, d: int)
    requires
        at >= 0,
        s.idat_done ==> s.seen_idat,
        parse_from(png, at, s, true) is Ok,
        frames(png, at) is Some,
        s.seen_idat ==> d == 0,
        !s.seen_idat ==> first_idat(frames(png, at)->0, d),
    ensures
        ({
            let list = frames(png, at)->0;
            let t = parse_from(png, at, s, true)->Ok_0;
            &&& t.idat == s.idat + image_data(list)
            &&& t.ancillary == s.ancillary + carried(list, d).filter(no_transparency())
            &&& t.late_stores == s.late_stores + stores_behind(list, d)
            &&& t.plte == (if s.plte is Some {
                s.plte
            } else {
                first_payload(list.filter(|f: Frame| is_plte(f)))
            })
            &&& t.trns == (if s.trns is Some {
                s.trns
            } else {
                first_payload(list.filter(|f: Frame| is_trns(f) && f.intact))
            })
        }),
    decreases png.len() - at,
{
    names();
    one_chunk(png, at);
    let f = frame_at(png, at)->0;
    let c = chunk_at(png, at);
    let none = Seq::<Frame>::empty();
    let clear = no_transparency();
    nothing_carried();
    reveal(Seq::filter);
    assert(is_idat(f) ==> f.name[0] == 0x49 && f.name[1] == 0x44);
    assert(is_plte(f) ==> f.name[0] == 0x50);
    assert(is_trns(f) ==> f.name[0] == 0x74);
    assert(is_cabx(f) ==> f.name[0] == 0x63);
    if f.name == IEND@ {
        assert(seq![f] + none =~= seq![f]);
        one_more_in_front(f, none, 0);
        assert(none.skip(0) =~= none);
        assert(s.idat + Seq::<u8>::empty() =~= s.idat);
        assert(carried(seq![f], d) == Seq::<(Seq<u8>, Seq<u8>)>::empty());
        assert(s.ancillary + Seq::<(Seq<u8>, Seq<u8>)>::empty() =~= s.ancillary);
        assert(stores_behind(none, 0) == 0);
        if d == 1 {
            assert(first_idat(seq![f], 1));
        }
    } else {
        let rest = frames(png, c.end)->0;
        let list = seq![f] + rest;
        assert(list[0] == f);
        assert forall|i: int| 0 <= i < rest.len() implies #[trigger] rest[i] == list[i + 1] by {}
        let t = parse_step(s, c, true)->Go_0;
        let e = if d == 0 {
            0
        } else {
            d - 1
        };
        if !s.seen_idat && !is_idat(f) {
            assert(d >= 1);
            assert(first_idat(rest, e));
        }
        read_from(png, c.end, t, e);
        one_more_in_front(f, rest, e);
        filter_first((f.name, f.data), carried(rest, e), clear);
        assert(s.idat + (f.data + image_data(rest)) =~= s.idat + f.data + image_data(rest));
        assert(s.ancillary + (seq![(f.name, f.data)] + carried(rest, e).filter(clear))
            =~= s.ancillary.push((f.name, f.data)) + carried(rest, e).filter(clear));
    }
}

/// Where a stream is accepted, the header's chunk is the first and the rest is read behind it.
proof fn header_first(png: Seq<u8>)
    ensures
        opening(png) matches Ok((h, at)) ==> {
            &&& frame_at(png, 8) matches Some(f) && f.name == IHDR@ && f.intact && at == 20 + f.data.len()
            &&& frames(png, 8) == (match frames(png, at) {
                None => None::<Seq<Frame>>,
                Some(rest) => Some(seq![frame_at(png, 8)->0] + rest),
            })
        },
{
    names();
    one_chunk(png, 8);
}

/// A decoder accepts a stream exactly where its header is valid and its chunks are [`orderly`].
pub proof fn accepted_streams_are_orderly(png: Seq<u8>, want: bool)
    ensures
        parsed_stream(png, want) is Ok <==> opening(png) is Ok && (frames(png, 8) matches Some(list)
            && orderly(list)),
{
    names();
    header_first(png);
    if let Ok((h, at)) = opening(png) {
        let f = frame_at(png, 8)->0;
        assert(f.name[0] == 0x49 && f.name[1] == 0x48);
        accepted_from(png, at, nothing_read(), want);
        if let Some(rest) = frames(png, at) {
            last_frame_is_the_end(png, at);
            let list = seq![f] + rest;
            assert(list[0] == f);
            assert(list.last() == rest.last());
            assert forall|i: int| 0 <= i < rest.len() implies #[trigger] rest[i] == list[i + 1] by {}
            assert(!is_idat(f) && !is_plte(f) && !is_trns(f) && !may_be_skipped(f));
            if orderly(list) {
                let k = choose|i: int| 0 <= i < list.len() && is_idat(#[trigger] list[i]);
                assert(rest[k - 1] == list[k]);
                assert(goes_on(rest, nothing_read()));
            }
            if goes_on(rest, nothing_read()) {
                assert forall|i: int| 0 < i < list.len() implies #[trigger] list[i] == rest[i - 1] by {}
                let k = choose|i: int| 0 <= i < rest.len() && is_idat(#[trigger] rest[i]);
                assert(is_idat(list[k + 1]));
                assert(orderly(list));
            }
        }
    }
}

/// Where a stream is accepted, what is read of it is all that its chunks hold: the payloads of the IDAT
/// chunks one behind the other, the palette, the first intact tRNS, and every intact ancillary chunk in file
/// order, before and behind the image data, but for the caBX behind it, which are counted.
pub proof fn an_accepted_stream_is_read_whole(png: Seq<u8>, d: int)
    requires
        parsed_stream(png, true) is Ok,
        frames(png, 8) matches Some(list) && first_idat(list, d),
    ensures
        ({
            let list = frames(png, 8)->0;
            let p = parsed_stream(png, true)->Ok_0.1;
            &&& p.idat == list.filter(|f: Frame| is_idat(f)).map_values(|f: Frame| f.data).flatten()
            &&& p.ancillary == carried(list, d).filter(
                |c: (Seq<u8>, Seq<u8>)| c.0 != seq![0x74u8, 0x52, 0x4E, 0x53],
            )
            &&& p.late_stores == stores_behind(list, d)
            &&& p.plte == first_payload(list.filter(|f: Frame| is_plte(f)))
            &&& p.trns == first_payload(list.filter(|f: Frame| is_trns(f) && f.intact))
        }),
{
    names();
    header_first(png);
    let at = opening(png)->Ok_0.1;
    let f = frame_at(png, 8)->0;
    assert(f.name[0] == 0x49 && f.name[1] == 0x48);
    let list = frames(png, 8)->0;
    let rest = frames(png, at)->0;
    assert(list[0] == f);
    assert forall|i: int| 0 <= i < rest.len() implies #[trigger] rest[i] == list[i + 1] by {}
    assert(first_idat(rest, d - 1));
    read_from(png, at, nothing_read(), d - 1);
    one_more_in_front(f, rest, d - 1);
    let t = parse_from(png, at, nothing_read(), true)->Ok_0;
    assert(t.idat =~= image_data(list));
    assert(t.ancillary =~= carried(list, d).filter(no_transparency()));
    assert(no_transparency() =~= (|c: (Seq<u8>, Seq<u8>)| c.0 != seq![0x74u8, 0x52, 0x4E, 0x53]));
}

/// The chunks that are left of a metadata walk.
spec fn walks_on(list: Seq<Frame>) -> bool {
    &&& list.len() >= 1
    &&& list.last().data.len() == 0
    &&& list.last().intact
    &&& forall|i: int| 0 <= i < list.len() ==> (#[trigger] list[i]).name != seq![0x49u8, 0x48, 0x44, 0x52]
    &&& forall|i: int|
        0 <= i < list.len() && !may_be_skipped(#[trigger] list[i]) ==> i == list.len() - 1 || is_idat(
            list[i],
        ) || is_plte(list[i])
}

/// What a metadata walk finds from a state on.
proof fn walked_from(png: Seq<u8>, at: int, s: WalkState, d: int)
    requires
        at >= 0,
        s.seen_idat ==> d == 0,
        !s.seen_idat ==> (frames(png, at) matches Some(list) ==> first_idat(list, d)),
    ensures
        walk_from(png, at, s) is Ok <==> (frames(png, at) matches Some(list) && walks_on(list)),
        walk_from(png, at, s) matches Ok(t) ==> {
            let list = frames(png, at)->0;
            &&& t.chunks == s.chunks + carried(list, d)
            &&& t.late_stores == s.late_stores + stores_behind(list, d)
        },
    decreases png.len() - at,
{
    names();
    one_chunk(png, at);
    if let Some(f) = frame_at(png, at) {
        let c = chunk_at(png, at);
        let none = Seq::<Frame>::empty();
        nothing_carried();
        reveal(Seq::filter);
        assert(is_idat(f) ==> f.name[0] == 0x49 && f.name[1] == 0x44);
        assert(is_plte(f) ==> f.name[0] == 0x50);
        assert(is_cabx(f) ==> f.name[0] == 0x63);
        if f.name == IEND@ {
            assert(seq![f] + none =~= seq![f]);
            one_more_in_front(f, none, 0);
            assert(none.skip(0) =~= none);
            assert(carried(seq![f], d) == Seq::<(Seq<u8>, Seq<u8>)>::empty());
            assert(s.chunks + Seq::<(Seq<u8>, Seq<u8>)>::empty() =~= s.chunks);
            assert(stores_behind(none, 0) == 0);
            assert(seq![f][0] == f);
            if d == 1 {
                assert(first_idat(seq![f], 1));
            }
        } else {
            let step = walk_step(s, c);
            let e = if d == 0 || is_idat(f) {
                0
            } else {
                d - 1
            };
            if let Some(rest) = frames(png, c.end) {
                let list = seq![f] + rest;
                assert(list[0] == f);
                last_frame_is_the_end(png, c.end);
                assert(list.last() == rest.last());
                assert forall|i: int| 0 <= i < rest.len() implies #[trigger] rest[i] == list[i + 1] by {}
                assert forall|i: int| 0 < i < list.len() implies #[trigger] list[i] == rest[i - 1] by {}
                if !s.seen_idat && !is_idat(f) {
                    assert(d >= 1);
                    assert(first_idat(rest, e));
                }
                one_more_in_front(f, rest, e);
                assert(walks_on(list) <==> step is Go && walks_on(rest));
                assert(s.chunks + (seq![(f.name, f.data)] + carried(rest, e)) =~= s.chunks.push(
                    (f.name, f.data),
                ) + carried(rest, e));
            }
            if let WalkStep::Go(t) = step {
                walked_from(png, c.end, t, e);
            }
        }
    }
}

/// A metadata walk takes every stream whose header is valid, whose IEND is intact and empty, and that holds
/// no critical chunk between them but PLTE and IDAT, in whatever order. What it finds is every intact
/// ancillary chunk in file order, before and behind the image data, but for the caBX behind it, which are
/// counted.
pub proof fn a_metadata_walk_finds_every_chunk(png: Seq<u8>, d: int)
    requires
        opening(png) is Ok,
        frames(png, 8) matches Some(list) ==> first_idat(list, d),
    ensures
        walked_stream(png) is Ok <==> (frames(png, 8) matches Some(list) && list.last().intact
            && list.last().data.len() == 0 && forall|i: int|
            0 < i < list.len() - 1 ==> may_be_skipped(#[trigger] list[i]) || is_idat(list[i])
                || is_plte(list[i])),
        walked_stream(png) matches Ok(w) ==> {
            let list = frames(png, 8)->0;
            &&& w.chunks == carried(list, d)
            &&& w.late_stores == stores_behind(list, d)
        },
{
    names();
    header_first(png);
    let at = opening(png)->Ok_0.1;
    let f = frame_at(png, 8)->0;
    assert(f.name[0] == 0x49 && f.name[1] == 0x48);
    if let Some(rest) = frames(png, at) {
        let list = seq![f] + rest;
        assert(list[0] == f);
        last_frame_is_the_end(png, at);
        assert(list.last() == rest.last());
        assert forall|i: int| 0 <= i < rest.len() implies #[trigger] rest[i] == list[i + 1] by {}
        assert forall|i: int| 0 < i < list.len() implies #[trigger] list[i] == rest[i - 1] by {}
        assert(first_idat(rest, d - 1));
        one_more_in_front(f, rest, d - 1);
        header_is_not_ancillary(list);
        walked_from(png, at, nothing_walked(), d - 1);
        assert(Seq::<(Seq<u8>, Seq<u8>)>::empty() + carried(rest, d - 1) =~= carried(rest, d - 1));
    } else {
        walked_from(png, at, nothing_walked(), 0);
    }
}

/// A second header is neither an IDAT nor a PLTE, nor one that may be skipped.
proof fn header_is_not_ancillary(list: Seq<Frame>)
    ensures
        forall|i: int|
            0 <= i < list.len() && (may_be_skipped(#[trigger] list[i]) || is_idat(list[i]) || is_plte(
                list[i],
            )) ==> list[i].name != seq![0x49u8, 0x48, 0x44, 0x52],
        seq![0x49u8, 0x45, 0x4E, 0x44] != seq![0x49u8, 0x48, 0x44, 0x52],
{
    let h = seq![0x49u8, 0x48, 0x44, 0x52];
    assert(h[0] == 0x49 && h[1] == 0x48);
    assert(seq![0x49u8, 0x45, 0x4E, 0x44][1] == 0x45);
    assert(seq![0x49u8, 0x44, 0x41, 0x54][1] == 0x44);
    assert(seq![0x50u8, 0x4C, 0x54, 0x45][0] == 0x50);
}

/// What a survey gathers from a state on.
proof fn surveyed_from(png: Seq<u8>, at: int, s: Survey, max_chunks: int)
    requires
        at >= 0,
        frames(png, at) is Some,
    ensures
        survey_from(png, at, s, max_chunks) is Some <==> s.segments.len() - 1 + frames(png, at)->0.len()
            <= max_chunks,
        survey_from(png, at, s, max_chunks) matches Some(t) ==> {
            let list = frames(png, at)->0;
            &&& t.idat == s.idat + image_data(list)
            &&& t.segments.len() == s.segments.len() + list.len() + (if frames_end(png, at) < png.len() {
                1int
            } else {
                0
            })
            &&& frames_end(png, at) < png.len() ==> t.segments.last().kind is Trailer
            &&& forall|i: int| 0 <= i < s.segments.len() ==> t.segments[i] == #[trigger] s.segments[i]
            &&& forall|i: int|
                0 <= i < list.len() ==> t.segments[s.segments.len() + i].kind
                    == #[trigger] segment_kind(list[i])
        },
    decreases png.len() - at,
{
    names();
    one_chunk(png, at);
    let f = frame_at(png, at)->0;
    let c = chunk_at(png, at);
    let next = survey_step(s, c);
    let none = Seq::<Frame>::empty();
    nothing_carried();
    assert(is_idat(f) ==> f.name[1] == 0x44);
    if f.name == IEND@ {
        assert(seq![f] + none =~= seq![f]);
        one_more_in_front(f, none, 0);
        assert(s.idat + Seq::<u8>::empty() =~= s.idat);
        assert(seq![f][0] == f);
    } else {
        let rest = frames(png, c.end)->0;
        let list = seq![f] + rest;
        last_frame_is_the_end(png, c.end);
        surveyed_from(png, c.end, next, max_chunks);
        one_more_in_front(f, rest, 0);
        assert(s.idat + (f.data + image_data(rest)) =~= s.idat + f.data + image_data(rest));
        if let Some(t) = survey_from(png, at, s, max_chunks) {
            assert(t.segments[s.segments.len() as int] == next.segments[s.segments.len() as int]);
            assert forall|i: int| 0 <= i < s.segments.len() implies t.segments[i]
                == #[trigger] s.segments[i] by {
                assert(next.segments[i] == s.segments[i]);
            }
            assert forall|i: int| 0 <= i < list.len() implies t.segments[s.segments.len() + i].kind
                == #[trigger] segment_kind(list[i]) by {
                if i > 0 {
                    assert(list[i] == rest[i - 1]);
                    assert(t.segments[next.segments.len() + (i - 1)].kind == segment_kind(rest[i - 1]));
                }
            }
        }
    }
}

/// What a segment says of a chunk.
pub open spec fn segment_kind(f: Frame) -> KindModel {
    KindModel::Chunk { chunk_type: f.name, payload_len: f.data.len() as int, crc_ok: f.intact }
}

/// A survey of a file that reaches its IEND lists every chunk in file order behind the signature, and what
/// stands behind the IEND as a trailer. It holds the payloads of the IDAT chunks one behind the other, and is
/// refused exactly where the chunks are more than admitted.
pub proof fn a_survey_lists_every_chunk(png: Seq<u8>, max_chunks: int)
    requires
        opening(png) is Ok,
        frames(png, 8) is Some,
    ensures
        surveyed(png, max_chunks) is Ok <==> frames(png, 8)->0.len() <= max_chunks,
        surveyed(png, max_chunks) matches Ok((h, s)) ==> {
            let list = frames(png, 8)->0;
            &&& h == opening(png)->Ok_0.0
            &&& s.idat == list.filter(|f: Frame| is_idat(f)).map_values(|f: Frame| f.data).flatten()
            &&& s.segments.len() == 1 + list.len() + (if frames_end(png, 8) < png.len() {
                1int
            } else {
                0
            })
            &&& s.segments[0] == (SegmentModel { start: 0, end: 8, kind: KindModel::Signature })
            &&& frames_end(png, 8) < png.len() ==> s.segments.last().kind is Trailer
            &&& forall|i: int|
                0 <= i < list.len() ==> s.segments[1 + i].kind == #[trigger] segment_kind(list[i])
        },
{
    surveyed_from(png, 8, signature_seen(), max_chunks);
    assert(signature_seen().segments[0] == (SegmentModel { start: 0, end: 8, kind: KindModel::Signature }));
    assert(Seq::<u8>::empty() + image_data(frames(png, 8)->0) =~= image_data(frames(png, 8)->0));
}

/// A survey and a decode hold the same compressed image: of a file that a decoder accepts, the survey
/// inflates the very stream that the decoder does, and it refuses the file for nothing but the number of its
/// chunks.
pub proof fn a_survey_holds_the_stream_that_is_decoded(png: Seq<u8>, want: bool, max_chunks: int)
    requires
        parsed_stream(png, want) is Ok,
    ensures
        frames(png, 8) is Some,
        surveyed(png, max_chunks) is Ok <==> frames(png, 8)->0.len() <= max_chunks,
        surveyed(png, max_chunks) matches Ok((h, s)) ==> s.idat == parsed_stream(png, want)->Ok_0.1.idat
            && h == parsed_stream(png, want)->Ok_0.0,
{
    accepted_streams_are_orderly(png, want);
    crate::parse::metadata_does_not_affect_the_image(png);
    let list = frames(png, 8)->0;
    let d = first_idat_is_somewhere(list);
    an_accepted_stream_is_read_whole(png, d);
    a_survey_lists_every_chunk(png, max_chunks);
}

/// The first IDAT of a list is somewhere, or there is none.
pub proof fn first_idat_is_somewhere(list: Seq<Frame>) -> (d: int)
    ensures
        first_idat(list, d),
    decreases list.len(),
{
    if list.len() == 0 {
        0
    } else {
        let front = list.drop_last();
        let e = first_idat_is_somewhere(front);
        assert forall|i: int| 0 <= i < front.len() implies #[trigger] list[i] == front[i] by {}
        assert forall|i: int| 0 <= i < front.len() implies #[trigger] front[i] == list[i] by {}
        if e < front.len() || is_idat(list.last()) {
            assert(first_idat(list, e));
            e
        } else {
            assert(first_idat(list, e + 1));
            e + 1
        }
    }
}

/// Filtering a list filters all but its last element and that one.
proof fn filter_push<A>(list: Seq<A>, x: A, keep: spec_fn(A) -> bool)
    ensures
        list.push(x).filter(keep) == (if keep(x) {
            list.filter(keep).push(x)
        } else {
            list.filter(keep)
        }),
{
    reveal(Seq::filter);
    assert(list.push(x).drop_last() =~= list);
}

/// What one more intact ancillary chunk directly before the last one adds to what is carried.
proof fn one_more_before_the_end(front: Seq<Frame>, f: Frame, end: Frame, d: int) -> (e: int)
    requires
        first_idat(front.push(end), d),
        may_be_skipped(f),
        f.intact,
        !is_cabx(f),
        !is_idat(f),
        !may_be_skipped(end),
        !is_idat(end),
        !is_cabx(end),
    ensures
        first_idat(front.push(f).push(end), e),
        carried(front.push(f).push(end), e) == carried(front.push(end), d).push((f.name, f.data)),
        stores_behind(front.push(f).push(end), e) == stores_behind(front.push(end), d),
{
    let short = front.push(end);
    let long = front.push(f).push(end);
    let early = |f: Frame| may_be_skipped(f) && f.intact;
    let late = |f: Frame| may_be_skipped(f) && f.intact && !is_cabx(f);
    let store = |f: Frame| is_cabx(f) && f.intact;
    let n = front.len() as int;
    assert forall|i: int| 0 <= i < n implies #[trigger] long[i] == short[i] by {}
    assert(long[n] == f && long[n + 1] == end && short[n] == end);
    if d <= n {
        assert(d < n || !is_idat(short[n]));
        assert(d < n);
        assert(first_idat(long, d));
        assert(long.take(d) =~= short.take(d));
        let (a, b) = (short.skip(d), long.skip(d));
        let rest = front.skip(d);
        assert(a =~= rest.push(end));
        assert(b =~= rest.push(f).push(end));
        filter_push(rest, end, late);
        filter_push(rest, f, late);
        filter_push(rest.push(f), end, late);
        filter_push(rest, end, store);
        filter_push(rest, f, store);
        filter_push(rest.push(f), end, store);
        let kept = rest.filter(late);
        assert(contents_of(kept.push(f)) =~= contents_of(kept).push((f.name, f.data)));
        assert(carried(long, d) =~= carried(short, d).push((f.name, f.data)));
        d
    } else {
        assert(d == n + 1);
        assert forall|i: int| 0 <= i < n + 2 implies !is_idat(#[trigger] long[i]) by {
            if i < n {
                assert(!is_idat(short[i]));
            }
        }
        assert(first_idat(long, n + 2));
        assert(short.take(n + 1) =~= short);
        assert(long.take(n + 2) =~= long);
        assert(short.skip(n + 1) =~= Seq::<Frame>::empty());
        assert(long.skip(n + 2) =~= Seq::<Frame>::empty());
        filter_push(front, end, early);
        filter_push(front, f, early);
        filter_push(front.push(f), end, early);
        let kept = front.filter(early);
        assert(contents_of(kept.push(f)) =~= contents_of(kept).push((f.name, f.data)));
        assert(carried(long, n + 2) =~= carried(short, n + 1).push((f.name, f.data)));
        n + 2
    }
}

/// An annotation directly before IEND, behind the image data, is read like any other: of two files whose
/// chunks are the same but for one intact tEXt before the IEND, the metadata of the longer one is that of
/// the other with the annotation behind every other one.
pub proof fn a_text_behind_the_image_is_read(
    png: Seq<u8>,
    longer: Seq<u8>,
    keyword: Seq<u8>,
    text: Seq<u8>,
    budget: int,
)
    requires
        opening(png) is Ok,
        opening(longer) is Ok,
        1 <= keyword.len() <= 79,
        forall|i: int| 0 <= i < keyword.len() ==> (#[trigger] keyword[i]) != 0,
        frames(png, 8) is Some,
        frames(longer, 8) == Some(
            frames(png, 8)->0.drop_last().push(
                Frame {
                    name: seq![0x74u8, 0x45, 0x58, 0x74],
                    data: keyword + seq![0u8] + text,
                    intact: true,
                },
            ).push(frames(png, 8)->0.last()),
        ),
        metadata_of_file(png, budget) is Ok,
    ensures
        metadata_of_file(longer, budget) matches Ok(m) && m == (MetadataModel {
            texts: metadata_of_file(png, budget)->Ok_0.texts.push(
                TextModel {
                    keyword: latin1_chars(keyword),
                    text: latin1_chars(text),
                    language: None,
                    translated_keyword: None,
                    kind: TextChunkKind::Text,
                },
            ),
            ..metadata_of_file(png, budget)->Ok_0
        }),
{
    let list = frames(png, 8)->0;
    let front = list.drop_last();
    let end = list.last();
    let data = keyword + seq![0u8] + text;
    let f = Frame { name: seq![0x74u8, 0x45, 0x58, 0x74], data, intact: true };
    last_frame_is_the_end(png, 8);
    assert(list =~= front.push(end));
    let long = front.push(f).push(end);
    assert(f.name[0] == 0x74 && f.name[1] == 0x45);
    assert(end.name[0] == 0x49 && end.name[1] == 0x45);
    assert(is_idat(f) ==> f.name[0] == 0x49);
    assert(is_cabx(f) ==> f.name[0] == 0x63);
    assert(is_idat(end) ==> end.name[1] == 0x44);
    assert(is_cabx(end) ==> end.name[0] == 0x63);
    let d = first_idat_is_somewhere(list);
    let e = one_more_before_the_end(front, f, end, d);
    a_metadata_walk_finds_every_chunk(png, d);
    assert forall|i: int| 0 < i < long.len() - 1 implies may_be_skipped(#[trigger] long[i]) || is_idat(
        long[i],
    ) || is_plte(long[i]) by {
        if i < front.len() {
            assert(long[i] == list[i]);
        }
    }
    assert(long.last() == end);
    a_metadata_walk_finds_every_chunk(longer, e);
    let w = walked_stream(png)->Ok_0;
    assert(TEXT@ =~= seq![0x74u8, 0x45, 0x58, 0x74]);
    crate::wire::a_last_text_is_the_last_annotation(w.chunks, keyword, text, budget);
}

} // verus!
