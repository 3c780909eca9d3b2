//! An encoded file as a list of chunks, and how a reader walks it.
use crate::ancillary::{
    ancillary_strength, chunk_if, text_chunk, text_chunks, Ancillary, EntryModel, TextKind,
};
use crate::chunk::{
    chunk_at, chunk_bytes, signature, written_chunk_reads_back, ChunkModel, BKGD, CABX, CHRM, CICP,
    EXIF, GAMA, ICCP, IDAT, IEND, IHDR, ITXT, PHYS, PLTE, SBIT, SRGB, TEXT, TIME, TRNS, ZTXT,
};
use crate::encoder::{idat_chunks, FileModel, PngEncoder, IDAT_MAX};
use crate::error::{Cause, Error};
use crate::ihdr::ihdr_payload;
use crate::parse::{error_of, parse_from, parse_step, ParseState, ParseStep};
use crate::zlib::zlib_stream;
use vstd::prelude::*;

verus! {

/// The type and the payload of a chunk.
pub type Pair = (Seq<u8>, Seq<u8>);

/// The bytes of a list of chunks.
pub open spec fn run_bytes(list: Seq<Pair>) -> Seq<u8>
    decreases list.len(),
{
    if list.len() == 0 {
        Seq::empty()
    } else {
        chunk_bytes(list[0].0, list[0].1) + run_bytes(list.drop_first())
    }
}

/// Whether every chunk of a list can be framed: a four-byte type and a payload below 2 GiB.
pub open spec fn framable(list: Seq<Pair>) -> bool {
    forall|i: int|
        0 <= i < list.len() ==> (#[trigger] list[i]).0.len() == 4 && list[i].1.len() < 0x8000_0000
}

/// The bytes of two lists are those of the one list after the other.
pub proof fn run_bytes_concat(a: Seq<Pair>, b: Seq<Pair>)
    ensures
        run_bytes(a + b) == run_bytes(a) + run_bytes(b),
    decreases a.len(),
{
    if a.len() == 0 {
        assert(a + b =~= b);
        assert(run_bytes(a) + run_bytes(b) =~= run_bytes(b));
    } else {
        run_bytes_concat(a.drop_first(), b);
        assert((a + b).drop_first() =~= a.drop_first() + b);
        let head = chunk_bytes(a[0].0, a[0].1);
        assert(head + (run_bytes(a.drop_first()) + run_bytes(b)) =~= head + run_bytes(a.drop_first())
            + run_bytes(b));
    }
}

/// Where reading a list of chunks leads: it goes on behind the list, or it has ended or failed.
pub enum Walked {
    Running(ParseState),
    Ended(ParseState),
    Failed(Cause),
}

/// The effect of one intact chunk.
pub open spec fn pair_step(s: ParseState, pair: Pair, want: bool) -> ParseStep {
    parse_step(
        s,
        ChunkModel { chunk_type: pair.0, data: pair.1, crc_ok: true, start: 0, end: 0 },
        want,
    )
}

/// The effect of a list of intact chunks.
pub open spec fn walk_list(s: ParseState, list: Seq<Pair>, want: bool) -> Walked
    decreases list.len(),
{
    if list.len() == 0 {
        Walked::Running(s)
    } else {
        match pair_step(s, list[0], want) {
            ParseStep::Fail(cause) => Walked::Failed(cause),
            ParseStep::End(t) => Walked::Ended(t),
            ParseStep::Go(t) => walk_list(t, list.drop_first(), want),
        }
    }
}

/// What reading from a list on gives, where the list decides it or the rest is read from behind it.
pub open spec fn outcome(walked: Walked, rest: spec_fn(ParseState) -> Result<ParseState, Error>) -> Result<
    ParseState,
    Error,
> {
    match walked {
        Walked::Running(t) => rest(t),
        Walked::Ended(t) => if t.seen_idat {
            Ok(t)
        } else {
            Err(error_of(Cause::MissingIdat))
        },
        Walked::Failed(cause) => Err(error_of(cause)),
    }
}

/// Reading the bytes of a list of chunks has the effect of the list.
pub proof fn reading_a_run(
    before: Seq<u8>,
    list: Seq<Pair>,
    after: Seq<u8>,
    s: ParseState,
    want: bool,
)
    requires
        framable(list),
    ensures
        ({
            let png = before + run_bytes(list) + after;
            parse_from(png, before.len() as int, s, want) == outcome(
                walk_list(s, list, want),
                |t: ParseState|
                    parse_from(png, (before + run_bytes(list)).len() as int, t, want),
            )
        }),
    decreases list.len(),
{
    let png = before + run_bytes(list) + after;
    if list.len() == 0 {
        assert(before + run_bytes(list) =~= before);
    } else {
        let (kind, data) = list[0];
        let rest = list.drop_first();
        let head = chunk_bytes(kind, data);
        assert(framable(rest)) by {
            assert forall|i: int| 0 <= i < rest.len() implies (#[trigger] rest[i]).0.len() == 4
                && rest[i].1.len() < 0x8000_0000 by {
                assert(rest[i] == list[i + 1]);
            }
        }
        written_chunk_reads_back(before, kind, data, run_bytes(rest) + after);
        assert(before + head + (run_bytes(rest) + after) =~= png);
        reveal(chunk_bytes);
        assert(head.len() == 12 + data.len());
        let at = before.len() as int;
        let chunk = chunk_at(png, at);
        assert(parse_step(s, chunk, want) == pair_step(s, list[0], want));
        match pair_step(s, list[0], want) {
            ParseStep::Go(t) => {
                reading_a_run(before + head, rest, after, t, want);
                assert(before + head + run_bytes(rest) + after =~= png);
                assert(before + head + run_bytes(rest) =~= before + run_bytes(list));
            },
            _ => {},
        }
    }
}

/// The effect of two lists is the effect of the one after the other.
pub proof fn walk_list_concat(s: ParseState, a: Seq<Pair>, b: Seq<Pair>, want: bool)
    ensures
        walk_list(s, a + b, want) == (match walk_list(s, a, want) {
            Walked::Running(t) => walk_list(t, b, want),
            other => other,
        }),
    decreases a.len(),
{
    if a.len() == 0 {
        assert(a + b =~= b);
    } else {
        assert((a + b).drop_first() =~= a.drop_first() + b);
        match pair_step(s, a[0], want) {
            ParseStep::Go(t) => {
                walk_list_concat(t, a.drop_first(), b, want);
            },
            _ => {},
        }
    }
}

/// The chunk of an optional payload.
pub open spec fn opt_pair(chunk_type: Seq<u8>, payload: Option<Seq<u8>>) -> Seq<Pair> {
    match payload {
        Some(data) => seq![(chunk_type, data)],
        None => Seq::empty(),
    }
}

pub proof fn one_run(pair: Pair)
    ensures
        run_bytes(seq![pair]) == chunk_bytes(pair.0, pair.1),
{
    reveal_with_fuel(run_bytes, 2);
    let list = seq![pair];
    assert(list.drop_first() =~= Seq::<Pair>::empty());
    assert(run_bytes(list) =~= chunk_bytes(pair.0, pair.1));
}

proof fn opt_run(chunk_type: Seq<u8>, payload: Option<Seq<u8>>)
    ensures
        run_bytes(opt_pair(chunk_type, payload)) == chunk_if(chunk_type, payload),
{
    match payload {
        Some(data) => {
            one_run((chunk_type, data));
        },
        None => {},
    }
}

/// The chunk that carries an annotation.
pub open spec fn text_pair(entry: EntryModel, effort: u8) -> Pair {
    let head = entry.keyword + seq![0u8];
    let deflated = zlib_stream(entry.text, ancillary_strength(effort));
    match entry.kind {
        TextKind::Latin1 => (TEXT@, head + entry.text),
        TextKind::Compressed => (ZTXT@, head + seq![0u8] + deflated),
        TextKind::International => (
            ITXT@,
            head + seq![0u8, 0u8] + entry.language + seq![0u8] + entry.translated + seq![0u8]
                + entry.text,
        ),
        TextKind::InternationalCompressed => (
            ITXT@,
            head + seq![1u8, 0u8] + entry.language + seq![0u8] + entry.translated + seq![0u8]
                + deflated,
        ),
    }
}

/// The chunks that carry annotations: those that were not left behind, in order.
pub open spec fn text_pairs(entries: Seq<EntryModel>, effort: u8) -> Seq<Pair>
    decreases entries.len(),
{
    if entries.len() == 0 {
        Seq::empty()
    } else {
        text_pairs(entries.drop_last(), effort) + (if entries.last().is_written() {
            seq![text_pair(entries.last(), effort)]
        } else {
            Seq::empty()
        })
    }
}

/// The chunks that carry annotations are text chunks.
pub proof fn text_pairs_are_texts(entries: Seq<EntryModel>, effort: u8)
    ensures
        forall|i: int|
            0 <= i < text_pairs(entries, effort).len() ==> {
                ||| (#[trigger] text_pairs(entries, effort)[i]).0 == TEXT@
                ||| text_pairs(entries, effort)[i].0 == ZTXT@
                ||| text_pairs(entries, effort)[i].0 == ITXT@
            },
    decreases entries.len(),
{
    if entries.len() > 0 {
        let rest = text_pairs(entries.drop_last(), effort);
        let all = text_pairs(entries, effort);
        text_pairs_are_texts(entries.drop_last(), effort);
        assert forall|i: int| 0 <= i < all.len() implies {
            ||| (#[trigger] all[i]).0 == TEXT@
            ||| all[i].0 == ZTXT@
            ||| all[i].0 == ITXT@
        } by {
            if i < rest.len() {
                assert(all[i] == rest[i]);
            } else {
                assert(all[i] == text_pair(entries.last(), effort));
            }
        }
    }
}

proof fn text_run(entries: Seq<EntryModel>, effort: u8)
    ensures
        run_bytes(text_pairs(entries, effort)) == text_chunks(entries, effort),
    decreases entries.len(),
{
    if entries.len() > 0 {
        let rest = entries.drop_last();
        text_run(rest, effort);
        if entries.last().is_written() {
            let last = text_pair(entries.last(), effort);
            run_bytes_concat(text_pairs(rest, effort), seq![last]);
            one_run(last);
            assert(text_chunk(entries.last(), effort) == chunk_bytes(last.0, last.1));
        } else {
            assert(text_pairs(entries, effort) =~= text_pairs(rest, effort));
            assert(text_chunks(entries, effort) =~= text_chunks(rest, effort));
        }
    }
}

/// The IDAT chunks of an image data stream.
pub open spec fn idat_pairs(stream: Seq<u8>) -> Seq<Pair>
    decreases stream.len(),
{
    if stream.len() <= IDAT_MAX {
        seq![(IDAT@, stream)]
    } else {
        seq![(IDAT@, stream.subrange(0, IDAT_MAX as int))] + idat_pairs(
            stream.subrange(IDAT_MAX as int, stream.len() as int),
        )
    }
}

proof fn idat_run(stream: Seq<u8>)
    ensures
        run_bytes(idat_pairs(stream)) == idat_chunks(stream),
    decreases stream.len(),
{
    if stream.len() <= IDAT_MAX {
        one_run((IDAT@, stream));
    } else {
        let first = (IDAT@, stream.subrange(0, IDAT_MAX as int));
        let rest = stream.subrange(IDAT_MAX as int, stream.len() as int);
        idat_run(rest);
        run_bytes_concat(seq![first], idat_pairs(rest));
        one_run(first);
    }
}

/// The payloads of consecutive chunks, one after another.
pub open spec fn payloads(list: Seq<Pair>) -> Seq<u8>
    decreases list.len(),
{
    if list.len() == 0 {
        Seq::empty()
    } else {
        list[0].1 + payloads(list.drop_first())
    }
}

/// The image data is split into IDAT chunks of at most 64 KiB whose payloads, one after another, are
/// the stream.
pub proof fn idat_chunks_hold_the_stream(stream: Seq<u8>)
    ensures
        payloads(idat_pairs(stream)) == stream,
        idat_pairs(stream).len() >= 1,
        forall|i: int|
            0 <= i < idat_pairs(stream).len() ==> (#[trigger] idat_pairs(stream)[i]).0 == IDAT@
                && idat_pairs(stream)[i].1.len() <= IDAT_MAX,
    decreases stream.len(),
{
    let list = idat_pairs(stream);
    if stream.len() <= IDAT_MAX {
        reveal_with_fuel(payloads, 2);
        assert(list.drop_first() =~= Seq::<Pair>::empty());
        assert(payloads(list) =~= stream);
    } else {
        let first = (IDAT@, stream.subrange(0, IDAT_MAX as int));
        let rest = stream.subrange(IDAT_MAX as int, stream.len() as int);
        idat_chunks_hold_the_stream(rest);
        assert(list.drop_first() =~= idat_pairs(rest));
        assert(payloads(list) =~= stream);
        assert forall|i: int| 0 <= i < list.len() implies (#[trigger] list[i]).0 == IDAT@
            && list[i].1.len() <= IDAT_MAX by {
            if i > 0 {
                assert(list[i] == idat_pairs(rest)[i - 1]);
            }
        }
    }
}

impl PngEncoder {
    /// The chunks before PLTE.
    pub open spec fn pre_pairs(&self, f: FileModel) -> Seq<Pair> {
        let a = self.ancillary;
        opt_pair(CICP@, a.cicp_payload()) + opt_pair(CHRM@, a.chrm_payload()) + opt_pair(
            GAMA@,
            a.gama_payload(),
        ) + opt_pair(ICCP@, a.iccp_payload(self.effort)) + opt_pair(
            SBIT@,
            a.sbit_payload(f.written),
        ) + opt_pair(SRGB@, a.srgb_payload())
    }

    /// The ancillary chunks between PLTE and IDAT, but for the manifest store.
    pub open spec fn post_pairs(&self, f: FileModel) -> Seq<Pair> {
        let a = self.ancillary;
        opt_pair(EXIF@, Ancillary::stored(a.exif)) + opt_pair(BKGD@, f.bkgd) + opt_pair(
            PHYS@,
            a.phys_payload(),
        ) + opt_pair(TIME@, a.time_payload()) + text_pairs(a.entries(), self.effort)
    }

    /// The chunk of the manifest store.
    pub open spec fn store_pairs(&self) -> Seq<Pair> {
        opt_pair(CABX@, Ancillary::stored(self.ancillary.c2pa))
    }

    /// The image data stream of a file.
    pub open spec fn file_idat(&self, f: FileModel) -> Seq<u8> {
        self.idat_stream(
            f.bytes,
            crate::adam7::row_len(f.header.width as int, f.header.spec_bits_per_pixel()),
            crate::canvas::stride_of(f.header),
        )
    }

    /// The chunks of a file up to the manifest store.
    pub open spec fn leading_pairs(&self, f: FileModel) -> Seq<Pair> {
        seq![(IHDR@, ihdr_payload(f.header))] + self.pre_pairs(f) + opt_pair(PLTE@, f.plte)
            + opt_pair(TRNS@, f.trns) + self.post_pairs(f)
    }

    /// The chunks of a file from the image data on.
    pub open spec fn trailing_pairs(&self, f: FileModel) -> Seq<Pair> {
        idat_pairs(self.file_idat(f)) + seq![(IEND@, Seq::<u8>::empty())]
    }

    /// The chunks of a file.
    pub open spec fn file_pairs(&self, f: FileModel) -> Seq<Pair> {
        self.leading_pairs(f) + self.store_pairs() + self.trailing_pairs(f)
    }
}

proof fn pre_run(e: PngEncoder, f: FileModel)
    ensures
        run_bytes(e.pre_pairs(f)) == e.ancillary.pre_plte(e.effort, f.written),
{
    let a = e.ancillary;
    let p1 = opt_pair(CICP@, a.cicp_payload());
    let p2 = opt_pair(CHRM@, a.chrm_payload());
    let p3 = opt_pair(GAMA@, a.gama_payload());
    let p4 = opt_pair(ICCP@, a.iccp_payload(e.effort));
    let p5 = opt_pair(SBIT@, a.sbit_payload(f.written));
    let p6 = opt_pair(SRGB@, a.srgb_payload());
    opt_run(CICP@, a.cicp_payload());
    opt_run(CHRM@, a.chrm_payload());
    opt_run(GAMA@, a.gama_payload());
    opt_run(ICCP@, a.iccp_payload(e.effort));
    opt_run(SBIT@, a.sbit_payload(f.written));
    opt_run(SRGB@, a.srgb_payload());
    run_bytes_concat(p1, p2);
    run_bytes_concat(p1 + p2, p3);
    run_bytes_concat(p1 + p2 + p3, p4);
    run_bytes_concat(p1 + p2 + p3 + p4, p5);
    run_bytes_concat(p1 + p2 + p3 + p4 + p5, p6);
}

proof fn post_run(e: PngEncoder, f: FileModel)
    ensures
        run_bytes(e.post_pairs(f) + e.store_pairs()) == e.ancillary.post_plte_with(e.effort, f.bkgd),
{
    let a = e.ancillary;
    let p1 = opt_pair(EXIF@, Ancillary::stored(a.exif));
    let p2 = opt_pair(BKGD@, f.bkgd);
    let p3 = opt_pair(PHYS@, a.phys_payload());
    let p4 = opt_pair(TIME@, a.time_payload());
    let p5 = text_pairs(a.entries(), e.effort);
    opt_run(EXIF@, Ancillary::stored(a.exif));
    opt_run(BKGD@, f.bkgd);
    opt_run(PHYS@, a.phys_payload());
    opt_run(TIME@, a.time_payload());
    opt_run(CABX@, Ancillary::stored(a.c2pa));
    text_run(a.entries(), e.effort);
    run_bytes_concat(p1, p2);
    run_bytes_concat(p1 + p2, p3);
    run_bytes_concat(p1 + p2 + p3, p4);
    run_bytes_concat(p1 + p2 + p3 + p4, p5);
    run_bytes_concat(e.post_pairs(f), e.store_pairs());
}

/// A file is its signature and its chunks.
pub proof fn a_file_is_its_chunks(e: PngEncoder, f: FileModel)
    ensures
        e.file_of(f) == signature() + run_bytes(e.file_pairs(f)),
{
    let head = seq![(IHDR@, ihdr_payload(f.header))];
    let pre = e.pre_pairs(f);
    let plte = opt_pair(PLTE@, f.plte);
    let trns = opt_pair(TRNS@, f.trns);
    let post = e.post_pairs(f);
    let store = e.store_pairs();
    let idat = idat_pairs(e.file_idat(f));
    let end = seq![(IEND@, Seq::<u8>::empty())];
    one_run(head[0]);
    one_run(end[0]);
    pre_run(e, f);
    post_run(e, f);
    opt_run(PLTE@, f.plte);
    opt_run(TRNS@, f.trns);
    idat_run(e.file_idat(f));
    run_bytes_concat(head, pre);
    run_bytes_concat(head + pre, plte);
    run_bytes_concat(head + pre + plte, trns);
    run_bytes_concat(head + pre + plte + trns, post + store);
    run_bytes_concat(idat, end);
    run_bytes_concat(e.leading_pairs(f) + store, idat + end);
    assert(e.leading_pairs(f) + store =~= head + pre + plte + trns + (post + store));
    let parts = run_bytes(head) + run_bytes(pre) + run_bytes(plte) + run_bytes(trns) + run_bytes(
        post + store,
    );
    assert(run_bytes(e.leading_pairs(f) + store) == parts);
    assert(e.file_of(f) =~= signature() + (parts + (run_bytes(idat) + run_bytes(end))));
}

} // verus!
