//! What is read back from what was written.
use crate::adam7::{
    pass_bounds, pass_count, pass_height, pass_len, pass_of, pass_row_len, pass_width, passes_len,
    place_in_pass, row_len, stream_len,
};
use crate::ancillary::Ancillary;
use crate::canvas::{
    canvas, every_pass_restores, filtering_round_trip, pass_rows, pixel_of_index, row_samples,
    stride_of,
};
use crate::chunk::{
    ancillary_type, chunk_bytes, signature, written_chunk_reads_back, BKGD, CABX, CHRM, CICP, EXIF,
    GAMA, ICCP, IDAT, IEND, IHDR, ITXT, PHYS, PLTE, SBIT, SRGB, TEXT, TIME, TRNS, ZTXT,
};
use crate::decoder::{
    indices_in_range, limit_fault, native_of, palette_and_key, Limits, NativeModel,
};
use crate::encoder::{filtered_rows, FileModel, PngEncoder};
use crate::error::Error;
use crate::filter::{whole_rows, FilterStrategy};
use crate::ihdr::{header_round_trip, ihdr_payload, Ihdr};
use crate::layout::{
    a_file_is_its_chunks, framable, idat_pairs, opt_pair, pair_step, reading_a_run, run_bytes,
    text_pairs, text_pairs_are_texts, walk_list, walk_list_concat, Pair, Walked,
};
use crate::parse::{nothing_read, opening, parsed_stream, ParseState, ParseStep};
use crate::zlib::inflates_to;
use vstd::prelude::*;

verus! {

/// Whether a reader of the pixels passes over chunks of a type: ancillary, and not tRNS.
pub open spec fn passed_over(chunk_type: Seq<u8>) -> bool {
    &&& ancillary_type(chunk_type)
    &&& chunk_type != IHDR@
    &&& chunk_type != IEND@
    &&& chunk_type != IDAT@
    &&& chunk_type != PLTE@
    &&& chunk_type != TRNS@
}

/// Whether a reader of the pixels passes over every chunk of a list.
pub open spec fn all_passed_over(list: Seq<Pair>) -> bool {
    forall|i: int| 0 <= i < list.len() ==> passed_over((#[trigger] list[i]).0)
}

proof fn lower_case(b: u8)
    by (bit_vector)
    requires
        0x61 <= b <= 0x7A,
    ensures
        b & 0x20 != 0,
{
}

proof fn known_types_are_passed_over()
    ensures
        passed_over(CICP@),
        passed_over(CHRM@),
        passed_over(GAMA@),
        passed_over(ICCP@),
        passed_over(SBIT@),
        passed_over(SRGB@),
        passed_over(EXIF@),
        passed_over(BKGD@),
        passed_over(PHYS@),
        passed_over(TIME@),
        passed_over(TEXT@),
        passed_over(ZTXT@),
        passed_over(ITXT@),
        passed_over(CABX@),
{
    assert(IHDR@[0] == 0x49 && IEND@[0] == 0x49 && IDAT@[0] == 0x49 && PLTE@[0] == 0x50);
    assert(TRNS@[0] == 0x74 && TRNS@[1] == 0x52);
    assert(CICP@[0] == 0x63);
    assert(CHRM@[0] == 0x63);
    assert(GAMA@[0] == 0x67);
    assert(ICCP@[0] == 0x69);
    assert(SBIT@[0] == 0x73);
    assert(SRGB@[0] == 0x73);
    assert(EXIF@[0] == 0x65);
    assert(BKGD@[0] == 0x62);
    assert(PHYS@[0] == 0x70);
    assert(TIME@[0] == 0x74 && TIME@[1] == 0x49);
    assert(TEXT@[0] == 0x74 && TEXT@[1] == 0x45);
    assert(ZTXT@[0] == 0x7A);
    assert(ITXT@[0] == 0x69);
    assert(CABX@[0] == 0x63);
    lower_case(0x62);
    lower_case(0x63);
    lower_case(0x65);
    lower_case(0x67);
    lower_case(0x69);
    lower_case(0x70);
    lower_case(0x73);
    lower_case(0x74);
    lower_case(0x7A);
}

/// The chunks that a reader keeps of a list, where it wants the metadata or not.
pub open spec fn kept(list: Seq<Pair>, want: bool) -> Seq<Pair> {
    if want {
        list
    } else {
        Seq::empty()
    }
}

/// A reader of the pixels passes over ancillary chunks; a reader of the metadata collects them.
proof fn passing_over(s: ParseState, list: Seq<Pair>, want: bool)
    requires
        all_passed_over(list),
        !s.seen_idat,
    ensures
        walk_list(s, list, want) == Walked::Running(
            ParseState { ancillary: s.ancillary + kept(list, want), ..s },
        ),
    decreases list.len(),
{
    if list.len() > 0 {
        assert(passed_over(list[0].0));
        let t = ParseState { ancillary: s.ancillary + kept(seq![list[0]], want), ..s };
        assert(want ==> t.ancillary =~= s.ancillary.push(list[0]));
        assert(!want ==> t.ancillary =~= s.ancillary);
        assert(pair_step(s, list[0], want) == ParseStep::Go(t));
        let rest = list.drop_first();
        assert forall|i: int| 0 <= i < rest.len() implies passed_over((#[trigger] rest[i]).0) by {
            assert(rest[i] == list[i + 1]);
        }
        passing_over(t, rest, want);
        assert(t.ancillary + kept(rest, want) =~= s.ancillary + kept(list, want));
    } else {
        assert(s.ancillary + kept(list, want) =~= s.ancillary);
    }
}

proof fn both_passed_over(a: Seq<Pair>, b: Seq<Pair>)
    requires
        all_passed_over(a),
        all_passed_over(b),
    ensures
        all_passed_over(a + b),
{
    let all = a + b;
    assert forall|i: int| 0 <= i < all.len() implies passed_over((#[trigger] all[i]).0) by {
        if i < a.len() {
            assert(all[i] == a[i]);
        } else {
            assert(all[i] == b[i - a.len()]);
        }
    }
}

pub proof fn ancillary_lists_are_passed_over(e: PngEncoder, f: FileModel)
    ensures
        all_passed_over(e.pre_pairs(f)),
        all_passed_over(e.post_pairs(f)),
        all_passed_over(e.store_pairs()),
{
    known_types_are_passed_over();
    let a = e.ancillary;
    let p1 = opt_pair(CICP@, a.cicp_payload());
    let p2 = opt_pair(CHRM@, a.chrm_payload());
    let p3 = opt_pair(GAMA@, a.gama_payload());
    let p4 = opt_pair(ICCP@, a.iccp_payload(e.effort));
    let p5 = opt_pair(SBIT@, a.sbit_payload(f.written));
    let p6 = opt_pair(SRGB@, a.srgb_payload());
    both_passed_over(p1, p2);
    both_passed_over(p1 + p2, p3);
    both_passed_over(p1 + p2 + p3, p4);
    both_passed_over(p1 + p2 + p3 + p4, p5);
    both_passed_over(p1 + p2 + p3 + p4 + p5, p6);
    let q1 = opt_pair(EXIF@, Ancillary::stored(a.exif));
    let q2 = opt_pair(BKGD@, f.bkgd);
    let q3 = opt_pair(PHYS@, a.phys_payload());
    let q4 = opt_pair(TIME@, a.time_payload());
    let q5 = text_pairs(a.entries(), e.effort);
    text_pairs_are_texts(a.entries(), e.effort);
    both_passed_over(q1, q2);
    both_passed_over(q1 + q2, q3);
    both_passed_over(q1 + q2 + q3, q4);
    both_passed_over(q1 + q2 + q3 + q4, q5);
}

/// The effect of the image data chunks: their payloads, concatenated.
proof fn reading_the_image_data(s: ParseState, stream: Seq<u8>, want: bool)
    requires
        !s.idat_done,
    ensures
        walk_list(s, idat_pairs(stream), want) == Walked::Running(
            ParseState { seen_idat: true, idat: s.idat + stream, ..s },
        ),
    decreases stream.len(),
{
    assert(IHDR@[1] == 0x48 && IEND@[1] == 0x45 && IDAT@[1] == 0x44);
    reveal_with_fuel(walk_list, 2);
    let list = idat_pairs(stream);
    if stream.len() <= crate::encoder::IDAT_MAX {
        assert(list.drop_first() =~= Seq::<Pair>::empty());
    } else {
        let first = stream.subrange(0, crate::encoder::IDAT_MAX as int);
        let rest = stream.subrange(crate::encoder::IDAT_MAX as int, stream.len() as int);
        let t = ParseState { seen_idat: true, idat: s.idat + first, ..s };
        assert(list[0] == (IDAT@, first));
        assert(pair_step(s, list[0], want) == ParseStep::Go(t));
        assert(list.drop_first() =~= idat_pairs(rest));
        reading_the_image_data(t, rest, want);
        assert(s.idat + first + rest =~= s.idat + stream);
    }
}

/// What a reader of the pixels collects from a file.
pub open spec fn collected_from(e: PngEncoder, f: FileModel) -> ParseState {
    ParseState { plte: f.plte, trns: f.trns, idat: e.file_idat(f), seen_idat: true, idat_done: true, ..nothing_read() }
}

/// The ancillary chunks of a file.
pub open spec fn ancillary_pairs(e: PngEncoder, f: FileModel) -> Seq<Pair> {
    e.pre_pairs(f) + e.post_pairs(f) + e.store_pairs()
}

/// What a reader collects from a file that it reads with or without its metadata.
pub open spec fn gathered_from(e: PngEncoder, f: FileModel, want: bool) -> ParseState {
    ParseState { ancillary: kept(ancillary_pairs(e, f), want), ..collected_from(e, f) }
}

/// Chunks regrouped for reading behind the header.
proof fn regrouped(
    head: Seq<Pair>,
    pre: Seq<Pair>,
    plte: Seq<Pair>,
    trns: Seq<Pair>,
    post: Seq<Pair>,
    store: Seq<Pair>,
    tail: Seq<Pair>,
)
    requires
        head.len() == 1,
    ensures
        ((head + pre + plte + trns + post) + store + tail).drop_first() == pre + (plte + (trns + (
        post + (store + tail)))),
{
    let all = (head + pre + plte + trns + post) + store + tail;
    assert(all =~= head + (pre + (plte + (trns + (post + (store + tail))))));
    assert(all.drop_first() =~= pre + (plte + (trns + (post + (store + tail)))));
}

proof fn walk_parts(
    s: Seq<ParseState>,
    done: Walked,
    pre: Seq<Pair>,
    plte: Seq<Pair>,
    trns: Seq<Pair>,
    post: Seq<Pair>,
    store: Seq<Pair>,
    idat: Seq<Pair>,
    end: Seq<Pair>,
    want: bool,
)
    requires
        s.len() == 7,
        walk_list(s[0], pre, want) == Walked::Running(s[1]),
        walk_list(s[1], plte, want) == Walked::Running(s[2]),
        walk_list(s[2], trns, want) == Walked::Running(s[3]),
        walk_list(s[3], post, want) == Walked::Running(s[4]),
        walk_list(s[4], store, want) == Walked::Running(s[5]),
        walk_list(s[5], idat, want) == Walked::Running(s[6]),
        walk_list(s[6], end, want) == done,
    ensures
        walk_list(s[0], pre + (plte + (trns + (post + (store + (idat + end))))), want) == done,
{
    walk_list_concat(s[5], idat, end, want);
    walk_list_concat(s[4], store, idat + end, want);
    walk_list_concat(s[3], post, store + (idat + end), want);
    walk_list_concat(s[2], trns, post + (store + (idat + end)), want);
    walk_list_concat(s[1], plte, trns + (post + (store + (idat + end))), want);
    walk_list_concat(s[0], pre, plte + (trns + (post + (store + (idat + end)))), want);
}

proof fn reading_the_palette(
    s: ParseState,
    plte: Option<Seq<u8>>,
    trns: Option<Seq<u8>>,
    want: bool,
)
    requires
        s == (ParseState { ancillary: s.ancillary, ..nothing_read() }),
    ensures
        walk_list(s, opt_pair(PLTE@, plte), want) == Walked::Running(ParseState { plte, ..s }),
        walk_list(ParseState { plte, ..s }, opt_pair(TRNS@, trns), want) == Walked::Running(
            ParseState { plte, trns, ..s },
        ),
{
    assert(IHDR@[0] == 0x49 && IEND@[0] == 0x49 && IDAT@[0] == 0x49 && PLTE@[0] == 0x50
        && TRNS@[0] == 0x74);
    reveal_with_fuel(walk_list, 2);
    if plte is Some {
        let list = opt_pair(PLTE@, plte);
        assert(list.drop_first() =~= Seq::<Pair>::empty());
    }
    if trns is Some {
        let list = opt_pair(TRNS@, trns);
        assert(list.drop_first() =~= Seq::<Pair>::empty());
    }
}

proof fn reading_the_end(s: ParseState, want: bool)
    requires
        s.seen_idat,
    ensures
        walk_list(s, seq![(IEND@, Seq::<u8>::empty())], want) == Walked::Ended(
            ParseState { idat_done: true, ..s },
        ),
{
    assert(IHDR@[1] == 0x48 && IEND@[1] == 0x45 && IDAT@[1] == 0x44);
}

proof fn reading_the_chunks(e: PngEncoder, f: FileModel, want: bool)
    ensures
        walk_list(nothing_read(), e.file_pairs(f).drop_first(), want) == Walked::Ended(
            gathered_from(e, f, want),
        ),
{
    let head = seq![(IHDR@, ihdr_payload(f.header))];
    let pre = e.pre_pairs(f);
    let plte = opt_pair(PLTE@, f.plte);
    let trns = opt_pair(TRNS@, f.trns);
    let post = e.post_pairs(f);
    let store = e.store_pairs();
    let idat = idat_pairs(e.file_idat(f));
    let end = seq![(IEND@, Seq::<u8>::empty())];
    regrouped(head, pre, plte, trns, post, store, idat + end);
    let s0 = nothing_read();
    let s1 = ParseState { ancillary: s0.ancillary + kept(pre, want), ..s0 };
    let s2 = ParseState { plte: f.plte, ..s1 };
    let s3 = ParseState { trns: f.trns, ..s2 };
    let s4 = ParseState { ancillary: s3.ancillary + kept(post, want), ..s3 };
    let s5 = ParseState { ancillary: s4.ancillary + kept(store, want), ..s4 };
    let s6 = ParseState { seen_idat: true, idat: s5.idat + e.file_idat(f), ..s5 };
    ancillary_lists_are_passed_over(e, f);
    passing_over(s0, pre, want);
    reading_the_palette(s1, f.plte, f.trns, want);
    passing_over(s3, post, want);
    passing_over(s4, store, want);
    reading_the_image_data(s5, e.file_idat(f), want);
    reading_the_end(s6, want);
    let all = gathered_from(e, f, want);
    assert(s6.idat =~= e.file_idat(f));
    assert(s6.ancillary =~= all.ancillary);
    walk_parts(
        seq![s0, s1, s2, s3, s4, s5, s6],
        Walked::Ended(all),
        pre,
        plte,
        trns,
        post,
        store,
        idat,
        end,
        want,
    );
}

/// A stream that starts with a written header opens with it.
proof fn opening_a_written_header(h: Ihdr, tail: Seq<u8>)
    requires
        h.wf(),
    ensures
        ({
            let head = signature() + chunk_bytes(IHDR@, ihdr_payload(h));
            opening(head + tail) == Ok::<(Ihdr, int), Error>((h, head.len() as int))
        }),
{
    let first = chunk_bytes(IHDR@, ihdr_payload(h));
    let png = signature() + first + tail;
    written_chunk_reads_back(signature(), IHDR@, ihdr_payload(h), tail);
    assert(png.subrange(0, signature().len() as int) =~= signature());
    reveal(chunk_bytes);
    header_round_trip(h);
}

/// Reading a written file gives its header, palette, transparency and image data back.
pub proof fn written_chunks_are_read_back(e: PngEncoder, f: FileModel)
    requires
        f.header.wf(),
        framable(e.file_pairs(f)),
    ensures
        parsed_stream(e.file_of(f), false) == Ok::<(Ihdr, ParseState), Error>(
            (f.header, collected_from(e, f)),
        ),
        parsed_stream(e.file_of(f), true) == Ok::<(Ihdr, ParseState), Error>(
            (f.header, gathered_from(e, f, true)),
        ),
{
    let list = e.file_pairs(f);
    a_file_is_its_chunks(e, f);
    reading_the_chunks(e, f, false);
    reading_the_chunks(e, f, true);
    assert(list[0] == (IHDR@, ihdr_payload(f.header)) && list.len() > 0) by {
        assert(e.leading_pairs(f)[0] == (IHDR@, ihdr_payload(f.header)));
    }
    assert(gathered_from(e, f, false) == collected_from(e, f));
    reading_behind_the_header(f.header, list, collected_from(e, f), false);
    reading_behind_the_header(f.header, list, gathered_from(e, f, true), true);
}

proof fn reading_behind_the_header(h: Ihdr, list: Seq<Pair>, s: ParseState, want: bool)
    requires
        h.wf(),
        list.len() > 0,
        list[0] == (IHDR@, ihdr_payload(h)),
        framable(list),
        walk_list(nothing_read(), list.drop_first(), want) == Walked::Ended(s),
        s.seen_idat,
    ensures
        parsed_stream(signature() + run_bytes(list), want) == Ok::<(Ihdr, ParseState), Error>(
            (h, s),
        ),
{
    let rest = list.drop_first();
    let first = chunk_bytes(IHDR@, ihdr_payload(h));
    let head = signature() + first;
    let png = signature() + run_bytes(list);
    assert(png =~= head + run_bytes(rest));
    opening_a_written_header(h, run_bytes(rest));
    assert(framable(rest)) by {
        assert forall|i: int| 0 <= i < rest.len() implies (#[trigger] rest[i]).0.len() == 4
            && rest[i].1.len() < 0x8000_0000 by {
            assert(rest[i] == list[i + 1]);
        }
    }
    reading_a_run(head, rest, Seq::empty(), nothing_read(), want);
    assert(head + run_bytes(rest) + Seq::<u8>::empty() =~= png);
}

/// Filtered scanlines of a non-interlaced image restore to its samples.
pub proof fn scanlines_hold_the_samples(h: Ihdr, bytes: Seq<u8>, strategy: FilterStrategy)
    requires
        h.wf(),
        !h.interlaced,
        bytes.len() == h.height * row_len(h.width as int, h.spec_bits_per_pixel()),
    ensures
        ({
            let stream = filtered_rows(
                strategy,
                bytes,
                row_len(h.width as int, h.spec_bits_per_pixel()),
                stride_of(h),
            );
            &&& stream.len() == stream_len(h)
            &&& every_pass_restores(h, stream)
            &&& canvas(h, stream) == row_samples(
                bytes,
                h.width as int,
                h.height as int,
                h.color.spec_channels(),
                h.bit_depth,
            )
        }),
{
    let rb = row_len(h.width as int, h.spec_bits_per_pixel());
    let bpp = stride_of(h);
    let rows = h.height as nat;
    let ch = h.color.spec_channels();
    let stream = filtered_rows(strategy, bytes, rb, bpp);
    pass_bounds(h, 0);
    assert(pass_count(h.interlaced) == 1);
    assert(pass_width(h, 0) == h.width);
    assert(pass_height(h, 0) == h.height);
    assert(pass_row_len(h, 0) == rb);
    assert(whole_rows(bytes.len(), rb) == rows) by {
        assert(rows * rb / rb == rows) by (nonlinear_arith)
            requires
                rb >= 1,
        ;
    }
    assert(bpp >= 1);
    filtering_round_trip(strategy, bytes, rb, bpp, rows);
    assert(bytes.subrange(0, rows * rb) =~= bytes);
    reveal_with_fuel(passes_len, 2);
    assert(passes_len(h, 1) == pass_len(h, 0));
    assert(stream.subrange(passes_len(h, 0), passes_len(h, 1)) =~= stream);
    assert(pass_rows(h, stream, 0) == Some(bytes));
    let want = row_samples(bytes, h.width as int, h.height as int, ch, h.bit_depth);
    let area = h.width * h.height;
    assert(h.bit_depth < 8 ==> ch == 1);
    assert(area * 1 == area);
    let got = canvas(h, stream);
    assert(area * ch >= 0) by (nonlinear_arith)
        requires
            area == h.width * h.height,
            h.width >= 0,
            h.height >= 0,
            ch >= 0,
    ;
    assert forall|i: int| 0 <= i < got.len() implies got[i] == want[i] by {
        let px = i / ch;
        let c = i % ch;
        vstd::arithmetic::div_mod::lemma_fundamental_div_mod(i, ch);
        assert(0 <= px < area) by (nonlinear_arith)
            requires
                i == ch * px + c,
                0 <= c < ch,
                0 <= i < area * ch,
                ch >= 1,
        ;
        pixel_of_index(px, h.width as int, h.height as int);
        let (x, y) = (px % h.width as int, px / h.width as int);
        vstd::arithmetic::div_mod::lemma_fundamental_div_mod(px, h.width as int);
        assert(y * h.width == h.width * y) by (nonlinear_arith);
        assert(pass_of(h.interlaced, x, y) == 0);
        assert(x / 1 == x && y / 1 == y);
        assert(place_in_pass(h, x, y) == y / 1 * pass_width(h, 0) + x / 1);
        assert(px * ch == ch * px) by (nonlinear_arith);
    }
    assert(got =~= want);
}

/// The image that the parts of a file make.
pub open spec fn native_from(f: FileModel) -> NativeModel {
    let h = f.header;
    let (palette, key) = palette_and_key(h, f.plte, f.trns)->Ok_0;
    NativeModel {
        header: h,
        samples: row_samples(
            f.bytes,
            h.width as int,
            h.height as int,
            h.color.spec_channels(),
            h.bit_depth,
        ),
        palette,
        key,
    }
}

/// Whether the parts of a file fit together: rows that fill the image, and a palette and a colour
/// key that the colour type admits and the indices stay inside of.
pub open spec fn consistent(f: FileModel) -> bool {
    let h = f.header;
    &&& h.wf()
    &&& !h.interlaced
    &&& f.bytes.len() == h.height * row_len(h.width as int, h.spec_bits_per_pixel())
    &&& palette_and_key(h, f.plte, f.trns) is Ok
    &&& native_from(f).palette matches Some(p) ==> indices_in_range(
        native_from(f).samples,
        p.rgb.len(),
    )
}

/// Decoding a written file gives the image it was written from, under every limit that admits the
/// image: the same samples, palette and colour key.
pub proof fn a_written_file_decodes(e: PngEncoder, f: FileModel, l: Limits)
    requires
        consistent(f),
        framable(e.file_pairs(f)),
        e.file_restores(f),
        limit_fault(l, f.header) is None,
    ensures
        parsed_stream(e.file_of(f), false) is Ok,
        native_of(l, f.header, collected_from(e, f)) == Ok::<NativeModel, Error>(native_from(f)),
{
    written_chunks_are_read_back(e, f);
    let h = f.header;
    let rb = row_len(h.width as int, h.spec_bits_per_pixel());
    let bpp = stride_of(h);
    let strategy = choose|strategy: FilterStrategy| #[trigger]
        inflates_to(e.idat_stream(f.bytes, rb, bpp), filtered_rows(strategy, f.bytes, rb, bpp));
    scanlines_hold_the_samples(h, f.bytes, strategy);
    let data = filtered_rows(strategy, f.bytes, rb, bpp);
    assert(crate::zlib::zlib_contents(e.file_idat(f), stream_len(h)) == Some(data));
}

} // verus!
