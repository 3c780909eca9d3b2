//! What comes of a backend's reply, which inputs are refused, how written files are ordered, and how the
//! decoded samples of an image stand in its scanlines.
use crate::adam7::{
    extent, pass_bounds, pass_count, pass_height, pass_is_empty, pass_row_len, pass_width,
    passes_len, row_len, stream_fits, stream_len,
};
use crate::ancillary::{
    ancillary_strength, entry_for, in_text_repertoire, is_language_tag, is_tag_byte, keyword_notice, keyword_rule, Ancillary,
    TextKind,
};
use crate::backend::{settled, JxlDecoded};
use crate::canvas::{
    canvas, defined_rows_are_restored, every_pass_restores, pass_rows, pass_samples, restored_rows,
    row_samples, stride_of,
};
use crate::chunk::{
    BKGD, CABX, CHRM, CICP, EXIF, GAMA, ICCP, IDAT, IEND, IHDR, ITXT, PHYS, PLTE, SBIT, SRGB, TEXT, TIME,
    TRNS, ZTXT,
};
use crate::decoded::metadata_of;
use crate::decoder::{
    decoded_file, default_limits, limit_fault, native_format, native_of, native_samples, native_with,
    palette_and_key, Limits, NativeModel,
};
use crate::deflate::{deflation_after, settled_deflation, smallest_of, told_of};
use crate::dispatch::{action_after, dispatched, Action, Event, Settled, Visit};
use crate::encoder::{FileModel, PngEncoder};
use crate::error::{Cause, Error};
use crate::ihdr::Ihdr;
use crate::layout::{idat_pairs, opt_pair, text_pairs, text_pairs_are_texts, idat_chunks_hold_the_stream, Pair};
use crate::parse::{parsed_stream, ParseState};
use crate::pixels::PixelFormat;
use crate::scan::{all_codes, codes_are_defined, figures_before, figures_of};
use crate::seam::{info_of, reply_after, settled_inflation};
use crate::verdicts::{filter_bytes_lead_their_rows, restored_codes_are_defined};
use crate::zlib::{zlib_contents, zlib_stream};
use vstd::prelude::*;
use vstd::utf8::encode_utf8;

verus! {

/// Which causes mean that a file is of a kind that is not supported, rather than malformed.
pub proof fn causes_are_classed(cause: Cause)
    ensures
        cause.spec_kind() is Unsupported <==> cause is UnknownCriticalChunk || cause is DimensionLimit
            || cause is SizeLimit || cause is LossyLayout || cause is BrotliMetadata || cause is NoBackend
            || cause is BackendDeclined,
{
}

/// A reply is settled alike by every stack: an unsupported error declines, any other error ends the request
/// with itself, and an answer is taken as it is, unless it is of another layout or longer than was asked for.
pub proof fn replies_are_settled(
    raster: Result<JxlDecoded, Error>,
    format: PixelFormat,
    bytes: Result<Vec<u8>, Error>,
    max_out: usize,
)
    ensures
        match raster {
            Ok(r) => if r.spec_pixels().spec_format() == format {
                settled(raster, format) == Settled::Accepted(r)
            } else {
                settled(raster, format) matches Settled::Ended(e) && e.cause is WrongLayout
            },
            Err(e) => if e.cause.spec_kind() is Unsupported {
                settled(raster, format) is Declined
            } else {
                settled(raster, format) == Settled::<JxlDecoded>::Ended(e)
            },
        },
        match bytes {
            Ok(v) => settled_deflation(bytes) == Settled::Accepted(v) && if v@.len() <= max_out {
                settled_inflation(bytes, max_out) == Settled::Accepted(v)
            } else {
                settled_inflation(bytes, max_out) matches Settled::Ended(e) && e.cause is BackendOverran
            },
            Err(e) => if e.cause.spec_kind() is Unsupported {
                settled_deflation(bytes) is Declined && settled_inflation(bytes, max_out) is Declined
            } else {
                settled_deflation(bytes) == Settled::<Vec<u8>>::Ended(e) && settled_inflation(
                    bytes,
                    max_out,
                ) == Settled::<Vec<u8>>::Ended(e)
            },
        },
{
}

/// Where every backend declined the built-in codec answers; where one did not, its answer or its error is
/// the answer.
pub proof fn the_built_in_codec_is_the_last_resort(
    outcome: Result<Option<Vec<u8>>, Error>,
    data: Seq<u8>,
    max_out: int,
    strength: u8,
)
    ensures
        match outcome {
            Ok(Some(v)) => reply_after(outcome, data, max_out) == Ok::<Seq<u8>, Error>(v@)
                && deflation_after(outcome, data, strength) == Ok::<Seq<u8>, Error>(v@),
            Err(e) => reply_after(outcome, data, max_out) == Err::<Seq<u8>, Error>(e) && deflation_after(
                outcome,
                data,
                strength,
            ) == Err::<Seq<u8>, Error>(e),
            Ok(None) => deflation_after(outcome, data, strength) == Ok::<Seq<u8>, Error>(
                zlib_stream(data, strength),
            ) && match zlib_contents(data, max_out) {
                Some(c) => reply_after(outcome, data, max_out) == Ok::<Seq<u8>, Error>(c),
                None => reply_after(outcome, data, max_out) matches Err(e) && e.cause is CorruptZlib,
            },
        },
{
}

/// Backends are asked in push order. Each is asked in the state in which the request found it; those behind
/// the one that decides are left alone; every one before it declined; and its verdict is the outcome.
pub proof fn backends_are_asked_in_push_order<B, T>(
    visits: Seq<Visit<B, T>>,
    before: Seq<B>,
    after: Seq<B>,
    outcome: Result<Option<T>, Error>,
    k: int,
)
    requires
        dispatched(visits, before, after, outcome),
    ensures
        visits.len() <= before.len() == after.len(),
        0 <= k < visits.len() ==> visits[k].before == before[k] && visits[k].after == after[k],
        visits.len() <= k < before.len() ==> after[k] == before[k],
        0 <= k < visits.len() - 1 ==> visits[k].verdict is Declined,
        match outcome {
            Ok(None) => visits.len() == before.len() && (0 <= k < visits.len()
                ==> visits[k].verdict is Declined),
            Ok(Some(answer)) => visits.len() >= 1 && visits.last().verdict == Settled::Accepted(answer)
                && visits.last().answer,
            Err(error) => visits.len() >= 1 && visits.last().verdict == Settled::<T>::Ended(error)
                && visits.last().answer,
        },
{
    let verdicts = crate::dispatch::verdicts_of(visits);
    assert(verdicts.len() == visits.len());
    assert forall|i: int| 0 <= i < visits.len() implies #[trigger] verdicts[i] == visits[i].verdict by {}
    if visits.len() > 0 {
        let last = visits.len() - 1;
        assert(verdicts[last] == visits[last].verdict);
        assert(visits[last].before == before[last]);
        assert(after[last] == visits[last].after);
    }
    if 0 <= k < visits.len() {
        assert(after[k] == visits[k].after);
        assert(visits[k].before == before[k]);
        assert(verdicts[k] == visits[k].verdict);
    }
}

/// Of the replies to the tries of a file the smallest stream is kept, the first of those of one size.
pub proof fn the_smallest_reply_is_kept(
    replies: Seq<Result<Seq<u8>, Error>>,
    from: int,
    n: int,
) -> (at: int)
    requires
        n >= 1,
    ensures
        from <= at < from + n,
        smallest_of(replies, from, n) == replies[at]->Ok_0,
        forall|i: int|
            from <= i < from + n ==> replies[at]->Ok_0.len() <= (#[trigger] replies[i])->Ok_0.len(),
        forall|i: int| from <= i < at ==> replies[at]->Ok_0.len() < (#[trigger] replies[i])->Ok_0.len(),
    decreases n,
{
    if n == 1 {
        from
    } else {
        let at = the_smallest_reply_is_kept(replies, from, n - 1);
        if replies[from + n - 1]->Ok_0.len() < replies[at]->Ok_0.len() {
            from + n - 1
        } else {
            at
        }
    }
}

/// What is done after each event of a request: the first backend is asked, one that takes it on is run, one
/// that does not or that declines gives way to the next, and an answer or an error ends the request. Past the
/// last backend it ends without an answer.
pub proof fn what_follows_an_event<T>(place: usize, count: usize, answer: T, error: Error)
    requires
        place < count,
    ensures
        ({
            let next = if place + 1 < count {
                Action::<T>::Ask((place + 1) as usize)
            } else {
                Action::End(Ok(None))
            };
            &&& action_after(Event::<T>::Begun, count) == Action::<T>::Ask(0)
            &&& action_after(Event::<T>::Begun, 0) == Action::<T>::End(Ok(None))
            &&& action_after(Event::<T>::Answered(place, true), count) == Action::<T>::Run(place)
            &&& action_after(Event::<T>::Answered(place, false), count) == next
            &&& action_after(Event::Replied(place, Settled::<T>::Declined), count) == next
            &&& action_after(Event::Replied(place, Settled::Accepted(answer)), count) == Action::End(
                Ok(Some(answer)),
            )
            &&& action_after(Event::Replied(place, Settled::<T>::Ended(error)), count) == Action::<T>::End(
                Err(error),
            )
        }),
{
}

/// A language tag is letters, digits and hyphens of ASCII.
pub proof fn tags_are_ascii(language: Seq<char>, b: u8)
    ensures
        is_tag_byte(b) <==> 'a' as u8 <= b <= 'z' as u8 || 'A' as u8 <= b <= 'Z' as u8 || '0' as u8 <= b
            <= '9' as u8 || b == '-' as u8,
        is_language_tag(language) <==> forall|i: int|
            0 <= i < encode_utf8(language).len() ==> is_tag_byte(#[trigger] encode_utf8(language)[i]),
{
}

/// An annotation keeps the chunk that was asked for where every character of its text is a line feed or
/// printable Latin-1, and otherwise becomes the international chunk of the same compression.
pub proof fn an_annotation_keeps_its_chunk(
    keyword: Seq<char>,
    text: Seq<char>,
    kind: TextKind,
    carried: bool,
)
    ensures
        ({
            let plain = forall|i: int|
                0 <= i < text.len() ==> (#[trigger] text[i]) as u32 == 10 || 32 <= text[i] as u32 <= 126
                    || 161 <= text[i] as u32 <= 255;
            entry_for(keyword, text, kind, carried).kind == (match (kind, plain) {
                (TextKind::Latin1, true) => TextKind::Latin1,
                (TextKind::Compressed, true) => TextKind::Compressed,
                (TextKind::Latin1, false) => TextKind::International,
                (TextKind::Compressed, false) => TextKind::InternationalCompressed,
                (TextKind::International, _) => TextKind::International,
                (TextKind::InternationalCompressed, _) => TextKind::InternationalCompressed,
            })
        }),
{
    if forall|i: int| 0 <= i < text.len() ==> in_text_repertoire(#[trigger] text[i]) {
        assert forall|i: int| 0 <= i < text.len() implies (#[trigger] text[i]) as u32 == 10 || 32
            <= text[i] as u32 <= 126 || 161 <= text[i] as u32 <= 255 by {
            assert(in_text_repertoire(text[i]));
        }
    } else {
        let i = choose|i: int| 0 <= i < text.len() && !in_text_repertoire(#[trigger] text[i]);
        assert(!(text[i] as u32 == 10 || 32 <= text[i] as u32 <= 126 || 161 <= text[i] as u32 <= 255));
    }
}

/// A carried keyword has a notice exactly where a direct setter would refuse it, and is left behind exactly
/// where no chunk can hold it: it is not Latin-1, or not 1 to 79 characters.
pub proof fn a_carried_keyword_is_left_or_noted(keyword: Seq<char>)
    ensures
        keyword_notice(keyword) is None <==> keyword_rule(keyword) is None,
        (keyword_notice(keyword) matches Some(n) && !n.spec_carried()) <==> keyword.len() == 0 || keyword.len()
            > 79 || exists|i: int| 0 <= i < keyword.len() && (#[trigger] keyword[i]) as u32 > 255,
{
    if forall|i: int|
        0 <= i < keyword.len() ==> crate::ancillary::is_printable_latin1(#[trigger] keyword[i]) {
        assert forall|i: int| 0 <= i < keyword.len() implies (#[trigger] keyword[i]) as u32 <= 255 by {
            assert(crate::ancillary::is_printable_latin1(keyword[i]));
        }
    }
}

/// The limits refuse an image exactly where a side is longer or the decoded image larger than they admit, or
/// where its stream cannot be addressed.
pub proof fn limits_are_kept(l: Limits, h: Ihdr)
    requires
        l.max_image_bytes <= usize::MAX,
    ensures
        ({
            let bytes = h.width * h.height * h.color.spec_channels() * (if h.bit_depth == 16 {
                2int
            } else {
                1
            });
            let addressed = h.width * h.color.spec_channels() * h.bit_depth <= usize::MAX && stream_len(h)
                <= usize::MAX;
            &&& limit_fault(l, h) is None <==> h.width <= l.max_width && h.height <= l.max_height && bytes
                <= l.max_image_bytes && addressed
            &&& stream_fits(h) <==> addressed
            &&& h.width > l.max_width || h.height > l.max_height <==> limit_fault(l, h) == Some(
                Cause::DimensionLimit,
            )
            &&& h.width <= l.max_width && h.height <= l.max_height && l.max_image_bytes < bytes <= usize::MAX
                <==> limit_fault(l, h) == Some(Cause::SizeLimit)
        }),
        default_limits() == (Limits {
            max_width: 2147483647,
            max_height: 2147483647,
            max_image_bytes: 64int * 1024 * 1024,
            max_metadata_bytes: 16int * 1024 * 1024,
        }),
{
    assert(h.width * h.spec_bits_per_pixel() == h.width * h.color.spec_channels() * h.bit_depth)
        by (nonlinear_arith)
        requires
            h.spec_bits_per_pixel() == h.color.spec_channels() * h.bit_depth,
    ;
}

/// What refuses the pixels of a file whose chunks were read, the first of these in order: its PLTE and tRNS,
/// the limits, the inflater, a stream of another length than the header asks for, a filter that is none, and
/// an index past the palette.
pub proof fn what_refuses_the_pixels(l: Limits, h: Ihdr, s: ParseState, reply: Result<Seq<u8>, Error>)
    ensures
        ({
            let got = native_with(l, h, s, reply);
            let parts = palette_and_key(h, s.plte, s.trns);
            let fault = match got {
                Ok(_) => None,
                Err(e) => Some(e.cause),
            };
            let stream = reply->Ok_0;
            let due = parts is Ok && limit_fault(l, h) is None;
            let whole = due && reply is Ok && stream.len() == stream_len(h);
            let drawn = whole && every_pass_restores(h, stream);
            let samples = canvas(h, stream);
            let inside = parts->Ok_0.0 matches Some(p) ==> forall|i: int|
                0 <= i < samples.len() ==> (#[trigger] samples[i]) < p.rgb.len();
            &&& parts matches Err(cause) ==> fault == Some(cause)
            &&& parts is Ok && limit_fault(l, h) is Some ==> fault == limit_fault(l, h)
            &&& due && reply is Err ==> got == Err::<NativeModel, Error>(reply->Err_0)
            &&& due && reply is Ok && !whole ==> fault == Some(Cause::IdatTooShort)
            &&& whole && !drawn ==> fault == Some(Cause::UndefinedFilter)
            &&& drawn && !inside ==> fault == Some(Cause::IndexOutOfRange)
            &&& drawn && inside ==> got == Ok::<NativeModel, Error>(
                NativeModel { header: h, samples, palette: parts->Ok_0.0, key: parts->Ok_0.1 },
            )
        }),
{
}

/// What a decoded file holds: the header as stored, the pixels in the layout of its colour type, its palette
/// and its colour key, and the metadata that was read beside them.
pub proof fn what_a_decoded_file_holds(l: Limits, png: Seq<u8>)
    requires
        decoded_file(l, png) is Ok,
    ensures
        ({
            let m = decoded_file(l, png)->Ok_0;
            let (h, s) = parsed_stream(png, true)->Ok_0;
            let n = native_of(l, h, s)->Ok_0;
            &&& m.header.width == h.width && m.header.height == h.height
            &&& m.header.bit_depth == h.bit_depth
            &&& m.header.color_type == h.color
            &&& m.header.interlaced == h.interlaced
            &&& m.format == native_format(h.color, h.bit_depth)
            &&& m.samples == native_samples(n)
            &&& m.palette == n.palette && m.transparency == n.key
            &&& m.metadata.c2pa_ignored == metadata_of(s.ancillary, l.max_metadata_bytes).c2pa_ignored
                + s.late_stores
            &&& m.metadata.texts == metadata_of(s.ancillary, l.max_metadata_bytes).texts
            &&& m.metadata.exif == metadata_of(s.ancillary, l.max_metadata_bytes).exif
            &&& m.metadata.c2pa == metadata_of(s.ancillary, l.max_metadata_bytes).c2pa
            &&& n.header == h
        }),
{
}

/// Backends of an encode and of a decode are told the same of an image that is not interlaced.
pub proof fn backends_are_told_of_the_image(h: Ihdr)
    requires
        h.wf(),
        !h.interlaced,
        stream_fits(h),
    ensures
        told_of(h) == info_of(h),
        info_of(h).width == h.width && info_of(h).height == h.height,
        info_of(h).bit_depth == h.bit_depth && info_of(h).color == h.color,
        info_of(h).filtered_len == stream_len(h),
{
    let (w, ht) = (h.width as int, h.height as int);
    pass_bounds(h, 0);
    reveal_with_fuel(passes_len, 2);
    assert(extent(w, 0, 1) == w);
    assert(extent(ht, 0, 1) == ht);
}

/// Image data is written in chunks of 64 KiB, the last one shorter.
pub proof fn image_data_is_written_in_parts(stream: Seq<u8>, i: int)
    requires
        0 <= i < idat_pairs(stream).len(),
    ensures
        idat_pairs(stream)[i].0 == IDAT@,
        idat_pairs(stream)[i].1.len() <= 65536,
        i < idat_pairs(stream).len() - 1 ==> idat_pairs(stream)[i].1 == stream.subrange(
            65536 * i,
            65536 * i + 65536,
        ),
    decreases stream.len(),
{
    if stream.len() > 65536 {
        let rest = stream.subrange(65536, stream.len() as int);
        if i > 0 {
            image_data_is_written_in_parts(rest, i - 1);
            assert(idat_pairs(stream)[i] == idat_pairs(rest)[i - 1]);
            if i < idat_pairs(stream).len() - 1 {
                parts_are_inside(rest, i - 1);
                assert(rest.subrange(65536 * (i - 1), 65536 * (i - 1) + 65536) =~= stream.subrange(
                    65536 * i,
                    65536 * i + 65536,
                ));
            }
        }
    }
}

proof fn parts_are_inside(stream: Seq<u8>, i: int)
    requires
        0 <= i < idat_pairs(stream).len() - 1,
    ensures
        65536 * i + 65536 <= stream.len(),
    decreases stream.len(),
{
    if stream.len() > 65536 && i > 0 {
        parts_are_inside(stream.subrange(65536, stream.len() as int), i - 1);
    }
}

/// An encoder that nothing was set on: balanced compression, the smallest sum of magnitudes, and neither
/// reduction nor cleanup nor any ancillary chunk. Compressed ancillary payloads are always compressed best.
pub proof fn what_a_new_encoder_does(e: PngEncoder, effort: u8)
    ensures
        e.is_new() ==> e.level.spec_strength(e.effort) == 6 && e.effort == 9 && e.filter is MinSumAbs
            && !e.auto_reduce && !e.clean_transparent && e.ancillary.texts@.len() == 0
            && e.ancillary.c2pa is None && e.ancillary.gamma is None && e.ancillary.exif is None,
        6 <= ancillary_strength(effort) <= 10,
        6 <= effort <= 10 ==> ancillary_strength(effort) == effort,
{
}


/// The byte stride of filters is the whole bytes of a pixel, and one where a pixel is less than that.
pub proof fn strides_are_whole_pixels(h: Ihdr)
    requires
        h.wf(),
    ensures
        h.color.spec_channels() * h.bit_depth >= 8 ==> 8 * stride_of(h) == h.color.spec_channels()
            * h.bit_depth,
        h.color.spec_channels() * h.bit_depth < 8 ==> stride_of(h) == 1,
{
    let bits = h.color.spec_channels() * h.bit_depth;
    assert(h.bit_depth == 8 ==> bits == h.color.spec_channels() * 8);
    assert(h.bit_depth == 16 ==> bits == h.color.spec_channels() * 16);
}

/// The samples of an image that is not interlaced are those of its restored rows, from the first row of the
/// stream on.
pub proof fn a_plain_image_is_its_rows(h: Ihdr, stream: Seq<u8>)
    requires
        h.wf(),
        !h.interlaced,
        stream.len() == stream_len(h),
        every_pass_restores(h, stream),
    ensures
        stream_len(h) == h.height * (1 + row_len(h.width as int, h.spec_bits_per_pixel())),
        restored_rows(
            stream,
            row_len(h.width as int, h.spec_bits_per_pixel()),
            stride_of(h),
            h.height as nat,
        ) is Some,
        canvas(h, stream) == row_samples(
            restored_rows(
                stream,
                row_len(h.width as int, h.spec_bits_per_pixel()),
                stride_of(h),
                h.height as nat,
            )->0,
            h.width as int,
            h.height as int,
            h.color.spec_channels(),
            h.bit_depth,
        ),
{
    let (w, ht, ch) = (h.width as int, h.height as int, h.color.spec_channels());
    let row = row_len(w, h.spec_bits_per_pixel());
    pass_bounds(h, 0);
    reveal_with_fuel(passes_len, 2);
    assert(extent(w, 0, 1) == w);
    assert(extent(ht, 0, 1) == ht);
    assert(pass_width(h, 0) == w && pass_height(h, 0) == ht);
    assert(pass_row_len(h, 0) == row);
    assert(stream.subrange(0, stream_len(h)) =~= stream);
    assert(pass_rows(h, stream, 0) is Some);
    let rows = restored_rows(stream, row, stride_of(h), h.height as nat)->0;
    let want = row_samples(rows, w, ht, ch, h.bit_depth);
    assert(pass_samples(h, stream, 0) == want);
    let got = canvas(h, stream);
    assert(w * ht * ch >= 0 && w * ht >= 0) by (nonlinear_arith)
        requires
            w >= 1,
            ht >= 1,
            ch >= 1,
    ;
    assert(h.bit_depth < 8 ==> ch == 1);
    assert(want.len() == w * ht * ch) by {
        if h.bit_depth < 8 {
            assert(w * ht * 1 == w * ht);
        }
    }
    assert forall|i: int| 0 <= i < got.len() implies got[i] == #[trigger] want[i] by {
        let px = i / ch;
        vstd::arithmetic::div_mod::lemma_fundamental_div_mod(i, ch);
        assert(0 <= px < w * ht) by (nonlinear_arith)
            requires
                i == ch * px + i % ch,
                0 <= i % ch < ch,
                0 <= i < w * ht * ch,
                ch >= 1,
        ;
        vstd::arithmetic::div_mod::lemma_fundamental_div_mod(px, w);
        let (x, y) = (px % w, px / w);
        assert((x - 0) / 1 == x && (y - 0) / 1 == y);
        assert(crate::adam7::place_in_pass(h, x, y) == y * w + x);
        assert(y * w + x == px) by (nonlinear_arith)
            requires
                px == w * y + x,
        ;
        assert(px * ch + i % ch == i) by (nonlinear_arith)
            requires
                i == ch * px + i % ch,
        ;
    }
    assert(got =~= want);
}

/// The rows of a stream are restored exactly where each names one of the five filters: a decoder refuses a
/// filter byte where a survey counts none.
pub proof fn a_stream_restores_where_its_filters_are_defined(h: Ihdr, stream: Seq<u8>)
    requires
        h.wf(),
        stream_fits(h),
        stream.len() == stream_len(h),
    ensures
        every_pass_restores(h, stream) <==> codes_are_defined(all_codes(stream, figures_of(h))),
{
    let n = pass_count(h.interlaced);
    if every_pass_restores(h, stream) {
        restored_codes_are_defined(h, stream, n);
    }
    if codes_are_defined(all_codes(stream, figures_of(h))) {
        assert forall|k: int| 0 <= k < n implies #[trigger] pass_rows(h, stream, k) is Some by {
            defined_codes_restore(h, stream, k, n);
        }
    }
}

proof fn defined_codes_restore(h: Ihdr, stream: Seq<u8>, k: int, n: int)
    requires
        h.wf(),
        stream_fits(h),
        stream.len() == stream_len(h),
        0 <= k < n <= pass_count(h.interlaced),
        codes_are_defined(all_codes(stream, figures_before(h, n))),
    ensures
        pass_rows(h, stream, k) is Some,
    decreases n,
{
    let j = n - 1;
    filter_bytes_lead_their_rows(h, stream, j);
    pass_bounds(h, j);
    let before = all_codes(stream, figures_before(h, j));
    let all = all_codes(stream, figures_before(h, n));
    assert forall|i: int| 0 <= i < before.len() implies (#[trigger] before[i]) <= 4 by {
        assert(all[i] == before[i]);
    }
    if k < j {
        defined_codes_restore(h, stream, k, j);
    } else if !pass_is_empty(h, k) {
        let (height, row) = (pass_height(h, k), pass_row_len(h, k));
        let part = stream.subrange(passes_len(h, k), passes_len(h, k + 1));
        assert(part.len() == height * (row + 1));
        assert forall|y: int| 0 <= y < height implies part[#[trigger] (y * (row + 1))] <= 4 by {
            assert(0 <= y * (row + 1) < height * (row + 1)) by (nonlinear_arith)
                requires
                    0 <= y < height,
                    row >= 0,
            ;
            assert(all[before.len() + y] == stream[passes_len(h, k) + y * (row + 1)]);
        }
        defined_rows_are_restored(part, row, stride_of(h), height as nat);
    }
}

/// The place of a chunk type in a written file: the header, the colour chunks, the palette, transparency, the
/// other ancillary chunks with the annotations last, the manifest store, the image data, the end.
pub open spec fn rank_of(name: Seq<u8>) -> int {
    if name == IHDR@ {
        0
    } else if name == CICP@ {
        1
    } else if name == CHRM@ {
        2
    } else if name == GAMA@ {
        3
    } else if name == ICCP@ {
        4
    } else if name == SBIT@ {
        5
    } else if name == SRGB@ {
        6
    } else if name == PLTE@ {
        7
    } else if name == TRNS@ {
        8
    } else if name == EXIF@ {
        9
    } else if name == BKGD@ {
        10
    } else if name == PHYS@ {
        11
    } else if name == TIME@ {
        12
    } else if name == TEXT@ || name == ZTXT@ || name == ITXT@ {
        13
    } else if name == CABX@ {
        14
    } else if name == IDAT@ {
        15
    } else if name == IEND@ {
        16
    } else {
        17
    }
}

spec fn ranked(list: Seq<Pair>, low: int, high: int) -> bool {
    &&& forall|i: int| 0 <= i < list.len() ==> low <= rank_of((#[trigger] list[i]).0) <= high
    &&& forall|i: int, j: int|
        0 <= i < j < list.len() ==> rank_of((#[trigger] list[i]).0) <= rank_of((#[trigger] list[j]).0)
}

proof fn ranked_concat(a: Seq<Pair>, b: Seq<Pair>, low: int, mid: int, high: int)
    requires
        ranked(a, low, mid),
        ranked(b, mid, high),
        low <= mid <= high,
    ensures
        ranked(a + b, low, high),
{
    let all = a + b;
    assert forall|i: int| 0 <= i < all.len() implies low <= rank_of((#[trigger] all[i]).0) <= high by {
        if i < a.len() {
            assert(all[i] == a[i]);
        } else {
            assert(all[i] == b[i - a.len()]);
        }
    }
    assert forall|i: int, j: int| 0 <= i < j < all.len() implies rank_of((#[trigger] all[i]).0) <= rank_of(
        (#[trigger] all[j]).0,
    ) by {
        if j < a.len() {
            assert(all[i] == a[i] && all[j] == a[j]);
        } else if i < a.len() {
            assert(all[i] == a[i] && all[j] == b[j - a.len()]);
        } else {
            assert(all[i] == b[i - a.len()] && all[j] == b[j - a.len()]);
        }
    }
}

proof fn ranks()
    ensures
        rank_of(IHDR@) == 0,
        rank_of(CICP@) == 1,
        rank_of(CHRM@) == 2,
        rank_of(GAMA@) == 3,
        rank_of(ICCP@) == 4,
        rank_of(SBIT@) == 5,
        rank_of(SRGB@) == 6,
        rank_of(PLTE@) == 7,
        rank_of(TRNS@) == 8,
        rank_of(EXIF@) == 9,
        rank_of(BKGD@) == 10,
        rank_of(PHYS@) == 11,
        rank_of(TIME@) == 12,
        rank_of(TEXT@) == 13,
        rank_of(ZTXT@) == 13,
        rank_of(ITXT@) == 13,
        rank_of(CABX@) == 14,
        rank_of(IDAT@) == 15,
        rank_of(IEND@) == 16,
{
    assert(IHDR@[0] == 0x49 && IHDR@[1] == 0x48);
    assert(PLTE@[0] == 0x50);
    assert(IDAT@[0] == 0x49 && IDAT@[1] == 0x44);
    assert(IEND@[0] == 0x49 && IEND@[1] == 0x45);
    assert(TRNS@[0] == 0x74 && TRNS@[1] == 0x52);
    assert(CICP@[0] == 0x63 && CICP@[1] == 0x49);
    assert(CHRM@[0] == 0x63 && CHRM@[1] == 0x48);
    assert(GAMA@[0] == 0x67);
    assert(ICCP@[0] == 0x69 && ICCP@[1] == 0x43);
    assert(SBIT@[0] == 0x73 && SBIT@[1] == 0x42);
    assert(SRGB@[0] == 0x73 && SRGB@[1] == 0x52);
    assert(EXIF@[0] == 0x65);
    assert(BKGD@[0] == 0x62);
    assert(PHYS@[0] == 0x70);
    assert(TIME@[0] == 0x74 && TIME@[1] == 0x49);
    assert(TEXT@[0] == 0x74 && TEXT@[1] == 0x45);
    assert(ZTXT@[0] == 0x7A);
    assert(ITXT@[0] == 0x69 && ITXT@[1] == 0x54);
    assert(CABX@[0] == 0x63 && CABX@[1] == 0x61);
}

proof fn one_ranked(name: Seq<u8>, payload: Option<Seq<u8>>, rank: int)
    requires
        rank_of(name) == rank,
    ensures
        ranked(opt_pair(name, payload), rank, rank),
{
}

proof fn ranked_within(list: Seq<Pair>, low: int, high: int, to: int)
    requires
        ranked(list, low, high),
        high <= to,
    ensures
        ranked(list, low, to),
{
}

proof fn pre_ranked(e: PngEncoder, f: FileModel)
    ensures
        ranked(e.pre_pairs(f), 1, 6),
{
    ranks();
    let a = e.ancillary;
    let p1 = opt_pair(CICP@, a.cicp_payload());
    let p2 = opt_pair(CHRM@, a.chrm_payload());
    let p3 = opt_pair(GAMA@, a.gama_payload());
    let p4 = opt_pair(ICCP@, a.iccp_payload(e.effort));
    let p5 = opt_pair(SBIT@, a.sbit_payload(f.written));
    one_ranked(CICP@, a.cicp_payload(), 1);
    then_ranked(p1, CHRM@, a.chrm_payload(), 1, 1, 2);
    then_ranked(p1 + p2, GAMA@, a.gama_payload(), 1, 2, 3);
    then_ranked(p1 + p2 + p3, ICCP@, a.iccp_payload(e.effort), 1, 3, 4);
    then_ranked(p1 + p2 + p3 + p4, SBIT@, a.sbit_payload(f.written), 1, 4, 5);
    then_ranked(p1 + p2 + p3 + p4 + p5, SRGB@, a.srgb_payload(), 1, 5, 6);
}

proof fn then_ranked(
    list: Seq<Pair>,
    name: Seq<u8>,
    payload: Option<Seq<u8>>,
    low: int,
    high: int,
    rank: int,
)
    requires
        ranked(list, low, high),
        low <= high <= rank,
        rank_of(name) == rank,
    ensures
        ranked(list + opt_pair(name, payload), low, rank),
{
    one_ranked(name, payload, rank);
    ranked_within(list, low, high, rank);
    ranked_concat(list, opt_pair(name, payload), low, rank, rank);
}

proof fn texts_ranked(e: PngEncoder)
    ensures
        ranked(text_pairs(e.ancillary.entries(), e.effort), 13, 13),
{
    ranks();
    text_pairs_are_texts(e.ancillary.entries(), e.effort);
}

proof fn post_ranked(e: PngEncoder, f: FileModel)
    ensures
        ranked(e.post_pairs(f), 9, 13),
{
    ranks();
    let a = e.ancillary;
    let p1 = opt_pair(EXIF@, Ancillary::stored(a.exif));
    let p2 = opt_pair(BKGD@, f.bkgd);
    let p3 = opt_pair(PHYS@, a.phys_payload());
    let p4 = opt_pair(TIME@, a.time_payload());
    one_ranked(EXIF@, Ancillary::stored(a.exif), 9);
    then_ranked(p1, BKGD@, f.bkgd, 9, 9, 10);
    then_ranked(p1 + p2, PHYS@, a.phys_payload(), 9, 10, 11);
    then_ranked(p1 + p2 + p3, TIME@, a.time_payload(), 9, 11, 12);
    texts_ranked(e);
    ranked_within(p1 + p2 + p3 + p4, 9, 12, 13);
    ranked_concat(p1 + p2 + p3 + p4, text_pairs(a.entries(), e.effort), 9, 13, 13);
}

proof fn trailing_ranked(e: PngEncoder, f: FileModel)
    ensures
        ranked(e.trailing_pairs(f), 15, 16),
        e.trailing_pairs(f).len() > 0,
        e.trailing_pairs(f).last() == (IEND@, Seq::<u8>::empty()),
{
    ranks();
    let idat = idat_pairs(e.file_idat(f));
    let end = seq![(IEND@, Seq::<u8>::empty())];
    idat_chunks_hold_the_stream(e.file_idat(f));
    assert(ranked(idat, 15, 15));
    ranked_within(idat, 15, 15, 16);
    assert(ranked(end, 16, 16));
    ranked_concat(idat, end, 15, 16, 16);
    assert((idat + end).last() == end[0]);
}

proof fn leading_ranked(e: PngEncoder, f: FileModel)
    ensures
        ranked(e.leading_pairs(f), 0, 13),
        e.leading_pairs(f).len() > 0,
        e.leading_pairs(f)[0].0 == IHDR@,
{
    ranks();
    let head = seq![(IHDR@, crate::ihdr::ihdr_payload(f.header))];
    let pre = e.pre_pairs(f);
    let plte = opt_pair(PLTE@, f.plte);
    let trns = opt_pair(TRNS@, f.trns);
    let post = e.post_pairs(f);
    assert(ranked(head, 0, 0));
    pre_ranked(e, f);
    post_ranked(e, f);
    ranked_within(head, 0, 0, 1);
    ranked_concat(head, pre, 0, 1, 6);
    then_ranked(head + pre, PLTE@, f.plte, 0, 6, 7);
    then_ranked(head + pre + plte, TRNS@, f.trns, 0, 7, 8);
    ranked_within(head + pre + plte + trns, 0, 8, 9);
    ranked_concat(head + pre + plte + trns, post, 0, 9, 13);
    assert(e.leading_pairs(f)[0] == head[0]);
}

/// The chunks of a written file stand in one order, which is one that the format admits: the colour chunks
/// before the palette, transparency and background behind it, the manifest store behind every other ancillary
/// chunk, and all of them before the image data.
pub proof fn written_chunks_stand_in_order(e: PngEncoder, f: FileModel, i: int, j: int)
    requires
        0 <= i < j < e.file_pairs(f).len(),
    ensures
        rank_of(e.file_pairs(f)[i].0) <= rank_of(e.file_pairs(f)[j].0),
        e.file_pairs(f)[0].0 == IHDR@,
        e.file_pairs(f).last() == (IEND@, Seq::<u8>::empty()),
{
    ranks();
    leading_ranked(e, f);
    trailing_ranked(e, f);
    let (lead, store, trail) = (e.leading_pairs(f), e.store_pairs(), e.trailing_pairs(f));
    then_ranked(lead, CABX@, Ancillary::stored(e.ancillary.c2pa), 0, 13, 14);
    ranked_within(lead + store, 0, 14, 15);
    ranked_concat(lead + store, trail, 0, 15, 16);
    let all = e.file_pairs(f);
    assert(all[0] == lead[0]);
    assert(all.last() == trail.last());
    assert(rank_of(all[i].0) <= rank_of(all[j].0));
}

} // verus!
