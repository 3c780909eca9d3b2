//! Inflating the image data by something other than the built-in inflater.
//!
//! The image data of a PNG is one zlib stream, and it is where a decoder spends its time. Backends are
//! asked in their order whether they take a stream on; the built-in inflater is the implicit tail. A
//! backend that declines is passed over, one that accepts and then fails ends the decode, and one that
//! returns more than the image can hold is refused rather than cut short. Compressed metadata always
//! goes through the built-in inflater.
use crate::adam7::stream_len;
use crate::color::ColorType;
use crate::decoded::{collect, DecodedModel, DecodedPng, PngMetadata};
use crate::decoder::{
    assemble, assembled, built_in_reply, decode_scanlines, decoded_file, limit_fault, native_of,
    native_with, palette_and_key, presented_file, show_in, shown_in, Limits, NativeImage, PngDecoder,
    TransparencyKey,
};
use crate::dispatch::{
    all_declined, are_visits_of, decided, dispatched, step, visited, Action, Event, Settled, Visit,
};
use crate::error::{failed, Cause, Error, ErrorKind};
use crate::ihdr::Ihdr;
use crate::palette::PngPalette;
use crate::parse::{
    error_of, metadata_does_not_affect_the_image, metadata_with_late, parse_stream, parsed_stream,
    ParseState, Parsed,
};
use crate::pixels::{PixelFormat, Pixels};
use crate::zlib::{inflate_zlib, zlib_contents};
use vstd::prelude::*;

verus! {

/// What a backend is told of the image data.
#[derive(Debug, Clone, Copy, PartialEq, Eq, Structural)]
pub struct IdatInfo {
    /// The image's width in pixels.
    pub width: u32,
    /// The image's height in pixels.
    pub height: u32,
    /// Bits per sample.
    pub bit_depth: u8,
    /// The colour type.
    pub color: ColorType,
    /// The length of the filtered scanlines.
    pub filtered_len: usize,
}

impl IdatInfo {
    /// What is to be told of an image.
    pub fn new(width: u32, height: u32, bit_depth: u8, color: ColorType, filtered_len: usize) -> (info:
        Self)
        ensures
            info == (IdatInfo { width, height, bit_depth, color, filtered_len }),
    {
        IdatInfo { width, height, bit_depth, color, filtered_len }
    }
}

/// An inflater of image data.
pub trait IdatInflater {
    /// Whether the backend takes the stream on.
    fn supports(&mut self, info: &IdatInfo) -> bool;

    /// Inflates a zlib stream to at most `max_out` bytes. An unsupported error is a late decline; any
    /// other error ends the decode.
    fn inflate(&mut self, info: &IdatInfo, stream: &[u8], max_out: usize) -> Result<Vec<u8>, Error>;
}

/// What becomes of a backend's answer under a cap on its output: what fits is taken, what does not is
/// refused rather than cut short, an unsupported error is a decline, and any other error ends the
/// decode.
pub open spec fn settled_inflation(reply: Result<Vec<u8>, Error>, max_out: usize) -> Settled<
    Vec<u8>,
> {
    match reply {
        Ok(stream) => if stream@.len() <= max_out {
            Settled::Accepted(stream)
        } else {
            Settled::Ended(Error { cause: Cause::BackendOverran, offset: None })
        },
        Err(error) => if error.cause.spec_kind() == ErrorKind::Unsupported {
            Settled::Declined
        } else {
            Settled::Ended(error)
        },
    }
}

/// Decides on a backend's answer.
pub fn settle_inflation(reply: Result<Vec<u8>, Error>, max_out: usize) -> (decision: Settled<
    Vec<u8>,
>)
    ensures
        decision == settled_inflation(reply, max_out),
{
    match reply {
        Ok(stream) => if stream.len() <= max_out {
            Settled::Accepted(stream)
        } else {
            Settled::Ended(Error::new(Cause::BackendOverran))
        },
        Err(error) => if error.kind() == ErrorKind::Unsupported {
            Settled::Declined
        } else {
            Settled::Ended(error)
        },
    }
}

/// Whether each backend that took a stream on had its reply settled under the cap.
pub open spec fn are_capped<B>(visits: Seq<Visit<B, Vec<u8>>>, max_out: usize) -> bool {
    forall|k: int|
        0 <= k < visits.len() && (#[trigger] visits[k]).answer ==> visits[k].verdict
            == settled_inflation(visits[k].reply, max_out)
}

/// What the backends and, where all of them declined, the built-in inflater make of a stream.
pub open spec fn reply_after(
    outcome: Result<Option<Vec<u8>>, Error>,
    stream: Seq<u8>,
    max_out: int,
) -> Result<Seq<u8>, Error> {
    match outcome {
        Ok(Some(scanlines)) => Ok(scanlines@),
        Ok(None) => match zlib_contents(stream, max_out) {
            Some(contents) => Ok(contents),
            None => Err(error_of(Cause::CorruptZlib)),
        },
        Err(error) => Err(error),
    }
}

/// An inflater's answer as values.
pub open spec fn reply_of(reply: Result<Vec<u8>, Error>) -> Result<Seq<u8>, Error> {
    match reply {
        Ok(stream) => Ok(stream@),
        Err(e) => Err(e),
    }
}

/// Asks some backends in their order to inflate image data, or gives nothing where every backend
/// declined. Each is told of the image and, where it takes the stream on, is handed its bytes and the
/// cap on its output once. What follows is decided by [`step`].
fn ask_inflaters<B: IdatInflater>(
    backends: &mut Vec<B>,
    info: &IdatInfo,
    stream: &[u8],
    max_out: usize,
) -> (inflated: Result<Option<Vec<u8>>, Error>)
    ensures
        (exists|visits: Seq<Visit<B, Vec<u8>>>|
            {
                &&& #[trigger] dispatched(visits, old(backends)@, final(backends)@, inflated)
                &&& are_capped(visits, max_out)
                &&& forall|k: int|
                    0 <= k < visits.len() ==> exists|b: &mut B|
                        *b == (#[trigger] visits[k]).before && *final(b) == visits[k].between
                            && #[trigger] call_ensures(B::supports, (b, info), visits[k].answer)
                &&& forall|k: int|
                    0 <= k < visits.len() && (#[trigger] visits[k]).answer ==> exists|b: &mut B|
                        *b == visits[k].between && *final(b) == visits[k].after && #[trigger]
                            call_ensures(B::inflate, (b, info, stream, max_out), visits[k].reply)
            }),
        inflated matches Ok(Some(v)) ==> v@.len() <= max_out,
{
    let count: usize = backends.len();
    let ghost before = backends@;
    let ghost mut visits: Seq<Visit<B, Vec<u8>>> = Seq::empty();
    let mut action: Action<Vec<u8>> = step(Event::Begun, count);
    loop
        invariant
            before == old(backends)@,
            before.len() == count,
            backends@.len() == count,
            match action {
                Action::Ask(place) => {
                    &&& visits.len() == place < count
                    &&& are_visits_of(visits, before, backends@)
                },
                Action::Run(place) => {
                    &&& visits.len() == place < count
                    &&& are_visits_of(
                        visits,
                        before,
                        backends@.update(place as int, before[place as int]),
                    )
                    &&& exists|b: &mut B|
                        *b == before[place as int] && *final(b) == backends@[place as int]
                            && #[trigger] call_ensures(B::supports, (b, info), true)
                },
                Action::End(outcome) => {
                    &&& dispatched(visits, before, backends@, outcome)
                    &&& outcome matches Ok(Some(v)) ==> v@.len() <= max_out
                },
            },
            !(action is End) ==> all_declined(visits),
            are_capped(visits, max_out),
            forall|k: int|
                0 <= k < visits.len() ==> exists|b: &mut B|
                    *b == (#[trigger] visits[k]).before && *final(b) == visits[k].between
                        && #[trigger] call_ensures(B::supports, (b, info), visits[k].answer),
            forall|k: int|
                0 <= k < visits.len() && (#[trigger] visits[k]).answer ==> exists|b: &mut B|
                    *b == visits[k].between && *final(b) == visits[k].after && #[trigger]
                        call_ensures(B::inflate, (b, info, stream, max_out), visits[k].reply),
        decreases
                count - visits.len(),
                (if action is Ask {
                    1int
                } else {
                    0int
                }),
    {
        let ghost so_far = visits;
        let ghost now = backends@;
        match action {
            Action::Ask(place) => {
                let ghost asked = before[place as int];
                let answer: bool = backends[place].supports(info);
                let ghost left = backends@[place as int];
                assert(exists|b: &mut B|
                    *b == asked && *final(b) == left && #[trigger] call_ensures(
                        B::supports,
                        (b, info),
                        answer,
                    ));
                action = step(Event::Answered(place, answer), count);
                proof {
                    let then = backends@;
                    if answer {
                        assert(then.update(place as int, asked) =~= now);
                    } else {
                        let v = Visit {
                            before: asked,
                            between: left,
                            after: left,
                            answer,
                            reply: arbitrary(),
                            verdict: Settled::Declined,
                        };
                        assert(v.answer == answer && v.before == asked && v.between == left);
                        assert(exists|b: &mut B|
                            *b == v.before && *final(b) == v.between && #[trigger] call_ensures(
                                B::supports,
                                (b, info),
                                v.answer,
                            ));
                        visits = so_far.push(v);
                        assert(then =~= now.update(place as int, left));
                        visited(so_far, v, before, now, then);
                        decided(so_far, v, count, action);
                    }
                }
            },
            Action::Run(place) => {
                let ghost asked = before[place as int];
                let ghost between = backends@[place as int];
                assert(exists|b: &mut B|
                    *b == asked && *final(b) == between && #[trigger] call_ensures(
                        B::supports,
                        (b, info),
                        true,
                    ));
                let reply: Result<Vec<u8>, Error> = backends[place].inflate(info, stream, max_out);
                let ghost then = backends@;
                let ghost v = Visit {
                    before: asked,
                    between,
                    after: then[place as int],
                    answer: true,
                    reply,
                    verdict: settled_inflation(reply, max_out),
                };
                action = step(Event::Replied(place, settle_inflation(reply, max_out)), count);
                proof {
                    assert(v.answer == true && v.before == asked && v.between == between);
                    assert(exists|b: &mut B|
                        *b == v.before && *final(b) == v.between && #[trigger] call_ensures(
                            B::supports,
                            (b, info),
                            v.answer,
                        ));
                    let earlier = now.update(place as int, asked);
                    visits = so_far.push(v);
                    assert(then =~= earlier.update(place as int, v.after));
                    visited(so_far, v, before, earlier, then);
                    decided(so_far, v, count, action);
                }
            },
            Action::End(outcome) => {
                return outcome;
            },
        }
        proof {
            assert forall|k: int| 0 <= k < visits.len() implies exists|b: &mut B|
                *b == (#[trigger] visits[k]).before && *final(b) == visits[k].between
                    && #[trigger] call_ensures(B::supports, (b, info), visits[k].answer) by {
                if k < so_far.len() {
                    assert(visits[k] == so_far[k]);
                } else {
                    assert(visits[k] == visits.last());
                }
            }
            assert forall|k: int|
                0 <= k < visits.len() && (#[trigger] visits[k]).answer implies exists|b: &mut B|
                *b == visits[k].between && *final(b) == visits[k].after && #[trigger] call_ensures(
                    B::inflate,
                    (b, info, stream, max_out),
                    visits[k].reply,
                ) by {
                if k < so_far.len() {
                    assert(visits[k] == so_far[k]);
                }
            }
            assert forall|k: int|
                0 <= k < visits.len() && (#[trigger] visits[k]).answer implies visits[k].verdict
                == settled_inflation(visits[k].reply, max_out) by {
                if k < so_far.len() {
                    assert(visits[k] == so_far[k]);
                }
            }
        }
    }
}

/// Inflates image data by the first backend that takes it on, and by the built-in inflater where none
/// does. The backends are asked in their order, none behind the deciding one is touched, and whatever
/// they return, no more than `max_out` bytes come out.
pub fn run_inflaters<B: IdatInflater>(
    backends: &mut Vec<B>,
    info: &IdatInfo,
    stream: &[u8],
    max_out: usize,
) -> (reply: Result<Vec<u8>, Error>)
    ensures
        (exists|visits: Seq<Visit<B, Vec<u8>>>, outcome: Result<Option<Vec<u8>>, Error>|
            {
                &&& #[trigger] dispatched(visits, old(backends)@, final(backends)@, outcome)
                &&& are_capped(visits, max_out)
                &&& forall|k: int|
                    0 <= k < visits.len() ==> exists|b: &mut B|
                        *b == (#[trigger] visits[k]).before && *final(b) == visits[k].between
                            && #[trigger] call_ensures(B::supports, (b, info), visits[k].answer)
                &&& forall|k: int|
                    0 <= k < visits.len() && (#[trigger] visits[k]).answer ==> exists|b: &mut B|
                        *b == visits[k].between && *final(b) == visits[k].after && #[trigger]
                            call_ensures(B::inflate, (b, info, stream, max_out), visits[k].reply)
                &&& reply_of(reply) == reply_after(outcome, stream@, max_out as int)
            }),
        reply matches Ok(v) ==> v@.len() <= max_out,
        old(backends)@.len() == 0 ==> match zlib_contents(stream@, max_out as int) {
            Some(c) => reply matches Ok(v) && v@ == c,
            None => failed(reply, Cause::CorruptZlib),
        },
{
    match ask_inflaters(backends, info, stream, max_out) {
        Ok(Some(scanlines)) => Ok(scanlines),
        Ok(None) => inflate_zlib(stream, max_out),
        Err(error) => Err(error),
    }
}

/// What decoding a file gives, given what an inflater answered for its image data.
pub open spec fn decoded_with(l: Limits, png: Seq<u8>, reply: Result<Seq<u8>, Error>) -> Result<
    DecodedModel,
    Error,
> {
    match parsed_stream(png, true) {
        Err(e) => Err(e),
        Ok((h, s)) => match native_with(l, h, s, reply) {
            Err(e) => Err(e),
            Ok(n) => Ok(
                assembled(
                    n,
                    metadata_with_late(s.ancillary, s.late_stores, l.max_metadata_bytes),
                ),
            ),
        },
    }
}

/// What presenting a file in a layout gives, given what an inflater answered for its image data.
pub open spec fn presented_with(
    l: Limits,
    png: Seq<u8>,
    reply: Result<Seq<u8>, Error>,
    target: PixelFormat,
) -> Result<Seq<u16>, Error> {
    match parsed_stream(png, false) {
        Err(e) => Err(e),
        Ok((h, s)) => match native_with(l, h, s, reply) {
            Err(e) => Err(e),
            Ok(n) => shown_in(n, target),
        },
    }
}

/// Whether a decode came out as an answer of an inflater leads to.
pub open spec fn comes_of(
    l: Limits,
    png: Seq<u8>,
    reply: Result<Seq<u8>, Error>,
    decoded: Result<DecodedPng, Error>,
) -> bool {
    match decoded_with(l, png, reply) {
        Err(e) => decoded matches Err(f) && f == e,
        Ok(m) => decoded matches Ok(d) && d@ == m,
    }
}

/// Whether a presentation came out as an answer of an inflater leads to.
pub open spec fn shows_what_comes_of(
    l: Limits,
    png: Seq<u8>,
    reply: Result<Seq<u8>, Error>,
    target: PixelFormat,
    pixels: Result<Pixels, Error>,
) -> bool {
    match presented_with(l, png, reply, target) {
        Err(e) => pixels matches Err(f) && f == e,
        Ok(samples) => pixels matches Ok(p) && p.wf() && p.spec_format() == target && p.samples()
            == samples,
    }
}

/// Whether the image data of parsed chunks is to be inflated: they have the palette their colour type
/// asks for and are within the limits.
pub open spec fn is_due(l: Limits, h: Ihdr, s: ParseState) -> bool {
    palette_and_key(h, s.plte, s.trns) is Ok && limit_fault(l, h) is None
}

/// The header and the chunks of a file whose image data is to be inflated: one that is read without a
/// fault, has the palette its colour type asks for and is within the limits.
pub open spec fn awaiting(l: Limits, png: Seq<u8>, want_metadata: bool) -> Option<
    (Ihdr, ParseState),
> {
    match parsed_stream(png, want_metadata) {
        Err(_) => None,
        Ok((h, s)) => if is_due(l, h, s) {
            Some((h, s))
        } else {
            None
        },
    }
}

/// What backends are told of an image.
pub open spec fn info_of(h: Ihdr) -> IdatInfo {
    IdatInfo {
        width: h.width,
        height: h.height,
        bit_depth: h.bit_depth,
        color: h.color,
        filtered_len: stream_len(h) as usize,
    }
}

impl PngDecoder {
    /// The image of parsed chunks, with the image data inflated by the first of some backends that
    /// takes it on.
    fn decode_parsed_through<B: IdatInflater>(
        &self,
        backends: &mut Vec<B>,
        parsed: &Parsed<'_>,
        state: Ghost<ParseState>,
    ) -> (native: Result<NativeImage, Error>)
        requires
            parsed.header.wf(),
            parsed.holds(state@),
        ensures
            !is_due(self@, parsed.header, state@) ==> final(backends)@ == old(backends)@ && (
            match native_of(self@, parsed.header, state@) {
                Err(e) => native matches Err(f) && f == e,
                Ok(_) => false,
            }),
            is_due(self@, parsed.header, state@) ==> (exists|
                visits: Seq<Visit<B, Vec<u8>>>,
                outcome: Result<Option<Vec<u8>>, Error>,
                stream: &[u8],
            |
                {
                    &&& #[trigger] stream@ == state@.idat
                    &&& #[trigger] dispatched(visits, old(backends)@, final(backends)@, outcome)
                    &&& are_capped(visits, stream_len(parsed.header) as usize)
                    &&& forall|k: int|
                        0 <= k < visits.len() ==> exists|b: &mut B|
                            *b == (#[trigger] visits[k]).before && *final(b) == visits[k].between
                                && #[trigger] call_ensures(
                                B::supports,
                                (b, &info_of(parsed.header)),
                                visits[k].answer,
                            )
                    &&& forall|k: int|
                        0 <= k < visits.len() && (#[trigger] visits[k]).answer ==> exists|b: &mut B|
                            *b == visits[k].between && *final(b) == visits[k].after
                                && #[trigger] call_ensures(
                                B::inflate,
                                (b, &info_of(parsed.header), stream, stream_len(
                                    parsed.header,
                                ) as usize),
                                visits[k].reply,
                            )
                    &&& match native_with(
                        self@,
                        parsed.header,
                        state@,
                        reply_after(outcome, state@.idat, stream_len(parsed.header)),
                    ) {
                        Err(e) => native matches Err(f) && f == e,
                        Ok(n) => native matches Ok(m) && m.wf() && m@ == n,
                    }
                }),
            old(backends)@.len() == 0 ==> match native_of(self@, parsed.header, state@) {
                Err(e) => native matches Err(f) && f == e,
                Ok(n) => native matches Ok(m) && m.wf() && m@ == n,
            },
    {
        let header: Ihdr = parsed.header;
        let (palette, trns_key, expected): (
            Option<PngPalette>,
            Option<TransparencyKey>,
            usize,
        ) = match self.prepare(parsed, state) {
            Ok(ready) => ready,
            Err(e) => {
                return Err(e);
            },
        };
        let info: IdatInfo = IdatInfo::new(
            header.width,
            header.height,
            header.bit_depth,
            header.color,
            expected,
        );
        assert(info == info_of(header));
        let idat: &[u8] = parsed.idat.as_slice();
        assert(idat@ == state@.idat);
        let stream: Vec<u8> = match run_inflaters(backends, &info, idat, expected) {
            Ok(stream) => stream,
            Err(e) => {
                return Err(e);
            },
        };
        decode_scanlines(header, palette, trns_key, stream.as_slice(), expected)
    }

    /// Decodes a PNG as [`PngDecoder::decode`] does, with the image data inflated by the first of some
    /// backends that takes it on. With no backend this is [`PngDecoder::decode`].
    ///
    /// The backends are asked as by [`run_inflaters`], and only where there is something to inflate: a
    /// file that is refused before that reaches none of them.
    pub fn decode_through<B: IdatInflater>(&self, backends: &mut Vec<B>, data: &[u8]) -> (decoded:
        Result<DecodedPng, Error>)
        ensures
            awaiting(self@, data@, true) is None ==> final(backends)@ == old(backends)@ && (
            match decoded_file(self@, data@) {
                Err(e) => decoded matches Err(f) && f == e,
                Ok(_) => false,
            }),
            awaiting(self@, data@, true) matches Some((h, s)) ==> (exists|
                visits: Seq<Visit<B, Vec<u8>>>,
                outcome: Result<Option<Vec<u8>>, Error>,
                stream: &[u8],
            |
                {
                    &&& #[trigger] stream@ == s.idat
                    &&& #[trigger] dispatched(visits, old(backends)@, final(backends)@, outcome)
                    &&& are_capped(visits, stream_len(h) as usize)
                    &&& forall|k: int|
                        0 <= k < visits.len() ==> exists|b: &mut B|
                            *b == (#[trigger] visits[k]).before && *final(b) == visits[k].between
                                && #[trigger] call_ensures(
                                B::supports,
                                (b, &info_of(h)),
                                visits[k].answer,
                            )
                    &&& forall|k: int|
                        0 <= k < visits.len() && (#[trigger] visits[k]).answer ==> exists|b: &mut B|
                            *b == visits[k].between && *final(b) == visits[k].after
                                && #[trigger] call_ensures(
                                B::inflate,
                                (b, &info_of(h), stream, stream_len(h) as usize),
                                visits[k].reply,
                            )
                    &&& comes_of(
                        self@,
                        data@,
                        reply_after(outcome, s.idat, stream_len(h)),
                        decoded,
                    )
                }),
            old(backends)@.len() == 0 ==> match decoded_file(self@, data@) {
                Err(e) => decoded matches Err(f) && f == e,
                Ok(m) => decoded matches Ok(d) && d@ == m,
            },
    {
        let parsed: Parsed<'_> = match parse_stream(data, true) {
            Ok(parsed) => parsed,
            Err(e) => {
                return Err(e);
            },
        };
        let ghost state = parsed_stream(data@, true)->Ok_0.1;
        let meta: PngMetadata = collect(parsed.ancillary.as_slice(), self.metadata_budget());
        match self.decode_parsed_through(backends, &parsed, Ghost(state)) {
            Ok(native) => Ok(assemble(native, meta, parsed.late_stores)),
            Err(e) => Err(e),
        }
    }

    /// Presents a PNG in a pixel layout as [`PngDecoder::present`] does, with the image data inflated by
    /// the first of some backends that takes it on. With no backend this is [`PngDecoder::present`].
    ///
    /// The backends are asked as by [`run_inflaters`], and only where there is something to inflate: a
    /// file that is refused before that reaches none of them.
    pub fn present_through<B: IdatInflater>(
        &self,
        backends: &mut Vec<B>,
        data: &[u8],
        target: PixelFormat,
    ) -> (pixels: Result<Pixels, Error>)
        ensures
            awaiting(self@, data@, false) is None ==> final(backends)@ == old(backends)@ && (
            match presented_file(self@, data@, target) {
                Err(e) => pixels matches Err(f) && f == e,
                Ok(_) => false,
            }),
            awaiting(self@, data@, false) matches Some((h, s)) ==> (exists|
                visits: Seq<Visit<B, Vec<u8>>>,
                outcome: Result<Option<Vec<u8>>, Error>,
                stream: &[u8],
            |
                {
                    &&& #[trigger] stream@ == s.idat
                    &&& #[trigger] dispatched(visits, old(backends)@, final(backends)@, outcome)
                    &&& are_capped(visits, stream_len(h) as usize)
                    &&& forall|k: int|
                        0 <= k < visits.len() ==> exists|b: &mut B|
                            *b == (#[trigger] visits[k]).before && *final(b) == visits[k].between
                                && #[trigger] call_ensures(
                                B::supports,
                                (b, &info_of(h)),
                                visits[k].answer,
                            )
                    &&& forall|k: int|
                        0 <= k < visits.len() && (#[trigger] visits[k]).answer ==> exists|b: &mut B|
                            *b == visits[k].between && *final(b) == visits[k].after
                                && #[trigger] call_ensures(
                                B::inflate,
                                (b, &info_of(h), stream, stream_len(h) as usize),
                                visits[k].reply,
                            )
                    &&& shows_what_comes_of(
                        self@,
                        data@,
                        reply_after(outcome, s.idat, stream_len(h)),
                        target,
                        pixels,
                    )
                }),
            old(backends)@.len() == 0 ==> match presented_file(self@, data@, target) {
                Err(e) => pixels matches Err(f) && f == e,
                Ok(samples) => pixels matches Ok(p) && p.wf() && p.spec_format() == target
                    && p.samples() == samples,
            },
    {
        let parsed: Parsed<'_> = match parse_stream(data, false) {
            Ok(parsed) => parsed,
            Err(e) => {
                return Err(e);
            },
        };
        let ghost state = parsed_stream(data@, false)->Ok_0.1;
        match self.decode_parsed_through(backends, &parsed, Ghost(state)) {
            Ok(native) => show_in(native, target),
            Err(e) => Err(e),
        }
    }
}

/// An inflater that answers with what the built-in one would is no different from it.
pub proof fn a_true_inflater_changes_nothing(l: Limits, png: Seq<u8>, target: PixelFormat)
    requires
        parsed_stream(png, true) is Ok,
    ensures
        ({
            let (h, s) = parsed_stream(png, true)->Ok_0;
            decoded_with(l, png, built_in_reply(h, s)) == decoded_file(l, png)
        }),
        ({
            let (h, s) = parsed_stream(png, false)->Ok_0;
            presented_with(l, png, built_in_reply(h, s), target) == presented_file(l, png, target)
        }),
{
    metadata_does_not_affect_the_image(png);
}

} // verus!
