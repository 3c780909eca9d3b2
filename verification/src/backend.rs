//! The JPEG XL decoder's front end: its configuration, its metadata, and the stack of codestream
//! backends it consults.
use crate::dispatch::{
    all_declined, are_visits_of, decided, dispatched, step, visited, Action, Event, Settled, Visit,
};
use crate::error::{failed, Cause, Error, ErrorKind};
use crate::jxl::{
    container_metadata_boxes, framing_of, payload_of, stream_metadata, JxlFraming, JxlMetadata,
};
use crate::pixels::{fills, sample_count, PixelFormat, Pixels};
use vstd::prelude::*;

verus! {

/// What a backend is told of a stream.
#[derive(Debug, Clone, Copy, PartialEq, Eq)]
pub struct JxlStreamInfo {
    /// The layout the caller asks for.
    pub format: PixelFormat,
    /// How the stream is framed.
    pub framing: JxlFraming,
    /// The image's width and height, where they are known.
    pub dimensions: Option<(u32, u32)>,
    /// Whether integer output carries the codestream's declared bit depth.
    pub codestream_bit_depth: bool,
}

/// A raster that a backend decoded.
#[derive(Debug, PartialEq, Eq)]
pub struct JxlDecoded {
    width: u32,
    height: u32,
    pixels: Pixels,
}

impl JxlDecoded {
    /// The width in pixels.
    pub closed spec fn spec_width(&self) -> u32 {
        self.width
    }

    /// The height in pixels.
    pub closed spec fn spec_height(&self) -> u32 {
        self.height
    }

    /// The samples and their layout.
    pub closed spec fn spec_pixels(&self) -> Pixels {
        self.pixels
    }

    /// The samples are stored at the width of their layout, and fill the raster.
    #[verifier::type_invariant]
    spec fn is_filled(self) -> bool {
        &&& self.pixels.wf()
        &&& fills(
            self.pixels.samples().len(),
            self.pixels.spec_format(),
            self.width,
            self.height,
        )
    }

    /// A raster of the given size. Its samples must be of the width that their layout stores, and must
    /// fill it.
    pub fn new(width: u32, height: u32, pixels: Pixels) -> (decoded: Result<Self, Error>)
        ensures
            if !pixels.wf() {
                failed(decoded, Cause::WrongLayout)
            } else if fills(pixels.samples().len(), pixels.spec_format(), width, height) {
                decoded matches Ok(d) && d.spec_width() == width && d.spec_height() == height
                    && d.spec_pixels() == pixels
            } else {
                failed(decoded, Cause::SampleCount)
            },
    {
        let (format, wide, count): (PixelFormat, bool, usize) = match &pixels {
            Pixels::B8(format, samples) => (*format, false, samples.len()),
            Pixels::B16(format, samples) => (*format, true, samples.len()),
        };
        if wide != format.is_wide() {
            return Err(wrong_backend_layout());
        }
        if count as u128 != sample_count(format, width, height) {
            return Err(Error::new(Cause::SampleCount));
        }
        Ok(JxlDecoded { width, height, pixels })
    }

    /// The layout.
    pub fn format(&self) -> (format: PixelFormat)
        ensures
            format == self.spec_pixels().spec_format(),
    {
        match &self.pixels {
            Pixels::B8(format, _) => *format,
            Pixels::B16(format, _) => *format,
        }
    }

    /// The width and height in pixels.
    pub fn dimensions(&self) -> (dimensions: (u32, u32))
        ensures
            dimensions == (self.spec_width(), self.spec_height()),
    {
        (self.width, self.height)
    }

    /// The samples and their layout.
    pub fn into_pixels(self) -> (pixels: Pixels)
        ensures
            pixels == self.spec_pixels(),
            pixels.wf(),
            fills(
                pixels.samples().len(),
                pixels.spec_format(),
                self.spec_width(),
                self.spec_height(),
            ),
    {
        proof {
            use_type_invariant(&self);
        }
        self.pixels
    }
}

/// A decoder of JPEG XL codestreams.
pub trait JxlCodestreamDecoder {
    /// Whether the backend takes the stream on.
    fn supports(&mut self, info: &JxlStreamInfo) -> bool;

    /// Decodes the stream into exactly the layout that was asked for. An unsupported error is a late
    /// decline; any other error ends the decode.
    fn decode(&mut self, info: &JxlStreamInfo, codestream: &[u8]) -> Result<JxlDecoded, Error>;
}

/// The refusal where no backend can decode.
pub fn no_decode_backend() -> (error: Error)
    ensures
        error.cause == Cause::NoBackend,
        error.offset is None,
{
    Error::new(Cause::NoBackend)
}

/// The error for a backend that returned another layout than the one asked for.
pub fn wrong_backend_layout() -> (error: Error)
    ensures
        error.cause == Cause::WrongLayout,
        error.offset is None,
{
    Error::new(Cause::WrongLayout)
}

/// What becomes of a backend's answer to a request for a layout: a raster in that layout is taken, one
/// in another is refused rather than reshaped, an unsupported error is a decline, and any other error
/// ends the decode.
pub open spec fn settled(outcome: Result<JxlDecoded, Error>, format: PixelFormat) -> Settled<
    JxlDecoded,
> {
    match outcome {
        Ok(decoded) => if decoded.spec_pixels().spec_format() == format {
            Settled::Accepted(decoded)
        } else {
            Settled::Ended(Error { cause: Cause::WrongLayout, offset: None })
        },
        Err(error) => if error.cause.spec_kind() == ErrorKind::Unsupported {
            Settled::Declined
        } else {
            Settled::Ended(error)
        },
    }
}

/// Decides on a backend's answer.
pub fn settle(outcome: Result<JxlDecoded, Error>, format: PixelFormat) -> (decision: Settled<
    JxlDecoded,
>)
    ensures
        decision == settled(outcome, format),
{
    match outcome {
        Ok(decoded) => if decoded.format() == format {
            Settled::Accepted(decoded)
        } else {
            Settled::Ended(wrong_backend_layout())
        },
        Err(error) => if error.kind() == ErrorKind::Unsupported {
            Settled::Declined
        } else {
            Settled::Ended(error)
        },
    }
}

/// A JPEG XL decoder. The backends are asked in the order in which they were pushed.
#[derive(Debug)]
pub struct JxlDecoder<B> {
    codestream_bit_depth: bool,
    backends: Vec<B>,
}

impl<B> PartialEq for JxlDecoder<B> {
    /// Compares the configuration; backends are opaque.
    fn eq(&self, other: &Self) -> (same: bool) {
        self.codestream_bit_depth == other.codestream_bit_depth
    }
}

impl<B> vstd::std_specs::cmp::PartialEqSpecImpl for JxlDecoder<B> {
    open spec fn obeys_eq_spec() -> bool {
        true
    }

    open spec fn eq_spec(&self, other: &Self) -> bool {
        self.keeps_bit_depth() == other.keeps_bit_depth()
    }
}

impl<B> Eq for JxlDecoder<B> {

}

impl<B> Default for JxlDecoder<B> {
    /// The default configuration, with no backend pushed.
    fn default() -> (decoder: Self)
        ensures
            !decoder.keeps_bit_depth(),
            decoder.spec_backends() == Seq::<B>::empty(),
    {
        JxlDecoder { codestream_bit_depth: false, backends: Vec::new() }
    }
}

impl<B> JxlDecoder<B> {
    /// Whether integer output carries the codestream's declared bit depth.
    pub closed spec fn keeps_bit_depth(&self) -> bool {
        self.codestream_bit_depth
    }

    /// The pushed backends.
    pub closed spec fn spec_backends(&self) -> Seq<B> {
        self.backends@
    }

    /// A decoder with the default configuration.
    #[must_use]
    pub fn new() -> (decoder: Self)
        ensures
            !decoder.keeps_bit_depth(),
            decoder.spec_backends() == Seq::<B>::empty(),
    {
        JxlDecoder { codestream_bit_depth: false, backends: Vec::new() }
    }

    /// Selects whether integer output carries the codestream's declared bit depth instead of the
    /// output type's full range.
    #[must_use]
    pub fn with_codestream_bit_depth(self, enabled: bool) -> (decoder: Self)
        ensures
            decoder.keeps_bit_depth() == enabled,
            decoder.spec_backends() == self.spec_backends(),
    {
        JxlDecoder { codestream_bit_depth: enabled, backends: self.backends }
    }

    /// Whether integer output carries the codestream's declared bit depth.
    #[must_use]
    pub fn codestream_bit_depth(&self) -> (enabled: bool)
        ensures
            enabled == self.keeps_bit_depth(),
    {
        self.codestream_bit_depth
    }

    /// Pushes a backend behind those already there.
    pub fn push_backend(&mut self, backend: B)
        ensures
            final(self).spec_backends() == old(self).spec_backends().push(backend),
            final(self).keeps_bit_depth() == old(self).keeps_bit_depth(),
    {
        self.backends.push(backend);
    }

    /// The metadata of a stream, given what its codestream's headers say of an ICC profile. A stream
    /// of neither framing and a malformed box sequence are refused before that is looked at.
    pub fn metadata(&self, data: &[u8], icc: Result<Option<Vec<u8>>, Error>) -> (metadata: Result<
        JxlMetadata,
        Error,
    >)
        ensures
            match stream_metadata(data@) {
                Err(cause) => failed(metadata, cause),
                Ok(found) => match icc {
                    Err(e) => metadata matches Err(f) && f == e,
                    Ok(profile) => metadata matches Ok(m) && payload_of(m.exif) == found.exif
                        && payload_of(m.xmp) == found.xmp && m.icc == profile,
                },
            },
    {
        let (exif, xmp): (Option<Vec<u8>>, Option<Vec<u8>>) = match JxlFraming::detect(data) {
            JxlFraming::IsoBmff => match container_metadata_boxes(data) {
                Ok(boxes) => boxes,
                Err(e) => {
                    return Err(e);
                },
            },
            JxlFraming::Codestream => (None, None),
            JxlFraming::Unknown => {
                return Err(Error::new(Cause::UnknownFraming));
            },
        };
        match icc {
            Ok(icc) => {
                let mut metadata: JxlMetadata = JxlMetadata::default();
                metadata.exif = exif;
                metadata.xmp = xmp;
                metadata.icc = icc;
                Ok(metadata)
            },
            Err(e) => Err(e),
        }
    }
}

/// Whether each backend that took a stream on had its reply settled for the layout asked for.
pub open spec fn are_settled<B>(visits: Seq<Visit<B, JxlDecoded>>, format: PixelFormat) -> bool {
    forall|k: int|
        0 <= k < visits.len() && (#[trigger] visits[k]).answer ==> visits[k].verdict == settled(
            visits[k].reply,
            format,
        )
}

impl<B> JxlDecoder<B> {
    /// What the backends are told of a stream.
    pub open spec fn spec_stream_info(
        &self,
        data: Seq<u8>,
        format: PixelFormat,
        dimensions: Option<(u32, u32)>,
    ) -> JxlStreamInfo {
        JxlStreamInfo {
            format,
            framing: framing_of(data),
            dimensions,
            codestream_bit_depth: self.keeps_bit_depth(),
        }
    }

    /// What the backends are told of a stream, given the dimensions its headers name.
    pub fn stream_info(
        &self,
        data: &[u8],
        format: PixelFormat,
        dimensions: Option<(u32, u32)>,
    ) -> (info: JxlStreamInfo)
        ensures
            info == self.spec_stream_info(data@, format, dimensions),
    {
        JxlStreamInfo {
            format,
            framing: JxlFraming::detect(data),
            dimensions,
            codestream_bit_depth: self.codestream_bit_depth,
        }
    }
}

impl<B: JxlCodestreamDecoder> JxlDecoder<B> {
    /// Asks the backends in push order for a raster, given the dimensions the stream's headers name,
    /// or gives nothing where every backend declined.
    ///
    /// Each backend is told of the stream as [`JxlDecoder::stream_info`] has it and, where it takes the
    /// stream on, is handed its bytes once. What follows is decided by [`step`]: a decline leads to the
    /// next backend, a raster in the layout that was asked for is the answer, and an error of any other
    /// kind ends the decode. No backend behind the deciding one is touched.
    pub fn dispatch_backends(
        &mut self,
        data: &[u8],
        format: PixelFormat,
        dimensions: Option<(u32, u32)>,
    ) -> (decoded: Result<Option<JxlDecoded>, Error>)
        ensures
            (exists|visits: Seq<Visit<B, JxlDecoded>>|
                {
                    &&& #[trigger] dispatched(
                        visits,
                        old(self).spec_backends(),
                        final(self).spec_backends(),
                        decoded,
                    )
                    &&& are_settled(visits, format)
                    &&& forall|k: int|
                        0 <= k < visits.len() ==> exists|b: &mut B|
                            *b == (#[trigger] visits[k]).before && *final(b) == visits[k].between
                                && #[trigger] call_ensures(
                                B::supports,
                                (b, &old(self).spec_stream_info(data@, format, dimensions)),
                                visits[k].answer,
                            )
                    &&& forall|k: int|
                        0 <= k < visits.len() && (#[trigger] visits[k]).answer ==> exists|b: &mut B|
                            *b == visits[k].between && *final(b) == visits[k].after
                                && #[trigger] call_ensures(
                                B::decode,
                                (b, &old(self).spec_stream_info(data@, format, dimensions), data),
                                visits[k].reply,
                            )
                }),
            old(self).spec_backends().len() == 0 ==> decoded is Ok && decoded->Ok_0 is None,
            decoded matches Ok(Some(d)) ==> d.spec_pixels().spec_format() == format,
            final(self).keeps_bit_depth() == old(self).keeps_bit_depth(),
    {
        let info: JxlStreamInfo = self.stream_info(data, format, dimensions);
        let count: usize = self.backends.len();
        let ghost before = self.spec_backends();
        let ghost depth = self.keeps_bit_depth();
        let ghost mut visits: Seq<Visit<B, JxlDecoded>> = Seq::empty();
        let mut action: Action<JxlDecoded> = step(Event::Begun, count);
        loop
            invariant
                self.keeps_bit_depth() == depth,
                depth == old(self).keeps_bit_depth(),
                before == old(self).spec_backends(),
                before.len() == count,
                info == old(self).spec_stream_info(data@, format, dimensions),
                self.spec_backends().len() == count,
                match action {
                    Action::Ask(place) => {
                        &&& visits.len() == place < count
                        &&& are_visits_of(visits, before, self.spec_backends())
                    },
                    Action::Run(place) => {
                        &&& visits.len() == place < count
                        &&& are_visits_of(
                            visits,
                            before,
                            self.spec_backends().update(place as int, before[place as int]),
                        )
                        &&& exists|b: &mut B|
                            *b == before[place as int] && *final(b)
                                == self.spec_backends()[place as int] && #[trigger] call_ensures(
                                B::supports,
                                (b, &info),
                                true,
                            )
                    },
                    Action::End(outcome) => {
                        &&& dispatched(visits, before, self.spec_backends(), outcome)
                        &&& outcome matches Ok(Some(d)) ==> d.spec_pixels().spec_format() == format
                    },
                },
                !(action is End) ==> all_declined(visits),
                are_settled(visits, format),
                forall|k: int|
                    0 <= k < visits.len() ==> exists|b: &mut B|
                        *b == (#[trigger] visits[k]).before && *final(b) == visits[k].between
                            && #[trigger] call_ensures(B::supports, (b, &info), visits[k].answer),
                forall|k: int|
                    0 <= k < visits.len() && (#[trigger] visits[k]).answer ==> exists|b: &mut B|
                        *b == visits[k].between && *final(b) == visits[k].after && #[trigger]
                            call_ensures(B::decode, (b, &info, data), visits[k].reply),
            decreases count - visits.len(),
                (if action is Ask {
                    1int
                } else {
                    0int
                }),
        {
            let ghost so_far = visits;
            let ghost now = self.spec_backends();
            match action {
                Action::Ask(place) => {
                    let ghost asked = before[place as int];
                    let answer: bool = self.backends[place].supports(&info);
                    let ghost left = self.backends@[place as int];
                    assert(exists|b: &mut B|
                        *b == asked && *final(b) == left && #[trigger] call_ensures(
                            B::supports,
                            (b, &info),
                            answer,
                        ));
                    action = step(Event::Answered(place, answer), count);
                    proof {
                        let ghost then = self.spec_backends();
                        if answer {
                            assert(then.update(place as int, asked) =~= now);
                        } else {
                            let v = Visit {
                                before: asked,
                                between: left,
                                after: left,
                                answer,
                                reply: arbitrary(),
                                verdict: Settled::Declined,
                            };
                            assert(v.answer == answer && v.before == asked && v.between == left);
                            assert(exists|b: &mut B|
                                *b == v.before && *final(b) == v.between && #[trigger] call_ensures(
                                    B::supports,
                                    (b, &info),
                                    v.answer,
                                ));
                            visits = so_far.push(v);
                            assert(then =~= now.update(place as int, left));
                            visited(so_far, v, before, now, then);
                            decided(so_far, v, count, action);
                        }
                    }
                },
                Action::Run(place) => {
                    let ghost asked = before[place as int];
                    let ghost between = self.backends@[place as int];
                    assert(exists|b: &mut B|
                        *b == asked && *final(b) == between && #[trigger] call_ensures(
                            B::supports,
                            (b, &info),
                            true,
                        ));
                    let reply: Result<JxlDecoded, Error> = self.backends[place].decode(&info, data);
                    let ghost then = self.spec_backends();
                    let ghost v = Visit {
                        before: asked,
                        between,
                        after: then[place as int],
                        answer: true,
                        reply,
                        verdict: settled(reply, format),
                    };
                    action = step(Event::Replied(place, settle(reply, format)), count);
                    proof {
                        assert(v.answer == true && v.before == asked && v.between == between);
                        assert(exists|b: &mut B|
                            *b == v.before && *final(b) == v.between && #[trigger] call_ensures(
                                B::supports,
                                (b, &info),
                                v.answer,
                            ));
                        let earlier = now.update(place as int, asked);
                        visits = so_far.push(v);
                        assert(then =~= earlier.update(place as int, v.after));
                        visited(so_far, v, before, earlier, then);
                        decided(so_far, v, count, action);
                    }
                },
                Action::End(outcome) => {
                    return outcome;
                },
            }
            proof {
                assert forall|k: int| 0 <= k < visits.len() implies exists|b: &mut B|
                    *b == (#[trigger] visits[k]).before && *final(b) == visits[k].between
                        && #[trigger] call_ensures(B::supports, (b, &info), visits[k].answer) by {
                    if k < so_far.len() {
                        assert(visits[k] == so_far[k]);
                    } else {
                        assert(visits[k] == visits.last());
                    }
                }
                assert forall|k: int|
                    0 <= k < visits.len() && (#[trigger] visits[k]).answer implies exists|
                    b: &mut B,
                |
                    *b == visits[k].between && *final(b) == visits[k].after && #[trigger]
                        call_ensures(B::decode, (b, &info, data), visits[k].reply) by {
                    if k < so_far.len() {
                        assert(visits[k] == so_far[k]);
                    }
                }
                assert forall|k: int|
                    0 <= k < visits.len() && (#[trigger] visits[k]).answer implies visits[k].verdict
                    == settled(visits[k].reply, format) by {
                    if k < so_far.len() {
                        assert(visits[k] == so_far[k]);
                    }
                }
            }
        }
    }

    /// Decodes a stream with the first backend that takes it on. Where none does, there is no decoder:
    /// none is built in.
    pub fn decode_image(
        &mut self,
        data: &[u8],
        format: PixelFormat,
        dimensions: Option<(u32, u32)>,
    ) -> (decoded: Result<JxlDecoded, Error>)
        ensures
            (exists|visits: Seq<Visit<B, JxlDecoded>>, outcome: Result<Option<JxlDecoded>, Error>|
                {
                    &&& #[trigger] dispatched(
                        visits,
                        old(self).spec_backends(),
                        final(self).spec_backends(),
                        outcome,
                    )
                    &&& are_settled(visits, format)
                    &&& forall|k: int|
                        0 <= k < visits.len() ==> exists|b: &mut B|
                            *b == (#[trigger] visits[k]).before && *final(b) == visits[k].between
                                && #[trigger] call_ensures(
                                B::supports,
                                (b, &old(self).spec_stream_info(data@, format, dimensions)),
                                visits[k].answer,
                            )
                    &&& forall|k: int|
                        0 <= k < visits.len() && (#[trigger] visits[k]).answer ==> exists|b: &mut B|
                            *b == visits[k].between && *final(b) == visits[k].after
                                && #[trigger] call_ensures(
                                B::decode,
                                (b, &old(self).spec_stream_info(data@, format, dimensions), data),
                                visits[k].reply,
                            )
                    &&& match outcome {
                        Ok(Some(d)) => decoded matches Ok(e) && e == d,
                        Ok(None) => failed(decoded, Cause::NoBackend),
                        Err(error) => decoded matches Err(e) && e == error,
                    }
                }),
            old(self).spec_backends().len() == 0 ==> failed(decoded, Cause::NoBackend),
            decoded matches Ok(d) ==> d.spec_pixels().spec_format() == format && d.spec_pixels().wf()
                && fills(
                d.spec_pixels().samples().len(),
                format,
                d.spec_width(),
                d.spec_height(),
            ),
            final(self).keeps_bit_depth() == old(self).keeps_bit_depth(),
    {
        match self.dispatch_backends(data, format, dimensions) {
            Ok(Some(decoded)) => {
                proof {
                    use_type_invariant(&decoded);
                }
                Ok(decoded)
            },
            Ok(None) => Err(no_decode_backend()),
            Err(error) => Err(error),
        }
    }
}

} // verus!
