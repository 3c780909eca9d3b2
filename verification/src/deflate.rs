//! Deflating the image data by something other than the built-in compressor.
//!
//! Every filtered scanline stream that the encoder compresses, each candidate of a brute force or of a
//! race among them, is offered to backends in their order; the built-in compressor is the implicit tail.
//! A backend that declines is passed over and one that accepts and then fails ends the encode. What a
//! backend returns is taken as it is: the configured level and effort are the built-in compressor's.
//! Compressed metadata always goes through the built-in compressor.
use crate::dispatch::{
    all_declined, are_visits_of, decided, dispatched, step, visited, Action, Event, Settled, Visit,
};
use crate::adam7::row_len;
use crate::bytes::byte_len;
use crate::canvas::stride_of;
use crate::decoder::indices_in_range;
use crate::draft::{
    own_streams_make_the_encoded_file, own_streams_of_one_file, stream_bytes, Draft, DraftModel,
};
use crate::encoder::{
    brute_force, brute_force_strategy, filtered_rows, row_shape, FileModel, FileParts, PngEncoder,
    BRUTE_FORCE_COUNT,
};
use crate::error::{failed, Cause, Error, ErrorKind};
use crate::filter::{filter_image, FilterStrategy};
use crate::ihdr::Ihdr;
use crate::palette::PngPalette;
use crate::pixels::ImageRef;
use crate::seam::IdatInfo;
use crate::zlib::{inflates_to, zlib_compress, zlib_stream};
use vstd::prelude::*;

verus! {

/// A deflater of image data.
pub trait IdatDeflater {
    /// Whether the backend takes the stream on.
    fn supports(&mut self, info: &IdatInfo) -> bool;

    /// Compresses filtered scanlines into a zlib stream. An unsupported error is a late decline; any
    /// other error ends the encode.
    fn deflate(&mut self, info: &IdatInfo, filtered: &[u8]) -> Result<Vec<u8>, Error>;
}

/// What becomes of a backend's answer: a stream is taken, an unsupported error is a decline, and any
/// other error ends the encode.
pub open spec fn settled_deflation(reply: Result<Vec<u8>, Error>) -> Settled<Vec<u8>> {
    match reply {
        Ok(stream) => Settled::Accepted(stream),
        Err(error) => if error.cause.spec_kind() == ErrorKind::Unsupported {
            Settled::Declined
        } else {
            Settled::Ended(error)
        },
    }
}

/// Decides on a backend's answer.
pub fn settle_deflation(reply: Result<Vec<u8>, Error>) -> (decision: Settled<Vec<u8>>)
    ensures
        decision == settled_deflation(reply),
{
    match reply {
        Ok(stream) => Settled::Accepted(stream),
        Err(error) => if error.kind() == ErrorKind::Unsupported {
            Settled::Declined
        } else {
            Settled::Ended(error)
        },
    }
}

/// Whether each backend that took a stream on had its reply settled.
pub open spec fn are_settled<B>(visits: Seq<Visit<B, Vec<u8>>>) -> bool {
    forall|k: int|
        0 <= k < visits.len() && (#[trigger] visits[k]).answer ==> visits[k].verdict
            == settled_deflation(visits[k].reply)
}

/// What the backends and, where all of them declined, the built-in compressor make of filtered
/// scanlines.
pub open spec fn deflation_after(
    outcome: Result<Option<Vec<u8>>, Error>,
    filtered: Seq<u8>,
    strength: u8,
) -> Result<Seq<u8>, Error> {
    match outcome {
        Ok(Some(stream)) => Ok(stream@),
        Ok(None) => Ok(zlib_stream(filtered, strength)),
        Err(error) => Err(error),
    }
}

/// A deflater's answer as values.
pub open spec fn deflation_of(reply: Result<Vec<u8>, Error>) -> Result<Seq<u8>, Error> {
    match reply {
        Ok(stream) => Ok(stream@),
        Err(e) => Err(e),
    }
}

/// Asks some backends in their order to deflate filtered scanlines, or gives nothing where every backend
/// declined, along with its visits to them. Each is told of the image and, where it takes the stream on,
/// is handed the scanlines once. What follows is decided by [`step`].
fn ask_deflaters<B: IdatDeflater>(backends: &mut Vec<B>, info: &IdatInfo, filtered: &[u8]) -> (asked: (
    Result<Option<Vec<u8>>, Error>,
    Ghost<Seq<Visit<B, Vec<u8>>>>,
))
    ensures
        dispatched(asked.1@, old(backends)@, final(backends)@, asked.0),
        are_settled(asked.1@),
        forall|k: int|
            0 <= k < asked.1@.len() ==> exists|b: &mut B|
                *b == (#[trigger] asked.1@[k]).before && *final(b) == asked.1@[k].between
                    && #[trigger] call_ensures(B::supports, (b, info), asked.1@[k].answer),
        forall|k: int|
            0 <= k < asked.1@.len() && (#[trigger] asked.1@[k]).answer ==> exists|b: &mut B|
                *b == asked.1@[k].between && *final(b) == asked.1@[k].after && #[trigger]
                    call_ensures(B::deflate, (b, info, filtered), asked.1@[k].reply),
{
    let count: usize = backends.len();
    let ghost before = backends@;
    let ghost mut visits: Seq<Visit<B, Vec<u8>>> = Seq::empty();
    let mut action: Action<Vec<u8>> = step(Event::Begun, count);
    loop
        invariant
            before == old(backends)@,
            before.len() == count,
            backends@.len() == count,
            match action {
                Action::Ask(place) => {
                    &&& visits.len() == place < count
                    &&& are_visits_of(visits, before, backends@)
                },
                Action::Run(place) => {
                    &&& visits.len() == place < count
                    &&& are_visits_of(
                        visits,
                        before,
                        backends@.update(place as int, before[place as int]),
                    )
                    &&& exists|b: &mut B|
                        *b == before[place as int] && *final(b) == backends@[place as int]
                            && #[trigger] call_ensures(B::supports, (b, info), true)
                },
                Action::End(outcome) => dispatched(visits, before, backends@, outcome),
            },
            !(action is End) ==> all_declined(visits),
            are_settled(visits),
            forall|k: int|
                0 <= k < visits.len() ==> exists|b: &mut B|
                    *b == (#[trigger] visits[k]).before && *final(b) == visits[k].between
                        && #[trigger] call_ensures(B::supports, (b, info), visits[k].answer),
            forall|k: int|
                0 <= k < visits.len() && (#[trigger] visits[k]).answer ==> exists|b: &mut B|
                    *b == visits[k].between && *final(b) == visits[k].after && #[trigger]
                        call_ensures(B::deflate, (b, info, filtered), visits[k].reply),
        decreases
                count - visits.len(),
                (if action is Ask {
                    1int
                } else {
                    0int
                }),
    {
        let ghost so_far = visits;
        let ghost now = backends@;
        match action {
            Action::Ask(place) => {
                let ghost asked = before[place as int];
                let answer: bool = backends[place].supports(info);
                let ghost left = backends@[place as int];
                assert(exists|b: &mut B|
                    *b == asked && *final(b) == left && #[trigger] call_ensures(
                        B::supports,
                        (b, info),
                        answer,
                    ));
                action = step(Event::Answered(place, answer), count);
                proof {
                    let then = backends@;
                    if answer {
                        assert(then.update(place as int, asked) =~= now);
                    } else {
                        let v = Visit {
                            before: asked,
                            between: left,
                            after: left,
                            answer,
                            reply: arbitrary(),
                            verdict: Settled::Declined,
                        };
                        assert(v.answer == answer && v.before == asked && v.between == left);
                        assert(exists|b: &mut B|
                            *b == v.before && *final(b) == v.between && #[trigger] call_ensures(
                                B::supports,
                                (b, info),
                                v.answer,
                            ));
                        visits = so_far.push(v);
                        assert(then =~= now.update(place as int, left));
                        visited(so_far, v, before, now, then);
                        decided(so_far, v, count, action);
                    }
                }
            },
            Action::Run(place) => {
                let ghost asked = before[place as int];
                let ghost between = backends@[place as int];
                assert(exists|b: &mut B|
                    *b == asked && *final(b) == between && #[trigger] call_ensures(
                        B::supports,
                        (b, info),
                        true,
                    ));
                let reply: Result<Vec<u8>, Error> = backends[place].deflate(info, filtered);
                let ghost then = backends@;
                let ghost v = Visit {
                    before: asked,
                    between,
                    after: then[place as int],
                    answer: true,
                    reply,
                    verdict: settled_deflation(reply),
                };
                action = step(Event::Replied(place, settle_deflation(reply)), count);
                proof {
                    assert(v.answer == true && v.before == asked && v.between == between);
                    assert(exists|b: &mut B|
                        *b == v.before && *final(b) == v.between && #[trigger] call_ensures(
                            B::supports,
                            (b, info),
                            v.answer,
                        ));
                    let earlier = now.update(place as int, asked);
                    visits = so_far.push(v);
                    assert(then =~= earlier.update(place as int, v.after));
                    visited(so_far, v, before, earlier, then);
                    decided(so_far, v, count, action);
                }
            },
            Action::End(outcome) => {
                return (outcome, Ghost(visits));
            },
        }
        proof {
            assert forall|k: int| 0 <= k < visits.len() implies exists|b: &mut B|
                *b == (#[trigger] visits[k]).before && *final(b) == visits[k].between
                    && #[trigger] call_ensures(B::supports, (b, info), visits[k].answer) by {
                if k < so_far.len() {
                    assert(visits[k] == so_far[k]);
                } else {
                    assert(visits[k] == visits.last());
                }
            }
            assert forall|k: int|
                0 <= k < visits.len() && (#[trigger] visits[k]).answer implies exists|b: &mut B|
                *b == visits[k].between && *final(b) == visits[k].after && #[trigger] call_ensures(
                    B::deflate,
                    (b, info, filtered),
                    visits[k].reply,
                ) by {
                if k < so_far.len() {
                    assert(visits[k] == so_far[k]);
                }
            }
            assert forall|k: int|
                0 <= k < visits.len() && (#[trigger] visits[k]).answer implies visits[k].verdict
                == settled_deflation(visits[k].reply) by {
                if k < so_far.len() {
                    assert(visits[k] == so_far[k]);
                }
            }
        }
    }
}

/// Deflates filtered scanlines by the first backend that takes them on, and by the built-in compressor
/// where none does. The backends are asked in their order, and none behind the deciding one is touched.
pub fn run_deflaters<B: IdatDeflater>(
    backends: &mut Vec<B>,
    info: &IdatInfo,
    filtered: &[u8],
    strength: u8,
) -> (reply: Result<Vec<u8>, Error>)
    ensures
        (exists|visits: Seq<Visit<B, Vec<u8>>>, outcome: Result<Option<Vec<u8>>, Error>|
            {
                &&& #[trigger] dispatched(visits, old(backends)@, final(backends)@, outcome)
                &&& are_settled(visits)
                &&& forall|k: int|
                    0 <= k < visits.len() ==> exists|b: &mut B|
                        *b == (#[trigger] visits[k]).before && *final(b) == visits[k].between
                            && #[trigger] call_ensures(B::supports, (b, info), visits[k].answer)
                &&& forall|k: int|
                    0 <= k < visits.len() && (#[trigger] visits[k]).answer ==> exists|b: &mut B|
                        *b == visits[k].between && *final(b) == visits[k].after && #[trigger]
                            call_ensures(B::deflate, (b, info, filtered), visits[k].reply)
                &&& deflation_of(reply) == deflation_after(outcome, filtered@, strength)
            }),
        old(backends)@.len() == 0 ==> (reply matches Ok(v) && v@ == zlib_stream(filtered@, strength)
            && inflates_to(v@, filtered@)),
{
    let (outcome, visits): (
        Result<Option<Vec<u8>>, Error>,
        Ghost<Seq<Visit<B, Vec<u8>>>>,
    ) = ask_deflaters(backends, info, filtered);
    let ghost all = visits@;
    assert(dispatched(all, old(backends)@, backends@, outcome));
    match outcome {
        Ok(Some(stream)) => Ok(stream),
        Ok(None) => Ok(zlib_compress(filtered, strength)),
        Err(error) => Err(error),
    }
}

/// What a stream is compressed from.
pub struct Request {
    /// What backends are told of the image.
    pub info: IdatInfo,
    /// The filtered scanlines.
    pub filtered: Seq<u8>,
}

/// What backends are told of an image that is encoded.
pub open spec fn told_of(h: Ihdr) -> IdatInfo {
    IdatInfo {
        width: h.width,
        height: h.height,
        bit_depth: h.bit_depth,
        color: h.color,
        filtered_len: (h.height * (row_len(h.width as int, h.spec_bits_per_pixel()) + 1)) as usize,
    }
}

/// How many filter strategies an encoder tries for each file.
pub open spec fn tries(e: PngEncoder) -> int {
    if e.filter is BruteForce {
        BRUTE_FORCE_COUNT as int
    } else {
        1
    }
}

/// The filter strategies that an encoder tries, in order.
pub open spec fn tried(e: PngEncoder, k: int) -> FilterStrategy {
    if e.filter is BruteForce {
        brute_force_strategy(k)
    } else {
        e.filter
    }
}

/// What the image data of a file is compressed from at a try.
pub open spec fn request_for(e: PngEncoder, f: FileModel, k: int) -> Request {
    Request {
        info: told_of(f.header),
        filtered: filtered_rows(
            tried(e, k),
            f.bytes,
            row_len(f.header.width as int, f.header.spec_bits_per_pixel()),
            stride_of(f.header),
        ),
    }
}

/// What an encoder has compressed for some files: every try of each file, file by file.
#[verifier::opaque]
pub open spec fn requests(e: PngEncoder, files: Seq<FileModel>) -> Seq<Request> {
    Seq::new(
        (files.len() * tries(e)) as nat,
        |j: int| request_for(e, files[j / tries(e)], j % tries(e)),
    )
}

/// One request to a stack of backends: the visits to them, what they came to, and the states of the
/// stack before and after.
pub struct Asked<B> {
    pub before: Seq<B>,
    pub after: Seq<B>,
    pub visits: Seq<Visit<B, Vec<u8>>>,
    pub outcome: Result<Option<Vec<u8>>, Error>,
}

/// Whether requests were made of a stack of backends one after the other, each dispatched among them.
#[verifier::opaque]
pub open spec fn in_order<B>(log: Seq<Asked<B>>, before: Seq<B>, after: Seq<B>) -> bool {
    &&& forall|i: int|
        0 <= i < log.len() ==> dispatched(
            (#[trigger] log[i]).visits,
            log[i].before,
            log[i].after,
            log[i].outcome,
        ) && are_settled(log[i].visits)
    &&& forall|i: int, j: int|
        0 <= i && j == i + 1 && j < log.len() ==> (#[trigger] log[i]).after == (
        #[trigger] log[j]).before
    &&& if log.len() == 0 {
        after == before
    } else {
        log[0].before == before && log.last().after == after
    }
}

/// What came of each request, the built-in compressor being the tail.
pub open spec fn replies<B>(log: Seq<Asked<B>>, reqs: Seq<Request>, strength: u8) -> Seq<
    Result<Seq<u8>, Error>,
> {
    Seq::new(
        log.len(),
        |i: int| deflation_after(log[i].outcome, reqs[i].filtered, strength),
    )
}

/// The first of the smallest of `n` streams from `from` on.
pub open spec fn smallest_of(replies: Seq<Result<Seq<u8>, Error>>, from: int, n: int) -> Seq<u8>
    decreases n,
{
    let last = replies[from + n - 1]->Ok_0;
    if n <= 1 {
        last
    } else {
        let before = smallest_of(replies, from, n - 1);
        if last.len() < before.len() {
            last
        } else {
            before
        }
    }
}

/// Whether replies to requests lead to a stream for each file, the smallest of its tries, or to an
/// error. The first error is the last reply: nothing is asked behind it.
pub open spec fn leads_to(
    replies: Seq<Result<Seq<u8>, Error>>,
    files: int,
    tries: int,
    result: Result<Seq<Seq<u8>>, Error>,
) -> bool {
    match result {
        Ok(streams) => {
            &&& replies.len() == files * tries
            &&& streams.len() == files
            &&& forall|j: int| 0 <= j < replies.len() ==> (#[trigger] replies[j]) is Ok
            &&& forall|i: int|
                0 <= i < files ==> #[trigger] streams[i] == smallest_of(replies, i * tries, tries)
        },
        Err(error) => {
            &&& 0 < replies.len() <= files * tries
            &&& forall|j: int| 0 <= j < replies.len() - 1 ==> (#[trigger] replies[j]) is Ok
            &&& replies.last() == Err::<Seq<u8>, Error>(error)
        },
    }
}

/// What backends are told of a file.
fn info_for(file: &FileParts, row_bytes: usize) -> (info: IdatInfo)
    requires
        file.wf(),
        row_bytes == row_len(file.header.width as int, file.header.spec_bits_per_pixel()),
    ensures
        info == told_of(file.header),
{
    let h: Ihdr = file.header;
    let len: usize = byte_len(file.bytes.as_slice());
    let height: usize = h.height as usize;
    proof {
        assert(h.spec_bits_per_pixel() >= 1) by (nonlinear_arith)
            requires
                h.spec_bits_per_pixel() == h.color.spec_channels() * h.bit_depth,
                h.color.spec_channels() >= 1,
                h.bit_depth >= 1,
        ;
        assert(h.width * h.spec_bits_per_pixel() >= 1) by (nonlinear_arith)
            requires
                h.width >= 1,
                h.spec_bits_per_pixel() >= 1,
        ;
        assert(row_bytes >= 1);
        assert(height <= height * row_bytes && row_bytes <= height * row_bytes) by (nonlinear_arith)
            requires
                row_bytes >= 1,
                height >= 1,
        ;
        assert(height * (row_bytes + 1) == height * row_bytes + height) by (nonlinear_arith);
        assert(height * row_bytes == len);
    }
    IdatInfo::new(h.width, h.height, h.bit_depth, h.color, height * (row_bytes + 1))
}

/// What is chosen of some replies does not depend on the others.
proof fn smallest_of_a_range(
    some: Seq<Result<Seq<u8>, Error>>,
    more: Seq<Result<Seq<u8>, Error>>,
    from: int,
    n: int,
)
    requires
        0 <= from,
        1 <= n,
        from + n <= some.len() <= more.len(),
        forall|j: int| 0 <= j < some.len() ==> #[trigger] more[j] == some[j],
    ensures
        smallest_of(more, from, n) == smallest_of(some, from, n),
    decreases n,
{
    assert(more[from + n - 1] == some[from + n - 1]);
    if n > 1 {
        smallest_of_a_range(some, more, from, n - 1);
    }
}

/// The requests of a file are its tries.
proof fn request_at(e: PngEncoder, files: Seq<FileModel>, i: int, k: int)
    requires
        0 <= i < files.len(),
        0 <= k < tries(e),
    ensures
        requests(e, files)[i * tries(e) + k] == request_for(e, files[i], k),
{
    reveal(requests);
    place_of(files.len() as int, tries(e), i, k);
}

/// The place of a try of a file among all requests.
proof fn place_of(files: int, tries: int, i: int, k: int)
    requires
        0 <= i < files,
        0 <= k < tries,
    ensures
        0 <= i * tries,
        i * tries + k < files * tries,
        (i * tries + k) / tries == i,
        (i * tries + k) % tries == k,
        (i + 1) * tries == i * tries + tries,
        i * tries + tries <= files * tries,
{
    crate::reduce::pixel_position(i, tries, k);
    assert((i + 1) * tries == i * tries + tries) by (nonlinear_arith);
    assert((i + 1) * tries <= files * tries) by (nonlinear_arith)
        requires
            i + 1 <= files,
            tries >= 0,
    ;
    assert(0 <= i * tries) by (nonlinear_arith)
        requires
            0 <= i,
            0 <= tries,
    ;
}

/// A stack that is asked once more.
proof fn asked_once_more<B>(
    log: Seq<Asked<B>>,
    entry: Asked<B>,
    before: Seq<B>,
    now: Seq<B>,
    reqs: Seq<Request>,
    strength: u8,
)
    requires
        in_order(log, before, now),
        entry.before == now,
        dispatched(entry.visits, entry.before, entry.after, entry.outcome),
        are_settled(entry.visits),
    ensures
        in_order(log.push(entry), before, entry.after),
        forall|j: int|
            0 <= j < log.len() ==> #[trigger] replies(log.push(entry), reqs, strength)[j] == replies(
                log,
                reqs,
                strength,
            )[j],
        replies(log.push(entry), reqs, strength).len() == log.len() + 1,
        replies(log.push(entry), reqs, strength).last() == deflation_after(
            entry.outcome,
            reqs[log.len() as int].filtered,
            strength,
        ),
{
    reveal(in_order);
    let more = log.push(entry);
    assert forall|i: int| 0 <= i < more.len() implies dispatched(
        (#[trigger] more[i]).visits,
        more[i].before,
        more[i].after,
        more[i].outcome,
    ) && are_settled(more[i].visits) by {
        if i < log.len() {
            assert(more[i] == log[i]);
        }
    }
    assert forall|i: int, j: int| 0 <= i && j == i + 1 && j < more.len() implies (
    #[trigger] more[i]).after == (#[trigger] more[j]).before by {
        assert(more[i] == log[i]);
        if j < log.len() {
            assert(more[j] == log[j]);
        } else {
            assert(log.last() == log[i]);
        }
    }
    if log.len() > 0 {
        assert(more[0] == log[0]);
    }
}

impl PngEncoder {
    /// Filters a file for one of its tries and has it deflated by the first of some backends that takes
    /// it on, or by the built-in compressor.
    fn deflate_try<B: IdatDeflater>(&self, file: &FileParts, k: usize, backends: &mut Vec<B>) -> (made: (
        Result<Vec<u8>, Error>,
        Ghost<Asked<B>>,
    ))
        requires
            file.wf(),
            k < tries(*self),
        ensures
            made.1@.before == old(backends)@,
            made.1@.after == final(backends)@,
            dispatched(made.1@.visits, made.1@.before, made.1@.after, made.1@.outcome),
            are_settled(made.1@.visits),
            forall|v: int|
                0 <= v < made.1@.visits.len() ==> exists|b: &mut B|
                    *b == (#[trigger] made.1@.visits[v]).before && *final(b)
                        == made.1@.visits[v].between && #[trigger] call_ensures(
                        B::supports,
                        (b, &request_for(*self, file@, k as int).info),
                        made.1@.visits[v].answer,
                    ),
            forall|v: int|
                0 <= v < made.1@.visits.len() && (#[trigger] made.1@.visits[v]).answer ==> exists|
                    b: &mut B,
                    raw: &[u8],
                |
                    raw@ == request_for(*self, file@, k as int).filtered && *b
                        == made.1@.visits[v].between && *final(b) == made.1@.visits[v].after
                        && #[trigger] call_ensures(
                        B::deflate,
                        (b, &request_for(*self, file@, k as int).info, raw),
                        made.1@.visits[v].reply,
                    ),
            deflation_of(made.0) == deflation_after(
                made.1@.outcome,
                request_for(*self, file@, k as int).filtered,
                self.level.spec_strength(self.effort),
            ),
            old(backends)@.len() == 0 ==> (made.0 matches Ok(stream) && stream@ == zlib_stream(
                request_for(*self, file@, k as int).filtered,
                self.level.spec_strength(self.effort),
            ) && inflates_to(stream@, request_for(*self, file@, k as int).filtered)),
    {
        let (row_bytes, bpp): (usize, usize) = row_shape(file.header, file.bytes.len());
        let strategy: FilterStrategy = match self.filter {
            FilterStrategy::BruteForce => brute_force(k),
            _ => self.filter,
        };
        let filtered: Vec<u8> = filter_image(strategy, file.bytes.as_slice(), row_bytes, bpp);
        let info: IdatInfo = info_for(file, row_bytes);
        let ghost request = request_for(*self, file@, k as int);
        assert(request.info == info);
        assert(request.filtered == filtered@);
        let ghost before = backends@;
        let raw: &[u8] = filtered.as_slice();
        let (outcome, visits): (
            Result<Option<Vec<u8>>, Error>,
            Ghost<Seq<Visit<B, Vec<u8>>>>,
        ) = ask_deflaters(backends, &info, raw);
        let ghost asked = Asked { before, after: backends@, visits: visits@, outcome };
        proof {
            assert(asked.visits == visits@);
            assert forall|v: int|
                0 <= v < asked.visits.len() && (#[trigger] asked.visits[v]).answer implies exists|
                b: &mut B,
                raw: &[u8],
            |
                raw@ == request.filtered && *b == asked.visits[v].between && *final(b)
                    == asked.visits[v].after && #[trigger] call_ensures(
                    B::deflate,
                    (b, &request.info, raw),
                    asked.visits[v].reply,
                ) by {
                assert(visits@[v].answer);
            }
        }
        let reply: Result<Vec<u8>, Error> = match outcome {
            Ok(Some(stream)) => Ok(stream),
            Ok(None) => Ok(zlib_compress(raw, self.level.strength(self.effort))),
            Err(error) => Err(error),
        };
        (reply, Ghost(asked))
    }

    /// Has a stream made for each file of a draft: every try of it is filtered and deflated by the first
    /// of some backends that takes it on, the built-in compressor being the tail, and the smallest is
    /// kept. The first error ends it.
    fn deflate_all<B: IdatDeflater>(&self, draft: &Draft, backends: &mut Vec<B>) -> (streams: Result<
        Vec<Vec<u8>>,
        Error,
    >)
        requires
            draft.wf(),
        ensures
            (exists|log: Seq<Asked<B>>|
                {
                    let reqs = requests(*self, draft@.files());
                    &&& #[trigger] in_order(log, old(backends)@, final(backends)@)
                    &&& forall|j: int, k: int|
                        #![trigger log[j].visits[k]]
                        0 <= j < log.len() && 0 <= k < log[j].visits.len() ==> exists|b: &mut B|
                            *b == log[j].visits[k].before && *final(b) == log[j].visits[k].between
                                && #[trigger] call_ensures(
                                B::supports,
                                (b, &reqs[j].info),
                                log[j].visits[k].answer,
                            )
                    &&& forall|j: int, k: int|
                        #![trigger log[j].visits[k]]
                        0 <= j < log.len() && 0 <= k < log[j].visits.len()
                            && log[j].visits[k].answer ==> exists|b: &mut B, raw: &[u8]|
                            raw@ == reqs[j].filtered && *b == log[j].visits[k].between && *final(b)
                                == log[j].visits[k].after && #[trigger] call_ensures(
                                B::deflate,
                                (b, &reqs[j].info, raw),
                                log[j].visits[k].reply,
                            )
                    &&& leads_to(
                        replies(log, reqs, self.level.spec_strength(self.effort)),
                        draft@.files().len() as int,
                        tries(*self),
                        streams_of(streams),
                    )
                }),
            old(backends)@.len() == 0 ==> streams_of(streams) == Ok::<Seq<Seq<u8>>, Error>(
                own_streams(*self, draft@.files()),
            ) && own_streams_restore(*self, draft@.files()),
    {
        let n: usize = draft.count();
        let t: usize = match self.filter {
            FilterStrategy::BruteForce => BRUTE_FORCE_COUNT,
            _ => 1,
        };
        let ghost strength = self.level.spec_strength(self.effort);
        let ghost files = draft@.files();
        let ghost reqs = requests(*self, files);
        let ghost before = backends@;
        let ghost mut log: Seq<Asked<B>> = Seq::empty();
        assert(in_order(log, before, before)) by {
            reveal(in_order);
        }
        let mut streams: Vec<Vec<u8>> = Vec::new();
        let mut i: usize = 0;
        let mut k: usize = 0;
        while i < n
            invariant
                draft.wf(),
                files == draft@.files(),
                n == files.len(),
                t == tries(*self),
                reqs == requests(*self, files),
                strength == self.level.spec_strength(self.effort),
                before == old(backends)@,
                i <= n,
                k < t,
                i == n ==> k == 0,
                log.len() == i * t + k,
                in_order(log, before, backends@),
                forall|j: int, k: int|
                    #![trigger log[j].visits[k]]
                    0 <= j < log.len() && 0 <= k < log[j].visits.len() ==> exists|b: &mut B|
                        *b == log[j].visits[k].before && *final(b) == log[j].visits[k].between
                            && #[trigger] call_ensures(
                            B::supports,
                            (b, &reqs[j].info),
                            log[j].visits[k].answer,
                        ),
                forall|j: int, k: int|
                    #![trigger log[j].visits[k]]
                    0 <= j < log.len() && 0 <= k < log[j].visits.len() && log[j].visits[k].answer
                        ==> exists|b: &mut B, raw: &[u8]|
                        raw@ == reqs[j].filtered && *b == log[j].visits[k].between && *final(b)
                            == log[j].visits[k].after && #[trigger] call_ensures(
                            B::deflate,
                            (b, &reqs[j].info, raw),
                            log[j].visits[k].reply,
                        ),
                before.len() == 0 ==> backends@.len() == 0,
                holds_tries(replies(log, reqs, strength), stream_bytes(streams@), i as int, k as int, t as int),
                before.len() == 0 ==> are_own_replies(replies(log, reqs, strength), reqs, strength),
            decreases n - i, t - k,
        {
            let ghost so_far = log;
            let ghost now = backends@;
            let ghost place = i * t + k;
            let file: &FileParts = draft.file(i);
            let (reply, asked): (Result<Vec<u8>, Error>, Ghost<Asked<B>>) = self.deflate_try(
                file,
                k,
                backends,
            );
            let ghost entry = asked@;
            proof {
                place_of(n as int, t as int, i as int, k as int);
                request_at(*self, files, i as int, k as int);
                log = so_far.push(entry);
                asked_once_more(so_far, entry, before, now, reqs, strength);
                assert forall|j: int, k: int|
                    #![trigger log[j].visits[k]]
                    0 <= j < log.len() && 0 <= k < log[j].visits.len() implies exists|b: &mut B|
                    *b == log[j].visits[k].before && *final(b) == log[j].visits[k].between
                        && #[trigger] call_ensures(
                        B::supports,
                        (b, &reqs[j].info),
                        log[j].visits[k].answer,
                    ) by {
                    if j < so_far.len() {
                        assert(log[j].visits[k] == so_far[j].visits[k]);
                    } else {
                        assert(log[j].visits[k] == entry.visits[k]);
                    }
                }
                assert forall|j: int, k: int|
                    #![trigger log[j].visits[k]]
                    0 <= j < log.len() && 0 <= k < log[j].visits.len()
                        && log[j].visits[k].answer implies exists|b: &mut B, raw: &[u8]|
                    raw@ == reqs[j].filtered && *b == log[j].visits[k].between && *final(b)
                        == log[j].visits[k].after && #[trigger] call_ensures(
                        B::deflate,
                        (b, &reqs[j].info, raw),
                        log[j].visits[k].reply,
                    ) by {
                    if j < so_far.len() {
                        assert(log[j].visits[k] == so_far[j].visits[k]);
                    } else {
                        assert(log[j].visits[k] == entry.visits[k]);
                    }
                }
            }
            let ghost old_replies = replies(so_far, reqs, strength);
            let ghost new_replies = replies(log, reqs, strength);
            assert(new_replies[place] == deflation_of(reply)) by {
                assert(new_replies.last() == new_replies[place]);
            }
            proof {
                if before.len() == 0 {
                    assert forall|j: int| 0 <= j < new_replies.len() implies (
                    #[trigger] new_replies[j]) == Ok::<Seq<u8>, Error>(
                        zlib_stream(reqs[j].filtered, strength),
                    ) && inflates_to(zlib_stream(reqs[j].filtered, strength), reqs[j].filtered) by {
                        if j < so_far.len() {
                            assert(new_replies[j] == old_replies[j]);
                        }
                    }
                }
            }
            let stream: Vec<u8> = match reply {
                Ok(stream) => stream,
                Err(error) => {
                    let failure: Result<Vec<Vec<u8>>, Error> = Err(error);
                    proof {
                        a_failed_try(
                            old_replies,
                            new_replies,
                            stream_bytes(streams@),
                            i as int,
                            k as int,
                            n as int,
                            t as int,
                            error,
                        );
                    }
                    return failure;
                },
            };
            let ghost held = stream_bytes(streams@);
            let ghost new = stream@;
            if k == 0 {
                streams.push(stream);
            } else if stream.len() < streams[i].len() {
                streams.set(i, stream);
            }
            proof {
                assert(stream_bytes(streams@) =~= tries_held(held, new, i as int, k as int));
                a_try_more(old_replies, new_replies, held, new, i as int, k as int, t as int);
            }
            k += 1;
            if k == t {
                k = 0;
                i += 1;
            }
        }
        let made: Result<Vec<Vec<u8>>, Error> = Ok(streams);
        proof {
            assert(leads_to(replies(log, reqs, strength), n as int, t as int, streams_of(made)));
            if before.len() == 0 {
                own_replies_make_own_streams(
                    *self,
                    files,
                    replies(log, reqs, strength),
                    streams_of(made),
                );
            }
        }
        made
    }
}

/// Whether replies are what the built-in compressor makes of requests, and inflate back.
pub open spec fn are_own_replies(
    replies: Seq<Result<Seq<u8>, Error>>,
    reqs: Seq<Request>,
    strength: u8,
) -> bool {
    forall|j: int|
        0 <= j < replies.len() ==> (#[trigger] replies[j]) == Ok::<Seq<u8>, Error>(
            zlib_stream(reqs[j].filtered, strength),
        ) && inflates_to(zlib_stream(reqs[j].filtered, strength), reqs[j].filtered)
}

/// Whether replies were all streams, and the smallest of each file so far is held: of all tries of the
/// files before `i`, and of the first `k` tries of file `i`.
spec fn holds_tries(
    replies: Seq<Result<Seq<u8>, Error>>,
    held: Seq<Seq<u8>>,
    i: int,
    k: int,
    tries: int,
) -> bool {
    &&& replies.len() == i * tries + k
    &&& forall|j: int| 0 <= j < replies.len() ==> (#[trigger] replies[j]) is Ok
    &&& held.len() == i + (if k == 0 {
        0int
    } else {
        1
    })
    &&& forall|a: int|
        0 <= a < i ==> #[trigger] held[a] == smallest_of(replies, a * tries, tries)
    &&& k > 0 ==> held[i] == smallest_of(replies, i * tries, k)
}

/// What is held after one more try.
spec fn tries_held(held: Seq<Seq<u8>>, new: Seq<u8>, i: int, k: int) -> Seq<Seq<u8>> {
    if k == 0 {
        held.push(new)
    } else if new.len() < held[i].len() {
        held.update(i, new)
    } else {
        held
    }
}

proof fn a_try_more(
    old_replies: Seq<Result<Seq<u8>, Error>>,
    new_replies: Seq<Result<Seq<u8>, Error>>,
    held: Seq<Seq<u8>>,
    new: Seq<u8>,
    i: int,
    k: int,
    tries: int,
)
    requires
        0 <= i,
        0 <= k < tries,
        holds_tries(old_replies, held, i, k, tries),
        new_replies.len() == old_replies.len() + 1,
        forall|j: int| 0 <= j < old_replies.len() ==> #[trigger] new_replies[j] == old_replies[j],
        new_replies[i * tries + k] == Ok::<Seq<u8>, Error>(new),
    ensures
        k + 1 < tries ==> holds_tries(new_replies, tries_held(held, new, i, k), i, k + 1, tries),
        k + 1 == tries ==> holds_tries(new_replies, tries_held(held, new, i, k), i + 1, 0, tries),
{
    let more = tries_held(held, new, i, k);
    place_of(i + 1, tries, i, k);
    assert forall|j: int| 0 <= j < new_replies.len() implies (#[trigger] new_replies[j]) is Ok by {
        if j < old_replies.len() {
            assert(new_replies[j] == old_replies[j]);
        }
    }
    if k > 0 {
        smallest_of_a_range(old_replies, new_replies, i * tries, k);
    }
    assert(more[i] == smallest_of(new_replies, i * tries, k + 1));
    assert forall|a: int| 0 <= a < i implies #[trigger] more[a] == smallest_of(
        new_replies,
        a * tries,
        tries,
    ) by {
        assert(more[a] == held[a]);
        place_of(i, tries, a, 0);
        smallest_of_a_range(old_replies, new_replies, a * tries, tries);
    }
}

proof fn a_failed_try(
    old_replies: Seq<Result<Seq<u8>, Error>>,
    new_replies: Seq<Result<Seq<u8>, Error>>,
    held: Seq<Seq<u8>>,
    i: int,
    k: int,
    files: int,
    tries: int,
    error: Error,
)
    requires
        0 <= i < files,
        0 <= k < tries,
        holds_tries(old_replies, held, i, k, tries),
        new_replies.len() == old_replies.len() + 1,
        forall|j: int| 0 <= j < old_replies.len() ==> #[trigger] new_replies[j] == old_replies[j],
        new_replies[i * tries + k] == Err::<Seq<u8>, Error>(error),
    ensures
        leads_to(new_replies, files, tries, Err(error)),
{
    place_of(files, tries, i, k);
    assert(new_replies.last() == new_replies[i * tries + k]);
}

/// Streams, or why there are none, as values.
pub open spec fn streams_of(streams: Result<Vec<Vec<u8>>, Error>) -> Result<Seq<Seq<u8>>, Error> {
    match streams {
        Ok(s) => Ok(stream_bytes(s@)),
        Err(e) => Err(e),
    }
}

/// The smallest of the first `n` tries of a file is the encoder's own choice among them, and inflates
/// back.
proof fn own_tries(
    e: PngEncoder,
    files: Seq<FileModel>,
    replies: Seq<Result<Seq<u8>, Error>>,
    i: int,
    n: int,
) -> (strategy: FilterStrategy)
    requires
        0 <= i < files.len(),
        1 <= n <= tries(e),
        replies.len() == files.len() * tries(e),
        are_own_replies(replies, requests(e, files), e.level.spec_strength(e.effort)),
    ensures
        ({
            let f = files[i];
            let row = row_len(f.header.width as int, f.header.spec_bits_per_pixel());
            let stream = smallest_of(replies, i * tries(e), n);
            &&& e.filter is BruteForce ==> stream == e.best_candidate(
                f.bytes,
                row,
                stride_of(f.header),
                n,
            )
            &&& !(e.filter is BruteForce) ==> stream == e.candidate(
                e.filter,
                f.bytes,
                row,
                stride_of(f.header),
            )
            &&& inflates_to(stream, filtered_rows(strategy, f.bytes, row, stride_of(f.header)))
        }),
    decreases n,
{
    let f = files[i];
    let reqs = requests(e, files);
    let row = row_len(f.header.width as int, f.header.spec_bits_per_pixel());
    let place = i * tries(e) + (n - 1);
    place_of(files.len() as int, tries(e), i, n - 1);
    request_at(e, files, i, n - 1);
    assert(replies[place] is Ok);
    let last = replies[i * tries(e) + n - 1]->Ok_0;
    assert(last == e.candidate(tried(e, n - 1), f.bytes, row, stride_of(f.header)));
    assert(inflates_to(last, filtered_rows(tried(e, n - 1), f.bytes, row, stride_of(f.header))));
    if n > 1 {
        let strategy = own_tries(e, files, replies, i, n - 1);
        if last.len() < smallest_of(replies, i * tries(e), n - 1).len() {
            tried(e, n - 1)
        } else {
            strategy
        }
    } else {
        tried(e, n - 1)
    }
}

/// The streams the encoder itself makes of the rows of files.
pub open spec fn own_streams(e: PngEncoder, files: Seq<FileModel>) -> Seq<Seq<u8>> {
    Seq::new(
        files.len(),
        |i: int|
            e.idat_stream(
                files[i].bytes,
                row_len(files[i].header.width as int, files[i].header.spec_bits_per_pixel()),
                stride_of(files[i].header),
            ),
    )
}

/// Whether the streams the encoder itself makes of files inflate back.
pub open spec fn own_streams_restore(e: PngEncoder, files: Seq<FileModel>) -> bool {
    forall|i: int|
        0 <= i < files.len() ==> e.restores(
            (#[trigger] files[i]).bytes,
            row_len(files[i].header.width as int, files[i].header.spec_bits_per_pixel()),
            stride_of(files[i].header),
        )
}

/// Where the built-in compressor answers every request, the streams are the encoder's own.
proof fn own_replies_make_own_streams(
    e: PngEncoder,
    files: Seq<FileModel>,
    replies: Seq<Result<Seq<u8>, Error>>,
    result: Result<Seq<Seq<u8>>, Error>,
)
    requires
        leads_to(replies, files.len() as int, tries(e), result),
        are_own_replies(replies, requests(e, files), e.level.spec_strength(e.effort)),
    ensures
        result == Ok::<Seq<Seq<u8>>, Error>(own_streams(e, files)),
        own_streams_restore(e, files),
{
    if result is Err {
        assert(replies[replies.len() - 1] is Ok);
    }
    let streams = result->Ok_0;
    assert forall|i: int| 0 <= i < files.len() implies #[trigger] streams[i] == own_streams(e, files)[i]
        && e.restores(
        files[i].bytes,
        row_len(files[i].header.width as int, files[i].header.spec_bits_per_pixel()),
        stride_of(files[i].header),
    ) by {
        let f = files[i];
        let row = row_len(f.header.width as int, f.header.spec_bits_per_pixel());
        let strategy = own_tries(e, files, replies, i, tries(e));
        assert(streams[i] == smallest_of(replies, i * tries(e), tries(e)));
        assert(streams[i] == e.idat_stream(f.bytes, row, stride_of(f.header)));
        assert(inflates_to(
            e.idat_stream(f.bytes, row, stride_of(f.header)),
            filtered_rows(strategy, f.bytes, row, stride_of(f.header)),
        ));
    }
    assert forall|i: int| 0 <= i < files.len() implies e.restores(
        (#[trigger] files[i]).bytes,
        row_len(files[i].header.width as int, files[i].header.spec_bits_per_pixel()),
        stride_of(files[i].header),
    ) by {
        assert(streams[i] == own_streams(e, files)[i]);
    }
    assert(streams =~= own_streams(e, files));
}

/// What an encode through backends does: the file that is kept of the draft is appended. Where a backend
/// ended it nothing is, but for what precedes the image data where there is one file only and it is
/// written straight away.
#[verifier::opaque]
pub open spec fn wrote_through(
    e: PngEncoder,
    draft: DraftModel,
    streams: Result<Seq<Seq<u8>>, Error>,
    size: Result<usize, Error>,
    before: Seq<u8>,
    after: Seq<u8>,
) -> bool {
    match streams {
        Ok(streams) => size matches Ok(n) && after == before + e.kept_file(draft, streams) && n
            == e.kept_file(draft, streams).len(),
        Err(error) => size matches Err(f) && f == error && after == before + (if draft.files().len()
            == 1 {
            e.head_of(draft.files()[0])
        } else {
            Seq::empty()
        }),
    }
}

/// Writing a draft around the encoder's own streams writes what the image is encoded as.
proof fn own_streams_write_the_image(
    e: PngEncoder,
    image: ImageRef<'_>,
    size: Result<usize, Error>,
    before: Seq<u8>,
    after: Seq<u8>,
)
    requires
        e.ancillary.is_valid(),
        wrote_through(
            e,
            e.drafted(image),
            Ok(own_streams(e, e.drafted(image).files())),
            size,
            before,
            after,
        ),
        own_streams_restore(e, e.drafted(image).files()),
        e.ancillary.profile_inflates(e.effort),
        e.ancillary.texts_inflate(e.effort),
    ensures
        e.wrote_image(image, size, before, after),
{
    reveal(PngEncoder::wrote_image);
    reveal(wrote_through);
    let files = e.drafted(image).files();
    own_streams_make_the_encoded_file(e, image, own_streams(e, files));
    let i = choose|i: int| 0 <= i < files.len() && files[i] == e.encoded(image);
    assert(files[i] == e.encoded(image));
}

/// Refusing an annotation is what an encode of the image does.
proof fn nothing_is_written(e: PngEncoder, image: ImageRef<'_>, size: Result<usize, Error>, out: Seq<u8>)
    requires
        !e.ancillary.is_valid(),
        failed(size, Cause::RefusedAnnotation),
    ensures
        e.wrote_image(image, size, out, out),
{
    reveal(PngEncoder::wrote_image);
}

impl PngEncoder {
    /// What [`PngEncoder::encode_image`] does: the file that the image is encoded as is appended, or
    /// nothing where an annotation is refused.
    #[verifier::opaque]
    pub open spec fn wrote_image(
        &self,
        image: ImageRef<'_>,
        size: Result<usize, Error>,
        before: Seq<u8>,
        after: Seq<u8>,
    ) -> bool {
        self.wrote(self.encoded(image), size, before, after)
    }

    /// Writes a draft around the streams that were made for it, or what precedes the image data where
    /// there are none and one file only is written.
    pub fn finish_through(
        &self,
        draft: &Draft,
        deflated: Result<Vec<Vec<u8>>, Error>,
        out: &mut Vec<u8>,
    ) -> (size: Result<usize, Error>)
        requires
            draft.wf(),
            deflated matches Ok(streams) ==> streams@.len() == draft@.files().len(),
        ensures
            wrote_through(*self, draft@, streams_of(deflated), size, old(out)@, final(out)@),
            deflated is Ok ==> self.ancillary.profile_inflates(self.effort)
                && self.ancillary.texts_inflate(self.effort),
    {
        reveal(wrote_through);
        match deflated {
            Ok(streams) => Ok(self.finish(draft, &streams, out)),
            Err(error) => {
                if draft.count() == 1 {
                    self.write_head(draft.file(0), out);
                }
                assert(out@ =~= old(out)@ + (if draft@.files().len() == 1 {
                    self.head_of(draft@.files()[0])
                } else {
                    Seq::empty()
                }));
                Err(error)
            },
        }
    }

    /// Writes a draft, with its image data deflated by the first of some backends that takes it on.
    fn write_through<B: IdatDeflater>(
        &self,
        backends: &mut Vec<B>,
        draft: &Draft,
        out: &mut Vec<u8>,
    ) -> (size: Result<usize, Error>)
        requires
            draft.wf(),
        ensures
            !self.ancillary.is_valid() ==> failed(size, Cause::RefusedAnnotation) && final(out)@
                == old(out)@ && final(backends)@ == old(backends)@,
            self.ancillary.is_valid() ==> (exists|
                log: Seq<Asked<B>>,
                streams: Result<Seq<Seq<u8>>, Error>,
            |
                {
                    let reqs = requests(*self, draft@.files());
                    &&& #[trigger] in_order(log, old(backends)@, final(backends)@)
                    &&& forall|j: int, k: int|
                        #![trigger log[j].visits[k]]
                        0 <= j < log.len() && 0 <= k < log[j].visits.len() ==> exists|b: &mut B|
                            *b == log[j].visits[k].before && *final(b) == log[j].visits[k].between
                                && #[trigger] call_ensures(
                                B::supports,
                                (b, &reqs[j].info),
                                log[j].visits[k].answer,
                            )
                    &&& forall|j: int, k: int|
                        #![trigger log[j].visits[k]]
                        0 <= j < log.len() && 0 <= k < log[j].visits.len()
                            && log[j].visits[k].answer ==> exists|b: &mut B, raw: &[u8]|
                            raw@ == reqs[j].filtered && *b == log[j].visits[k].between && *final(b)
                                == log[j].visits[k].after && #[trigger] call_ensures(
                                B::deflate,
                                (b, &reqs[j].info, raw),
                                log[j].visits[k].reply,
                            )
                    &&& leads_to(
                        replies(log, reqs, self.level.spec_strength(self.effort)),
                        draft@.files().len() as int,
                        tries(*self),
                        streams,
                    )
                    &&& #[trigger] wrote_through(
                        *self,
                        draft@,
                        streams,
                        size,
                        old(out)@,
                        final(out)@,
                    )
                }),
            self.ancillary.is_valid() && old(backends)@.len() == 0 ==> wrote_through(
                *self,
                draft@,
                Ok(own_streams(*self, draft@.files())),
                size,
                old(out)@,
                final(out)@,
            ) && own_streams_restore(*self, draft@.files()) && self.ancillary.profile_inflates(
                self.effort,
            ) && self.ancillary.texts_inflate(self.effort),
    {
        match self.ancillary.validate() {
            Ok(_) => {},
            Err(_) => {
                return Err(Error::new(Cause::RefusedAnnotation));
            },
        }
        let deflated: Result<Vec<Vec<u8>>, Error> = self.deflate_all(draft, backends);
        self.finish_through(draft, deflated, out)
    }

    /// Encodes an image as [`PngEncoder::encode_image`] does, with each image data stream deflated by the
    /// first of some backends that takes it on. With no backend this is [`PngEncoder::encode_image`].
    ///
    /// Every stream is offered to the backends as by [`run_deflaters`], one after the other: each try of
    /// each file that is weighed, in the order in which they are written. An error of a backend that took
    /// a stream on ends the encode. The smallest of what came back is kept, as it is of the built-in
    /// compressor's streams.
    pub fn encode_through<B: IdatDeflater>(
        &self,
        backends: &mut Vec<B>,
        image: &ImageRef<'_>,
        out: &mut Vec<u8>,
    ) -> (size: Result<usize, Error>)
        requires
            image.wf(),
            !(image.spec_format() is Indexed8),
        ensures
            !self.ancillary.is_valid() ==> failed(size, Cause::RefusedAnnotation) && final(out)@
                == old(out)@ && final(backends)@ == old(backends)@,
            self.ancillary.is_valid() ==> (exists|
                log: Seq<Asked<B>>,
                streams: Result<Seq<Seq<u8>>, Error>,
            |
                {
                    let draft = self.drafted(*image);
                    let reqs = requests(*self, draft.files());
                    &&& #[trigger] in_order(log, old(backends)@, final(backends)@)
                    &&& forall|j: int, k: int|
                        #![trigger log[j].visits[k]]
                        0 <= j < log.len() && 0 <= k < log[j].visits.len() ==> exists|b: &mut B|
                            *b == log[j].visits[k].before && *final(b) == log[j].visits[k].between
                                && #[trigger] call_ensures(
                                B::supports,
                                (b, &reqs[j].info),
                                log[j].visits[k].answer,
                            )
                    &&& forall|j: int, k: int|
                        #![trigger log[j].visits[k]]
                        0 <= j < log.len() && 0 <= k < log[j].visits.len()
                            && log[j].visits[k].answer ==> exists|b: &mut B, raw: &[u8]|
                            raw@ == reqs[j].filtered && *b == log[j].visits[k].between && *final(b)
                                == log[j].visits[k].after && #[trigger] call_ensures(
                                B::deflate,
                                (b, &reqs[j].info, raw),
                                log[j].visits[k].reply,
                            )
                    &&& leads_to(
                        replies(log, reqs, self.level.spec_strength(self.effort)),
                        draft.files().len() as int,
                        tries(*self),
                        streams,
                    )
                    &&& #[trigger] wrote_through(
                        *self,
                        self.drafted(*image),
                        streams,
                        size,
                        old(out)@,
                        final(out)@,
                    )
                }),
            old(backends)@.len() == 0 ==> self.wrote_image(*image, size, old(out)@, final(out)@),
    {
        let draft: Draft = self.draft(image);
        let size: Result<usize, Error> = self.write_through(backends, &draft, out);
        proof {
            if old(backends)@.len() == 0 {
                if self.ancillary.is_valid() {
                    own_streams_write_the_image(*self, *image, size, old(out)@, out@);
                } else {
                    nothing_is_written(*self, *image, size, out@);
                }
            }
        }
        size
    }

    /// Encodes an 8-bit indexed image as [`PngEncoder::encode_indexed8`] does, with each image data stream
    /// deflated by the first of some backends that takes it on. With no backend this is
    /// [`PngEncoder::encode_indexed8`].
    pub fn encode_indexed8_through<B: IdatDeflater>(
        &self,
        backends: &mut Vec<B>,
        image: &ImageRef<'_>,
        palette: &PngPalette,
        out: &mut Vec<u8>,
    ) -> (size: Result<usize, Error>)
        requires
            image.wf(),
            image.spec_format() is Indexed8,
            palette.wf(),
        ensures
            !indices_in_range(image.values(), palette.colors().len()) ==> failed(
                size,
                Cause::IndexOutOfRange,
            ) && final(out)@ == old(out)@ && final(backends)@ == old(backends)@,
            indices_in_range(image.values(), palette.colors().len()) && !self.ancillary.is_valid()
                ==> failed(size, Cause::RefusedAnnotation) && final(out)@ == old(out)@
                && final(backends)@ == old(backends)@,
            indices_in_range(image.values(), palette.colors().len()) && self.ancillary.is_valid()
                ==> (exists|
                log: Seq<Asked<B>>,
                streams: Result<Seq<Seq<u8>>, Error>,
            |
                {
                    let draft = self.drafted_indices(*image, *palette);
                    let reqs = requests(*self, draft.files());
                    &&& #[trigger] in_order(log, old(backends)@, final(backends)@)
                    &&& forall|j: int, k: int|
                        #![trigger log[j].visits[k]]
                        0 <= j < log.len() && 0 <= k < log[j].visits.len() ==> exists|b: &mut B|
                            *b == log[j].visits[k].before && *final(b) == log[j].visits[k].between
                                && #[trigger] call_ensures(
                                B::supports,
                                (b, &reqs[j].info),
                                log[j].visits[k].answer,
                            )
                    &&& forall|j: int, k: int|
                        #![trigger log[j].visits[k]]
                        0 <= j < log.len() && 0 <= k < log[j].visits.len()
                            && log[j].visits[k].answer ==> exists|b: &mut B, raw: &[u8]|
                            raw@ == reqs[j].filtered && *b == log[j].visits[k].between && *final(b)
                                == log[j].visits[k].after && #[trigger] call_ensures(
                                B::deflate,
                                (b, &reqs[j].info, raw),
                                log[j].visits[k].reply,
                            )
                    &&& leads_to(
                        replies(log, reqs, self.level.spec_strength(self.effort)),
                        draft.files().len() as int,
                        tries(*self),
                        streams,
                    )
                    &&& #[trigger] wrote_through(
                        *self,
                        self.drafted_indices(*image, *palette),
                        streams,
                        size,
                        old(out)@,
                        final(out)@,
                    )
                }),
            indices_in_range(image.values(), palette.colors().len()) && old(backends)@.len() == 0
                ==> self.wrote(
                self.indexed_file(
                    image.spec_width(),
                    image.spec_height(),
                    image.spec_samples()->B8_0@,
                    *palette,
                ),
                size,
                old(out)@,
                final(out)@,
            ),
    {
        let parts: FileParts = match self.indexed_parts(image, palette) {
            Ok(parts) => parts,
            Err(e) => {
                return Err(e);
            },
        };
        let ghost file = parts@;
        let draft: Draft = Draft { cleaned: Vec::new(), plain: vec![parts] };
        proof {
            assert(draft@.cleaned =~= Seq::empty());
            assert(draft@.plain =~= seq![file]);
            assert(draft@ == self.drafted_indices(*image, *palette));
        }
        let size: Result<usize, Error> = self.write_through(backends, &draft, out);
        proof {
            if old(backends)@.len() == 0 && self.ancillary.is_valid() {
                reveal(wrote_through);
                let files = draft@.files();
                assert(files =~= seq![file]);
                assert(files[0] == file);
                let streams = own_streams(*self, files);
                assert(streams.subrange(0, 1) =~= streams);
                own_streams_of_one_file(*self, file, streams);
            }
        }
        size
    }

    /// The file that an encode of an indexed image writes.
    pub open spec fn drafted_indices(&self, image: ImageRef<'_>, palette: PngPalette) -> DraftModel {
        DraftModel {
            cleaned: Seq::empty(),
            plain: seq![
                self.indexed_file(
                    image.spec_width(),
                    image.spec_height(),
                    image.spec_samples()->B8_0@,
                    palette,
                ),
            ],
        }
    }
}

} // verus!
