//! One pass over the chunks of a file: criticality, CRC and ordering rules (PNG §5.4 to §5.6).
use crate::bytes::append;
use crate::chunk::{
    ancillary_type, chunk_at, framing_fault, same_type, signature, ChunkModel, ChunkReader,
    RawChunk, CABX, CHRM, CICP, EXIF, GAMA, ICCP, IDAT, IEND, IHDR, ITXT, PLTE, SRGB, TEXT, TRNS,
    ZTXT,
};
use crate::decoded::{chunk_pairs, collect_step, collected, metadata_of, Collected, MetadataModel};
use crate::error::{Cause, Error};
use crate::ihdr::{ihdr_fault, ihdr_of, parse, Ihdr};
use vstd::prelude::*;

verus! {

/// The error of a cause that has no place in the input.
pub open spec fn error_of(cause: Cause) -> Error {
    Error { cause, offset: None }
}

/// What the signature and the first chunk of a stream give: the header and where the next chunk
/// starts.
pub open spec fn opening(png: Seq<u8>) -> Result<(Ihdr, int), Error> {
    if !signature().is_prefix_of(png) {
        Err(Error { cause: Cause::BadSignature, offset: Some(0) })
    } else if png.len() == 8 {
        Err(error_of(Cause::MissingIhdr))
    } else {
        match framing_fault(png, 8) {
            Some(cause) => Err(Error { cause, offset: Some(8) }),
            None => {
                let first = chunk_at(png, 8);
                if first.chunk_type != IHDR@ {
                    Err(error_of(Cause::FirstChunkNotIhdr))
                } else if !first.crc_ok {
                    Err(error_of(Cause::CriticalCrcMismatch))
                } else {
                    match ihdr_fault(first.data) {
                        Some(cause) => Err(error_of(cause)),
                        None => Ok((ihdr_of(first.data), first.end)),
                    }
                }
            },
        }
    }
}

/// Reads the signature and the header of a stream.
pub fn open_stream<'a>(data: &'a [u8]) -> (opened: Result<(ChunkReader<'a>, Ihdr), Error>)
    ensures
        match opening(data@) {
            Err(e) => opened matches Err(f) && f == e,
            Ok((h, at)) => opened matches Ok((r, header)) && header == h && h.wf() && r.wf()
                && r.input() == data@ && r.spec_offset() == at,
        },
{
    let mut reader: ChunkReader<'a> = match ChunkReader::new(data) {
        Ok(reader) => reader,
        Err(e) => {
            return Err(e);
        },
    };
    let first: RawChunk<'a> = match reader.next_chunk() {
        Err(e) => {
            return Err(e);
        },
        Ok(None) => {
            return Err(Error::new(Cause::MissingIhdr));
        },
        Ok(Some(chunk)) => chunk,
    };
    if !same_type(first.chunk_type, IHDR) {
        return Err(Error::new(Cause::FirstChunkNotIhdr));
    }
    if !first.crc_ok {
        return Err(Error::new(Cause::CriticalCrcMismatch));
    }
    match parse(first.data) {
        Ok(header) => Ok((reader, header)),
        Err(e) => Err(e),
    }
}

/// The image-bearing chunks of a stream.
pub struct Parsed<'a> {
    /// The image header.
    pub header: Ihdr,
    /// The palette payload.
    pub plte: Option<&'a [u8]>,
    /// The first intact transparency payload.
    pub trns: Option<&'a [u8]>,
    /// All IDAT payloads, concatenated.
    pub idat: Vec<u8>,
    /// The intact ancillary chunks, in file order, where they were asked for.
    pub ancillary: Vec<([u8; 4], &'a [u8])>,
    /// How many intact caBX chunks stand behind the first IDAT.
    pub late_stores: usize,
}

/// What has been read so far.
pub struct ParseState {
    pub plte: Option<Seq<u8>>,
    pub trns: Option<Seq<u8>>,
    pub idat: Seq<u8>,
    pub ancillary: Seq<(Seq<u8>, Seq<u8>)>,
    pub late_stores: int,
    pub seen_idat: bool,
    pub idat_done: bool,
}

/// Nothing read yet.
pub open spec fn nothing_read() -> ParseState {
    ParseState {
        plte: None,
        trns: None,
        idat: Seq::empty(),
        ancillary: Seq::empty(),
        late_stores: 0,
        seen_idat: false,
        idat_done: false,
    }
}

/// What a chunk leads to: reading goes on, reading is complete, or the stream is refused.
pub enum ParseStep {
    Go(ParseState),
    End(ParseState),
    Fail(Cause),
}

/// Whether an IEND chunk is malformed.
pub open spec fn iend_fault(chunk: ChunkModel) -> Option<Cause> {
    if !chunk.crc_ok {
        Some(Cause::CriticalCrcMismatch)
    } else if chunk.data.len() != 0 {
        Some(Cause::IendNotEmpty)
    } else {
        None
    }
}

/// The effect of one chunk behind the header.
pub open spec fn parse_step(before: ParseState, chunk: ChunkModel, want: bool) -> ParseStep {
    let s = ParseState {
        idat_done: before.idat_done || (before.seen_idat && chunk.chunk_type != IDAT@),
        ..before
    };
    if chunk.chunk_type == IHDR@ {
        ParseStep::Fail(Cause::DuplicateIhdr)
    } else if chunk.chunk_type == IEND@ {
        match iend_fault(chunk) {
            Some(cause) => ParseStep::Fail(cause),
            None => ParseStep::End(s),
        }
    } else if chunk.chunk_type == IDAT@ {
        if !chunk.crc_ok {
            ParseStep::Fail(Cause::CriticalCrcMismatch)
        } else if s.idat_done {
            ParseStep::Fail(Cause::IdatNotConsecutive)
        } else {
            ParseStep::Go(ParseState { seen_idat: true, idat: s.idat + chunk.data, ..s })
        }
    } else if chunk.chunk_type == PLTE@ {
        if !chunk.crc_ok {
            ParseStep::Fail(Cause::CriticalCrcMismatch)
        } else if s.plte is Some {
            ParseStep::Fail(Cause::DuplicatePlte)
        } else if s.seen_idat {
            ParseStep::Fail(Cause::PlteAfterIdat)
        } else if s.trns is Some {
            ParseStep::Fail(Cause::PlteAfterTrns)
        } else {
            ParseStep::Go(ParseState { plte: Some(chunk.data), ..s })
        }
    } else if chunk.chunk_type == TRNS@ {
        if s.seen_idat {
            ParseStep::Fail(Cause::TrnsAfterIdat)
        } else if chunk.crc_ok && s.trns is None {
            ParseStep::Go(ParseState { trns: Some(chunk.data), ..s })
        } else {
            ParseStep::Go(s)
        }
    } else if ancillary_type(chunk.chunk_type) {
        if !want || !chunk.crc_ok {
            ParseStep::Go(s)
        } else if chunk.chunk_type == CABX@ && s.seen_idat {
            ParseStep::Go(ParseState { late_stores: s.late_stores + 1, ..s })
        } else {
            ParseStep::Go(
                ParseState { ancillary: s.ancillary.push((chunk.chunk_type, chunk.data)), ..s },
            )
        }
    } else {
        ParseStep::Fail(Cause::UnknownCriticalChunk)
    }
}

/// What the chunks from `at` on lead to.
pub open spec fn parse_from(png: Seq<u8>, at: int, s: ParseState, want: bool) -> Result<
    ParseState,
    Error,
>
    decreases png.len() - at,
{
    if at >= png.len() {
        Err(error_of(Cause::MissingIend))
    } else {
        match framing_fault(png, at) {
            Some(cause) => Err(Error { cause, offset: Some(at as u64) }),
            None => {
                let chunk = chunk_at(png, at);
                match parse_step(s, chunk, want) {
                    ParseStep::Fail(cause) => Err(error_of(cause)),
                    ParseStep::End(t) => if t.seen_idat {
                        Ok(t)
                    } else {
                        Err(error_of(Cause::MissingIdat))
                    },
                    ParseStep::Go(t) => if chunk.end <= at {
                        Err(error_of(Cause::MissingIend))
                    } else {
                        parse_from(png, chunk.end, t, want)
                    },
                }
            },
        }
    }
}

/// The header and the chunks of a stream, or why it is refused.
pub open spec fn parsed_stream(png: Seq<u8>, want: bool) -> Result<(Ihdr, ParseState), Error> {
    match opening(png) {
        Err(e) => Err(e),
        Ok((h, at)) => match parse_from(png, at, nothing_read(), want) {
            Err(e) => Err(e),
            Ok(s) => Ok((h, s)),
        },
    }
}

/// An optional slice as values.
pub open spec fn opt_slice(s: Option<&[u8]>) -> Option<Seq<u8>> {
    match s {
        Some(t) => Some(t@),
        None => None,
    }
}

impl<'a> Parsed<'a> {
    /// Whether the chunks read are those of a state.
    pub open spec fn holds(&self, s: ParseState) -> bool {
        &&& opt_slice(self.plte) == s.plte
        &&& opt_slice(self.trns) == s.trns
        &&& self.idat@ == s.idat
        &&& chunk_pairs(self.ancillary@) == s.ancillary
        &&& self.late_stores == s.late_stores
    }
}

/// Walks the chunk stream, enforcing criticality, CRC and ordering rules (§5.4 to §5.6). With
/// `want_metadata`, the intact ancillary chunks are collected; a caBX behind the first IDAT is
/// counted instead.
pub fn parse_stream<'a>(data: &'a [u8], want_metadata: bool) -> (parsed: Result<Parsed<'a>, Error>)
    ensures
        match parsed_stream(data@, want_metadata) {
            Err(e) => parsed matches Err(f) && f == e,
            Ok((h, s)) => parsed matches Ok(p) && p.header == h && h.wf() && p.holds(s)
                && p.ancillary@.len() + p.late_stores <= isize::MAX,
        },
{
    let (mut reader, header): (ChunkReader<'a>, Ihdr) = match open_stream(data) {
        Ok(opened) => opened,
        Err(e) => {
            return Err(e);
        },
    };
    let mut out: Parsed<'a> = Parsed {
        header,
        plte: None,
        trns: None,
        idat: Vec::new(),
        ancillary: Vec::new(),
        late_stores: 0,
    };
    let mut seen_idat: bool = false;
    let mut idat_done: bool = false;
    let ghost mut s: ParseState = nothing_read();
    let ghost png = data@;
    let ghost all = parsed_stream(png, want_metadata);
    assert(chunk_pairs(out.ancillary@) =~= s.ancillary);
    assert(out.idat@ =~= s.idat);
    loop
        invariant
            png == data@,
            reader.wf(),
            reader.input() == png,
            out.header == header,
            header.wf(),
            out.holds(s),
            seen_idat == s.seen_idat,
            idat_done == s.idat_done,
            out.ancillary@.len() + out.late_stores <= reader.spec_offset(),
            all == parsed_stream(png, want_metadata),
            all == (match parse_from(png, reader.spec_offset(), s, want_metadata) {
                Err(e) => Err::<(Ihdr, ParseState), Error>(e),
                Ok(t) => Ok((header, t)),
            }),
        decreases png.len() - reader.spec_offset(),
    {
        let ghost at = reader.spec_offset();
        let chunk: RawChunk<'a> = match reader.next_chunk() {
            Err(e) => {
                return Err(e);
            },
            Ok(None) => {
                return Err(Error::new(Cause::MissingIend));
            },
            Ok(Some(chunk)) => chunk,
        };
        let ghost step = parse_step(s, chunk@, want_metadata);
        if seen_idat && !same_type(chunk.chunk_type, IDAT) {
            idat_done = true;
        }
        if same_type(chunk.chunk_type, IHDR) {
            return Err(Error::new(Cause::DuplicateIhdr));
        } else if same_type(chunk.chunk_type, IEND) {
            if !chunk.crc_ok {
                return Err(Error::new(Cause::CriticalCrcMismatch));
            }
            if chunk.data.len() != 0 {
                return Err(Error::new(Cause::IendNotEmpty));
            }
            if !seen_idat {
                return Err(Error::new(Cause::MissingIdat));
            }
            return Ok(out);
        } else if same_type(chunk.chunk_type, IDAT) {
            if !chunk.crc_ok {
                return Err(Error::new(Cause::CriticalCrcMismatch));
            }
            if idat_done {
                return Err(Error::new(Cause::IdatNotConsecutive));
            }
            seen_idat = true;
            append(&mut out.idat, chunk.data);
        } else if same_type(chunk.chunk_type, PLTE) {
            if !chunk.crc_ok {
                return Err(Error::new(Cause::CriticalCrcMismatch));
            }
            if out.plte.is_some() {
                return Err(Error::new(Cause::DuplicatePlte));
            }
            if seen_idat {
                return Err(Error::new(Cause::PlteAfterIdat));
            }
            if out.trns.is_some() {
                return Err(Error::new(Cause::PlteAfterTrns));
            }
            out.plte = Some(chunk.data);
        } else if same_type(chunk.chunk_type, TRNS) {
            if seen_idat {
                return Err(Error::new(Cause::TrnsAfterIdat));
            }
            if chunk.crc_ok && out.trns.is_none() {
                out.trns = Some(chunk.data);
            }
        } else if chunk.is_ancillary() {
            if want_metadata && chunk.crc_ok {
                if seen_idat && same_type(chunk.chunk_type, CABX) {
                    out.late_stores = out.late_stores + 1;
                } else {
                    push_chunk(&mut out.ancillary, chunk.chunk_type, chunk.data);
                }
            }
        } else {
            return Err(Error::new(Cause::UnknownCriticalChunk));
        }
        proof {
            assert(step is Go);
            s = step->Go_0;
            assert(chunk@.end > at);
        }
    }
}

fn push_chunk<'a>(chunks: &mut Vec<([u8; 4], &'a [u8])>, chunk_type: [u8; 4], data: &'a [u8])
    ensures
        chunk_pairs(final(chunks)@) == chunk_pairs(old(chunks)@).push((chunk_type@, data@)),
        final(chunks)@.len() == old(chunks)@.len() + 1,
{
    chunks.push((chunk_type, data));
    assert(chunk_pairs(chunks@) =~= chunk_pairs(old(chunks)@).push((chunk_type@, data@)));
}

/// What a metadata walk has read so far.
pub struct WalkState {
    pub chunks: Seq<(Seq<u8>, Seq<u8>)>,
    pub late_stores: int,
    pub seen_idat: bool,
}

/// What a chunk leads to in a metadata walk.
pub enum WalkStep {
    Go(WalkState),
    End(WalkState),
    Fail(Cause),
}

/// The effect of one chunk behind the header in a metadata walk.
pub open spec fn walk_step(s: WalkState, chunk: ChunkModel) -> WalkStep {
    if chunk.chunk_type == IHDR@ {
        WalkStep::Fail(Cause::DuplicateIhdr)
    } else if chunk.chunk_type == IEND@ {
        match iend_fault(chunk) {
            Some(cause) => WalkStep::Fail(cause),
            None => WalkStep::End(s),
        }
    } else if chunk.chunk_type == IDAT@ {
        WalkStep::Go(WalkState { seen_idat: true, ..s })
    } else if chunk.chunk_type == PLTE@ {
        WalkStep::Go(s)
    } else if ancillary_type(chunk.chunk_type) {
        if !chunk.crc_ok {
            WalkStep::Go(s)
        } else if chunk.chunk_type == CABX@ && s.seen_idat {
            WalkStep::Go(WalkState { late_stores: s.late_stores + 1, ..s })
        } else {
            WalkStep::Go(WalkState { chunks: s.chunks.push((chunk.chunk_type, chunk.data)), ..s })
        }
    } else {
        WalkStep::Fail(Cause::UnknownCriticalChunk)
    }
}

/// What the chunks from `at` on lead to in a metadata walk.
pub open spec fn walk_from(png: Seq<u8>, at: int, s: WalkState) -> Result<WalkState, Error>
    decreases png.len() - at,
{
    if at >= png.len() {
        Err(error_of(Cause::MissingIend))
    } else {
        match framing_fault(png, at) {
            Some(cause) => Err(Error { cause, offset: Some(at as u64) }),
            None => {
                let chunk = chunk_at(png, at);
                match walk_step(s, chunk) {
                    WalkStep::Fail(cause) => Err(error_of(cause)),
                    WalkStep::End(t) => Ok(t),
                    WalkStep::Go(t) => if chunk.end <= at {
                        Err(error_of(Cause::MissingIend))
                    } else {
                        walk_from(png, chunk.end, t)
                    },
                }
            },
        }
    }
}

/// Nothing walked yet.
pub open spec fn nothing_walked() -> WalkState {
    WalkState { chunks: Seq::empty(), late_stores: 0, seen_idat: false }
}

/// What a metadata walk finds, or why the stream is refused.
pub open spec fn walked_stream(png: Seq<u8>) -> Result<WalkState, Error> {
    match opening(png) {
        Err(e) => Err(e),
        Ok((_, at)) => walk_from(png, at, nothing_walked()),
    }
}

/// Walks the chunk stream collecting the intact ancillary chunks, and counting the intact caBX
/// chunks behind the first IDAT. IDAT and PLTE are skipped by length, so the pixel data is never
/// touched; a stream without IDAT is read like any other.
pub fn walk_metadata_chunks<'a>(data: &'a [u8]) -> (walked: Result<
    (Vec<([u8; 4], &'a [u8])>, usize),
    Error,
>)
    ensures
        match walked_stream(data@) {
            Err(e) => walked matches Err(f) && f == e,
            Ok(s) => walked matches Ok((chunks, late)) && chunk_pairs(chunks@) == s.chunks && late
                == s.late_stores && chunks@.len() + late <= isize::MAX,
        },
{
    let (mut reader, _): (ChunkReader<'a>, Ihdr) = match open_stream(data) {
        Ok(opened) => opened,
        Err(e) => {
            return Err(e);
        },
    };
    let mut chunks: Vec<([u8; 4], &'a [u8])> = Vec::new();
    let mut late: usize = 0;
    let mut seen_idat: bool = false;
    let ghost mut s: WalkState = nothing_walked();
    let ghost png = data@;
    let ghost all = walked_stream(png);
    assert(chunk_pairs(chunks@) =~= s.chunks);
    loop
        invariant
            png == data@,
            reader.wf(),
            reader.input() == png,
            chunk_pairs(chunks@) == s.chunks,
            late == s.late_stores,
            seen_idat == s.seen_idat,
            chunks@.len() + late <= reader.spec_offset(),
            all == walked_stream(png),
            all == walk_from(png, reader.spec_offset(), s),
        decreases png.len() - reader.spec_offset(),
    {
        let ghost at = reader.spec_offset();
        let chunk: RawChunk<'a> = match reader.next_chunk() {
            Err(e) => {
                return Err(e);
            },
            Ok(None) => {
                return Err(Error::new(Cause::MissingIend));
            },
            Ok(Some(chunk)) => chunk,
        };
        let ghost step = walk_step(s, chunk@);
        if same_type(chunk.chunk_type, IHDR) {
            return Err(Error::new(Cause::DuplicateIhdr));
        } else if same_type(chunk.chunk_type, IEND) {
            if !chunk.crc_ok {
                return Err(Error::new(Cause::CriticalCrcMismatch));
            }
            if chunk.data.len() != 0 {
                return Err(Error::new(Cause::IendNotEmpty));
            }
            return Ok((chunks, late));
        } else if same_type(chunk.chunk_type, IDAT) {
            seen_idat = true;
        } else if same_type(chunk.chunk_type, PLTE) {
        } else if chunk.is_ancillary() {
            if chunk.crc_ok {
                if seen_idat && same_type(chunk.chunk_type, CABX) {
                    late = late + 1;
                } else {
                    push_chunk(&mut chunks, chunk.chunk_type, chunk.data);
                }
            }
        } else {
            return Err(Error::new(Cause::UnknownCriticalChunk));
        }
        proof {
            assert(step is Go);
            s = step->Go_0;
            assert(chunk@.end > at);
        }
    }
}

/// The metadata of chunks with the stores behind the first IDAT counted in.
pub open spec fn metadata_with_late(
    chunks: Seq<(Seq<u8>, Seq<u8>)>,
    late_stores: int,
    budget: int,
) -> MetadataModel {
    let m = metadata_of(chunks, budget);
    MetadataModel { c2pa_ignored: m.c2pa_ignored + late_stores, ..m }
}

proof fn collected_prefix(
    a: Seq<(Seq<u8>, Seq<u8>)>,
    b: Seq<(Seq<u8>, Seq<u8>)>,
    budget: int,
    n: int,
)
    requires
        0 <= n <= a.len(),
        n <= b.len(),
        forall|i: int| 0 <= i < n ==> a[i] == b[i],
    ensures
        collected(a, budget, n) == collected(b, budget, n),
    decreases n,
{
    if n > 0 {
        collected_prefix(a, b, budget, n - 1);
    }
}

/// One more chunk behind a list is collected behind it.
pub proof fn collected_push(chunks: Seq<(Seq<u8>, Seq<u8>)>, c: (Seq<u8>, Seq<u8>), budget: int)
    ensures
        collected(chunks.push(c), budget, chunks.len() as int + 1) == collect_step(
            collected(chunks, budget, chunks.len() as int),
            c.0,
            c.1,
        ),
{
    collected_prefix(chunks.push(c), chunks, budget, chunks.len() as int);
}

/// tRNS is an ancillary chunk that carries no metadata.
proof fn transparency_is_no_metadata()
    ensures
        ancillary_type(TRNS@),
        forall|s: Collected, data: Seq<u8>| #[trigger] collect_step(s, TRNS@, data) == s,
{
    assert(TRNS@[0] == 0x74 && TRNS@[1] == 0x52);
    assert(0x74u8 & 0x20 != 0) by (bit_vector);
    assert(EXIF@[0] == 0x65);
    assert(CABX@[0] == 0x63);
    assert(ICCP@[0] == 0x69);
    assert(GAMA@[0] == 0x67);
    assert(CHRM@[0] == 0x63);
    assert(SRGB@[0] == 0x73);
    assert(CICP@[0] == 0x63);
    assert(TEXT@[1] == 0x45);
    assert(ZTXT@[0] == 0x7A);
    assert(ITXT@[0] == 0x69);
}

/// What a metadata walk and a decode have in common at every chunk.
spec fn in_step(s: ParseState, w: WalkState, budget: int) -> bool {
    &&& s.seen_idat == w.seen_idat
    &&& s.late_stores == w.late_stores
    &&& collected(s.ancillary, budget, s.ancillary.len() as int) == collected(
        w.chunks,
        budget,
        w.chunks.len() as int,
    )
}

proof fn walk_follows_parse(png: Seq<u8>, at: int, s: ParseState, w: WalkState, budget: int)
    requires
        in_step(s, w, budget),
        parse_from(png, at, s, true) is Ok,
    ensures
        walk_from(png, at, w) matches Ok(v) && in_step(
            parse_from(png, at, s, true)->Ok_0,
            v,
            budget,
        ),
    decreases png.len() - at,
{
    let chunk = chunk_at(png, at);
    let c = (chunk.chunk_type, chunk.data);
    match parse_step(s, chunk, true) {
        ParseStep::Fail(_) => {},
        ParseStep::End(_) => {},
        ParseStep::Go(t) => {
            collected_push(s.ancillary, c, budget);
            collected_push(w.chunks, c, budget);
            transparency_is_no_metadata();
            assert(walk_step(w, chunk) is Go);
            walk_follows_parse(png, chunk.end, t, walk_step(w, chunk)->Go_0, budget);
        },
    }
}

/// Reading the metadata alone agrees with decoding: where a decode gets through the chunks, the
/// walk does too, and both give the same metadata under the same budget.
pub proof fn metadata_agrees_with_decode(png: Seq<u8>, budget: int)
    requires
        parsed_stream(png, true) is Ok,
    ensures
        walked_stream(png) matches Ok(w) && ({
            let s = parsed_stream(png, true)->Ok_0.1;
            metadata_with_late(w.chunks, w.late_stores, budget) == metadata_with_late(
                s.ancillary,
                s.late_stores,
                budget,
            )
        }),
{
    let at = opening(png)->Ok_0.1;
    assert(in_step(nothing_read(), nothing_walked(), budget));
    walk_follows_parse(png, at, nothing_read(), nothing_walked(), budget);
}

/// Asking for the metadata changes nothing about the image: the same streams are accepted, with
/// the same header, palette, transparency and pixel data.
pub proof fn metadata_does_not_affect_the_image(png: Seq<u8>)
    ensures
        match (parsed_stream(png, true), parsed_stream(png, false)) {
            (Ok((h, s)), Ok((g, t))) => h == g && s.plte == t.plte && s.trns == t.trns && s.idat
                == t.idat,
            (Err(e), Err(f)) => e == f,
            _ => false,
        },
{
    if opening(png) is Ok {
        same_image_from(png, opening(png)->Ok_0.1, nothing_read(), nothing_read());
    }
}

proof fn same_image_from(png: Seq<u8>, at: int, s: ParseState, t: ParseState)
    requires
        s.plte == t.plte,
        s.trns == t.trns,
        s.idat == t.idat,
        s.seen_idat == t.seen_idat,
        s.idat_done == t.idat_done,
    ensures
        match (parse_from(png, at, s, true), parse_from(png, at, t, false)) {
            (Ok(s), Ok(t)) => s.plte == t.plte && s.trns == t.trns && s.idat == t.idat,
            (Err(e), Err(f)) => e == f,
            _ => false,
        },
    decreases png.len() - at,
{
    if at < png.len() && framing_fault(png, at) is None {
        let chunk = chunk_at(png, at);
        match (parse_step(s, chunk, true), parse_step(t, chunk, false)) {
            (ParseStep::Go(u), ParseStep::Go(v)) => {
                if chunk.end > at {
                    same_image_from(png, chunk.end, u, v);
                }
            },
            _ => {},
        }
    }
}

} // verus!
