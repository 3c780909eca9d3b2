//! The place of the C2PA manifest store in a file.
use crate::ancillary::Ancillary;
use crate::chunk::{
    chunk_at, chunk_bytes, framing_fault, same_type, signature, written_chunk_reads_back,
    ChunkReader, RawChunk, CABX, IDAT, IEND, IHDR, PLTE, TRNS,
};
use crate::encoder::{FileModel, PngEncoder};
use crate::error::{failed, Cause, Error};
use crate::ihdr::ihdr_payload;
use crate::layout::{
    a_file_is_its_chunks, framable, opt_pair, run_bytes, run_bytes_concat, text_pairs_are_texts,
    Pair,
};
use crate::pixels::ImageRef;
use crate::roundtrip::passed_over;
use vstd::prelude::*;

verus! {

/// The place of a manifest store: the whole chunk, and the payload in it.
#[derive(Debug, Clone, Copy, PartialEq, Eq, Structural)]
#[non_exhaustive]
pub struct C2paSpan {
    /// Where the chunk starts: its length field.
    pub chunk_start: usize,
    /// Where the chunk ends: behind its CRC.
    pub chunk_end: usize,
    /// Where the payload starts.
    pub payload_start: usize,
    /// Where the payload ends.
    pub payload_end: usize,
}

/// The chunk of the store from `at` on: the first intact caBX before the first IDAT.
pub open spec fn store_from(png: Seq<u8>, at: int) -> Option<(int, int)>
    decreases png.len() - at,
{
    if at >= png.len() || framing_fault(png, at) is Some {
        None
    } else {
        let chunk = chunk_at(png, at);
        if chunk.chunk_type == IDAT@ || chunk.chunk_type == IEND@ {
            None
        } else if chunk.chunk_type == CABX@ && chunk.crc_ok {
            Some((chunk.start, chunk.end))
        } else if chunk.end <= at {
            None
        } else {
            store_from(png, chunk.end)
        }
    }
}

/// The chunk of the store of a file.
pub open spec fn store_of(png: Seq<u8>) -> Option<(int, int)> {
    if signature().is_prefix_of(png) {
        store_from(png, 8)
    } else {
        None
    }
}

/// Finds the manifest store of a file: the first intact caBX before the first IDAT.
pub fn find_c2pa(png: &[u8]) -> (span: Option<C2paSpan>)
    ensures
        match store_of(png@) {
            Some((start, end)) => span matches Some(s) && s.chunk_start == start && s.chunk_end
                == end && s.payload_start == start + 8 && s.payload_end == end - 4,
            None => span is None,
        },
{
    let mut reader: ChunkReader<'_> = match ChunkReader::new(png) {
        Ok(reader) => reader,
        Err(_) => {
            return None;
        },
    };
    loop
        invariant
            reader.wf(),
            reader.input() == png@,
            store_of(png@) == store_from(png@, reader.spec_offset()),
        decreases png@.len() - reader.spec_offset(),
    {
        let chunk: RawChunk<'_> = match reader.next_chunk() {
            Ok(Some(chunk)) => chunk,
            _ => {
                return None;
            },
        };
        if same_type(chunk.chunk_type, IDAT) || same_type(chunk.chunk_type, IEND) {
            return None;
        }
        if same_type(chunk.chunk_type, CABX) && chunk.crc_ok {
            return Some(
                C2paSpan {
                    chunk_start: chunk.start,
                    chunk_end: chunk.end,
                    payload_start: chunk.start + 8,
                    payload_end: chunk.end - 4,
                },
            );
        }
    }
}

/// What [`PngEncoder::encode_with_report`] found in the bytes it wrote.
#[derive(Debug, Clone, Copy, PartialEq, Eq, Structural)]
#[non_exhaustive]
pub struct PngEncodeReport {
    /// Where the manifest store landed, when one was set or reserved.
    pub c2pa: Option<C2paSpan>,
}

impl PngEncoder {
    /// Encodes an image into a new buffer and reports where the C2PA manifest store landed, for
    /// filling a reservation in place. The report is read back from the bytes written.
    pub fn encode_with_report(&self, image: &ImageRef<'_>) -> (encoded: Result<
        (Vec<u8>, PngEncodeReport),
        Error,
    >)
        requires
            image.wf(),
            !(image.spec_format() is Indexed8),
        ensures
            if self.ancillary.is_valid() {
                encoded matches Ok((png, report)) && png@ == self.file_of(self.encoded(*image))
                    && self.file_restores(self.encoded(*image)) && match store_of(png@) {
                    Some((start, end)) => report.c2pa matches Some(s) && s.chunk_start == start
                        && s.chunk_end == end && s.payload_start == start + 8 && s.payload_end
                        == end - 4,
                    None => report.c2pa is None,
                }
            } else {
                failed(encoded, Cause::RefusedAnnotation)
            },
    {
        match self.encode_to_vec(image) {
            Ok(png) => {
                let c2pa: Option<C2paSpan> = find_c2pa(png.as_slice());
                Ok((png, PngEncodeReport { c2pa }))
            },
            Err(e) => Err(e),
        }
    }
}

/// Whether the search for a store goes on behind chunks of a type.
spec fn searched_past(chunk_type: Seq<u8>) -> bool {
    chunk_type != IDAT@ && chunk_type != IEND@ && chunk_type != CABX@
}

proof fn searching_a_run(before: Seq<u8>, list: Seq<Pair>, after: Seq<u8>)
    requires
        framable(list),
        forall|i: int| 0 <= i < list.len() ==> searched_past((#[trigger] list[i]).0),
    ensures
        ({
            let png = before + run_bytes(list) + after;
            store_from(png, before.len() as int) == store_from(
                png,
                (before + run_bytes(list)).len() as int,
            )
        }),
    decreases list.len(),
{
    let png = before + run_bytes(list) + after;
    if list.len() == 0 {
        assert(before + run_bytes(list) =~= before);
    } else {
        let (kind, data) = list[0];
        let rest = list.drop_first();
        let head = chunk_bytes(kind, data);
        assert forall|i: int| 0 <= i < rest.len() implies (#[trigger] rest[i]).0.len() == 4
            && rest[i].1.len() < 0x8000_0000 && searched_past(rest[i].0) by {
            assert(rest[i] == list[i + 1]);
        }
        written_chunk_reads_back(before, kind, data, run_bytes(rest) + after);
        assert(before + head + (run_bytes(rest) + after) =~= png);
        reveal(chunk_bytes);
        searching_a_run(before + head, rest, after);
        assert(before + head + run_bytes(rest) + after =~= png);
        assert(before + head + run_bytes(rest) =~= before + run_bytes(list));
    }
}

proof fn leading_chunks_are_searched_past(e: PngEncoder, f: FileModel)
    ensures
        forall|i: int|
            0 <= i < e.leading_pairs(f).len() ==> searched_past(
                (#[trigger] e.leading_pairs(f)[i]).0,
            ),
{
    crate::roundtrip::ancillary_lists_are_passed_over(e, f);
    assert(IHDR@[0] == 0x49 && IHDR@[1] == 0x48 && IEND@[1] == 0x45 && IDAT@[1] == 0x44);
    assert(PLTE@[0] == 0x50 && TRNS@[0] == 0x74 && CABX@[0] == 0x63 && IEND@[0] == 0x49 && IDAT@[0]
        == 0x49);
    let head = seq![(IHDR@, ihdr_payload(f.header))];
    let pre = e.pre_pairs(f);
    let plte = opt_pair(PLTE@, f.plte);
    let trns = opt_pair(TRNS@, f.trns);
    let post = e.post_pairs(f);
    let list = e.leading_pairs(f);
    lists_hold_no_store(e, f);
    assert forall|i: int| 0 <= i < list.len() implies searched_past((#[trigger] list[i]).0) by {
        let a = head.len() as int;
        let b = a + pre.len();
        let c = b + plte.len();
        let d = c + trns.len();
        if i < a {
            assert(list[i] == head[i]);
        } else if i < b {
            assert(list[i] == pre[i - a]);
            assert(passed_over(pre[i - a].0));
        } else if i < c {
            assert(list[i] == plte[i - b]);
        } else if i < d {
            assert(list[i] == trns[i - c]);
        } else {
            assert(list[i] == post[i - d]);
            assert(passed_over(post[i - d].0));
        }
    }
}

proof fn lists_hold_no_store(e: PngEncoder, f: FileModel)
    ensures
        forall|i: int| 0 <= i < e.pre_pairs(f).len() ==> (#[trigger] e.pre_pairs(f)[i]).0 != CABX@,
        forall|i: int| 0 <= i < e.post_pairs(f).len() ==> (#[trigger] e.post_pairs(f)[i]).0 != CABX@,
{
    assert(CABX@[0] == 0x63 && CABX@[1] == 0x61);
    assert(crate::chunk::CICP@[1] == 0x49);
    assert(crate::chunk::CHRM@[1] == 0x48);
    assert(crate::chunk::GAMA@[0] == 0x67);
    assert(crate::chunk::ICCP@[0] == 0x69);
    assert(crate::chunk::SBIT@[0] == 0x73);
    assert(crate::chunk::SRGB@[0] == 0x73);
    assert(crate::chunk::EXIF@[0] == 0x65);
    assert(crate::chunk::BKGD@[0] == 0x62);
    assert(crate::chunk::PHYS@[0] == 0x70);
    assert(crate::chunk::TIME@[0] == 0x74);
    assert(crate::chunk::TEXT@[0] == 0x74);
    assert(crate::chunk::ZTXT@[0] == 0x7A);
    assert(crate::chunk::ITXT@[0] == 0x69);
    text_pairs_are_texts(e.ancillary.entries(), e.effort);
}

/// The chunks of a file before its store.
pub open spec fn before_store(e: PngEncoder, f: FileModel) -> Seq<u8> {
    signature() + run_bytes(e.leading_pairs(f))
}

/// A store that was set or reserved is found, as the last chunk before the image data.
pub proof fn a_written_store_is_found(e: PngEncoder, f: FileModel)
    requires
        framable(e.file_pairs(f)),
        e.ancillary.c2pa is Some,
    ensures
        ({
            let store = Ancillary::stored(e.ancillary.c2pa)->0;
            let start = before_store(e, f).len() as int;
            &&& store_of(e.file_of(f)) == Some((start, start + 12 + store.len()))
            &&& e.file_of(f) == before_store(e, f) + chunk_bytes(CABX@, store) + run_bytes(
                e.trailing_pairs(f),
            )
            &&& e.file_of(f).subrange(start + 8, start + 8 + store.len()) == store
        }),
{
    let store = Ancillary::stored(e.ancillary.c2pa)->0;
    let lead = e.leading_pairs(f);
    parted_at_the_store(e, f);
    assert(framable(lead)) by {
        assert forall|i: int| 0 <= i < lead.len() implies (#[trigger] lead[i]).0.len() == 4
            && lead[i].1.len() < 0x8000_0000 by {
            assert(lead[i] == e.file_pairs(f)[i]);
        }
    }
    leading_chunks_are_searched_past(e, f);
    assert(store.len() < 0x8000_0000) by {
        assert(e.file_pairs(f)[lead.len() as int] == (CABX@, store));
    }
    store_is_found(lead, store, run_bytes(e.trailing_pairs(f)));
}

proof fn store_is_found(lead: Seq<Pair>, store: Seq<u8>, tail: Seq<u8>)
    requires
        framable(lead),
        forall|i: int| 0 <= i < lead.len() ==> searched_past((#[trigger] lead[i]).0),
        store.len() < 0x8000_0000,
    ensures
        ({
            let head = signature() + run_bytes(lead);
            let png = head + chunk_bytes(CABX@, store) + tail;
            let start = head.len() as int;
            &&& store_of(png) == Some((start, start + 12 + store.len()))
            &&& png.subrange(start + 8, start + 8 + store.len()) == store
        }),
{
    let head = signature() + run_bytes(lead);
    let chunk = chunk_bytes(CABX@, store);
    let png = head + chunk + tail;
    let start = head.len() as int;
    let after = chunk + tail;
    assert(png =~= signature() + run_bytes(lead) + after);
    searching_a_run(signature(), lead, after);
    assert(signature().is_prefix_of(png)) by {
        assert(png.subrange(0, signature().len() as int) =~= signature());
    }
    written_chunk_reads_back(head, CABX@, store, tail);
    assert(CABX@[0] == 0x63 && IDAT@[0] == 0x49 && IEND@[0] == 0x49);
    reveal(chunk_bytes);
    assert(png.subrange(start + 8, start + 8 + store.len()) =~= store);
}

/// A store drops into the place reserved for one of its length: the file written with the store and
/// the file written with the reservation differ in that chunk alone.
pub proof fn a_store_fills_its_reservation(e: PngEncoder, reserved: PngEncoder, f: FileModel)
    requires
        e.ancillary.c2pa is Some,
        reserved.ancillary.c2pa is Some,
        Ancillary::stored(e.ancillary.c2pa)->0.len() == Ancillary::stored(
            reserved.ancillary.c2pa,
        )->0.len(),
        reserved == (PngEncoder {
            ancillary: Ancillary { c2pa: reserved.ancillary.c2pa, ..e.ancillary },
            ..e
        }),
    ensures
        ({
            let (head, tail) = (before_store(e, f), run_bytes(e.trailing_pairs(f)));
            &&& e.file_of(f) == head + chunk_bytes(
                CABX@,
                Ancillary::stored(e.ancillary.c2pa)->0,
            ) + tail
            &&& reserved.file_of(f) == head + chunk_bytes(
                CABX@,
                Ancillary::stored(reserved.ancillary.c2pa)->0,
            ) + tail
            &&& e.file_of(f).len() == reserved.file_of(f).len()
        }),
{
    same_but_the_store(e, reserved, f);
    parted_at_the_store(e, f);
    parted_at_the_store(reserved, f);
    chunk_len(CABX@, Ancillary::stored(e.ancillary.c2pa)->0);
    chunk_len(CABX@, Ancillary::stored(reserved.ancillary.c2pa)->0);
}

proof fn chunk_len(chunk_type: Seq<u8>, data: Seq<u8>)
    ensures
        chunk_bytes(chunk_type, data).len() == 8 + chunk_type.len() + data.len(),
{
    reveal(chunk_bytes);
}

proof fn parted_at_the_store(e: PngEncoder, f: FileModel)
    requires
        e.ancillary.c2pa is Some,
    ensures
        e.file_of(f) == before_store(e, f) + chunk_bytes(
            CABX@,
            Ancillary::stored(e.ancillary.c2pa)->0,
        ) + run_bytes(e.trailing_pairs(f)),
{
    let store = Ancillary::stored(e.ancillary.c2pa)->0;
    a_file_is_its_chunks(e, f);
    crate::layout::one_run((CABX@, store));
    parted(e.leading_pairs(f), (CABX@, store), e.trailing_pairs(f));
}

proof fn parted(lead: Seq<Pair>, pair: Pair, tail: Seq<Pair>)
    ensures
        signature() + run_bytes(lead + seq![pair] + tail) == signature() + run_bytes(lead)
            + chunk_bytes(pair.0, pair.1) + run_bytes(tail),
{
    crate::layout::one_run(pair);
    run_bytes_concat(lead, seq![pair]);
    run_bytes_concat(lead + seq![pair], tail);
    assert(signature() + (run_bytes(lead) + chunk_bytes(pair.0, pair.1) + run_bytes(tail))
        =~= signature() + run_bytes(lead) + chunk_bytes(pair.0, pair.1) + run_bytes(tail));
}

proof fn same_but_the_store(e: PngEncoder, other: PngEncoder, f: FileModel)
    requires
        other == (PngEncoder {
            ancillary: Ancillary { c2pa: other.ancillary.c2pa, ..e.ancillary },
            ..e
        }),
    ensures
        other.leading_pairs(f) == e.leading_pairs(f),
        other.trailing_pairs(f) == e.trailing_pairs(f),
{
    same_candidates(
        e,
        other,
        f.bytes,
        crate::adam7::row_len(f.header.width as int, f.header.spec_bits_per_pixel()),
        crate::canvas::stride_of(f.header),
        crate::encoder::BRUTE_FORCE_COUNT as int,
    );
}

proof fn same_candidates(
    e: PngEncoder,
    other: PngEncoder,
    bytes: Seq<u8>,
    row_bytes: int,
    bpp: int,
    n: int,
)
    requires
        other.level == e.level,
        other.effort == e.effort,
        other.filter == e.filter,
    ensures
        other.best_candidate(bytes, row_bytes, bpp, n) == e.best_candidate(bytes, row_bytes, bpp, n),
        other.idat_stream(bytes, row_bytes, bpp) == e.idat_stream(bytes, row_bytes, bpp)
            || n < crate::encoder::BRUTE_FORCE_COUNT,
    decreases n,
{
    if n > 1 {
        same_candidates(e, other, bytes, row_bytes, bpp, n - 1);
    }
    if n > crate::encoder::BRUTE_FORCE_COUNT {
        same_candidates(
            e,
            other,
            bytes,
            row_bytes,
            bpp,
            crate::encoder::BRUTE_FORCE_COUNT as int,
        );
    }
}

} // verus!
