//! PNG chunk framing and the file signature (PNG §5).
//!
//! Every chunk is `length (u32 BE) || type (4 bytes) || data || CRC-32 (u32 BE)`, where the CRC
//! covers the type and the data.
use crate::bytes::{
    append, be32, be32_field, be32_low_word, be32_seq, byte_len, push_be32, read_be32,
};
use crate::crc32::{crc32_of, Crc32};
use crate::error::{Cause, Error};
use vstd::prelude::*;

verus! {

/// The 8-byte PNG file signature (`\x89PNG\r\n\x1a\n`).
pub const SIGNATURE: [u8; 8] = [0x89, 0x50, 0x4E, 0x47, 0x0D, 0x0A, 0x1A, 0x0A];

/// The image header.
pub const IHDR: [u8; 4] = [0x49, 0x48, 0x44, 0x52];

/// The palette.
pub const PLTE: [u8; 4] = [0x50, 0x4C, 0x54, 0x45];

/// Image data.
pub const IDAT: [u8; 4] = [0x49, 0x44, 0x41, 0x54];

/// The end of the stream.
pub const IEND: [u8; 4] = [0x49, 0x45, 0x4E, 0x44];

/// Transparency.
pub const TRNS: [u8; 4] = [0x74, 0x52, 0x4E, 0x53];

/// Video-signal code points.
pub const CICP: [u8; 4] = [0x63, 0x49, 0x43, 0x50];

/// Chromaticities.
pub const CHRM: [u8; 4] = [0x63, 0x48, 0x52, 0x4D];

/// Gamma.
pub const GAMA: [u8; 4] = [0x67, 0x41, 0x4D, 0x41];

/// An embedded ICC profile.
pub const ICCP: [u8; 4] = [0x69, 0x43, 0x43, 0x50];

/// Significant bits.
pub const SBIT: [u8; 4] = [0x73, 0x42, 0x49, 0x54];

/// The sRGB rendering intent.
pub const SRGB: [u8; 4] = [0x73, 0x52, 0x47, 0x42];

/// Exif metadata.
pub const EXIF: [u8; 4] = [0x65, 0x58, 0x49, 0x66];

/// The background colour.
pub const BKGD: [u8; 4] = [0x62, 0x4B, 0x47, 0x44];

/// Physical pixel dimensions.
pub const PHYS: [u8; 4] = [0x70, 0x48, 0x59, 0x73];

/// Modification time.
pub const TIME: [u8; 4] = [0x74, 0x49, 0x4D, 0x45];

/// Latin-1 text.
pub const TEXT: [u8; 4] = [0x74, 0x45, 0x58, 0x74];

/// Compressed Latin-1 text.
pub const ZTXT: [u8; 4] = [0x7A, 0x54, 0x58, 0x74];

/// International text.
pub const ITXT: [u8; 4] = [0x69, 0x54, 0x58, 0x74];

/// The C2PA manifest store (C2PA 2.4 §A.3.2).
pub const CABX: [u8; 4] = [0x63, 0x61, 0x42, 0x58];

/// The signature's bytes.
pub open spec fn signature() -> Seq<u8> {
    seq![0x89u8, 0x50, 0x4E, 0x47, 0x0D, 0x0A, 0x1A, 0x0A]
}

/// The bytes of a complete chunk. The length field holds the length modulo 2^32.
#[verifier::opaque]
pub open spec fn chunk_bytes(chunk_type: Seq<u8>, data: Seq<u8>) -> Seq<u8> {
    be32_seq(data.len() as int) + chunk_type + data + be32_seq(
        crc32_of(chunk_type + data) as int,
    )
}

/// Appends a complete chunk (`length`, `type`, `data`, `CRC`) to `out`.
pub fn write_chunk(out: &mut Vec<u8>, chunk_type: [u8; 4], data: &[u8])
    ensures
        final(out)@ == old(out)@ + chunk_bytes(chunk_type@, data@),
{
    let len: usize = byte_len(data);
    proof {
        reveal(chunk_bytes);
        be32_low_word(len as int);
    }
    push_be32(out, (len as u64 % 0x1_0000_0000) as u32);
    append(out, chunk_type.as_slice());
    append(out, data);
    let mut crc: Crc32 = Crc32::new();
    crc.update(chunk_type.as_slice());
    crc.update(data);
    assert(crc@ =~= chunk_type@ + data@);
    push_be32(out, crc.finish());
    assert(out@ =~= old(out)@ + chunk_bytes(chunk_type@, data@));
}

/// Whether two chunk types are the same.
pub fn same_type(a: [u8; 4], b: [u8; 4]) -> (same: bool)
    ensures
        same == (a@ == b@),
{
    let same: bool = a[0] == b[0] && a[1] == b[1] && a[2] == b[2] && a[3] == b[3];
    assert(same ==> a@ =~= b@);
    same
}

/// A chunk framed from the input stream (PNG §5.3).
#[derive(Clone, Copy)]
pub struct RawChunk<'a> {
    /// The 4-byte chunk type.
    pub chunk_type: [u8; 4],
    /// The chunk's data payload.
    pub data: &'a [u8],
    /// Whether the stored CRC-32 over type and data matched.
    pub crc_ok: bool,
    /// Where the chunk's length field starts in the input.
    pub start: usize,
    /// One past the chunk's last CRC byte: `start + 12 + data.len()`.
    pub end: usize,
}

/// A chunk as values: what [`RawChunk`] holds.
pub struct ChunkModel {
    pub chunk_type: Seq<u8>,
    pub data: Seq<u8>,
    pub crc_ok: bool,
    pub start: int,
    pub end: int,
}

impl View for RawChunk<'_> {
    type V = ChunkModel;

    open spec fn view(&self) -> ChunkModel {
        ChunkModel {
            chunk_type: self.chunk_type@,
            data: self.data@,
            crc_ok: self.crc_ok,
            start: self.start as int,
            end: self.end as int,
        }
    }
}

/// Whether a chunk type is ancillary: bit 5 of its first byte, i.e. lowercase (§5.4).
pub open spec fn ancillary_type(chunk_type: Seq<u8>) -> bool {
    chunk_type[0] & 0x20 != 0
}

impl RawChunk<'_> {
    /// Whether the chunk is ancillary — bit 5 of the first type byte set, i.e. lowercase (§5.4).
    pub fn is_ancillary(&self) -> (ancillary: bool)
        ensures
            ancillary == ancillary_type(self@.chunk_type),
    {
        self.chunk_type[0] & 0x20 != 0
    }
}

/// Why no chunk can be framed at `at`, if there is input left but no whole chunk.
pub open spec fn framing_fault(png: Seq<u8>, at: int) -> Option<Cause> {
    if png.len() - at < 8 {
        Some(Cause::TruncatedChunk)
    } else if be32(png, at) >= 0x8000_0000 {
        Some(Cause::ChunkTooLong)
    } else if png.len() - at - 8 < be32(png, at) {
        Some(Cause::ChunkOverrun)
    } else if png.len() - at - 8 - be32(png, at) < 4 {
        Some(Cause::TruncatedCrc)
    } else {
        None
    }
}

/// The chunk framed at `at`, where [`framing_fault`] finds no fault.
pub open spec fn chunk_at(png: Seq<u8>, at: int) -> ChunkModel {
    let len = be32(png, at);
    let chunk_type = png.subrange(at + 4, at + 8);
    let data = png.subrange(at + 8, at + 8 + len);
    ChunkModel {
        chunk_type,
        data,
        crc_ok: png.subrange(at + 8 + len, at + 12 + len) == be32_seq(
            crc32_of(chunk_type + data) as int,
        ),
        start: at,
        end: at + 12 + len,
    }
}

/// Reads the chunks of a PNG stream one after another.
pub struct ChunkReader<'a> {
    png: &'a [u8],
    offset: usize,
}

impl<'a> ChunkReader<'a> {
    /// The whole input.
    pub closed spec fn input(&self) -> Seq<u8> {
        self.png@
    }

    /// Where the next chunk starts.
    pub closed spec fn spec_offset(&self) -> int {
        self.offset as int
    }

    /// The cursor is inside the input, behind the signature.
    pub open spec fn wf(&self) -> bool {
        8 <= self.spec_offset() <= self.input().len() <= isize::MAX
    }

    /// Validates the 8-byte signature and positions the reader at the first chunk.
    pub fn new(png: &'a [u8]) -> (reader: Result<Self, Error>)
        ensures
            reader is Ok <==> signature().is_prefix_of(png@),
            reader matches Ok(r) ==> r.wf() && r.input() == png@ && r.spec_offset() == 8,
            reader matches Err(e) ==> e == (Error {
                cause: Cause::BadSignature,
                offset: Some(0),
            }),
    {
        let len: usize = byte_len(png);
        let mut i: usize = 0;
        if len < 8 {
            return Err(Error::at(Cause::BadSignature, 0));
        }
        while i < 8
            invariant
                i <= 8 <= png@.len(),
                forall|j: int| 0 <= j < i ==> png@[j] == signature()[j],
            decreases 8 - i,
        {
            assert(SIGNATURE@ =~= signature());
            assert(SIGNATURE@[i as int] == signature()[i as int]);
            if png[i] != SIGNATURE[i] {
                return Err(Error::at(Cause::BadSignature, 0));
            }
            i += 1;
        }
        assert(png@.subrange(0, 8) =~= signature());
        Ok(ChunkReader { png, offset: 8 })
    }

    /// Frames the next chunk, or `None` at end of input.
    ///
    /// A CRC mismatch is reported through [`RawChunk::crc_ok`] rather than as an error: whether it
    /// matters depends on the chunk, and that is the caller's call. An error leaves the reader at
    /// the start of the malformed chunk.
    pub fn next_chunk(&mut self) -> (chunk: Result<Option<RawChunk<'a>>, Error>)
        requires
            old(self).wf(),
        ensures
            final(self).wf(),
            final(self).input() == old(self).input(),
            ({
                let png = old(self).input();
                let at = old(self).spec_offset();
                if at == png.len() {
                    chunk matches Ok(None) && final(self).spec_offset() == at
                } else {
                    match framing_fault(png, at) {
                        Some(cause) => chunk matches Err(e) && e == (Error {
                            cause,
                            offset: Some(at as u64),
                        }) && final(self).spec_offset() == at,
                        None => chunk matches Ok(Some(c)) && c@ == chunk_at(png, at)
                            && final(self).spec_offset() == c@.end,
                    }
                }
            }),
    {
        let at: usize = self.offset;
        let png: &'a [u8] = self.png;
        let left: usize = png.len() - at;
        if left == 0 {
            return Ok(None);
        }
        let offset: u64 = at as u64;
        if left < 8 {
            return Err(Error::at(Cause::TruncatedChunk, offset));
        }
        let length: u32 = read_be32(png, at);
        if length >= 0x8000_0000 {
            return Err(Error::at(Cause::ChunkTooLong, offset));
        }
        let len: usize = length as usize;
        if left - 8 < len {
            return Err(Error::at(Cause::ChunkOverrun, offset));
        }
        if left - 8 - len < 4 {
            return Err(Error::at(Cause::TruncatedCrc, offset));
        }
        let chunk_type: [u8; 4] = [png[at + 4], png[at + 5], png[at + 6], png[at + 7]];
        assert(chunk_type@ =~= png@.subrange(at + 4, at + 8));
        let data: &'a [u8] = &png[at + 8..at + 8 + len];
        let mut crc: Crc32 = Crc32::new();
        crc.update(chunk_type.as_slice());
        crc.update(data);
        assert(crc@ =~= chunk_type@ + data@);
        let stored: u32 = read_be32(png, at + 8 + len);
        let computed: u32 = crc.finish();
        let crc_ok: bool = computed == stored;
        proof {
            let field = png@.subrange(at + 8 + len, at + 12 + len);
            assert(be32(field, 0) == stored);
            be32_field(field, computed);
        }
        self.offset = at + 12 + len;
        Ok(Some(RawChunk { chunk_type, data, crc_ok, start: at, end: at + 12 + len }))
    }

    /// The reader's cursor: the offset of the next chunk header, or — after
    /// [`ChunkReader::next_chunk`] has returned an error — the start of the malformed one.
    pub fn offset(&self) -> (offset: usize)
        ensures
            offset == self.spec_offset(),
    {
        self.offset
    }
}

/// Reading at the place where a chunk was written gives the chunk back, with a matching CRC, and
/// ends where the chunk ends.
pub proof fn written_chunk_reads_back(
    before: Seq<u8>,
    chunk_type: Seq<u8>,
    data: Seq<u8>,
    after: Seq<u8>,
)
    requires
        chunk_type.len() == 4,
        data.len() < 0x8000_0000,
    ensures
        ({
            let png = before + chunk_bytes(chunk_type, data) + after;
            let at = before.len() as int;
            &&& framing_fault(png, at) is None
            &&& chunk_at(png, at) == (ChunkModel {
                chunk_type,
                data,
                crc_ok: true,
                start: at,
                end: at + chunk_bytes(chunk_type, data).len(),
            })
        }),
{
    reveal(chunk_bytes);
    let chunk = chunk_bytes(chunk_type, data);
    let png = before + chunk + after;
    let at = before.len() as int;
    let len = data.len() as int;
    crate::bytes::be32_round_trip(len as u32);
    let head = be32_seq(len);
    assert(png[at] == head[0] && png[at + 1] == head[1] && png[at + 2] == head[2] && png[at + 3]
        == head[3]);
    assert(be32(png, at) == len);
    assert(png.subrange(at + 4, at + 8) =~= chunk_type);
    assert(png.subrange(at + 8, at + 8 + len) =~= data);
    assert(png.subrange(at + 8 + len, at + 12 + len) =~= be32_seq(
        crc32_of(chunk_type + data) as int,
    ));
}

} // verus!
