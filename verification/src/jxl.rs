//! The metadata of a JPEG XL stream: a walk over the boxes of its ISO BMFF container.
//!
//! The walk is the plain top-level box sequence of ISO/IEC 14496-12 §4.2: a 32-bit size, a size of 1
//! with a 64-bit size behind the type, a size of 0 meaning "to the end of the file". Box contents are
//! never interpreted beyond the two metadata types.
use crate::bytes::{be32, be32_round_trip, be32_seq, byte_len, read_be32};
use crate::chunk::same_type;
use crate::error::{failed, Cause, Error};
use crate::metadata::{BlockModel, MetadataBlock};
use vstd::prelude::*;
use vstd::slice::slice_to_vec;

verus! {

/// The type of a box holding EXIF data.
pub const EXIF_BOX: [u8; 4] = [0x45, 0x78, 0x69, 0x66];

/// The type of a box holding an XMP packet.
pub const XML_BOX: [u8; 4] = [0x78, 0x6D, 0x6C, 0x20];

/// The type of a Brotli-compressed box.
pub const BROB_BOX: [u8; 4] = [0x62, 0x72, 0x6F, 0x62];

/// The smallest box header: a 4-byte size and a 4-byte type.
pub const MIN_BOX_HEADER: usize = 8;

/// The 64-bit box header: the smallest one and the 8-byte size that follows the type.
pub const LARGE_BOX_HEADER: usize = 16;

/// The 12-byte container signature box.
pub const CONTAINER_SIGNATURE: [u8; 12] = [
    0x00, 0x00, 0x00, 0x0C, 0x4A, 0x58, 0x4C, 0x20, 0x0D, 0x0A, 0x87, 0x0A,
];

/// The value of the eight bytes of `s` at `i`, most significant first.
pub open spec fn be64(s: Seq<u8>, i: int) -> int {
    be32(s, i) * 0x1_0000_0000 + be32(s, i + 4)
}

/// What a box header says: the type, the header's length, and the whole box's length.
pub struct BoxHeader {
    pub box_type: Seq<u8>,
    pub header_len: int,
    pub box_len: int,
}

/// The box header at the start of `data`, or `None` where `data` is too short for it.
pub open spec fn box_header(data: Seq<u8>) -> Option<BoxHeader> {
    if data.len() < 8 {
        None
    } else {
        let box_type = data.subrange(4, 8);
        let size = be32(data, 0);
        if size == 0 {
            Some(BoxHeader { box_type, header_len: 8, box_len: data.len() as int })
        } else if size == 1 {
            if data.len() < 16 {
                None
            } else {
                Some(BoxHeader { box_type, header_len: 16, box_len: be64(data, 8) })
            }
        } else {
            Some(BoxHeader { box_type, header_len: 8, box_len: size })
        }
    }
}

/// Parses the box header at the start of `data`: its type, the length of the header itself, and the
/// length of the whole box as the header declares it. A length no address space can hold saturates.
pub fn parse_box_header(data: &[u8]) -> (header: Result<([u8; 4], usize, usize), Error>)
    ensures
        match box_header(data@) {
            None => failed(header, Cause::TruncatedBoxHeader),
            Some(h) => header matches Ok((box_type, header_len, box_len)) && box_type@ == h.box_type
                && header_len == h.header_len && box_len == (if h.box_len <= usize::MAX {
                h.box_len
            } else {
                usize::MAX as int
            }),
        },
{
    if data.len() < 8 {
        return Err(Error::new(Cause::TruncatedBoxHeader));
    }
    let box_type: [u8; 4] = [data[4], data[5], data[6], data[7]];
    assert(box_type@ =~= data@.subrange(4, 8));
    let size: u32 = read_be32(data, 0);
    if size == 0 {
        Ok((box_type, MIN_BOX_HEADER, data.len()))
    } else if size == 1 {
        if data.len() < 16 {
            return Err(Error::new(Cause::TruncatedBoxHeader));
        }
        let large: u64 = read_be32(data, 8) as u64 * 0x1_0000_0000 + read_be32(data, 12) as u64;
        let box_len: usize = if large <= usize::MAX as u64 {
            large as usize
        } else {
            usize::MAX
        };
        Ok((box_type, LARGE_BOX_HEADER, box_len))
    } else {
        Ok((box_type, MIN_BOX_HEADER, size as usize))
    }
}

/// The TIFF stream of an `Exif` box payload: what follows the 4-byte big-endian offset and as many
/// further bytes as it says (ISO/IEC 23008-12 §A.2.1).
pub open spec fn tiff_stream(payload: Seq<u8>) -> Result<Seq<u8>, Cause> {
    if payload.len() < 4 {
        Err(Cause::TruncatedExifBox)
    } else if be32(payload, 0) > payload.len() - 4 {
        Err(Cause::ExifOffset)
    } else {
        Ok(payload.skip(4 + be32(payload, 0)))
    }
}

/// The TIFF stream of an `Exif` box payload.
pub fn exif_box_tiff_stream(payload: &[u8]) -> (stream: Result<&[u8], Error>)
    ensures
        match tiff_stream(payload@) {
            Err(cause) => failed(stream, cause),
            Ok(bytes) => stream matches Ok(s) && s@ == bytes,
        },
{
    if payload.len() < 4 {
        return Err(Error::new(Cause::TruncatedExifBox));
    }
    let offset: u32 = read_be32(payload, 0);
    if offset as usize > payload.len() - 4 {
        return Err(Error::new(Cause::ExifOffset));
    }
    let stream: &[u8] = &payload[4 + offset as usize..payload.len()];
    assert(stream@ =~= payload@.skip(4 + offset));
    Ok(stream)
}

/// The metadata boxes found so far.
pub struct Located {
    pub exif: Option<Seq<u8>>,
    pub xmp: Option<Seq<u8>>,
}

/// No metadata box found yet.
pub open spec fn nothing_located() -> Located {
    Located { exif: None, xmp: None }
}

/// What a box adds to what was found: the first of a kind wins.
pub open spec fn taken(box_type: Seq<u8>, body: Seq<u8>, found: Located) -> Result<Located, Cause> {
    if box_type == BROB_BOX@ {
        if body.len() < 4 {
            Err(Cause::TruncatedBrob)
        } else if body.subrange(0, 4) == EXIF_BOX@ || body.subrange(0, 4) == XML_BOX@ {
            Err(Cause::BrotliMetadata)
        } else {
            Ok(found)
        }
    } else if box_type == EXIF_BOX@ && found.exif is None {
        match tiff_stream(body) {
            Err(cause) => Err(cause),
            Ok(stream) => Ok(Located { exif: Some(stream), ..found }),
        }
    } else if box_type == XML_BOX@ && found.xmp is None {
        Ok(Located { xmp: Some(body), ..found })
    } else {
        Ok(found)
    }
}

/// The metadata boxes of a box sequence, added to what was found before it.
pub open spec fn located(data: Seq<u8>, found: Located) -> Result<Located, Cause>
    decreases data.len(),
{
    if data.len() == 0 {
        Ok(found)
    } else {
        match box_header(data) {
            None => Err(Cause::TruncatedBoxHeader),
            Some(h) => if h.box_len > data.len() {
                Err(Cause::BoxOverrun)
            } else if h.box_len < 8 || h.header_len > h.box_len {
                Err(Cause::MalformedBoxSize)
            } else {
                match taken(h.box_type, data.subrange(h.header_len, h.box_len), found) {
                    Err(cause) => Err(cause),
                    Ok(next) => located(data.skip(h.box_len), next),
                }
            },
        }
    }
}

/// An optional byte vector as a value.
pub open spec fn payload_of(bytes: Option<Vec<u8>>) -> Option<Seq<u8>> {
    match bytes {
        Some(b) => Some(b@),
        None => None,
    }
}

/// Takes up one box.
fn take_box(
    box_type: [u8; 4],
    body: &[u8],
    exif: &mut Option<Vec<u8>>,
    xmp: &mut Option<Vec<u8>>,
) -> (done: Result<(), Error>)
    ensures
        match taken(
            box_type@,
            body@,
            Located { exif: payload_of(*old(exif)), xmp: payload_of(*old(xmp)) },
        ) {
            Err(cause) => failed(done, cause),
            Ok(next) => done is Ok && payload_of(*final(exif)) == next.exif && payload_of(
                *final(xmp),
            ) == next.xmp,
        },
{
    if same_type(box_type, BROB_BOX) {
        if body.len() < 4 {
            return Err(Error::new(Cause::TruncatedBrob));
        }
        let inner: [u8; 4] = [body[0], body[1], body[2], body[3]];
        assert(inner@ =~= body@.subrange(0, 4));
        if same_type(inner, EXIF_BOX) || same_type(inner, XML_BOX) {
            return Err(Error::new(Cause::BrotliMetadata));
        }
    } else if same_type(box_type, EXIF_BOX) && exif.is_none() {
        match exif_box_tiff_stream(body) {
            Ok(stream) => {
                *exif = Some(slice_to_vec(stream));
            },
            Err(e) => {
                return Err(e);
            },
        }
    } else if same_type(box_type, XML_BOX) && xmp.is_none() {
        *xmp = Some(slice_to_vec(body));
    }
    Ok(())
}

/// Locates the `Exif` and `xml ` boxes of a container: the TIFF stream behind the `Exif` box's
/// offset, and the `xml ` payload verbatim. Of a duplicated box the first wins.
pub fn container_metadata_boxes(data: &[u8]) -> (boxes: Result<
    (Option<Vec<u8>>, Option<Vec<u8>>),
    Error,
>)
    ensures
        match located(data@, nothing_located()) {
            Err(cause) => failed(boxes, cause),
            Ok(found) => boxes matches Ok((exif, xmp)) && payload_of(exif) == found.exif
                && payload_of(xmp) == found.xmp,
        },
{
    let len: usize = byte_len(data);
    let mut exif: Option<Vec<u8>> = None;
    let mut xmp: Option<Vec<u8>> = None;
    let mut at: usize = 0;
    let ghost whole = located(data@, nothing_located());
    assert(data@.skip(0) =~= data@);
    while at < len
        invariant
            at <= len == data@.len(),
            len <= isize::MAX,
            whole == located(data@, nothing_located()),
            whole == located(
                data@.skip(at as int),
                Located { exif: payload_of(exif), xmp: payload_of(xmp) },
            ),
        decreases len - at,
    {
        let rest: &[u8] = &data[at..len];
        assert(rest@ =~= data@.skip(at as int));
        let (box_type, header_len, box_len): ([u8; 4], usize, usize) = match parse_box_header(rest) {
            Ok(header) => header,
            Err(e) => {
                return Err(e);
            },
        };
        if box_len > rest.len() {
            return Err(Error::new(Cause::BoxOverrun));
        }
        if box_len < MIN_BOX_HEADER {
            return Err(Error::new(Cause::MalformedBoxSize));
        }
        if header_len > box_len {
            return Err(Error::new(Cause::MalformedBoxSize));
        }
        let body: &[u8] = &rest[header_len..box_len];
        match take_box(box_type, body, &mut exif, &mut xmp) {
            Ok(()) => {},
            Err(e) => {
                return Err(e);
            },
        }
        assert(rest@.skip(box_len as int) =~= data@.skip(at + box_len));
        at = at + box_len;
    }
    Ok((exif, xmp))
}

/// The bytes of a box in the 32-bit size form.
pub open spec fn box_bytes(box_type: Seq<u8>, body: Seq<u8>) -> Seq<u8> {
    be32_seq(8 + body.len() as int) + box_type + body
}

/// A box that was framed is taken up whole, whatever follows it: its type and its payload, and the
/// walk goes on behind it.
pub proof fn a_framed_box_is_read(
    box_type: Seq<u8>,
    body: Seq<u8>,
    rest: Seq<u8>,
    found: Located,
)
    requires
        box_type.len() == 4,
        8 + body.len() <= u32::MAX,
    ensures
        located(box_bytes(box_type, body) + rest, found) == (match taken(box_type, body, found) {
            Err(cause) => Err(cause),
            Ok(next) => located(rest, next),
        }),
{
    let data = box_bytes(box_type, body) + rest;
    let size = (8 + body.len()) as u32;
    let head = be32_seq(size as int);
    be32_round_trip(size);
    assert(data[0] == head[0] && data[1] == head[1] && data[2] == head[2] && data[3] == head[3]);
    assert(be32(data, 0) == size);
    assert(data.subrange(4, 8) =~= box_type);
    assert(data.subrange(8, size as int) =~= body);
    assert(data.skip(size as int) =~= rest);
}

/// A box of a kind already found changes nothing: the first wins.
pub proof fn the_first_box_wins(found: Located, body: Seq<u8>)
    ensures
        found.exif is Some ==> taken(EXIF_BOX@, body, found) == Ok::<Located, Cause>(found),
        found.xmp is Some ==> taken(XML_BOX@, body, found) == Ok::<Located, Cause>(found),
{
    assert(EXIF_BOX@[0] != BROB_BOX@[0]);
    assert(XML_BOX@[0] != BROB_BOX@[0]);
    assert(XML_BOX@[0] != EXIF_BOX@[0]);
}

/// How a JPEG XL stream is framed.
#[derive(Debug, Clone, Copy, PartialEq, Eq, Structural)]
pub enum JxlFraming {
    /// A bare codestream.
    Codestream,
    /// An ISO BMFF container.
    IsoBmff,
    /// Neither signature.
    Unknown,
}

/// The framing a stream's first bytes announce.
pub open spec fn framing_of(data: Seq<u8>) -> JxlFraming {
    if seq![0xFFu8, 0x0A].is_prefix_of(data) {
        JxlFraming::Codestream
    } else if CONTAINER_SIGNATURE@.is_prefix_of(data) {
        JxlFraming::IsoBmff
    } else {
        JxlFraming::Unknown
    }
}

impl JxlFraming {
    /// The framing a stream's first bytes announce.
    pub fn detect(data: &[u8]) -> (framing: Self)
        ensures
            framing == framing_of(data@),
    {
        let bare: bool = data.len() >= 2 && data[0] == 0xFF && data[1] == 0x0A;
        if bare {
            assert(data@.subrange(0, 2) =~= seq![0xFFu8, 0x0A]);
            return JxlFraming::Codestream;
        }
        proof {
            let signature = seq![0xFFu8, 0x0A];
            if signature.is_prefix_of(data@) {
                assert(data@.subrange(0, 2) == signature);
                assert(data@[0] == signature[0] && data@[1] == signature[1]);
            }
        }
        if data.len() < 12 {
            return JxlFraming::Unknown;
        }
        let mut i: usize = 0;
        while i < 12
            invariant
                i <= 12 <= data@.len(),
                !seq![0xFFu8, 0x0A].is_prefix_of(data@),
                forall|j: int| 0 <= j < i ==> data@[j] == CONTAINER_SIGNATURE@[j],
            decreases 12 - i,
        {
            if data[i] != CONTAINER_SIGNATURE[i] {
                assert(data@.subrange(0, 12)[i as int] != CONTAINER_SIGNATURE@[i as int]);
                return JxlFraming::Unknown;
            }
            i += 1;
        }
        assert(data@.subrange(0, 12) =~= CONTAINER_SIGNATURE@);
        JxlFraming::IsoBmff
    }
}

/// Embedded metadata located in a JPEG XL stream: the container's `Exif` and `xml ` boxes and the
/// codestream's ICC profile.
#[derive(Debug, Clone, PartialEq, Eq)]
#[non_exhaustive]
pub struct JxlMetadata {
    /// The EXIF TIFF stream: the `Exif` box payload with its leading offset applied.
    pub exif: Option<Vec<u8>>,
    /// The XMP packet: the `xml ` box payload, verbatim.
    pub xmp: Option<Vec<u8>>,
    /// The ICC profile embedded in the codestream's colour encoding.
    pub icc: Option<Vec<u8>>,
}

impl Default for JxlMetadata {
    /// No metadata.
    fn default() -> (metadata: Self)
        ensures
            metadata.exif is None,
            metadata.xmp is None,
            metadata.icc is None,
    {
        JxlMetadata { exif: None, xmp: None, icc: None }
    }
}

/// The block of a payload that is there.
pub open spec fn one_block(payload: Option<Seq<u8>>, block: BlockModel) -> Seq<BlockModel> {
    if payload is Some {
        seq![block]
    } else {
        Seq::empty()
    }
}

impl JxlMetadata {
    /// The located payloads by carrier, each present only where the stream carried it.
    pub open spec fn spec_blocks(&self) -> Seq<BlockModel> {
        one_block(payload_of(self.exif), BlockModel::Exif(payload_of(self.exif)->0)) + one_block(
            payload_of(self.xmp),
            BlockModel::Xmp(payload_of(self.xmp)->0),
        ) + one_block(payload_of(self.icc), BlockModel::Icc(payload_of(self.icc)->0))
    }

    /// The located payloads as [`MetadataBlock`]s: the EXIF TIFF stream, the XMP packet and the ICC
    /// profile, in that order, each present only where the stream carried it.
    #[must_use]
    pub fn blocks(&self) -> (blocks: Vec<MetadataBlock<'_>>)
        ensures
            blocks@.map_values(|b: MetadataBlock<'_>| b@) == self.spec_blocks(),
    {
        let mut blocks: Vec<MetadataBlock<'_>> = Vec::new();
        if let Some(exif) = &self.exif {
            blocks.push(MetadataBlock::Exif(exif.as_slice()));
        }
        if let Some(xmp) = &self.xmp {
            blocks.push(MetadataBlock::Xmp(xmp.as_slice()));
        }
        if let Some(icc) = &self.icc {
            blocks.push(MetadataBlock::Icc(icc.as_slice()));
        }
        assert(blocks@.map_values(|b: MetadataBlock<'_>| b@) =~= self.spec_blocks());
        blocks
    }
}

/// What a stream's metadata is, given what its codestream says of an ICC profile: a bare codestream
/// has no boxes, and a stream of neither framing is refused before its codestream is looked at.
pub open spec fn stream_metadata(data: Seq<u8>) -> Result<Located, Cause> {
    match framing_of(data) {
        JxlFraming::IsoBmff => located(data, nothing_located()),
        JxlFraming::Codestream => Ok(nothing_located()),
        JxlFraming::Unknown => Err(Cause::UnknownFraming),
    }
}

} // verus!
