//! The box layouts of a JPEG XL container, and what is found in them; the place of a manifest store in a
//! PNG file; which formats carry what.
use crate::bytes::{be32, be32_round_trip, be32_seq};
use crate::capability::{is_wired, reads, writes, Carrier, Format};
use crate::chunk::{chunk_at, signature, CABX, IDAT, IEND};
use crate::error::Cause;
use crate::frames::{first_idat, frame_at, frames, is_cabx, is_idat, one_chunk, spelled, Frame};
use crate::jxl::{JxlMetadata,
    framing_of, located, stream_metadata, taken, tiff_stream, Located, BROB_BOX,
    CONTAINER_SIGNATURE, EXIF_BOX, XML_BOX,
};
use crate::metadata::BlockModel;
use crate::store::{store_from, store_of};
use vstd::prelude::*;

verus! {

/// The types of the boxes, letter by letter, and the first bytes of a stream.
pub proof fn box_types_are_spelled()
    ensures
        EXIF_BOX@ == seq!['E' as u8, 'x' as u8, 'i' as u8, 'f' as u8],
        XML_BOX@ == seq!['x' as u8, 'm' as u8, 'l' as u8, ' ' as u8],
        BROB_BOX@ == seq!['b' as u8, 'r' as u8, 'o' as u8, 'b' as u8],
        CONTAINER_SIGNATURE@ == seq![0u8, 0, 0, 12, 74, 88, 76, 32, 13, 10, 135, 10],
{
    assert(EXIF_BOX@ =~= seq![0x45u8, 0x78, 0x69, 0x66]);
    assert(XML_BOX@ =~= seq![0x78u8, 0x6D, 0x6C, 0x20]);
    assert(BROB_BOX@ =~= seq![0x62u8, 0x72, 0x6F, 0x62]);
    assert(CONTAINER_SIGNATURE@ =~= seq![0u8, 0, 0, 12, 74, 88, 76, 32, 13, 10, 135, 10]);
}

/// A stream that starts with FF 0A is a bare codestream, one that starts with the signature box is a
/// container, and any other is neither.
pub proof fn streams_are_told_apart(data: Seq<u8>)
    ensures
        framing_of(data) is Codestream <==> data.len() >= 2 && data[0] == 0xFF && data[1] == 0x0A,
        framing_of(data) is IsoBmff <==> data.len() >= 12 && data.subrange(0, 12) == seq![
            0u8,
            0,
            0,
            12,
            74,
            88,
            76,
            32,
            13,
            10,
            135,
            10,
        ],
        framing_of(data) is Unknown ==> stream_metadata(data) == Err::<Located, Cause>(
            Cause::UnknownFraming,
        ),
        framing_of(data) is Codestream ==> stream_metadata(data) == Ok::<Located, Cause>(
            Located { exif: None, xmp: None },
        ),
        framing_of(data) is IsoBmff ==> stream_metadata(data) == located(
            data,
            Located { exif: None, xmp: None },
        ),
{
    box_types_are_spelled();
    let bare = seq![0xFFu8, 0x0A];
    let box_ = seq![0u8, 0, 0, 12, 74, 88, 76, 32, 13, 10, 135, 10];
    assert(bare[0] == 0xFF && bare[1] == 0x0A && box_[0] == 0);
    if data.len() >= 2 {
        assert(data.subrange(0, 2)[0] == data[0] && data.subrange(0, 2)[1] == data[1]);
        if data[0] == 0xFF && data[1] == 0x0A {
            assert(data.subrange(0, 2) =~= bare);
        }
    }
    if data.len() >= 12 {
        assert(data.subrange(0, 12)[0] == data[0]);
    }
}

/// A box whose size field is 1 has its size in eight bytes behind the type, and one whose size field is 0
/// reaches to the end.
pub proof fn large_and_last_boxes_are_read(
    box_type: Seq<u8>,
    body: Seq<u8>,
    rest: Seq<u8>,
    found: Located,
)
    requires
        box_type.len() == 4,
        16 + body.len() <= 0xFFFF_FFFF,
    ensures
        located(
            seq![0u8, 0, 0, 1] + box_type + seq![0u8, 0, 0, 0] + be32_seq(16 + body.len() as int) + body
                + rest,
            found,
        ) == (match taken(box_type, body, found) {
            Err(cause) => Err(cause),
            Ok(next) => located(rest, next),
        }),
        located(seq![0u8, 0, 0, 0] + box_type + body, found) == taken(box_type, body, found),
{
    let n = (16 + body.len()) as u32;
    let field = be32_seq(n as int);
    be32_round_trip(n);
    let large = seq![0u8, 0, 0, 1] + box_type + seq![0u8, 0, 0, 0] + field + body + rest;
    assert(large[0] == 0 && large[1] == 0 && large[2] == 0 && large[3] == 1);
    assert(large[8] == 0 && large[9] == 0 && large[10] == 0 && large[11] == 0);
    assert(large[12] == field[0] && large[13] == field[1] && large[14] == field[2] && large[15]
        == field[3]);
    assert(be32(large, 0) == 1);
    assert(be32(large, 8) == 0 && be32(large, 12) == n);
    assert(large.subrange(4, 8) =~= box_type);
    assert(large.subrange(16, n as int) =~= body);
    assert(large.skip(n as int) =~= rest);
    let last = seq![0u8, 0, 0, 0] + box_type + body;
    assert(last[0] == 0 && last[1] == 0 && last[2] == 0 && last[3] == 0);
    assert(last.subrange(4, 8) =~= box_type);
    assert(last.subrange(8, last.len() as int) =~= body);
    assert(last.skip(last.len() as int) =~= Seq::<u8>::empty());
    assert(be32(last, 0) == 0);
    reveal_with_fuel(located, 2);
}

/// A box header takes eight bytes, or sixteen where the size field is 1; a size is never under eight nor over
/// what is there, and nothing is left of a container that is cut off.
pub proof fn malformed_boxes_are_refused(data: Seq<u8>, found: Located)
    ensures
        data.len() == 0 ==> located(data, found) == Ok::<Located, Cause>(found),
        0 < data.len() < 8 ==> located(data, found) == Err::<Located, Cause>(Cause::TruncatedBoxHeader),
        data.len() >= 8 && 2 <= spelled(data.subrange(0, 4)) < 8 ==> located(data, found) == Err::<
            Located,
            Cause,
        >(Cause::MalformedBoxSize),
        data.len() >= 8 && spelled(data.subrange(0, 4)) > data.len() ==> located(data, found) == Err::<
            Located,
            Cause,
        >(Cause::BoxOverrun),
        8 <= data.len() < 16 && spelled(data.subrange(0, 4)) == 1 ==> located(data, found) == Err::<
            Located,
            Cause,
        >(Cause::TruncatedBoxHeader),
        data.len() >= 16 && spelled(data.subrange(0, 4)) == 1 ==> {
            let size = spelled(data.subrange(8, 12)) * 0x1_0000_0000 + spelled(data.subrange(12, 16));
            &&& size < 16 ==> located(data, found) == Err::<Located, Cause>(Cause::MalformedBoxSize)
            &&& size > data.len() ==> located(data, found) == Err::<Located, Cause>(Cause::BoxOverrun)
        },
{
    if data.len() >= 8 {
        assert(spelled(data.subrange(0, 4)) == be32(data, 0));
    }
    if data.len() >= 16 {
        assert(spelled(data.subrange(8, 12)) == be32(data, 8));
        assert(spelled(data.subrange(12, 16)) == be32(data, 12));
    }
}

/// What a box holds, by its type: an `Exif` box the stream behind its offset, an `xml ` box the packet as it
/// is. A compressed box is refused where it stands for either of them. Any other box is passed over.
pub proof fn what_a_box_adds(box_type: Seq<u8>, body: Seq<u8>, found: Located)
    requires
        box_type.len() == 4,
    ensures
        ({
            let got = taken(box_type, body, found);
            let exif = seq![0x45u8, 0x78, 0x69, 0x66];
            let xml = seq![0x78u8, 0x6D, 0x6C, 0x20];
            let brob = seq![0x62u8, 0x72, 0x6F, 0x62];
            &&& box_type == xml && found.xmp is None ==> got == Ok::<Located, Cause>(
                Located { xmp: Some(body), ..found },
            )
            &&& box_type == exif && found.exif is None ==> match tiff_stream(body) {
                Ok(stream) => got == Ok::<Located, Cause>(Located { exif: Some(stream), ..found }),
                Err(cause) => got == Err::<Located, Cause>(cause),
            }
            &&& box_type == exif && found.exif is Some ==> got == Ok::<Located, Cause>(found)
            &&& box_type == xml && found.xmp is Some ==> got == Ok::<Located, Cause>(found)
            &&& box_type == brob && body.len() < 4 ==> got == Err::<Located, Cause>(Cause::TruncatedBrob)
            &&& box_type == brob && body.len() >= 4 ==> got == (if body.subrange(0, 4) == exif
                || body.subrange(0, 4) == xml {
                Err::<Located, Cause>(Cause::BrotliMetadata)
            } else {
                Ok(found)
            })
            &&& box_type != exif && box_type != xml && box_type != brob ==> got == Ok::<Located, Cause>(
                found,
            )
        }),
{
    box_types_are_spelled();
    assert(EXIF_BOX@[0] == 0x45 && XML_BOX@[0] == 0x78 && BROB_BOX@[0] == 0x62);
}

/// An EXIF stream stands behind a four-byte offset and as many bytes as that says.
pub proof fn an_exif_offset_is_skipped(prefix: Seq<u8>, stream: Seq<u8>, payload: Seq<u8>)
    requires
        prefix.len() <= 0xFFFF_FFFF,
    ensures
        tiff_stream(be32_seq(prefix.len() as int) + prefix + stream) == Ok::<Seq<u8>, Cause>(stream),
        payload.len() < 4 ==> tiff_stream(payload) == Err::<Seq<u8>, Cause>(Cause::TruncatedExifBox),
        payload.len() >= 4 && spelled(payload.subrange(0, 4)) + 4 > payload.len() ==> tiff_stream(payload)
            == Err::<Seq<u8>, Cause>(Cause::ExifOffset),
{
    let n = prefix.len() as u32;
    let data = be32_seq(n as int) + prefix + stream;
    be32_round_trip(n);
    let field = be32_seq(n as int);
    assert(data[0] == field[0] && data[1] == field[1] && data[2] == field[2] && data[3] == field[3]);
    assert(be32(data, 0) == n);
    assert(data.skip(4 + n) =~= stream);
    if payload.len() >= 4 {
        assert(spelled(payload.subrange(0, 4)) == be32(payload, 0));
    }
}

/// The first intact caBX of a list of chunks up to `d`, or `d` where there is none.
pub open spec fn first_store(list: Seq<Frame>, d: int, i: int) -> bool {
    &&& 0 <= i <= d
    &&& forall|j: int| 0 <= j < i ==> !(is_cabx(#[trigger] list[j]) && list[j].intact)
    &&& i < d ==> is_cabx(list[i]) && list[i].intact
}

proof fn store_found_from(png: Seq<u8>, at: int, d: int, i: int)
    requires
        at >= 0,
        frames(png, at) is Some,
        first_idat(frames(png, at)->0, d),
        first_store(frames(png, at)->0, d, i),
    ensures
        i == d ==> store_from(png, at) is None,
        i < d ==> (store_from(png, at) matches Some((start, end)) && at <= start && end <= png.len() && end
            - start == 12 + frames(png, at)->0[i].data.len() && png.subrange(start + 8, end - 4)
            == frames(png, at)->0[i].data),
    decreases png.len() - at,
{
    one_chunk(png, at);
    let list = frames(png, at)->0;
    let f = frame_at(png, at)->0;
    let c = chunk_at(png, at);
    assert(IDAT@ =~= seq![0x49u8, 0x44, 0x41, 0x54]);
    assert(IEND@ =~= seq![0x49u8, 0x45, 0x4E, 0x44]);
    assert(CABX@ =~= seq![0x63u8, 0x61, 0x42, 0x58]);
    assert(list[0] == f);
    assert(is_cabx(f) ==> f.name[0] == 0x63);
    assert(IDAT@[0] == 0x49 && IEND@[0] == 0x49 && IEND@[1] == 0x45 && IDAT@[1] == 0x44);
    if f.name == IEND@ {
        if i < d {
            assert(list[i] == f);
        }
    } else {
        let rest = frames(png, c.end)->0;
        assert forall|j: int| 0 <= j < rest.len() implies #[trigger] rest[j] == list[j + 1] by {}
        if is_idat(f) {
            assert(d == 0);
        } else if is_cabx(f) && f.intact {
            assert(d > 0);
            assert(i == 0);
            assert(png.subrange(c.start + 8, c.end - 4) =~= f.data);
        } else {
            assert(d > 0);
            assert(i > 0);
            assert(first_idat(rest, d - 1));
            assert(first_store(rest, d - 1, i - 1));
            store_found_from(png, c.end, d - 1, i - 1);
        }
    }
}

/// The manifest store of a file is its first intact caBX before the first IDAT, and is found where that
/// chunk stands, its payload with it.
pub proof fn the_store_is_the_first_before_the_image(png: Seq<u8>, d: int, i: int)
    requires
        signature().is_prefix_of(png),
        frames(png, 8) is Some,
        first_idat(frames(png, 8)->0, d),
        first_store(frames(png, 8)->0, d, i),
    ensures
        i == d ==> store_of(png) is None,
        i < d ==> (store_of(png) matches Some((start, end)) && 8 <= start && end <= png.len() && end - start
            == 12 + frames(png, 8)->0[i].data.len() && png.subrange(start + 8, end - 4)
            == frames(png, 8)->0[i].data),
{
    store_found_from(png, 8, d, i);
}

/// What each format locates and writes, and which of them expose typed models.
pub proof fn what_each_format_carries(format: Format, carrier: Carrier)
    ensures
        reads(format, carrier) <==> match (format, carrier) {
            (Format::Tiff, _) => false,
            (Format::Dng, Carrier::IptcIim) => true,
            (Format::Heic, Carrier::C2pa) => true,
            (_, Carrier::Exif) => true,
            (_, Carrier::Xmp) => true,
            (_, Carrier::Icc) => true,
            _ => false,
        },
        writes(format, carrier) <==> match (format, carrier) {
            (Format::Tiff, _) => false,
            (Format::Heic, _) => false,
            (Format::Dng, Carrier::IptcIim) => true,
            (_, Carrier::Exif) => true,
            (_, Carrier::Xmp) => true,
            (_, Carrier::Icc) => true,
            _ => false,
        },
        is_wired(format) <==> match format {
            Format::Jpeg | Format::Heic | Format::Jxl | Format::Dng => true,
            Format::Png | Format::WebP | Format::Avif | Format::Tiff => false,
        },
{
}

/// The blocks of a stream's metadata are those of its carriers that are there, EXIF before XMP before ICC.
pub proof fn blocks_are_in_order(m: JxlMetadata)
    ensures
        ({
            let b = m.spec_blocks();
            let (e, x, i) = (m.exif is Some, m.xmp is Some, m.icc is Some);
            &&& b.len() == (if e {
                1int
            } else {
                0
            }) + (if x {
                1int
            } else {
                0
            }) + (if i {
                1int
            } else {
                0
            })
            &&& e ==> b[0] == BlockModel::Exif(m.exif->0@)
            &&& x ==> b[if e {
                1
            } else {
                0
            }] == BlockModel::Xmp(m.xmp->0@)
            &&& i ==> b.last() == BlockModel::Icc(m.icc->0@)
        }),
{
}

} // verus!
