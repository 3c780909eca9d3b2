//! Encoders that are told apart by nothing they write.
use crate::adam7::row_len;
use crate::ancillary::{notices_of, Ancillary};
use crate::canvas::stride_of;
use crate::carry::carrying_twice_is_carrying_once;
use crate::decoded::{opt_bytes, MetadataModel};
use crate::encoder::{cleaned16, cleaned8, color_of, FileModel, PngEncoder, BRUTE_FORCE_COUNT};
use crate::palette::PngPalette;
use crate::pixels::{ImageRef, PixelFormat, SampleSlice};
use crate::preserve::set_profile;
use crate::reduce::{be_bytes_of, quads, reductions16, reductions8, ReducedModel, ReductionsModel};
use vstd::prelude::*;

verus! {

/// Whether two accumulations hold the same payloads.
pub open spec fn holds_the_same(a: Ancillary, b: Ancillary) -> bool {
    &&& a.gamma == b.gamma
    &&& a.chrm == b.chrm
    &&& a.srgb == b.srgb
    &&& a.cicp == b.cicp
    &&& a.sbit == b.sbit
    &&& a.bkgd == b.bkgd
    &&& a.phys == b.phys
    &&& a.time == b.time
    &&& set_profile(a) == set_profile(b)
    &&& Ancillary::stored(a.exif) == Ancillary::stored(b.exif)
    &&& Ancillary::stored(a.c2pa) == Ancillary::stored(b.c2pa)
    &&& a.entries() == b.entries()
}

/// Whether two encoders make the same file of the same parts: they filter and compress alike and hold
/// the same payloads.
pub open spec fn builds_alike(e: PngEncoder, o: PngEncoder) -> bool {
    &&& e.level == o.level
    &&& e.effort == o.effort
    &&& e.filter == o.filter
    &&& holds_the_same(e.ancillary, o.ancillary)
}

proof fn same_best_candidate(
    e: PngEncoder,
    o: PngEncoder,
    bytes: Seq<u8>,
    row_bytes: int,
    bpp: int,
    n: int,
)
    requires
        builds_alike(e, o),
    ensures
        e.best_candidate(bytes, row_bytes, bpp, n) == o.best_candidate(bytes, row_bytes, bpp, n),
    decreases n,
{
    if n > 1 {
        same_best_candidate(e, o, bytes, row_bytes, bpp, n - 1);
    }
}

/// The same parts make the same file.
pub proof fn same_file(e: PngEncoder, o: PngEncoder, f: FileModel)
    requires
        builds_alike(e, o),
    ensures
        e.file_of(f) == o.file_of(f),
{
    let (a, b) = (e.ancillary, o.ancillary);
    let rb = row_len(f.header.width as int, f.header.spec_bits_per_pixel());
    let bpp = stride_of(f.header);
    same_best_candidate(e, o, f.bytes, rb, bpp, BRUTE_FORCE_COUNT as int);
    assert(e.idat_stream(f.bytes, rb, bpp) == o.idat_stream(f.bytes, rb, bpp));
    assert(a.iccp_payload(e.effort) == b.iccp_payload(o.effort));
    assert(a.pre_plte(e.effort, f.written) == b.pre_plte(o.effort, f.written));
    assert(a.post_plte_with(e.effort, f.bkgd) == b.post_plte_with(o.effort, f.bkgd));
}

proof fn same_reduced_file(e: PngEncoder, o: PngEncoder, width: u32, height: u32, m: ReducedModel)
    requires
        e.ancillary.bkgd == o.ancillary.bkgd,
    ensures
        e.reduced_file(width, height, m) == o.reduced_file(width, height, m),
{
}

/// The same candidates finish a race in the same order.
pub proof fn same_race(
    e: PngEncoder,
    o: PngEncoder,
    width: u32,
    height: u32,
    plain: FileModel,
    r: ReductionsModel,
)
    requires
        builds_alike(e, o),
    ensures
        e.raced(width, height, plain, r) == o.raced(width, height, plain, r),
{
    match r {
        ReductionsModel::Nothing => {},
        ReductionsModel::ChunkFree(m) => {
            same_reduced_file(e, o, width, height, m);
        },
        ReductionsModel::Chunked { chunked, chunk_free } => {
            same_reduced_file(e, o, width, height, chunked);
            same_file(e, o, e.reduced_file(width, height, chunked));
            same_file(e, o, plain);
            if let Some(m) = chunk_free {
                same_reduced_file(e, o, width, height, m);
                same_file(e, o, e.reduced_file(width, height, m));
            }
        },
    }
}

/// 8-bit samples are laid out the same.
pub proof fn same_layout8(
    e: PngEncoder,
    o: PngEncoder,
    width: u32,
    height: u32,
    format: PixelFormat,
    s: Seq<u8>,
)
    requires
        builds_alike(e, o),
        e.auto_reduce == o.auto_reduce,
    ensures
        e.layout8(width, height, format, s) == o.layout8(width, height, format, s),
{
    let channels = format.spec_channels();
    let plain = e.plain_file(width, height, color_of(format), 8, s);
    same_race(e, o, width, height, plain, reductions8(quads(s, channels), channels));
}

/// 16-bit samples are laid out the same.
pub proof fn same_layout16(
    e: PngEncoder,
    o: PngEncoder,
    width: u32,
    height: u32,
    format: PixelFormat,
    s: Seq<u16>,
)
    requires
        builds_alike(e, o),
        e.auto_reduce == o.auto_reduce,
    ensures
        e.layout16(width, height, format, s) == o.layout16(width, height, format, s),
{
    let plain = e.plain_file(width, height, color_of(format), 16, be_bytes_of(s));
    same_race(e, o, width, height, plain, reductions16(s, format.spec_channels()));
}

/// Whether two encoders are told apart by nothing they write.
pub open spec fn writes_alike(e: PngEncoder, o: PngEncoder) -> bool {
    &&& builds_alike(e, o)
    &&& e.auto_reduce == o.auto_reduce
    &&& e.clean_transparent == o.clean_transparent
}

/// Encoders with the same settings and payloads refuse the same annotations and write the same bytes,
/// whatever the image.
pub proof fn alike_encoders_write_the_same(e: PngEncoder, o: PngEncoder, image: ImageRef<'_>)
    requires
        writes_alike(e, o),
    ensures
        e.ancillary.is_valid() == o.ancillary.is_valid(),
        e.encoded(image) == o.encoded(image),
        e.file_of(e.encoded(image)) == o.file_of(o.encoded(image)),
{
    same_validity(e.ancillary, o.ancillary);
    let (w, h, format) = (image.spec_width(), image.spec_height(), image.spec_format());
    let channels = format.spec_channels();
    match image.spec_samples() {
        SampleSlice::B8(s) => {
            let cleaned = cleaned8(s@, channels);
            same_layout8(e, o, w, h, format, s@);
            same_layout8(e, o, w, h, format, cleaned);
            same_file(e, o, e.layout8(w, h, format, s@));
            same_file(e, o, e.layout8(w, h, format, cleaned));
        },
        SampleSlice::B16(s) => {
            let cleaned = cleaned16(s@, channels);
            same_layout16(e, o, w, h, format, s@);
            same_layout16(e, o, w, h, format, cleaned);
            same_file(e, o, e.layout16(w, h, format, s@));
            same_file(e, o, e.layout16(w, h, format, cleaned));
        },
    }
    same_file(e, o, e.encoded(image));
}

/// The same for indexed images.
pub proof fn alike_encoders_write_the_same_indices(
    e: PngEncoder,
    o: PngEncoder,
    width: u32,
    height: u32,
    indices: Seq<u8>,
    palette: PngPalette,
)
    requires
        writes_alike(e, o),
    ensures
        e.ancillary.is_valid() == o.ancillary.is_valid(),
        e.file_of(e.indexed_file(width, height, indices, palette)) == o.file_of(
            o.indexed_file(width, height, indices, palette),
        ),
{
    same_validity(e.ancillary, o.ancillary);
    assert(e.background_entry(palette) == o.background_entry(palette));
    assert(e.indexed_file(width, height, indices, palette) == o.indexed_file(
        width,
        height,
        indices,
        palette,
    ));
    same_file(e, o, e.indexed_file(width, height, indices, palette));
}

/// The same annotations are refused alike.
proof fn same_validity(a: Ancillary, b: Ancillary)
    requires
        a.entries() == b.entries(),
    ensures
        a.is_valid() == b.is_valid(),
{
    assert(a.texts@.len() == a.entries().len() && b.texts@.len() == b.entries().len());
    assert forall|i: int| 0 <= i < a.texts@.len() implies (a.texts@[i].fault is None)
        == (b.texts@[i].fault is None) by {
        assert(a.entries()[i] == b.entries()[i]);
        assert(a.entries()[i] == a.texts@[i]@ && b.entries()[i] == b.texts@[i]@);
    }
    if a.is_valid() {
        assert forall|i: int| 0 <= i < b.texts@.len() implies (#[trigger] b.texts@[i]).fault is None by {
            assert(a.texts@[i].fault is None);
        }
    }
    if b.is_valid() {
        assert forall|i: int| 0 <= i < a.texts@.len() implies (#[trigger] a.texts@[i]).fault is None by {
            assert(b.texts@[i].fault is None);
        }
    }
}

proof fn carried_twice_alike(
    before: PngEncoder,
    once: PngEncoder,
    twice: PngEncoder,
    m: MetadataModel,
)
    requires
        once.carries(before, m),
        twice.carries(once, m),
    ensures
        writes_alike(once, twice),
        twice.carry_notices@ == once.carry_notices@,
{
    carrying_twice_is_carrying_once(before, once, twice, m);
    let (a, b) = (once.ancillary, twice.ancillary);
    assert(set_profile(a) == set_profile(b)) by {
        if let Some((name, profile)) = m.icc_profile {
            assert(set_profile(a) == Some((name, profile)));
        }
    }
    assert(Ancillary::stored(a.exif) == Ancillary::stored(b.exif)) by {
        if m.exif is Some {
            assert(opt_bytes(a.exif) == opt_bytes(b.exif));
        }
    }
}

/// Carrying the same metadata twice cannot be told from carrying it once: the notices are the same, the
/// same annotations are refused, and every image, indexed or not, is encoded to the same bytes.
pub proof fn carrying_twice_writes_the_same(
    before: PngEncoder,
    once: PngEncoder,
    twice: PngEncoder,
    m: MetadataModel,
    image: ImageRef<'_>,
    palette: PngPalette,
)
    requires
        once.carries(before, m),
        twice.carries(once, m),
    ensures
        once.carry_notices@ + notices_of(once.ancillary.entries()) == twice.carry_notices@
            + notices_of(twice.ancillary.entries()),
        once.ancillary.entries() == twice.ancillary.entries(),
        once.ancillary.is_valid() == twice.ancillary.is_valid(),
        once.file_of(once.encoded(image)) == twice.file_of(twice.encoded(image)),
        ({
            let (w, h) = (image.spec_width(), image.spec_height());
            let indices = image.spec_samples()->B8_0@;
            once.file_of(once.indexed_file(w, h, indices, palette)) == twice.file_of(
                twice.indexed_file(w, h, indices, palette),
            )
        }),
{
    carried_twice_alike(before, once, twice, m);
    alike_encoders_write_the_same(once, twice, image);
    alike_encoders_write_the_same_indices(
        once,
        twice,
        image.spec_width(),
        image.spec_height(),
        image.spec_samples()->B8_0@,
        palette,
    );
}

} // verus!
