//! The pixels a reader of an encoded file sees.
use crate::decoder::{
    entry_sample, keyed_gray, keyed_rgb, limit_fault, looked_up, masked, palette_and_key,
    palette_format, presented, presented_file, scaled_gray, Limits, TransparencyKey,
};
use crate::adam7::row_len;
use crate::ancillary::two_to;
use crate::bytes::be16;
use crate::canvas::row_samples;
use crate::color::ColorType;
use crate::decoded::PaletteColors;
use crate::encoder::{packed_rows, reduced_shape, FileModel, PngEncoder};
use crate::error::Error;
use crate::ihdr::{Ihdr, MAX_DIMENSION};
use crate::layout::framable;
use crate::pack::{is_sub_byte, packing_round_trip, samples_fit, unpacked};
use crate::palette::{alpha_at, rgb_triples};
use crate::pixels::{converted, holds_losslessly, in_range, widened, widened_sample, PixelFormat};
use crate::reduce::{
    gray_scale, pixel_position, quads, quads16, samples16_of, shown16, shown8, Quad, Quad16,
    ReducedModel,
};
use crate::roundtrip::{a_written_file_decodes, consistent, native_from};
use vstd::prelude::*;

verus! {

/// A sample of a layout at the scale of 16 bits.
pub open spec fn at_16_bits(format: PixelFormat, v: u16) -> u16 {
    if format.spec_is_wide() {
        v
    } else if format is Bilevel {
        (v * 65535) as u16
    } else {
        (v * 257) as u16
    }
}

/// Red, green, blue and alpha of pixel `i` of an image, at the scale of 16 bits: grey stands in
/// every colour, and an image without alpha is opaque.
pub open spec fn pixel16(format: PixelFormat, samples: Seq<u16>, i: int) -> Quad16 {
    let n = format.spec_channels();
    let at = i * n;
    let alpha = if format.spec_has_alpha() {
        at_16_bits(format, samples[at + n - 1])
    } else {
        65535
    };
    let first = at_16_bits(format, samples[at]);
    if format.spec_is_color() {
        (first, at_16_bits(format, samples[at + 1]), at_16_bits(format, samples[at + 2]), alpha)
    } else {
        (first, first, first, alpha)
    }
}

/// Channel `c` of a pixel in a layout.
pub open spec fn component(format: PixelFormat, p: Quad16, c: int) -> u16 {
    if format.spec_has_alpha() && c == format.spec_channels() - 1 {
        p.3
    } else if c == 0 {
        p.0
    } else if c == 1 {
        p.1
    } else {
        p.2
    }
}

proof fn converting_keeps_components(
    source: PixelFormat,
    target: PixelFormat,
    v: Seq<u16>,
    i: int,
    c: int,
)
    requires
        holds_losslessly(source, target),
        source != target,
        in_range(source, v),
        0 <= i,
        i * source.spec_channels() + source.spec_channels() <= v.len(),
        0 <= i * source.spec_channels(),
        0 <= c < target.spec_channels(),
    ensures
        widened_sample(source, target, v, i, c) <= target.spec_max(),
        at_16_bits(target, widened_sample(source, target, v, i, c)) == component(
            target,
            pixel16(source, v, i),
            c,
        ),
{
    let n = source.spec_channels();
    let at = i * n;
    assert(v[at] <= source.spec_max());
    assert(v[at + n - 1] <= source.spec_max());
    if source.spec_is_color() {
        assert(v[at + 1] <= source.spec_max());
        assert(v[at + 2] <= source.spec_max());
    }
}

/// An image presented in a layout that holds it has the samples of the image in that layout that
/// shows the same pixels.
pub proof fn same_pixels_convert(
    source: PixelFormat,
    target: PixelFormat,
    v: Seq<u16>,
    s: Seq<u16>,
    count: int,
)
    requires
        holds_losslessly(source, target),
        in_range(source, v),
        in_range(target, s),
        count >= 0,
        v.len() == count * source.spec_channels(),
        s.len() == count * target.spec_channels(),
        forall|i: int|
            0 <= i < count ==> #[trigger] pixel16(source, v, i) == pixel16(target, s, i),
    ensures
        converted(source, target, v) == s,
{
    let m = source.spec_channels();
    let n = target.spec_channels();
    let out = converted(source, target, v);
    assert(count * m / m == count) by (nonlinear_arith)
        requires
            m >= 1,
    ;
    assert(out.len() == s.len());
    assert forall|j: int| 0 <= j < s.len() implies #[trigger] out[j] == s[j] by {
        let i = j / n;
        let c = j % n;
        vstd::arithmetic::div_mod::lemma_fundamental_div_mod(j, n);
        assert(n * i == i * n) by (nonlinear_arith);
        assert(0 <= i < count) by (nonlinear_arith)
            requires
                j == n * i + c,
                0 <= c < n,
                0 <= j < count * n,
                n >= 1,
        ;
        assert(0 <= i * m && i * m + m <= count * m) by (nonlinear_arith)
            requires
                0 <= i < count,
                m >= 1,
        ;
        assert(pixel16(source, v, i) == pixel16(target, s, i));
        assert(s[j] <= target.spec_max());
        assert(at_16_bits(target, s[j]) == component(target, pixel16(target, s, i), c));
        if source != target {
            converting_keeps_components(source, target, v, i, c);
            assert(out[j] == widened_sample(source, target, v, i, c));
        } else {
            assert(v[j] <= target.spec_max());
            assert(at_16_bits(target, v[j]) == component(target, pixel16(target, v, i), c));
        }
    }
    assert(out =~= s);
}

/// Whether a reader of a file sees the given samples in a layout.
pub open spec fn file_shows(f: FileModel, target: PixelFormat, samples: Seq<u16>) -> bool {
    let (format, shown) = presented(native_from(f));
    &&& consistent(f)
    &&& holds_losslessly(format, target)
    &&& converted(format, target, shown) == samples
}

/// A written file is presented as what a reader of it sees, under every limit that admits the image.
pub proof fn a_written_file_presents(
    e: PngEncoder,
    f: FileModel,
    l: Limits,
    target: PixelFormat,
    samples: Seq<u16>,
)
    requires
        file_shows(f, target, samples),
        !(target is Indexed8),
        framable(e.file_pairs(f)),
        e.file_restores(f),
        limit_fault(l, f.header) is None,
    ensures
        presented_file(l, e.file_of(f), target) == Ok::<Seq<u16>, Error>(samples),
{
    a_written_file_decodes(e, f, l);
    crate::roundtrip::written_chunks_are_read_back(e, f);
}

/// Whether the dimensions are those of a PNG.
pub open spec fn dimensions_fit(width: u32, height: u32) -> bool {
    1 <= width <= MAX_DIMENSION && 1 <= height <= MAX_DIMENSION
}

/// Rows of 8-bit samples are the samples.
proof fn byte_rows(samples: Seq<u8>, width: int, height: int, channels: int)
    requires
        width >= 1,
        height >= 1,
        1 <= channels <= 4,
        samples.len() == width * height * channels,
    ensures
        row_samples(samples, width, height, channels, 8) == widened(samples),
        samples.len() == height * row_len(width, channels * 8),
{
    crate::encoder::byte_row_shape(width, height, channels, 8);
    assert(row_samples(samples, width, height, channels, 8) =~= widened(samples));
}

/// Rows of big-endian 16-bit samples are the samples.
proof fn word_rows(bytes: Seq<u8>, width: int, height: int, channels: int)
    requires
        width >= 1,
        height >= 1,
        1 <= channels <= 4,
        bytes.len() == 2 * (width * height * channels),
    ensures
        row_samples(bytes, width, height, channels, 16) == samples16_of(bytes),
        bytes.len() == height * row_len(width, channels * 16),
{
    crate::encoder::byte_row_shape(width, height, channels, 16);
    let a = row_samples(bytes, width, height, channels, 16);
    let b = samples16_of(bytes);
    assert forall|i: int| 0 <= i < a.len() implies a[i] == b[i] by {
        assert(be16(bytes, 2 * i) == bytes[2 * i] * 256 + bytes[2 * i + 1]);
    }
    assert(a =~= b);
}

/// Rows of packed codes are the codes.
proof fn code_rows(samples: Seq<u8>, width: int, height: int, depth: u8)
    requires
        width >= 1,
        height >= 1,
        is_sub_byte(depth) || depth == 8,
        samples.len() == width * height,
        depth < 8 ==> samples_fit(samples, depth),
    ensures
        ({
            let bytes = packed_rows(samples, width, height, depth);
            &&& row_samples(bytes, width, height, 1, depth) == widened(samples)
            &&& bytes.len() == height * row_len(width, 1 * depth)
        }),
{
    crate::encoder::packed_row_shape(width, height, depth);
    let bytes = packed_rows(samples, width, height, depth);
    if depth < 8 {
        packing_round_trip(samples, width, height, depth);
        assert(unpacked(bytes, width, height, depth) == samples);
    } else {
        assert(width * height * 1 == width * height);
    }
    assert(row_samples(bytes, width, height, 1, depth) =~= widened(samples));
}

/// Bytes are in the range of every 8-bit layout.
proof fn bytes_are_in_range(format: PixelFormat, s: Seq<u8>)
    requires
        !(format is Bilevel),
    ensures
        in_range(format, widened(s)),
{
    assert forall|i: int| 0 <= i < widened(s).len() implies (#[trigger] widened(s)[i])
        <= format.spec_max() by {
        assert(widened(s)[i] == s[i] as u16);
    }
}

/// An 8-bit image written as it arrived is presented as it arrived.
pub proof fn plain_bytes_are_presented(
    e: PngEncoder,
    width: u32,
    height: u32,
    format: PixelFormat,
    s: Seq<u8>,
)
    requires
        dimensions_fit(width, height),
        format is Gray8 || format is GrayAlpha8 || format is Rgb8 || format is Rgba8,
        s.len() == width * height * format.spec_channels(),
    ensures
        ({
            let f = e.plain_file(width, height, crate::encoder::color_of(format), 8, s);
            &&& consistent(f)
            &&& presented(native_from(f)) == (format, widened(s))
            &&& in_range(format, widened(s))
        }),
{
    let f = e.plain_file(width, height, crate::encoder::color_of(format), 8, s);
    byte_rows(s, width as int, height as int, format.spec_channels());
    bytes_are_in_range(format, s);
    let n = native_from(f);
    assert(n.samples == widened(s));
    if format is Gray8 {
        assert(scaled_gray(n.samples, 8) =~= n.samples) by {
            assert forall|i: int| 0 <= i < n.samples.len() implies scaled_gray(n.samples, 8)[i]
                == n.samples[i] by {
                assert(n.samples[i] * 1 == n.samples[i]);
            }
        }
    }
}

/// A 16-bit image written as it arrived is presented as it arrived.
pub proof fn plain_words_are_presented(
    e: PngEncoder,
    width: u32,
    height: u32,
    format: PixelFormat,
    bytes: Seq<u8>,
)
    requires
        dimensions_fit(width, height),
        format.spec_is_wide(),
        bytes.len() == 2 * (width * height * format.spec_channels()),
    ensures
        ({
            let f = e.plain_file(width, height, crate::encoder::color_of(format), 16, bytes);
            &&& consistent(f)
            &&& presented(native_from(f)) == (format, samples16_of(bytes))
            &&& in_range(format, samples16_of(bytes))
        }),
{
    let f = e.plain_file(width, height, crate::encoder::color_of(format), 16, bytes);
    word_rows(bytes, width as int, height as int, format.spec_channels());
    let n = native_from(f);
    assert(n.samples == samples16_of(bytes));
    if format is Gray16 {
        assert(scaled_gray(n.samples, 16) =~= n.samples) by {
            assert forall|i: int| 0 <= i < n.samples.len() implies scaled_gray(n.samples, 16)[i]
                == n.samples[i] by {
                assert(n.samples[i] * 1 == n.samples[i]);
            }
        }
    }
}

/// The layout a reduction is presented in.
pub open spec fn reduced_format(m: ReducedModel) -> PixelFormat {
    match m {
        ReducedModel::Gray { depth, .. } => if depth == 1 {
            PixelFormat::Bilevel
        } else {
            PixelFormat::Gray8
        },
        ReducedModel::GrayAlpha8(_) => PixelFormat::GrayAlpha8,
        ReducedModel::Rgb8(_) => PixelFormat::Rgb8,
        ReducedModel::Rgba8(_) => PixelFormat::Rgba8,
        ReducedModel::Gray16Be(_) => PixelFormat::Gray16,
        ReducedModel::GrayAlpha16Be(_) => PixelFormat::GrayAlpha16,
        ReducedModel::Rgb16Be(_) => PixelFormat::Rgb16,
        ReducedModel::Rgb8Keyed { .. } => PixelFormat::Rgba8,
        ReducedModel::GrayKeyed { .. } => PixelFormat::GrayAlpha8,
        ReducedModel::Indexed { plte, trns, .. } => palette_format(stored_palette(plte, trns)),
    }
}

/// The palette that PLTE and tRNS payloads make.
pub open spec fn stored_palette(plte: Seq<u8>, trns: Option<Seq<u8>>) -> PaletteColors {
    PaletteColors {
        rgb: rgb_triples(plte),
        alphas: match trns {
            Some(t) => t,
            None => Seq::empty(),
        },
    }
}

/// What a reader of a file sees: samples in a layout that show the given pixels.
pub open spec fn presents_pixels(f: FileModel, format: PixelFormat, q: Seq<Quad16>) -> bool {
    let (shown_format, v) = presented(native_from(f));
    &&& consistent(f)
    &&& shown_format == format
    &&& in_range(format, v)
    &&& v.len() == q.len() * format.spec_channels()
    &&& forall|i: int| 0 <= i < q.len() ==> #[trigger] pixel16(format, v, i) == q[i]
}

proof fn gray_codes_are_presented(
    e: PngEncoder,
    width: u32,
    height: u32,
    depth: u8,
    samples: Seq<u8>,
)
    requires
        dimensions_fit(width, height),
        reduced_shape(ReducedModel::Gray { depth, samples }, width * height),
    ensures
        ({
            let m = ReducedModel::Gray { depth, samples };
            presents_pixels(e.reduced_file(width, height, m), reduced_format(m), shown16(m))
        }),
{
    let m = ReducedModel::Gray { depth, samples };
    let f = e.reduced_file(width, height, m);
    code_rows(samples, width as int, height as int, depth);
    let n = native_from(f);
    assert(n.samples == widened(samples));
    let (format, v) = presented(n);
    assert forall|i: int| 0 <= i < v.len() implies (#[trigger] v[i]) <= format.spec_max()
        && pixel16(format, v, i) == shown16(m)[i] by {
        let x = samples[i];
        assert(n.samples[i] == x);
        if depth == 1 {
            assert(x < 2);
            assert(v[i] == x);
            if x == 1 {
                assert(at_16_bits(format, v[i]) == 65535);
            }
        } else if depth == 2 {
            assert(x < 4);
            assert(v[i] == x * 85);
        } else if depth == 4 {
            assert(x < 16);
            assert(v[i] == x * 17);
        } else {
            assert(v[i] == x * 1);
        }
        assert(i * 1 == i);
        assert(shown8(m)[i] == ((x * gray_scale(depth)) as u8, (x * gray_scale(depth)) as u8, (x
            * gray_scale(depth)) as u8, 255u8));
        assert(shown16(m)[i] == crate::reduce::widened(shown8(m)[i]));
    }
    assert(width * height * 1 == width * height);
    assert(format == reduced_format(m) && format.spec_channels() == 1);
    assert(v.len() == samples.len() && shown16(m).len() == samples.len());
    assert(in_range(format, v));
    assert(consistent(f));
    assert forall|i: int| 0 <= i < shown16(m).len() implies #[trigger] pixel16(format, v, i)
        == shown16(m)[i] by {
        assert(v[i] <= format.spec_max() && pixel16(format, v, i) == shown16(m)[i]);
    }
}

pub proof fn plain_pixels8(format: PixelFormat, s: Seq<u8>, i: int)
    requires
        format is Gray8 || format is GrayAlpha8 || format is Rgb8 || format is Rgba8,
        0 <= i < s.len() as int / format.spec_channels(),
    ensures
        pixel16(format, widened(s), i) == crate::reduce::widened(
            quads(s, format.spec_channels())[i],
        ),
{
    crate::reduce::pixel_inside(s.len() as int, format.spec_channels(), i);
}

pub proof fn plain_pixels16(format: PixelFormat, s: Seq<u16>, i: int)
    requires
        format.spec_is_wide(),
        0 <= i < s.len() as int / format.spec_channels(),
    ensures
        pixel16(format, s, i) == quads16(s, format.spec_channels())[i],
{
    crate::reduce::pixel_inside(s.len() as int, format.spec_channels(), i);
}

proof fn product_with(count: int, ch: int)
    by (nonlinear_arith)
    ensures
        ch == 1 ==> count * ch == count,
        ch == 2 ==> count * ch == 2 * count,
        ch == 3 ==> count * ch == 3 * count,
        ch == 4 ==> count * ch == 4 * count,
{
}

/// A chunk-free reduction shows its pixels.
proof fn whole_samples_are_presented(e: PngEncoder, width: u32, height: u32, m: ReducedModel)
    requires
        dimensions_fit(width, height),
        reduced_shape(m, width * height),
        m is GrayAlpha8 || m is Rgb8 || m is Rgba8 || m is Gray16Be || m is GrayAlpha16Be
            || m is Rgb16Be,
    ensures
        presents_pixels(e.reduced_file(width, height, m), reduced_format(m), shown16(m)),
{
    let format = reduced_format(m);
    let count = width * height;
    let ch = format.spec_channels();
    assert(count * ch / ch == count) by (nonlinear_arith)
        requires
            ch >= 1,
    ;
    assert(count >= 1) by (nonlinear_arith)
        requires
            count == width * height,
            width >= 1,
            height >= 1,
    ;
    assert(count * ch >= 0) by (nonlinear_arith)
        requires
            count >= 0,
            ch >= 0,
    ;
    match m {
        ReducedModel::GrayAlpha8(s) | ReducedModel::Rgb8(s) | ReducedModel::Rgba8(s) => {
            product_with(count, ch);
            assert(s.len() == count * ch);
            plain_bytes_are_presented(e, width, height, format, s);
            assert forall|i: int| 0 <= i < shown16(m).len() implies #[trigger] pixel16(
                format,
                widened(s),
                i,
            ) == shown16(m)[i] by {
                plain_pixels8(format, s, i);
            }
        },
        ReducedModel::Gray16Be(s) | ReducedModel::GrayAlpha16Be(s) | ReducedModel::Rgb16Be(s) => {
            product_with(count, ch);
            assert(s.len() == 2 * (count * ch));
            plain_words_are_presented(e, width, height, format, s);
            let v = samples16_of(s);
            assert(v.len() == count * ch);
            assert forall|i: int| 0 <= i < shown16(m).len() implies #[trigger] pixel16(format, v, i)
                == shown16(m)[i] by {
                plain_pixels16(format, v, i);
            }
        },
        _ => {},
    }
}

/// A colour key stored as 16-bit samples is read back.
proof fn byte_key(data: Seq<u8>, at: int, k: u8)
    requires
        0 <= at,
        at + 1 < data.len(),
        data[at] == 0,
        data[at + 1] == k,
    ensures
        masked(be16(data, at), 8) == k,
{
    reveal_with_fuel(two_to, 9);
    assert(be16(data, at) == k);
    assert(two_to(8) == 256);
}

proof fn gray_key_is_presented(e: PngEncoder, width: u32, height: u32, samples: Seq<u8>, key: u8)
    requires
        dimensions_fit(width, height),
        samples.len() == width * height,
    ensures
        ({
            let m = ReducedModel::GrayKeyed { samples, key };
            presents_pixels(e.reduced_file(width, height, m), reduced_format(m), shown16(m))
        }),
{
    let m = ReducedModel::GrayKeyed { samples, key };
    let f = e.reduced_file(width, height, m);
    product_with(width * height, 1);
    byte_rows(samples, width as int, height as int, 1);
    byte_key(f.trns->0, 0, key);
    let n = native_from(f);
    assert(n.key == Some(TransparencyKey::Gray(key as u16)));
    let (format, v) = presented(n);
    assert(v == keyed_gray(n.samples, 8, key as u16, 0xFF));
    assert forall|j: int| 0 <= j < v.len() implies (#[trigger] v[j]) <= 0xFF by {
        let x = samples[j / 2];
        assert(n.samples[j / 2] == x);
        assert(x * 1 == x);
    }
    assert forall|i: int| 0 <= i < samples.len() implies #[trigger] pixel16(format, v, i)
        == shown16(m)[i] by {
        let x = samples[i];
        assert(n.samples[i] == x);
        assert((i * 2) / 2 == i && (i * 2) % 2 == 0);
        assert((i * 2 + 1) / 2 == i && (i * 2 + 1) % 2 == 1);
        assert(x * 1 == x);
        assert(v[i * 2] == x);
        assert(v[i * 2 + 1] == (if x != key {
            0xFFu16
        } else {
            0u16
        }));
        assert(i * 1 == i);
        assert(shown16(m)[i] == crate::reduce::widened(shown8(m)[i]));
    }
    assert(shown16(m).len() == samples.len());
}

proof fn rgb_key_is_presented(
    e: PngEncoder,
    width: u32,
    height: u32,
    samples: Seq<u8>,
    key: (u8, u8, u8),
)
    requires
        dimensions_fit(width, height),
        samples.len() == 3 * (width * height),
    ensures
        ({
            let m = ReducedModel::Rgb8Keyed { samples, key };
            presents_pixels(e.reduced_file(width, height, m), reduced_format(m), shown16(m))
        }),
{
    let m = ReducedModel::Rgb8Keyed { samples, key };
    let f = e.reduced_file(width, height, m);
    product_with(width * height, 3);
    byte_rows(samples, width as int, height as int, 3);
    byte_key(f.trns->0, 0, key.0);
    byte_key(f.trns->0, 2, key.1);
    byte_key(f.trns->0, 4, key.2);
    let n = native_from(f);
    assert(n.key == Some(TransparencyKey::Rgb(key.0 as u16, key.1 as u16, key.2 as u16)));
    let (format, v) = presented(n);
    assert(v == keyed_rgb(n.samples, (key.0 as u16, key.1 as u16, key.2 as u16), 0xFF));
    bytes_are_in_range(format, samples);
    assert forall|j: int| 0 <= j < v.len() implies (#[trigger] v[j]) <= 0xFF by {
        if j % 4 < 3 {
            assert(0 <= j / 4 * 3 + j % 4 < n.samples.len());
            assert(n.samples[j / 4 * 3 + j % 4] <= 0xFF);
        }
    }
    assert(quads(samples, 3).len() == width * height);
    assert forall|i: int| 0 <= i < width * height implies #[trigger] pixel16(format, v, i)
        == shown16(m)[i] by {
        let at = i * 3;
        assert(n.samples[at] == samples[at]);
        assert(n.samples[at + 1] == samples[at + 1]);
        assert(n.samples[at + 2] == samples[at + 2]);
        assert((i * 4) / 4 == i && (i * 4) % 4 == 0);
        assert((i * 4 + 1) / 4 == i && (i * 4 + 1) % 4 == 1);
        assert((i * 4 + 2) / 4 == i && (i * 4 + 2) % 4 == 2);
        assert((i * 4 + 3) / 4 == i && (i * 4 + 3) % 4 == 3);
        assert(v[i * 4] == samples[at]);
        assert(v[i * 4 + 1] == samples[at + 1]);
        assert(v[i * 4 + 2] == samples[at + 2]);
        assert(quads(samples, 3)[i] == (samples[at], samples[at + 1], samples[at + 2], 255u8));
        assert(v[i * 4 + 3] == (if (samples[at], samples[at + 1], samples[at + 2]) != key {
            0xFFu16
        } else {
            0u16
        }));
        assert(shown16(m)[i] == crate::reduce::widened(shown8(m)[i]));
    }
    assert(shown16(m).len() == width * height);
}

/// A palette image shows the entries its indices name.
proof fn palette_is_presented(
    e: PngEncoder,
    width: u32,
    height: u32,
    depth: u8,
    indices: Seq<u8>,
    plte: Seq<u8>,
    trns: Option<Seq<u8>>,
)
    requires
        dimensions_fit(width, height),
        reduced_shape(ReducedModel::Indexed { depth, indices, plte, trns }, width * height),
    ensures
        ({
            let m = ReducedModel::Indexed { depth, indices, plte, trns };
            presents_pixels(e.reduced_file(width, height, m), reduced_format(m), shown16(m))
        }),
{
    let m = ReducedModel::Indexed { depth, indices, plte, trns };
    let f = e.reduced_file(width, height, m);
    indexed_parts_are_presented(f, depth, indices, plte, trns);
    let p = stored_palette(plte, trns);
    assert forall|i: int| 0 <= i < indices.len() implies #[trigger] entry_quad(p, indices[i] as int)
        == shown8(m)[i] by {
        assert(p.rgb[indices[i] as int]@ =~= seq![
            plte[indices[i] * 3],
            plte[indices[i] * 3 + 1],
            plte[indices[i] * 3 + 2],
        ]);
    }
    let want = indices.map_values(|i: u8| crate::reduce::widened(entry_quad(p, i as int)));
    assert(want =~= shown16(m)) by {
        assert forall|i: int| 0 <= i < indices.len() implies want[i] == shown16(m)[i] by {
            assert(entry_quad(p, indices[i] as int) == shown8(m)[i]);
            assert(shown16(m)[i] == crate::reduce::widened(shown8(m)[i]));
        }
    }
}

/// Colour and alpha of a palette entry.
pub open spec fn entry_quad(p: PaletteColors, i: int) -> Quad {
    (p.rgb[i]@[0], p.rgb[i]@[1], p.rgb[i]@[2], alpha_at(p.alphas, i))
}

/// A file of palette indices shows the entries that the indices name.
pub proof fn indexed_parts_are_presented(
    f: FileModel,
    depth: u8,
    indices: Seq<u8>,
    plte: Seq<u8>,
    trns: Option<Seq<u8>>,
)
    requires
        ({
            let h = f.header;
            &&& dimensions_fit(h.width, h.height)
            &&& h == (Ihdr { bit_depth: depth, color: ColorType::Indexed, interlaced: false, ..h })
            &&& reduced_shape(
                ReducedModel::Indexed { depth, indices, plte, trns },
                h.width * h.height,
            )
            &&& f.bytes == packed_rows(indices, h.width as int, h.height as int, depth)
            &&& f.plte == Some(plte)
            &&& f.trns == trns
        }),
    ensures
        ({
            let p = stored_palette(plte, trns);
            presents_pixels(
                f,
                palette_format(p),
                indices.map_values(|i: u8| crate::reduce::widened(entry_quad(p, i as int))),
            )
        }),
{
    let h = f.header;
    let p = stored_palette(plte, trns);
    let format = palette_format(p);
    let ch = format.spec_channels();
    code_rows(indices, h.width as int, h.height as int, depth);
    reveal_with_fuel(two_to, 9);
    assert(two_to(1) == 2 && two_to(2) == 4 && two_to(4) == 16 && two_to(8) == 256);
    let n = native_from(f);
    assert(palette_and_key(h, f.plte, f.trns) == Ok::<
        (Option<PaletteColors>, Option<TransparencyKey>),
        crate::error::Cause,
    >((Some(p), None)));
    assert(n.samples == widened(indices));
    assert forall|i: int| 0 <= i < n.samples.len() implies (#[trigger] n.samples[i])
        < p.rgb.len() by {
        assert(n.samples[i] == indices[i]);
    }
    let v = looked_up(n.samples, p, format);
    assert(v.len() == indices.len() * ch) by {
        assert(indices.len() * ch >= 0) by (nonlinear_arith)
            requires
                ch >= 0,
        ;
    }
    assert forall|j: int| 0 <= j < v.len() implies (#[trigger] v[j]) <= format.spec_max() by {}
    let q = indices.map_values(|i: u8| crate::reduce::widened(entry_quad(p, i as int)));
    assert forall|i: int| 0 <= i < q.len() implies #[trigger] pixel16(format, v, i) == q[i] by {
        let at = i * ch;
        let index = indices[i] as int;
        assert(n.samples[i] == indices[i]);
        assert(0 <= at && at + ch <= v.len()) by (nonlinear_arith)
            requires
                at == i * ch,
                v.len() == indices.len() * ch,
                0 <= i < indices.len(),
                ch >= 1,
        ;
        pixel_position(i, ch, 0);
        assert(v[at + 0] == entry_sample(p, index, format, 0));
        if format.spec_is_color() {
            pixel_position(i, ch, 1);
            pixel_position(i, ch, 2);
            assert(v[at + 1] == entry_sample(p, index, format, 1));
            assert(v[at + 2] == entry_sample(p, index, format, 2));
        } else {
            assert(p.rgb[index]@[0] == p.rgb[index]@[1] && p.rgb[index]@[1] == p.rgb[index]@[2]);
        }
        if format.spec_has_alpha() {
            pixel_position(i, ch, ch - 1);
            assert(v[at + (ch - 1)] == entry_sample(p, index, format, ch - 1));
        } else {
            assert(alpha_at(p.alphas, index) == 255);
        }
    }
}

/// Every reduction is presented as the pixels it shows.
pub proof fn reductions_are_presented(e: PngEncoder, width: u32, height: u32, m: ReducedModel)
    requires
        dimensions_fit(width, height),
        reduced_shape(m, width * height),
    ensures
        presents_pixels(e.reduced_file(width, height, m), reduced_format(m), shown16(m)),
{
    match m {
        ReducedModel::Gray { depth, samples } => {
            gray_codes_are_presented(e, width, height, depth, samples);
        },
        ReducedModel::Rgb8Keyed { samples, key } => {
            rgb_key_is_presented(e, width, height, samples, key);
        },
        ReducedModel::GrayKeyed { samples, key } => {
            gray_key_is_presented(e, width, height, samples, key);
        },
        ReducedModel::Indexed { depth, indices, plte, trns } => {
            palette_is_presented(e, width, height, depth, indices, plte, trns);
        },
        _ => {
            whole_samples_are_presented(e, width, height, m);
        },
    }
}

} // verus!
