//! What the bytes of scanlines stand for, and what the pixels of a presented image show.
use crate::canvas::row_samples;
use crate::color::ColorType;
use crate::decoder::{
    masked, native_format, native_samples, palette_and_key, presented, shown_in, NativeModel,
    TransparencyKey,
};
use crate::ihdr::Ihdr;
use crate::pack::{field, packed, packed_row_len, per_byte, radix, samples_fit, unpacked};
use crate::pixels::{converted, holds_losslessly, rescaled, PixelFormat};
use crate::reduce::{gray_scale, pixel_position};
use vstd::prelude::*;

verus! {

/// The samples of a byte are its digits, the leftmost sample the most significant.
pub proof fn a_byte_is_its_samples(byte: u8)
    ensures
        byte == field(byte, 4, 0) * 16 + field(byte, 4, 1),
        0 <= field(byte, 4, 0) < 16 && 0 <= field(byte, 4, 1) < 16,
        byte == field(byte, 2, 0) * 64 + field(byte, 2, 1) * 16 + field(byte, 2, 2) * 4 + field(
            byte,
            2,
            3,
        ),
        forall|k: int| 0 <= k < 4 ==> 0 <= #[trigger] field(byte, 2, k) < 4,
        byte == field(byte, 1, 0) * 128 + field(byte, 1, 1) * 64 + field(byte, 1, 2) * 32 + field(
            byte,
            1,
            3,
        ) * 16 + field(byte, 1, 4) * 8 + field(byte, 1, 5) * 4 + field(byte, 1, 6) * 2 + field(
            byte,
            1,
            7,
        ),
        forall|k: int| 0 <= k < 8 ==> 0 <= #[trigger] field(byte, 1, k) < 2,
{
    let v = byte as int;
    let (a, b, c, d, e, f, g) = (v / 2, v / 4, v / 8, v / 16, v / 32, v / 64, v / 128);
    assert(v == 2 * a + v % 2);
    assert(a == 2 * b + a % 2);
    assert(b == 2 * c + b % 2);
    assert(c == 2 * d + c % 2);
    assert(d == 2 * e + d % 2);
    assert(e == 2 * f + e % 2);
    assert(f == 2 * g + f % 2);
    assert(g == g % 2);
    assert(v == 4 * b + v % 4);
    assert(b == 4 * d + b % 4);
    assert(d == 4 * f + d % 4);
    assert(f == f % 4);
    assert(d == d % 16);
    one_bit_fields(byte);
}

proof fn one_bit_fields(byte: u8)
    ensures
        field(byte, 1, 0) == byte as int / 128 % 2,
        field(byte, 1, 1) == byte as int / 64 % 2,
        field(byte, 1, 2) == byte as int / 32 % 2,
        field(byte, 1, 3) == byte as int / 16 % 2,
        field(byte, 1, 4) == byte as int / 8 % 2,
        field(byte, 1, 5) == byte as int / 4 % 2,
        field(byte, 1, 6) == byte as int / 2 % 2,
        field(byte, 1, 7) == byte as int % 2,
{
}

/// Samples of less than a byte stand 8, 4 or 2 to a byte from the left, each row starting a byte of its
/// own.
pub proof fn packed_rows_start_at_bytes(
    bytes: Seq<u8>,
    width: int,
    height: int,
    depth: u8,
    x: int,
    y: int,
)
    requires
        depth == 1 || depth == 2 || depth == 4,
        0 <= x < width,
        0 <= y < height,
    ensures
        8 * packed_row_len(width, depth) - 8 < width * depth <= 8 * packed_row_len(width, depth),
        unpacked(bytes, width, height, depth).len() == width * height,
        unpacked(bytes, width, height, depth)[y * width + x] == field(
            bytes[y * packed_row_len(width, depth) + x * depth / 8],
            depth,
            x % (8int / depth as int),
        ),
{
    pixel_position(y, width, x);
    assert(0 <= y * width + x < width * height) by (nonlinear_arith)
        requires
            0 <= x < width,
            0 <= y <= height - 1,
    ;
    if depth == 1 {
        assert(width * depth == width && x * depth == x);
    } else if depth == 2 {
        assert(width * depth == 2 * width && x * depth == 2 * x) by (nonlinear_arith)
            requires
                depth == 2,
        ;
    } else {
        assert(width * depth == 4 * width && x * depth == 4 * x) by (nonlinear_arith)
            requires
                depth == 4,
        ;
    }
    let byte = bytes[y * packed_row_len(width, depth) + x * depth / 8];
    assert(x * depth / 8 == x / per_byte(depth));
    assert(x % (8int / depth as int) == x % per_byte(depth));
    assert(0 <= field(byte, depth, x % per_byte(depth)) < radix(depth));
}

/// A packed byte holds the samples of its place in the row, and zeros behind the end of the row.
pub proof fn a_packed_byte_holds_its_samples(
    samples: Seq<u8>,
    width: int,
    height: int,
    depth: u8,
    b: int,
    y: int,
    k: int,
)
    requires
        depth == 1 || depth == 2 || depth == 4,
        width >= 1,
        0 <= y < height,
        samples.len() == width * height,
        samples_fit(samples, depth),
        0 <= b < packed_row_len(width, depth),
        0 <= k < 8int / depth as int,
    ensures
        ({
            let x = b * (8int / depth as int) + k;
            let bytes = packed(samples, width, height, depth);
            &&& bytes.len() == packed_row_len(width, depth) * height
            &&& field(bytes[y * packed_row_len(width, depth) + b], depth, k) == (if x < width {
                samples[y * width + x] as int
            } else {
                0
            })
        }),
{
    let row = packed_row_len(width, depth);
    pixel_position(y, row, b);
    assert(0 <= y * row + b < row * height) by (nonlinear_arith)
        requires
            0 <= b < row,
            0 <= y <= height - 1,
    ;
    assert(0 <= y * width && y * width + width <= width * height) by (nonlinear_arith)
        requires
            0 <= y <= height - 1,
            width >= 1,
    ;
    crate::pack::digits_read_back(samples, y * width, width, depth, b, k);
}

/// Samples of 8 bits are the bytes of a row, and samples of 16 bits its pairs of bytes, the high byte
/// first.
pub proof fn whole_samples_are_bytes(rows: Seq<u8>, width: int, height: int, channels: int, i: int)
    requires
        0 <= i < width * height * channels,
    ensures
        row_samples(rows, width, height, channels, 8)[i] == rows[i],
        row_samples(rows, width, height, channels, 16)[i] == 256 * rows[2 * i] + rows[2 * i + 1],
        row_samples(rows, width, height, channels, 8).len() == width * height * channels,
        row_samples(rows, width, height, channels, 16).len() == width * height * channels,
{
}

/// Samples of less than 8 bits are the bit fields of the rows, unscaled.
pub proof fn small_samples_are_fields(
    rows: Seq<u8>,
    width: int,
    height: int,
    depth: u8,
    x: int,
    y: int,
)
    requires
        depth == 1 || depth == 2 || depth == 4,
        0 <= x < width,
        0 <= y < height,
    ensures
        row_samples(rows, width, height, 1, depth).len() == width * height,
        row_samples(rows, width, height, 1, depth)[y * width + x] == field(
            rows[y * packed_row_len(width, depth) + x * depth / 8],
            depth,
            x % (8int / depth as int),
        ),
{
    packed_rows_start_at_bytes(rows, width, height, depth, x, y);
    assert(0 <= y * width + x < width * height) by (nonlinear_arith)
        requires
            0 <= x < width,
            0 <= y <= height - 1,
    ;
}

/// The largest sample of a bit depth: all its bits set.
pub open spec fn full(depth: u8) -> int {
    if depth == 1 {
        1
    } else if depth == 2 {
        3
    } else if depth == 4 {
        15
    } else if depth == 8 {
        255
    } else {
        65535
    }
}

/// What each layout holds: its channels, its alpha and the largest of its samples.
pub proof fn layouts_hold(format: PixelFormat)
    ensures
        format.spec_channels() == (match format {
            PixelFormat::Bilevel | PixelFormat::Gray8 | PixelFormat::Gray16 | PixelFormat::Indexed8 => 1int,
            PixelFormat::GrayAlpha8 | PixelFormat::GrayAlpha16 => 2,
            PixelFormat::Rgb8 | PixelFormat::Rgb16 => 3,
            PixelFormat::Rgba8 | PixelFormat::Rgba16 => 4,
        }),
        format.spec_has_alpha() <==> format.spec_channels() == 2 || format.spec_channels() == 4,
        format.spec_is_color() <==> format.spec_channels() >= 3,
        format.spec_max() == (match format {
            PixelFormat::Bilevel => 1,
            PixelFormat::Gray8
            | PixelFormat::GrayAlpha8
            | PixelFormat::Rgb8
            | PixelFormat::Rgba8
            | PixelFormat::Indexed8 => 255,
            PixelFormat::Gray16
            | PixelFormat::GrayAlpha16
            | PixelFormat::Rgb16
            | PixelFormat::Rgba16 => 65535int,
        }),
        format.spec_is_wide() <==> format.spec_max() == 65535,
{
}

/// Every colour type at every bit depth has the layout with its channels, wide exactly at 16 bits.
pub proof fn native_layouts(color: ColorType, bit_depth: u8)
    ensures
        native_format(color, bit_depth).spec_channels() == color.spec_channels(),
        native_format(color, bit_depth).spec_is_wide() <==> bit_depth == 16 && !(color is Indexed),
        native_format(color, bit_depth) is Indexed8 <==> color is Indexed,
        !(native_format(color, bit_depth) is Bilevel),
        color.spec_channels() == (match color {
            ColorType::Grayscale => 1,
            ColorType::Indexed => 1,
            ColorType::GrayscaleAlpha => 2,
            ColorType::Truecolor => 3,
            ColorType::TruecolorAlpha => 4int,
        }),
{
}

/// A conversion keeps every pixel in its place: each channel keeps its share of full scale, grey stands
/// for red, green and blue alike, and what had no alpha becomes opaque.
pub proof fn a_conversion_keeps_every_pixel(
    source: PixelFormat,
    target: PixelFormat,
    samples: Seq<u16>,
    i: int,
    c: int,
)
    requires
        holds_losslessly(source, target),
        0 <= i,
        (i + 1) * source.spec_channels() <= samples.len(),
        samples.len() % source.spec_channels() as nat == 0,
        0 <= c < target.spec_channels(),
        forall|j: int| 0 <= j < samples.len() ==> (#[trigger] samples[j]) <= source.spec_max(),
    ensures
        ({
            let out = converted(source, target, samples);
            let (n, m) = (source.spec_channels(), target.spec_channels());
            let v = out[i * m + c];
            &&& out.len() * n == samples.len() * m
            &&& m >= 3 && n >= 3 && c < 3 ==> v * source.spec_max() == samples[i * n + c]
                * target.spec_max()
            &&& (m < 3 || c < 3) && n < 3 && (c == 0 || m >= 3) ==> v * source.spec_max() == samples[i
                * n] * target.spec_max()
            &&& (m == 2 || m == 4) && c == m - 1 && (n == 2 || n == 4) ==> v * source.spec_max()
                == samples[i * n + n - 1] * target.spec_max()
            &&& (m == 2 || m == 4) && c == m - 1 && (n == 1 || n == 3) ==> v == target.spec_max()
        }),
{
    let out = converted(source, target, samples);
    let (n, m) = (source.spec_channels(), target.spec_channels());
    let k = samples.len() as int / n;
    vstd::arithmetic::div_mod::lemma_fundamental_div_mod(samples.len() as int, n);
    assert(n * k == samples.len());
    assert(i * n + n == (i + 1) * n && 0 <= i * n) by (nonlinear_arith)
        requires
            0 <= i,
            1 <= n,
    ;
    assert(i < k) by (nonlinear_arith)
        requires
            (i + 1) * n <= n * k,
            n >= 1,
    ;
    assert(0 <= i * m + c < k * m) by (nonlinear_arith)
        requires
            0 <= i < k,
            0 <= c < m,
    ;
    assert(k * m * n == n * k * m) by (nonlinear_arith);
    pixel_position(i, m, c);
    if source == target {
        assert(k * n == n * k) by (nonlinear_arith);
        assert(samples.len() * m == samples.len() * n);
    } else {
        assert(out.len() == k * m);
        let from = i * n;
        assert(samples[from] <= source.spec_max());
        assert(samples[from + n - 1] <= source.spec_max());
        if n >= 3 && c < 3 {
            assert(samples[from + c] <= source.spec_max());
            scale_is_kept(source, target, samples[from + c]);
        }
        scale_is_kept(source, target, samples[from]);
        scale_is_kept(source, target, samples[from + n - 1]);
    }
}

/// Rescaling keeps a sample's share of full scale.
proof fn scale_is_kept(source: PixelFormat, target: PixelFormat, v: u16)
    requires
        holds_losslessly(source, target),
        source != target,
        v <= source.spec_max(),
    ensures
        rescaled(source, target, v) * source.spec_max() == v * target.spec_max(),
{
    if source is Bilevel {
        assert(v * 255 == 255 * v);
        if target.spec_is_wide() {
            assert(v * 255 * 257 == v * 65535);
        }
    } else if target.spec_is_wide() && !source.spec_is_wide() {
        assert(v * 257 * 255 == v * 65535);
    }
}

/// A layout holds another without loss exactly where it has its channels and its width. Indices are held
/// as indices alone, and two levels alone are held as two levels.
pub proof fn what_is_held_without_loss(source: PixelFormat, target: PixelFormat)
    ensures
        holds_losslessly(source, source),
        holds_losslessly(source, PixelFormat::Rgba16) <==> !(source is Indexed8),
        source != target && (source is Indexed8 || target is Indexed8 || target is Bilevel)
            ==> !holds_losslessly(source, target),
        source.spec_is_color() && !target.spec_is_color() ==> !holds_losslessly(source, target),
        source.spec_has_alpha() && !target.spec_has_alpha() ==> !holds_losslessly(source, target),
        source.spec_max() > target.spec_max() ==> !holds_losslessly(source, target),
        !(source is Indexed8 || target is Indexed8 || target is Bilevel) && (source.spec_is_color()
            ==> target.spec_is_color()) && (source.spec_has_alpha() ==> target.spec_has_alpha()) && (
        source.spec_max() <= target.spec_max()) ==> holds_losslessly(source, target),
{
}

/// Decoded grey keeps its share of full scale in 8 bits, or its 16 bits; every other sample is what the
/// file stores, palette indices too.
pub proof fn decoded_samples_keep_their_scale(n: NativeModel, i: int)
    requires
        n.header.wf(),
        0 <= i < n.samples.len(),
        n.samples[i] <= full(n.header.bit_depth),
    ensures
        native_samples(n).len() == n.samples.len(),
        !(n.header.color is Grayscale) ==> native_samples(n) == n.samples,
        n.header.color is Grayscale && n.header.bit_depth == 16 ==> native_samples(n)[i] == n.samples[i],
        n.header.color is Grayscale && n.header.bit_depth != 16 ==> native_samples(n)[i] * full(
            n.header.bit_depth,
        ) == n.samples[i] * 255,
{
    gray_keeps_its_scale(n.samples[i], n.header.bit_depth);
}

proof fn gray_keeps_its_scale(v: u16, depth: u8)
    requires
        depth == 1 || depth == 2 || depth == 4 || depth == 8 || depth == 16,
        v <= full(depth),
    ensures
        0 <= v * gray_scale(depth) <= 65535,
        depth == 16 ==> v * gray_scale(depth) == v,
        depth != 16 ==> v * gray_scale(depth) * full(depth) == v * 255,
{
    if depth == 1 {
        assert(v * 255 * 1 == v * 255);
    } else if depth == 2 {
        assert(v * 85 * 3 == v * 255);
    } else if depth == 4 {
        assert(v * 17 * 15 == v * 255);
    } else {
        assert(v * 1 == v);
    }
}

/// A presented grey image shows each sample at its share of full scale. Where the file has a colour key,
/// a sample is transparent exactly where it equals the key, unscaled, and opaque everywhere else.
pub proof fn presented_gray(n: NativeModel, i: int)
    requires
        n.header.wf(),
        n.header.color is Grayscale,
        0 <= i < n.samples.len(),
        n.samples[i] <= full(n.header.bit_depth),
    ensures
        ({
            let (format, out) = presented(n);
            let (v, depth) = (n.samples[i], n.header.bit_depth);
            let top = if depth == 16 {
                65535int
            } else {
                255
            };
            match n.key {
                Some(TransparencyKey::Gray(key)) => {
                    &&& format == (if depth == 16 {
                        PixelFormat::GrayAlpha16
                    } else {
                        PixelFormat::GrayAlpha8
                    })
                    &&& out.len() == 2 * n.samples.len()
                    &&& out[2 * i] * full(depth) == v * top
                    &&& out[2 * i + 1] == (if v == key {
                        0
                    } else {
                        top
                    })
                },
                _ => {
                    &&& format == (if depth == 16 {
                        PixelFormat::Gray16
                    } else if depth == 1 {
                        PixelFormat::Bilevel
                    } else {
                        PixelFormat::Gray8
                    })
                    &&& out.len() == n.samples.len()
                    &&& out[i] * full(depth) == v * (if depth == 1 {
                        1
                    } else {
                        top
                    })
                },
            }
        }),
{
    let depth = n.header.bit_depth;
    gray_keeps_its_scale(n.samples[i], depth);
    assert((2 * i) / 2 == i && (2 * i) % 2 == 0 && (2 * i + 1) / 2 == i && (2 * i + 1) % 2 == 1);
    let v = n.samples[i];
    if depth == 16 {
        assert(v * 65535 == v * full(16));
    }
    assert(v * 1 == v);
}

/// A presented colour image shows the samples of the file. Where the file has a colour key, a pixel is
/// transparent exactly where all three of its samples equal the key's.
pub proof fn presented_color(n: NativeModel, i: int, c: int)
    requires
        n.header.wf(),
        n.header.color is Truecolor,
        n.samples.len() % 3 == 0,
        0 <= 3 * i,
        3 * i + 2 < n.samples.len(),
        0 <= c < 3,
    ensures
        ({
            let (format, out) = presented(n);
            let deep = n.header.bit_depth == 16;
            match n.key {
                Some(TransparencyKey::Rgb(r, g, b)) => {
                    &&& format == (if deep {
                        PixelFormat::Rgba16
                    } else {
                        PixelFormat::Rgba8
                    })
                    &&& 3 * out.len() == 4 * n.samples.len()
                    &&& out[4 * i + c] == n.samples[3 * i + c]
                    &&& out[4 * i + 3] == (if n.samples[3 * i] == r && n.samples[3 * i + 1] == g
                        && n.samples[3 * i + 2] == b {
                        0
                    } else if deep {
                        65535int
                    } else {
                        255
                    })
                },
                _ => {
                    &&& format == (if deep {
                        PixelFormat::Rgb16
                    } else {
                        PixelFormat::Rgb8
                    })
                    &&& out == n.samples
                },
            }
        }),
{
    assert((4 * i + c) / 4 == i && (4 * i + c) % 4 == c);
    assert((4 * i + 3) / 4 == i && (4 * i + 3) % 4 == 3);
}

/// An image with alpha of its own is presented as it is.
pub proof fn presented_alpha(n: NativeModel)
    requires
        n.header.color is GrayscaleAlpha || n.header.color is TruecolorAlpha,
    ensures
        presented(n).1 == n.samples,
        presented(n).0 == (match (n.header.color, n.header.bit_depth == 16) {
            (ColorType::GrayscaleAlpha, false) => PixelFormat::GrayAlpha8,
            (ColorType::GrayscaleAlpha, true) => PixelFormat::GrayAlpha16,
            (_, false) => PixelFormat::Rgba8,
            (_, true) => PixelFormat::Rgba16,
        }),
{
}

/// A presented indexed image shows the colour of the entry that each index names, with the alpha that
/// tRNS gives the entry, and opaque behind the end of tRNS. The layout has colour exactly where some entry
/// is not grey, and alpha exactly where some entry is not opaque.
pub proof fn presented_indices(n: NativeModel, i: int)
    requires
        n.header.color is Indexed,
        n.palette is Some,
        0 <= i < n.samples.len(),
        n.samples[i] < n.palette->0.rgb.len(),
    ensures
        ({
            let (format, out) = presented(n);
            let p = n.palette->0;
            let m = format.spec_channels();
            let rgb = p.rgb[n.samples[i] as int]@;
            &&& format is Gray8 || format is GrayAlpha8 || format is Rgb8 || format is Rgba8
            &&& (format is Rgb8 || format is Rgba8) <==> exists|e: int|
                0 <= e < p.rgb.len() && ((#[trigger] p.rgb[e])@[0] != p.rgb[e]@[1] || p.rgb[e]@[1]
                    != p.rgb[e]@[2])
            &&& (format is GrayAlpha8 || format is Rgba8) <==> exists|e: int|
                0 <= e < p.alphas.len() && #[trigger] p.alphas[e] != 255
            &&& out.len() == n.samples.len() * m
            &&& out[i * m] == rgb[0]
            &&& m >= 3 ==> out[i * m + 1] == rgb[1] && out[i * m + 2] == rgb[2]
            &&& (m == 2 || m == 4) ==> out[i * m + m - 1] == (if n.samples[i] < p.alphas.len() {
                p.alphas[n.samples[i] as int]
            } else {
                255
            })
        }),
{
    let (format, out) = presented(n);
    let p = n.palette->0;
    let m = format.spec_channels();
    let len = n.samples.len() as int;
    assert(0 <= i * m && i * m + m <= len * m) by (nonlinear_arith)
        requires
            0 <= i < len,
            m >= 1,
    ;
    pixel_position(i, m, 0);
    pixel_position(i, m, m - 1);
    if m >= 3 {
        pixel_position(i, m, 1);
        pixel_position(i, m, 2);
    }
}

/// An image is shown in a layout through what it is presented as, and as bare indices where it has them.
pub proof fn what_is_shown(n: NativeModel, target: PixelFormat)
    ensures
        target is Indexed8 ==> match shown_in(n, target) {
            Ok(out) => n.header.color is Indexed && out == n.samples,
            Err(_) => !(n.header.color is Indexed),
        },
        !(target is Indexed8) ==> match shown_in(n, target) {
            Ok(out) => holds_losslessly(presented(n).0, target) && out == converted(
                presented(n).0,
                target,
                presented(n).1,
            ),
            Err(_) => !holds_losslessly(presented(n).0, target),
        },
{
}

/// A colour key keeps the low bits of its samples, as many as the image has.
pub proof fn a_key_keeps_its_low_bits(v: u16)
    ensures
        masked(v as int, 1) == v % 2,
        masked(v as int, 2) == v % 4,
        masked(v as int, 4) == v % 16,
        masked(v as int, 8) == v % 256,
        masked(v as int, 16) == v,
{
    reveal_with_fuel(crate::ancillary::two_to, 9);
}

/// What PLTE and tRNS mean beside a header: the palette of an indexed image, whose entries fit the bit
/// depth and are no fewer than the alphas; the colour key of a grey or a colour image, one or three samples
/// of two bytes, the high byte first. Every other image takes neither a tRNS nor, where it is grey, a PLTE.
pub proof fn palettes_and_keys(h: Ihdr, plte: Option<Seq<u8>>, trns: Option<Seq<u8>>)
    requires
        h.wf(),
    ensures
        ({
            let got = palette_and_key(h, plte, trns);
            let entries = plte->0.len() as int / 3;
            let whole = plte->0.len() % 3 == 0 && 1 <= entries <= 256;
            let alphas = if trns is Some {
                trns->0
            } else {
                Seq::empty()
            };
            let t = trns->0;
            &&& h.color is Indexed ==> (got is Ok <==> plte is Some && whole && entries <= full(
                h.bit_depth,
            ) + 1 && alphas.len() <= entries)
            &&& h.color is Indexed && got is Ok ==> (got->Ok_0.0 matches Some(p) && p.alphas == alphas
                && p.rgb.len() == entries && (forall|i: int|
                0 <= i < entries ==> (#[trigger] p.rgb[i])@[0] == plte->0[3 * i] && p.rgb[i]@[1]
                    == plte->0[3 * i + 1] && p.rgb[i]@[2] == plte->0[3 * i + 2]) && got->Ok_0.1 is None)
            &&& h.color is Grayscale ==> (got is Ok <==> plte is None && (trns is Some ==> t.len() == 2))
            &&& h.color is Truecolor ==> (got is Ok <==> (plte is Some ==> whole) && (trns is Some
                ==> t.len() == 6))
            &&& h.color is GrayscaleAlpha ==> (got is Ok <==> plte is None && trns is None)
            &&& h.color is TruecolorAlpha ==> (got is Ok <==> (plte is Some ==> whole) && trns is None)
            &&& !(h.color is Indexed) && got is Ok ==> got->Ok_0.0 is None && (got->Ok_0.1 is Some <==> trns is Some)
            &&& h.color is Grayscale && got is Ok && trns is Some ==> got->Ok_0.1 == Some(
                TransparencyKey::Gray(masked(256 * t[0] + t[1], h.bit_depth)),
            )
            &&& h.color is Truecolor && got is Ok && trns is Some ==> got->Ok_0.1 == Some(
                TransparencyKey::Rgb(
                    masked(256 * t[0] + t[1], h.bit_depth),
                    masked(256 * t[2] + t[3], h.bit_depth),
                    masked(256 * t[4] + t[5], h.bit_depth),
                ),
            )
        }),
{
    reveal_with_fuel(crate::ancillary::two_to, 9);
}

} // verus!
