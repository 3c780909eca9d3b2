//! Pixel layouts, and the lossless conversions between them.
use crate::error::{failed, Cause, Error};
use crate::reduce::{pixel_inside, pixel_position};
use vstd::prelude::*;

verus! {

/// How the samples of a pixel are laid out.
#[derive(Debug, Clone, Copy, PartialEq, Eq, Structural)]
pub enum PixelFormat {
    /// One sample per pixel, 0 or 1.
    Bilevel,
    /// 8-bit grey.
    Gray8,
    /// 16-bit grey.
    Gray16,
    /// 8-bit grey and alpha.
    GrayAlpha8,
    /// 16-bit grey and alpha.
    GrayAlpha16,
    /// 8-bit red, green and blue.
    Rgb8,
    /// 16-bit red, green and blue.
    Rgb16,
    /// 8-bit red, green, blue and alpha.
    Rgba8,
    /// 16-bit red, green, blue and alpha.
    Rgba16,
    /// 8-bit palette indices.
    Indexed8,
}

impl PixelFormat {
    /// Whether the layout has separate colour channels.
    pub open spec fn spec_is_color(self) -> bool {
        self is Rgb8 || self is Rgb16 || self is Rgba8 || self is Rgba16
    }

    /// Whether the layout has an alpha channel.
    pub open spec fn spec_has_alpha(self) -> bool {
        self is GrayAlpha8 || self is GrayAlpha16 || self is Rgba8 || self is Rgba16
    }

    /// Whether the samples are 16 bits wide.
    pub open spec fn spec_is_wide(self) -> bool {
        self is Gray16 || self is GrayAlpha16 || self is Rgb16 || self is Rgba16
    }

    /// Samples per pixel.
    pub open spec fn spec_channels(self) -> int {
        (if self.spec_is_color() {
            3int
        } else {
            1
        }) + (if self.spec_has_alpha() {
            1int
        } else {
            0
        })
    }

    /// The largest sample of the layout.
    pub open spec fn spec_max(self) -> u16 {
        if self is Bilevel {
            1
        } else if self.spec_is_wide() {
            0xFFFF
        } else {
            0xFF
        }
    }

    /// Whether the layout has separate colour channels.
    pub fn is_color(self) -> (is: bool)
        ensures
            is == self.spec_is_color(),
    {
        match self {
            PixelFormat::Rgb8 | PixelFormat::Rgb16 | PixelFormat::Rgba8 | PixelFormat::Rgba16 => true,
            _ => false,
        }
    }

    /// Whether the layout has an alpha channel.
    pub fn has_alpha(self) -> (has: bool)
        ensures
            has == self.spec_has_alpha(),
    {
        match self {
            PixelFormat::GrayAlpha8
            | PixelFormat::GrayAlpha16
            | PixelFormat::Rgba8
            | PixelFormat::Rgba16 => true,
            _ => false,
        }
    }

    /// Whether the samples are 16 bits wide.
    pub fn is_wide(self) -> (is: bool)
        ensures
            is == self.spec_is_wide(),
    {
        match self {
            PixelFormat::Gray16
            | PixelFormat::GrayAlpha16
            | PixelFormat::Rgb16
            | PixelFormat::Rgba16 => true,
            _ => false,
        }
    }

    /// Samples per pixel.
    pub fn channels(self) -> (channels: usize)
        ensures
            channels == self.spec_channels(),
    {
        let color: usize = if self.is_color() {
            3
        } else {
            1
        };
        if self.has_alpha() {
            color + 1
        } else {
            color
        }
    }
}

/// Samples and their layout.
#[derive(Debug, PartialEq, Eq)]
pub enum Pixels {
    /// 8-bit samples.
    B8(PixelFormat, Vec<u8>),
    /// 16-bit samples.
    B16(PixelFormat, Vec<u16>),
}

/// Bytes as 16-bit values.
pub open spec fn widened(bytes: Seq<u8>) -> Seq<u16> {
    bytes.map_values(|b: u8| b as u16)
}

impl Pixels {
    /// The layout.
    pub open spec fn spec_format(&self) -> PixelFormat {
        match self {
            Pixels::B8(format, _) => *format,
            Pixels::B16(format, _) => *format,
        }
    }

    /// The samples as 16-bit values.
    pub open spec fn samples(&self) -> Seq<u16> {
        match self {
            Pixels::B8(_, v) => widened(v@),
            Pixels::B16(_, v) => v@,
        }
    }

    /// Whether the samples are stored at the width of the layout.
    pub open spec fn wf(&self) -> bool {
        self is B16 <==> self.spec_format().spec_is_wide()
    }
}

/// Samples in a layout, held at 16 bits whatever the layout.
pub struct Raster {
    pub format: PixelFormat,
    pub samples: Vec<u16>,
}

/// Whether every sample is in the range of a layout.
pub open spec fn in_range(format: PixelFormat, samples: Seq<u16>) -> bool {
    forall|i: int| 0 <= i < samples.len() ==> (#[trigger] samples[i]) <= format.spec_max()
}

/// Narrows samples that fit to bytes.
pub fn narrow(samples: &Vec<u16>) -> (bytes: Vec<u8>)
    requires
        forall|i: int| 0 <= i < samples@.len() ==> (#[trigger] samples@[i]) <= 0xFF,
    ensures
        widened(bytes@) == samples@,
        bytes@.len() == samples@.len(),
{
    let mut bytes: Vec<u8> = Vec::new();
    let mut i: usize = 0;
    while i < samples.len()
        invariant
            i <= samples@.len(),
            forall|j: int| 0 <= j < samples@.len() ==> (#[trigger] samples@[j]) <= 0xFF,
            widened(bytes@) == samples@.subrange(0, i as int),
        decreases samples@.len() - i,
    {
        let ghost before = bytes@;
        bytes.push(samples[i] as u8);
        i += 1;
        assert(widened(bytes@) =~= widened(before).push(samples@[i - 1]));
        assert(widened(bytes@) =~= samples@.subrange(0, i as int));
    }
    assert(widened(bytes@) =~= samples@);
    bytes
}

impl Raster {
    /// The samples at the width of their layout.
    pub fn into_pixels(self) -> (pixels: Pixels)
        requires
            in_range(self.format, self.samples@),
        ensures
            pixels.wf(),
            pixels.spec_format() == self.format,
            pixels.samples() == self.samples@,
    {
        if self.format.is_wide() {
            Pixels::B16(self.format, self.samples)
        } else {
            Pixels::B8(self.format, narrow(&self.samples))
        }
    }
}

/// Whether a layout holds every image of another without loss: it has colour, alpha and width
/// where the other has them. Nothing else becomes bilevel, and palette indices stay indices.
pub open spec fn holds_losslessly(source: PixelFormat, target: PixelFormat) -> bool {
    if source == target {
        true
    } else {
        &&& !(target is Bilevel)
        &&& !(target is Indexed8)
        &&& !(source is Indexed8)
        &&& source.spec_is_color() ==> target.spec_is_color()
        &&& source.spec_has_alpha() ==> target.spec_has_alpha()
        &&& source.spec_is_wide() ==> target.spec_is_wide()
    }
}

/// A sample at the scale of a wider layout.
pub open spec fn rescaled(source: PixelFormat, target: PixelFormat, v: u16) -> u16 {
    let byte = if source is Bilevel {
        v * 255
    } else {
        v as int
    };
    if target.spec_is_wide() && !source.spec_is_wide() {
        (byte * 257) as u16
    } else {
        byte as u16
    }
}

/// Channel `c` of pixel `i` of an image in a wider layout: grey stands in every colour channel, and
/// an image without alpha is opaque.
pub open spec fn widened_sample(
    source: PixelFormat,
    target: PixelFormat,
    samples: Seq<u16>,
    i: int,
    c: int,
) -> u16 {
    let from = i * source.spec_channels();
    if c == target.spec_channels() - 1 && target.spec_has_alpha() {
        if source.spec_has_alpha() {
            rescaled(source, target, samples[from + source.spec_channels() - 1])
        } else {
            target.spec_max()
        }
    } else if source.spec_is_color() {
        rescaled(source, target, samples[from + c])
    } else {
        rescaled(source, target, samples[from])
    }
}

/// An image in a wider layout.
pub open spec fn converted(source: PixelFormat, target: PixelFormat, samples: Seq<u16>) -> Seq<
    u16,
> {
    if source == target {
        samples
    } else {
        let n = target.spec_channels();
        Seq::new(
            (samples.len() as int / source.spec_channels() * n) as nat,
            |j: int| widened_sample(source, target, samples, j / n, j % n),
        )
    }
}

/// Whether a layout holds every image of another without loss.
pub fn is_lossless(source: PixelFormat, target: PixelFormat) -> (lossless: bool)
    ensures
        lossless == holds_losslessly(source, target),
{
    if source == target {
        return true;
    }
    match target {
        PixelFormat::Bilevel | PixelFormat::Indexed8 => {
            return false;
        },
        _ => {},
    }
    match source {
        PixelFormat::Indexed8 => {
            return false;
        },
        _ => {},
    }
    (!source.is_color() || target.is_color()) && (!source.has_alpha() || target.has_alpha()) && (
    !source.is_wide() || target.is_wide())
}

fn rescale(source: PixelFormat, target: PixelFormat, v: u16) -> (w: u16)
    requires
        v <= source.spec_max(),
        holds_losslessly(source, target),
        source != target,
    ensures
        w == rescaled(source, target, v),
        w <= target.spec_max(),
{
    let byte: u16 = match source {
        PixelFormat::Bilevel => v * 255,
        _ => v,
    };
    if target.is_wide() && !source.is_wide() {
        byte * 257
    } else {
        byte
    }
}

/// Presents an image in another layout, where that layout holds it without loss: greyscale
/// replicates into colour, an opaque alpha channel can be added, bilevel scales to 8 bits and 8-bit
/// samples widen to 16.
pub fn convert(image: Raster, target: PixelFormat) -> (out: Result<Raster, Error>)
    requires
        in_range(image.format, image.samples@),
    ensures
        if holds_losslessly(image.format, target) {
            out matches Ok(r) && r.format == target && in_range(target, r.samples@) && r.samples@
                == converted(image.format, target, image.samples@)
        } else {
            failed(out, Cause::LossyLayout)
        },
{
    let source: PixelFormat = image.format;
    if !is_lossless(source, target) {
        return Err(Error::new(Cause::LossyLayout));
    }
    if source == target {
        return Ok(image);
    }
    let from_channels: usize = source.channels();
    let channels: usize = target.channels();
    let count: usize = image.samples.len() / from_channels;
    let ghost want = converted(source, target, image.samples@);
    let mut out: Vec<u16> = Vec::new();
    let mut i: usize = 0;
    assert(0 * channels == 0);
    assert(out@ =~= want.subrange(0, 0));
    while i < count
        invariant
            source == image.format,
            source != target,
            holds_losslessly(source, target),
            in_range(source, image.samples@),
            from_channels == source.spec_channels(),
            channels == target.spec_channels(),
            1 <= channels <= 4,
            1 <= from_channels <= 4,
            count == image.samples@.len() as int / from_channels as int,
            want == converted(source, target, image.samples@),
            want.len() == count * channels,
            i <= count,
            out@ == want.subrange(0, i * channels),
            in_range(target, out@),
        decreases count - i,
    {
        proof {
            pixel_inside(image.samples.len() as int, from_channels as int, i as int);
            assert((i + 1) * channels == i * channels + channels && i * channels >= 0)
                by (nonlinear_arith)
                requires
                    i >= 0,
                    channels >= 0,
            ;
            assert((i + 1) * channels <= count * channels) by (nonlinear_arith)
                requires
                    i + 1 <= count,
                    channels >= 1,
            ;
        }
        let from: usize = i * from_channels;
        let mut c: usize = 0;
        while c < channels
            invariant
                source == image.format,
                source != target,
                holds_losslessly(source, target),
                in_range(source, image.samples@),
                from_channels == source.spec_channels(),
                channels == target.spec_channels(),
                1 <= channels <= 4,
                1 <= from_channels <= 4,
                from == i * from_channels,
                from + from_channels <= image.samples.len(),
                want == converted(source, target, image.samples@),
                0 <= i * channels,
                i * channels + channels <= want.len(),
                c <= channels,
                out@ == want.subrange(0, i * channels + c),
                in_range(target, out@),
            decreases channels - c,
        {
            let value: u16 = if c == channels - 1 && target.has_alpha() {
                if source.has_alpha() {
                    rescale(source, target, image.samples[from + from_channels - 1])
                } else if target.is_wide() {
                    0xFFFF
                } else {
                    0xFF
                }
            } else if source.is_color() {
                rescale(source, target, image.samples[from + c])
            } else {
                rescale(source, target, image.samples[from])
            };
            proof {
                pixel_position(i as int, channels as int, c as int);
            }
            assert(want[i * channels + c] == value);
            let ghost before = out@;
            out.push(value);
            c += 1;
            assert(out@ =~= want.subrange(0, i * channels + c));
            assert(in_range(target, before.push(value)));
        }
        i += 1;
    }
    assert(out@ =~= want);
    Ok(Raster { format: target, samples: out })
}

/// A conversion loses nothing: two images of one layout and size that are presented alike in
/// another are the same.
pub proof fn conversion_is_lossless(
    source: PixelFormat,
    target: PixelFormat,
    a: Seq<u16>,
    b: Seq<u16>,
)
    requires
        holds_losslessly(source, target),
        in_range(source, a),
        in_range(source, b),
        a.len() == b.len(),
        a.len() as int % source.spec_channels() == 0,
        converted(source, target, a) == converted(source, target, b),
    ensures
        a == b,
{
    if source != target {
        let m = source.spec_channels();
        let n = target.spec_channels();
        assert forall|j: int| 0 <= j < a.len() implies #[trigger] a[j] == b[j] by {
            let i = j / m;
            let k = j % m;
            vstd::arithmetic::div_mod::lemma_fundamental_div_mod(j, m);
            vstd::arithmetic::div_mod::lemma_fundamental_div_mod(a.len() as int, m);
            let count = a.len() as int / m;
            assert(m * i == i * m) by (nonlinear_arith);
            assert(0 <= i < count) by (nonlinear_arith)
                requires
                    j == m * i + k,
                    0 <= k < m,
                    0 <= j < a.len(),
                    a.len() == m * count,
                    m >= 1,
            ;
            let c = if source.spec_has_alpha() && k == m - 1 {
                n - 1
            } else {
                k
            };
            assert(0 <= i * n + c < count * n) by (nonlinear_arith)
                requires
                    0 <= i < count,
                    0 <= c < n,
            ;
            pixel_position(i, n, c);
            assert(converted(source, target, a)[i * n + c] == widened_sample(source, target, a, i, c));
            assert(converted(source, target, b)[i * n + c] == widened_sample(source, target, b, i, c));
            assert(rescaled(source, target, a[j]) == rescaled(source, target, b[j]));
            assert(a[j] <= source.spec_max());
            assert(b[j] <= source.spec_max());
        }
        assert(a =~= b);
    }
}

/// The samples of an image to encode.
#[derive(Debug, Clone, Copy)]
pub enum SampleSlice<'a> {
    /// 8-bit samples.
    B8(&'a [u8]),
    /// 16-bit samples.
    B16(&'a [u16]),
}

/// A borrowed image: samples in a layout, and their dimensions.
#[derive(Debug, Clone, Copy)]
pub struct ImageRef<'a> {
    width: u32,
    height: u32,
    format: PixelFormat,
    samples: SampleSlice<'a>,
}

/// Whether a number of samples fills an image.
pub open spec fn fills(count: nat, format: PixelFormat, width: u32, height: u32) -> bool {
    count == width * height * format.spec_channels()
}

/// How many samples fill an image.
pub fn sample_count(format: PixelFormat, width: u32, height: u32) -> (count: u128)
    ensures
        count == width * height * format.spec_channels(),
{
    let channels: u128 = format.channels() as u128;
    proof {
        assert(0 <= width * height <= 0xFFFF_FFFF * 0xFFFF_FFFF) by (nonlinear_arith)
            requires
                0 <= width <= 0xFFFF_FFFF,
                0 <= height <= 0xFFFF_FFFF,
        ;
        assert((width * height) * channels <= 0xFFFF_FFFF * 0xFFFF_FFFF * 4) by (nonlinear_arith)
            requires
                0 <= width * height <= 0xFFFF_FFFF * 0xFFFF_FFFF,
                0 <= channels <= 4,
        ;
    }
    width as u128 * height as u128 * channels
}

impl<'a> ImageRef<'a> {
    /// The width in pixels.
    pub closed spec fn spec_width(&self) -> u32 {
        self.width
    }

    /// The height in pixels.
    pub closed spec fn spec_height(&self) -> u32 {
        self.height
    }

    /// The layout.
    pub closed spec fn spec_format(&self) -> PixelFormat {
        self.format
    }

    /// The samples as they are stored.
    pub closed spec fn spec_samples(&self) -> SampleSlice<'a> {
        self.samples
    }

    /// The samples as 16-bit values.
    pub open spec fn values(&self) -> Seq<u16> {
        match self.spec_samples() {
            SampleSlice::B8(s) => widened(s@),
            SampleSlice::B16(s) => s@,
        }
    }

    /// The image has pixels, and as many samples as its layout and dimensions ask for, at the width
    /// of the layout.
    pub open spec fn wf(&self) -> bool {
        &&& self.spec_width() >= 1
        &&& self.spec_height() >= 1
        &&& self.spec_samples() is B16 <==> self.spec_format().spec_is_wide()
        &&& fills(self.values().len(), self.spec_format(), self.spec_width(), self.spec_height())
    }

    /// An image of 8-bit samples.
    pub fn new8(format: PixelFormat, samples: &'a [u8], width: u32, height: u32) -> (image: Result<
        Self,
        Error,
    >)
        requires
            !format.spec_is_wide(),
        ensures
            if width == 0 || height == 0 {
                failed(image, Cause::ImageDimensions)
            } else if !fills(samples@.len(), format, width, height) {
                failed(image, Cause::SampleCount)
            } else {
                image matches Ok(i) && i.wf() && i.spec_width() == width && i.spec_height()
                    == height && i.spec_format() == format && i.spec_samples()
                    == SampleSlice::B8(samples)
            },
    {
        if width == 0 || height == 0 {
            return Err(Error::new(Cause::ImageDimensions));
        }
        if samples.len() as u128 != sample_count(format, width, height) {
            return Err(Error::new(Cause::SampleCount));
        }
        Ok(ImageRef { width, height, format, samples: SampleSlice::B8(samples) })
    }

    /// An image of 16-bit samples.
    pub fn new16(format: PixelFormat, samples: &'a [u16], width: u32, height: u32) -> (image:
        Result<Self, Error>)
        requires
            format.spec_is_wide(),
        ensures
            if width == 0 || height == 0 {
                failed(image, Cause::ImageDimensions)
            } else if !fills(samples@.len(), format, width, height) {
                failed(image, Cause::SampleCount)
            } else {
                image matches Ok(i) && i.wf() && i.spec_width() == width && i.spec_height()
                    == height && i.spec_format() == format && i.spec_samples()
                    == SampleSlice::B16(samples)
            },
    {
        if width == 0 || height == 0 {
            return Err(Error::new(Cause::ImageDimensions));
        }
        if samples.len() as u128 != sample_count(format, width, height) {
            return Err(Error::new(Cause::SampleCount));
        }
        Ok(ImageRef { width, height, format, samples: SampleSlice::B16(samples) })
    }

    /// The width in pixels.
    pub fn width(&self) -> (width: u32)
        ensures
            width == self.spec_width(),
    {
        self.width
    }

    /// The height in pixels.
    pub fn height(&self) -> (height: u32)
        ensures
            height == self.spec_height(),
    {
        self.height
    }

    /// The layout.
    pub fn format(&self) -> (format: PixelFormat)
        ensures
            format == self.spec_format(),
    {
        self.format
    }

    /// The samples as they are stored.
    pub fn samples(&self) -> (samples: SampleSlice<'a>)
        ensures
            samples == self.spec_samples(),
    {
        self.samples
    }
}

} // verus!
