//! The image header chunk (PNG §11.2.1).
use crate::bytes::{be32, be32_round_trip, be32_seq, push_be32, read_be32};
use crate::chunk::{chunk_bytes, write_chunk, IHDR};
use crate::color::{color_of_code, ColorType};
use crate::error::{failed, Cause, Error};
use vstd::prelude::*;

verus! {

/// A parsed image header.
#[derive(Debug, Clone, Copy, PartialEq, Eq, Structural)]
pub struct Ihdr {
    /// Image width in pixels.
    pub width: u32,
    /// Image height in pixels.
    pub height: u32,
    /// Bits per sample.
    pub bit_depth: u8,
    /// The colour type.
    pub color: ColorType,
    /// Whether the image is Adam7-interlaced.
    pub interlaced: bool,
}

/// The largest dimension PNG allows, 2^31 - 1.
pub const MAX_DIMENSION: u32 = 0x7FFF_FFFF;

impl Ihdr {
    /// Dimensions of 1 to 2^31 - 1, and a depth that the colour type allows.
    pub open spec fn wf(&self) -> bool {
        &&& 1 <= self.width <= MAX_DIMENSION
        &&& 1 <= self.height <= MAX_DIMENSION
        &&& self.color.spec_allows(self.bit_depth)
    }

    /// Bits per pixel.
    pub open spec fn spec_bits_per_pixel(&self) -> int {
        self.color.spec_channels() * self.bit_depth
    }

    /// Bits per pixel.
    pub fn bits_per_pixel(&self) -> (bits: usize)
        requires
            self.color.spec_allows(self.bit_depth),
        ensures
            bits == self.spec_bits_per_pixel(),
            1 <= bits <= 64,
    {
        let channels: usize = self.color.channels();
        let depth: usize = self.bit_depth as usize;
        assert(1 <= channels * depth <= 64) by (nonlinear_arith)
            requires
                1 <= channels <= 4,
                1 <= depth <= 16,
        ;
        channels * depth
    }
}

/// The 13 payload bytes of a header.
pub open spec fn ihdr_payload(h: Ihdr) -> Seq<u8> {
    be32_seq(h.width as int) + be32_seq(h.height as int) + seq![
        h.bit_depth,
        h.color.spec_code(),
        0u8,
        0u8,
        if h.interlaced {
            1u8
        } else {
            0u8
        },
    ]
}

/// Why an IHDR payload is no header.
pub open spec fn ihdr_fault(data: Seq<u8>) -> Option<Cause> {
    if data.len() != 13 {
        Some(Cause::IhdrLength)
    } else if !(1 <= be32(data, 0) <= MAX_DIMENSION) || !(1 <= be32(data, 4) <= MAX_DIMENSION) {
        Some(Cause::ImageDimensions)
    } else if color_of_code(data[9]) is None {
        Some(Cause::UnknownColorType)
    } else if !color_of_code(data[9])->0.spec_allows(data[8]) {
        Some(Cause::DepthNotAllowed)
    } else if data[10] != 0 || data[11] != 0 || data[12] > 1 {
        Some(Cause::UnknownMethod)
    } else {
        None
    }
}

/// The header an IHDR payload without a fault holds.
pub open spec fn ihdr_of(data: Seq<u8>) -> Ihdr {
    Ihdr {
        width: be32(data, 0) as u32,
        height: be32(data, 4) as u32,
        bit_depth: data[8],
        color: color_of_code(data[9])->0,
        interlaced: data[12] == 1,
    }
}

/// Parses an IHDR payload.
pub fn parse(data: &[u8]) -> (header: Result<Ihdr, Error>)
    ensures
        match ihdr_fault(data@) {
            Some(cause) => failed(header, cause),
            None => header matches Ok(h) && h == ihdr_of(data@) && h.wf(),
        },
{
    if data.len() != 13 {
        return Err(Error::new(Cause::IhdrLength));
    }
    let width: u32 = read_be32(data, 0);
    let height: u32 = read_be32(data, 4);
    if width == 0 || width > MAX_DIMENSION || height == 0 || height > MAX_DIMENSION {
        return Err(Error::new(Cause::ImageDimensions));
    }
    let bit_depth: u8 = data[8];
    let color: ColorType = match ColorType::from_code(data[9]) {
        Some(color) => color,
        None => {
            return Err(Error::new(Cause::UnknownColorType));
        },
    };
    if !color.allows(bit_depth) {
        return Err(Error::new(Cause::DepthNotAllowed));
    }
    if data[10] != 0 || data[11] != 0 || data[12] > 1 {
        return Err(Error::new(Cause::UnknownMethod));
    }
    Ok(Ihdr { width, height, bit_depth, color, interlaced: data[12] == 1 })
}

/// Appends the IHDR chunk of a non-interlaced image.
pub fn write(out: &mut Vec<u8>, width: u32, height: u32, bit_depth: u8, color: ColorType)
    ensures
        final(out)@ == old(out)@ + chunk_bytes(
            IHDR@,
            ihdr_payload(Ihdr { width, height, bit_depth, color, interlaced: false }),
        ),
{
    let mut payload: Vec<u8> = Vec::new();
    push_be32(&mut payload, width);
    push_be32(&mut payload, height);
    payload.push(bit_depth);
    payload.push(color.code());
    payload.push(0);
    payload.push(0);
    payload.push(0);
    assert(payload@ =~= ihdr_payload(Ihdr { width, height, bit_depth, color, interlaced: false }));
    write_chunk(out, IHDR, payload.as_slice());
}

/// Parsing a written header gives it back.
pub proof fn header_round_trip(h: Ihdr)
    requires
        h.wf(),
    ensures
        ihdr_fault(ihdr_payload(h)) is None,
        ihdr_of(ihdr_payload(h)) == h,
{
    let data = ihdr_payload(h);
    be32_round_trip(h.width);
    be32_round_trip(h.height);
    let w = be32_seq(h.width as int);
    let v = be32_seq(h.height as int);
    assert(data[0] == w[0] && data[1] == w[1] && data[2] == w[2] && data[3] == w[3]);
    assert(data[4] == v[0] && data[5] == v[1] && data[6] == v[2] && data[7] == v[3]);
    assert(be32(data, 0) == h.width);
    assert(be32(data, 4) == h.height);
    assert(color_of_code(h.color.spec_code()) == Some(h.color));
}

/// Bytes of the decoded image: one byte per sample up to 8 bits, two at 16.
pub open spec fn decoded_bytes(width: u32, height: u32, channels: int, bit_depth: u8) -> int {
    width * height * channels * (if bit_depth == 16 {
        2int
    } else {
        1
    })
}

/// The size of the decoded image in bytes, or `None` where it does not fit `usize`.
pub fn native_bytes(width: u32, height: u32, channels: usize, bit_depth: u8) -> (bytes: Option<
    usize,
>)
    requires
        1 <= channels <= 4,
    ensures
        match bytes {
            Some(b) => b == decoded_bytes(width, height, channels as int, bit_depth),
            None => decoded_bytes(width, height, channels as int, bit_depth) > usize::MAX,
        },
{
    let size: u128 = if bit_depth == 16 {
        2
    } else {
        1
    };
    proof {
        assert(0 <= width * height <= 0xFFFF_FFFF * 0xFFFF_FFFF) by (nonlinear_arith)
            requires
                0 <= width <= 0xFFFF_FFFF,
                0 <= height <= 0xFFFF_FFFF,
        ;
        assert(0 <= (width * height) * channels <= 0xFFFF_FFFF * 0xFFFF_FFFF * 4)
            by (nonlinear_arith)
            requires
                0 <= width * height <= 0xFFFF_FFFF * 0xFFFF_FFFF,
                0 <= channels <= 4,
        ;
    }
    let samples: u128 = width as u128 * height as u128 * channels as u128;
    let total: u128 = samples * size;
    if total > usize::MAX as u128 {
        None
    } else {
        Some(total as usize)
    }
}

} // verus!
