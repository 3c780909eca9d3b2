//! PNG colour types (PNG §11.2.1).
use vstd::prelude::*;

verus! {

/// A PNG colour type.
#[derive(Debug, Clone, Copy, PartialEq, Eq, Structural)]
pub enum ColorType {
    /// One grey sample per pixel.
    Grayscale,
    /// Red, green and blue samples.
    Truecolor,
    /// One palette index per pixel.
    Indexed,
    /// A grey sample and an alpha sample.
    GrayscaleAlpha,
    /// Red, green, blue and alpha samples.
    TruecolorAlpha,
}

/// The colour type an IHDR code names.
pub open spec fn color_of_code(code: u8) -> Option<ColorType> {
    if code == 0 {
        Some(ColorType::Grayscale)
    } else if code == 2 {
        Some(ColorType::Truecolor)
    } else if code == 3 {
        Some(ColorType::Indexed)
    } else if code == 4 {
        Some(ColorType::GrayscaleAlpha)
    } else if code == 6 {
        Some(ColorType::TruecolorAlpha)
    } else {
        None
    }
}

impl ColorType {
    /// The IHDR code.
    pub open spec fn spec_code(self) -> u8 {
        match self {
            ColorType::Grayscale => 0,
            ColorType::Truecolor => 2,
            ColorType::Indexed => 3,
            ColorType::GrayscaleAlpha => 4,
            ColorType::TruecolorAlpha => 6,
        }
    }

    /// Samples per pixel.
    pub open spec fn spec_channels(self) -> int {
        match self {
            ColorType::Grayscale => 1,
            ColorType::Truecolor => 3,
            ColorType::Indexed => 1,
            ColorType::GrayscaleAlpha => 2,
            ColorType::TruecolorAlpha => 4,
        }
    }

    /// Whether a bit depth is allowed (PNG §11.2.1, Table 12).
    pub open spec fn spec_allows(self, depth: u8) -> bool {
        match self {
            ColorType::Grayscale => depth == 1 || depth == 2 || depth == 4 || depth == 8 || depth
                == 16,
            ColorType::Indexed => depth == 1 || depth == 2 || depth == 4 || depth == 8,
            _ => depth == 8 || depth == 16,
        }
    }

    /// The IHDR code.
    pub fn code(self) -> (code: u8)
        ensures
            code == self.spec_code(),
            color_of_code(code) == Some(self),
    {
        match self {
            ColorType::Grayscale => 0,
            ColorType::Truecolor => 2,
            ColorType::Indexed => 3,
            ColorType::GrayscaleAlpha => 4,
            ColorType::TruecolorAlpha => 6,
        }
    }

    /// The colour type an IHDR code names, if any.
    pub fn from_code(code: u8) -> (color: Option<Self>)
        ensures
            color == color_of_code(code),
    {
        match code {
            0 => Some(ColorType::Grayscale),
            2 => Some(ColorType::Truecolor),
            3 => Some(ColorType::Indexed),
            4 => Some(ColorType::GrayscaleAlpha),
            6 => Some(ColorType::TruecolorAlpha),
            _ => None,
        }
    }

    /// Samples per pixel.
    pub fn channels(self) -> (channels: usize)
        ensures
            channels == self.spec_channels(),
            1 <= channels <= 4,
    {
        match self {
            ColorType::Grayscale => 1,
            ColorType::Truecolor => 3,
            ColorType::Indexed => 1,
            ColorType::GrayscaleAlpha => 2,
            ColorType::TruecolorAlpha => 4,
        }
    }

    /// Whether a bit depth is allowed for this colour type.
    pub fn allows(self, depth: u8) -> (allowed: bool)
        ensures
            allowed == self.spec_allows(depth),
    {
        match self {
            ColorType::Grayscale => depth == 1 || depth == 2 || depth == 4 || depth == 8 || depth
                == 16,
            ColorType::Indexed => depth == 1 || depth == 2 || depth == 4 || depth == 8,
            _ => depth == 8 || depth == 16,
        }
    }
}

} // verus!
