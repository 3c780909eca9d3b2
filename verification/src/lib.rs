//! PNG encoding, decoding and analysis, the JPEG XL container, and a typed model of image metadata.
//!
//! [`encoder::PngEncoder`] writes files and [`decoder::PngDecoder`] reads them. [`decoder::metadata`]
//! reads the metadata of a file without its pixels, and [`survey::deconstruct`] says where the bytes of
//! a file went. What is read back of what was written is stated in [`lossless`] and [`preserve`].
use vstd::prelude::*;

pub mod adam7;
pub mod alike;
pub mod ancillary;
pub mod answers;
pub mod backend;
pub mod boxes;
pub mod builder;
pub mod bytes;
pub mod canvas;
pub mod capability;
pub mod carry;
pub mod choices;
pub mod chunk;
pub mod clauses;
pub mod color;
pub mod crc32;
pub mod deconstruct;
pub mod decoded;
pub mod decoder;
pub mod deflate;
pub mod dispatch;
pub mod draft;
pub mod encoder;
pub mod error;
pub mod filter;
pub mod frames;
pub mod ihdr;
pub mod jxl;
pub mod layout;
pub mod lossless;
pub mod metadata;
pub mod pack;
pub mod parse;
pub mod palette;
pub mod pixels;
pub mod preserve;
pub mod provenance;
pub mod raster;
pub mod reduce;
pub mod refusals;
pub mod roundtrip;
pub mod scan;
pub mod seam;
pub mod shows;
pub mod sizes;
pub mod store;
pub mod survey;
pub mod text;
pub mod verdicts;
pub mod wire;
pub mod zlib;

verus! {

} // verus!
