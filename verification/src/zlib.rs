//! zlib streams (RFC 1950), by `miniz_oxide`.
use crate::error::{failed, Cause, Error};
use vstd::prelude::*;

verus! {

/// The zlib stream `miniz_oxide` makes of `data` at a compression level.
pub uninterp spec fn zlib_stream(data: Seq<u8>, level: u8) -> Seq<u8>;

/// What `miniz_oxide` inflates a zlib stream to, if it is whole and inflates to at most `limit`
/// bytes.
pub uninterp spec fn zlib_contents(stream: Seq<u8>, limit: int) -> Option<Seq<u8>>;

/// Why `miniz_oxide` did not inflate a stream.
#[verifier::external_type_specification]
#[verifier::external_body]
pub struct ExDecompressError(miniz_oxide::inflate::DecompressError);

/// `miniz_oxide::deflate::compress_to_vec_zlib`: a zlib stream of `input`. Inflating the stream
/// gives `input` back under every limit that it fits.
pub assume_specification[ miniz_oxide::deflate::compress_to_vec_zlib ](
    input: &[u8],
    level: u8,
) -> (stream: Vec<u8>)
    ensures
        stream@ == zlib_stream(input@, level),
        forall|limit: int|
            limit >= input@.len() ==> #[trigger] zlib_contents(stream@, limit) == Some(input@),
;

/// `miniz_oxide::inflate::decompress_to_vec_zlib_with_limit`: the contents of a zlib stream, at
/// most `max_size` bytes of them, or an error.
pub assume_specification[ miniz_oxide::inflate::decompress_to_vec_zlib_with_limit ](
    input: &[u8],
    max_size: usize,
) -> (contents: Result<Vec<u8>, miniz_oxide::inflate::DecompressError>)
    ensures
        contents is Ok <==> zlib_contents(input@, max_size as int) is Some,
        contents matches Ok(c) ==> zlib_contents(input@, max_size as int) == Some(c@) && c@.len()
            <= max_size,
;

/// How hard to compress.
#[derive(Debug, Clone, Copy, PartialEq, Eq, Structural)]
pub enum Level {
    /// Fastest.
    Fast,
    /// A balance of speed and size.
    Default,
    /// Smallest, within the configured effort: never less than [`Level::Default`] spends.
    Best,
}

/// The effort spent at [`Level::Best`] unless another is set.
pub const DEFAULT_EFFORT: u8 = 9;

/// The compression level of [`Level::Default`], the least that [`Level::Best`] comes to.
pub const DEFAULT_STRENGTH: u8 = 6;

/// The highest compression level.
pub const MAX_STRENGTH: u8 = 10;

impl Level {
    /// The compression level, from 0 to 10, that a level and an effort stand for.
    pub open spec fn spec_strength(self, effort: u8) -> u8 {
        match self {
            Level::Fast => 1,
            Level::Default => DEFAULT_STRENGTH,
            Level::Best => if effort > MAX_STRENGTH {
                MAX_STRENGTH
            } else if effort < DEFAULT_STRENGTH {
                DEFAULT_STRENGTH
            } else {
                effort
            },
        }
    }

    /// The compression level, from 0 to 10, that a level and an effort stand for.
    pub fn strength(self, effort: u8) -> (strength: u8)
        ensures
            strength == self.spec_strength(effort),
    {
        match self {
            Level::Fast => 1,
            Level::Default => DEFAULT_STRENGTH,
            Level::Best => if effort > MAX_STRENGTH {
                MAX_STRENGTH
            } else if effort < DEFAULT_STRENGTH {
                DEFAULT_STRENGTH
            } else {
                effort
            },
        }
    }
}

/// Whether a zlib stream inflates back to data under every limit that admits it.
pub open spec fn inflates_to(stream: Seq<u8>, data: Seq<u8>) -> bool {
    forall|limit: int| limit >= data.len() ==> #[trigger] zlib_contents(stream, limit) == Some(data)
}

/// Compresses `data` into a zlib stream.
pub fn zlib_compress(data: &[u8], strength: u8) -> (stream: Vec<u8>)
    ensures
        stream@ == zlib_stream(data@, strength),
        inflates_to(stream@, data@),
{
    miniz_oxide::deflate::compress_to_vec_zlib(data, strength)
}

/// Inflates a zlib stream to at most `max` bytes.
pub fn inflate_zlib(data: &[u8], max: usize) -> (contents: Result<Vec<u8>, Error>)
    ensures
        match zlib_contents(data@, max as int) {
            Some(c) => contents matches Ok(v) && v@ == c && v@.len() <= max,
            None => failed(contents, Cause::CorruptZlib),
        },
{
    match miniz_oxide::inflate::decompress_to_vec_zlib_with_limit(data, max) {
        Ok(contents) => Ok(contents),
        Err(_) => Err(Error::new(Cause::CorruptZlib)),
    }
}

} // verus!
