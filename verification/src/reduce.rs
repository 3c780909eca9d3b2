//! Lossless colour-type and bit-depth reductions.
//!
//! Before encoding, an image is scanned for redundancy that a smaller PNG encoding can drop without
//! changing any pixel: an all-opaque alpha channel, identical R=G=B channels, a palette of at most
//! 256 distinct colours, grey values exactly representable at a sub-byte depth (§13.12), or 16-bit
//! samples whose high and low bytes agree. Every reduction is exactly reversible.
//!
//! The analysis ranks the candidates by *estimated* raw byte count and returns a [`Reductions`]
//! rather than a single winner, because a raw byte count cannot see compression: a palette or a
//! colour key carries a chunk that does not compress, so whenever the estimate picks such a
//! candidate the best chunk-free one is handed over beside it.
use crate::bytes::byte_len;
use crate::palette::{alpha_at, trim_trailing_opaque, trimmed};
use std::collections::HashMap;
use vstd::prelude::*;

verus! {

broadcast use vstd::std_specs::hash::group_hash_axioms;

/// Red, green, blue and alpha of a pixel.
pub type Quad = (u8, u8, u8, u8);

/// The components of a four-byte array.
pub open spec fn as_quad(a: [u8; 4]) -> Quad {
    (a[0], a[1], a[2], a[3])
}

/// The quad of the pixel whose first sample stands at `at`: grey replicates into R=G=B, and layouts
/// without an alpha channel (the odd channel counts) are opaque.
pub open spec fn quad_from(pixels: Seq<u8>, channels: int, at: int) -> Quad {
    let alpha = if channels % 2 == 0 {
        pixels[at + channels - 1]
    } else {
        255
    };
    if channels >= 3 {
        (pixels[at], pixels[at + 1], pixels[at + 2], alpha)
    } else {
        (pixels[at], pixels[at], pixels[at], alpha)
    }
}

/// The quads of an interleaved image.
pub open spec fn quads(pixels: Seq<u8>, channels: int) -> Seq<Quad> {
    Seq::new(
        (pixels.len() as int / channels) as nat,
        |i: int| quad_from(pixels, channels, i * channels),
    )
}

/// The quotient and remainder of a position inside pixel `i`.
pub proof fn pixel_position(i: int, channels: int, k: int)
    requires
        0 <= k < channels,
    ensures
        (i * channels + k) / channels == i,
        (i * channels + k) % channels == k,
{
    vstd::arithmetic::div_mod::lemma_fundamental_div_mod_converse(i * channels + k, channels, i, k);
}

/// The samples of whole pixel `i` lie inside the image.
pub proof fn pixel_inside(len: int, channels: int, i: int)
    requires
        channels >= 1,
        0 <= i < len / channels,
    ensures
        0 <= i * channels,
        i * channels + channels <= len,
        i * channels + channels == (i + 1) * channels,
{
    vstd::arithmetic::div_mod::lemma_fundamental_div_mod(len, channels);
    assert((i + 1) * channels <= channels * (len / channels)) by (nonlinear_arith)
        requires
            channels >= 1,
            i + 1 <= len / channels,
    ;
    assert((i + 1) * channels == i * channels + channels) by (nonlinear_arith);
    assert(0 <= i * channels) by (nonlinear_arith)
        requires
            0 <= i,
            1 <= channels,
    ;
}

/// A chosen reduced encoding for an image.
#[allow(inconsistent_fields)]
#[derive(Debug)]
pub enum Reduced {
    /// Greyscale at depth 1, 2, 4 or 8 (R=G=B, fully opaque). One byte per pixel: the raw value at
    /// depth 8, the unscaled code below it.
    Gray {
        /// Grey bit depth (1, 2, 4, or 8).
        depth: u8,
        /// One sample per pixel.
        samples: Vec<u8>,
    },
    /// 8-bit greyscale and alpha (R=G=B with transparency).
    GrayAlpha8(Vec<u8>),
    /// 8-bit RGB (alpha was fully opaque and dropped).
    Rgb8(Vec<u8>),
    /// 8-bit RGBA: a 16-bit input demoted losslessly, with no further channel reduction.
    Rgba8(Vec<u8>),
    /// 16-bit greyscale (R=G=B, fully opaque), big-endian.
    Gray16Be(Vec<u8>),
    /// 16-bit greyscale and alpha (R=G=B with transparency), big-endian.
    GrayAlpha16Be(Vec<u8>),
    /// 16-bit RGB (alpha was fully opaque and dropped), big-endian.
    Rgb16Be(Vec<u8>),
    /// 8-bit RGB plus a tRNS colour key (§11.3.2.1).
    Rgb8Keyed {
        /// One RGB triple per pixel.
        samples: Vec<u8>,
        /// The colour that reads as fully transparent.
        key: [u8; 3],
    },
    /// 8-bit greyscale plus a tRNS colour key.
    GrayKeyed {
        /// One grey sample per pixel.
        samples: Vec<u8>,
        /// The grey value that reads as fully transparent.
        key: u8,
    },
    /// Indexed colour with the smallest sufficient bit depth.
    Indexed {
        /// Index bit depth (1, 2, 4, or 8).
        depth: u8,
        /// One palette index per pixel.
        indices: Vec<u8>,
        /// PLTE payload (RGB triples).
        plte: Vec<u8>,
        /// tRNS payload (palette alphas), if the palette is not fully opaque.
        trns: Option<Vec<u8>>,
    },
}

/// [`Reduced`] as values.
#[allow(inconsistent_fields)]
pub enum ReducedModel {
    Gray { depth: u8, samples: Seq<u8> },
    GrayAlpha8(Seq<u8>),
    Rgb8(Seq<u8>),
    Rgba8(Seq<u8>),
    Gray16Be(Seq<u8>),
    GrayAlpha16Be(Seq<u8>),
    Rgb16Be(Seq<u8>),
    Rgb8Keyed { samples: Seq<u8>, key: (u8, u8, u8) },
    GrayKeyed { samples: Seq<u8>, key: u8 },
    Indexed { depth: u8, indices: Seq<u8>, plte: Seq<u8>, trns: Option<Seq<u8>> },
}

impl View for Reduced {
    type V = ReducedModel;

    open spec fn view(&self) -> ReducedModel {
        match self {
            Reduced::Gray { depth, samples } => ReducedModel::Gray {
                depth: *depth,
                samples: samples@,
            },
            Reduced::GrayAlpha8(s) => ReducedModel::GrayAlpha8(s@),
            Reduced::Rgb8(s) => ReducedModel::Rgb8(s@),
            Reduced::Rgba8(s) => ReducedModel::Rgba8(s@),
            Reduced::Gray16Be(s) => ReducedModel::Gray16Be(s@),
            Reduced::GrayAlpha16Be(s) => ReducedModel::GrayAlpha16Be(s@),
            Reduced::Rgb16Be(s) => ReducedModel::Rgb16Be(s@),
            Reduced::Rgb8Keyed { samples, key } => ReducedModel::Rgb8Keyed {
                samples: samples@,
                key: (key[0], key[1], key[2]),
            },
            Reduced::GrayKeyed { samples, key } => ReducedModel::GrayKeyed {
                samples: samples@,
                key: *key,
            },
            Reduced::Indexed { depth, indices, plte, trns } => ReducedModel::Indexed {
                depth: *depth,
                indices: indices@,
                plte: plte@,
                trns: match trns {
                    Some(t) => Some(t@),
                    None => None,
                },
            },
        }
    }
}

/// What [`analyze8`] and [`analyze16`] offer the encoder for one image.
#[derive(Debug)]
pub enum Reductions {
    /// No reduction stores fewer bytes than the input layout: encode the image as it arrived.
    Nothing,
    /// The estimate's winner adds no chunk, so it is the whole answer.
    ChunkFree(Reduced),
    /// The estimate's winner carries a chunk, so it must be raced.
    Chunked {
        /// The chunk-carrying candidate the estimate ranked smallest.
        chunked: Reduced,
        /// The smallest candidate that adds no chunk, or `None` when no chunk-free reduction
        /// stores fewer bytes than the input layout.
        chunk_free: Option<Reduced>,
    },
}

/// [`Reductions`] as values.
pub enum ReductionsModel {
    Nothing,
    ChunkFree(ReducedModel),
    Chunked { chunked: ReducedModel, chunk_free: Option<ReducedModel> },
}

impl View for Reductions {
    type V = ReductionsModel;

    open spec fn view(&self) -> ReductionsModel {
        match self {
            Reductions::Nothing => ReductionsModel::Nothing,
            Reductions::ChunkFree(r) => ReductionsModel::ChunkFree(r@),
            Reductions::Chunked { chunked, chunk_free } => ReductionsModel::Chunked {
                chunked: chunked@,
                chunk_free: match chunk_free {
                    Some(r) => Some(r@),
                    None => None,
                },
            },
        }
    }
}

/// The smallest index bit depth (1, 2, 4, or 8) that can address `n` entries.
pub open spec fn index_depth(n: nat) -> u8 {
    if n <= 2 {
        1
    } else if n <= 4 {
        2
    } else if n <= 16 {
        4
    } else {
        8
    }
}

/// The smallest indexed bit depth (1, 2, 4, or 8) that can address `palette_len` entries.
pub fn index_bit_depth(palette_len: usize) -> (depth: u8)
    ensures
        depth == index_depth(palette_len as nat),
{
    if palette_len <= 2 {
        1
    } else if palette_len <= 4 {
        2
    } else if palette_len <= 16 {
        4
    } else {
        8
    }
}

/// Whether whole pixel `i` is fully transparent: its last sample is zero.
pub open spec fn invisible(samples: Seq<int>, channels: int, i: int) -> bool {
    samples[i * channels + channels - 1] == 0
}

/// An image with the colour samples of every fully transparent pixel set to zero.
pub open spec fn without_hidden_color(samples: Seq<int>, channels: int) -> Seq<int> {
    Seq::new(
        samples.len(),
        |j: int|
            if j / channels < samples.len() as int / channels && j % channels < channels - 1
                && invisible(samples, channels, j / channels) {
                0
            } else {
                samples[j]
            },
    )
}

/// Whether the image has an alpha channel and a fully transparent pixel.
pub open spec fn has_invisible_pixel(samples: Seq<int>, channels: int) -> bool {
    channels % 2 == 0 && exists|i: int|
        0 <= i < samples.len() as int / channels && #[trigger] invisible(samples, channels, i)
}

/// Samples as integers.
pub open spec fn ints8(s: Seq<u8>) -> Seq<int> {
    s.map_values(|v: u8| v as int)
}

/// Zeroes the colour channels of every fully transparent pixel, leaving alpha alone. Returns
/// `None` when the image has no fully transparent pixel to clean. Layouts without an alpha channel
/// (the odd channel counts) have nothing to clean.
pub fn clean_transparent(pixels: &[u8], channels: usize) -> (cleaned: Option<Vec<u8>>)
    requires
        1 <= channels <= 4,
    ensures
        cleaned is Some <==> has_invisible_pixel(ints8(pixels@), channels as int),
        cleaned matches Some(c) ==> ints8(c@) == without_hidden_color(
            ints8(pixels@),
            channels as int,
        ),
{
    if channels % 2 != 0 {
        return None;
    }
    let ghost all = ints8(pixels@);
    let ghost want = without_hidden_color(all, channels as int);
    let count: usize = pixels.len() / channels;
    let mut out: Vec<u8> = vstd::slice::slice_to_vec(pixels);
    let mut found: bool = false;
    let mut i: usize = 0;
    let mut at: usize = 0;
    while i < count
        invariant
            1 <= channels <= 4,
            count == pixels.len() as int / channels as int,
            i <= count,
            at == i * channels,
            at <= pixels.len(),
            all == ints8(pixels@),
            want == without_hidden_color(all, channels as int),
            out@.len() == pixels@.len(),
            found == exists|p: int| 0 <= p < i && #[trigger] invisible(all, channels as int, p),
            forall|j: int| 0 <= j < at ==> #[trigger] out@[j] == want[j],
            forall|j: int| at <= j < out@.len() ==> #[trigger] out@[j] == pixels@[j],
        decreases count - i,
    {
        proof {
            pixel_inside(pixels.len() as int, channels as int, i as int);
        }
        let ghost before = out@;
        assert(pixels@[at + channels - 1] == all[at + channels - 1]);
        if pixels[at + channels - 1] == 0 {
            assert(invisible(all, channels as int, i as int));
            found = true;
            let mut k: usize = 0;
            while k < channels - 1
                invariant
                    1 <= channels <= 4,
                    k <= channels - 1,
                    at + channels <= pixels.len(),
                    out@.len() == before.len() == pixels@.len(),
                    forall|j: int| 0 <= j < at ==> out@[j] == before[j],
                    forall|j: int| at <= j < at + k ==> #[trigger] out@[j] == 0,
                    forall|j: int| at + k <= j < out@.len() ==> #[trigger] out@[j] == pixels@[j],
                decreases channels - k,
            {
                out[at + k] = 0;
                k += 1;
            }
        } else {
            assert(!invisible(all, channels as int, i as int));
        }
        proof {
            assert forall|j: int| 0 <= j < at + channels implies #[trigger] out@[j] == want[j] by {
                if j < at {
                    assert(before[j] == want[j]);
                } else {
                    pixel_position(i as int, channels as int, j - at);
                }
            }
        }
        i += 1;
        at += channels;
    }
    proof {
        assert forall|j: int| at <= j < out@.len() implies #[trigger] out@[j] == want[j] by {
            if j / (channels as int) < count {
                pixel_inside(pixels.len() as int, channels as int, j / (channels as int));
                vstd::arithmetic::div_mod::lemma_fundamental_div_mod(j, channels as int);
                assert(channels * (j / (channels as int)) == (j / (channels as int)) * channels)
                    by (nonlinear_arith);
                assert((j / (channels as int) + 1) * channels <= count * channels)
                    by (nonlinear_arith)
                    requires
                        j / (channels as int) + 1 <= count,
                        channels >= 1,
                ;
            }
        }
        assert(ints8(out@) =~= want);
    }
    if found {
        Some(out)
    } else {
        None
    }
}


/// The RGBA quad a pixel of any supported layout presents.
pub fn pixel_key(px: &[u8], channels: usize) -> (key: [u8; 4])
    requires
        1 <= channels <= 4,
        px@.len() >= channels,
    ensures
        as_quad(key) == quad_from(px@, channels as int, 0),
{
    let alpha: u8 = if channels % 2 == 0 {
        px[channels - 1]
    } else {
        255
    };
    if channels >= 3 {
        [px[0], px[1], px[2], alpha]
    } else {
        [px[0], px[0], px[0], alpha]
    }
}

/// The quads that a list of keys stands for.
pub open spec fn key_quads(keys: Seq<[u8; 4]>) -> Seq<Quad> {
    keys.map_values(|k: [u8; 4]| as_quad(k))
}

/// The quads of every whole pixel.
fn pixel_keys(pixels: &[u8], channels: usize) -> (keys: Vec<[u8; 4]>)
    requires
        1 <= channels <= 4,
    ensures
        key_quads(keys@) == quads(pixels@, channels as int),
{
    let count: usize = pixels.len() / channels;
    let mut keys: Vec<[u8; 4]> = Vec::new();
    let mut i: usize = 0;
    let mut at: usize = 0;
    while i < count
        invariant
            1 <= channels <= 4,
            count == pixels.len() as int / channels as int,
            i <= count,
            at == i * channels,
            keys@.len() == i,
            forall|j: int|
                0 <= j < i ==> as_quad(#[trigger] keys@[j]) == quads(pixels@, channels as int)[j],
        decreases count - i,
    {
        proof {
            pixel_inside(pixels.len() as int, channels as int, i as int);
        }
        let px: &[u8] = &pixels[at..at + channels];
        let key: [u8; 4] = pixel_key(px, channels);
        assert(as_quad(key) == quads(pixels@, channels as int)[i as int]);
        keys.push(key);
        i += 1;
        at += channels;
    }
    assert(key_quads(keys@) =~= quads(pixels@, channels as int));
    keys
}

/// A tRNS chunk's cost for a greyscale image: one 16-bit sample plus 12 bytes of framing.
pub const GREY_KEY_COST: usize = 14;

/// A tRNS chunk's cost for truecolour: three 16-bit samples plus 12 bytes of framing.
pub const RGB_KEY_COST: usize = 18;

/// Whether a colour key could apply: there is an alpha channel to drop (`channels` even) and
/// something for it to be carrying.
pub fn may_have_colour_key(all_opaque: bool, channels: usize) -> (may: bool)
    ensures
        may == (!all_opaque && channels % 2 == 0),
{
    !all_opaque && channels % 2 == 0
}

/// Raw bytes a colour-key encoding costs: one sample per pixel for greyscale or three for
/// truecolour, plus the tRNS chunk.
pub fn keyed_size(pixel_count: usize, all_gray: bool) -> (size: usize)
    requires
        3 * pixel_count + RGB_KEY_COST <= usize::MAX,
    ensures
        size == (if all_gray {
            pixel_count + GREY_KEY_COST
        } else {
            3 * pixel_count + RGB_KEY_COST
        }),
{
    if all_gray {
        pixel_count + GREY_KEY_COST
    } else {
        pixel_count * 3 + RGB_KEY_COST
    }
}

/// Whether two quads have the same colour, whatever their alpha.
pub open spec fn same_color(p: Quad, k: Quad) -> bool {
    p.0 == k.0 && p.1 == k.1 && p.2 == k.2
}

/// Whether `k` can stand for "transparent": every alpha is 0 or 255, every transparent pixel is
/// `k`, there is one, and no opaque pixel has its colour.
pub open spec fn is_colour_key(q: Seq<Quad>, k: Quad) -> bool {
    &&& k.3 == 0
    &&& q.contains(k)
    &&& forall|i: int|
        0 <= i < q.len() ==> {
            ||| #[trigger] q[i] == k
            ||| q[i].3 == 255 && !same_color(q[i], k)
        }
}

/// The colour that can stand for "transparent", if there is one.
pub open spec fn colour_key_of(q: Seq<Quad>) -> Option<Quad> {
    if exists|k: Quad| is_colour_key(q, k) {
        Some(choose|k: Quad| is_colour_key(q, k))
    } else {
        None
    }
}

proof fn colour_key_is_unique(q: Seq<Quad>, a: Quad, b: Quad)
    requires
        is_colour_key(q, a),
        is_colour_key(q, b),
    ensures
        a == b,
{
    let i = choose|i: int| 0 <= i < q.len() && q[i] == a;
    assert(q[i] == b || q[i].3 == 255);
}

fn key_of(keys: &Vec<[u8; 4]>) -> (key: Option<[u8; 4]>)
    ensures
        key is Some <==> colour_key_of(key_quads(keys@)) is Some,
        key matches Some(k) ==> colour_key_of(key_quads(keys@)) == Some(as_quad(k)),
{
    let ghost q = key_quads(keys@);
    let mut candidate: Option<[u8; 4]> = None;
    let mut i: usize = 0;
    while i < keys.len()
        invariant
            i <= keys@.len(),
            q == key_quads(keys@),
            candidate is None ==> forall|j: int| 0 <= j < i ==> (#[trigger] q[j]).3 == 255,
            candidate matches Some(c) ==> {
                &&& as_quad(c).3 == 0
                &&& q.contains(as_quad(c))
                &&& forall|j: int| 0 <= j < i ==> #[trigger] q[j] == as_quad(c) || q[j].3 == 255
            },
        decreases keys@.len() - i,
    {
        let key: [u8; 4] = keys[i];
        assert(q[i as int] == as_quad(key));
        if key[3] == 0 {
            match candidate {
                Some(seen) => {
                    if seen[0] != key[0] || seen[1] != key[1] || seen[2] != key[2] {
                        proof {
                            assert forall|k: Quad| !is_colour_key(q, k) by {
                                if is_colour_key(q, k) {
                                    let j = choose|j: int|
                                        0 <= j < q.len() && q[j] == as_quad(seen);
                                    assert(q[j] == k);
                                    assert(q[i as int] == k);
                                }
                            }
                        }
                        return None;
                    }
                },
                None => {
                    candidate = Some(key);
                    assert(q.contains(as_quad(key)));
                },
            }
        } else if key[3] != 255 {
            proof {
                assert forall|k: Quad| !is_colour_key(q, k) by {
                    if is_colour_key(q, k) {
                        assert(q[i as int] == k);
                    }
                }
            }
            return None;
        }
        i += 1;
    }
    match candidate {
        None => {
            proof {
                assert forall|k: Quad| !is_colour_key(q, k) by {
                    if is_colour_key(q, k) {
                        let j = choose|j: int| 0 <= j < q.len() && q[j] == k;
                        assert(q[j].3 == 255);
                    }
                }
            }
            None
        },
        Some(found) => {
            let mut j: usize = 0;
            while j < keys.len()
                invariant
                    j <= keys@.len(),
                    q == key_quads(keys@),
                    as_quad(found).3 == 0,
                    q.contains(as_quad(found)),
                    forall|m: int|
                        0 <= m < q.len() ==> #[trigger] q[m] == as_quad(found) || q[m].3 == 255,
                    forall|m: int|
                        0 <= m < j ==> (#[trigger] q[m]).3 == 255 ==> !same_color(
                            q[m],
                            as_quad(found),
                        ),
                decreases keys@.len() - j,
            {
                let key: [u8; 4] = keys[j];
                assert(q[j as int] == as_quad(key));
                if key[3] == 255 && key[0] == found[0] && key[1] == found[1] && key[2] == found[2] {
                    proof {
                        assert forall|k: Quad| !is_colour_key(q, k) by {
                            if is_colour_key(q, k) {
                                let m = choose|m: int| 0 <= m < q.len() && q[m] == as_quad(found);
                                assert(q[m] == k);
                                assert(q[j as int].3 == 255);
                                assert(q[j as int] == k || !same_color(q[j as int], k));
                            }
                        }
                    }
                    return None;
                }
                j += 1;
            }
            proof {
                assert(is_colour_key(q, as_quad(found)));
                let k = choose|k: Quad| is_colour_key(q, k);
                colour_key_is_unique(q, k, as_quad(found));
            }
            Some(found)
        },
    }
}

/// The colour that can stand for "transparent", if a tRNS colour key applies at all: every alpha is
/// 0 or 255, every transparent pixel shares one colour, and no opaque pixel uses it.
pub fn colour_key(pixels: &[u8], channels: usize) -> (key: Option<[u8; 4]>)
    requires
        channels == 2 || channels == 4,
    ensures
        key is Some <==> colour_key_of(quads(pixels@, channels as int)) is Some,
        key matches Some(k) ==> colour_key_of(quads(pixels@, channels as int)) == Some(as_quad(k)),
{
    let keys: Vec<[u8; 4]> = pixel_keys(pixels, channels);
    key_of(&keys)
}

/// The distinct quads of an image, in order of first appearance.
pub open spec fn discovered(q: Seq<Quad>) -> Seq<Quad>
    decreases q.len(),
{
    if q.len() == 0 {
        Seq::empty()
    } else {
        let found = discovered(q.drop_last());
        if found.contains(q.last()) {
            found
        } else {
            found.push(q.last())
        }
    }
}

/// The palette an image needs holds each of its quads exactly once.
pub proof fn discovered_holds_each_once(q: Seq<Quad>)
    ensures
        discovered(q).no_duplicates(),
        forall|p: Quad| #![trigger discovered(q).contains(p)] #![trigger q.contains(p)] discovered(q).contains(p) <==> q.contains(p),
        discovered(q).len() <= q.len(),
    decreases q.len(),
{
    if q.len() > 0 {
        let rest = q.drop_last();
        discovered_holds_each_once(rest);
        let found = discovered(rest);
        let all = discovered(q);
        assert forall|p: Quad| all.contains(p) <==> q.contains(p) by {
            if all.contains(p) {
                let i = choose|i: int| 0 <= i < all.len() && all[i] == p;
                if i < found.len() {
                    assert(found.contains(p));
                    let j = choose|j: int| 0 <= j < rest.len() && rest[j] == p;
                    assert(q[j] == p);
                } else {
                    assert(q[q.len() - 1] == p);
                }
            }
            if q.contains(p) {
                let j = choose|j: int| 0 <= j < q.len() && q[j] == p;
                if j < rest.len() {
                    assert(rest[j] == p);
                    assert(rest.contains(p));
                    let i = choose|i: int| 0 <= i < found.len() && found[i] == p;
                    assert(all[i] == p);
                } else if !found.contains(p) {
                    assert(all[all.len() - 1] == p);
                }
            }
        }
    }
}

proof fn discovered_grows(q: Seq<Quad>, n: int)
    requires
        0 <= n <= q.len(),
    ensures
        discovered(q.subrange(0, n)).len() <= discovered(q).len(),
    decreases q.len() - n,
{
    if n == q.len() {
        assert(q.subrange(0, n) =~= q);
    } else {
        discovered_grows(q, n + 1);
        assert(q.subrange(0, n + 1).drop_last() =~= q.subrange(0, n));
    }
}

/// The order of palette entries: least opaque first, then by Rec. 601 luma.
pub open spec fn palette_rank(c: Quad) -> int {
    c.3 * 1_000_000 + 299 * c.0 + 587 * c.1 + 114 * c.2
}

/// `s` with `x` inserted behind every entry of no greater rank.
pub open spec fn insert_by_rank(s: Seq<Quad>, x: Quad) -> Seq<Quad>
    decreases s.len(),
{
    if s.len() == 0 || palette_rank(s.last()) <= palette_rank(x) {
        s.push(x)
    } else {
        insert_by_rank(s.drop_last(), x).push(s.last())
    }
}

/// The entries sorted by rank; entries of one rank keep their order.
pub open spec fn ordered(palette: Seq<Quad>) -> Seq<Quad>
    decreases palette.len(),
{
    if palette.len() == 0 {
        Seq::empty()
    } else {
        insert_by_rank(ordered(palette.drop_last()), palette.last())
    }
}

/// Whether no entry has a lower rank than one before it.
pub open spec fn sorted_by_rank(s: Seq<Quad>) -> bool {
    forall|i: int, j: int| 0 <= i <= j < s.len() ==> palette_rank(s[i]) <= palette_rank(s[j])
}

proof fn insert_by_rank_keeps(s: Seq<Quad>, x: Quad)
    ensures
        insert_by_rank(s, x).len() == s.len() + 1,
        forall|p: Quad| #![trigger insert_by_rank(s, x).contains(p)] #![trigger s.contains(p)] insert_by_rank(s, x).contains(p) <==> (p == x || s.contains(p)),
        s.no_duplicates() && !s.contains(x) ==> insert_by_rank(s, x).no_duplicates(),
        sorted_by_rank(s) ==> sorted_by_rank(insert_by_rank(s, x)),
    decreases s.len(),
{
    let out = insert_by_rank(s, x);
    if s.len() == 0 || palette_rank(s.last()) <= palette_rank(x) {
        assert forall|p: Quad| out.contains(p) <==> (p == x || s.contains(p)) by {
            push_contains(s, x, p);
        }
    } else {
        let rest = s.drop_last();
        let inner = insert_by_rank(rest, x);
        insert_by_rank_keeps(rest, x);
        assert(s =~= rest.push(s.last()));
        assert forall|p: Quad| out.contains(p) <==> (p == x || s.contains(p)) by {
            push_contains(inner, s.last(), p);
            push_contains(rest, s.last(), p);
        }
        if s.no_duplicates() && !s.contains(x) {
            push_contains(rest, s.last(), x);
            assert(!rest.contains(s.last()));
            assert(!inner.contains(s.last()));
        }
        if sorted_by_rank(s) {
            assert forall|i: int| 0 <= i < inner.len() implies palette_rank(#[trigger] inner[i])
                <= palette_rank(s.last()) by {
                assert(inner.contains(inner[i]));
                if inner[i] != x {
                    let j = choose|j: int| 0 <= j < rest.len() && rest[j] == inner[i];
                    assert(s[j] == inner[i]);
                }
            }
        }
    }
}

proof fn push_contains(s: Seq<Quad>, x: Quad, p: Quad)
    ensures
        s.push(x).contains(p) <==> (p == x || s.contains(p)),
{
    if s.push(x).contains(p) {
        let i = choose|i: int| 0 <= i < s.push(x).len() && s.push(x)[i] == p;
        if i < s.len() {
            assert(s[i] == p);
        }
    }
    if s.contains(p) {
        let i = choose|i: int| 0 <= i < s.len() && s[i] == p;
        assert(s.push(x)[i] == p);
    }
    if p == x {
        assert(s.push(x)[s.len() as int] == p);
    }
}

/// Ordering a palette keeps its entries and sorts them: transparent entries come first.
pub proof fn ordered_is_a_sorted_rearrangement(palette: Seq<Quad>)
    ensures
        ordered(palette).len() == palette.len(),
        forall|p: Quad| #![trigger ordered(palette).contains(p)] #![trigger palette.contains(p)] ordered(palette).contains(p) <==> palette.contains(p),
        palette.no_duplicates() ==> ordered(palette).no_duplicates(),
        sorted_by_rank(ordered(palette)),
    decreases palette.len(),
{
    if palette.len() > 0 {
        let rest = palette.drop_last();
        let last = palette.last();
        ordered_is_a_sorted_rearrangement(rest);
        insert_by_rank_keeps(ordered(rest), last);
        assert(palette =~= rest.push(last));
        assert forall|p: Quad| ordered(palette).contains(p) <==> palette.contains(p) by {
            push_contains(rest, last, p);
        }
        if palette.no_duplicates() {
            assert(!rest.contains(last));
        }
    }
}

/// The entries of one rank, in order.
pub open spec fn of_rank(s: Seq<Quad>, rank: int) -> Seq<Quad>
    decreases s.len(),
{
    if s.len() == 0 {
        Seq::empty()
    } else if palette_rank(s.last()) == rank {
        of_rank(s.drop_last(), rank).push(s.last())
    } else {
        of_rank(s.drop_last(), rank)
    }
}

proof fn an_insertion_is_stable(s: Seq<Quad>, x: Quad, rank: int)
    ensures
        insert_by_rank(s, x).to_multiset() == s.to_multiset().insert(x),
        of_rank(insert_by_rank(s, x), rank) == of_rank(s.push(x), rank),
    decreases s.len(),
{
    s.to_multiset_ensures();
    assert(s.push(x).drop_last() =~= s);
    if s.len() > 0 && palette_rank(s.last()) > palette_rank(x) {
        let rest = s.drop_last();
        let inner = insert_by_rank(rest, x);
        an_insertion_is_stable(rest, x, rank);
        assert(rest.push(x).drop_last() =~= rest);
        assert(insert_by_rank(s, x) =~= inner.push(s.last()));
        assert(inner.push(s.last()).drop_last() =~= inner);
        assert(of_rank(inner, rank) == of_rank(rest.push(x), rank));
        assert(of_rank(rest.push(x), rank) == if palette_rank(x) == rank {
            of_rank(rest, rank).push(x)
        } else {
            of_rank(rest, rank)
        });
        assert(of_rank(inner.push(s.last()), rank) == if palette_rank(s.last()) == rank {
            of_rank(inner, rank).push(s.last())
        } else {
            of_rank(inner, rank)
        });
        assert(of_rank(s.push(x), rank) == if palette_rank(x) == rank {
            of_rank(s, rank).push(x)
        } else {
            of_rank(s, rank)
        });
        inner.to_multiset_ensures();
        rest.to_multiset_ensures();
        assert(s =~= rest.push(s.last()));
        assert(rest.to_multiset().insert(x).insert(s.last()) =~= rest.to_multiset().insert(
            s.last(),
        ).insert(x));
    }
}

/// Ordering a palette is stable: every entry stays as often as it occurs, and entries of one rank keep
/// their order.
pub proof fn ordering_is_stable(palette: Seq<Quad>, rank: int)
    ensures
        ordered(palette).to_multiset() == palette.to_multiset(),
        of_rank(ordered(palette), rank) == of_rank(palette, rank),
    decreases palette.len(),
{
    if palette.len() > 0 {
        let rest = palette.drop_last();
        let last = palette.last();
        ordering_is_stable(rest, rank);
        an_insertion_is_stable(ordered(rest), last, rank);
        assert(ordered(rest).push(last).drop_last() =~= ordered(rest));
        assert(palette =~= rest.push(last));
        rest.to_multiset_ensures();
    } else {
        assert(ordered(palette) =~= palette);
    }
}

proof fn insert_at_rank(s: Seq<Quad>, x: Quad, at: int)
    requires
        0 <= at <= s.len(),
        forall|j: int| at <= j < s.len() ==> palette_rank(#[trigger] s[j]) > palette_rank(x),
        at > 0 ==> palette_rank(s[at - 1]) <= palette_rank(x),
    ensures
        insert_by_rank(s, x) == s.insert(at, x),
    decreases s.len(),
{
    if at == s.len() {
        assert(insert_by_rank(s, x) =~= s.insert(at, x));
    } else {
        insert_at_rank(s.drop_last(), x, at);
        assert(insert_by_rank(s, x) =~= s.insert(at, x));
    }
}

fn rank_of(c: [u8; 4]) -> (rank: u32)
    ensures
        rank == palette_rank(as_quad(c)),
{
    c[3] as u32 * 1_000_000 + 299 * c[0] as u32 + 587 * c[1] as u32 + 114 * c[2] as u32
}

/// The palette's entries ordered so that the encoding costs less: transparent entries first, least
/// opaque first, so that the trailing-opaque trim of tRNS cuts as much as it can; then by Rec. 601
/// luma, so that neighbouring indices are neighbouring brightnesses.
pub fn ordered_palette(palette: &[[u8; 4]]) -> (out: Vec<[u8; 4]>)
    ensures
        key_quads(out@) == ordered(key_quads(palette@)),
{
    let mut out: Vec<[u8; 4]> = Vec::new();
    let ghost q = key_quads(palette@);
    let mut i: usize = 0;
    assert(key_quads(out@) =~= ordered(q.subrange(0, 0)));
    while i < palette.len()
        invariant
            i <= palette@.len(),
            q == key_quads(palette@),
            key_quads(out@) == ordered(q.subrange(0, i as int)),
        decreases palette@.len() - i,
    {
        let entry: [u8; 4] = palette[i];
        let rank: u32 = rank_of(entry);
        let mut at: usize = out.len();
        let ghost sorted = key_quads(out@);
        while at > 0 && rank_of(out[at - 1]) > rank
            invariant
                at <= out@.len(),
                sorted == key_quads(out@),
                rank == palette_rank(as_quad(entry)),
                forall|j: int|
                    at <= j < sorted.len() ==> palette_rank(#[trigger] sorted[j]) > rank,
            decreases at,
        {
            assert(sorted[at - 1] == as_quad(out@[at - 1]));
            at -= 1;
        }
        proof {
            if at > 0 {
                assert(sorted[at - 1] == as_quad(out@[at - 1]));
            }
            insert_at_rank(sorted, as_quad(entry), at as int);
            assert(q.subrange(0, i + 1).drop_last() =~= q.subrange(0, i as int));
            assert(q.subrange(0, i + 1).last() == as_quad(entry));
        }
        out.insert(at, entry);
        assert(key_quads(out@) =~= sorted.insert(at as int, as_quad(entry)));
        i += 1;
    }
    assert(q.subrange(0, i as int) =~= q);
    out
}


/// A quad as one integer.
pub open spec fn packed(c: Quad) -> u32 {
    (c.0 * 0x100_0000 + c.1 * 0x1_0000 + c.2 * 0x100 + c.3) as u32
}

proof fn packed_is_injective(a: Quad, b: Quad)
    requires
        packed(a) == packed(b),
    ensures
        a == b,
{
}

fn pack(c: [u8; 4]) -> (key: u32)
    ensures
        key == packed(as_quad(c)),
{
    c[0] as u32 * 0x100_0000 + c[1] as u32 * 0x1_0000 + c[2] as u32 * 0x100 + c[3] as u32
}

/// Whether `index` finds each entry of `palette` at its place and nothing else.
pub open spec fn indexes(index: Map<u32, u8>, palette: Seq<Quad>) -> bool {
    &&& forall|k: int|
        0 <= k < palette.len() ==> index.contains_key(packed(#[trigger] palette[k]))
            && index[packed(palette[k])] == k
    &&& forall|key: u32| #[trigger]
        index.contains_key(key) ==> exists|k: int|
            0 <= k < palette.len() && packed(#[trigger] palette[k]) == key
}

proof fn index_extends(index: Map<u32, u8>, palette: Seq<Quad>, c: Quad)
    requires
        indexes(index, palette),
        !index.contains_key(packed(c)),
        palette.len() < 256,
    ensures
        indexes(index.insert(packed(c), palette.len() as u8), palette.push(c)),
{
    let more = index.insert(packed(c), palette.len() as u8);
    let longer = palette.push(c);
    assert forall|k: int| 0 <= k < longer.len() implies more.contains_key(
        packed(#[trigger] longer[k]),
    ) && more[packed(longer[k])] == k by {
        if k < palette.len() {
            assert(longer[k] == palette[k]);
        }
    }
    assert forall|key: u32| #[trigger] more.contains_key(key) implies exists|k: int|
        0 <= k < longer.len() && packed(#[trigger] longer[k]) == key by {
        if key == packed(c) {
            assert(longer[palette.len() as int] == c);
        } else {
            let k = choose|k: int| 0 <= k < palette.len() && packed(#[trigger] palette[k]) == key;
            assert(longer[k] == palette[k]);
        }
    }
}

proof fn index_membership(index: Map<u32, u8>, palette: Seq<Quad>, c: Quad)
    requires
        indexes(index, palette),
    ensures
        index.contains_key(packed(c)) <==> palette.contains(c),
{
    if index.contains_key(packed(c)) {
        let k = choose|k: int| 0 <= k < palette.len() && packed(#[trigger] palette[k]) == packed(c);
        packed_is_injective(palette[k], c);
    }
}

/// The red samples (the grey samples of a grey image) divided by `scale`.
pub open spec fn gray_samples(q: Seq<Quad>, scale: u8) -> Seq<u8> {
    q.map_values(|c: Quad| (c.0 / scale) as u8)
}

/// Grey and alpha, interleaved.
pub open spec fn gray_alpha_samples(q: Seq<Quad>) -> Seq<u8> {
    Seq::new(
        q.len() * 2,
        |j: int|
            if j % 2 == 0 {
                q[j / 2].0
            } else {
                q[j / 2].3
            },
    )
}

/// Red, green and blue, interleaved.
pub open spec fn rgb_samples(q: Seq<Quad>) -> Seq<u8> {
    Seq::new(
        q.len() * 3,
        |j: int|
            if j % 3 == 0 {
                q[j / 3].0
            } else if j % 3 == 1 {
                q[j / 3].1
            } else {
                q[j / 3].2
            },
    )
}

/// The alphas of a list of quads.
pub open spec fn quad_alphas(q: Seq<Quad>) -> Seq<u8> {
    q.map_values(|c: Quad| c.3)
}

/// Whether every quad is opaque.
pub open spec fn opaque(q: Seq<Quad>) -> bool {
    forall|i: int| 0 <= i < q.len() ==> (#[trigger] q[i]).3 == 255
}

/// Whether every quad is a grey.
pub open spec fn gray(q: Seq<Quad>) -> bool {
    forall|i: int| 0 <= i < q.len() ==> (#[trigger] q[i]).0 == q[i].1 && q[i].1 == q[i].2
}

/// Whether every red sample is a multiple of `step`.
pub open spec fn on_grid(q: Seq<Quad>, step: int) -> bool {
    forall|i: int| 0 <= i < q.len() ==> (#[trigger] q[i]).0 as int % step == 0
}

/// The factor by which a grey code of `depth` bits scales to 8 bits (§13.12).
pub open spec fn gray_scale(depth: u8) -> u8 {
    if depth == 1 {
        255
    } else if depth == 2 {
        85
    } else if depth == 4 {
        17
    } else {
        1
    }
}

/// The smallest depth at which every grey value is exactly representable.
pub open spec fn gray_depth_of(q: Seq<Quad>) -> u8 {
    if on_grid(q, 255) {
        1
    } else if on_grid(q, 85) {
        2
    } else if on_grid(q, 17) {
        4
    } else {
        8
    }
}

/// The palette reduction of an image.
pub open spec fn indexed_reduction(q: Seq<Quad>) -> ReducedModel {
    let entries = ordered(discovered(q));
    ReducedModel::Indexed {
        depth: index_depth(entries.len()),
        indices: q.map_values(|c: Quad| entries.index_of(c) as u8),
        plte: rgb_samples(entries),
        trns: if opaque(entries) {
            None
        } else {
            Some(trimmed(quad_alphas(entries)))
        },
    }
}

fn push_rgb(out: &mut Vec<u8>, c: [u8; 4])
    ensures
        final(out)@ == old(out)@.push(c[0]).push(c[1]).push(c[2]),
{
    out.push(c[0]);
    out.push(c[1]);
    out.push(c[2]);
}

fn rgb_of(keys: &Vec<[u8; 4]>) -> (out: Vec<u8>)
    ensures
        out@ == rgb_samples(key_quads(keys@)),
{
    let mut out: Vec<u8> = Vec::new();
    let mut i: usize = 0;
    while i < keys.len()
        invariant
            i <= keys@.len(),
            out@ == rgb_samples(key_quads(keys@).subrange(0, i as int)),
        decreases keys@.len() - i,
    {
        let ghost before = key_quads(keys@).subrange(0, i as int);
        push_rgb(&mut out, keys[i]);
        i += 1;
        proof {
            let after = key_quads(keys@).subrange(0, i as int);
            assert(after =~= before.push(as_quad(keys@[i - 1])));
            assert(out@ =~= rgb_samples(after));
        }
    }
    assert(key_quads(keys@).subrange(0, i as int) =~= key_quads(keys@));
    out
}

/// Builds the indexed reduction from the collected palette.
pub fn build_indexed(
    keys: &Vec<[u8; 4]>,
    palette: &Vec<[u8; 4]>,
    palette_index: &HashMap<u32, u8>,
) -> (reduced: Reduced)
    requires
        key_quads(palette@) == discovered(key_quads(keys@)),
        palette@.len() <= 256,
        indexes(palette_index@, key_quads(palette@)),
    ensures
        reduced@ == indexed_reduction(key_quads(keys@)),
{
    let ghost q = key_quads(keys@);
    let ghost found = discovered(q);
    let order: Vec<[u8; 4]> = ordered_palette(palette.as_slice());
    let ghost entries = ordered(found);
    proof {
        discovered_holds_each_once(q);
        ordered_is_a_sorted_rearrangement(found);
        assert(entries == key_quads(order@));
    }
    let mut remap: Vec<u8> = vec![0u8; palette.len()];
    let mut position: usize = 0;
    while position < order.len()
        invariant
            position <= order@.len() <= 256,
            order@.len() == palette@.len() == remap@.len() == found.len(),
            entries == key_quads(order@),
            found == key_quads(palette@),
            entries.no_duplicates(),
            indexes(palette_index@, found),
            forall|p: Quad|
                #![trigger entries.contains(p)]
                #![trigger found.contains(p)]
                entries.contains(p) <==> found.contains(p),
            forall|p: int|
                0 <= p < position ==> remap@[palette_index@[packed(#[trigger] entries[p])] as int]
                    == p,
        decreases order@.len() - position,
    {
        let colour: [u8; 4] = order[position];
        proof {
            assert(entries[position as int] == as_quad(colour));
            assert(entries.contains(as_quad(colour)));
            index_membership(palette_index@, found, as_quad(colour));
            let k = choose|k: int| 0 <= k < found.len() && found[k] == as_quad(colour);
            assert(palette_index@[packed(found[k])] == k);
        }
        let key: u32 = pack(colour);
        let discovered_at: Option<&u8> = palette_index.get(&key);
        match discovered_at {
            Some(d) => {
                let ghost before = remap@;
                remap[*d as usize] = position as u8;
                proof {
                    assert forall|p: int| 0 <= p < position + 1 implies remap@[palette_index@[packed(
                        #[trigger] entries[p],
                    )] as int] == p by {
                        if p < position {
                            let other = entries[p];
                            assert(entries.contains(other));
                            let k = choose|k: int| 0 <= k < found.len() && found[k] == other;
                            assert(palette_index@[packed(found[k])] == k);
                            if k == *d as int {
                                assert(other == as_quad(colour));
                                assert(entries[p] == entries[position as int]);
                            }
                        }
                    }
                }
            },
            None => {
                assert(false);
            },
        }
        position += 1;
    }
    let mut indices: Vec<u8> = Vec::new();
    let mut i: usize = 0;
    while i < keys.len()
        invariant
            i <= keys@.len(),
            q == key_quads(keys@),
            found == discovered(q),
            entries.no_duplicates(),
            entries.len() == found.len() == remap@.len() <= 256,
            indexes(palette_index@, found),
            forall|p: Quad|
                #![trigger entries.contains(p)]
                #![trigger found.contains(p)]
                entries.contains(p) <==> found.contains(p),
            forall|p: int|
                0 <= p < entries.len() ==> remap@[palette_index@[packed(
                    #[trigger] entries[p],
                )] as int] == p,
            indices@.len() == i,
            forall|j: int| 0 <= j < i ==> indices@[j] == entries.index_of(#[trigger] q[j]) as u8,
        decreases keys@.len() - i,
    {
        let key: u32 = pack(keys[i]);
        let ghost c = q[i as int];
        proof {
            assert(c == as_quad(keys@[i as int]));
            discovered_holds_each_once(q);
            assert(q.contains(c));
            assert(found.contains(c));
            index_membership(palette_index@, found, c);
            let p = choose|p: int| 0 <= p < entries.len() && entries[p] == c;
            assert(entries.contains(c));
            assert(entries[entries.index_of(c)] == c);
            let k = choose|k: int| 0 <= k < found.len() && found[k] == c;
            assert(palette_index@[packed(found[k])] == k);
        }
        match palette_index.get(&key) {
            Some(d) => {
                assert(remap@[palette_index@[packed(entries[entries.index_of(c)])] as int]
                    == entries.index_of(c));
                indices.push(remap[*d as usize]);
            },
            None => {
                assert(false);
                indices.push(0);
            },
        }
        i += 1;
    }
    assert(indices@ =~= q.map_values(|c: Quad| entries.index_of(c) as u8));
    let plte: Vec<u8> = rgb_of(&order);
    let mut alphas: Vec<u8> = Vec::new();
    let mut any: bool = false;
    let mut e: usize = 0;
    while e < order.len()
        invariant
            e <= order@.len(),
            entries == key_quads(order@),
            alphas@ == quad_alphas(entries.subrange(0, e as int)),
            any == !opaque(entries.subrange(0, e as int)),
        decreases order@.len() - e,
    {
        let entry: [u8; 4] = order[e];
        let alpha: u8 = entry[3];
        let ghost before = entries.subrange(0, e as int);
        let ghost after = entries.subrange(0, e + 1);
        assert(after =~= before.push(as_quad(entry)));
        alphas.push(alpha);
        assert(alphas@ =~= quad_alphas(after));
        proof {
            if alpha != 255 {
                assert(after[e as int].3 != 255);
            }
            if !opaque(before) {
                let m = choose|m: int| 0 <= m < before.len() && (#[trigger] before[m]).3 != 255;
                assert(after[m].3 != 255);
            } else if alpha == 255 {
                assert forall|m: int| 0 <= m < after.len() implies (#[trigger] after[m]).3
                    == 255 by {
                    if m < e {
                        assert(after[m] == before[m]);
                    }
                }
            }
        }
        if alpha != 255 {
            any = true;
        }
        e += 1;
    }
    assert(entries.subrange(0, e as int) =~= entries);
    let trns: Option<Vec<u8>> = if any {
        trim_trailing_opaque(&mut alphas);
        Some(alphas)
    } else {
        None
    };
    Reduced::Indexed { depth: index_bit_depth(order.len()), indices, plte, trns }
}


/// `cost` where a candidate applies, and more than any real cost where it does not.
pub open spec fn cost_if(applies: bool, cost: int) -> int {
    if applies {
        cost
    } else {
        usize::MAX as int
    }
}

/// The smaller of two costs.
pub open spec fn least(a: int, b: int) -> int {
    if a <= b {
        a
    } else {
        b
    }
}

/// Raw bytes of the palette encoding: packed indices, PLTE, tRNS and their framing.
pub open spec fn palette_cost(q: Seq<Quad>) -> int {
    let entries = discovered(q);
    cost_if(
        entries.len() <= 256,
        q.len() * index_depth(entries.len()) as int / 8 + (entries.len() * 3 + (if opaque(entries) {
            0
        } else {
            entries.len()
        }) + 24),
    )
}

/// Raw bytes of the greyscale encoding.
pub open spec fn gray_cost(q: Seq<Quad>) -> int {
    cost_if(gray(q) && opaque(q), q.len() * gray_depth_of(q) as int / 8)
}

/// Raw bytes of the grey-and-alpha encoding.
pub open spec fn gray_alpha_cost(q: Seq<Quad>) -> int {
    cost_if(gray(q) && !opaque(q), q.len() as int * 2)
}

/// Raw bytes of the RGB encoding of an RGBA image.
pub open spec fn rgb_cost(q: Seq<Quad>, channels: int) -> int {
    cost_if(channels == 4 && opaque(q) && !gray(q), q.len() as int * 3)
}

/// Raw bytes of the one encoding without a chunk that applies.
pub open spec fn free_cost(q: Seq<Quad>, channels: int) -> int {
    least(least(gray_cost(q), gray_alpha_cost(q)), rgb_cost(q, channels))
}

/// The colour key that applies to an image of the given layout.
pub open spec fn applicable_key(q: Seq<Quad>, channels: int) -> Option<Quad> {
    if !opaque(q) && channels % 2 == 0 {
        colour_key_of(q)
    } else {
        None
    }
}

/// Raw bytes of the colour-keyed encoding.
pub open spec fn keyed_cost(q: Seq<Quad>, channels: int) -> int {
    cost_if(
        applicable_key(q, channels) is Some,
        if gray(q) {
            q.len() + GREY_KEY_COST
        } else {
            3 * q.len() + RGB_KEY_COST
        },
    )
}

/// The smallest estimate.
pub open spec fn best_cost(q: Seq<Quad>, channels: int) -> int {
    least(least(palette_cost(q), free_cost(q, channels)), keyed_cost(q, channels))
}

/// The chunk-free reduction of an image to which one applies.
pub open spec fn free_reduction(q: Seq<Quad>) -> ReducedModel {
    if gray(q) && opaque(q) {
        ReducedModel::Gray {
            depth: gray_depth_of(q),
            samples: gray_samples(q, gray_scale(gray_depth_of(q))),
        }
    } else if gray(q) {
        ReducedModel::GrayAlpha8(gray_alpha_samples(q))
    } else {
        ReducedModel::Rgb8(rgb_samples(q))
    }
}

/// The colour-keyed reduction of an image under `key`.
pub open spec fn keyed_reduction(q: Seq<Quad>, key: Quad) -> ReducedModel {
    if gray(q) {
        ReducedModel::GrayKeyed { samples: gray_samples(q, 1), key: key.0 }
    } else {
        ReducedModel::Rgb8Keyed { samples: rgb_samples(q), key: (key.0, key.1, key.2) }
    }
}

/// The chunk-carrying reduction the estimate ranks smaller.
pub open spec fn chunked_reduction(q: Seq<Quad>, channels: int) -> ReducedModel {
    match applicable_key(q, channels) {
        Some(key) if best_cost(q, channels) == keyed_cost(q, channels) => keyed_reduction(q, key),
        _ => indexed_reduction(q),
    }
}

/// The reductions of an image that store fewer bytes than its own layout.
pub open spec fn reductions8(q: Seq<Quad>, channels: int) -> ReductionsModel {
    let input = q.len() * channels;
    let best = best_cost(q, channels);
    let free = free_cost(q, channels);
    if best >= input {
        ReductionsModel::Nothing
    } else if free < input && best == free {
        ReductionsModel::ChunkFree(free_reduction(q))
    } else {
        ReductionsModel::Chunked {
            chunked: chunked_reduction(q, channels),
            chunk_free: if free < input {
                Some(free_reduction(q))
            } else {
                None
            },
        }
    }
}

/// What a scan over the pixels finds.
struct Scan {
    all_opaque: bool,
    all_gray: bool,
    fits1: bool,
    fits2: bool,
    fits4: bool,
    too_many: bool,
    palette: Vec<[u8; 4]>,
    index: HashMap<u32, u8>,
}

fn scan(keys: &Vec<[u8; 4]>) -> (found: Scan)
    ensures
        ({
            let q = key_quads(keys@);
            &&& found.all_opaque == opaque(q)
            &&& found.all_gray == gray(q)
            &&& found.fits1 == on_grid(q, 255)
            &&& found.fits2 == on_grid(q, 85)
            &&& found.fits4 == on_grid(q, 17)
            &&& found.too_many == (discovered(q).len() > 256)
            &&& !found.too_many ==> {
                &&& key_quads(found.palette@) == discovered(q)
                &&& indexes(found.index@, key_quads(found.palette@))
            }
        }),
{
    let ghost q = key_quads(keys@);
    let mut found = Scan {
        all_opaque: true,
        all_gray: true,
        fits1: true,
        fits2: true,
        fits4: true,
        too_many: false,
        palette: Vec::new(),
        index: HashMap::new(),
    };
    let mut i: usize = 0;
    assert(key_quads(found.palette@) =~= discovered(q.subrange(0, 0)));
    while i < keys.len()
        invariant
            i <= keys@.len(),
            q == key_quads(keys@),
            found.all_opaque == opaque(q.subrange(0, i as int)),
            found.all_gray == gray(q.subrange(0, i as int)),
            found.fits1 == on_grid(q.subrange(0, i as int), 255),
            found.fits2 == on_grid(q.subrange(0, i as int), 85),
            found.fits4 == on_grid(q.subrange(0, i as int), 17),
            found.too_many ==> discovered(q.subrange(0, i as int)).len() > 256,
            !found.too_many ==> {
                &&& key_quads(found.palette@) == discovered(q.subrange(0, i as int))
                &&& found.palette@.len() <= 256
                &&& indexes(found.index@, key_quads(found.palette@))
            },
        decreases keys@.len() - i,
    {
        let key: [u8; 4] = keys[i];
        let ghost before = q.subrange(0, i as int);
        let ghost after = q.subrange(0, i + 1);
        let ghost c = as_quad(key);
        proof {
            assert(after.drop_last() =~= before);
            assert(after =~= before.push(c));
            assert(after.last() == c);
            extend_scan(before, c);
        }
        if key[3] != 255 {
            found.all_opaque = false;
        }
        if !(key[0] == key[1] && key[1] == key[2]) {
            found.all_gray = false;
        }
        if key[0] % 255 != 0 {
            found.fits1 = false;
        }
        if key[0] % 85 != 0 {
            found.fits2 = false;
        }
        if key[0] % 17 != 0 {
            found.fits4 = false;
        }
        if !found.too_many {
            let k: u32 = pack(key);
            proof {
                index_membership(found.index@, key_quads(found.palette@), c);
            }
            if !found.index.contains_key(&k) {
                if found.palette.len() == 256 {
                    found.too_many = true;
                } else {
                    proof {
                        index_extends(found.index@, key_quads(found.palette@), c);
                    }
                    let ghost was = key_quads(found.palette@);
                    found.index.insert(k, found.palette.len() as u8);
                    found.palette.push(key);
                    assert(key_quads(found.palette@) =~= was.push(c));
                }
            }
        }
        i += 1;
    }
    assert(q.subrange(0, i as int) =~= q);
    found
}

proof fn extend_scan(q: Seq<Quad>, c: Quad)
    ensures
        opaque(q.push(c)) == (opaque(q) && c.3 == 255),
        gray(q.push(c)) == (gray(q) && c.0 == c.1 && c.1 == c.2),
        on_grid(q.push(c), 255) == (on_grid(q, 255) && c.0 as int % 255 == 0),
        on_grid(q.push(c), 85) == (on_grid(q, 85) && c.0 as int % 85 == 0),
        on_grid(q.push(c), 17) == (on_grid(q, 17) && c.0 as int % 17 == 0),
{
    let more = q.push(c);
    assert(more[q.len() as int] == c);
    assert forall|i: int| 0 <= i < q.len() implies more[i] == #[trigger] q[i] by {}
}

/// `count * depth / 8` without an intermediate product.
fn packed_len(count: usize, depth: u8) -> (len: usize)
    requires
        depth == 1 || depth == 2 || depth == 4 || depth == 8,
    ensures
        len == count * depth as int / 8,
        len <= count,
{
    let d: usize = depth as usize;
    let whole: usize = count / 8;
    let part: usize = count % 8;
    proof {
        assert(whole * d + part * d / 8 == count * d / 8) by (nonlinear_arith)
            requires
                count == whole * 8 + part,
                0 <= part < 8,
                d == 1 || d == 2 || d == 4 || d == 8,
        ;
        assert(whole * d <= whole * 8) by (nonlinear_arith)
            requires
                d <= 8,
        ;
        assert(part * d <= part * 8) by (nonlinear_arith)
            requires
                d <= 8,
        ;
    }
    whole * d + part * d / 8
}

fn gray_of(keys: &Vec<[u8; 4]>, scale: u8) -> (out: Vec<u8>)
    requires
        scale >= 1,
    ensures
        out@ == gray_samples(key_quads(keys@), scale),
{
    let mut out: Vec<u8> = Vec::new();
    let mut i: usize = 0;
    while i < keys.len()
        invariant
            i <= keys@.len(),
            scale >= 1,
            out@.len() == i,
            forall|j: int|
                0 <= j < i ==> #[trigger] out@[j] == gray_samples(key_quads(keys@), scale)[j],
        decreases keys@.len() - i,
    {
        let key: [u8; 4] = keys[i];
        out.push(key[0] / scale);
        i += 1;
    }
    assert(out@ =~= gray_samples(key_quads(keys@), scale));
    out
}

fn gray_alpha_of(keys: &Vec<[u8; 4]>) -> (out: Vec<u8>)
    ensures
        out@ == gray_alpha_samples(key_quads(keys@)),
{
    let mut out: Vec<u8> = Vec::new();
    let mut i: usize = 0;
    while i < keys.len()
        invariant
            i <= keys@.len(),
            out@ == gray_alpha_samples(key_quads(keys@).subrange(0, i as int)),
        decreases keys@.len() - i,
    {
        let ghost before = key_quads(keys@).subrange(0, i as int);
        let key: [u8; 4] = keys[i];
        out.push(key[0]);
        out.push(key[3]);
        i += 1;
        proof {
            let after = key_quads(keys@).subrange(0, i as int);
            assert(after =~= before.push(as_quad(key)));
            assert(out@ =~= gray_alpha_samples(after));
        }
    }
    assert(key_quads(keys@).subrange(0, i as int) =~= key_quads(keys@));
    out
}

fn smaller(a: usize, b: usize) -> (m: usize)
    ensures
        m == least(a as int, b as int),
{
    if a <= b {
        a
    } else {
        b
    }
}

/// The factor by which a grey code of `depth` bits scales to 8 bits (§13.12).
pub fn gray8_scale(depth: u8) -> (scale: u8)
    ensures
        scale == gray_scale(depth),
        scale >= 1,
{
    match depth {
        1 => 255,
        2 => 85,
        4 => 17,
        _ => 1,
    }
}

/// Analyses interleaved 8-bit samples (`channels`: 1 = grey, 2 = grey+alpha, 3 = RGB, 4 = RGBA) and
/// returns the lossless reductions that beat the input encoding.
#[verifier::rlimit(40)]
pub fn analyze8(pixels: &[u8], channels: usize) -> (reductions: Reductions)
    requires
        1 <= channels <= 4,
    ensures
        reductions@ == reductions8(quads(pixels@, channels as int), channels as int),
{
    let ghost q = quads(pixels@, channels as int);
    let len: usize = byte_len(pixels);
    let pixel_count: usize = len / channels;
    let keys: Vec<[u8; 4]> = pixel_keys(pixels, channels);
    let found: Scan = scan(&keys);
    proof {
        vstd::arithmetic::div_mod::lemma_fundamental_div_mod(len as int, channels as int);
        assert(pixel_count * channels <= len) by (nonlinear_arith)
            requires
                channels * (len as int / channels as int) <= len,
                pixel_count == len as int / channels as int,
        ;
        discovered_holds_each_once(q);
        assert(pixel_count == q.len());
        if !opaque(q) {
            if channels == 1 || channels == 3 {
                assert forall|i: int| 0 <= i < q.len() implies (#[trigger] q[i]).3 == 255 by {}
            }
        }
        if channels < 3 {
            assert forall|i: int| 0 <= i < q.len() implies (#[trigger] q[i]).0 == q[i].1 && q[i].1
                == q[i].2 by {}
        }
        assert(channels >= 2 ==> pixel_count * 2 <= len) by (nonlinear_arith)
            requires
                pixel_count * channels <= len,
        ;
        assert(channels == 4 ==> pixel_count * 4 <= len) by (nonlinear_arith)
            requires
                pixel_count * channels <= len,
        ;
    }
    let input_size: usize = pixel_count * channels;
    let palette_size: usize = if found.too_many {
        usize::MAX
    } else {
        let depth: u8 = index_bit_depth(found.palette.len());
        let mut needs_trns: bool = false;
        let mut e: usize = 0;
        let ghost entries = discovered(q);
        assert(opaque(entries.subrange(0, 0)));
        while e < found.palette.len()
            invariant
                e <= found.palette@.len(),
                entries == key_quads(found.palette@),
                needs_trns == !opaque(entries.subrange(0, e as int)),
            decreases found.palette@.len() - e,
        {
            let entry: [u8; 4] = found.palette[e];
            proof {
                assert(entries.subrange(0, e + 1) =~= entries.subrange(0, e as int).push(
                    as_quad(entry),
                ));
                extend_scan(entries.subrange(0, e as int), as_quad(entry));
            }
            if entry[3] != 255 {
                needs_trns = true;
            }
            e += 1;
        }
        assert(entries.subrange(0, e as int) =~= entries);
        let overhead: usize = found.palette.len() * 3 + (if needs_trns {
            found.palette.len()
        } else {
            0
        }) + 24;
        packed_len(pixel_count, depth) + overhead
    };
    let gray_depth: u8 = if found.fits1 {
        1
    } else if found.fits2 {
        2
    } else if found.fits4 {
        4
    } else {
        8
    };
    let gray_size: usize = if found.all_gray && found.all_opaque {
        packed_len(pixel_count, gray_depth)
    } else {
        usize::MAX
    };
    let gray_alpha_size: usize = if found.all_gray && !found.all_opaque {
        pixel_count * 2
    } else {
        usize::MAX
    };
    let rgb_size: usize = if channels == 4 && found.all_opaque && !found.all_gray {
        pixel_count * 3
    } else {
        usize::MAX
    };
    let key: Option<[u8; 4]> = if may_have_colour_key(found.all_opaque, channels) {
        key_of(&keys)
    } else {
        None
    };
    let keyed: usize = match key {
        Some(_) => if found.all_gray {
            pixel_count + GREY_KEY_COST
        } else {
            keyed_size(pixel_count, false)
        },
        None => usize::MAX,
    };
    let free_size: usize = smaller(smaller(gray_size, gray_alpha_size), rgb_size);
    let best: usize = smaller(smaller(palette_size, free_size), keyed);
    assert(best == best_cost(q, channels as int));
    assert(free_size == free_cost(q, channels as int));
    if best >= input_size {
        return Reductions::Nothing;
    }
    let chunk_free: Option<Reduced> = if free_size < input_size {
        Some(
            if found.all_gray && found.all_opaque {
                Reduced::Gray {
                    depth: gray_depth,
                    samples: gray_of(&keys, gray8_scale(gray_depth)),
                }
            } else if found.all_gray {
                Reduced::GrayAlpha8(gray_alpha_of(&keys))
            } else {
                Reduced::Rgb8(rgb_of(&keys))
            },
        )
    } else {
        None
    };
    match chunk_free {
        Some(reduced) if best == free_size => Reductions::ChunkFree(reduced),
        chunk_free => {
            let chunked: Reduced = match key {
                Some(k) if best == keyed => if found.all_gray {
                    Reduced::GrayKeyed { samples: gray_of(&keys, 1), key: k[0] }
                } else {
                    Reduced::Rgb8Keyed { samples: rgb_of(&keys), key: [k[0], k[1], k[2]] }
                },
                _ => build_indexed(&keys, &found.palette, &found.index),
            };
            Reductions::Chunked { chunked, chunk_free }
        },
    }
}


/// The pixels a reader of the reduced image sees, at 8 bits. (The 16-bit layouts are
/// [`shown16`]'s.)
pub open spec fn shown8(m: ReducedModel) -> Seq<Quad> {
    match m {
        ReducedModel::Gray { depth, samples } => samples.map_values(
            |v: u8|
                {
                    let g = (v * gray_scale(depth)) as u8;
                    (g, g, g, 255u8)
                },
        ),
        ReducedModel::GrayAlpha8(s) => quads(s, 2),
        ReducedModel::Rgb8(s) => quads(s, 3),
        ReducedModel::Rgba8(s) => quads(s, 4),
        ReducedModel::Rgb8Keyed { samples, key } => quads(samples, 3).map_values(
            |c: Quad|
                if (c.0, c.1, c.2) == key {
                    (c.0, c.1, c.2, 0u8)
                } else {
                    c
                },
        ),
        ReducedModel::GrayKeyed { samples, key } => quads(samples, 1).map_values(
            |c: Quad|
                if c.0 == key {
                    (c.0, c.1, c.2, 0u8)
                } else {
                    c
                },
        ),
        ReducedModel::Indexed { indices, plte, trns, .. } => indices.map_values(
            |i: u8|
                (
                    plte[i * 3],
                    plte[i * 3 + 1],
                    plte[i * 3 + 2],
                    alpha_at(
                        match trns {
                            Some(t) => t,
                            None => Seq::empty(),
                        },
                        i as int,
                    ),
                ),
        ),
        _ => Seq::empty(),
    }
}

proof fn interleaving_reads_back(q: Seq<Quad>)
    ensures
        opaque(q) ==> quads(rgb_samples(q), 3) == q,
        gray(q) ==> quads(gray_alpha_samples(q), 2) == q,
{
    if opaque(q) {
        let s = rgb_samples(q);
        assert forall|i: int| 0 <= i < q.len() implies quads(s, 3)[i] == q[i] by {
            assert((i * 3) / 3 == i && (i * 3) % 3 == 0);
            assert((i * 3 + 1) / 3 == i && (i * 3 + 1) % 3 == 1);
            assert((i * 3 + 2) / 3 == i && (i * 3 + 2) % 3 == 2);
            assert(q[i].3 == 255);
        }
        assert(quads(s, 3) =~= q);
    }
    if gray(q) {
        let s = gray_alpha_samples(q);
        assert forall|i: int| 0 <= i < q.len() implies quads(s, 2)[i] == q[i] by {
            assert((i * 2) / 2 == i && (i * 2) % 2 == 0);
            assert((i * 2 + 1) / 2 == i && (i * 2 + 1) % 2 == 1);
            assert(q[i].0 == q[i].1 && q[i].1 == q[i].2);
        }
        assert(quads(s, 2) =~= q);
    }
}

proof fn free_reduction_is_lossless(q: Seq<Quad>, channels: int)
    requires
        free_cost(q, channels) < usize::MAX,
    ensures
        shown8(free_reduction(q)) == q,
{
    if gray(q) && opaque(q) {
        let scale = gray_scale(gray_depth_of(q));
        let back = shown8(free_reduction(q));
        assert forall|i: int| 0 <= i < q.len() implies back[i] == q[i] by {
            assert(q[i].0 == q[i].1 && q[i].1 == q[i].2 && q[i].3 == 255);
            assert(q[i].0 as int % scale as int == 0);
            vstd::arithmetic::div_mod::lemma_fundamental_div_mod(q[i].0 as int, scale as int);
            assert((q[i].0 / scale) * scale == q[i].0) by (nonlinear_arith)
                requires
                    q[i].0 as int == scale as int * (q[i].0 as int / scale as int) + q[i].0 as int
                        % scale as int,
                    q[i].0 as int % scale as int == 0,
            ;
        }
        assert(back =~= q);
    } else {
        interleaving_reads_back(q);
    }
}

proof fn keyed_reduction_is_lossless(q: Seq<Quad>, key: Quad)
    requires
        is_colour_key(q, key),
    ensures
        shown8(keyed_reduction(q, key)) == q,
{
    let back = shown8(keyed_reduction(q, key));
    if gray(q) {
        let s = gray_samples(q, 1);
        assert forall|i: int| 0 <= i < q.len() implies back[i] == q[i] by {
            assert(q[i].0 == q[i].1 && q[i].1 == q[i].2);
            assert(q[i] == key || q[i].3 == 255 && !same_color(q[i], key));
            assert(i * 1 == i);
            let t = choose|t: int| 0 <= t < q.len() && q[t] == key;
            assert(q[t].0 == q[t].1 && q[t].1 == q[t].2);
        }
        assert(back =~= q);
    } else {
        let s = rgb_samples(q);
        assert forall|i: int| 0 <= i < q.len() implies back[i] == q[i] by {
            assert((i * 3) / 3 == i && (i * 3) % 3 == 0);
            assert((i * 3 + 1) / 3 == i && (i * 3 + 1) % 3 == 1);
            assert((i * 3 + 2) / 3 == i && (i * 3 + 2) % 3 == 2);
            assert(q[i] == key || q[i].3 == 255 && !same_color(q[i], key));
        }
        assert(back =~= q);
    }
}

proof fn indexed_reduction_is_lossless(q: Seq<Quad>)
    requires
        discovered(q).len() <= 256,
    ensures
        shown8(indexed_reduction(q)) == q,
{
    let entries = ordered(discovered(q));
    discovered_holds_each_once(q);
    ordered_is_a_sorted_rearrangement(discovered(q));
    crate::palette::trimming_keeps_every_alpha(quad_alphas(entries));
    let back = shown8(indexed_reduction(q));
    assert forall|i: int| 0 <= i < q.len() implies back[i] == q[i] by {
        assert(q.contains(q[i]));
        assert(discovered(q).contains(q[i]));
        assert(entries.contains(q[i]));
        let p = entries.index_of(q[i]);
        assert(entries[p] == q[i] && 0 <= p < entries.len());
        assert((p * 3) / 3 == p && (p * 3) % 3 == 0);
        assert((p * 3 + 1) / 3 == p && (p * 3 + 1) % 3 == 1);
        assert((p * 3 + 2) / 3 == p && (p * 3 + 2) % 3 == 2);
        let alphas = quad_alphas(entries);
        assert(alpha_at(trimmed(alphas), p) == alpha_at(alphas, p));
        if opaque(entries) {
            assert(entries[p].3 == 255);
        }
    }
    assert(back =~= q);
}

/// Every reduction offered for an 8-bit image shows exactly the image's pixels.
pub proof fn reductions_are_lossless(q: Seq<Quad>, channels: int)
    requires
        1 <= channels <= 4,
        q.len() * channels <= usize::MAX,
    ensures
        match reductions8(q, channels) {
            ReductionsModel::Nothing => true,
            ReductionsModel::ChunkFree(m) => shown8(m) == q,
            ReductionsModel::Chunked { chunked, chunk_free } => shown8(chunked) == q && (
            chunk_free matches Some(m) ==> shown8(m) == q),
        },
{
    let input = q.len() * channels;
    if best_cost(q, channels) < input {
        if free_cost(q, channels) < input {
            free_reduction_is_lossless(q, channels);
        }
        match applicable_key(q, channels) {
            Some(key) if best_cost(q, channels) == keyed_cost(q, channels) => {
                keyed_reduction_is_lossless(q, key);
            },
            _ => {
                if palette_cost(q) == best_cost(q, channels) {
                    indexed_reduction_is_lossless(q);
                }
            },
        }
    }
}

/// Raw bytes a reduced 8-bit image stores, chunks it needs included.
pub open spec fn stored_estimate(m: ReducedModel) -> int {
    match m {
        ReducedModel::Gray { depth, samples } => samples.len() * depth as int / 8,
        ReducedModel::GrayAlpha8(s) => s.len() as int,
        ReducedModel::Rgb8(s) => s.len() as int,
        ReducedModel::Rgba8(s) => s.len() as int,
        ReducedModel::Rgb8Keyed { samples, .. } => samples.len() + RGB_KEY_COST,
        ReducedModel::GrayKeyed { samples, .. } => samples.len() + GREY_KEY_COST,
        ReducedModel::Indexed { depth, indices, plte, .. } => indices.len() * depth as int / 8
            + plte.len() + 24,
        ReducedModel::Gray16Be(s) => s.len() as int,
        ReducedModel::GrayAlpha16Be(s) => s.len() as int,
        ReducedModel::Rgb16Be(s) => s.len() as int,
    }
}

/// Every reduction offered for an 8-bit image stores fewer raw bytes than the image itself.
pub proof fn reductions_save_bytes(q: Seq<Quad>, channels: int)
    requires
        1 <= channels <= 4,
        q.len() * channels <= usize::MAX,
    ensures
        match reductions8(q, channels) {
            ReductionsModel::Nothing => true,
            ReductionsModel::ChunkFree(m) => stored_estimate(m) < q.len() * channels,
            ReductionsModel::Chunked { chunked, chunk_free } => stored_estimate(chunked) < q.len()
                * channels && (chunk_free matches Some(m) ==> stored_estimate(m) < q.len()
                * channels),
        },
{
    discovered_holds_each_once(q);
    ordered_is_a_sorted_rearrangement(discovered(q));
}

/// Samples as integers.
pub open spec fn ints16(s: Seq<u16>) -> Seq<int> {
    s.map_values(|v: u16| v as int)
}

/// Whether every 16-bit sample repeats one byte, and so is exactly `k * 257`.
pub open spec fn demotable(samples: Seq<u16>) -> bool {
    forall|i: int| 0 <= i < samples.len() ==> (#[trigger] samples[i]) / 256 == samples[i] % 256
}

/// The low bytes of 16-bit samples.
pub open spec fn demoted(samples: Seq<u16>) -> Seq<u8> {
    samples.map_values(|v: u16| (v % 256) as u8)
}

/// Demotion is undone by widening with a factor of 257.
pub proof fn demotion_is_undone_by_257(samples: Seq<u16>)
    requires
        demotable(samples),
    ensures
        forall|i: int| 0 <= i < samples.len() ==> #[trigger] demoted(samples)[i] * 257 == samples[i],
{
    assert forall|i: int| 0 <= i < samples.len() implies #[trigger] demoted(samples)[i] * 257
        == samples[i] by {
        assert(samples[i] / 256 == samples[i] % 256);
    }
}

/// The 8-bit demotion of `samples`, or `None` unless every sample is exactly `k * 257`.
pub fn demote16(samples: &[u16]) -> (out: Option<Vec<u8>>)
    ensures
        out is Some <==> demotable(samples@),
        out matches Some(d) ==> d@ == demoted(samples@),
{
    let mut out: Vec<u8> = Vec::new();
    let mut i: usize = 0;
    while i < samples.len()
        invariant
            i <= samples@.len(),
            out@.len() == i,
            forall|j: int|
                0 <= j < i ==> (#[trigger] samples@[j]) / 256 == samples@[j] % 256 && out@[j] == (
                samples@[j] % 256) as u8,
        decreases samples@.len() - i,
    {
        let v: u16 = samples[i];
        if v / 256 != v % 256 {
            return None;
        }
        out.push((v % 256) as u8);
        i += 1;
    }
    assert(out@ =~= demoted(samples@));
    Some(out)
}

/// 16-bit samples as big-endian bytes.
pub open spec fn be_bytes_of(samples: Seq<u16>) -> Seq<u8> {
    Seq::new(
        samples.len() * 2,
        |j: int|
            if j % 2 == 0 {
                (samples[j / 2] / 256) as u8
            } else {
                (samples[j / 2] % 256) as u8
            },
    )
}

/// Serialises 16-bit samples big-endian (PNG's network byte order).
pub fn be_bytes(samples: &[u16]) -> (out: Vec<u8>)
    ensures
        out@ == be_bytes_of(samples@),
{
    let mut out: Vec<u8> = Vec::new();
    let mut i: usize = 0;
    while i < samples.len()
        invariant
            i <= samples@.len(),
            out@ == be_bytes_of(samples@.subrange(0, i as int)),
        decreases samples@.len() - i,
    {
        let v: u16 = samples[i];
        out.push((v / 256) as u8);
        out.push((v % 256) as u8);
        i += 1;
        assert(out@ =~= be_bytes_of(samples@.subrange(0, i as int)));
    }
    assert(samples@.subrange(0, i as int) =~= samples@);
    out
}

/// Red, green, blue and alpha of a 16-bit pixel.
pub type Quad16 = (u16, u16, u16, u16);

/// The 16-bit quads of an interleaved image.
pub open spec fn quads16(samples: Seq<u16>, channels: int) -> Seq<Quad16> {
    Seq::new(
        (samples.len() as int / channels) as nat,
        |i: int|
            {
                let at = i * channels;
                let alpha = if channels % 2 == 0 {
                    samples[at + channels - 1]
                } else {
                    65535
                };
                if channels >= 3 {
                    (samples[at], samples[at + 1], samples[at + 2], alpha)
                } else {
                    (samples[at], samples[at], samples[at], alpha)
                }
            },
    )
}

/// Whether every 16-bit quad is opaque.
pub open spec fn opaque16(q: Seq<Quad16>) -> bool {
    forall|i: int| 0 <= i < q.len() ==> (#[trigger] q[i]).3 == 65535
}

/// Whether every 16-bit quad is a grey.
pub open spec fn gray16(q: Seq<Quad16>) -> bool {
    forall|i: int| 0 <= i < q.len() ==> (#[trigger] q[i]).0 == q[i].1 && q[i].1 == q[i].2
}

/// Grey samples of 16-bit quads.
pub open spec fn gray16_samples(q: Seq<Quad16>) -> Seq<u16> {
    q.map_values(|c: Quad16| c.0)
}

/// Grey and alpha of 16-bit quads, interleaved.
pub open spec fn gray_alpha16_samples(q: Seq<Quad16>) -> Seq<u16> {
    Seq::new(
        q.len() * 2,
        |j: int|
            if j % 2 == 0 {
                q[j / 2].0
            } else {
                q[j / 2].3
            },
    )
}

/// Red, green and blue of 16-bit quads, interleaved.
pub open spec fn rgb16_samples(q: Seq<Quad16>) -> Seq<u16> {
    Seq::new(
        q.len() * 3,
        |j: int|
            if j % 3 == 0 {
                q[j / 3].0
            } else if j % 3 == 1 {
                q[j / 3].1
            } else {
                q[j / 3].2
            },
    )
}

/// A demoted image in its own channel layout.
pub open spec fn plain_demotion(d: Seq<u8>, channels: int) -> ReducedModel {
    if channels == 1 {
        ReducedModel::Gray { depth: 8, samples: d }
    } else if channels == 2 {
        ReducedModel::GrayAlpha8(d)
    } else if channels == 3 {
        ReducedModel::Rgb8(d)
    } else {
        ReducedModel::Rgba8(d)
    }
}

/// The reductions of a 16-bit image. A demotable image is analysed again at 8 bits, with the plain
/// demotion as the least it gets; otherwise only the 16-bit channel reductions apply.
pub open spec fn reductions16(samples: Seq<u16>, channels: int) -> ReductionsModel {
    if demotable(samples) {
        let d = demoted(samples);
        match reductions8(quads(d, channels), channels) {
            ReductionsModel::Nothing => ReductionsModel::ChunkFree(plain_demotion(d, channels)),
            ReductionsModel::ChunkFree(m) => ReductionsModel::ChunkFree(m),
            ReductionsModel::Chunked { chunked, chunk_free } => ReductionsModel::Chunked {
                chunked,
                chunk_free: match chunk_free {
                    Some(m) => Some(m),
                    None => Some(plain_demotion(d, channels)),
                },
            },
        }
    } else {
        let q = quads16(samples, channels);
        if gray16(q) && opaque16(q) && channels > 1 {
            ReductionsModel::ChunkFree(ReducedModel::Gray16Be(be_bytes_of(gray16_samples(q))))
        } else if gray16(q) && channels > 2 {
            ReductionsModel::ChunkFree(
                ReducedModel::GrayAlpha16Be(be_bytes_of(gray_alpha16_samples(q))),
            )
        } else if channels == 4 && opaque16(q) {
            ReductionsModel::ChunkFree(ReducedModel::Rgb16Be(be_bytes_of(rgb16_samples(q))))
        } else {
            ReductionsModel::Nothing
        }
    }
}

fn plain(d: Vec<u8>, channels: usize) -> (reduced: Reduced)
    requires
        1 <= channels <= 4,
    ensures
        reduced@ == plain_demotion(d@, channels as int),
{
    match channels {
        1 => Reduced::Gray { depth: 8, samples: d },
        2 => Reduced::GrayAlpha8(d),
        3 => Reduced::Rgb8(d),
        _ => Reduced::Rgba8(d),
    }
}

/// Analyses interleaved 16-bit samples (`channels` as in [`analyze8`]).
pub fn analyze16(samples: &[u16], channels: usize) -> (reductions: Reductions)
    requires
        1 <= channels <= 4,
    ensures
        reductions@ == reductions16(samples@, channels as int),
{
    match demote16(samples) {
        Some(d) => {
            return match analyze8(d.as_slice(), channels) {
                Reductions::Nothing => Reductions::ChunkFree(plain(d, channels)),
                Reductions::ChunkFree(reduced) => Reductions::ChunkFree(reduced),
                Reductions::Chunked { chunked, chunk_free } => match chunk_free {
                    Some(reduced) => Reductions::Chunked { chunked, chunk_free: Some(reduced) },
                    None => Reductions::Chunked { chunked, chunk_free: Some(plain(d, channels)) },
                },
            };
        },
        None => {},
    }
    let ghost q = quads16(samples@, channels as int);
    let mut all_opaque: bool = true;
    let mut all_gray: bool = true;
    let mut grays: Vec<u16> = Vec::new();
    let mut gray_alphas: Vec<u16> = Vec::new();
    let mut rgbs: Vec<u16> = Vec::new();
    let count: usize = samples.len() / channels;
    let mut i: usize = 0;
    let mut at: usize = 0;
    while i < count
        invariant
            1 <= channels <= 4,
            count == samples.len() as int / channels as int,
            i <= count,
            at == i * channels,
            q == quads16(samples@, channels as int),
            q.len() == count,
            all_opaque == opaque16(q.subrange(0, i as int)),
            all_gray == gray16(q.subrange(0, i as int)),
            grays@ == gray16_samples(q.subrange(0, i as int)),
            gray_alphas@ == gray_alpha16_samples(q.subrange(0, i as int)),
            rgbs@ == rgb16_samples(q.subrange(0, i as int)),
        decreases count - i,
    {
        proof {
            pixel_inside(samples.len() as int, channels as int, i as int);
        }
        let px: &[u16] = &samples[at..at + channels];
        let alpha: u16 = if channels % 2 == 0 {
            px[channels - 1]
        } else {
            65535
        };
        let (r, g, b): (u16, u16, u16) = if channels >= 3 {
            (px[0], px[1], px[2])
        } else {
            (px[0], px[0], px[0])
        };
        let ghost before = q.subrange(0, i as int);
        proof {
            let c = (r, g, b, alpha);
            assert(q[i as int] == c);
            let after = q.subrange(0, i + 1);
            assert(after =~= before.push(c));
            assert(after[i as int] == c);
            assert forall|j: int| 0 <= j < before.len() implies after[j] == #[trigger] before[j] by {}
            assert(opaque16(after) == (opaque16(before) && alpha == 65535));
            assert(gray16(after) == (gray16(before) && r == g && g == b));
        }
        if alpha != 65535 {
            all_opaque = false;
        }
        if !(r == g && g == b) {
            all_gray = false;
        }
        grays.push(r);
        gray_alphas.push(r);
        gray_alphas.push(alpha);
        rgbs.push(r);
        rgbs.push(g);
        rgbs.push(b);
        i += 1;
        at += channels;
        proof {
            let after = q.subrange(0, i as int);
            assert(grays@ =~= gray16_samples(after));
            assert(gray_alphas@ =~= gray_alpha16_samples(after));
            assert(rgbs@ =~= rgb16_samples(after));
        }
    }
    assert(q.subrange(0, i as int) =~= q);
    if all_gray && all_opaque && channels > 1 {
        Reductions::ChunkFree(Reduced::Gray16Be(be_bytes(grays.as_slice())))
    } else if all_gray && channels > 2 {
        Reductions::ChunkFree(Reduced::GrayAlpha16Be(be_bytes(gray_alphas.as_slice())))
    } else if channels == 4 && all_opaque {
        Reductions::ChunkFree(Reduced::Rgb16Be(be_bytes(rgbs.as_slice())))
    } else {
        Reductions::Nothing
    }
}

/// Big-endian bytes read as 16-bit samples.
pub open spec fn samples16_of(bytes: Seq<u8>) -> Seq<u16> {
    Seq::new(bytes.len() / 2, |i: int| (bytes[2 * i] * 256 + bytes[2 * i + 1]) as u16)
}

/// Big-endian serialisation is undone by reading the bytes as samples.
pub proof fn be_bytes_read_back(samples: Seq<u16>)
    ensures
        samples16_of(be_bytes_of(samples)) == samples,
{
    let bytes = be_bytes_of(samples);
    assert forall|i: int| 0 <= i < samples.len() implies samples16_of(bytes)[i] == samples[i] by {
        assert((2 * i) % 2 == 0 && (2 * i) / 2 == i);
        assert((2 * i + 1) % 2 == 1 && (2 * i + 1) / 2 == i);
        let v = samples[i];
        assert(v as int == (v as int / 256) * 256 + v as int % 256);
    }
    assert(samples16_of(bytes) =~= samples);
}

/// An 8-bit quad widened to 16 bits.
pub open spec fn widened(c: Quad) -> Quad16 {
    ((c.0 * 257) as u16, (c.1 * 257) as u16, (c.2 * 257) as u16, (c.3 * 257) as u16)
}

/// The pixels a reader of the reduced image sees, at 16 bits.
pub open spec fn shown16(m: ReducedModel) -> Seq<Quad16> {
    match m {
        ReducedModel::Gray16Be(s) => quads16(samples16_of(s), 1),
        ReducedModel::GrayAlpha16Be(s) => quads16(samples16_of(s), 2),
        ReducedModel::Rgb16Be(s) => quads16(samples16_of(s), 3),
        _ => shown8(m).map_values(|c: Quad| widened(c)),
    }
}

proof fn native_reductions16_are_lossless(q: Seq<Quad16>)
    ensures
        gray16(q) && opaque16(q) ==> quads16(gray16_samples(q), 1) == q,
        gray16(q) ==> quads16(gray_alpha16_samples(q), 2) == q,
        opaque16(q) ==> quads16(rgb16_samples(q), 3) == q,
{
    if gray16(q) && opaque16(q) {
        let s = gray16_samples(q);
        assert forall|i: int| 0 <= i < q.len() implies quads16(s, 1)[i] == q[i] by {
            assert(i * 1 == i);
            assert(q[i].0 == q[i].1 && q[i].1 == q[i].2 && q[i].3 == 65535);
        }
        assert(quads16(s, 1) =~= q);
    }
    if gray16(q) {
        let s = gray_alpha16_samples(q);
        assert forall|i: int| 0 <= i < q.len() implies quads16(s, 2)[i] == q[i] by {
            assert((i * 2) / 2 == i && (i * 2) % 2 == 0);
            assert((i * 2 + 1) / 2 == i && (i * 2 + 1) % 2 == 1);
            assert(q[i].0 == q[i].1 && q[i].1 == q[i].2);
        }
        assert(quads16(s, 2) =~= q);
    }
    if opaque16(q) {
        let s = rgb16_samples(q);
        assert forall|i: int| 0 <= i < q.len() implies quads16(s, 3)[i] == q[i] by {
            assert((i * 3) / 3 == i && (i * 3) % 3 == 0);
            assert((i * 3 + 1) / 3 == i && (i * 3 + 1) % 3 == 1);
            assert((i * 3 + 2) / 3 == i && (i * 3 + 2) % 3 == 2);
            assert(q[i].3 == 65535);
        }
        assert(quads16(s, 3) =~= q);
    }
}

/// Every reduction offered for a 16-bit image shows exactly the image's pixels, widened back where
/// it was demoted.
pub proof fn reductions16_are_lossless(samples: Seq<u16>, channels: int)
    requires
        1 <= channels <= 4,
        samples.len() <= usize::MAX,
    ensures
        match reductions16(samples, channels) {
            ReductionsModel::Nothing => true,
            ReductionsModel::ChunkFree(m) => shown16(m) == quads16(samples, channels),
            ReductionsModel::Chunked { chunked, chunk_free } => shown16(chunked) == quads16(
                samples,
                channels,
            ) && (chunk_free matches Some(m) ==> shown16(m) == quads16(samples, channels)),
        },
{
    let q = quads16(samples, channels);
    if demotable(samples) {
        let d = demoted(samples);
        let q8 = quads(d, channels);
        vstd::arithmetic::div_mod::lemma_fundamental_div_mod(samples.len() as int, channels);
        assert(q8.len() * channels <= usize::MAX) by (nonlinear_arith)
            requires
                samples.len() == channels * (samples.len() as int / channels) + samples.len() as int
                    % channels,
                samples.len() as int % channels >= 0,
                q8.len() == samples.len() as int / channels,
                samples.len() <= usize::MAX,
        ;
        reductions_are_lossless(q8, channels);
        demotion_is_undone_by_257(samples);
        let wide = q8.map_values(|c: Quad| widened(c));
        assert forall|i: int| 0 <= i < q.len() implies wide[i] == q[i] by {
            pixel_inside(samples.len() as int, channels, i);
            let at = i * channels;
            assert(d[at] * 257 == samples[at]);
            if channels >= 3 {
                assert(d[at + 1] * 257 == samples[at + 1]);
                assert(d[at + 2] * 257 == samples[at + 2]);
            }
            assert(d[at + channels - 1] * 257 == samples[at + channels - 1]);
        }
        assert(wide =~= q);
        let p = shown8(plain_demotion(d, channels));
        if channels == 1 {
            assert forall|i: int| 0 <= i < q8.len() implies p[i] == q8[i] by {
                assert(i * 1 == i);
            }
        }
        assert(p =~= q8);
        match reductions8(q8, channels) {
            ReductionsModel::Nothing => {
                assert(shown16(plain_demotion(d, channels)) =~= wide);
            },
            ReductionsModel::ChunkFree(m) => {
                assert(shown8(m) == q8);
                reductions8_are_8_bit(q8, channels);
                assert(shown16(m) =~= wide);
            },
            ReductionsModel::Chunked { chunked, chunk_free } => {
                reductions8_are_8_bit(q8, channels);
                assert(shown16(chunked) =~= wide);
                assert(shown16(plain_demotion(d, channels)) =~= wide);
                match chunk_free {
                    Some(m) => {
                        assert(shown8(m) == q8);
                        assert(shown16(m) =~= wide);
                    },
                    None => {},
                }
            },
        }
    } else {
        native_reductions16_are_lossless(q);
        be_bytes_read_back(gray16_samples(q));
        be_bytes_read_back(gray_alpha16_samples(q));
        be_bytes_read_back(rgb16_samples(q));
    }
}

/// Whether a reduction stores 8-bit samples or less.
pub open spec fn is_8_bit(m: ReducedModel) -> bool {
    !(m is Gray16Be || m is GrayAlpha16Be || m is Rgb16Be)
}

pub proof fn reductions8_are_8_bit(q: Seq<Quad>, channels: int)
    ensures
        match reductions8(q, channels) {
            ReductionsModel::Nothing => true,
            ReductionsModel::ChunkFree(m) => is_8_bit(m),
            ReductionsModel::Chunked { chunked, chunk_free } => is_8_bit(chunked) && (
            chunk_free matches Some(m) ==> is_8_bit(m)),
        },
{
}

/// Cleaning changes no visible pixel: alpha samples stay, and so does every sample of a pixel whose
/// alpha is not zero.
pub proof fn cleaning_changes_only_hidden_color(samples: Seq<int>, channels: int, i: int, k: int)
    requires
        channels == 2 || channels == 4,
        0 <= i < samples.len() as int / channels,
        0 <= k < channels,
    ensures
        ({
            let at = i * channels + k;
            let cleaned = without_hidden_color(samples, channels);
            &&& cleaned.len() == samples.len()
            &&& k == channels - 1 || !invisible(samples, channels, i) ==> cleaned[at] == samples[at]
            &&& k < channels - 1 && invisible(samples, channels, i) ==> cleaned[at] == 0
        }),
{
    pixel_position(i, channels, k);
    pixel_inside(samples.len() as int, channels, i);
}

} // verus!
