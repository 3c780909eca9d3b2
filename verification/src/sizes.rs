//! What trying more than one encoding costs: never a byte.
use crate::alike::{builds_alike, same_file, same_layout16, same_layout8};
use crate::encoder::{brute_force_strategy, FileModel, PngEncoder, BRUTE_FORCE_COUNT};
use crate::pixels::{ImageRef, SampleSlice};
use crate::reduce::{ReducedModel, ReductionsModel};
use vstd::prelude::*;

verus! {

proof fn best_is_smallest(e: PngEncoder, bytes: Seq<u8>, row_bytes: int, bpp: int, n: int, k: int)
    requires
        0 <= k < n,
    ensures
        e.best_candidate(bytes, row_bytes, bpp, n).len() <= e.candidate(
            brute_force_strategy(k),
            bytes,
            row_bytes,
            bpp,
        ).len(),
    decreases n,
{
    if k < n - 1 {
        best_is_smallest(e, bytes, row_bytes, bpp, n - 1, k);
    }
}

proof fn best_is_a_candidate(e: PngEncoder, bytes: Seq<u8>, row_bytes: int, bpp: int, n: int) -> (at:
    int)
    requires
        1 <= n,
    ensures
        0 <= at < n,
        e.best_candidate(bytes, row_bytes, bpp, n) == e.candidate(
            brute_force_strategy(at),
            bytes,
            row_bytes,
            bpp,
        ),
        forall|k: int|
            0 <= k < at ==> e.best_candidate(bytes, row_bytes, bpp, n).len() < (#[trigger] e.candidate(
                brute_force_strategy(k),
                bytes,
                row_bytes,
                bpp,
            )).len(),
    decreases n,
{
    if n == 1 {
        0
    } else {
        let before = e.best_candidate(bytes, row_bytes, bpp, n - 1);
        let last = e.candidate(brute_force_strategy(n - 1), bytes, row_bytes, bpp);
        let at = best_is_a_candidate(e, bytes, row_bytes, bpp, n - 1);
        if last.len() < before.len() {
            assert forall|k: int| 0 <= k < n - 1 implies last.len() < (#[trigger] e.candidate(
                brute_force_strategy(k),
                bytes,
                row_bytes,
                bpp,
            )).len() by {
                best_is_smallest(e, bytes, row_bytes, bpp, n - 1, k);
            }
            n - 1
        } else {
            at
        }
    }
}

/// Brute force keeps the smallest of its candidates, and the first of those on a tie.
pub proof fn brute_force_keeps_the_first_smallest(
    e: PngEncoder,
    bytes: Seq<u8>,
    row_bytes: int,
    bpp: int,
) -> (at: int)
    requires
        e.filter is BruteForce,
    ensures
        0 <= at < BRUTE_FORCE_COUNT,
        e.idat_stream(bytes, row_bytes, bpp) == e.candidate(
            brute_force_strategy(at),
            bytes,
            row_bytes,
            bpp,
        ),
        forall|k: int|
            0 <= k < BRUTE_FORCE_COUNT ==> e.idat_stream(bytes, row_bytes, bpp).len() <= (
            #[trigger] e.candidate(brute_force_strategy(k), bytes, row_bytes, bpp)).len(),
        forall|k: int|
            0 <= k < at ==> e.idat_stream(bytes, row_bytes, bpp).len() < (#[trigger] e.candidate(
                brute_force_strategy(k),
                bytes,
                row_bytes,
                bpp,
            )).len(),
{
    let n = BRUTE_FORCE_COUNT as int;
    assert forall|k: int| 0 <= k < n implies e.best_candidate(bytes, row_bytes, bpp, n).len() <= (
    #[trigger] e.candidate(brute_force_strategy(k), bytes, row_bytes, bpp)).len() by {
        best_is_smallest(e, bytes, row_bytes, bpp, n, k);
    }
    best_is_a_candidate(e, bytes, row_bytes, bpp, n)
}

/// A reduction that carries a chunk is never trusted on its own: the file that is written is no larger
/// than that reduction, its chunk-free runner-up or the image as it arrived.
pub proof fn a_race_keeps_the_smallest(
    e: PngEncoder,
    width: u32,
    height: u32,
    plain: FileModel,
    chunked: ReducedModel,
    chunk_free: Option<ReducedModel>,
)
    ensures
        ({
            let r = ReductionsModel::Chunked { chunked, chunk_free };
            let size = e.file_of(e.raced(width, height, plain, r)).len();
            &&& size <= e.file_of(plain).len()
            &&& size <= e.file_of(e.reduced_file(width, height, chunked)).len()
            &&& chunk_free matches Some(m) ==> size <= e.file_of(
                e.reduced_file(width, height, m),
            ).len()
        }),
{
}

/// The encoder with the cleanup of transparent pixels switched off.
pub open spec fn without_cleanup(e: PngEncoder) -> PngEncoder {
    PngEncoder { clean_transparent: false, ..e }
}

/// Cleaning transparent pixels never costs a byte: the file is no larger than without it, and where it is
/// no smaller it is the same file.
pub proof fn cleanup_never_costs_a_byte(e: PngEncoder, image: ImageRef<'_>)
    ensures
        ({
            let cleaned = e.file_of(e.encoded(image));
            let plain = without_cleanup(e).file_of(without_cleanup(e).encoded(image));
            &&& cleaned.len() <= plain.len()
            &&& cleaned.len() == plain.len() ==> cleaned == plain
        }),
{
    let w = without_cleanup(e);
    let (width, height, format) = (image.spec_width(), image.spec_height(), image.spec_format());
    assert(builds_alike(e, w));
    same_file(e, w, w.encoded(image));
    match image.spec_samples() {
        SampleSlice::B8(s) => {
            same_layout8(e, w, width, height, format, s@);
        },
        SampleSlice::B16(s) => {
            same_layout16(e, w, width, height, format, s@);
        },
    }
}

} // verus!
