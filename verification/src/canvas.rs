//! From a filtered scanline stream to the samples of an image (PNG §7.2, §8, §9).
use crate::adam7::{
    locate, pass_at, pass_bounds, pass_count, pass_dimensions, pass_height, pass_is_empty, pass_len,
    pass_of, pass_row_len, pass_width, passes_for, passes_len, place_in_pass, place_is_inside,
    stream_len, Pass,
};
use crate::bytes::{append, be16, read_be16};
use crate::error::{failed, Cause, Error};
use crate::filter::{
    every_filter_is_invertible, filter_at, filtered_image, filtered_row, row_above, row_at,
    strategy_filter, unfilter_row, unfiltered_row, FilterStrategy, FilterType,
};
use crate::ihdr::{decoded_bytes, Ihdr};
use crate::pack::{is_sub_byte, packed_row_len, unpack_scanlines, unpacked};
use crate::reduce::pixel_position;
use vstd::prelude::*;

verus! {

/// The raw rows of a filtered stream of `rows` rows of `1 + row_bytes` bytes, or nothing where a
/// row names an undefined filter.
pub open spec fn restored_rows(stream: Seq<u8>, row_bytes: int, bpp: int, rows: nat) -> Option<
    Seq<u8>,
>
    decreases rows,
{
    if rows == 0 {
        Some(Seq::empty())
    } else {
        let y = rows - 1;
        let at = y * (row_bytes + 1);
        match restored_rows(stream, row_bytes, bpp, y as nat) {
            None => None,
            Some(before) => if stream[at] > 4 {
                None
            } else {
                Some(
                    before + unfiltered_row(
                        filter_at(stream[at] as int),
                        stream.subrange(at + 1, at + 1 + row_bytes),
                        row_above(before, row_bytes, y),
                        bpp,
                    ),
                )
            },
        }
    }
}

/// Once a row is undefined, so is everything behind it.
proof fn undefined_rows_stay(stream: Seq<u8>, row_bytes: int, bpp: int, y: nat, rows: nat)
    requires
        y <= rows,
        restored_rows(stream, row_bytes, bpp, y) is None,
    ensures
        restored_rows(stream, row_bytes, bpp, rows) is None,
    decreases rows,
{
    if y < rows {
        undefined_rows_stay(stream, row_bytes, bpp, y, (rows - 1) as nat);
    }
}

proof fn unfiltered_len(filter: FilterType, row: Seq<u8>, prev: Seq<u8>, bpp: int)
    ensures
        unfiltered_row(filter, row, prev, bpp).len() == row.len(),
    decreases row.len(),
{
    if row.len() > 0 {
        unfiltered_len(filter, row.drop_last(), prev, bpp);
    }
}

/// Restored rows have the length of the image.
pub proof fn restored_rows_len(stream: Seq<u8>, row_bytes: int, bpp: int, rows: nat)
    requires
        row_bytes >= 0,
        stream.len() >= rows * (row_bytes + 1),
    ensures
        restored_rows(stream, row_bytes, bpp, rows) matches Some(r) ==> r.len() == rows * row_bytes,
    decreases rows,
{
    if rows > 0 {
        let y = rows - 1;
        row_step(y, row_bytes);
        restored_rows_len(stream, row_bytes, bpp, y as nat);
        if let Some(before) = restored_rows(stream, row_bytes, bpp, y as nat) {
            let at = y * (row_bytes + 1);
            unfiltered_len(
                filter_at(stream[at] as int),
                stream.subrange(at + 1, at + 1 + row_bytes),
                row_above(before, row_bytes, y),
                bpp,
            );
        }
    } else {
        assert(0 * row_bytes == 0) by (nonlinear_arith);
    }
}

proof fn row_step(y: int, row_bytes: int)
    requires
        y >= 0,
        row_bytes >= 0,
    ensures
        (y + 1) * (row_bytes + 1) == y * (row_bytes + 1) + row_bytes + 1,
        (y + 1) * row_bytes == y * row_bytes + row_bytes,
        y * (row_bytes + 1) >= 0,
        y * row_bytes >= 0,
        y >= 1 ==> (y - 1) * row_bytes + row_bytes == y * row_bytes,
        y >= 1 ==> (y - 1) * row_bytes >= 0,
{
    assert((y + 1) * (row_bytes + 1) == y * (row_bytes + 1) + row_bytes + 1) by (nonlinear_arith);
    assert((y + 1) * row_bytes == y * row_bytes + row_bytes) by (nonlinear_arith);
    assert(y * (row_bytes + 1) >= 0 && y * row_bytes >= 0) by (nonlinear_arith)
        requires
            y >= 0,
            row_bytes >= 0,
    ;
    assert((y - 1) * row_bytes + row_bytes == y * row_bytes) by (nonlinear_arith);
    assert(y >= 1 ==> (y - 1) * row_bytes >= 0) by (nonlinear_arith)
        requires
            row_bytes >= 0,
    ;
}

/// Defilters a scanline stream (`height` rows of `1 + row_bytes` bytes) into packed raw rows
/// (§9.2 to §9.4).
pub fn unfilter_stream(stream: &[u8], row_bytes: usize, height: usize, bpp: usize) -> (rows: Result<
    Vec<u8>,
    Error,
>)
    requires
        bpp >= 1,
        stream@.len() == height * (row_bytes + 1),
    ensures
        match restored_rows(stream@, row_bytes as int, bpp as int, height as nat) {
            Some(r) => rows matches Ok(v) && v@ == r,
            None => failed(rows, Cause::UndefinedFilter),
        },
{
    let mut out: Vec<u8> = Vec::new();
    let mut prev: Vec<u8> = vec![0u8; row_bytes];
    let mut y: usize = 0;
    let mut at: usize = 0;
    proof {
        assert(0 * (row_bytes + 1) == 0) by (nonlinear_arith);
        assert(prev@ =~= row_above(out@, row_bytes as int, 0));
    }
    while y < height
        invariant
            bpp >= 1,
            stream.len() == height * (row_bytes + 1),
            y <= height,
            at == y * (row_bytes + 1),
            prev@ == row_above(out@, row_bytes as int, y as int),
            prev@.len() == row_bytes,
            restored_rows(stream@, row_bytes as int, bpp as int, y as nat) == Some(out@),
        decreases height - y,
    {
        proof {
            row_step(y as int, row_bytes as int);
            assert((y + 1) * (row_bytes + 1) <= height * (row_bytes + 1)) by (nonlinear_arith)
                requires
                    y + 1 <= height,
                    0 <= row_bytes,
            ;
            restored_rows_len(stream@, row_bytes as int, bpp as int, y as nat);
        }
        let filter: FilterType = match FilterType::from_code(stream[at]) {
            Some(filter) => filter,
            None => {
                proof {
                    undefined_rows_stay(
                        stream@,
                        row_bytes as int,
                        bpp as int,
                        (y + 1) as nat,
                        height as nat,
                    );
                }
                return Err(Error::new(Cause::UndefinedFilter));
            },
        };
        let mut cur: Vec<u8> = vstd::slice::slice_to_vec(&stream[at + 1..at + 1 + row_bytes]);
        let ghost taken = cur@;
        assert(taken =~= stream@.subrange(at + 1, at + 1 + row_bytes));
        proof {
            unfiltered_len(filter, taken, prev@, bpp as int);
        }
        unfilter_row(filter, cur.as_mut_slice(), prev.as_slice(), bpp);
        assert(cur@ == unfiltered_row(filter, taken, prev@, bpp as int));
        let ghost before = out@;
        append(&mut out, cur.as_slice());
        assert(filter == filter_at(stream@[at as int] as int));
        assert(row_above(out@, row_bytes as int, y + 1) =~= cur@);
        prev = cur;
        y += 1;
        at += row_bytes + 1;
    }
    Ok(out)
}

/// The filter's byte stride: whole bytes per pixel, at least one.
pub open spec fn stride_of(h: Ihdr) -> int {
    if h.spec_bits_per_pixel() < 8 {
        1
    } else {
        h.spec_bits_per_pixel() / 8
    }
}

/// The filter's byte stride (§9.2): whole bytes per pixel, rounded up to at least one.
pub fn filter_stride(header: &Ihdr) -> (stride: usize)
    requires
        header.wf(),
    ensures
        stride == stride_of(*header),
        1 <= stride <= 8,
{
    proof {
        pass_bounds(*header, 0);
    }
    let bits: usize = header.bits_per_pixel();
    if bits < 8 {
        1
    } else {
        bits / 8
    }
}

/// The samples of packed raw rows: big-endian pairs at 16 bits, bytes at 8, and bit fields below.
pub open spec fn row_samples(rows: Seq<u8>, width: int, height: int, channels: int, depth: u8) -> Seq<
    u16,
> {
    if depth == 16 {
        Seq::new((width * height * channels) as nat, |i: int| be16(rows, 2 * i) as u16)
    } else if depth == 8 {
        Seq::new((width * height * channels) as nat, |i: int| rows[i] as u16)
    } else {
        Seq::new(
            (width * height) as nat,
            |i: int| unpacked(rows, width, height, depth)[i] as u16,
        )
    }
}

/// The raw rows of pass `k` of a stream.
pub open spec fn pass_rows(h: Ihdr, stream: Seq<u8>, k: int) -> Option<Seq<u8>> {
    if pass_is_empty(h, k) {
        Some(Seq::empty())
    } else {
        restored_rows(
            stream.subrange(passes_len(h, k), passes_len(h, k + 1)),
            pass_row_len(h, k),
            stride_of(h),
            pass_height(h, k) as nat,
        )
    }
}

/// Whether every row of a stream names a defined filter.
pub open spec fn every_pass_restores(h: Ihdr, stream: Seq<u8>) -> bool {
    forall|k: int|
        0 <= k < pass_count(h.interlaced) ==> #[trigger] pass_rows(h, stream, k) is Some
}

/// The samples of pass `k` of a stream.
pub open spec fn pass_samples(h: Ihdr, stream: Seq<u8>, k: int) -> Seq<u16> {
    row_samples(
        pass_rows(h, stream, k)->0,
        pass_width(h, k),
        pass_height(h, k),
        h.color.spec_channels(),
        h.bit_depth,
    )
}

/// Channel `c` of the pixel in column `x` of row `y`: it stands in the pass that the pixel is on.
pub open spec fn canvas_sample(h: Ihdr, stream: Seq<u8>, x: int, y: int, c: int) -> u16 {
    pass_samples(h, stream, pass_of(h.interlaced, x, y))[place_in_pass(h, x, y)
        * h.color.spec_channels() + c]
}

/// The samples of an image, row by row.
pub open spec fn canvas(h: Ihdr, stream: Seq<u8>) -> Seq<u16> {
    let channels = h.color.spec_channels();
    let width = h.width as int;
    Seq::new(
        (width * h.height * channels) as nat,
        |i: int| canvas_sample(h, stream, i / channels % width, i / channels / width, i % channels),
    )
}

/// How the bytes of a packed row relate to its samples.
proof fn row_shape(h: Ihdr, width: int)
    requires
        h.wf(),
        width >= 0,
    ensures
        h.bit_depth == 16 ==> crate::adam7::row_len(width, h.spec_bits_per_pixel()) == 2 * (width
            * h.color.spec_channels()),
        h.bit_depth == 8 ==> crate::adam7::row_len(width, h.spec_bits_per_pixel()) == width
            * h.color.spec_channels(),
        h.bit_depth != 16 && h.bit_depth != 8 ==> is_sub_byte(h.bit_depth)
            && h.color.spec_channels() == 1 && crate::adam7::row_len(
            width,
            h.spec_bits_per_pixel(),
        ) == packed_row_len(width, h.bit_depth),
{
    let ch = h.color.spec_channels();
    let n = width * ch;
    if h.bit_depth == 16 {
        assert(width * (ch * 16) == n * 16) by (nonlinear_arith)
            requires
                n == width * ch,
        ;
    } else if h.bit_depth == 8 {
        assert(width * (ch * 8) == n * 8) by (nonlinear_arith)
            requires
                n == width * ch,
        ;
    } else {
        assert(h.bit_depth == 1 || h.bit_depth == 2 || h.bit_depth == 4);
        assert(ch == 1);
        assert(width * 1 == width);
        assert(width * 2 == 2 * width);
        assert(width * 4 == 4 * width);
    }
}

/// Turns packed raw rows into samples.
fn to_samples(rows: &Vec<u8>, width: usize, height: usize, header: &Ihdr) -> (samples: Vec<u16>)
    requires
        header.wf(),
        rows@.len() == height * crate::adam7::row_len(width as int, header.spec_bits_per_pixel()),
    ensures
        samples@ == row_samples(
            rows@,
            width as int,
            height as int,
            header.color.spec_channels(),
            header.bit_depth,
        ),
        samples@.len() == width * height * header.color.spec_channels(),
{
    let ghost ch = header.color.spec_channels();
    let ghost want = row_samples(rows@, width as int, height as int, ch, header.bit_depth);
    let ghost count = width * height * ch;
    proof {
        row_shape(*header, width as int);
        assert(height * (2 * (width * ch)) == 2 * (width * height * ch)) by (nonlinear_arith);
        assert(height * (width * ch) == width * height * ch) by (nonlinear_arith);
        assert(count >= 0) by (nonlinear_arith)
            requires
                count == width * height * ch,
                width >= 0,
                height >= 0,
                ch >= 0,
        ;
    }
    let mut out: Vec<u16> = Vec::new();
    let depth: u8 = header.bit_depth;
    if depth == 16 {
        let n: usize = rows.len() / 2;
        assert(n == count);
        let mut i: usize = 0;
        while i < n
            invariant
                i <= n,
                rows.len() == 2 * n,
                want.len() == n,
                forall|j: int| 0 <= j < n ==> #[trigger] want[j] == be16(rows@, 2 * j) as u16,
                out@ == want.subrange(0, i as int),
            decreases n - i,
        {
            out.push(read_be16(rows.as_slice(), i * 2));
            i += 1;
            assert(out@ =~= want.subrange(0, i as int));
        }
        assert(out@ =~= want);
        out
    } else {
        let unpacked_rows: Vec<u8>;
        let bytes: &Vec<u8> = if depth == 8 {
            rows
        } else {
            assert(rows@.len() == packed_row_len(width as int, depth) * height)
                by {
                assert(height * packed_row_len(width as int, depth) == packed_row_len(
                    width as int,
                    depth,
                ) * height) by (nonlinear_arith);
            }
            unpacked_rows = unpack_scanlines(rows.as_slice(), width, height, depth);
            &unpacked_rows
        };
        assert(want.len() == bytes@.len());
        assert(forall|j: int| 0 <= j < want.len() ==> #[trigger] want[j] == bytes@[j] as u16);
        let n: usize = bytes.len();
        let mut i: usize = 0;
        while i < n
            invariant
                i <= n,
                bytes@.len() == n,
                want.len() == n,
                forall|j: int| 0 <= j < n ==> #[trigger] want[j] == bytes@[j] as u16,
                out@ == want.subrange(0, i as int),
            decreases n - i,
        {
            out.push(bytes[i] as u16);
            i += 1;
            assert(out@ =~= want.subrange(0, i as int));
        }
        assert(out@ =~= want);
        out
    }
}

/// Defilters and unpacks every reduced image of the filtered scanline stream, and gathers their
/// samples row by row. A non-interlaced image is a single full-frame pass.
pub fn decode_canvas(stream: &[u8], header: &Ihdr) -> (samples: Result<Vec<u16>, Error>)
    requires
        header.wf(),
        stream@.len() == stream_len(*header),
        decoded_bytes(
            header.width,
            header.height,
            header.color.spec_channels(),
            header.bit_depth,
        ) <= usize::MAX,
    ensures
        if every_pass_restores(*header, stream@) {
            samples matches Ok(v) && v@ == canvas(*header, stream@)
        } else {
            failed(samples, Cause::UndefinedFilter)
        },
{
    let ghost h = *header;
    let ghost all = stream@;
    let stride: usize = filter_stride(header);
    let bits: u64 = header.bits_per_pixel() as u64;
    let passes: Vec<Pass> = passes_for(header.interlaced);
    let mut widths: Vec<usize> = Vec::new();
    let mut parts: Vec<Vec<u16>> = Vec::new();
    let mut at: usize = 0;
    let mut k: usize = 0;
    while k < passes.len()
        invariant
            h == *header,
            h.wf(),
            all == stream@,
            all.len() == stream_len(h),
            stride == stride_of(h),
            1 <= stride <= 8,
            bits == h.spec_bits_per_pixel(),
            passes@.len() == pass_count(h.interlaced),
            forall|j: int|
                0 <= j < passes@.len() ==> #[trigger] passes@[j] == pass_at(h.interlaced, j),
            k <= passes@.len(),
            at == passes_len(h, k as int),
            widths@.len() == k,
            parts@.len() == k,
            forall|j: int| 0 <= j < k ==> #[trigger] widths@[j] == pass_width(h, j),
            forall|j: int| 0 <= j < k ==> #[trigger] pass_rows(h, all, j) is Some,
            forall|j: int| 0 <= j < k ==> #[trigger] parts@[j]@ == pass_samples(h, all, j),
            forall|j: int|
                0 <= j < k ==> (#[trigger] parts@[j])@.len() == pass_width(h, j) * pass_height(h, j)
                    * h.color.spec_channels(),
        decreases passes@.len() - k,
    {
        let pass: Pass = passes[k];
        assert(pass == pass_at(h.interlaced, k as int));
        let (w, ph): (u32, u32) = pass_dimensions(pass, header.width, header.height);
        proof {
            pass_bounds(h, k as int);
        }
        widths.push(w as usize);
        let mut rows: Vec<u8> = Vec::new();
        if w != 0 && ph != 0 {
            let row: u64 = (w as u64 * bits + 7) / 8;
            let ghost len = pass_len(h, k as int);
            assert(len == ph * (row + 1));
            proof {
                assert(row + 1 <= ph * (row + 1)) by (nonlinear_arith)
                    requires
                        ph >= 1,
                        row >= 0,
                ;
                assert(len <= stream.len());
            }
            let row_bytes: usize = row as usize;
            let size: usize = ph as usize * (row_bytes + 1);
            let segment: &[u8] = &stream[at..at + size];
            assert(segment@ =~= all.subrange(passes_len(h, k as int), passes_len(h, k + 1)));
            match unfilter_stream(segment, row_bytes, ph as usize, stride) {
                Ok(restored) => {
                    rows = restored;
                },
                Err(e) => {
                    assert(pass_rows(h, all, k as int) is None);
                    return Err(e);
                },
            }
            proof {
                restored_rows_len(segment@, row_bytes as int, stride as int, ph as nat);
            }
            at = at + size;
        } else {
            proof {
                empty_pass(h, k as int);
            }
        }
        assert(pass_rows(h, all, k as int) == Some(rows@));
        assert(rows@.len() == ph * crate::adam7::row_len(w as int, h.spec_bits_per_pixel()));
        let part: Vec<u16> = to_samples(&rows, w as usize, ph as usize, header);
        assert(part@ == pass_samples(h, all, k as int));
        parts.push(part);
        k += 1;
    }
    Ok(gather(header, &widths, &parts, Ghost(all)))
}

proof fn empty_pass(h: Ihdr, k: int)
    requires
        h.wf(),
        0 <= k < pass_count(h.interlaced),
        pass_is_empty(h, k),
    ensures
        pass_height(h, k) * pass_row_len(h, k) == 0,
{
    pass_bounds(h, k);
    let (w, ph, bits) = (pass_width(h, k), pass_height(h, k), h.spec_bits_per_pixel());
    if w == 0 {
        assert(w * bits == 0) by (nonlinear_arith)
            requires
                w == 0,
        ;
        assert(pass_row_len(h, k) == 0);
        assert(ph * 0 == 0);
    } else {
        assert(0 * pass_row_len(h, k) == 0);
    }
}

/// The column and the row of pixel `px` lie inside the image.
pub proof fn pixel_of_index(px: int, width: int, height: int)
    requires
        width >= 1,
        0 <= px < width * height,
    ensures
        0 <= px % width < width,
        0 <= px / width < height,
{
    vstd::arithmetic::div_mod::lemma_fundamental_div_mod(px, width);
    assert(0 <= px / width < height) by (nonlinear_arith)
        requires
            px == width * (px / width) + px % width,
            0 <= px % width < width,
            0 <= px < width * height,
            width >= 1,
    ;
}

/// Gathers the samples of the passes row by row.
fn gather(header: &Ihdr, widths: &Vec<usize>, parts: &Vec<Vec<u16>>, stream: Ghost<Seq<u8>>) -> (out:
    Vec<u16>)
    requires
        header.wf(),
        decoded_bytes(
            header.width,
            header.height,
            header.color.spec_channels(),
            header.bit_depth,
        ) <= usize::MAX,
        widths@.len() == pass_count(header.interlaced),
        parts@.len() == pass_count(header.interlaced),
        forall|j: int| 0 <= j < widths@.len() ==> #[trigger] widths@[j] == pass_width(*header, j),
        forall|j: int|
            0 <= j < parts@.len() ==> #[trigger] parts@[j]@ == pass_samples(*header, stream@, j),
        forall|j: int|
            0 <= j < parts@.len() ==> (#[trigger] parts@[j])@.len() == pass_width(*header, j)
                * pass_height(*header, j) * header.color.spec_channels(),
    ensures
        out@ == canvas(*header, stream@),
{
    let ghost h = *header;
    let ghost want = canvas(h, stream@);
    let channels: usize = header.color.channels();
    let ghost ch = h.color.spec_channels();
    let ghost area = h.width * h.height;
    proof {
        assert(area <= area * ch <= usize::MAX && area >= 0) by (nonlinear_arith)
            requires
                area == h.width * h.height,
                decoded_bytes(h.width, h.height, ch, h.bit_depth) <= usize::MAX,
                decoded_bytes(h.width, h.height, ch, h.bit_depth) >= area * ch,
                1 <= ch <= 4,
                h.width >= 0,
                h.height >= 0,
        ;
    }
    let width: usize = header.width as usize;
    let count: usize = width * header.height as usize;
    let mut out: Vec<u16> = Vec::new();
    let mut px: usize = 0;
    assert(out@ =~= want.subrange(0, 0));
    assert(0 * ch == 0);
    while px < count
        invariant
            h == *header,
            h.wf(),
            want == canvas(h, stream@),
            channels == ch,
            ch == h.color.spec_channels(),
            1 <= ch <= 4,
            width == h.width,
            count == h.width * h.height,
            want.len() == count * ch,
            widths@.len() == pass_count(h.interlaced),
            parts@.len() == pass_count(h.interlaced),
            forall|j: int| 0 <= j < widths@.len() ==> #[trigger] widths@[j] == pass_width(h, j),
            forall|j: int|
                0 <= j < parts@.len() ==> #[trigger] parts@[j]@ == pass_samples(h, stream@, j),
            forall|j: int|
                0 <= j < parts@.len() ==> (#[trigger] parts@[j])@.len() == pass_width(h, j)
                    * pass_height(h, j) * h.color.spec_channels(),
            px <= count,
            out@ == want.subrange(0, px * ch),
        decreases count - px,
    {
        proof {
            pixel_of_index(px as int, width as int, h.height as int);
        }
        let x: u32 = (px % width) as u32;
        let y: u32 = (px / width) as u32;
        let (k, place): (usize, usize) = locate(header, widths, x, y);
        let part: &Vec<u16> = &parts[k];
        proof {
            place_is_inside(h, x as int, y as int);
            let cells = pass_width(h, k as int) * pass_height(h, k as int);
            assert(place * ch + ch <= cells * ch && place * ch >= 0) by (nonlinear_arith)
                requires
                    0 <= place < cells,
                    ch >= 1,
            ;
            assert((px + 1) * ch == px * ch + ch && px * ch >= 0) by (nonlinear_arith)
                requires
                    px >= 0,
                    ch >= 0,
            ;
            assert((px + 1) * ch <= count * ch) by (nonlinear_arith)
                requires
                    px + 1 <= count,
                    ch >= 1,
            ;
        }
        assert(part@.len() == parts@[k as int]@.len());
        assert(place * ch + ch <= part.len());
        let from: usize = place * channels;
        let mut c: usize = 0;
        while c < channels
            invariant
                h == *header,
                want == canvas(h, stream@),
                channels == ch,
                ch == h.color.spec_channels(),
                1 <= ch <= 4,
                width == h.width,
                x == px as int % width as int,
                y == px as int / width as int,
                k == pass_of(h.interlaced, x as int, y as int),
                place == place_in_pass(h, x as int, y as int),
                from == place * ch,
                from + ch <= part.len(),
                part@ == pass_samples(h, stream@, k as int),
                0 <= px * ch,
                px * ch + ch <= want.len(),
                c <= channels,
                out@ == want.subrange(0, px * ch + c),
            decreases channels - c,
        {
            proof {
                pixel_position(px as int, ch, c as int);
            }
            assert(want[px * ch + c] == part@[from + c]);
            out.push(part[from + c]);
            c += 1;
            assert(out@ =~= want.subrange(0, px * ch + c));
        }
        px += 1;
    }
    assert(out@ =~= want);
    out
}

proof fn restored_rows_prefix(a: Seq<u8>, b: Seq<u8>, row_bytes: int, bpp: int, rows: nat)
    requires
        row_bytes >= 0,
        a.len() >= rows * (row_bytes + 1),
        b.len() >= rows * (row_bytes + 1),
        forall|i: int| 0 <= i < rows * (row_bytes + 1) ==> a[i] == b[i],
    ensures
        restored_rows(a, row_bytes, bpp, rows) == restored_rows(b, row_bytes, bpp, rows),
    decreases rows,
{
    if rows > 0 {
        let y = rows - 1;
        let at = y * (row_bytes + 1);
        row_step(y, row_bytes);
        restored_rows_prefix(a, b, row_bytes, bpp, y as nat);
        assert(a.subrange(at + 1, at + 1 + row_bytes) =~= b.subrange(at + 1, at + 1 + row_bytes));
        assert(a[at] == b[at]);
    }
}

/// A row filtered behind rows that restore is restored too.
proof fn a_filtered_row_is_restored(
    head: Seq<u8>,
    filter: FilterType,
    samples: Seq<u8>,
    row_bytes: int,
    bpp: int,
    y: int,
)
    requires
        row_bytes >= 0,
        bpp >= 1,
        y >= 0,
        samples.len() >= (y + 1) * row_bytes,
        head.len() == y * (row_bytes + 1),
        restored_rows(head, row_bytes, bpp, y as nat) == Some(samples.subrange(0, y * row_bytes)),
    ensures
        ({
            let row = filtered_row(
                filter,
                row_at(samples, row_bytes, y),
                row_above(samples, row_bytes, y),
                bpp,
            );
            let stream = head + seq![filter.spec_code()] + row;
            &&& stream.len() == (y + 1) * (row_bytes + 1)
            &&& restored_rows(stream, row_bytes, bpp, (y + 1) as nat) == Some(
                samples.subrange(0, (y + 1) * row_bytes),
            )
        }),
{
    let at = y * (row_bytes + 1);
    row_step(y, row_bytes);
    let cur = row_at(samples, row_bytes, y);
    let prev = row_above(samples, row_bytes, y);
    let row = filtered_row(filter, cur, prev, bpp);
    let stream = head + seq![filter.spec_code()] + row;
    restored_rows_prefix(stream, head, row_bytes, bpp, y as nat);
    let before = samples.subrange(0, y * row_bytes);
    assert(row_above(before, row_bytes, y) =~= prev);
    assert(stream[at] == filter.spec_code());
    assert(stream.subrange(at + 1, at + 1 + row_bytes) =~= row);
    assert(filter_at(filter.spec_code() as int) == filter);
    every_filter_is_invertible(filter, cur, prev, bpp);
    assert(samples.subrange(0, (y + 1) * row_bytes) =~= before + cur);
}

/// Filtered rows restore to the rows they were made from, whatever the strategy: the stream has a
/// filter byte and the row bytes for each row, and every one of its filters is defined.
pub proof fn filtering_round_trip(
    strategy: FilterStrategy,
    samples: Seq<u8>,
    row_bytes: int,
    bpp: int,
    rows: nat,
)
    requires
        row_bytes >= 0,
        bpp >= 1,
        samples.len() >= rows * row_bytes,
    ensures
        filtered_image(strategy, samples, row_bytes, bpp, rows).len() == rows * (row_bytes + 1),
        restored_rows(
            filtered_image(strategy, samples, row_bytes, bpp, rows),
            row_bytes,
            bpp,
            rows,
        ) == Some(samples.subrange(0, rows * row_bytes)),
    decreases rows,
{
    let stream = filtered_image(strategy, samples, row_bytes, bpp, rows);
    if rows == 0 {
        assert(0 * row_bytes == 0) by (nonlinear_arith);
        assert(0 * (row_bytes + 1) == 0) by (nonlinear_arith);
        assert(samples.subrange(0, 0) =~= Seq::<u8>::empty());
    } else {
        let y = rows - 1;
        row_step(y, row_bytes);
        filtering_round_trip(strategy, samples, row_bytes, bpp, y as nat);
        let head = filtered_image(strategy, samples, row_bytes, bpp, y as nat);
        let cur = row_at(samples, row_bytes, y);
        let prev = row_above(samples, row_bytes, y);
        let filter = strategy_filter(strategy, cur, prev, bpp);
        a_filtered_row_is_restored(head, filter, samples, row_bytes, bpp, y);
        assert(stream =~= head + seq![filter.spec_code()] + filtered_row(filter, cur, prev, bpp));
    }
}

/// The restored rows of a stream stand one after the other, and each is restored from the row above it,
/// which is all zero for the first. A stream is refused exactly where a row names no filter.
pub proof fn restored_rows_follow_each_other(
    stream: Seq<u8>,
    row_bytes: int,
    bpp: int,
    rows: nat,
    y: int,
)
    requires
        row_bytes >= 0,
        bpp >= 1,
        0 <= y < rows,
        stream.len() >= rows * (row_bytes + 1),
    ensures
        stream[y * (row_bytes + 1)] > 4 ==> restored_rows(stream, row_bytes, bpp, rows) is None,
        restored_rows(stream, row_bytes, bpp, rows) matches Some(raw) ==> {
            let at = y * (row_bytes + 1);
            let above = Seq::new(
                row_bytes as nat,
                |i: int|
                    if y == 0 {
                        0u8
                    } else {
                        raw[(y - 1) * row_bytes + i]
                    },
            );
            &&& raw.len() == rows * row_bytes
            &&& raw.subrange(y * row_bytes, y * row_bytes + row_bytes) == unfiltered_row(
                filter_at(stream[at] as int),
                stream.subrange(at + 1, at + 1 + row_bytes),
                above,
                bpp,
            )
        },
    decreases rows,
{
    let last = rows - 1;
    row_step(last, row_bytes);
    row_step(y, row_bytes);
    restored_rows_len(stream, row_bytes, bpp, rows);
    restored_rows_len(stream, row_bytes, bpp, last as nat);
    assert(y * row_bytes + row_bytes <= rows * row_bytes) by (nonlinear_arith)
        requires
            y + 1 <= rows,
            row_bytes >= 0,
    ;
    let at = y * (row_bytes + 1);
    if y < last {
        restored_rows_follow_each_other(stream, row_bytes, bpp, last as nat, y);
        assert(y * row_bytes + row_bytes <= last * row_bytes) by (nonlinear_arith)
            requires
                y + 1 <= last,
                row_bytes >= 0,
        ;
        if let Some(raw) = restored_rows(stream, row_bytes, bpp, rows) {
            let before = restored_rows(stream, row_bytes, bpp, last as nat)->0;
            assert(raw.subrange(y * row_bytes, y * row_bytes + row_bytes) =~= before.subrange(
                y * row_bytes,
                y * row_bytes + row_bytes,
            ));
            let above = Seq::new(
                row_bytes as nat,
                |i: int|
                    if y == 0 {
                        0u8
                    } else {
                        raw[(y - 1) * row_bytes + i]
                    },
            );
            let above_before = Seq::new(
                row_bytes as nat,
                |i: int|
                    if y == 0 {
                        0u8
                    } else {
                        before[(y - 1) * row_bytes + i]
                    },
            );
            assert(above =~= above_before);
        }
    } else {
        if let Some(raw) = restored_rows(stream, row_bytes, bpp, rows) {
            let before = restored_rows(stream, row_bytes, bpp, last as nat)->0;
            let above = Seq::new(
                row_bytes as nat,
                |i: int|
                    if y == 0 {
                        0u8
                    } else {
                        raw[(y - 1) * row_bytes + i]
                    },
            );
            assert(above =~= row_above(before, row_bytes, y));
            let row = unfiltered_row(
                filter_at(stream[at] as int),
                stream.subrange(at + 1, at + 1 + row_bytes),
                above,
                bpp,
            );
            unfiltered_len(
                filter_at(stream[at] as int),
                stream.subrange(at + 1, at + 1 + row_bytes),
                above,
                bpp,
            );
            assert(raw =~= before + row);
            assert(raw.subrange(y * row_bytes, y * row_bytes + row_bytes) =~= row);
        }
    }
}

/// A stream whose rows all name a filter is restored.
pub proof fn defined_rows_are_restored(stream: Seq<u8>, row_bytes: int, bpp: int, rows: nat)
    requires
        forall|y: int| 0 <= y < rows ==> stream[#[trigger] (y * (row_bytes + 1))] <= 4,
    ensures
        restored_rows(stream, row_bytes, bpp, rows) is Some,
    decreases rows,
{
    if rows > 0 {
        let y = rows - 1;
        assert(stream[y * (row_bytes + 1)] <= 4);
        defined_rows_are_restored(stream, row_bytes, bpp, y as nat);
    }
}

/// The header of a pass taken as an image of its own.
pub open spec fn pass_header(h: Ihdr, width: int, height: int) -> Ihdr {
    Ihdr { width: width as u32, height: height as u32, interlaced: false, ..h }
}

/// The pixel in column `i` of row `j` of pass `k` stands on that pass, at that place of it.
proof fn a_pixel_of_a_pass(h: Ihdr, k: int, i: int, j: int)
    requires
        h.wf(),
        h.interlaced,
        0 <= k < 7,
        0 <= i < pass_width(h, k),
        0 <= j < pass_height(h, k),
    ensures
        ({
            let x = seq![0int, 4, 0, 2, 0, 1, 0][k] + i * seq![8int, 8, 4, 4, 2, 2, 1][k];
            let y = seq![0int, 0, 4, 0, 2, 0, 1][k] + j * seq![8int, 8, 8, 4, 4, 2, 2][k];
            &&& 0 <= x < h.width
            &&& 0 <= y < h.height
            &&& pass_of(true, x, y) == k
            &&& place_in_pass(h, x, y) == j * pass_width(h, k) + i
        }),
{
    let dx = seq![8int, 8, 4, 4, 2, 2, 1][k];
    let dy = seq![8int, 8, 8, 4, 4, 2, 2][k];
    let x0 = seq![0int, 4, 0, 2, 0, 1, 0][k];
    let y0 = seq![0int, 0, 4, 0, 2, 0, 1][k];
    let (x, y) = (x0 + i * dx, y0 + j * dy);
    let p = pass_at(true, k);
    crate::adam7::passes_are_those_of_the_format(k);
    assert(p.x0 == x0 && p.y0 == y0 && p.dx == dx && p.dy == dy);
    let (pw, ph) = (pass_width(h, k), pass_height(h, k));
    crate::adam7::a_pass_counts_its_columns(h.width as int, x0, dx);
    crate::adam7::a_pass_counts_its_columns(h.height as int, y0, dy);
    assert(0 <= i * dx <= (pw - 1) * dx) by (nonlinear_arith)
        requires
            0 <= i <= pw - 1,
            dx >= 1,
    ;
    assert(0 <= j * dy <= (ph - 1) * dy) by (nonlinear_arith)
        requires
            0 <= j <= ph - 1,
            dy >= 1,
    ;
    pixel_position(i, dx, 0);
    pixel_position(j, dy, 0);
    assert((x - p.x0) % p.dx as int == 0 && (x - p.x0) / p.dx as int == i);
    assert((y - p.y0) % p.dy as int == 0 && (y - p.y0) / p.dy as int == j);
    crate::adam7::passes_partition_the_image(true, x, y, k);
}

/// The pixel in column `i` of row `j` of an image of one pass stands at that place of it.
proof fn a_pixel_of_one_pass(own: Ihdr, i: int, j: int)
    requires
        !own.interlaced,
        0 <= i < own.width,
        0 <= j < own.height,
    ensures
        pass_of(own.interlaced, i, j) == 0,
        place_in_pass(own, i, j) == j * own.width + i,
{
    crate::adam7::passes_are_those_of_the_format(0);
    assert(crate::adam7::extent(own.width as int, 0, 1) == own.width);
    assert((i - 0int) / 1int == i);
    assert((j - 0int) / 1int == j);
}

/// An interlaced image is its seven passes: each stands in the stream as an image of its own would, and
/// its pixels are those of every `dx`-th column from `x0` and every `dy`-th row from `y0`.
pub proof fn an_interlaced_image_is_its_passes(
    h: Ihdr,
    stream: Seq<u8>,
    k: int,
    i: int,
    j: int,
    c: int,
)
    requires
        h.wf(),
        h.interlaced,
        0 <= k < 7,
        0 <= i < pass_width(h, k),
        0 <= j < pass_height(h, k),
        0 <= c < h.color.spec_channels(),
        stream.len() == stream_len(h),
    ensures
        ({
            let x = seq![0int, 4, 0, 2, 0, 1, 0][k] + i * seq![8int, 8, 4, 4, 2, 2, 1][k];
            let y = seq![0int, 0, 4, 0, 2, 0, 1][k] + j * seq![8int, 8, 8, 4, 4, 2, 2][k];
            let (w, ch) = (h.width as int, h.color.spec_channels());
            let own = pass_header(h, pass_width(h, k), pass_height(h, k));
            let part = stream.subrange(passes_len(h, k), passes_len(h, k + 1));
            &&& x < h.width && y < h.height
            &&& canvas(h, stream)[(y * w + x) * ch + c] == canvas(own, part)[(j * pass_width(h, k) + i)
                * ch + c]
        }),
{
    let x = seq![0int, 4, 0, 2, 0, 1, 0][k] + i * seq![8int, 8, 4, 4, 2, 2, 1][k];
    let y = seq![0int, 0, 4, 0, 2, 0, 1][k] + j * seq![8int, 8, 8, 4, 4, 2, 2][k];
    let (w, ch) = (h.width as int, h.color.spec_channels());
    let (pw, ph) = (pass_width(h, k), pass_height(h, k));
    let own = pass_header(h, pw, ph);
    let part = stream.subrange(passes_len(h, k), passes_len(h, k + 1));
    a_pixel_of_a_pass(h, k, i, j);
    pass_bounds(h, k);
    pixel_at(x, y, w, h.height as int, ch, c);
    pixel_at(i, j, pw, ph, ch, c);
    a_pixel_of_one_pass(own, i, j);
    a_pass_of_its_own(h, stream, k);
    assert(canvas(own, part)[(j * pw + i) * ch + c] == canvas_sample(own, part, i, j, c));
    assert(canvas(h, stream)[(y * w + x) * ch + c] == canvas_sample(h, stream, x, y, c));
}

/// The place of a sample in rows of pixels.
proof fn pixel_at(x: int, y: int, width: int, height: int, channels: int, c: int)
    requires
        0 <= x < width,
        0 <= y < height,
        0 <= c < channels,
    ensures
        ({
            let at = (y * width + x) * channels + c;
            &&& 0 <= at < width * height * channels
            &&& at / channels % width == x
            &&& at / channels / width == y
            &&& at % channels == c
        }),
{
    pixel_position(y * width + x, channels, c);
    pixel_position(y, width, x);
    assert(0 <= y * width + x < width * height) by (nonlinear_arith)
        requires
            0 <= x < width,
            0 <= y <= height - 1,
    ;
    assert(0 <= (y * width + x) * channels + c < width * height * channels) by (nonlinear_arith)
        requires
            0 <= y * width + x <= width * height - 1,
            0 <= c < channels,
    ;
}

/// The samples of a pass are those of an image of its own.
proof fn a_pass_of_its_own(h: Ihdr, stream: Seq<u8>, k: int)
    requires
        h.wf(),
        0 <= k < pass_count(h.interlaced),
        pass_width(h, k) >= 1,
        pass_height(h, k) >= 1,
        passes_len(h, k + 1) <= stream.len(),
    ensures
        ({
            let own = pass_header(h, pass_width(h, k), pass_height(h, k));
            let part = stream.subrange(passes_len(h, k), passes_len(h, k + 1));
            pass_samples(own, part, 0) == pass_samples(h, stream, k)
        }),
{
    let own = pass_header(h, pass_width(h, k), pass_height(h, k));
    let part = stream.subrange(passes_len(h, k), passes_len(h, k + 1));
    pass_bounds(h, k);
    reveal_with_fuel(passes_len, 2);
    assert(crate::adam7::extent(pass_width(h, k), 0, 1) == pass_width(h, k));
    assert(crate::adam7::extent(pass_height(h, k), 0, 1) == pass_height(h, k));
    assert(passes_len(own, 1) == pass_len(h, k));
    assert(part.subrange(passes_len(own, 0), passes_len(own, 1)) =~= part);
}

} // verus!
