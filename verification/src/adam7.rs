//! The passes of an image: one for a plain image, seven for an Adam7-interlaced one (PNG §8.2).
use crate::ihdr::Ihdr;
use vstd::prelude::*;

verus! {

/// The pixels of one pass: every `dx`-th column from `x0`, every `dy`-th row from `y0`.
#[derive(Debug, Clone, Copy, PartialEq, Eq, Structural)]
pub struct Pass {
    pub x0: u32,
    pub y0: u32,
    pub dx: u32,
    pub dy: u32,
}

/// How many passes an image has.
pub open spec fn pass_count(interlaced: bool) -> int {
    if interlaced {
        7
    } else {
        1
    }
}

/// Pass `k` of an image.
pub open spec fn pass_at(interlaced: bool, k: int) -> Pass {
    if !interlaced {
        Pass { x0: 0, y0: 0, dx: 1, dy: 1 }
    } else if k == 0 {
        Pass { x0: 0, y0: 0, dx: 8, dy: 8 }
    } else if k == 1 {
        Pass { x0: 4, y0: 0, dx: 8, dy: 8 }
    } else if k == 2 {
        Pass { x0: 0, y0: 4, dx: 4, dy: 8 }
    } else if k == 3 {
        Pass { x0: 2, y0: 0, dx: 4, dy: 4 }
    } else if k == 4 {
        Pass { x0: 0, y0: 2, dx: 2, dy: 4 }
    } else if k == 5 {
        Pass { x0: 1, y0: 0, dx: 2, dy: 2 }
    } else {
        Pass { x0: 0, y0: 1, dx: 1, dy: 2 }
    }
}

/// Whether a pass holds the pixel in column `x` of row `y`.
pub open spec fn on_pass(p: Pass, x: int, y: int) -> bool {
    &&& x >= p.x0
    &&& (x - p.x0) % p.dx as int == 0
    &&& y >= p.y0
    &&& (y - p.y0) % p.dy as int == 0
}

/// The pass that holds the pixel in column `x` of row `y`.
pub open spec fn pass_of(interlaced: bool, x: int, y: int) -> int {
    if !interlaced {
        0
    } else if y % 2 == 1 {
        6
    } else if x % 2 == 1 {
        5
    } else if y % 4 == 2 {
        4
    } else if x % 4 == 2 {
        3
    } else if y % 8 == 4 {
        2
    } else if x % 8 == 4 {
        1
    } else {
        0
    }
}

/// The passes partition the image: every pixel belongs to exactly one pass.
pub proof fn passes_partition_the_image(interlaced: bool, x: int, y: int, k: int)
    requires
        0 <= x,
        0 <= y,
        0 <= k < pass_count(interlaced),
    ensures
        on_pass(pass_at(interlaced, k), x, y) <==> pass_of(interlaced, x, y) == k,
        0 <= pass_of(interlaced, x, y) < pass_count(interlaced),
{
    let p = pass_at(interlaced, k);
    on_step(x, p.x0 as int, p.dx as int);
    on_step(y, p.y0 as int, p.dy as int);
}

/// Where the seven passes of an interlaced image start and how they step, column and row: the tables of
/// PNG §8.2. An image that is not interlaced is one pass over every pixel.
pub proof fn passes_are_those_of_the_format(k: int)
    ensures
        pass_count(true) == 7,
        pass_count(false) == 1,
        pass_at(false, 0) == (Pass { x0: 0, y0: 0, dx: 1, dy: 1 }),
        0 <= k < 7 ==> {
            let p = pass_at(true, k);
            &&& p.x0 == seq![0u32, 4, 0, 2, 0, 1, 0][k]
            &&& p.y0 == seq![0u32, 0, 4, 0, 2, 0, 1][k]
            &&& p.dx == seq![8u32, 8, 4, 4, 2, 2, 1][k]
            &&& p.dy == seq![8u32, 8, 8, 4, 4, 2, 2][k]
        },
{
}

/// Each pass refines the grid of those before it: the first passes together hold the pixels of a regular
/// lattice, from every eighth column and row down to all of them.
pub proof fn passes_refine_a_lattice(x: int, y: int)
    requires
        0 <= x,
        0 <= y,
    ensures
        pass_of(true, x, y) < 1 <==> x % 8 == 0 && y % 8 == 0,
        pass_of(true, x, y) < 2 <==> x % 4 == 0 && y % 8 == 0,
        pass_of(true, x, y) < 3 <==> x % 4 == 0 && y % 4 == 0,
        pass_of(true, x, y) < 4 <==> x % 2 == 0 && y % 4 == 0,
        pass_of(true, x, y) < 5 <==> x % 2 == 0 && y % 2 == 0,
        pass_of(true, x, y) < 6 <==> y % 2 == 0,
        pass_of(true, x, y) < 7,
        pass_of(false, x, y) == 0,
        forall|k: int|
            0 <= k < 7 ==> (#[trigger] on_pass(pass_at(true, k), x, y) <==> pass_of(true, x, y) == k),
{
    assert forall|k: int| 0 <= k < 7 implies (#[trigger] on_pass(pass_at(true, k), x, y) <==> pass_of(
        true,
        x,
        y,
    ) == k) by {
        passes_partition_the_image(true, x, y, k);
    }
}

/// A pass is as wide and as high as there are columns and rows of the image on it: stepping on from the
/// last one leaves the image.
pub proof fn a_pass_counts_its_columns(size: int, start: int, step: int)
    requires
        0 <= size,
        0 <= start,
        1 <= step,
    ensures
        ({
            let n = extent(size, start, step);
            &&& n >= 0
            &&& n > 0 ==> start + (n - 1) * step < size
            &&& start + n * step >= size
        }),
{
    if size > start {
        let m = size - start;
        vstd::arithmetic::div_mod::lemma_fundamental_div_mod(m + step - 1, step);
        let n = (m + step - 1) / step;
        assert(step * n == n * step) by (nonlinear_arith);
        assert((n - 1) * step == n * step - step) by (nonlinear_arith);
        assert(n >= 0) by (nonlinear_arith)
            requires
                n == (m + step - 1) / step,
                m + step - 1 >= 0,
                step >= 1,
        ;
    }
}

/// Row bytes are the bits of the row rounded up to whole bytes, and the stream of an image holds, pass by
/// pass, a filter byte and the row bytes for each row of a pass that has pixels.
pub proof fn a_stream_holds_its_rows(h: Ihdr, k: int)
    requires
        h.wf(),
        0 <= k < pass_count(h.interlaced),
    ensures
        8 * pass_row_len(h, k) - 8 < pass_width(h, k) * h.color.spec_channels() * h.bit_depth <= 8
            * pass_row_len(h, k),
        passes_len(h, 0) == 0,
        passes_len(h, k + 1) == passes_len(h, k) + (if pass_width(h, k) > 0 && pass_height(h, k) > 0 {
            pass_height(h, k) * (1 + pass_row_len(h, k))
        } else {
            0
        }),
        stream_len(h) == passes_len(h, pass_count(h.interlaced)),
{
    pass_bounds(h, k);
    let w = pass_width(h, k);
    assert(w * h.color.spec_channels() * h.bit_depth == w * (h.color.spec_channels() * h.bit_depth))
        by (nonlinear_arith);
    assert(pass_height(h, k) * (1 + pass_row_len(h, k)) == pass_height(h, k) * (pass_row_len(h, k)
        + 1));
}

proof fn on_step(x: int, start: int, step: int)
    requires
        0 <= x,
    ensures
        step == 1 ==> (x - start) % step == 0,
        step == 2 && start == 0 ==> ((x - start) % step == 0 <==> x % 2 == 0),
        step == 2 && start == 1 ==> (x >= start && (x - start) % step == 0 <==> x % 2 == 1),
        step == 4 && start == 0 ==> ((x - start) % step == 0 <==> x % 4 == 0),
        step == 4 && start == 2 ==> (x >= start && (x - start) % step == 0 <==> x % 4 == 2),
        step == 8 && start == 0 ==> ((x - start) % step == 0 <==> x % 8 == 0),
        step == 8 && start == 4 ==> (x >= start && (x - start) % step == 0 <==> x % 8 == 4),
{
    if step == 1 {
        assert((x - start) % 1 == 0);
    } else if step == 2 {
        assert((x - start) % step == (x - start) % 2);
    } else if step == 4 {
        assert((x - start) % step == (x - start) % 4);
    } else if step == 8 {
        assert((x - start) % step == (x - start) % 8);
    }
}

/// How many of `size` positions lie on every `step`-th from `start`.
pub open spec fn extent(size: int, start: int, step: int) -> int {
    if size <= start {
        0
    } else {
        (size - start + step - 1) / step
    }
}

/// The width of pass `k`.
pub open spec fn pass_width(h: Ihdr, k: int) -> int {
    let p = pass_at(h.interlaced, k);
    extent(h.width as int, p.x0 as int, p.dx as int)
}

/// The height of pass `k`.
pub open spec fn pass_height(h: Ihdr, k: int) -> int {
    let p = pass_at(h.interlaced, k);
    extent(h.height as int, p.y0 as int, p.dy as int)
}

/// Bytes in a row of `width` pixels.
pub open spec fn row_len(width: int, bits_per_pixel: int) -> int {
    (width * bits_per_pixel + 7) / 8
}

/// Bytes in a row of pass `k`.
pub open spec fn pass_row_len(h: Ihdr, k: int) -> int {
    row_len(pass_width(h, k), h.spec_bits_per_pixel())
}

/// Whether pass `k` holds no pixel; such a pass is absent from the stream.
pub open spec fn pass_is_empty(h: Ihdr, k: int) -> bool {
    pass_width(h, k) == 0 || pass_height(h, k) == 0
}

/// Filtered bytes of pass `k`: a filter byte and the row bytes, for each of its rows.
pub open spec fn pass_len(h: Ihdr, k: int) -> int {
    if pass_is_empty(h, k) {
        0
    } else {
        pass_height(h, k) * (pass_row_len(h, k) + 1)
    }
}

/// Filtered bytes of the first `k` passes.
pub open spec fn passes_len(h: Ihdr, k: int) -> int
    decreases k,
{
    if k <= 0 {
        0
    } else {
        passes_len(h, k - 1) + pass_len(h, k - 1)
    }
}

/// The length of the filtered stream of an image.
pub open spec fn stream_len(h: Ihdr) -> int {
    passes_len(h, pass_count(h.interlaced))
}

/// Whether the filtered stream of an image can be addressed.
pub open spec fn stream_fits(h: Ihdr) -> bool {
    h.width * h.spec_bits_per_pixel() <= usize::MAX && stream_len(h) <= usize::MAX
}

proof fn extent_bound(size: int, start: int, step: int)
    requires
        0 <= size,
        0 <= start,
        1 <= step,
    ensures
        0 <= extent(size, start, step) <= size,
{
    if size > start {
        assert(0 <= (size - start + step - 1) / step <= size) by (nonlinear_arith)
            requires
                size > start,
                start >= 0,
                step >= 1,
        ;
    }
}

/// The bounds of the quantities of a pass.
pub proof fn pass_bounds(h: Ihdr, k: int)
    requires
        h.wf(),
        0 <= k < pass_count(h.interlaced),
    ensures
        0 <= pass_width(h, k) <= h.width,
        0 <= pass_height(h, k) <= h.height,
        1 <= h.spec_bits_per_pixel() <= 64,
        0 <= pass_width(h, k) * h.spec_bits_per_pixel() <= h.width * h.spec_bits_per_pixel()
            <= 0x20_0000_0000,
        0 <= pass_row_len(h, k) <= 0x4_0000_0000,
        pass_width(h, k) > 0 ==> pass_row_len(h, k) > 0,
        0 <= pass_len(h, k) <= 0x1000_0000_0000_0000_0000,
        0 <= passes_len(h, k),
        passes_len(h, k) + pass_len(h, k) == passes_len(h, k + 1),
        passes_len(h, k + 1) <= stream_len(h),
{
    let w = pass_width(h, k);
    let p = pass_at(h.interlaced, k);
    extent_bound(h.width as int, p.x0 as int, p.dx as int);
    extent_bound(h.height as int, p.y0 as int, p.dy as int);
    let bpp = h.spec_bits_per_pixel();
    assert(1 <= bpp <= 64) by (nonlinear_arith)
        requires
            bpp == h.color.spec_channels() * h.bit_depth,
            1 <= h.color.spec_channels() <= 4,
            1 <= h.bit_depth <= 16,
    ;
    assert(0 <= w * bpp <= h.width * bpp <= 0x7FFF_FFFF * 64) by (nonlinear_arith)
        requires
            0 <= w <= h.width <= 0x7FFF_FFFF,
            1 <= bpp <= 64,
    ;
    assert(w > 0 ==> w * bpp >= 1) by (nonlinear_arith)
        requires
            1 <= bpp,
    ;
    let r = pass_row_len(h, k);
    let ph = pass_height(h, k);
    assert(0 <= ph * (r + 1) <= 0x1000_0000_0000_0000_0000) by (nonlinear_arith)
        requires
            0 <= ph <= 0x7FFF_FFFF,
            0 <= r <= 0x4_0000_0000,
    ;
    passes_len_grows(h, 0, k);
    passes_len_grows(h, k + 1, pass_count(h.interlaced));
}

pub proof fn passes_len_grows(h: Ihdr, j: int, k: int)
    requires
        h.wf(),
        0 <= j <= k,
    ensures
        passes_len(h, j) <= passes_len(h, k),
    decreases k - j,
{
    if j < k {
        passes_len_grows(h, j, k - 1);
        let p = pass_at(h.interlaced, k - 1);
        extent_bound(h.width as int, p.x0 as int, p.dx as int);
        extent_bound(h.height as int, p.y0 as int, p.dy as int);
        let ph = pass_height(h, k - 1);
        let r = pass_row_len(h, k - 1);
        assert(pass_width(h, k - 1) * h.spec_bits_per_pixel() >= 0) by (nonlinear_arith)
            requires
                pass_width(h, k - 1) >= 0,
                h.spec_bits_per_pixel() == h.color.spec_channels() * h.bit_depth,
                1 <= h.color.spec_channels() <= 4,
                1 <= h.bit_depth <= 16,
        ;
        assert(ph * (r + 1) >= 0) by (nonlinear_arith)
            requires
                ph >= 0,
                r >= 0,
        ;
    }
}

/// The passes of an image.
pub fn passes_for(interlaced: bool) -> (passes: Vec<Pass>)
    ensures
        passes@.len() == pass_count(interlaced),
        forall|k: int|
            0 <= k < passes@.len() ==> #[trigger] passes@[k] == pass_at(interlaced, k),
{
    let mut passes: Vec<Pass> = Vec::new();
    if interlaced {
        passes.push(Pass { x0: 0, y0: 0, dx: 8, dy: 8 });
        passes.push(Pass { x0: 4, y0: 0, dx: 8, dy: 8 });
        passes.push(Pass { x0: 0, y0: 4, dx: 4, dy: 8 });
        passes.push(Pass { x0: 2, y0: 0, dx: 4, dy: 4 });
        passes.push(Pass { x0: 0, y0: 2, dx: 2, dy: 4 });
        passes.push(Pass { x0: 1, y0: 0, dx: 2, dy: 2 });
        passes.push(Pass { x0: 0, y0: 1, dx: 1, dy: 2 });
    } else {
        passes.push(Pass { x0: 0, y0: 0, dx: 1, dy: 1 });
    }
    passes
}

fn extent_of(size: u32, start: u32, step: u32) -> (n: u32)
    requires
        1 <= step <= 8,
        size <= 0x7FFF_FFFF,
    ensures
        n == extent(size as int, start as int, step as int),
        n <= size,
{
    if size <= start {
        0
    } else {
        let n: u32 = (size - start + (step - 1)) / step;
        assert(n <= size) by (nonlinear_arith)
            requires
                n == (size - start + (step - 1)) / (step as int),
                1 <= step,
                size >= 1,
                start >= 0,
        ;
        n
    }
}

/// The dimensions of a pass in pixels.
pub fn pass_dimensions(pass: Pass, width: u32, height: u32) -> (dims: (u32, u32))
    requires
        1 <= pass.dx <= 8,
        1 <= pass.dy <= 8,
        width <= 0x7FFF_FFFF,
        height <= 0x7FFF_FFFF,
    ensures
        dims.0 == extent(width as int, pass.x0 as int, pass.dx as int),
        dims.1 == extent(height as int, pass.y0 as int, pass.dy as int),
        dims.0 <= width,
        dims.1 <= height,
{
    (extent_of(width, pass.x0, pass.dx), extent_of(height, pass.y0, pass.dy))
}

/// The length of the filtered stream of an image, or `None` where it cannot be addressed.
pub fn expected_stream_len(header: &Ihdr) -> (len: Option<usize>)
    requires
        header.wf(),
    ensures
        len is Some <==> stream_fits(*header),
        len matches Some(l) ==> l == stream_len(*header),
{
    let ghost h = *header;
    let bits: u64 = header.bits_per_pixel() as u64;
    let passes: Vec<Pass> = passes_for(header.interlaced);
    proof {
        pass_bounds(h, 0);
    }
    if header.width as u64 * bits > usize::MAX as u64 {
        return None;
    }
    let mut total: u128 = 0;
    let mut k: usize = 0;
    while k < passes.len()
        invariant
            h == *header,
            h.wf(),
            bits == h.spec_bits_per_pixel(),
            passes@.len() == pass_count(h.interlaced),
            forall|j: int|
                0 <= j < passes@.len() ==> #[trigger] passes@[j] == pass_at(h.interlaced, j),
            k <= passes@.len(),
            total == passes_len(h, k as int),
            total <= 0x1000_0000_0000_0000_0000 * k,
        decreases passes@.len() - k,
    {
        let pass: Pass = passes[k];
        assert(pass == pass_at(h.interlaced, k as int));
        let (w, ph): (u32, u32) = pass_dimensions(pass, header.width, header.height);
        proof {
            pass_bounds(h, k as int);
        }
        if w != 0 && ph != 0 {
            let row: u64 = (w as u64 * bits + 7) / 8;
            assert(row == pass_row_len(h, k as int));
            assert(ph * (row + 1) == pass_len(h, k as int));
            total = total + ph as u128 * (row as u128 + 1);
        }
        k += 1;
    }
    if total > usize::MAX as u128 {
        None
    } else {
        Some(total as usize)
    }
}

/// Where in its pass the pixel in column `x` of row `y` stands.
pub open spec fn place_in_pass(h: Ihdr, x: int, y: int) -> int {
    let k = pass_of(h.interlaced, x, y);
    let p = pass_at(h.interlaced, k);
    (y - p.y0) / p.dy as int * pass_width(h, k) + (x - p.x0) / p.dx as int
}

/// A pixel's place lies inside its pass.
pub proof fn place_is_inside(h: Ihdr, x: int, y: int)
    requires
        h.wf(),
        0 <= x < h.width,
        0 <= y < h.height,
    ensures
        ({
            let k = pass_of(h.interlaced, x, y);
            let p = pass_at(h.interlaced, k);
            &&& 0 <= k < pass_count(h.interlaced)
            &&& !pass_is_empty(h, k)
            &&& 0 <= (x - p.x0) / p.dx as int
            &&& (x - p.x0) / p.dx as int <= pass_width(h, k) - 1
            &&& 0 <= (y - p.y0) / p.dy as int
            &&& (y - p.y0) / p.dy as int <= pass_height(h, k) - 1
            &&& 0 <= place_in_pass(h, x, y) < pass_width(h, k) * pass_height(h, k)
        }),
{
    let k = pass_of(h.interlaced, x, y);
    let p = pass_at(h.interlaced, k);
    passes_partition_the_image(h.interlaced, x, y, k);
    let (w, ph) = (pass_width(h, k), pass_height(h, k));
    let (col, line) = ((x - p.x0) / p.dx as int, (y - p.y0) / p.dy as int);
    column_inside(h.width as int, p.x0 as int, p.dx as int, x);
    column_inside(h.height as int, p.y0 as int, p.dy as int, y);
    assert(0 <= line * w + col < w * ph) by (nonlinear_arith)
        requires
            0 <= col <= w - 1,
            0 <= line <= ph - 1,
    ;
}

proof fn column_inside(size: int, start: int, step: int, x: int)
    requires
        1 <= step <= 8,
        0 <= start <= x < size,
    ensures
        0 <= (x - start) / step <= extent(size, start, step) - 1,
{
    assert(0 <= (x - start) / step <= (size - start + step - 1) / step - 1) by (nonlinear_arith)
        requires
            1 <= step,
            0 <= x - start <= size - start - 1,
    {
        let a = x - start;
        let b = size - start - 1;
        assert((b + step) / step == b / step + 1);
        assert(a / step <= b / step);
    }
}

/// The pass and the place in it of the pixel in column `x` of row `y`.
pub fn locate(header: &Ihdr, widths: &Vec<usize>, x: u32, y: u32) -> (at: (usize, usize))
    requires
        header.wf(),
        x < header.width,
        y < header.height,
        widths@.len() == pass_count(header.interlaced),
        forall|k: int|
            0 <= k < widths@.len() ==> #[trigger] widths@[k] == pass_width(*header, k),
        header.width * header.height <= usize::MAX,
    ensures
        at.0 == pass_of(header.interlaced, x as int, y as int),
        at.1 == place_in_pass(*header, x as int, y as int),
{
    let ghost h = *header;
    proof {
        place_is_inside(h, x as int, y as int);
        passes_partition_the_image(
            h.interlaced,
            x as int,
            y as int,
            pass_of(h.interlaced, x as int, y as int),
        );
    }
    let (k, x0, y0, dx, dy): (usize, u32, u32, u32, u32) = if !header.interlaced {
        (0, 0, 0, 1, 1)
    } else if y % 2 == 1 {
        (6, 0, 1, 1, 2)
    } else if x % 2 == 1 {
        (5, 1, 0, 2, 2)
    } else if y % 4 == 2 {
        (4, 0, 2, 2, 4)
    } else if x % 4 == 2 {
        (3, 2, 0, 4, 4)
    } else if y % 8 == 4 {
        (2, 0, 4, 4, 8)
    } else if x % 8 == 4 {
        (1, 4, 0, 8, 8)
    } else {
        (0, 0, 0, 8, 8)
    };
    assert(k == pass_of(h.interlaced, x as int, y as int));
    assert(pass_at(h.interlaced, k as int) == (Pass { x0, y0, dx, dy }));
    let line: usize = ((y - y0) / dy) as usize;
    let col: usize = ((x - x0) / dx) as usize;
    let w: usize = widths[k];
    proof {
        pass_bounds(h, k as int);
        let ph = pass_height(h, k as int);
        assert(w * ph <= h.width * h.height) by (nonlinear_arith)
            requires
                0 <= w <= h.width,
                0 <= ph <= h.height,
        ;
        assert(0 <= line * w) by (nonlinear_arith)
            requires
                0 <= line,
                0 <= w,
        ;
    }
    (k, line * w + col)
}

} // verus!
