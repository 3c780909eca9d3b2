//! Sub-byte sample packing (PNG §7.2): samples of 1, 2 or 4 bits, the leftmost in the high bits,
//! each scanline starting at a byte boundary.
pub use crate::reduce::gray8_scale;
use vstd::prelude::*;

verus! {

/// Whether a depth packs several samples into a byte.
pub open spec fn is_sub_byte(depth: u8) -> bool {
    depth == 1 || depth == 2 || depth == 4
}

/// How many values a sample of `depth` bits has.
pub open spec fn radix(depth: u8) -> int {
    if depth == 1 {
        2
    } else if depth == 2 {
        4
    } else {
        16
    }
}

/// How many samples a byte holds.
pub open spec fn per_byte(depth: u8) -> int {
    if depth == 1 {
        8
    } else if depth == 2 {
        4
    } else {
        2
    }
}

/// The weight of the `k`-th sample of a byte.
pub open spec fn place(depth: u8, k: int) -> int {
    if depth == 4 {
        if k == 0 {
            16
        } else {
            1
        }
    } else if depth == 2 {
        if k == 0 {
            64
        } else if k == 1 {
            16
        } else if k == 2 {
            4
        } else {
            1
        }
    } else {
        if k == 0 {
            128
        } else if k == 1 {
            64
        } else if k == 2 {
            32
        } else if k == 3 {
            16
        } else if k == 4 {
            8
        } else if k == 5 {
            4
        } else if k == 6 {
            2
        } else {
            1
        }
    }
}

/// The `k`-th sample of a packed byte.
pub open spec fn field(byte: u8, depth: u8, k: int) -> int {
    byte as int / place(depth, k) % radix(depth)
}

/// Bytes in a packed row of `width` samples.
pub open spec fn packed_row_len(width: int, depth: u8) -> int {
    (width + per_byte(depth) - 1) / per_byte(depth)
}

/// Sample `x` of a row, zero past its end.
pub open spec fn sample_or_zero(samples: Seq<u8>, start: int, width: int, x: int) -> int {
    if x < width {
        samples[start + x] as int
    } else {
        0
    }
}

/// The first `k` samples of byte `b` of a row, as digits in base [`radix`].
pub open spec fn digits(samples: Seq<u8>, start: int, width: int, depth: u8, b: int, k: nat) -> int
    decreases k,
{
    if k == 0 {
        0
    } else {
        digits(samples, start, width, depth, b, (k - 1) as nat) * radix(depth) + sample_or_zero(
            samples,
            start,
            width,
            b * per_byte(depth) + k - 1,
        )
    }
}

/// Packed rows of samples.
pub open spec fn packed(samples: Seq<u8>, width: int, height: int, depth: u8) -> Seq<u8> {
    let row = packed_row_len(width, depth);
    Seq::new(
        (row * height) as nat,
        |j: int|
            digits(samples, j / row * width, width, depth, j % row, per_byte(depth) as nat) as u8,
    )
}

/// The samples of packed rows.
pub open spec fn unpacked(bytes: Seq<u8>, width: int, height: int, depth: u8) -> Seq<u8> {
    let row = packed_row_len(width, depth);
    Seq::new(
        (width * height) as nat,
        |j: int|
            {
                let x = j % width;
                field(bytes[j / width * row + x / per_byte(depth)], depth, x % per_byte(depth)) as u8
            },
    )
}

/// Whether every sample fits `depth` bits.
pub open spec fn samples_fit(samples: Seq<u8>, depth: u8) -> bool {
    forall|i: int| 0 <= i < samples.len() ==> (#[trigger] samples[i]) < radix(depth)
}

fn place_of(depth: u8, k: usize) -> (weight: u8)
    requires
        is_sub_byte(depth),
        k < per_byte(depth),
    ensures
        weight == place(depth, k as int),
        weight >= 1,
{
    if depth == 4 {
        if k == 0 {
            16
        } else {
            1
        }
    } else if depth == 2 {
        match k {
            0 => 64,
            1 => 16,
            2 => 4,
            _ => 1,
        }
    } else {
        match k {
            0 => 128,
            1 => 64,
            2 => 32,
            3 => 16,
            4 => 8,
            5 => 4,
            6 => 2,
            _ => 1,
        }
    }
}

fn shape(depth: u8) -> (shape: (usize, usize))
    requires
        is_sub_byte(depth),
    ensures
        shape.0 == per_byte(depth),
        shape.1 == radix(depth),
{
    match depth {
        1 => (8, 2),
        2 => (4, 4),
        _ => (2, 16),
    }
}

/// The byte of a row that holds sample `x`, and the sample's place in it.
fn split(x: usize, depth: u8) -> (at: (usize, usize))
    requires
        is_sub_byte(depth),
    ensures
        at.0 == x as int / per_byte(depth),
        at.1 == x as int % per_byte(depth),
        at.1 < per_byte(depth),
{
    match depth {
        1 => (x / 8, x % 8),
        2 => (x / 4, x % 4),
        _ => (x / 2, x % 2),
    }
}

fn row_len(width: usize, depth: u8) -> (len: usize)
    requires
        is_sub_byte(depth),
    ensures
        len == packed_row_len(width as int, depth),
{
    if width == 0 {
        0
    } else {
        match depth {
            1 => (width - 1) / 8 + 1,
            2 => (width - 1) / 4 + 1,
            _ => (width - 1) / 2 + 1,
        }
    }
}

proof fn byte_inside(x: int, width: int, depth: u8)
    requires
        is_sub_byte(depth),
        0 <= x < width,
    ensures
        0 <= x / per_byte(depth) < packed_row_len(width, depth),
        0 <= x % per_byte(depth) < per_byte(depth),
        x / per_byte(depth) * per_byte(depth) + x % per_byte(depth) == x,
{
    if depth == 1 {
        assert(0 <= x / 8 < (width + 7) / 8);
    } else if depth == 2 {
        assert(0 <= x / 4 < (width + 3) / 4);
    } else {
        assert(0 <= x / 2 < (width + 1) / 2);
    }
}

proof fn next_digit(acc: int, s: int, base: int, cap: int)
    by (nonlinear_arith)
    requires
        0 <= acc < cap,
        0 <= s < base,
    ensures
        0 <= acc * base,
        0 <= acc * base + s < cap * base,
{
}

/// Packs `height` rows of `width` samples at 1, 2 or 4 bits.
pub fn pack_scanlines(samples: &[u8], width: usize, height: usize, depth: u8) -> (out: Vec<u8>)
    requires
        is_sub_byte(depth),
        samples@.len() == width * height,
        samples_fit(samples@, depth),
        width <= usize::MAX - 8,
    ensures
        out@ == packed(samples@, width as int, height as int, depth),
{
    let (per, base): (usize, usize) = shape(depth);
    let row: usize = row_len(width, depth);
    let ghost want = packed(samples@, width as int, height as int, depth);
    let mut out: Vec<u8> = Vec::new();
    let mut y: usize = 0;
    let mut start: usize = 0;
    proof {
        assert(row * 0 == 0) by (nonlinear_arith);
        assert(want.subrange(0, 0) =~= out@);
    }
    while y < height
        invariant
            is_sub_byte(depth),
            per == per_byte(depth),
            base == radix(depth),
            row == packed_row_len(width as int, depth),
            samples@.len() == width * height,
            samples.len() == width * height,
            samples_fit(samples@, depth),
            width <= usize::MAX - 8,
            want == packed(samples@, width as int, height as int, depth),
            y <= height,
            start == y * width,
            out@ == want.subrange(0, row * y),
            row * y <= want.len(),
        decreases height - y,
    {
        proof {
            assert(y * width + width == (y + 1) * width) by (nonlinear_arith);
            assert((y + 1) * width <= height * width) by (nonlinear_arith)
                requires
                    y + 1 <= height,
            ;
            assert(height * width == width * height) by (nonlinear_arith);
            assert(row * (y + 1) == row * y + row) by (nonlinear_arith);
            assert(row * (y + 1) <= row * height) by (nonlinear_arith)
                requires
                    y + 1 <= height,
                    row >= 0,
            ;
        }
        let mut b: usize = 0;
        while b < row
            invariant
                is_sub_byte(depth),
                per == per_byte(depth),
                base == radix(depth),
                row == packed_row_len(width as int, depth),
                samples.len() == width * height,
                samples_fit(samples@, depth),
                width <= usize::MAX - 8,
                want == packed(samples@, width as int, height as int, depth),
                start == y * width,
                start + width <= samples.len(),
                b <= row,
                row * y + row <= want.len(),
                0 <= row * y,
                out@ == want.subrange(0, row * y + b),
            decreases row - b,
        {
            let mut acc: u16 = 0;
            let mut k: usize = 0;
            let ghost mut cap: int = 1;
            while k < per
                invariant
                    is_sub_byte(depth),
                    per == per_byte(depth),
                    base == radix(depth),
                    b < row,
                    row == packed_row_len(width as int, depth),
                    samples_fit(samples@, depth),
                    width <= usize::MAX - 8,
                    start + width <= samples.len(),
                    k <= per,
                    0 <= acc < cap,
                    cap == digit_cap(depth, k as nat),
                    acc == digits(
                        samples@,
                        start as int,
                        width as int,
                        depth,
                        b as int,
                        k as nat,
                    ),
                decreases per - k,
            {
                assert(b * per + k <= width + 8);
                let x: usize = b * per + k;
                let s: u8 = if x < width {
                    samples[start + x]
                } else {
                    0
                };
                assert(s < base);
                proof {
                    next_digit(acc as int, s as int, base as int, cap);
                    assert(cap * base == digit_cap(depth, (k + 1) as nat)) by (nonlinear_arith)
                        requires
                            is_sub_byte(depth),
                            base == radix(depth),
                            k < per_byte(depth),
                            cap == digit_cap(depth, k as nat),
                    ;
                }
                acc = acc * base as u16 + s as u16;
                k += 1;
                proof {
                    cap = digit_cap(depth, k as nat);
                }
            }
            assert(acc < 256);
            out.push(acc as u8);
            proof {
                let at = row * y + b;
                crate::reduce::pixel_position(y as int, row as int, b as int);
                assert(y * row == row * y) by (nonlinear_arith);
                assert(at / (row as int) == y && at % (row as int) == b);
                assert(want[at] == acc);
                assert(out@ =~= want.subrange(0, at + 1));
            }
            b += 1;
        }
        y += 1;
        start += width;
    }
    assert(out@ =~= want);
    out
}

/// `radix` to the power of `k`, for the digits of one byte.
pub open spec fn digit_cap(depth: u8, k: nat) -> int {
    if k == 0 {
        1
    } else if depth == 4 {
        if k == 1 {
            16
        } else {
            256
        }
    } else if depth == 2 {
        if k == 1 {
            4
        } else if k == 2 {
            16
        } else if k == 3 {
            64
        } else {
            256
        }
    } else {
        if k == 1 {
            2
        } else if k == 2 {
            4
        } else if k == 3 {
            8
        } else if k == 4 {
            16
        } else if k == 5 {
            32
        } else if k == 6 {
            64
        } else if k == 7 {
            128
        } else {
            256
        }
    }
}

/// Unpacks `height` rows of `width` samples at 1, 2 or 4 bits.
pub fn unpack_scanlines(bytes: &[u8], width: usize, height: usize, depth: u8) -> (out: Vec<u8>)
    requires
        is_sub_byte(depth),
        bytes@.len() == packed_row_len(width as int, depth) * height,
    ensures
        out@ == unpacked(bytes@, width as int, height as int, depth),
        samples_fit(out@, depth),
{
    let (_, base): (usize, usize) = shape(depth);
    let row: usize = row_len(width, depth);
    let ghost want = unpacked(bytes@, width as int, height as int, depth);
    let mut out: Vec<u8> = Vec::new();
    let mut y: usize = 0;
    let mut start: usize = 0;
    proof {
        assert(width * 0 == 0) by (nonlinear_arith);
        assert(want.subrange(0, 0) =~= out@);
    }
    while y < height
        invariant
            is_sub_byte(depth),
            base == radix(depth),
            row == packed_row_len(width as int, depth),
            bytes.len() == row * height,
            want == unpacked(bytes@, width as int, height as int, depth),
            y <= height,
            start == y * row,
            out@ == want.subrange(0, width * y),
            width * y <= want.len(),
            samples_fit(out@, depth),
        decreases height - y,
    {
        proof {
            assert(y * row + row == (y + 1) * row) by (nonlinear_arith);
            assert((y + 1) * row <= height * row) by (nonlinear_arith)
                requires
                    y + 1 <= height,
            ;
            assert(height * row == row * height) by (nonlinear_arith);
            assert(width * (y + 1) == width * y + width) by (nonlinear_arith);
            assert(width * (y + 1) <= width * height) by (nonlinear_arith)
                requires
                    y + 1 <= height,
                    width >= 0,
            ;
        }
        let mut x: usize = 0;
        while x < width
            invariant
                is_sub_byte(depth),
                base == radix(depth),
                row == packed_row_len(width as int, depth),
                want == unpacked(bytes@, width as int, height as int, depth),
                start == y * row,
                start + row <= bytes.len(),
                x <= width,
                width * y + width <= want.len(),
                0 <= width * y,
                out@ == want.subrange(0, width * y + x),
                samples_fit(out@, depth),
            decreases width - x,
        {
            let (b, k): (usize, usize) = split(x, depth);
            proof {
                byte_inside(x as int, width as int, depth);
            }
            let byte: u8 = bytes[start + b];
            let weight: u8 = place_of(depth, k);
            let sample: u8 = byte / weight % base as u8;
            assert(sample == field(byte, depth, k as int));
            assert(sample < base);
            out.push(sample);
            proof {
                let at = width * y + x;
                crate::reduce::pixel_position(y as int, width as int, x as int);
                assert(y * width == width * y) by (nonlinear_arith);
                assert(at / (width as int) == y && at % (width as int) == x);
                assert(want[at] == sample);
                assert(out@ =~= want.subrange(0, at + 1));
            }
            x += 1;
        }
        y += 1;
        start += row;
    }
    assert(out@ =~= want);
    out
}


/// The digits of a byte read back as the samples they were written from.
pub proof fn digits_read_back(samples: Seq<u8>, start: int, width: int, depth: u8, b: int, k: int)
    requires
        is_sub_byte(depth),
        0 <= k < per_byte(depth),
        0 <= start,
        0 <= b,
        start + width <= samples.len(),
        samples_fit(samples, depth),
    ensures
        0 <= digits(samples, start, width, depth, b, per_byte(depth) as nat) < 256,
        digits(samples, start, width, depth, b, per_byte(depth) as nat) / place(depth, k) % radix(
            depth,
        ) == sample_or_zero(samples, start, width, b * per_byte(depth) + k),
{
    reveal_with_fuel(digits, 9);
    let at = b * per_byte(depth);
    assert(forall|i: int|
        0 <= i < per_byte(depth) ==> 0 <= #[trigger] sample_or_zero(samples, start, width, at + i)
            < radix(depth));
    if depth == 4 {
        let s0 = sample_or_zero(samples, start, width, at + 0);
        let s1 = sample_or_zero(samples, start, width, at + 1);
        four_bit_digits(s0, s1);
    } else if depth == 2 {
        let s0 = sample_or_zero(samples, start, width, at + 0);
        let s1 = sample_or_zero(samples, start, width, at + 1);
        let s2 = sample_or_zero(samples, start, width, at + 2);
        let s3 = sample_or_zero(samples, start, width, at + 3);
        two_bit_digits(s0, s1, s2, s3);
    } else {
        let s0 = sample_or_zero(samples, start, width, at + 0);
        let s1 = sample_or_zero(samples, start, width, at + 1);
        let s2 = sample_or_zero(samples, start, width, at + 2);
        let s3 = sample_or_zero(samples, start, width, at + 3);
        let s4 = sample_or_zero(samples, start, width, at + 4);
        let s5 = sample_or_zero(samples, start, width, at + 5);
        let s6 = sample_or_zero(samples, start, width, at + 6);
        let s7 = sample_or_zero(samples, start, width, at + 7);
        one_bit_digits(s0, s1, s2, s3, s4, s5, s6, s7);
    }
}

proof fn four_bit_digits(s0: int, s1: int)
    requires
        0 <= s0 < 16,
        0 <= s1 < 16,
    ensures
        ({
            let v = s0 * 16 + s1;
            v < 256 && v / 16 % 16 == s0 && v % 16 == s1
        }),
{
}

proof fn two_bit_digits(s0: int, s1: int, s2: int, s3: int)
    requires
        0 <= s0 < 4,
        0 <= s1 < 4,
        0 <= s2 < 4,
        0 <= s3 < 4,
    ensures
        ({
            let v = ((s0 * 4 + s1) * 4 + s2) * 4 + s3;
            v < 256 && v / 64 % 4 == s0 && v / 16 % 4 == s1 && v / 4 % 4 == s2 && v % 4 == s3
        }),
{
}

proof fn one_bit_digits(s0: int, s1: int, s2: int, s3: int, s4: int, s5: int, s6: int, s7: int)
    requires
        0 <= s0 < 2,
        0 <= s1 < 2,
        0 <= s2 < 2,
        0 <= s3 < 2,
        0 <= s4 < 2,
        0 <= s5 < 2,
        0 <= s6 < 2,
        0 <= s7 < 2,
    ensures
        ({
            let v = ((((((s0 * 2 + s1) * 2 + s2) * 2 + s3) * 2 + s4) * 2 + s5) * 2 + s6) * 2 + s7;
            &&& v < 256
            &&& v / 128 % 2 == s0
            &&& v / 64 % 2 == s1
            &&& v / 32 % 2 == s2
            &&& v / 16 % 2 == s3
            &&& v / 8 % 2 == s4
            &&& v / 4 % 2 == s5
            &&& v / 2 % 2 == s6
            &&& v % 2 == s7
        }),
{
}

/// Unpacking packed samples gives them back.
pub proof fn packing_round_trip(samples: Seq<u8>, width: int, height: int, depth: u8)
    requires
        is_sub_byte(depth),
        width >= 1,
        height >= 0,
        samples.len() == width * height,
        samples_fit(samples, depth),
    ensures
        unpacked(packed(samples, width, height, depth), width, height, depth) == samples,
{
    let bytes = packed(samples, width, height, depth);
    let back = unpacked(bytes, width, height, depth);
    let row = packed_row_len(width, depth);
    let per = per_byte(depth);
    assert forall|j: int| 0 <= j < samples.len() implies #[trigger] back[j] == samples[j] by {
        let y = j / width;
        let x = j % width;
        vstd::arithmetic::div_mod::lemma_fundamental_div_mod(j, width);
        assert(width * y == y * width) by (nonlinear_arith);
        assert(0 <= y < height) by (nonlinear_arith)
            requires
                j == width * y + x,
                0 <= x < width,
                0 <= j < width * height,
                width >= 1,
        ;
        byte_inside(x, width, depth);
        let b = x / per;
        let at = y * row + b;
        crate::reduce::pixel_position(y, row, b);
        assert(0 <= at < row * height) by (nonlinear_arith)
            requires
                at == y * row + b,
                0 <= b < row,
                0 <= y < height,
        ;
        assert(y * width + width <= width * height) by (nonlinear_arith)
            requires
                y + 1 <= height,
                width >= 1,
        ;
        assert(0 <= y * width) by (nonlinear_arith)
            requires
                0 <= y,
                0 <= width,
        ;
        digits_read_back(samples, y * width, width, depth, b, x % per);
    }
    assert(back =~= samples);
}

} // verus!
