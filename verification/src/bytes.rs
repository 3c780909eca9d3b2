//! Byte-level helpers: big-endian integers, appending.
use vstd::arithmetic::div_mod::{lemma_hoist_over_denominator, lemma_mod_multiples_vanish};
use vstd::prelude::*;

verus! {

/// The value of the two bytes of `s` at `i`, most significant first.
pub open spec fn be16(s: Seq<u8>, i: int) -> int {
    s[i] * 256 + s[i + 1]
}

/// The value of the four bytes of `s` at `i`, most significant first.
pub open spec fn be32(s: Seq<u8>, i: int) -> int {
    s[i] * 0x100_0000 + s[i + 1] * 0x1_0000 + s[i + 2] * 0x100 + s[i + 3]
}

/// The two bytes of `v`, most significant first.
pub open spec fn be16_seq(v: int) -> Seq<u8> {
    seq![(v / 256 % 256) as u8, (v % 256) as u8]
}

/// The four bytes of `v`, most significant first.
pub open spec fn be32_seq(v: int) -> Seq<u8> {
    seq![
        (v / 0x100_0000 % 256) as u8,
        (v / 0x1_0000 % 256) as u8,
        (v / 0x100 % 256) as u8,
        (v % 256) as u8,
    ]
}

/// Reading back a written four-byte integer gives the integer.
pub proof fn be32_round_trip(v: u32)
    ensures
        be32(be32_seq(v as int), 0) == v,
{
}

/// Reading back a written two-byte integer gives the integer.
pub proof fn be16_round_trip(v: u16)
    ensures
        be16(be16_seq(v as int), 0) == v,
{
}

/// The four bytes of an integer are those of its low 32 bits.
pub proof fn be32_low_word(v: int)
    requires
        v >= 0,
    ensures
        be32_seq(v % 0x1_0000_0000) == be32_seq(v),
{
    let q = v / 0x1_0000_0000;
    let r = v % 0x1_0000_0000;
    low_digit(r, q, 0x100_0000, 0x100);
    low_digit(r, q, 0x1_0000, 0x1_0000);
    low_digit(r, q, 0x100, 0x100_0000);
    low_digit(r, q, 1, 0x1_0000_0000);
    assert(be32_seq(r) =~= be32_seq(v));
}

proof fn low_digit(r: int, q: int, place: int, above: int)
    requires
        place > 0,
        above % 256 == 0,
        place * above == 0x1_0000_0000,
    ensures
        (r + q * 0x1_0000_0000) / place % 256 == r / place % 256,
{
    let k = above / 256;
    assert(q * 0x1_0000_0000 == (q * above) * place) by (nonlinear_arith)
        requires
            place * above == 0x1_0000_0000,
    ;
    lemma_hoist_over_denominator(r, q * above, place as nat);
    assert(q * above == 256 * (q * k)) by (nonlinear_arith)
        requires
            above == 256 * k,
    ;
    lemma_mod_multiples_vanish(q * k, r / place, 256);
}

/// Four bytes are those of `v` exactly when they read as `v`.
pub proof fn be32_field(field: Seq<u8>, v: u32)
    requires
        field.len() == 4,
    ensures
        field == be32_seq(v as int) <==> be32(field, 0) == v,
{
    be32_round_trip(v);
    if be32(field, 0) == v {
        let (a, b, c, d) = (field[0] as int, field[1] as int, field[2] as int, field[3] as int);
        assert(v / 0x100_0000 == a);
        assert(v / 0x1_0000 == a * 256 + b);
        assert(v / 0x100 == a * 0x1_0000 + b * 0x100 + c);
        assert(field =~= be32_seq(v as int));
    }
}

/// The big-endian `u16` at `i`.
pub fn read_be16(s: &[u8], i: usize) -> (v: u16)
    requires
        i + 2 <= s@.len(),
    ensures
        v == be16(s@, i as int),
{
    s[i] as u16 * 256 + s[i + 1] as u16
}

/// The big-endian `u32` at `i`.
pub fn read_be32(s: &[u8], i: usize) -> (v: u32)
    requires
        i + 4 <= s@.len(),
    ensures
        v == be32(s@, i as int),
{
    s[i] as u32 * 0x100_0000 + s[i + 1] as u32 * 0x1_0000 + s[i + 2] as u32 * 0x100
        + s[i + 3] as u32
}

/// Appends `v` most significant byte first.
pub fn push_be16(out: &mut Vec<u8>, v: u16)
    ensures
        final(out)@ == old(out)@ + be16_seq(v as int),
{
    out.push((v / 256) as u8);
    out.push((v % 256) as u8);
    assert(out@ =~= old(out)@ + be16_seq(v as int));
}

/// Appends `v` most significant byte first.
pub fn push_be32(out: &mut Vec<u8>, v: u32)
    ensures
        final(out)@ == old(out)@ + be32_seq(v as int),
{
    out.push((v / 0x100_0000) as u8);
    out.push((v / 0x1_0000 % 256) as u8);
    out.push((v / 0x100 % 256) as u8);
    out.push((v % 256) as u8);
    assert(out@ =~= old(out)@ + be32_seq(v as int));
}

/// The size and alignment of a value in memory.
#[verifier::external_type_specification]
#[verifier::external_body]
pub struct ExLayout(core::alloc::Layout);

/// The size that a layout records.
pub uninterp spec fn layout_size(layout: core::alloc::Layout) -> nat;

/// `core::alloc::Layout::for_value`: the layout of a value, with the value's own size.
pub assume_specification<T: ?Sized>[ core::alloc::Layout::for_value::<T> ](t: &T) -> (layout:
    core::alloc::Layout)
    ensures
        layout_size(layout) == vstd::layout::spec_size_of_val::<T>(t),
;

/// `core::alloc::Layout::size`: the size that the layout records. No layout is larger than
/// `isize::MAX` bytes.
pub assume_specification[ core::alloc::Layout::size ](layout: &core::alloc::Layout) -> (size: usize)
    ensures
        size == layout_size(*layout),
        size <= isize::MAX,
;

/// The length of a byte slice, which like every value is no larger than `isize::MAX` bytes.
pub fn byte_len(s: &[u8]) -> (len: usize)
    ensures
        len == s@.len(),
        len <= isize::MAX,
{
    let size: usize = core::alloc::Layout::for_value(s).size();
    proof {
        broadcast use vstd::layout::layout_of_slices;
        broadcast use vstd::layout::layout_of_primitives;
        assert(vstd::layout::spec_size_of_val::<[u8]>(s) == s@.len() * vstd::layout::size_of::<u8>());
    }
    size
}

/// Appends every byte of `other`.
pub fn append(out: &mut Vec<u8>, other: &[u8])
    ensures
        final(out)@ == old(out)@ + other@,
{
    out.extend_from_slice(other);
    assert(out@ =~= old(out)@ + other@);
}

} // verus!
