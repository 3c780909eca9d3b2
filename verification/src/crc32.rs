//! CRC-32 for chunk integrity (PNG §5.3, the ISO-3309 / ITU-T V.42 polynomial).
//!
//! The reflected CRC-32 with polynomial `0xEDB88320`, computed over a chunk's type and data. The
//! arithmetic is `crc32fast`'s; this module is the PNG-shaped wrapper over it.
use vstd::prelude::*;

verus! {

/// `crc32fast`'s in-progress checksum.
#[verifier::external_type_specification]
#[verifier::external_body]
pub struct ExHasher(crc32fast::Hasher);

/// The bytes that have been folded into a hasher.
pub uninterp spec fn hashed_bytes(hasher: crc32fast::Hasher) -> Seq<u8>;

/// The reflected generator polynomial.
pub const POLYNOMIAL: u32 = 0xEDB8_8320;

/// The register after `n` bits have been shifted out of it.
pub open spec fn shifted(register: u32, n: nat) -> u32
    decreases n,
{
    if n == 0 {
        register
    } else {
        let before = shifted(register, (n - 1) as nat);
        if before & 1 == 1 {
            (before >> 1) ^ POLYNOMIAL
        } else {
            before >> 1
        }
    }
}

/// The register after bytes have been folded in, starting from all ones.
pub open spec fn register_after(bytes: Seq<u8>) -> u32
    decreases bytes.len(),
{
    if bytes.len() == 0 {
        0xFFFF_FFFF
    } else {
        shifted(register_after(bytes.drop_last()) ^ (bytes.last() as u32), 8)
    }
}

/// The CRC-32 (IEEE) of a byte string: the register after all of it, inverted.
pub open spec fn crc32_of(bytes: Seq<u8>) -> u32 {
    !register_after(bytes)
}

/// `crc32fast::Hasher::new`: nothing has been folded in yet.
pub assume_specification[ crc32fast::Hasher::new ]() -> (hasher: crc32fast::Hasher)
    ensures
        hashed_bytes(hasher) == Seq::<u8>::empty(),
;

/// `crc32fast::Hasher::update`: folds `buf` in behind what was folded in before. The hasher counts
/// its bytes in 64 bits.
pub assume_specification[ crc32fast::Hasher::update ](hasher: &mut crc32fast::Hasher, buf: &[u8])
    requires
        hashed_bytes(*old(hasher)).len() + buf@.len() <= u64::MAX,
    ensures
        hashed_bytes(*final(hasher)) == hashed_bytes(*old(hasher)) + buf@,
;

/// `crc32fast::Hasher::finalize`: the CRC-32 of everything folded in.
pub assume_specification[ crc32fast::Hasher::finalize ](hasher: crc32fast::Hasher) -> (crc: u32)
    ensures
        crc == crc32_of(hashed_bytes(hasher)),
;

/// An incremental CRC-32 accumulator.
pub struct Crc32 {
    hasher: crc32fast::Hasher,
}

impl View for Crc32 {
    type V = Seq<u8>;

    /// The bytes folded in so far.
    closed spec fn view(&self) -> Seq<u8> {
        hashed_bytes(self.hasher)
    }
}

impl Crc32 {
    /// Starts a fresh CRC.
    pub fn new() -> (crc: Self)
        ensures
            crc@ == Seq::<u8>::empty(),
    {
        Crc32 { hasher: crc32fast::Hasher::new() }
    }

    /// Folds `data` into the running CRC. Folding in two parts is folding the whole.
    pub fn update(&mut self, data: &[u8])
        requires
            old(self)@.len() + data@.len() <= u64::MAX,
        ensures
            final(self)@ == old(self)@ + data@,
    {
        self.hasher.update(data);
    }

    /// The CRC of everything folded in.
    pub fn finish(self) -> (crc: u32)
        ensures
            crc == crc32_of(self@),
    {
        self.hasher.finalize()
    }
}

} // verus!
