//! The deterministic fingerprint of a project path: 32-bit FNV-1 over the
//! UTF-8 bytes of the full path string.
//!
//! FNV-1 folds each byte into a running accumulator: the byte is XORed in
//! first, then the accumulator is multiplied by the FNV prime and reduced
//! modulo 2^32. The XOR-then-multiply order is what makes this FNV-1 and
//! not FNV-1a; swapping the two changes every output.

use vstd::prelude::*;
use vstd::string::*;

verus! {

/// The FNV-1 offset basis for 32-bit output.
pub const FNV_OFFSET: u64 = 2166136261;

/// The FNV-1 prime for 32-bit output.
pub const FNV_PRIME: u64 = 16777619;

/// The modulus that keeps the accumulator in 32-bit range.
pub const FNV_MODULUS: u64 = 0x1_0000_0000;

/// One FNV-1 round: XOR the byte in, multiply by the prime, reduce mod 2^32.
pub open spec fn fnv1_step(h: u64, b: u8) -> u64 {
    ((((h ^ (b as u64)) as int) * (FNV_PRIME as int)) % (FNV_MODULUS as int)) as u64
}

/// The accumulator after folding the first `n` bytes of `bytes`,
/// starting from the offset basis.
pub open spec fn fnv1_prefix(bytes: Seq<u8>, n: int) -> u64
    decreases n,
{
    if n <= 0 {
        FNV_OFFSET
    } else {
        fnv1_step(fnv1_prefix(bytes, n - 1), bytes[n - 1])
    }
}

/// The FNV-1 fingerprint of a byte sequence.
pub open spec fn fnv1_of(bytes: Seq<u8>) -> u64 {
    fnv1_prefix(bytes, bytes.len() as int)
}

/// The fingerprint always lies in 32-bit range.
pub proof fn lemma_fnv1_in_range(bytes: Seq<u8>)
    ensures
        fnv1_of(bytes) < FNV_MODULUS,
{
    lemma_fnv1_prefix_in_range(bytes, bytes.len() as int);
}

proof fn lemma_fnv1_prefix_in_range(bytes: Seq<u8>, n: int)
    ensures
        fnv1_prefix(bytes, n) < FNV_MODULUS,
{
    if n <= 0 {
    } else {
        let h = fnv1_prefix(bytes, n - 1);
        let x = (h ^ (bytes[n - 1] as u64)) as int;
        assert(x * (FNV_PRIME as int) % (FNV_MODULUS as int) < FNV_MODULUS as int);
    }
}

/// The fingerprint is a pure function of the byte sequence: equal inputs
/// give equal outputs, on every call, every run and every machine.
pub proof fn lemma_fnv1_deterministic(b1: Seq<u8>, b2: Seq<u8>)
    requires
        b1 == b2,
    ensures
        fnv1_of(b1) == fnv1_of(b2),
{
}

/// Computes the FNV-1 fingerprint of a byte vector.
pub fn fnv1_hash(bytes: &Vec<u8>) -> (r: u64)
    ensures
        r == fnv1_of(bytes@),
        r < FNV_MODULUS,
{
    let mut h: u64 = FNV_OFFSET;
    let mut i: usize = 0;
    while i < bytes.len()
        invariant
            0 <= i <= bytes@.len(),
            h == fnv1_prefix(bytes@, i as int),
            h < FNV_MODULUS,
        decreases bytes@.len() - i,
    {
        let b = bytes[i];
        let x = h ^ (b as u64);
        assert(x < 0x1_0000_0000u64) by (bit_vector)
            requires
                h < 0x1_0000_0000u64,
                x == h ^ (b as u64),
                (b as u64) < 0x100u64,
        ;
        assert(x * FNV_PRIME < 0x1_0000_0000_0000_0000) by (nonlinear_arith)
            requires
                x < 0x1_0000_0000u64,
                FNV_PRIME == 16777619u64,
        ;
        h = (x * FNV_PRIME) % FNV_MODULUS;
        i = i + 1;
    }
    h
}

/// Computes the FNV-1 fingerprint of the UTF-8 encoding of a path string.
pub fn hash_path(dir: &str) -> (r: u64)
    ensures
        r == fnv1_of(dir.spec_bytes()),
        r < FNV_MODULUS,
{
    let bytes = dir.as_bytes_vec();
    fnv1_hash(&bytes)
}

} // verus!
