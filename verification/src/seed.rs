//! Seed derivation: bytes are mapped through a fixed table of small primes,
//! salted, and folded into one 64-bit seed.

use vstd::prelude::*;

verus! {

/// The primes below 1000, in increasing order.
pub const PRIME_TABLE: [u64; 168] = [
    2, 3, 5, 7, 11, 13, 17, 19, 23, 29, 31, 37, 41, 43, 47, 53, 59, 61, 67, 71, 73, 79, 83, 89, 97,
    101, 103, 107, 109, 113, 127, 131, 137, 139, 149, 151, 157, 163, 167, 173, 179, 181, 191, 193,
    197, 199, 211, 223, 227, 229, 233, 239, 241, 251, 257, 263, 269, 271, 277, 281, 283, 293, 307,
    311, 313, 317, 331, 337, 347, 349, 353, 359, 367, 373, 379, 383, 389, 397, 401, 409, 419, 421,
    431, 433, 439, 443, 449, 457, 461, 463, 467, 479, 487, 491, 499, 503, 509, 521, 523, 541, 547,
    557, 563, 569, 571, 577, 587, 593, 599, 601, 607, 613, 617, 619, 631, 641, 643, 647, 653, 659,
    661, 673, 677, 683, 691, 701, 709, 719, 727, 733, 739, 743, 751, 757, 761, 769, 773, 787, 797,
    809, 811, 821, 823, 827, 829, 839, 853, 857, 859, 863, 877, 881, 883, 887, 907, 911, 919, 929,
    937, 941, 947, 953, 967, 971, 977, 983, 991, 997,
];

/// The factor by which every table value is multiplied.
pub const SALT: u64 = 32718;

/// The modulus of the fold.
pub const SEED_MODULUS: u64 = 1_000_000_007;

/// The table value that stands in for an empty input.
pub const SENTINEL: u64 = 2;

/// The salted table value of a byte.
pub open spec fn salted_prime(b: u8) -> int {
    PRIME_TABLE@[b as int % 168] * SALT
}

/// One step of the fold.
pub open spec fn fold_step(seed: u64, value: int) -> u64 {
    ((seed * 31 + value) % (SEED_MODULUS as int)) as u64
}

/// The seed of a byte sequence: the fold over its salted table values,
/// starting from 1.
pub open spec fn seed_of(bytes: Seq<u8>) -> u64
    decreases bytes.len(),
{
    if bytes.len() == 0 {
        1
    } else {
        fold_step(seed_of(bytes.drop_last()), salted_prime(bytes.last()))
    }
}

/// The seed of the fingerprint: an empty input counts as the sentinel alone.
pub open spec fn digest_seed_of(bytes: Seq<u8>) -> u64 {
    if bytes.len() == 0 {
        fold_step(1, SENTINEL * SALT)
    } else {
        seed_of(bytes)
    }
}

/// The same bytes give the same seed.
pub proof fn lemma_seed_deterministic(a: Seq<u8>, b: Seq<u8>)
    requires
        a =~= b,
    ensures
        seed_of(a) == seed_of(b),
        digest_seed_of(a) == digest_seed_of(b),
{
}

/// Every table value lies between 2 and 997.
pub proof fn lemma_table_bounds()
    ensures
        forall|k: int| 0 <= k < 168 ==> 2 <= #[trigger] PRIME_TABLE@[k] <= 997,
{
}

fn table_value(b: u8) -> (v: u64)
    ensures
        v == PRIME_TABLE@[b as int % 168],
        2 <= v <= 997,
{
    let idx: usize = (b % 168) as usize;
    proof {
        lemma_table_bounds();
    }
    PRIME_TABLE[idx]
}

fn fold(seed: u64, value: u64) -> (r: u64)
    requires
        seed < SEED_MODULUS,
        value <= 997 * SALT,
    ensures
        r == fold_step(seed, value as int),
        r < SEED_MODULUS,
{
    (seed * 31 + value) % SEED_MODULUS
}

/// Folds the salted table values of `bytes` into a seed.
pub fn derive_seed(bytes: &[u8]) -> (seed: u64)
    ensures
        seed == seed_of(bytes@),
        seed < SEED_MODULUS,
{
    let mut seed: u64 = 1;
    let mut i: usize = 0;
    while i < bytes.len()
        invariant
            i <= bytes@.len(),
            seed == seed_of(bytes@.take(i as int)),
            seed < SEED_MODULUS,
        decreases bytes@.len() - i,
    {
        let v: u64 = table_value(bytes[i]) * SALT;
        proof {
            assert(bytes@.take(i + 1).drop_last() =~= bytes@.take(i as int));
        }
        seed = fold(seed, v);
        i += 1;
    }
    proof {
        assert(bytes@.take(i as int) =~= bytes@);
    }
    seed
}

/// The seed of the fingerprint of `bytes`.
pub fn derive_digest_seed(bytes: &[u8]) -> (seed: u64)
    ensures
        seed == digest_seed_of(bytes@),
        seed < SEED_MODULUS,
{
    if bytes.len() == 0 {
        fold(1, SENTINEL * SALT)
    } else {
        derive_seed(bytes)
    }
}

} // verus!
