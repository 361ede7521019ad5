//! The fingerprint: a 512-bit digest, in hex, of the last promoted
//! candidates of a run and of the signature of the whole run.

use crate::engine::{promoters, sga_engine, N_ITERATIONS};
use crate::primitives::{hex_text, is_lower_hex, sha512, sha512_of, to_hex};
use crate::seed::{derive_digest_seed, digest_seed_of};
use crate::signature::{calculate_signature, signature_of, MorphogeneticSignature};
use vstd::prelude::*;

verus! {

/// The number of candidates that enter the preimage.
pub const FINAL_PROM_CNT: usize = 32;

/// The values that fill up a run with too few promoted candidates, taken in
/// turn.
pub open spec fn filler(k: int) -> u64 {
    if k % 4 == 0 {
        2
    } else if k % 4 == 1 {
        3
    } else if k % 4 == 2 {
        5
    } else {
        7
    }
}

/// The last 32 promoted candidates, the latest first, filled up where there
/// are fewer.
pub open spec fn final_promoters(prom: Seq<u64>) -> Seq<u64> {
    Seq::new(
        32,
        |j: int|
            if j < prom.len() {
                prom[prom.len() - 1 - j]
            } else {
                filler(j - prom.len())
            },
    )
}

/// The decimal digits of a number, in ASCII, without leading zeros.
pub open spec fn decimal(n: nat) -> Seq<u8>
    decreases n,
{
    if n < 10 {
        seq![(48 + n) as u8]
    } else {
        decimal(n / 10).push((48 + n % 10) as u8)
    }
}

/// The decimal forms of the values, separated by commas.
pub open spec fn joined(values: Seq<u64>) -> Seq<u8>
    decreases values.len(),
{
    if values.len() == 0 {
        Seq::empty()
    } else if values.len() == 1 {
        decimal(values[0] as nat)
    } else {
        joined(values.drop_last()).push(44u8) + decimal(values.last() as nat)
    }
}

/// The five scalars of a signature, in the order in which they are written.
pub open spec fn scalars(sig: MorphogeneticSignature) -> Seq<u64> {
    seq![sig.delta, sig.nu, sig.phi, sig.rho, sig.omega]
}

/// The text that is hashed: the final candidates, a colon, the signature.
pub open spec fn preimage_of(prom: Seq<u64>) -> Seq<u8> {
    joined(final_promoters(prom)).push(58u8) + joined(scalars(signature_of(prom)))
}

/// The fingerprint of a run's promoted candidates.
pub open spec fn fingerprint_of(prom: Seq<u64>) -> Seq<char> {
    hex_text(sha512_of(preimage_of(prom)))
}

/// The fingerprint of a byte sequence.
pub open spec fn digest_of(data: Seq<u8>) -> Seq<char> {
    fingerprint_of(promoters(digest_seed_of(data), N_ITERATIONS))
}

/// The same bytes have the same fingerprint.
pub proof fn lemma_digest_deterministic(a: Seq<u8>, b: Seq<u8>)
    requires
        a =~= b,
    ensures
        digest_of(a) == digest_of(b),
{
}

fn filler_value(k: usize) -> (v: u64)
    ensures
        v == filler(k as int),
{
    let r: usize = k % 4;
    if r == 0 {
        2
    } else if r == 1 {
        3
    } else if r == 2 {
        5
    } else {
        7
    }
}

/// Collects the last 32 promoted candidates, the latest first, and fills up
/// where there are fewer.
pub fn collect_final_promoters(prom: &[u64]) -> (out: Vec<u64>)
    ensures
        out@ == final_promoters(prom@),
{
    let n: usize = prom.len();
    let mut out: Vec<u64> = Vec::new();
    let mut j: usize = 0;
    while j < FINAL_PROM_CNT
        invariant
            n == prom@.len(),
            j <= 32,
            out@.len() == j,
            forall|k: int| 0 <= k < j ==> out@[k] == final_promoters(prom@)[k],
        decreases 32 - j,
    {
        if j < n {
            out.push(prom[n - 1 - j]);
        } else {
            out.push(filler_value(j - n));
        }
        j += 1;
    }
    proof {
        assert(out@ =~= final_promoters(prom@));
    }
    out
}

fn push_decimal(out: &mut Vec<u8>, n: u64)
    ensures
        final(out)@ == old(out)@ + decimal(n as nat),
    decreases n,
{
    if n < 10 {
        out.push(48u8 + n as u8);
        proof {
            assert(final(out)@ =~= old(out)@ + decimal(n as nat));
        }
    } else {
        push_decimal(out, n / 10);
        let d: u8 = (n % 10) as u8;
        out.push(48u8 + d);
        proof {
            assert(final(out)@ =~= old(out)@ + decimal(n as nat));
        }
    }
}

fn push_joined(out: &mut Vec<u8>, values: &[u64])
    ensures
        final(out)@ == old(out)@ + joined(values@),
{
    let mut i: usize = 0;
    while i < values.len()
        invariant
            i <= values@.len(),
            out@ == old(out)@ + joined(values@.take(i as int)),
        decreases values@.len() - i,
    {
        let ghost before = out@;
        if i > 0 {
            out.push(44u8);
        }
        push_decimal(out, values[i]);
        proof {
            let next = values@.take(i + 1);
            assert(next.drop_last() =~= values@.take(i as int));
            assert(next.last() == values@[i as int]);
            assert(out@ =~= old(out)@ + joined(next));
        }
        i += 1;
    }
    proof {
        assert(values@.take(i as int) =~= values@);
    }
}

/// Writes the text that is hashed for a run's promoted candidates.
pub fn preimage(prom: &[u64]) -> (out: Vec<u8>)
    ensures
        out@ == preimage_of(prom@),
{
    let tail = collect_final_promoters(prom);
    let sig = calculate_signature(prom);
    let mut five: Vec<u64> = Vec::new();
    five.push(sig.delta);
    five.push(sig.nu);
    five.push(sig.phi);
    five.push(sig.rho);
    five.push(sig.omega);
    let mut out: Vec<u8> = Vec::new();
    push_joined(&mut out, tail.as_slice());
    out.push(58u8);
    push_joined(&mut out, five.as_slice());
    proof {
        assert(five@ =~= scalars(signature_of(prom@)));
        assert(out@ =~= preimage_of(prom@));
    }
    out
}

/// The fingerprint of a run's promoted candidates: 128 lowercase hex digits.
pub fn fingerprint(prom: &[u64]) -> (out: String)
    ensures
        out@ == fingerprint_of(prom@),
        out@.len() == 128,
        forall|i: int| 0 <= i < 128 ==> is_lower_hex(#[trigger] out@[i]),
{
    let text = preimage(prom);
    let hash = sha512(text.as_slice());
    to_hex(hash.as_slice())
}

/// The fingerprint of `data`: 128 lowercase hex digits, the same for the same
/// bytes. The empty input has one as well.
pub fn p_hash(data: &[u8]) -> (out: String)
    ensures
        out@ == digest_of(data@),
        out@.len() == 128,
        forall|i: int| 0 <= i < 128 ==> is_lower_hex(#[trigger] out@[i]),
{
    let seed = derive_digest_seed(data);
    let promoted = sga_engine(seed, N_ITERATIONS);
    fingerprint(promoted.as_slice())
}

} // verus!
