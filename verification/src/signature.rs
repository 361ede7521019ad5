//! The signature of a sequence of 64-bit values: five scalars that compress
//! it.

use std::collections::HashSet;
use vstd::prelude::*;
use vstd::seq_lib::*;

verus! {

/// The modulus of the sum.
pub const SIGNATURE_MODULUS: u64 = 999_999_937;

/// Five scalars of a sequence: its length, the number of distinct values, the
/// largest value, the distance from the smallest to the largest, and the sum
/// modulo a fixed prime.
#[derive(Debug, Clone, Copy, PartialEq, Eq, Structural)]
pub struct MorphogeneticSignature {
    pub delta: u64,
    pub nu: u64,
    pub phi: u64,
    pub rho: u64,
    pub omega: u64,
}

/// The sum of a sequence, without bound.
pub open spec fn seq_sum(s: Seq<u64>) -> int
    decreases s.len(),
{
    if s.len() == 0 {
        0
    } else {
        seq_sum(s.drop_last()) + s.last()
    }
}

/// The largest value of a sequence; 0 for the empty one.
pub open spec fn seq_max(s: Seq<u64>) -> u64
    decreases s.len(),
{
    if s.len() == 0 {
        0
    } else if s.last() > seq_max(s.drop_last()) {
        s.last()
    } else {
        seq_max(s.drop_last())
    }
}

/// The smallest value of a sequence; the largest 64-bit value for the empty
/// one.
pub open spec fn seq_min(s: Seq<u64>) -> u64
    decreases s.len(),
{
    if s.len() == 0 {
        u64::MAX
    } else if s.last() < seq_min(s.drop_last()) {
        s.last()
    } else {
        seq_min(s.drop_last())
    }
}

/// The signature of a sequence. The empty sequence has the all-zero one.
pub open spec fn signature_of(s: Seq<u64>) -> MorphogeneticSignature {
    if s.len() == 0 {
        MorphogeneticSignature { delta: 0, nu: 0, phi: 0, rho: 0, omega: 0 }
    } else {
        MorphogeneticSignature {
            delta: s.len() as u64,
            nu: s.to_set().len() as u64,
            phi: seq_max(s),
            rho: (seq_max(s) - seq_min(s)) as u64,
            omega: (seq_sum(s) % (SIGNATURE_MODULUS as int)) as u64,
        }
    }
}

/// The largest value is in the sequence and bounds it from above; the
/// smallest likewise from below.
pub proof fn lemma_extremes(s: Seq<u64>)
    requires
        s.len() > 0,
    ensures
        s.contains(seq_max(s)),
        s.contains(seq_min(s)),
        forall|k: int| 0 <= k < s.len() ==> seq_min(s) <= #[trigger] s[k] <= seq_max(s),
    decreases s.len(),
{
    let t = s.drop_last();
    let end = s.len() - 1;
    assert(s[end] == s.last());
    if t.len() > 0 {
        lemma_extremes(t);
        let i = choose|i: int| 0 <= i < t.len() && t[i] == seq_max(t);
        let j = choose|j: int| 0 <= j < t.len() && t[j] == seq_min(t);
        assert(s[i] == t[i] && s[j] == t[j]);
        assert(s[i] == seq_max(s) || s[end] == seq_max(s));
        assert(s[j] == seq_min(s) || s[end] == seq_min(s));
        assert forall|k: int| 0 <= k < s.len() implies seq_min(s) <= #[trigger] s[k] <= seq_max(
            s,
        ) by {
            if k < t.len() {
                assert(s[k] == t[k]);
            }
        }
    } else {
        assert(s[end] == seq_max(s));
        assert(s[end] == seq_min(s));
    }
}

/// The signature of the empty sequence is all zero.
pub proof fn lemma_signature_of_empty()
    ensures
        signature_of(Seq::<u64>::empty()) == (MorphogeneticSignature {
            delta: 0,
            nu: 0,
            phi: 0,
            rho: 0,
            omega: 0,
        }),
{
}

/// A sequence whose values are all equal has range 0 and one distinct value.
pub proof fn lemma_signature_of_constant(s: Seq<u64>)
    requires
        s.len() > 0,
        forall|j: int, k: int| 0 <= j < s.len() && 0 <= k < s.len() ==> s[j] == s[k],
    ensures
        signature_of(s).rho == 0,
        signature_of(s).nu == 1,
        signature_of(s).phi == s[0],
{
    lemma_extremes(s);
    assert(s.to_set() =~= set![s[0]]) by {
        assert forall|x: u64| s.to_set().contains(x) <==> set![s[0]].contains(x) by {
            if s.contains(x) {
                let k = choose|k: int| 0 <= k < s.len() && s[k] == x;
                assert(s[k] == s[0]);
            }
            if x == s[0] {
                assert(s.contains(s[0]));
            }
        }
    }
    assert(set![s[0]].len() == 1) by {
        broadcast use vstd::set::group_set_axioms;

    }
}

/// Computes the signature of `prom`.
pub fn calculate_signature(prom: &[u64]) -> (sig: MorphogeneticSignature)
    ensures
        sig == signature_of(prom@),
{
    broadcast use vstd::std_specs::hash::group_hash_axioms;

    let n: usize = prom.len();
    if n == 0 {
        return MorphogeneticSignature { delta: 0, nu: 0, phi: 0, rho: 0, omega: 0 };
    }
    let mut seen: HashSet<u64> = HashSet::new();
    let mut hi: u64 = 0;
    let mut lo: u64 = u64::MAX;
    let mut total: u128 = 0;
    let mut i: usize = 0;
    while i < n
        invariant
            n == prom@.len(),
            i <= n,
            seen@ == prom@.take(i as int).to_set(),
            hi == seq_max(prom@.take(i as int)),
            lo == seq_min(prom@.take(i as int)),
            total == seq_sum(prom@.take(i as int)),
            total <= i * 0xffff_ffff_ffff_ffff,
        decreases n - i,
    {
        let v: u64 = prom[i];
        proof {
            let next = prom@.take(i + 1);
            assert(next.drop_last() =~= prom@.take(i as int));
            assert(next =~= prom@.take(i as int).push(v));
            prom@.take(i as int).lemma_push_to_set_commute(v);
        }
        seen.insert(v);
        if v > hi {
            hi = v;
        }
        if v < lo {
            lo = v;
        }
        total = total + v as u128;
        i += 1;
    }
    proof {
        assert(prom@.take(n as int) =~= prom@);
        lemma_extremes(prom@);
    }
    MorphogeneticSignature {
        delta: n as u64,
        nu: seen.len() as u64,
        phi: hi,
        rho: hi - lo,
        omega: (total % SIGNATURE_MODULUS as u128) as u64,
    }
}

} // verus!
