//! The promoter engine: an event simulation that, from a seed and a number of
//! steps, yields the candidates that no pending event was due for.

use crate::queue::{Event, EventQueue};
use vstd::multiset::Multiset;
use vstd::prelude::*;
use vstd::seq_lib::*;

verus! {

/// The largest number of steps for which every candidate and every divisor
/// of the simulation fits in 64 bits.
pub const MAX_ITERATIONS: u64 = 0x7fff_ffff_ffff_ffff;

/// The number of steps of the run behind every fingerprint and every trace.
pub const N_ITERATIONS: u64 = 1_000_000;

/// Addition that stops at the largest 64-bit value.
pub open spec fn sat_add(a: u64, b: u64) -> u64 {
    if a + b > u64::MAX {
        u64::MAX
    } else {
        (a + b) as u64
    }
}

/// Multiplication that stops at the largest 64-bit value.
pub open spec fn sat_mul(a: u64, b: u64) -> u64 {
    if a * b > u64::MAX {
        u64::MAX
    } else {
        (a * b) as u64
    }
}

/// The candidate that step `step` looks at.
pub open spec fn candidate_at(step: u64) -> u64 {
    (step + 2) as u64
}

/// The time of the event that a promoted candidate schedules.
pub open spec fn promotion_time(seed: u64, candidate: u64) -> u64
    recommends
        candidate > 0,
{
    sat_add(sat_mul(candidate, candidate), (seed % candidate) as u64)
}

/// The new time of an event that was due at `candidate` in step `step`.
pub open spec fn reschedule_time(seed: u64, candidate: u64, origin: u64, step: u64) -> u64 {
    sat_add(sat_add(candidate, origin), (seed as int % (origin + step + 1)) as u64)
}

/// A candidate is promoted when no event is pending, or the earliest pending
/// event lies after it.
pub open spec fn promotes(pending: Seq<Event>, candidate: u64) -> bool {
    forall|k: int| 0 <= k < pending.len() ==> (#[trigger] pending[k]).0 > candidate
}

/// What one event becomes in a step that promotes nothing.
pub open spec fn rescheduled(seed: u64, step: u64, e: Event) -> Event {
    if e.0 == candidate_at(step) {
        (reschedule_time(seed, candidate_at(step), e.1, step), e.1)
    } else {
        e
    }
}

/// One step on the pending events, listed in the order of their promotion:
/// either the candidate is promoted and schedules an event of its own, or
/// every event due at the candidate is rescheduled.
pub open spec fn step_events(seed: u64, step: u64, pending: Seq<Event>) -> Seq<Event> {
    if promotes(pending, candidate_at(step)) {
        pending.push((promotion_time(seed, candidate_at(step)), candidate_at(step)))
    } else {
        Seq::new(pending.len(), |k: int| rescheduled(seed, step, pending[k]))
    }
}

/// The pending events after `steps` steps from the empty queue.
pub open spec fn events_after(seed: u64, steps: nat) -> Seq<Event>
    decreases steps,
{
    if steps == 0 {
        Seq::empty()
    } else {
        step_events(seed, (steps - 1) as u64, events_after(seed, (steps - 1) as nat))
    }
}

/// The origins of a sequence of events.
pub open spec fn origins(events: Seq<Event>) -> Seq<u64> {
    Seq::new(events.len(), |k: int| events[k].1)
}

/// The promoted candidates of a run, in the order of their promotion.
pub open spec fn promoters(seed: u64, iterations: u64) -> Seq<u64> {
    origins(events_after(seed, iterations as nat))
}

/// How many events of `s` are due at `candidate`.
pub open spec fn due_count(s: Seq<Event>, candidate: u64) -> nat
    decreases s.len(),
{
    if s.len() == 0 {
        0
    } else {
        due_count(s.drop_last(), candidate) + if s.last().0 == candidate {
            1nat
        } else {
            0nat
        }
    }
}

proof fn lemma_due_count_update(s: Seq<Event>, k: int, e: Event, candidate: u64)
    requires
        0 <= k < s.len(),
        s[k].0 == candidate,
        e.0 != candidate,
    ensures
        due_count(s.update(k, e), candidate) + 1 == due_count(s, candidate),
    decreases s.len(),
{
    let t = s.update(k, e);
    if k == s.len() - 1 {
        assert(t.drop_last() =~= s.drop_last());
    } else {
        assert(t.drop_last() =~= s.drop_last().update(k, e));
        lemma_due_count_update(s.drop_last(), k, e, candidate);
    }
}

/// A step keeps the events before it in place, with their origins, and adds
/// at most one.
pub proof fn lemma_step_keeps_origins(seed: u64, step: u64, pending: Seq<Event>)
    ensures
        pending.len() <= step_events(seed, step, pending).len() <= pending.len() + 1,
        forall|k: int|
            0 <= k < pending.len() ==> (#[trigger] step_events(seed, step, pending)[k]).1
                == pending[k].1,
        step_events(seed, step, pending).len() == pending.len() + 1 ==> step_events(
            seed,
            step,
            pending,
        ).last().1 == candidate_at(step),
{
}

/// A run promotes no more candidates than it has steps, every promoted
/// candidate is at least 2 and below the next candidate, and they come in
/// increasing order.
pub proof fn lemma_promoters_bounded(seed: u64, iterations: u64)
    requires
        iterations <= MAX_ITERATIONS,
    ensures
        promoters(seed, iterations).len() <= iterations,
        forall|k: int|
            0 <= k < promoters(seed, iterations).len() ==> 2 <= #[trigger] promoters(
                seed,
                iterations,
            )[k] < iterations + 2,
        forall|j: int, k: int|
            0 <= j < k < promoters(seed, iterations).len() ==> promoters(seed, iterations)[j]
                < promoters(seed, iterations)[k],
    decreases iterations,
{
    if iterations > 0 {
        let before = (iterations - 1) as u64;
        lemma_promoters_bounded(seed, before);
        lemma_step_keeps_origins(seed, before, events_after(seed, before as nat));
        let p = promoters(seed, before);
        let q = promoters(seed, iterations);
        assert forall|k: int| 0 <= k < q.len() implies 2 <= #[trigger] q[k] < iterations + 2 by {
            if k < p.len() {
                assert(q[k] == p[k]);
            }
        }
        assert forall|j: int, k: int| 0 <= j < k < q.len() implies q[j] < q[k] by {
            assert(q[j] == p[j]);
            if k < p.len() {
                assert(q[k] == p[k]);
            }
        }
    }
}

/// After any number of steps every pending event is due at the next
/// candidate or later, and its origin is a candidate that was looked at
/// before: no event is ever overdue, and no divisor is ever zero.
pub proof fn lemma_events_not_overdue(seed: u64, steps: u64)
    requires
        steps <= MAX_ITERATIONS,
    ensures
        forall|k: int|
            0 <= k < events_after(seed, steps as nat).len() ==> (#[trigger] events_after(
                seed,
                steps as nat,
            )[k]).0 >= steps + 2 && 2 <= events_after(seed, steps as nat)[k].1 < steps + 2,
    decreases steps,
{
    if steps > 0 {
        let before = (steps - 1) as u64;
        let c = candidate_at(before);
        let p = events_after(seed, before as nat);
        let q = events_after(seed, steps as nat);
        lemma_events_not_overdue(seed, before);
        assert(q == step_events(seed, before, p));
        assert(sat_mul(c, c) > c) by (nonlinear_arith)
            requires
                2 <= c < u64::MAX,
                sat_mul(c, c) == if c * c > u64::MAX {
                    u64::MAX
                } else {
                    (c * c) as u64
                },
        ;
        assert forall|k: int| 0 <= k < q.len() implies (#[trigger] q[k]).0 >= steps + 2 && 2
            <= q[k].1 < steps + 2 by {
            if promotes(p, c) {
                if k < p.len() {
                    assert(q[k] == p[k]);
                }
            } else {
                assert(q[k] == rescheduled(seed, before, p[k]));
            }
        }
    }
}

/// The first promoted candidate of every run of at least one step is 2.
pub proof fn lemma_first_promoter_is_two(seed: u64, iterations: u64)
    requires
        iterations >= 1,
    ensures
        promoters(seed, iterations).len() >= 1,
        promoters(seed, iterations)[0] == 2,
    decreases iterations,
{
    let before = (iterations - 1) as u64;
    lemma_step_keeps_origins(seed, before, events_after(seed, before as nat));
    if iterations == 1 {
        assert(events_after(seed, 0) =~= Seq::<Event>::empty());
        assert(promotes(events_after(seed, 0), candidate_at(0)));
    } else {
        lemma_first_promoter_is_two(seed, before);
    }
}

/// Two runs with the same seed and the same number of steps promote the same
/// candidates in the same order.
pub proof fn lemma_engine_deterministic(seed_a: u64, steps_a: u64, seed_b: u64, steps_b: u64)
    requires
        seed_a == seed_b,
        steps_a == steps_b,
    ensures
        promoters(seed_a, steps_a) == promoters(seed_b, steps_b),
{
}

fn saturating_square(c: u64) -> (r: u64)
    ensures
        r == sat_mul(c, c),
{
    match c.checked_mul(c) {
        Some(v) => v,
        None => u64::MAX,
    }
}

/// Runs the simulation for `iterations` steps and returns the promoted
/// candidates in the order of their promotion. The result depends on the
/// seed and the number of steps alone; it is increasing, no longer than the
/// number of steps, and begins with 2 unless there is no step at all.
pub fn sga_engine(seed: u64, iterations: u64) -> (out: Vec<u64>)
    requires
        iterations <= MAX_ITERATIONS,
    ensures
        out@ == promoters(seed, iterations),
        out@.len() <= iterations,
        iterations >= 1 ==> out@.len() >= 1 && out@[0] == 2,
        forall|j: int, k: int| 0 <= j < k < out@.len() ==> out@[j] < out@[k],
{
    let mut promoted: Vec<u64> = Vec::new();
    let mut queue = EventQueue::new();
    let mut current: u64 = 2;
    let mut i: u64 = 0;
    let ghost mut pending: Seq<Event> = Seq::empty();
    proof {
        pending.to_multiset_ensures();
        assert(pending.to_multiset() =~= Multiset::<Event>::empty());
    }
    while i < iterations
        invariant
            i <= iterations <= MAX_ITERATIONS,
            current == i + 2,
            queue.wf(),
            queue@ == pending.to_multiset(),
            pending == events_after(seed, i as nat),
            promoted@.len() == pending.len(),
            forall|k: int| 0 <= k < pending.len() ==> promoted@[k] == (#[trigger] pending[k]).1,
            forall|k: int|
                0 <= k < pending.len() ==> (#[trigger] pending[k]).0 >= current && 2
                    <= pending[k].1 < current,
        decreases iterations - i,
    {
        let ghost start = pending;
        let head = queue.peek();
        let promote = match head {
            None => true,
            Some(e) => current < e.0,
        };
        proof {
            to_multiset_len(pending);
            if promote {
                assert forall|k: int| 0 <= k < pending.len() implies (#[trigger] pending[k]).0
                    > current by {
                    to_multiset_contains(pending, pending[k]);
                    assert(pending.contains(pending[k]));
                }
            } else {
                let e = head.unwrap();
                to_multiset_contains(pending, e);
                assert(pending.contains(e));
            }
            assert(promote == promotes(pending, current));
        }
        if promote {
            promoted.push(current);
            let job = saturating_square(current).saturating_add(seed % current);
            queue.push((job, current));
            proof {
                pending = pending.push((job, current));
                start.to_multiset_ensures();
                assert(sat_mul(current, current) > current) by (nonlinear_arith)
                    requires
                        2 <= current,
                        sat_mul(current, current) == if current * current > u64::MAX {
                            u64::MAX
                        } else {
                            (current * current) as u64
                        },
                        current < u64::MAX,
                ;
            }
        } else {
            loop
                invariant
                    i < iterations <= MAX_ITERATIONS,
                    current == i + 2,
                    queue.wf(),
                    queue@ == pending.to_multiset(),
                    pending.len() == start.len(),
                    promoted@.len() == start.len(),
                    forall|k: int|
                        0 <= k < start.len() ==> promoted@[k] == (#[trigger] start[k]).1,
                    forall|k: int|
                        0 <= k < start.len() ==> (#[trigger] start[k]).0 >= current && 2
                            <= start[k].1 < current,
                    forall|k: int|
                        0 <= k < start.len() ==> (#[trigger] pending[k]) == start[k] || (
                        start[k].0 == current && pending[k] == rescheduled(seed, i, start[k])),
                    forall|k: int| 0 <= k < start.len() ==> (#[trigger] pending[k]).0 >= current,
                ensures
                    pending.len() == start.len(),
                    queue.wf(),
                    queue@ == pending.to_multiset(),
                    forall|k: int|
                        0 <= k < start.len() ==> (#[trigger] pending[k]) == rescheduled(
                            seed,
                            i,
                            start[k],
                        ),
                decreases due_count(pending, current),
            {
                let next = queue.peek();
                let due = match next {
                    None => false,
                    Some(e) => e.0 == current,
                };
                if !due {
                    proof {
                        to_multiset_len(pending);
                        assert forall|k: int| 0 <= k < start.len() implies (
                        #[trigger] pending[k]) == rescheduled(seed, i, start[k]) by {
                            to_multiset_contains(pending, pending[k]);
                            to_multiset_contains(pending, next.unwrap());
                            assert(pending.contains(pending[k]));
                            assert(pending.contains(next.unwrap()));
                            assert(pending[k].0 > current);
                        }
                    }
                    break ;
                }
                let popped = queue.pop();
                let e: Event = popped.unwrap();
                proof {
                    to_multiset_contains(pending, e);
                    to_multiset_contains(pending, next.unwrap());
                    assert(pending.contains(e));
                    assert(e.0 == current);
                }
                let ghost k = choose|k: int| 0 <= k < pending.len() && pending[k] == e;
                let prom: u64 = e.1;
                let nxt = current.saturating_add(prom).saturating_add(seed % (prom + i + 1));
                queue.push((nxt, prom));
                proof {
                    broadcast use vstd::multiset::group_multiset_axioms;

                    assert(pending[k] == start[k]);
                    to_multiset_update(pending, k, (nxt, prom));
                    lemma_due_count_update(pending, k, (nxt, prom), current);
                    assert(pending.update(k, (nxt, prom)).to_multiset() =~= pending.to_multiset().remove(
                        e,
                    ).insert((nxt, prom)));
                    pending = pending.update(k, (nxt, prom));
                }
            }
        }
        proof {
            assert(pending =~= step_events(seed, i, start));
        }
        current += 1;
        i += 1;
    }
    proof {
        assert(promoted@ =~= promoters(seed, iterations));
        lemma_promoters_bounded(seed, iterations);
        if iterations >= 1 {
            lemma_first_promoter_is_two(seed, iterations);
        }
    }
    promoted
}

} // verus!
