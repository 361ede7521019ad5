//! A min-priority queue of `(event_time, origin)` pairs, kept as a binary heap
//! in a vector. Its contents are modelled as a multiset of pairs.

use vstd::prelude::*;
use vstd::multiset::Multiset;
use vstd::seq_lib::*;

verus! {

/// An event: the time at which it is due, then the candidate it came from.
pub type Event = (u64, u64);

/// Pairs are ordered by time first, then by origin.
pub open spec fn event_le(a: Event, b: Event) -> bool {
    a.0 < b.0 || (a.0 == b.0 && a.1 <= b.1)
}

/// Every slot but the root is no smaller than its parent.
pub open spec fn heap_ordered(s: Seq<Event>) -> bool {
    forall|i: int| 1 <= i < s.len() ==> event_le(s[(i - 1) / 2], #[trigger] s[i])
}

/// `e` occurs in `m` and nothing in `m` is smaller.
pub open spec fn is_least(m: Multiset<Event>, e: Event) -> bool {
    m.count(e) > 0 && forall|x: Event| #[trigger] m.count(x) > 0 ==> event_le(e, x)
}

/// The root of an ordered heap is below every slot.
pub proof fn lemma_root_is_least(s: Seq<Event>, i: int)
    requires
        heap_ordered(s),
        0 <= i < s.len(),
    ensures
        event_le(s[0], s[i]),
    decreases i,
{
    if i > 0 {
        lemma_root_is_least(s, (i - 1) / 2);
    }
}

/// Exchanging two slots keeps the multiset of a sequence.
pub proof fn lemma_exchange_keeps_multiset(s: Seq<Event>, i: int, j: int)
    requires
        0 <= i < s.len(),
        0 <= j < s.len(),
    ensures
        s.update(i, s[j]).update(j, s[i]).to_multiset() == s.to_multiset(),
{
    broadcast use vstd::multiset::group_multiset_axioms;

    let m = s.to_multiset();
    let t = s.update(i, s[j]);
    s.to_multiset_ensures();
    assert(s.contains(s[i]) && s.contains(s[j]));
    to_multiset_update(s, i, s[j]);
    to_multiset_update(t, j, s[i]);
    assert(t[j] == s[j]);
    assert(t.update(j, s[i]).to_multiset() =~= m);
}

fn event_before(a: Event, b: Event) -> (r: bool)
    ensures
        r == event_le(a, b),
{
    a.0 < b.0 || (a.0 == b.0 && a.1 <= b.1)
}

fn exchange(slots: &mut Vec<Event>, i: usize, j: usize)
    requires
        i < old(slots).len(),
        j < old(slots).len(),
    ensures
        final(slots)@ == old(slots)@.update(i as int, old(slots)@[j as int]).update(
            j as int,
            old(slots)@[i as int],
        ),
        final(slots)@.to_multiset() == old(slots)@.to_multiset(),
        final(slots)@.len() == old(slots)@.len(),
{
    let a: Event = slots[i];
    let b: Event = slots[j];
    proof {
        lemma_exchange_keeps_multiset(slots@, i as int, j as int);
    }
    slots.set(i, b);
    slots.set(j, a);
}

/// A min-priority queue of events.
pub struct EventQueue {
    slots: Vec<Event>,
}

impl EventQueue {
    /// The events that the queue holds, each as often as it was pushed and not
    /// yet popped.
    pub closed spec fn view(&self) -> Multiset<Event> {
        self.slots@.to_multiset()
    }

    /// The heap order that every operation keeps.
    pub closed spec fn wf(&self) -> bool {
        heap_ordered(self.slots@)
    }

    pub fn new() -> (q: Self)
        ensures
            q.wf(),
            q@ == Multiset::<Event>::empty(),
    {
        let q = EventQueue { slots: Vec::new() };
        proof {
            q.slots@.to_multiset_ensures();
            assert(q.slots@.to_multiset() =~= Multiset::<Event>::empty());
        }
        q
    }

    pub fn len(&self) -> (n: usize)
        ensures
            n == self@.len(),
    {
        proof {
            self.slots@.to_multiset_ensures();
        }
        self.slots.len()
    }

    pub fn is_empty(&self) -> (r: bool)
        ensures
            r == (self@.len() == 0),
    {
        proof {
            self.slots@.to_multiset_ensures();
        }
        self.slots.len() == 0
    }

    /// The least event, if there is one; the queue is left as it was.
    pub fn peek(&self) -> (r: Option<Event>)
        requires
            self.wf(),
        ensures
            match r {
                None => self@.len() == 0,
                Some(e) => is_least(self@, e),
            },
    {
        proof {
            self.slots@.to_multiset_ensures();
        }
        if self.slots.len() == 0 {
            None
        } else {
            let e: Event = self.slots[0];
            proof {
                self.lemma_root_least_of_all();
            }
            Some(e)
        }
    }

    proof fn lemma_root_least_of_all(&self)
        requires
            self.wf(),
            self.slots@.len() > 0,
        ensures
            is_least(self@, self.slots@[0]),
    {
        let s = self.slots@;
        s.to_multiset_ensures();
        assert(s.contains(s[0]));
        assert forall|x: Event| s.to_multiset().count(x) > 0 implies event_le(s[0], x) by {
            assert(s.contains(x));
            let i = choose|i: int| 0 <= i < s.len() && s[i] == x;
            lemma_root_is_least(s, i);
        }
    }

    /// Adds one event.
    pub fn push(&mut self, e: Event)
        requires
            old(self).wf(),
        ensures
            final(self).wf(),
            final(self)@ == old(self)@.insert(e),
    {
        proof {
            self.slots@.to_multiset_ensures();
        }
        self.slots.push(e);
        let mut pos: usize = self.slots.len() - 1;
        while pos > 0
            invariant
                pos < self.slots@.len(),
                self.slots@.to_multiset() == old(self)@.insert(e),
                forall|i: int|
                    1 <= i < self.slots@.len() && i != pos ==> event_le(
                        self.slots@[(i - 1) / 2],
                        #[trigger] self.slots@[i],
                    ),
                forall|i: int|
                    1 <= i < self.slots@.len() && (i - 1) / 2 == pos && pos > 0 ==> event_le(
                        self.slots@[(pos - 1) / 2],
                        #[trigger] self.slots@[i],
                    ),
            ensures
                heap_ordered(self.slots@),
            decreases pos,
        {
            let parent: usize = (pos - 1) / 2;
            if event_before(self.slots[parent], self.slots[pos]) {
                break ;
            }
            exchange(&mut self.slots, parent, pos);
            pos = parent;
        }
    }

    /// Takes the least event out, if there is one.
    pub fn pop(&mut self) -> (r: Option<Event>)
        requires
            old(self).wf(),
        ensures
            final(self).wf(),
            match r {
                None => old(self)@.len() == 0 && final(self)@ == old(self)@,
                Some(e) => is_least(old(self)@, e) && final(self)@ == old(self)@.remove(e),
            },
    {
        proof {
            self.slots@.to_multiset_ensures();
        }
        if self.slots.len() == 0 {
            return None;
        }
        let top: Event = self.slots[0];
        let ghost before = self.slots@;
        proof {
            self.lemma_root_least_of_all();
        }
        let last: Event = self.slots.pop().unwrap();
        proof {
            assert(self.slots@ =~= before.remove(before.len() - 1));
            to_multiset_remove(before, before.len() - 1);
        }
        if self.slots.len() == 0 {
            return Some(top);
        }
        let ghost shorter = self.slots@;
        self.slots.set(0, last);
        proof {
            broadcast use vstd::multiset::group_multiset_axioms;

            to_multiset_update(shorter, 0, last);
            assert(before.contains(last));
            assert(self.slots@.to_multiset() =~= before.to_multiset().remove(top));
        }
        let n: usize = self.slots.len();
        let mut pos: usize = 0;
        while pos < n / 2
            invariant
                n == self.slots@.len(),
                pos < n,
                self.slots@.to_multiset() == old(self)@.remove(top),
                forall|i: int|
                    1 <= i < self.slots@.len() && (i - 1) / 2 != pos ==> event_le(
                        self.slots@[(i - 1) / 2],
                        #[trigger] self.slots@[i],
                    ),
                forall|i: int|
                    1 <= i < self.slots@.len() && (i - 1) / 2 == pos && pos > 0 ==> event_le(
                        self.slots@[(pos - 1) / 2],
                        #[trigger] self.slots@[i],
                    ),
            ensures
                heap_ordered(self.slots@),
            decreases n - pos,
        {
            let left: usize = 2 * pos + 1;
            let right: usize = left + 1;
            let mut child: usize = left;
            if right < n && !event_before(self.slots[left], self.slots[right]) {
                child = right;
            }
            if event_before(self.slots[pos], self.slots[child]) {
                break ;
            }
            exchange(&mut self.slots, pos, child);
            pos = child;
        }
        Some(top)
    }
}

} // verus!
