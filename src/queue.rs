//! The reduction queue: candidates waiting for a worker, highest priority
//! first, equal priorities in insertion order.
use crate::test_case::{Potential, ReducerId};
use vstd::prelude::*;

verus! {

/// One queued candidate, the reducer that produced it, and its priority
/// (higher is served first).
#[derive(Clone, Copy, Debug, PartialEq, Eq, Structural)]
pub struct QueueEntry {
    pub potential: Potential,
    pub reducer: ReducerId,
    pub priority: u64,
}

/// Entries in serving order: priorities never increase along the sequence.
pub open spec fn priority_ordered(s: Seq<QueueEntry>) -> bool {
    forall|i: int, j: int| 0 <= i < j < s.len() ==> s[i].priority >= s[j].priority
}

/// Where an entry of priority `p` goes: after every entry of priority `p` or
/// higher, before every entry of lower priority.
pub open spec fn insertion_point(s: Seq<QueueEntry>, p: u64) -> int
    decreases s.len(),
{
    if s.len() == 0 {
        0
    } else if s.last().priority >= p {
        s.len() as int
    } else {
        insertion_point(s.drop_last(), p)
    }
}

pub proof fn lemma_insertion_point_bounds(s: Seq<QueueEntry>, p: u64)
    ensures
        0 <= insertion_point(s, p) <= s.len(),
    decreases s.len(),
{
    if s.len() > 0 {
        lemma_insertion_point_bounds(s.drop_last(), p);
    }
}

/// The entries of `s` whose candidate is smaller than `bound`, in order.
pub open spec fn entries_below(s: Seq<QueueEntry>, bound: u64) -> Seq<QueueEntry>
    decreases s.len(),
{
    if s.len() == 0 {
        s
    } else if s.last().potential.size < bound {
        entries_below(s.drop_last(), bound).push(s.last())
    } else {
        entries_below(s.drop_last(), bound)
    }
}

/// The entries of `s` whose candidate is `bound` bytes or larger, in order.
pub open spec fn entries_not_below(s: Seq<QueueEntry>, bound: u64) -> Seq<QueueEntry>
    decreases s.len(),
{
    if s.len() == 0 {
        s
    } else if s.last().potential.size >= bound {
        entries_not_below(s.drop_last(), bound).push(s.last())
    } else {
        entries_not_below(s.drop_last(), bound)
    }
}

/// A priority queue of candidates whose order among equal priorities is the
/// order of insertion.
pub struct ReductionQueue {
    entries: Vec<QueueEntry>,
}

impl View for ReductionQueue {
    type V = Seq<QueueEntry>;

    closed spec fn view(&self) -> Seq<QueueEntry> {
        self.entries@
    }
}

impl ReductionQueue {
    /// The queue's invariant: entries are kept in serving order.
    pub open spec fn wf(&self) -> bool {
        priority_ordered(self@)
    }

    /// An empty queue with room for `capacity` entries.
    pub fn with_capacity(capacity: usize) -> (r: Self)
        ensures
            r.wf(),
            r@ == Seq::<QueueEntry>::empty(),
    {
        ReductionQueue { entries: Vec::with_capacity(capacity) }
    }

    pub fn len(&self) -> (r: usize)
        ensures
            r == self@.len(),
    {
        self.entries.len()
    }

    pub fn is_empty(&self) -> (r: bool)
        ensures
            r == (self@.len() == 0),
    {
        self.entries.len() == 0
    }

    /// Queue `entry` behind every entry of equal or higher priority.
    pub fn insert(&mut self, entry: QueueEntry)
        requires
            old(self).wf(),
        ensures
            final(self).wf(),
            final(self)@ == old(self)@.insert(insertion_point(old(self)@, entry.priority), entry),
    {
        let ghost s = self@;
        let mut i: usize = self.entries.len();
        assert(s.take(i as int) == s);
        while i > 0 && self.entries[i - 1].priority < entry.priority
            invariant
                i <= s.len(),
                self@ == s,
                priority_ordered(s),
                insertion_point(s, entry.priority) == insertion_point(s.take(i as int), entry.priority),
                forall|j: int| i <= j < s.len() ==> s[j].priority < entry.priority,
            decreases i,
        {
            assert(s.take(i as int).drop_last() == s.take(i - 1));
            assert(s.take(i as int).last() == s[i - 1]);
            i = i - 1;
        }
        proof {
            if i > 0 {
                assert(s.take(i as int).last() == s[i - 1]);
            }
            assert(insertion_point(s.take(i as int), entry.priority) == i as int);
        }
        self.entries.insert(i, entry);
    }

    /// Take the first `k` entries off the queue, in serving order.
    pub fn drain(&mut self, k: usize) -> (r: Vec<QueueEntry>)
        requires
            old(self).wf(),
            k <= old(self)@.len(),
        ensures
            final(self).wf(),
            r@ == old(self)@.take(k as int),
            final(self)@ == old(self)@.skip(k as int),
    {
        let ghost s = self@;
        let mut r: Vec<QueueEntry> = Vec::with_capacity(k);
        let mut rest: Vec<QueueEntry> = Vec::with_capacity(self.entries.len() - k);
        let mut i: usize = 0;
        while i < self.entries.len()
            invariant
                self@ == s,
                k <= s.len(),
                i <= s.len(),
                i <= k ==> r@ == s.take(i as int) && rest@.len() == 0,
                i > k ==> r@ == s.take(k as int) && rest@ == s.subrange(k as int, i as int),
            decreases s.len() - i,
        {
            if i < k {
                r.push(self.entries[i]);
                assert(s.take(i + 1) == s.take(i as int).push(s[i as int]));
            } else {
                rest.push(self.entries[i]);
                assert(s.subrange(k as int, i + 1) == s.subrange(k as int, i as int).push(s[i as int]));
            }
            i = i + 1;
        }
        proof {
            if s.len() == k {
                assert(rest@ == s.skip(k as int));
            }
        }
        self.entries = rest;
        r
    }

    /// Remove every entry whose candidate is `bound` bytes or larger, keeping
    /// the order of the rest; the removed entries are returned in order.
    pub fn remove_not_below(&mut self, bound: u64) -> (removed: Vec<QueueEntry>)
        requires
            old(self).wf(),
        ensures
            final(self).wf(),
            final(self)@ == entries_below(old(self)@, bound),
            forall|i: int| 0 <= i < final(self)@.len() ==> final(self)@[i].potential.size < bound,
            removed@ == entries_not_below(old(self)@, bound),
    {
        let ghost s = self@;
        let mut kept: Vec<QueueEntry> = Vec::new();
        let mut removed: Vec<QueueEntry> = Vec::new();
        let mut i: usize = 0;
        while i < self.entries.len()
            invariant
                self@ == s,
                priority_ordered(s),
                i <= s.len(),
                kept@ == entries_below(s.take(i as int), bound),
                removed@ == entries_not_below(s.take(i as int), bound),
                priority_ordered(kept@),
                forall|a: int| 0 <= a < kept@.len() ==> kept@[a].potential.size < bound,
                forall|a: int, b: int| 0 <= a < kept@.len() && i <= b < s.len()
                    ==> kept@[a].priority >= s[b].priority,
            decreases s.len() - i,
        {
            let e = self.entries[i];
            assert(s.take(i + 1).drop_last() == s.take(i as int));
            assert(s.take(i + 1).last() == e);
            if e.potential.size < bound {
                kept.push(e);
            } else {
                removed.push(e);
            }
            i = i + 1;
        }
        assert(s.take(s.len() as int) == s);
        self.entries = kept;
        removed
    }

    /// Remove every entry.
    pub fn clear(&mut self) -> (removed: Vec<QueueEntry>)
        ensures
            final(self).wf(),
            final(self)@ == Seq::<QueueEntry>::empty(),
            removed@ == old(self)@,
    {
        let mut removed: Vec<QueueEntry> = Vec::new();
        std::mem::swap(&mut removed, &mut self.entries);
        removed
    }
}

} // verus!
