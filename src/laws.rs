//! Properties of the supervisor's protocol that hold of every state and
//! message.
use crate::ids::lemma_minus;
use crate::model::{
    dispatch_commands, initial_state, pair_commands, seed_commands, Command, Message, Outcome,
    SupervisorState,
};
use crate::queue::{insertion_point, lemma_insertion_point_bounds, QueueEntry};
use crate::test_case::{Interesting, Potential, ReducerId, WorkerId};
use vstd::prelude::*;

verus! {

/// The smallest test case never grows: after any message its size is at most
/// what it was before.
pub proof fn smallest_never_grows(s: SupervisorState, m: Message)
    ensures
        s.on_message(m).0.smallest.size <= s.smallest.size,
{
}

/// The smallest test case changes only to a strictly smaller one, and only on
/// a report of an interesting test case, which is then announced first.
pub proof fn promotion_is_strict(s: SupervisorState, m: Message)
    ensures
        s.on_message(m).0.smallest != s.smallest ==> {
            &&& s.on_message(m).0.smallest.size < s.smallest.size
            &&& m matches Message::ReportInteresting(_, t)
            &&& s.on_message(m).0.smallest == t
            &&& s.on_message(m).1[0] == Command::PromoteSmallest(t)
        },
{
}

/// Only candidates smaller than the smallest test case enter the queue: any
/// other is handed back to its reducer, which is asked for the next one, and
/// the queue is left as it was.
pub proof fn only_smaller_candidates_are_queued(s: SupervisorState, r: ReducerId, p: Potential, priority: u64)
    ensures
        p.size >= s.smallest.size ==> {
            &&& s.on_reply_next_reduction(r, p, priority).0.queue == s.queue
            &&& s.on_reply_next_reduction(r, p, priority).1.take(2)
                == seq![Command::NotInteresting(r, p), Command::RequestNext(r)]
        },
{
    if p.size >= s.smallest.size {
        let c = s.settle().1;
        assert((seq![Command::NotInteresting(r, p), Command::RequestNext(r)] + c).take(2)
            == seq![Command::NotInteresting(r, p), Command::RequestNext(r)]);
    }
}

/// A candidate smaller than the smallest test case is queued when no worker
/// is idle, and otherwise goes at once to the first idle worker.
pub proof fn smaller_candidate_is_queued_or_sent(s: SupervisorState, r: ReducerId, p: Potential, priority: u64)
    requires
        s.wf(),
        p.size < s.smallest.size,
    ensures
        s.idle_workers.len() == 0 ==> s.on_reply_next_reduction(r, p, priority).0.queue.contains(
            QueueEntry { potential: p, reducer: r, priority },
        ),
        s.idle_workers.len() > 0 ==> s.on_reply_next_reduction(r, p, priority).1[0] == Command::Evaluate(
            s.idle_workers[0],
            p,
        ),
{
    let e = QueueEntry { potential: p, reducer: r, priority };
    lemma_insertion_point_bounds(s.queue, priority);
    let q = s.queue.insert(insertion_point(s.queue, priority), e);
    let s0 = SupervisorState { queue: q, ..s };
    if s.idle_workers.len() == 0 {
        assert(s0.dispatch_count() == 0);
        assert(q.skip(0) == q);
        assert(q[insertion_point(s.queue, priority)] == e);
        assert(q.contains(e));
    } else {
        assert(s.queue.len() == 0);
        assert(s0.dispatch_count() == 1);
        reveal_with_fuel(dispatch_commands, 2);
        assert(q[0] == e);
        let c1 = s0.dispatch().1;
        assert(c1 == pair_commands(s0, s.idle_workers[0], e));
        assert(c1[0] == Command::Evaluate(s.idle_workers[0], p));
    }
}

/// Every worker that dispatch sends a candidate to was idle and is idle no
/// more.
pub proof fn dispatched_workers_leave_idle(s: SupervisorState)
    requires
        s.wf_structure(),
    ensures
        forall|i: int, w: WorkerId, p: Potential|
            0 <= i < s.dispatch().1.len() && s.dispatch().1[i] == Command::Evaluate(w, p)
                ==> s.idle_workers.contains(w) && !s.dispatch().0.idle_workers.contains(w),
{
    let k = s.dispatch_count();
    lemma_dispatch_targets(s, k);
    assert forall|i: int, w: WorkerId, p: Potential|
        0 <= i < s.dispatch().1.len() && s.dispatch().1[i] == Command::Evaluate(w, p)
        implies s.idle_workers.contains(w) && !s.dispatch().0.idle_workers.contains(w) by {
        let j = choose|j: int| 0 <= j < k && s.idle_workers[j] == w;
        assert(s.idle_workers.contains(w));
        let rest = s.idle_workers.skip(k as int);
        if rest.contains(w) {
            let a = choose|a: int| 0 <= a < rest.len() && rest[a] == w;
            assert(s.idle_workers[a + k] == w);
        }
    }
}

proof fn lemma_dispatch_targets(s: SupervisorState, n: nat)
    requires
        n <= s.idle_workers.len(),
        n <= s.queue.len(),
    ensures
        forall|i: int, w: WorkerId, p: Potential|
            0 <= i < dispatch_commands(s, n).len() && dispatch_commands(s, n)[i] == Command::Evaluate(w, p)
                ==> exists|j: int| 0 <= j < n && s.idle_workers[j] == w,
    decreases n,
{
    if n > 0 {
        let m = (n - 1) as nat;
        lemma_dispatch_targets(s, m);
        let a = dispatch_commands(s, m);
        let b = pair_commands(s, s.idle_workers[m as int], s.queue[m as int]);
        assert forall|i: int, w: WorkerId, p: Potential|
            0 <= i < dispatch_commands(s, n).len() && dispatch_commands(s, n)[i] == Command::Evaluate(w, p)
            implies exists|j: int| 0 <= j < n && s.idle_workers[j] == w by {
            if i < a.len() {
                assert(dispatch_commands(s, n)[i] == a[i]);
                let j = choose|j: int| 0 <= j < m && s.idle_workers[j] == w;
                assert(0 <= j < n && s.idle_workers[j] == w);
            } else {
                assert(dispatch_commands(s, n)[i] == b[i - a.len()]);
                assert(s.idle_workers[m as int] == w);
            }
        }
    }
}

/// A reseed clears the exhausted set.
pub proof fn reseed_clears_exhausted(s: SupervisorState)
    ensures
        s.reseed().0.exhausted.len() == 0,
{
}

/// Once every reducer is exhausted and the queue is empty, a worker that asks
/// for work is shut down rather than served: the pool only shrinks, so the
/// iteration ends after each remaining worker has asked once.
pub proof fn out_of_work_retires_workers(s: SupervisorState, who: WorkerId, not_interesting: Option<Potential>)
    requires
        s.wf(),
        s.out_of_work(),
        s.workers.contains(who),
        !s.idle_workers.contains(who),
    ensures
        !s.on_request_next_reduction(who, not_interesting).0.workers.contains(who),
        forall|w: WorkerId| s.on_request_next_reduction(who, not_interesting).0.workers.contains(w)
            ==> s.workers.contains(w),
        s.on_request_next_reduction(who, not_interesting).0.idle_workers.len() == 0,
        s.on_request_next_reduction(who, not_interesting).0.out_of_work(),
        s.on_request_next_reduction(who, not_interesting).0.workers.len() == 0
            ==> s.on_request_next_reduction(who, not_interesting).0.outcome() == Outcome::IterationDone,
{
    lemma_out_of_work_idle(s, who);
}

/// The same holds of a worker that reports an interesting test case that is
/// not smaller than the smallest one.
pub proof fn out_of_work_retires_reporting_workers(s: SupervisorState, who: WorkerId, t: Interesting)
    requires
        s.wf(),
        s.out_of_work(),
        s.workers.contains(who),
        !s.idle_workers.contains(who),
        t.size >= s.smallest.size,
    ensures
        !s.on_report_interesting(who, t).0.workers.contains(who),
        forall|w: WorkerId| s.on_report_interesting(who, t).0.workers.contains(w) ==> s.workers.contains(w),
        s.on_report_interesting(who, t).0.idle_workers.len() == 0,
        s.on_report_interesting(who, t).0.out_of_work(),
{
    lemma_out_of_work_idle(s, who);
}

proof fn lemma_out_of_work_idle(s: SupervisorState, who: WorkerId)
    requires
        s.wf(),
        s.out_of_work(),
        s.workers.contains(who),
        !s.idle_workers.contains(who),
    ensures
        !s.idle_then_dispatch(who).0.workers.contains(who),
        forall|w: WorkerId| s.idle_then_dispatch(who).0.workers.contains(w) ==> s.workers.contains(w),
        s.idle_then_dispatch(who).0.idle_workers.len() == 0,
        s.idle_then_dispatch(who).0.out_of_work(),
{
    let s0 = SupervisorState { idle_workers: s.idle_workers.push(who), ..s };
    assert(s0.dispatch_count() == 0);
    assert(s0.idle_workers.skip(0) == s0.idle_workers);
    assert(s0.queue.skip(0) == s0.queue);
    assert(s0.dispatch().0 == s0);
    lemma_minus(s.workers, s0.idle_workers);
    assert(s0.idle_workers.contains(who)) by {
        assert(s0.idle_workers[s.idle_workers.len() as int] == who);
    }
}

/// Reseeding twice with the same smallest test case leaves the state of a
/// single reseed, and the second reseed only seeds every reducer again.
pub proof fn reseed_twice_is_reseed_once(s: SupervisorState)
    ensures
        s.reseed().0.reseed().0 == s.reseed().0,
        s.reseed().0.reseed().1 == Seq::new(
            s.reseed().0.reducer_ids.len(),
            |i: int| Command::SetSeed(s.reseed().0.reducer_ids[i], s.smallest),
        ),
{
    let t = s.reseed().0;
    assert(t.reducer_ids + Seq::<u64>::empty() == t.reducer_ids);
    assert(t.reducer_slots + Seq::<u64>::empty() == t.reducer_slots);
    assert(Seq::<u64>::empty() + Seq::<u64>::empty() == Seq::<u64>::empty());
    let (t1, c1) = t.spawn_reducers();
    assert(t1 == t);
    assert(c1 == Seq::<Command>::empty());
    lemma_seed_commands_unexhausted(t, t.reducer_ids.len());
    assert(c1 + seed_commands(t1, t1.reducer_ids.len()) == seed_commands(t, t.reducer_ids.len()));
}

proof fn lemma_seed_commands_unexhausted(t: SupervisorState, n: nat)
    requires
        t.exhausted.len() == 0,
        n <= t.reducer_ids.len(),
    ensures
        seed_commands(t, n) == Seq::new(n, |i: int| Command::SetSeed(t.reducer_ids[i], t.smallest)),
    decreases n,
{
    if n > 0 {
        lemma_seed_commands_unexhausted(t, (n - 1) as nat);
        assert(!t.exhausted.contains(t.reducer_ids[n - 1]));
        assert(seed_commands(t, n) == Seq::new(n, |i: int| Command::SetSeed(t.reducer_ids[i], t.smallest)));
    }
}

/// With no worker configured, an iteration is over as soon as it starts, and
/// no further iteration follows.
pub proof fn no_workers_ends_at_once(s: SupervisorState)
    requires
        s.wf(),
        s.num_workers == 0,
    ensures
        s.on_start_iteration().0.outcome() == Outcome::IterationDone,
        !(s.on_start_iteration().0.smallest.size < s.on_start_iteration().0.last_iter_size),
{
    let (s1, c1) = SupervisorState { last_iter_size: s.smallest.size, ..s }.reseed();
    assert(s1.missing_workers() == 0);
    assert(s1.workers + Seq::<u64>::new(0, |i: int| (s1.next_worker_id + i) as u64) == s1.workers);
}

/// With no reducer configured, the first reseed leaves nothing exhausted and
/// nothing queued, so there is no work from the start.
pub proof fn no_reducers_no_work(num_workers: u64, initial: Interesting)
    ensures
        initial_state(num_workers, 0, initial).spawn_reducers().0.on_start_iteration().0.exhausted.len() == 0,
        initial_state(num_workers, 0, initial).spawn_reducers().0.on_start_iteration().0.queue.len() == 0,
        initial_state(num_workers, 0, initial).spawn_reducers().0.on_start_iteration().0.out_of_work(),
{
    let s0 = initial_state(num_workers, 0, initial);
    assert(s0.without_actors.len() == 0);
}

} // verus!
