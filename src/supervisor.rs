//! The supervisor: owner of the scheduling state, one method per inbound
//! message.
use crate::ids::{
    erase, fresh_ids, lemma_erase, lemma_minus, lemma_push_contains, lemma_push_no_duplicates, minus,
};
use crate::model::{
    dispatch_commands, initial_state, pair_commands, prune_commands, seed_commands, Command,
    Outcome, SupervisorError, SupervisorState,
};
use crate::queue::{
    entries_below, entries_not_below, insertion_point, lemma_insertion_point_bounds, QueueEntry,
    ReductionQueue,
};
use crate::test_case::{Interesting, Potential, ReducerId, WorkerId};
use vstd::prelude::*;

verus! {

/// Whether `x` occurs in `v`.
fn vec_contains(v: &Vec<u64>, x: u64) -> (r: bool)
    ensures
        r == v@.contains(x),
{
    let mut i: usize = 0;
    while i < v.len()
        invariant
            i <= v@.len(),
            forall|j: int| 0 <= j < i ==> v@[j] != x,
        decreases v@.len() - i,
    {
        if v[i] == x {
            assert(v@[i as int] == x);
            return true;
        }
        i = i + 1;
    }
    false
}

/// Remove every occurrence of `x` from `v`.
fn vec_erase(v: &mut Vec<u64>, x: u64)
    ensures
        final(v)@ == erase(old(v)@, x),
{
    let ghost s = v@;
    let mut kept: Vec<u64> = Vec::new();
    let mut i: usize = 0;
    while i < v.len()
        invariant
            v@ == s,
            i <= s.len(),
            kept@ == erase(s.take(i as int), x),
        decreases s.len() - i,
    {
        assert(s.take(i + 1).drop_last() == s.take(i as int));
        assert(s.take(i + 1).last() == s[i as int]);
        if v[i] != x {
            kept.push(v[i]);
        }
        i = i + 1;
    }
    assert(s.take(s.len() as int) == s);
    *v = kept;
}

/// A sequence without duplicates, all below `start`, extended by fresh ids.
proof fn lemma_append_fresh(s: Seq<u64>, start: nat, n: nat)
    requires
        s.no_duplicates(),
        forall|i: int| 0 <= i < s.len() ==> s[i] < start,
        start + n <= u64::MAX,
    ensures
        (s + fresh_ids(start, n)).no_duplicates(),
        forall|i: int| 0 <= i < (s + fresh_ids(start, n)).len() ==> (s + fresh_ids(start, n))[i] < start + n,
        forall|y: u64| (s + fresh_ids(start, n)).contains(y) ==> s.contains(y) || y >= start,
{
    let f = fresh_ids(start, n);
    let t = s + f;
    assert forall|i: int, j: int| 0 <= i < t.len() && 0 <= j < t.len() && i != j implies t[i] != t[j] by {
        if i < s.len() && j < s.len() {
        } else if i < s.len() {
            assert(t[j] == f[j - s.len()]);
        } else if j < s.len() {
            assert(t[i] == f[i - s.len()]);
        } else {
            assert(t[j] == f[j - s.len()]);
            assert(t[i] == f[i - s.len()]);
        }
    }
    assert forall|i: int| 0 <= i < t.len() implies t[i] < start + n by {
        if i >= s.len() {
            assert(t[i] == f[i - s.len()]);
        }
    }
    assert forall|y: u64| t.contains(y) implies s.contains(y) || y >= start by {
        let i = choose|i: int| 0 <= i < t.len() && t[i] == y;
        if i < s.len() {
            assert(s[i] == y);
        } else {
            assert(t[i] == f[i - s.len()]);
        }
    }
}

/// What handling one message produced: the commands to carry out, in order,
/// and where the reduction loop iteration stands.
pub struct Step {
    pub commands: Vec<Command>,
    pub outcome: Outcome,
}

/// The supervisor's state: the smallest test case, the worker pool, the
/// reducer actors and the reduction queue.
pub struct Supervisor {
    num_workers: u64,
    orig_size: u64,
    last_iter_size: u64,
    smallest: Interesting,
    next_worker_id: u64,
    workers: Vec<WorkerId>,
    idle_workers: Vec<WorkerId>,
    next_reducer_id: u64,
    reducer_ids: Vec<ReducerId>,
    reducer_slots: Vec<u64>,
    without_actors: Vec<u64>,
    exhausted: Vec<ReducerId>,
    queue: ReductionQueue,
}

impl View for Supervisor {
    type V = SupervisorState;

    closed spec fn view(&self) -> SupervisorState {
        SupervisorState {
            num_workers: self.num_workers,
            orig_size: self.orig_size,
            last_iter_size: self.last_iter_size,
            smallest: self.smallest,
            next_worker_id: self.next_worker_id,
            workers: self.workers@,
            idle_workers: self.idle_workers@,
            next_reducer_id: self.next_reducer_id,
            reducer_ids: self.reducer_ids@,
            reducer_slots: self.reducer_slots@,
            without_actors: self.without_actors@,
            exhausted: self.exhausted@,
            queue: self.queue@,
        }
    }
}

impl Supervisor {
    /// The invariant of the scheduling state.
    pub open spec fn wf(&self) -> bool {
        self@.wf()
    }

    /// Fill the worker pool.
    fn spawn_workers(&mut self, cmds: &mut Vec<Command>)
        requires
            old(self)@.wf_structure(),
            old(self)@.can_spawn_workers(),
        ensures
            final(self)@.wf_structure(),
            final(self)@ == old(self)@.spawn_workers().0,
            final(cmds)@ == old(cmds)@ + old(self)@.spawn_workers().1,
    {
        let ghost s = self@;
        let ghost c = cmds@;
        let len = self.workers.len() as u64;
        let n: u64 = if len < self.num_workers {
            self.num_workers - len
        } else {
            0
        };
        let mut k: u64 = 0;
        while k < n
            invariant
                s.wf_structure(),
                s.can_spawn_workers(),
                n == s.missing_workers(),
                k <= n,
                self@ == (SupervisorState {
                    workers: s.workers + fresh_ids(s.next_worker_id as nat, k as nat),
                    next_worker_id: (s.next_worker_id + k) as u64,
                    ..s
                }),
                cmds@ == c + fresh_ids(s.next_worker_id as nat, k as nat).map_values(|id: u64| Command::SpawnWorker(id)),
            decreases n - k,
        {
            let id = self.next_worker_id;
            self.next_worker_id = self.next_worker_id + 1;
            self.workers.push(id);
            cmds.push(Command::SpawnWorker(id));
            proof {
                let f0 = fresh_ids(s.next_worker_id as nat, k as nat);
                let f1 = fresh_ids(s.next_worker_id as nat, (k + 1) as nat);
                assert(f1 == f0.push(id));
                assert(s.workers + f1 == (s.workers + f0).push(id));
                assert(f1.map_values(|id: u64| Command::SpawnWorker(id)) == f0.map_values(|id: u64| Command::SpawnWorker(id)).push(Command::SpawnWorker(id)));
            }
            k = k + 1;
        }
        proof {
            let t = s.workers + fresh_ids(s.next_worker_id as nat, k as nat);
            lemma_append_fresh(s.workers, s.next_worker_id as nat, k as nat);
            assert forall|w: WorkerId| s.idle_workers.contains(w) implies t.contains(w) by {
                let i = choose|i: int| 0 <= i < s.workers.len() && s.workers[i] == w;
                assert(t[i] == w);
            }
        }
    }

    /// Give every reducer without an actor a new actor.
    fn spawn_reducers(&mut self, cmds: &mut Vec<Command>)
        requires
            old(self)@.wf_structure(),
            old(self)@.can_spawn_reducers(),
        ensures
            final(self)@.wf_structure(),
            final(self)@ == old(self)@.spawn_reducers().0,
            final(cmds)@ == old(cmds)@ + old(self)@.spawn_reducers().1,
    {
        let ghost s = self@;
        let ghost c = cmds@;
        let n = self.without_actors.len();
        let ghost start = s.next_reducer_id as nat;
        let mut k: usize = 0;
        while k < n
            invariant
                s.wf_structure(),
                s.can_spawn_reducers(),
                n == s.without_actors.len(),
                k <= n,
                self.without_actors@ == s.without_actors,
                self.next_reducer_id == start + k,
                start + n <= u64::MAX,
                self@ == (SupervisorState {
                    reducer_ids: s.reducer_ids + fresh_ids(start, k as nat),
                    reducer_slots: s.reducer_slots + s.without_actors.take(k as int),
                    exhausted: s.exhausted + fresh_ids(start, k as nat),
                    next_reducer_id: (start + k) as u64,
                    ..s
                }),
                cmds@ == c + Seq::new(k as nat, |i: int| Command::SpawnReducer((start + i) as u64, s.without_actors[i])),
            decreases n - k,
        {
            let id = self.next_reducer_id;
            let slot = self.without_actors[k];
            self.next_reducer_id = self.next_reducer_id + 1;
            self.reducer_ids.push(id);
            self.reducer_slots.push(slot);
            self.exhausted.push(id);
            cmds.push(Command::SpawnReducer(id, slot));
            proof {
                let f0 = fresh_ids(start, k as nat);
                let f1 = fresh_ids(start, (k + 1) as nat);
                assert(f1 == f0.push(id));
                assert(s.reducer_ids + f1 == (s.reducer_ids + f0).push(id));
                assert(s.exhausted + f1 == (s.exhausted + f0).push(id));
                assert(s.without_actors.take(k + 1) == s.without_actors.take(k as int).push(slot));
                assert(s.reducer_slots + s.without_actors.take(k + 1) == (s.reducer_slots + s.without_actors.take(k as int)).push(slot));
                assert(Seq::new((k + 1) as nat, |i: int| Command::SpawnReducer((start + i) as u64, s.without_actors[i]))
                    == Seq::new(k as nat, |i: int| Command::SpawnReducer((start + i) as u64, s.without_actors[i])).push(Command::SpawnReducer(id, slot)));
            }
            k = k + 1;
        }
        self.without_actors = Vec::new();
        proof {
            let f = fresh_ids(start, n as nat);
            assert(s.without_actors.take(n as int) == s.without_actors);
            assert(Seq::new(n as nat, |i: int| Command::SpawnReducer((start + i) as u64, s.without_actors[i]))
                == Seq::new(n as nat, |i: int| Command::SpawnReducer(f[i], s.without_actors[i])));
            lemma_append_fresh(s.reducer_ids, start, n as nat);
            assert forall|i: int| 0 <= i < s.exhausted.len() implies s.exhausted[i] < start by {
                assert(s.exhausted.contains(s.exhausted[i]));
                let j = choose|j: int| 0 <= j < s.reducer_ids.len() && s.reducer_ids[j] == s.exhausted[i];
            }
            lemma_append_fresh(s.exhausted, start, n as nat);
            let ids = s.reducer_ids + f;
            let ex = s.exhausted + f;
            assert forall|r: ReducerId| ex.contains(r) implies ids.contains(r) by {
                let i = choose|i: int| 0 <= i < ex.len() && ex[i] == r;
                if i < s.exhausted.len() {
                    assert(s.exhausted.contains(r));
                    let j = choose|j: int| 0 <= j < s.reducer_ids.len() && s.reducer_ids[j] == r;
                    assert(ids[j] == r);
                } else {
                    assert(ids[s.reducer_ids.len() + i - s.exhausted.len()] == r);
                }
            }
        }
    }

    /// Seed every reducer with the smallest test case and put the exhausted
    /// ones back to work.
    fn reseed(&mut self, cmds: &mut Vec<Command>)
        requires
            old(self)@.wf_structure(),
            old(self)@.can_spawn_reducers(),
        ensures
            final(self)@.wf_structure(),
            final(self)@ == old(self)@.reseed().0,
            final(cmds)@ == old(cmds)@ + old(self)@.reseed().1,
    {
        self.spawn_reducers(cmds);
        let ghost s1 = self@;
        let ghost c1 = cmds@;
        let mut i: usize = 0;
        while i < self.reducer_ids.len()
            invariant
                self@ == s1,
                i <= s1.reducer_ids.len(),
                cmds@ == c1 + seed_commands(s1, i as nat),
            decreases s1.reducer_ids.len() - i,
        {
            let r = self.reducer_ids[i];
            let ghost before = cmds@;
            cmds.push(Command::SetSeed(r, self.smallest));
            if vec_contains(&self.exhausted, r) {
                cmds.push(Command::RequestNext(r));
                assert(cmds@ == before + seq![Command::SetSeed(r, s1.smallest), Command::RequestNext(r)]);
            } else {
                assert(cmds@ == before + seq![Command::SetSeed(r, s1.smallest)]);
            }
            assert(c1 + seed_commands(s1, (i + 1) as nat) == before + (seed_commands(s1, (i + 1) as nat).subrange(seed_commands(s1, i as nat).len() as int, seed_commands(s1, (i + 1) as nat).len() as int)));
            i = i + 1;
        }
        self.exhausted = Vec::new();
    }

    /// Pair idle workers with queued candidates and send each its candidate.
    fn dispatch(&mut self, cmds: &mut Vec<Command>)
        requires
            old(self)@.wf_structure(),
            old(self)@.idle_workers.len() > 0 || old(self)@.queue.len() > 0,
        ensures
            final(self)@.wf_structure(),
            final(self)@ == old(self)@.dispatch().0,
            final(cmds)@ == old(cmds)@ + old(self)@.dispatch().1,
    {
        let ghost s = self@;
        let ghost c = cmds@;
        let k: usize = if self.idle_workers.len() < self.queue.len() {
            self.idle_workers.len()
        } else {
            self.queue.len()
        };
        let entries = self.queue.drain(k);
        let mut taken: Vec<WorkerId> = Vec::new();
        let mut rest: Vec<WorkerId> = Vec::new();
        let mut j: usize = 0;
        while j < self.idle_workers.len()
            invariant
                self.idle_workers@ == s.idle_workers,
                k <= s.idle_workers.len(),
                j <= s.idle_workers.len(),
                j <= k ==> taken@ == s.idle_workers.take(j as int) && rest@.len() == 0,
                j > k ==> taken@ == s.idle_workers.take(k as int) && rest@ == s.idle_workers.subrange(k as int, j as int),
            decreases s.idle_workers.len() - j,
        {
            if j < k {
                taken.push(self.idle_workers[j]);
                assert(s.idle_workers.take(j + 1) == s.idle_workers.take(j as int).push(s.idle_workers[j as int]));
            } else {
                rest.push(self.idle_workers[j]);
                assert(s.idle_workers.subrange(k as int, j + 1) == s.idle_workers.subrange(k as int, j as int).push(s.idle_workers[j as int]));
            }
            j = j + 1;
        }
        proof {
            if s.idle_workers.len() == k {
                assert(rest@ == s.idle_workers.skip(k as int));
            }
            assert(rest@ == s.idle_workers.skip(k as int));
        }
        self.idle_workers = rest;
        let mut i: usize = 0;
        while i < k
            invariant
                k == s.dispatch_count(),
                i <= k,
                taken@ == s.idle_workers.take(k as int),
                entries@ == s.queue.take(k as int),
                self.reducer_ids@ == s.reducer_ids,
                self.exhausted@ == s.exhausted,
                cmds@ == c + dispatch_commands(s, i as nat),
            decreases k - i,
        {
            let w = taken[i];
            let e = entries[i];
            let ghost before = cmds@;
            cmds.push(Command::Evaluate(w, e.potential));
            if vec_contains(&self.reducer_ids, e.reducer) && !vec_contains(&self.exhausted, e.reducer) {
                cmds.push(Command::RequestNext(e.reducer));
            }
            assert(cmds@ == before + pair_commands(s, s.idle_workers[i as int], s.queue[i as int]));
            i = i + 1;
        }
        proof {
            let idle = s.idle_workers.skip(k as int);
            assert forall|a: int, b: int| 0 <= a < idle.len() && 0 <= b < idle.len() && a != b implies idle[a] != idle[b] by {
                assert(idle[a] == s.idle_workers[a + k] && idle[b] == s.idle_workers[b + k]);
            }
            assert forall|w: WorkerId| idle.contains(w) implies s.workers.contains(w) by {
                let a = choose|a: int| 0 <= a < idle.len() && idle[a] == w;
                assert(s.idle_workers[a + k] == w);
                assert(s.idle_workers.contains(w));
            }
            let q = s.queue.skip(k as int);
            assert forall|a: int, b: int| 0 <= a < b < q.len() implies q[a].priority >= q[b].priority by {
                assert(q[a] == s.queue[a + k] && q[b] == s.queue[b + k]);
            }
        }
    }

    /// With no work left, shut down the idle workers.
    fn settle(&mut self, cmds: &mut Vec<Command>)
        requires
            old(self)@.wf_structure(),
        ensures
            final(self)@.wf_structure(),
            final(self)@ == old(self)@.settle().0,
            final(cmds)@ == old(cmds)@ + old(self)@.settle().1,
    {
        let ghost s = self@;
        let ghost c = cmds@;
        if self.exhausted.len() == self.reducer_ids.len() && self.queue.is_empty() {
            let mut i: usize = 0;
            while i < self.idle_workers.len()
                invariant
                    self@ == s,
                    i <= s.idle_workers.len(),
                    cmds@ == c + s.idle_workers.take(i as int).map_values(|w: WorkerId| Command::ShutdownWorker(w)),
                decreases s.idle_workers.len() - i,
            {
                let w = self.idle_workers[i];
                cmds.push(Command::ShutdownWorker(w));
                assert(s.idle_workers.take(i + 1) == s.idle_workers.take(i as int).push(w));
                assert(s.idle_workers.take(i + 1).map_values(|w: WorkerId| Command::ShutdownWorker(w))
                    == s.idle_workers.take(i as int).map_values(|w: WorkerId| Command::ShutdownWorker(w)).push(Command::ShutdownWorker(w)));
                i = i + 1;
            }
            assert(s.idle_workers.take(s.idle_workers.len() as int) == s.idle_workers);
            let mut kept: Vec<WorkerId> = Vec::new();
            let mut j: usize = 0;
            while j < self.workers.len()
                invariant
                    self@ == s,
                    j <= s.workers.len(),
                    kept@ == minus(s.workers.take(j as int), s.idle_workers),
                decreases s.workers.len() - j,
            {
                let w = self.workers[j];
                assert(s.workers.take(j + 1).drop_last() == s.workers.take(j as int));
                assert(s.workers.take(j + 1).last() == w);
                if !vec_contains(&self.idle_workers, w) {
                    kept.push(w);
                }
                j = j + 1;
            }
            assert(s.workers.take(s.workers.len() as int) == s.workers);
            self.workers = kept;
            self.idle_workers = Vec::new();
            proof {
                let m = minus(s.workers, s.idle_workers);
                lemma_minus(s.workers, s.idle_workers);
                assert forall|a: int| 0 <= a < m.len() implies m[a] < s.next_worker_id by {
                    assert(m.contains(m[a]));
                    assert(s.workers.contains(m[a]));
                    let b = choose|b: int| 0 <= b < s.workers.len() && s.workers[b] == m[a];
                }
            }
        }
    }

    /// Drop every queued candidate of `bound` bytes or more, asking each live
    /// reducer concerned for its next one.
    fn prune(&mut self, bound: u64, cmds: &mut Vec<Command>)
        requires
            old(self)@.wf_structure(),
        ensures
            final(self)@.wf_structure(),
            final(self)@ == (SupervisorState { queue: entries_below(old(self)@.queue, bound), ..old(self)@ }),
            forall|i: int| 0 <= i < final(self)@.queue.len() ==> final(self)@.queue[i].potential.size < bound,
            final(cmds)@ == old(cmds)@ + prune_commands(old(self)@, entries_not_below(old(self)@.queue, bound)),
    {
        let ghost s = self@;
        let ghost c = cmds@;
        let removed = self.queue.remove_not_below(bound);
        let mut i: usize = 0;
        while i < removed.len()
            invariant
                i <= removed@.len(),
                self.reducer_ids@ == s.reducer_ids,
                cmds@ == c + prune_commands(s, removed@.take(i as int)),
            decreases removed@.len() - i,
        {
            let e = removed[i];
            assert(removed@.take(i + 1).drop_last() == removed@.take(i as int));
            assert(removed@.take(i + 1).last() == e);
            let ghost before = cmds@;
            cmds.push(Command::Discard(e.potential));
            if vec_contains(&self.reducer_ids, e.reducer) {
                cmds.push(Command::RequestNext(e.reducer));
                assert(cmds@ == before + seq![Command::Discard(e.potential), Command::RequestNext(e.reducer)]);
            } else {
                assert(cmds@ == before + seq![Command::Discard(e.potential)]);
            }
            i = i + 1;
        }
        assert(removed@.take(removed@.len() as int) == removed@);
    }

    fn outcome(&self) -> (r: Outcome)
        ensures
            r == self@.outcome(),
    {
        if self.workers.len() == 0 {
            Outcome::IterationDone
        } else {
            Outcome::Running
        }
    }

    fn can_spawn_workers(&self) -> (r: bool)
        requires
            self@.wf_structure(),
        ensures
            r == self@.can_spawn_workers(),
    {
        let len = self.workers.len() as u64;
        let missing: u64 = if len < self.num_workers {
            self.num_workers - len
        } else {
            0
        };
        missing <= u64::MAX - self.next_worker_id
    }

    fn can_spawn_reducers(&self) -> (r: bool)
        ensures
            r == self@.can_spawn_reducers(),
    {
        (self.without_actors.len() as u64) <= u64::MAX - self.next_reducer_id
    }

    /// Start the supervisor once the initial input has been judged: `None`
    /// when it is not interesting. Every configured reducer gets an actor, and
    /// all start out exhausted so that the first reseed puts them to work.
    pub fn spawn(num_workers: u64, num_reducers: u64, initial: Option<Interesting>) -> (r: Result<(Supervisor, Vec<Command>), SupervisorError>)
        ensures
            initial is None <==> r == Err::<(Supervisor, Vec<Command>), SupervisorError>(SupervisorError::InitialNotInteresting),
            initial is Some ==> r is Ok,
            r matches Ok((sup, cmds)) ==> {
                &&& sup.wf()
                &&& sup@ == initial_state(num_workers, num_reducers, initial->Some_0).spawn_reducers().0
                &&& cmds@ == initial_state(num_workers, num_reducers, initial->Some_0).spawn_reducers().1
            },
    {
        let t = match initial {
            Some(t) => t,
            None => {
                return Err(SupervisorError::InitialNotInteresting);
            },
        };
        let mut without_actors: Vec<u64> = Vec::new();
        let mut i: u64 = 0;
        while i < num_reducers
            invariant
                i <= num_reducers,
                without_actors@ == Seq::new(i as nat, |j: int| j as u64),
            decreases num_reducers - i,
        {
            without_actors.push(i);
            assert(without_actors@ == Seq::new((i + 1) as nat, |j: int| j as u64));
            i = i + 1;
        }
        let mut sup = Supervisor {
            num_workers,
            orig_size: t.size,
            last_iter_size: t.size,
            smallest: t,
            next_worker_id: 0,
            workers: Vec::new(),
            idle_workers: Vec::new(),
            next_reducer_id: 0,
            reducer_ids: Vec::new(),
            reducer_slots: Vec::new(),
            without_actors,
            exhausted: Vec::new(),
            queue: ReductionQueue::with_capacity(num_reducers as usize),
        };
        assert(sup@ == initial_state(num_workers, num_reducers, t));
        let mut cmds: Vec<Command> = Vec::new();
        sup.spawn_reducers(&mut cmds);
        assert(cmds@ == Seq::<Command>::empty() + initial_state(num_workers, num_reducers, t).spawn_reducers().1);
        Ok((sup, cmds))
    }

    /// Begin a reduction loop iteration: remember the smallest size, reseed
    /// the reducers and fill the worker pool. With no worker at all the
    /// iteration is over at once.
    pub fn start_iteration(&mut self) -> (r: Result<Step, SupervisorError>)
        requires
            old(self).wf(),
        ensures
            !old(self)@.can_spawn_reducers() <==> r == Err::<Step, SupervisorError>(SupervisorError::ReducerSpawnFailure),
            old(self)@.can_spawn_reducers() && !old(self)@.can_spawn_workers()
                <==> r == Err::<Step, SupervisorError>(SupervisorError::WorkerSpawnFailure),
            old(self)@.can_spawn_reducers() && old(self)@.can_spawn_workers() <==> r is Ok,
            r is Err ==> final(self)@ == old(self)@,
            r matches Ok(step) ==> {
                &&& final(self).wf()
                &&& final(self)@ == old(self)@.on_start_iteration().0
                &&& step.commands@ == old(self)@.on_start_iteration().1
                &&& step.outcome == final(self)@.outcome()
            },
    {
        if !self.can_spawn_reducers() {
            return Err(SupervisorError::ReducerSpawnFailure);
        }
        if !self.can_spawn_workers() {
            return Err(SupervisorError::WorkerSpawnFailure);
        }
        let mut cmds: Vec<Command> = Vec::new();
        self.last_iter_size = self.smallest.size;
        self.reseed(&mut cmds);
        self.spawn_workers(&mut cmds);
        let outcome = self.outcome();
        assert(cmds@ == old(self)@.on_start_iteration().1);
        proof {
            let s0 = old(self)@;
            if self@.out_of_work() {
                assert(self@.reducer_ids.len() == 0);
                assert(s0.reducer_ids.len() == 0);
                if s0.exhausted.len() > 0 {
                    assert(s0.exhausted.contains(s0.exhausted[0]));
                    assert(s0.reducer_ids.contains(s0.exhausted[0]));
                }
                assert(s0.out_of_work());
            }
        }
        Ok(Step { commands: cmds, outcome })
    }

    /// After an iteration: whether to run another one. That is so when it
    /// ended because the workers ran out of work and it made progress.
    pub fn should_continue(&self, outcome: Outcome) -> (r: bool)
        ensures
            r == (outcome == Outcome::IterationDone && self@.smallest.size < self@.last_iter_size),
    {
        outcome == Outcome::IterationDone && self.smallest.size < self.last_iter_size
    }

    /// A worker asks for its next candidate, handing back the one it found
    /// not interesting, if any.
    pub fn request_next_reduction(&mut self, who: WorkerId, not_interesting: Option<Potential>) -> (r: Step)
        requires
            old(self).wf(),
            old(self)@.workers.contains(who),
            !old(self)@.idle_workers.contains(who),
        ensures
            final(self).wf(),
            final(self)@ == old(self)@.on_request_next_reduction(who, not_interesting).0,
            r.commands@ == old(self)@.on_request_next_reduction(who, not_interesting).1,
            r.outcome == final(self)@.outcome(),
    {
        let mut cmds: Vec<Command> = Vec::new();
        if let Some(p) = not_interesting {
            cmds.push(Command::ObserveNotInteresting(p));
        }
        let ghost c0 = cmds@;
        self.idle_workers.push(who);
        proof {
            lemma_push_no_duplicates(old(self)@.idle_workers, who);
            lemma_push_contains(old(self)@.idle_workers, who);
        }
        self.dispatch(&mut cmds);
        self.settle(&mut cmds);
        let outcome = self.outcome();
        assert(cmds@ == c0 + old(self)@.idle_then_dispatch(who).1);
        Step { commands: cmds, outcome }
    }

    /// Forget a failed worker and fill the pool again.
    fn replace_worker(&mut self, id: WorkerId) -> (r: Result<Step, SupervisorError>)
        requires
            old(self).wf(),
            old(self)@.workers.contains(id),
        ensures
            !old(self)@.can_replace_worker(id) <==> r == Err::<Step, SupervisorError>(SupervisorError::WorkerSpawnFailure),
            old(self)@.can_replace_worker(id) <==> r is Ok,
            r is Err ==> final(self)@ == old(self)@.without_worker(id),
            r matches Ok(step) ==> {
                &&& final(self).wf()
                &&& final(self)@ == old(self)@.on_worker_failed(id).0
                &&& step.commands@ == old(self)@.on_worker_failed(id).1
                &&& step.outcome == final(self)@.outcome()
            },
    {
        let ghost s = self@;
        vec_erase(&mut self.workers, id);
        vec_erase(&mut self.idle_workers, id);
        proof {
            lemma_erase(s.workers, id);
            lemma_erase(s.idle_workers, id);
            let w = erase(s.workers, id);
            assert forall|i: int| 0 <= i < w.len() implies w[i] < s.next_worker_id by {
                assert(w.contains(w[i]));
                assert(s.workers.contains(w[i]));
            }
            assert forall|x: WorkerId| erase(s.idle_workers, id).contains(x) implies w.contains(x) by {
                assert(s.idle_workers.contains(x));
            }
        }
        if !self.can_spawn_workers() {
            return Err(SupervisorError::WorkerSpawnFailure);
        }
        let mut cmds: Vec<Command> = Vec::new();
        self.spawn_workers(&mut cmds);
        self.settle(&mut cmds);
        let outcome = self.outcome();
        assert(cmds@ == old(self)@.on_worker_failed(id).1);
        Ok(Step { commands: cmds, outcome })
    }

    /// A worker panicked: forget it and spawn a replacement.
    pub fn worker_panicked(&mut self, id: WorkerId) -> (r: Result<Step, SupervisorError>)
        requires
            old(self).wf(),
            old(self)@.workers.contains(id),
        ensures
            !old(self)@.can_replace_worker(id) <==> r == Err::<Step, SupervisorError>(SupervisorError::WorkerSpawnFailure),
            old(self)@.can_replace_worker(id) <==> r is Ok,
            r is Err ==> final(self)@ == old(self)@.without_worker(id),
            r matches Ok(step) ==> {
                &&& final(self).wf()
                &&& final(self)@ == old(self)@.on_worker_failed(id).0
                &&& step.commands@ == old(self)@.on_worker_failed(id).1
                &&& step.outcome == final(self)@.outcome()
            },
    {
        self.replace_worker(id)
    }

    /// A worker failed with an error: forget it and spawn a replacement.
    pub fn worker_errored(&mut self, id: WorkerId) -> (r: Result<Step, SupervisorError>)
        requires
            old(self).wf(),
            old(self)@.workers.contains(id),
        ensures
            !old(self)@.can_replace_worker(id) <==> r == Err::<Step, SupervisorError>(SupervisorError::WorkerSpawnFailure),
            old(self)@.can_replace_worker(id) <==> r is Ok,
            r is Err ==> final(self)@ == old(self)@.without_worker(id),
            r matches Ok(step) ==> {
                &&& final(self).wf()
                &&& final(self)@ == old(self)@.on_worker_failed(id).0
                &&& step.commands@ == old(self)@.on_worker_failed(id).1
                &&& step.outcome == final(self)@.outcome()
            },
    {
        self.replace_worker(id)
    }

    /// Drop a failed reducer actor; its reducer waits for the next reseed.
    fn retire_reducer(&mut self, r: ReducerId) -> (step: Step)
        requires
            old(self).wf(),
            old(self)@.reducer_ids.contains(r),
        ensures
            final(self).wf(),
            final(self)@ == old(self)@.on_reducer_failed(r).0,
            step.commands@ == old(self)@.on_reducer_failed(r).1,
            step.outcome == final(self)@.outcome(),
    {
        let ghost s = self@;
        let mut i: usize = 0;
        while i < self.reducer_ids.len() && self.reducer_ids[i] != r
            invariant
                self@ == s,
                0 <= i <= s.reducer_ids.len(),
                forall|j: int| 0 <= j < i ==> s.reducer_ids[j] != r,
            decreases s.reducer_ids.len() - i,
        {
            i = i + 1;
        }
        proof {
            if i == s.reducer_ids.len() {
                let j = choose|j: int| 0 <= j < s.reducer_ids.len() && s.reducer_ids[j] == r;
            }
        }
        proof {
            let j = s.reducer_index(r);
            assert(s.reducer_ids[j] == r);
            assert(j == i);
        }
        self.reducer_ids.remove(i);
        let slot = self.reducer_slots.remove(i);
        self.without_actors.push(slot);
        vec_erase(&mut self.exhausted, r);
        proof {
            lemma_erase(s.exhausted, r);
            let ids = s.reducer_ids.remove(i as int);
            assert forall|a: int, b: int| 0 <= a < ids.len() && 0 <= b < ids.len() && a != b implies ids[a] != ids[b] by {
                let a2 = if a < i { a } else { a + 1 };
                let b2 = if b < i { b } else { b + 1 };
                assert(ids[a] == s.reducer_ids[a2] && ids[b] == s.reducer_ids[b2]);
            }
            assert forall|a: int| 0 <= a < ids.len() implies ids[a] < s.next_reducer_id by {
                let a2 = if a < i { a } else { a + 1 };
                assert(ids[a] == s.reducer_ids[a2]);
            }
            assert forall|x: ReducerId| erase(s.exhausted, r).contains(x) implies ids.contains(x) by {
                assert(s.reducer_ids.contains(x));
                let a = choose|a: int| 0 <= a < s.reducer_ids.len() && s.reducer_ids[a] == x;
                if a < i {
                    assert(ids[a] == x);
                } else {
                    assert(a != i);
                    assert(ids[a - 1] == x);
                }
            }
        }
        let mut cmds: Vec<Command> = Vec::new();
        self.settle(&mut cmds);
        let outcome = self.outcome();
        assert(cmds@ == old(self)@.on_reducer_failed(r).1);
        Step { commands: cmds, outcome }
    }

    /// A reducer actor panicked: drop it; its reducer is respawned at the
    /// next reseed.
    pub fn reducer_panicked(&mut self, id: ReducerId) -> (step: Step)
        requires
            old(self).wf(),
            old(self)@.reducer_ids.contains(id),
        ensures
            final(self).wf(),
            final(self)@ == old(self)@.on_reducer_failed(id).0,
            step.commands@ == old(self)@.on_reducer_failed(id).1,
            step.outcome == final(self)@.outcome(),
    {
        self.retire_reducer(id)
    }

    /// A reducer actor failed with an error: drop it; its reducer is
    /// respawned at the next reseed.
    pub fn reducer_errored(&mut self, id: ReducerId) -> (step: Step)
        requires
            old(self).wf(),
            old(self)@.reducer_ids.contains(id),
        ensures
            final(self).wf(),
            final(self)@ == old(self)@.on_reducer_failed(id).0,
            step.commands@ == old(self)@.on_reducer_failed(id).1,
            step.outcome == final(self)@.outcome(),
    {
        self.retire_reducer(id)
    }

    /// A reducer has no more candidates for `seed`. It is exhausted only if
    /// `seed` is still the smallest test case; otherwise it was reseeded
    /// meanwhile and is asked for a candidate of the new seed.
    pub fn no_more_reductions(&mut self, reducer: ReducerId, seed: Interesting) -> (step: Step)
        requires
            old(self).wf(),
            old(self)@.reducer_ids.contains(reducer),
        ensures
            final(self).wf(),
            final(self)@ == old(self)@.on_no_more_reductions(reducer, seed).0,
            step.commands@ == old(self)@.on_no_more_reductions(reducer, seed).1,
            step.outcome == final(self)@.outcome(),
    {
        let mut cmds: Vec<Command> = Vec::new();
        if seed == self.smallest {
            cmds.push(Command::ObserveExhausted(reducer));
            if !vec_contains(&self.exhausted, reducer) {
                proof {
                    lemma_push_no_duplicates(self@.exhausted, reducer);
                    lemma_push_contains(self@.exhausted, reducer);
                }
                self.exhausted.push(reducer);
            }
        } else {
            cmds.push(Command::RequestNext(reducer));
        }
        self.settle(&mut cmds);
        let outcome = self.outcome();
        Step { commands: cmds, outcome }
    }

    /// A reducer replies with its next candidate, to which the oracle gave
    /// `priority` (higher is served first). A candidate smaller than the
    /// smallest test case is queued and dispatched; any other is handed back
    /// and the reducer is asked for its next one.
    pub fn reply_next_reduction(&mut self, reducer: ReducerId, reduction: Potential, priority: u64) -> (step: Step)
        requires
            old(self).wf(),
            old(self)@.reducer_ids.contains(reducer),
        ensures
            final(self).wf(),
            final(self)@ == old(self)@.on_reply_next_reduction(reducer, reduction, priority).0,
            step.commands@ == old(self)@.on_reply_next_reduction(reducer, reduction, priority).1,
            step.outcome == final(self)@.outcome(),
    {
        let mut cmds: Vec<Command> = Vec::new();
        if reduction.size < self.smallest.size {
            self.queue.insert(QueueEntry { potential: reduction, reducer, priority });
            proof {
                let q = self@.queue;
                lemma_insertion_point_bounds(old(self)@.queue, priority);
                assert forall|i: int| 0 <= i < q.len() implies q[i].potential.size < self@.smallest.size by {
                    let p = insertion_point(old(self)@.queue, priority);
                    if i > p {
                        assert(q[i] == old(self)@.queue[i - 1]);
                    } else if i < p {
                        assert(q[i] == old(self)@.queue[i]);
                    }
                }
            }
            self.dispatch(&mut cmds);
            self.settle(&mut cmds);
            assert(cmds@ == old(self)@.on_reply_next_reduction(reducer, reduction, priority).1);
        } else {
            cmds.push(Command::NotInteresting(reducer, reduction));
            cmds.push(Command::RequestNext(reducer));
            self.settle(&mut cmds);
            assert(cmds@ == old(self)@.on_reply_next_reduction(reducer, reduction, priority).1);
        }
        let outcome = self.outcome();
        Step { commands: cmds, outcome }
    }

    /// A worker reports an interesting test case. A strictly smaller one
    /// becomes the smallest: the reducers are reseeded with it, the pool is
    /// refilled and queued candidates no longer smaller are pruned. Either
    /// way the worker becomes idle and dispatch runs.
    pub fn report_interesting(&mut self, who: WorkerId, interesting: Interesting) -> (r: Result<Step, SupervisorError>)
        requires
            old(self).wf(),
            old(self)@.workers.contains(who),
            !old(self)@.idle_workers.contains(who),
        ensures
            interesting.size < old(self)@.smallest.size && !old(self)@.can_spawn_reducers()
                <==> r == Err::<Step, SupervisorError>(SupervisorError::ReducerSpawnFailure),
            interesting.size < old(self)@.smallest.size && old(self)@.can_spawn_reducers() && !old(self)@.can_spawn_workers()
                <==> r == Err::<Step, SupervisorError>(SupervisorError::WorkerSpawnFailure),
            interesting.size >= old(self)@.smallest.size
                || (old(self)@.can_spawn_reducers() && old(self)@.can_spawn_workers()) <==> r is Ok,
            r is Err ==> final(self)@ == old(self)@,
            r matches Ok(step) ==> {
                &&& final(self).wf()
                &&& final(self)@ == old(self)@.on_report_interesting(who, interesting).0
                &&& step.commands@ == old(self)@.on_report_interesting(who, interesting).1
                &&& step.outcome == final(self)@.outcome()
            },
    {
        let mut cmds: Vec<Command> = Vec::new();
        if interesting.size < self.smallest.size {
            if !self.can_spawn_reducers() {
                return Err(SupervisorError::ReducerSpawnFailure);
            }
            if !self.can_spawn_workers() {
                return Err(SupervisorError::WorkerSpawnFailure);
            }
            cmds.push(Command::PromoteSmallest(interesting));
            self.smallest = interesting;
            self.reseed(&mut cmds);
            self.spawn_workers(&mut cmds);
            self.prune(interesting.size, &mut cmds);
            let ghost c3 = cmds@;
            self.idle_workers.push(who);
            proof {
                lemma_push_no_duplicates(old(self)@.idle_workers, who);
                lemma_push_contains(old(self)@.idle_workers, who);
                lemma_append_fresh(old(self)@.workers, old(self)@.next_worker_id as nat, old(self)@.missing_workers());
                let ws = self@.workers;
                let i = choose|i: int| 0 <= i < old(self)@.workers.len() && old(self)@.workers[i] == who;
                assert(ws[i] == who);
            }
            self.dispatch(&mut cmds);
            self.settle(&mut cmds);
            proof {
                let s0 = old(self)@;
                let (s1, c1) = SupervisorState { smallest: interesting, ..s0 }.reseed();
                let (s2, c2) = s1.spawn_workers();
                let s3 = SupervisorState { queue: entries_below(s2.queue, interesting.size), ..s2 };
                let (s4, c4) = s3.idle_then_dispatch(who);
                assert(c3 == seq![Command::PromoteSmallest(interesting)] + c1 + c2 + prune_commands(s2, entries_not_below(s2.queue, interesting.size)));
                assert(cmds@ == c3 + c4);
            }
        } else {
            cmds.push(Command::NotSmaller(interesting));
            self.idle_workers.push(who);
            proof {
                lemma_push_no_duplicates(old(self)@.idle_workers, who);
                lemma_push_contains(old(self)@.idle_workers, who);
            }
            self.dispatch(&mut cmds);
            self.settle(&mut cmds);
            assert(cmds@ == seq![Command::NotSmaller(interesting)] + old(self)@.idle_then_dispatch(who).1);
        }
        let outcome = self.outcome();
        Ok(Step { commands: cmds, outcome })
    }

    /// An interrupt: shut down every worker, drop every queued candidate and
    /// stop the iteration.
    pub fn got_sigint(&mut self) -> (step: Step)
        requires
            old(self).wf(),
        ensures
            final(self).wf(),
            final(self)@ == old(self)@.on_interrupt().0,
            step.commands@ == old(self)@.on_interrupt().1,
            step.outcome == Outcome::Interrupted,
    {
        let ghost s = self@;
        let mut cmds: Vec<Command> = Vec::new();
        let mut i: usize = 0;
        while i < self.workers.len()
            invariant
                self@ == s,
                i <= s.workers.len(),
                cmds@ == s.workers.take(i as int).map_values(|w: WorkerId| Command::ShutdownWorker(w)),
            decreases s.workers.len() - i,
        {
            let w = self.workers[i];
            cmds.push(Command::ShutdownWorker(w));
            assert(s.workers.take(i + 1) == s.workers.take(i as int).push(w));
            assert(s.workers.take(i + 1).map_values(|w: WorkerId| Command::ShutdownWorker(w))
                == s.workers.take(i as int).map_values(|w: WorkerId| Command::ShutdownWorker(w)).push(Command::ShutdownWorker(w)));
            i = i + 1;
        }
        assert(s.workers.take(s.workers.len() as int) == s.workers);
        let ghost c = cmds@;
        let dropped = self.queue.clear();
        let mut j: usize = 0;
        while j < dropped.len()
            invariant
                dropped@ == s.queue,
                j <= s.queue.len(),
                cmds@ == c + s.queue.take(j as int).map_values(|e: QueueEntry| Command::Discard(e.potential)),
            decreases s.queue.len() - j,
        {
            let e = dropped[j];
            cmds.push(Command::Discard(e.potential));
            assert(s.queue.take(j + 1) == s.queue.take(j as int).push(e));
            assert(s.queue.take(j + 1).map_values(|e: QueueEntry| Command::Discard(e.potential))
                == s.queue.take(j as int).map_values(|e: QueueEntry| Command::Discard(e.potential)).push(Command::Discard(e.potential)));
            j = j + 1;
        }
        assert(s.queue.take(s.queue.len() as int) == s.queue);
        self.workers = Vec::new();
        self.idle_workers = Vec::new();
        Step { commands: cmds, outcome: Outcome::Interrupted }
    }

    /// The smallest interesting test case so far.
    pub fn smallest(&self) -> (r: Interesting)
        ensures
            r == self@.smallest,
    {
        self.smallest
    }

    /// The size of the initial input.
    pub fn orig_size(&self) -> (r: u64)
        ensures
            r == self@.orig_size,
    {
        self.orig_size
    }

    /// Whether `id` is a live worker.
    pub fn has_worker(&self, id: WorkerId) -> (r: bool)
        ensures
            r == self@.workers.contains(id),
    {
        vec_contains(&self.workers, id)
    }

    /// Whether `id` is a worker waiting for a candidate.
    pub fn is_idle(&self, id: WorkerId) -> (r: bool)
        ensures
            r == self@.idle_workers.contains(id),
    {
        vec_contains(&self.idle_workers, id)
    }

    /// Whether `id` is a live reducer actor.
    pub fn has_reducer(&self, id: ReducerId) -> (r: bool)
        ensures
            r == self@.reducer_ids.contains(id),
    {
        vec_contains(&self.reducer_ids, id)
    }

    /// Whether the reducer `id` is exhausted for the current seed.
    pub fn is_exhausted(&self, id: ReducerId) -> (r: bool)
        ensures
            r == self@.exhausted.contains(id),
    {
        vec_contains(&self.exhausted, id)
    }

    /// The live reducer actors, in order.
    pub fn reducer_ids(&self) -> (r: Vec<ReducerId>)
        ensures
            r@ == self@.reducer_ids,
    {
        self.reducer_ids.clone()
    }

    /// The live workers.
    pub fn worker_ids(&self) -> (r: Vec<WorkerId>)
        ensures
            r@ == self@.workers,
    {
        self.workers.clone()
    }

    /// The workers waiting for a candidate, in arrival order.
    pub fn idle_worker_ids(&self) -> (r: Vec<WorkerId>)
        ensures
            r@ == self@.idle_workers,
    {
        self.idle_workers.clone()
    }

    /// How many candidates are queued.
    pub fn queue_len(&self) -> (r: usize)
        ensures
            r == self@.queue.len(),
    {
        self.queue.len()
    }

    /// How many reducers are exhausted for the current seed.
    pub fn exhausted_count(&self) -> (r: usize)
        ensures
            r == self@.exhausted.len(),
    {
        self.exhausted.len()
    }
}

} // verus!
