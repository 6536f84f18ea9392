//! The supervisor's scheduling state as mathematics, the commands it issues,
//! and each step of its protocol as a function from state to the next state
//! and the commands sent on the way.
use crate::ids::{erase, fresh_ids, minus};
use crate::queue::{entries_below, entries_not_below, insertion_point, priority_ordered, QueueEntry};
use crate::test_case::{Interesting, Potential, ReducerId, WorkerId};
use vstd::prelude::*;

verus! {

/// What the supervisor asks its caller to carry out, in order.
#[derive(Clone, Copy, Debug, PartialEq, Eq, Structural)]
pub enum Command {
    /// Start a worker actor under this id.
    SpawnWorker(WorkerId),
    /// Tell the worker to terminate and forget its handle.
    ShutdownWorker(WorkerId),
    /// Send the worker this candidate to judge.
    Evaluate(WorkerId, Potential),
    /// Start a reducer actor under this id around the configured reducer
    /// with this index.
    SpawnReducer(ReducerId, u64),
    /// Seed the reducer with this test case.
    SetSeed(ReducerId, Interesting),
    /// Ask the reducer for its next candidate.
    RequestNext(ReducerId),
    /// Tell the reducer that this candidate of its own was not used.
    NotInteresting(ReducerId, Potential),
    /// Drop this candidate; it will not be judged.
    Discard(Potential),
    /// Let the oracle observe that this candidate was not interesting.
    ObserveNotInteresting(Potential),
    /// This test case is the new smallest: write it over the original input,
    /// let the oracle observe it and log it.
    PromoteSmallest(Interesting),
    /// This test case is interesting but not smaller: let the oracle observe
    /// it and log it.
    NotSmaller(Interesting),
    /// Let the oracle observe that the reducer is exhausted.
    ObserveExhausted(ReducerId),
}

/// Where a reduction loop iteration stands after a message.
#[derive(Clone, Copy, Debug, PartialEq, Eq, Structural)]
pub enum Outcome {
    /// Keep feeding messages.
    Running,
    /// Every worker has been shut down: the iteration is over.
    IterationDone,
    /// An interrupt arrived: stop and shut down.
    Interrupted,
}

/// The errors that end the reduction.
#[derive(Clone, Copy, Debug, PartialEq, Eq, Structural)]
pub enum SupervisorError {
    /// The initial input is not interesting.
    InitialNotInteresting,
    /// No fresh worker id is left, or a worker could not be started.
    WorkerSpawnFailure,
    /// No fresh reducer id is left, or a reducer could not be started.
    ReducerSpawnFailure,
}

/// The messages the supervisor handles, as far as its decisions read them.
#[derive(Clone, Copy, Debug, PartialEq, Eq, Structural)]
pub enum Message {
    /// A worker panicked or failed with an error.
    WorkerFailed(WorkerId),
    /// A worker asks for work, handing back what it found not interesting.
    RequestNextReduction(WorkerId, Option<Potential>),
    /// A worker found an interesting test case.
    ReportInteresting(WorkerId, Interesting),
    /// A reducer actor panicked or failed with an error.
    ReducerFailed(ReducerId),
    /// A reducer's next candidate and the priority the oracle gave it.
    ReplyNextReduction(ReducerId, Potential, u64),
    /// A reducer has no more candidates for the given seed.
    ReplyExhausted(ReducerId, Interesting),
    /// The user interrupted the reduction.
    Interrupt,
}

/// The supervisor's state.
pub struct SupervisorState {
    /// How many workers to keep alive.
    pub num_workers: u64,
    /// Size of the initial input.
    pub orig_size: u64,
    /// Size of the smallest test case when the current iteration began.
    pub last_iter_size: u64,
    /// The smallest interesting test case so far.
    pub smallest: Interesting,
    /// The next worker id to hand out.
    pub next_worker_id: u64,
    /// Live workers.
    pub workers: Seq<WorkerId>,
    /// Workers waiting for a candidate, in arrival order.
    pub idle_workers: Seq<WorkerId>,
    /// The next reducer id to hand out.
    pub next_reducer_id: u64,
    /// Live reducer actors.
    pub reducer_ids: Seq<ReducerId>,
    /// For each live reducer actor, the index of the reducer it runs.
    pub reducer_slots: Seq<u64>,
    /// Indexes of reducers whose actor crashed, to be respawned at the next
    /// reseed.
    pub without_actors: Seq<u64>,
    /// Live reducers that have no more candidates for the current seed.
    pub exhausted: Seq<ReducerId>,
    /// Candidates waiting for a worker, in serving order.
    pub queue: Seq<QueueEntry>,
}

/// The commands for one worker and candidate paired by dispatch: judge it, and
/// ask its live, unexhausted reducer for the next one.
pub open spec fn pair_commands(s: SupervisorState, w: WorkerId, e: QueueEntry) -> Seq<Command> {
    if s.reducer_ids.contains(e.reducer) && !s.exhausted.contains(e.reducer) {
        seq![Command::Evaluate(w, e.potential), Command::RequestNext(e.reducer)]
    } else {
        seq![Command::Evaluate(w, e.potential)]
    }
}

/// The commands for the first `n` pairs of idle workers and queued candidates.
pub open spec fn dispatch_commands(s: SupervisorState, n: nat) -> Seq<Command>
    decreases n,
{
    if n == 0 {
        Seq::empty()
    } else {
        dispatch_commands(s, (n - 1) as nat) + pair_commands(
            s,
            s.idle_workers[n - 1],
            s.queue[n - 1],
        )
    }
}

/// Seed the first `n` reducers, and ask those that were exhausted for a
/// candidate.
pub open spec fn seed_commands(s: SupervisorState, n: nat) -> Seq<Command>
    decreases n,
{
    if n == 0 {
        Seq::empty()
    } else {
        let r = s.reducer_ids[n - 1];
        seed_commands(s, (n - 1) as nat) + if s.exhausted.contains(r) {
            seq![Command::SetSeed(r, s.smallest), Command::RequestNext(r)]
        } else {
            seq![Command::SetSeed(r, s.smallest)]
        }
    }
}

/// The commands for candidates pruned from the queue: drop each, and ask its
/// reducer, if still live, for the next one.
pub open spec fn prune_commands(s: SupervisorState, pruned: Seq<QueueEntry>) -> Seq<Command>
    decreases pruned.len(),
{
    if pruned.len() == 0 {
        Seq::empty()
    } else {
        let e = pruned.last();
        prune_commands(s, pruned.drop_last()) + if s.reducer_ids.contains(e.reducer) {
            seq![Command::Discard(e.potential), Command::RequestNext(e.reducer)]
        } else {
            seq![Command::Discard(e.potential)]
        }
    }
}

/// The state right after start-up: the initial test case is the smallest, the
/// `num_reducers` configured reducers wait for actors, nothing else exists.
pub open spec fn initial_state(num_workers: u64, num_reducers: u64, initial: Interesting) -> SupervisorState {
    SupervisorState {
        num_workers,
        orig_size: initial.size,
        last_iter_size: initial.size,
        smallest: initial,
        next_worker_id: 0,
        workers: Seq::empty(),
        idle_workers: Seq::empty(),
        next_reducer_id: 0,
        reducer_ids: Seq::empty(),
        reducer_slots: Seq::empty(),
        without_actors: Seq::new(num_reducers as nat, |i: int| i as u64),
        exhausted: Seq::empty(),
        queue: Seq::empty(),
    }
}

impl SupervisorState {
    /// The invariant of the scheduling state: its structure, every queued
    /// candidate smaller than the smallest test case, no worker idle while a
    /// candidate waits, and no worker idle once there is no work left.
    pub open spec fn wf(self) -> bool {
        &&& self.wf_structure()
        &&& forall|i: int| 0 <= i < self.queue.len() ==> self.queue[i].potential.size < self.smallest.size
        &&& (self.idle_workers.len() == 0 || self.queue.len() == 0)
        &&& (self.out_of_work() ==> self.idle_workers.len() == 0)
    }

    /// The invariant of the pool, the reducer registry and the queue's order.
    pub open spec fn wf_structure(self) -> bool {
        &&& self.workers.no_duplicates()
        &&& self.idle_workers.no_duplicates()
        &&& forall|w: WorkerId| self.idle_workers.contains(w) ==> self.workers.contains(w)
        &&& self.workers.len() <= self.num_workers
        &&& forall|i: int| 0 <= i < self.workers.len() ==> self.workers[i] < self.next_worker_id
        &&& self.reducer_ids.no_duplicates()
        &&& self.reducer_ids.len() == self.reducer_slots.len()
        &&& forall|i: int| 0 <= i < self.reducer_ids.len() ==> self.reducer_ids[i] < self.next_reducer_id
        &&& self.exhausted.no_duplicates()
        &&& forall|r: ReducerId| self.exhausted.contains(r) ==> self.reducer_ids.contains(r)
        &&& priority_ordered(self.queue)
    }

    /// How many workers must be spawned to fill the pool.
    pub open spec fn missing_workers(self) -> nat {
        if self.workers.len() < self.num_workers {
            (self.num_workers - self.workers.len()) as nat
        } else {
            0
        }
    }

    /// Whether enough fresh worker ids remain to fill the pool.
    pub open spec fn can_spawn_workers(self) -> bool {
        self.next_worker_id + self.missing_workers() <= u64::MAX
    }

    /// Fill the worker pool with workers under fresh ids.
    pub open spec fn spawn_workers(self) -> (SupervisorState, Seq<Command>) {
        let ids = fresh_ids(self.next_worker_id as nat, self.missing_workers());
        (
            SupervisorState {
                workers: self.workers + ids,
                next_worker_id: (self.next_worker_id + self.missing_workers()) as u64,
                ..self
            },
            ids.map_values(|id: u64| Command::SpawnWorker(id)),
        )
    }

    /// Whether enough fresh reducer ids remain to respawn every crashed
    /// reducer.
    pub open spec fn can_spawn_reducers(self) -> bool {
        self.next_reducer_id + self.without_actors.len() <= u64::MAX
    }

    /// Give every reducer without an actor a new actor under a fresh id; the
    /// new actors start out exhausted.
    pub open spec fn spawn_reducers(self) -> (SupervisorState, Seq<Command>) {
        let n = self.without_actors.len();
        let ids = fresh_ids(self.next_reducer_id as nat, n);
        (
            SupervisorState {
                reducer_ids: self.reducer_ids + ids,
                reducer_slots: self.reducer_slots + self.without_actors,
                without_actors: Seq::empty(),
                exhausted: self.exhausted + ids,
                next_reducer_id: (self.next_reducer_id + n) as u64,
                ..self
            },
            Seq::new(n, |i: int| Command::SpawnReducer(ids[i], self.without_actors[i])),
        )
    }

    /// Respawn crashed reducers, seed every reducer with the smallest test
    /// case, put the exhausted ones back to work, and clear the exhausted set.
    pub open spec fn reseed(self) -> (SupervisorState, Seq<Command>) {
        let (s, c) = self.spawn_reducers();
        (
            SupervisorState { exhausted: Seq::empty(), ..s },
            c + seed_commands(s, s.reducer_ids.len()),
        )
    }

    /// How many worker and candidate pairs dispatch forms.
    pub open spec fn dispatch_count(self) -> nat {
        if self.idle_workers.len() < self.queue.len() {
            self.idle_workers.len()
        } else {
            self.queue.len()
        }
    }

    /// Pair idle workers with queued candidates, both in order, as far as
    /// both last.
    pub open spec fn dispatch(self) -> (SupervisorState, Seq<Command>) {
        let k = self.dispatch_count();
        (
            SupervisorState {
                idle_workers: self.idle_workers.skip(k as int),
                queue: self.queue.skip(k as int),
                ..self
            },
            dispatch_commands(self, k),
        )
    }

    /// Whether every live reducer is exhausted and no candidate is queued.
    pub open spec fn out_of_work(self) -> bool {
        self.exhausted.len() == self.reducer_ids.len() && self.queue.len() == 0
    }

    /// The check after every message: with no work left, shut down the idle
    /// workers.
    pub open spec fn settle(self) -> (SupervisorState, Seq<Command>) {
        if self.out_of_work() {
            (
                SupervisorState {
                    workers: minus(self.workers, self.idle_workers),
                    idle_workers: Seq::empty(),
                    ..self
                },
                self.idle_workers.map_values(|w: WorkerId| Command::ShutdownWorker(w)),
            )
        } else {
            (self, Seq::empty())
        }
    }

    /// The outcome once a message has been handled.
    pub open spec fn outcome(self) -> Outcome {
        if self.workers.len() == 0 {
            Outcome::IterationDone
        } else {
            Outcome::Running
        }
    }

    /// Make `who` idle, dispatch, then settle.
    pub open spec fn idle_then_dispatch(self, who: WorkerId) -> (SupervisorState, Seq<Command>) {
        let (s1, c1) = SupervisorState { idle_workers: self.idle_workers.push(who), ..self }.dispatch();
        let (s2, c2) = s1.settle();
        (s2, c1 + c2)
    }

    /// A worker asks for work, reporting the candidate it found not
    /// interesting, if any.
    pub open spec fn on_request_next_reduction(self, who: WorkerId, not_interesting: Option<Potential>) -> (SupervisorState, Seq<Command>) {
        let c0 = match not_interesting {
            Some(p) => seq![Command::ObserveNotInteresting(p)],
            None => Seq::empty(),
        };
        let (s, c) = self.idle_then_dispatch(who);
        (s, c0 + c)
    }

    /// A worker panicked or failed: forget it and fill the pool again.
    pub open spec fn on_worker_failed(self, id: WorkerId) -> (SupervisorState, Seq<Command>) {
        let (s1, c1) = self.without_worker(id).spawn_workers();
        let (s2, c2) = s1.settle();
        (s2, c1 + c2)
    }

    /// Whether a worker failure can be handled without running out of ids.
    pub open spec fn can_replace_worker(self, id: WorkerId) -> bool {
        self.without_worker(id).can_spawn_workers()
    }

    /// The state with worker `id` forgotten, idle or not.
    pub open spec fn without_worker(self, id: WorkerId) -> SupervisorState {
        SupervisorState {
            workers: erase(self.workers, id),
            idle_workers: erase(self.idle_workers, id),
            ..self
        }
    }

    /// The position of a live reducer among the reducer actors.
    pub open spec fn reducer_index(self, r: ReducerId) -> int {
        choose|i: int| 0 <= i < self.reducer_ids.len() && self.reducer_ids[i] == r
    }

    /// A reducer actor panicked or failed: drop the actor and keep its reducer
    /// for the next reseed.
    pub open spec fn on_reducer_failed(self, r: ReducerId) -> (SupervisorState, Seq<Command>) {
        let i = self.reducer_index(r);
        SupervisorState {
            reducer_ids: self.reducer_ids.remove(i),
            reducer_slots: self.reducer_slots.remove(i),
            without_actors: self.without_actors.push(self.reducer_slots[i]),
            exhausted: erase(self.exhausted, r),
            ..self
        }.settle()
    }

    /// A reducer has no more candidates for `seed`.
    pub open spec fn on_no_more_reductions(self, r: ReducerId, seed: Interesting) -> (SupervisorState, Seq<Command>) {
        if seed == self.smallest {
            let s0 = SupervisorState {
                exhausted: if self.exhausted.contains(r) {
                    self.exhausted
                } else {
                    self.exhausted.push(r)
                },
                ..self
            };
            let (s1, c1) = s0.settle();
            (s1, seq![Command::ObserveExhausted(r)] + c1)
        } else {
            let (s1, c1) = self.settle();
            (s1, seq![Command::RequestNext(r)] + c1)
        }
    }

    /// A reducer replies with its next candidate, to which the oracle gave
    /// `priority`.
    pub open spec fn on_reply_next_reduction(self, r: ReducerId, p: Potential, priority: u64) -> (SupervisorState, Seq<Command>) {
        if p.size < self.smallest.size {
            let e = QueueEntry { potential: p, reducer: r, priority };
            let s0 = SupervisorState {
                queue: self.queue.insert(insertion_point(self.queue, priority), e),
                ..self
            };
            let (s1, c1) = s0.dispatch();
            let (s2, c2) = s1.settle();
            (s2, c1 + c2)
        } else {
            let (s1, c1) = self.settle();
            (s1, seq![Command::NotInteresting(r, p), Command::RequestNext(r)] + c1)
        }
    }

    /// A worker reports an interesting test case.
    pub open spec fn on_report_interesting(self, who: WorkerId, t: Interesting) -> (SupervisorState, Seq<Command>) {
        if t.size < self.smallest.size {
            let (s1, c1) = SupervisorState { smallest: t, ..self }.reseed();
            let (s2, c2) = s1.spawn_workers();
            let s3 = SupervisorState { queue: entries_below(s2.queue, t.size), ..s2 };
            let c3 = prune_commands(s2, entries_not_below(s2.queue, t.size));
            let (s4, c4) = s3.idle_then_dispatch(who);
            (s4, seq![Command::PromoteSmallest(t)] + c1 + c2 + c3 + c4)
        } else {
            let (s1, c1) = self.idle_then_dispatch(who);
            (s1, seq![Command::NotSmaller(t)] + c1)
        }
    }

    /// An interrupt: shut down every worker and drop every queued candidate.
    pub open spec fn on_interrupt(self) -> (SupervisorState, Seq<Command>) {
        (
            SupervisorState {
                workers: Seq::empty(),
                idle_workers: Seq::empty(),
                queue: Seq::empty(),
                ..self
            },
            self.workers.map_values(|w: WorkerId| Command::ShutdownWorker(w))
                + self.queue.map_values(|e: QueueEntry| Command::Discard(e.potential)),
        )
    }

    /// Begin an iteration: note the smallest size, reseed the reducers and
    /// fill the worker pool.
    pub open spec fn on_start_iteration(self) -> (SupervisorState, Seq<Command>) {
        let (s1, c1) = SupervisorState { last_iter_size: self.smallest.size, ..self }.reseed();
        let (s2, c2) = s1.spawn_workers();
        (s2, c1 + c2)
    }

    /// Whether a message can arrive in this state: workers and reducers that
    /// send one are live, and a worker asking for work is not already idle.
    pub open spec fn accepts(self, m: Message) -> bool {
        match m {
            Message::WorkerFailed(w) => self.workers.contains(w),
            Message::RequestNextReduction(w, _) => self.workers.contains(w) && !self.idle_workers.contains(w),
            Message::ReportInteresting(w, _) => self.workers.contains(w) && !self.idle_workers.contains(w),
            Message::ReducerFailed(r) => self.reducer_ids.contains(r),
            Message::ReplyNextReduction(r, _, _) => self.reducer_ids.contains(r),
            Message::ReplyExhausted(r, _) => self.reducer_ids.contains(r),
            Message::Interrupt => true,
        }
    }

    /// The state and commands after handling `m`.
    pub open spec fn on_message(self, m: Message) -> (SupervisorState, Seq<Command>) {
        match m {
            Message::WorkerFailed(w) => self.on_worker_failed(w),
            Message::RequestNextReduction(w, p) => self.on_request_next_reduction(w, p),
            Message::ReportInteresting(w, t) => self.on_report_interesting(w, t),
            Message::ReducerFailed(r) => self.on_reducer_failed(r),
            Message::ReplyNextReduction(r, p, priority) => self.on_reply_next_reduction(r, p, priority),
            Message::ReplyExhausted(r, seed) => self.on_no_more_reductions(r, seed),
            Message::Interrupt => self.on_interrupt(),
        }
    }
}

} // verus!
