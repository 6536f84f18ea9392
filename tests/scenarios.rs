use preduce::model::{Command, Outcome, SupervisorError};
use preduce::supervisor::{Step, Supervisor};
use preduce::test_case::{Interesting, Potential};
use std::collections::{HashMap, VecDeque};

#[derive(Clone, Copy, Debug)]
enum Msg {
    RequestNext(u64, Option<Potential>),
    Report(u64, Interesting),
    ReplyNext(u64, Potential),
    Exhausted(u64, Interesting),
    ReducerPanicked(u64),
    Sigint,
}

/// A reducer that proposes its seed with one trailing byte removed, once per
/// seed, and never proposes an empty input.
struct TrimReducer {
    seed: Option<Interesting>,
    proposed: bool,
    requests: u64,
}

struct Sim {
    sup: Supervisor,
    inbox: VecDeque<Msg>,
    reducers: HashMap<u64, TrimReducer>,
    interesting: fn(u64) -> bool,
    panic_on_request: Option<u64>,
    interrupt_after_promotion: bool,
    next_id: u64,
    promotions: u64,
    not_smaller: u64,
    reducer_panics: u64,
    spawned_reducers: Vec<(u64, u64)>,
    log: Vec<Command>,
}

impl Sim {
    fn new(workers: u64, reducers: u64, initial: u64, interesting: fn(u64) -> bool) -> Sim {
        let init = Some(Interesting { id: 0, size: initial });
        let (sup, cmds) = Supervisor::spawn(workers, reducers, init).unwrap();
        let mut sim = Sim {
            sup,
            inbox: VecDeque::new(),
            reducers: HashMap::new(),
            interesting,
            panic_on_request: None,
            interrupt_after_promotion: false,
            next_id: 1,
            promotions: 0,
            not_smaller: 0,
            reducer_panics: 0,
            spawned_reducers: Vec::new(),
            log: Vec::new(),
        };
        sim.perform(cmds);
        sim
    }

    fn perform(&mut self, cmds: Vec<Command>) {
        for c in cmds {
            self.log.push(c);
            match c {
                Command::SpawnWorker(w) => self.inbox.push_back(Msg::RequestNext(w, None)),
                Command::ShutdownWorker(_) => {}
                Command::Evaluate(w, p) => {
                    if (self.interesting)(p.size) {
                        self.inbox.push_back(Msg::Report(w, Interesting { id: p.id, size: p.size }));
                    } else {
                        self.inbox.push_back(Msg::RequestNext(w, Some(p)));
                    }
                }
                Command::SpawnReducer(r, slot) => {
                    self.spawned_reducers.push((r, slot));
                    self.reducers.insert(r, TrimReducer { seed: None, proposed: false, requests: 0 });
                }
                Command::SetSeed(r, t) => {
                    let Some(red) = self.reducers.get_mut(&r) else { continue };
                    red.seed = Some(t);
                    red.proposed = false;
                }
                Command::RequestNext(r) => {
                    let Some(red) = self.reducers.get_mut(&r) else { continue };
                    red.requests += 1;
                    if Some(red.requests) == self.panic_on_request {
                        self.panic_on_request = None;
                        self.reducers.remove(&r);
                        self.inbox.push_back(Msg::ReducerPanicked(r));
                        continue;
                    }
                    let seed = red.seed.unwrap();
                    if !red.proposed && seed.size > 1 {
                        red.proposed = true;
                        let p = Potential { id: self.next_id, size: seed.size - 1 };
                        self.next_id += 1;
                        self.inbox.push_back(Msg::ReplyNext(r, p));
                    } else {
                        self.inbox.push_back(Msg::Exhausted(r, seed));
                    }
                }
                Command::NotInteresting(_, _) | Command::Discard(_) | Command::ObserveNotInteresting(_) => {}
                Command::ObserveExhausted(_) => {}
                Command::PromoteSmallest(_) => {
                    self.promotions += 1;
                    if self.interrupt_after_promotion {
                        self.interrupt_after_promotion = false;
                        self.inbox.push_front(Msg::Sigint);
                    }
                }
                Command::NotSmaller(_) => self.not_smaller += 1,
            }
        }
    }

    fn check_invariants(&self, before: u64, step: &Step) {
        assert!(self.sup.smallest().size <= before);
        for w in self.sup.idle_worker_ids() {
            assert!(self.sup.has_worker(w));
        }
        for c in &step.commands {
            if let Command::Evaluate(w, _) = c {
                assert!(!self.sup.is_idle(*w));
            }
        }
        assert!(self.sup.exhausted_count() <= self.sup.reducer_ids().len());
    }

    fn handle(&mut self, m: Msg) -> Step {
        let before = self.sup.smallest().size;
        let step = match m {
            Msg::RequestNext(w, p) => self.sup.request_next_reduction(w, p),
            Msg::Report(w, t) => self.sup.report_interesting(w, t).unwrap(),
            Msg::ReplyNext(r, p) => self.sup.reply_next_reduction(r, p, 100 - p.size),
            Msg::Exhausted(r, seed) => self.sup.no_more_reductions(r, seed),
            Msg::ReducerPanicked(r) => {
                self.reducer_panics += 1;
                self.sup.reducer_panicked(r)
            }
            Msg::Sigint => self.sup.got_sigint(),
        };
        self.check_invariants(before, &step);
        step
    }

    /// Run iterations to the end; returns whether the run was interrupted.
    fn run(&mut self) -> bool {
        loop {
            let step = self.sup.start_iteration().unwrap();
            let mut outcome = step.outcome;
            self.perform(step.commands);
            while outcome == Outcome::Running {
                let m = self.inbox.pop_front().expect("supervisor waits with nothing in flight");
                let step = self.handle(m);
                outcome = step.outcome;
                self.perform(step.commands);
            }
            if outcome == Outcome::Interrupted {
                return true;
            }
            if !self.sup.should_continue(outcome) {
                return false;
            }
        }
    }
}

fn at_least_one_byte(size: u64) -> bool {
    size >= 1
}

fn never(_size: u64) -> bool {
    false
}

fn always(_size: u64) -> bool {
    true
}

fn at_most_nine(size: u64) -> bool {
    size <= 9
}

#[test]
fn trivial_convergence() {
    let mut sim = Sim::new(1, 1, 10, at_least_one_byte);
    assert!(!sim.run());
    assert_eq!(sim.sup.smallest().size, 1);
    assert_eq!(sim.promotions, 9);
    assert_eq!(sim.sup.orig_size(), 10);
}

#[test]
fn initial_not_interesting() {
    let r = Supervisor::spawn(2, 1, None);
    assert!(matches!(r, Err(SupervisorError::InitialNotInteresting)));
}

#[test]
fn race_between_two_workers() {
    let (mut sup, _) = Supervisor::spawn(2, 1, Some(Interesting { id: 0, size: 10 })).unwrap();
    let step = sup.start_iteration().unwrap();
    assert_eq!(
        step.commands,
        vec![
            Command::SetSeed(0, Interesting { id: 0, size: 10 }),
            Command::RequestNext(0),
            Command::SpawnWorker(0),
            Command::SpawnWorker(1),
        ]
    );
    sup.request_next_reduction(0, None);
    sup.request_next_reduction(1, None);
    let p5 = Potential { id: 5, size: 5 };
    let p7 = Potential { id: 7, size: 7 };
    let s = sup.reply_next_reduction(0, p5, 10);
    assert_eq!(s.commands, vec![Command::Evaluate(0, p5), Command::RequestNext(0)]);
    let s = sup.reply_next_reduction(0, p7, 10);
    assert_eq!(s.commands, vec![Command::Evaluate(1, p7), Command::RequestNext(0)]);
    let t5 = Interesting { id: 5, size: 5 };
    let s = sup.report_interesting(0, t5).unwrap();
    assert_eq!(s.commands[0], Command::PromoteSmallest(t5));
    assert!(s.commands.contains(&Command::SetSeed(0, t5)));
    assert_eq!(sup.smallest(), t5);
    let t7 = Interesting { id: 7, size: 7 };
    let s = sup.report_interesting(1, t7).unwrap();
    assert_eq!(s.commands[0], Command::NotSmaller(t7));
    assert_eq!(sup.smallest(), t5);
    assert_eq!(sup.queue_len(), 0);
    assert_eq!(sup.idle_worker_ids(), vec![0, 1]);
}

#[test]
fn stale_entries_pruned_on_promotion() {
    let (mut sup, _) = Supervisor::spawn(1, 2, Some(Interesting { id: 0, size: 10 })).unwrap();
    sup.start_iteration().unwrap();
    let p6 = Potential { id: 6, size: 6 };
    let p8 = Potential { id: 8, size: 8 };
    sup.reply_next_reduction(0, p6, 1);
    sup.reply_next_reduction(1, p8, 2);
    assert_eq!(sup.queue_len(), 2);
    let s = sup.request_next_reduction(0, None);
    assert_eq!(s.commands, vec![Command::Evaluate(0, p8), Command::RequestNext(1)]);
    let t5 = Interesting { id: 8, size: 5 };
    let s = sup.report_interesting(0, t5).unwrap();
    assert_eq!(
        s.commands,
        vec![
            Command::PromoteSmallest(t5),
            Command::SetSeed(0, t5),
            Command::SetSeed(1, t5),
            Command::Discard(p6),
            Command::RequestNext(0),
        ]
    );
    assert_eq!(sup.queue_len(), 0);
    assert_eq!(sup.idle_worker_ids(), vec![0]);
}

#[test]
fn reducer_panics() {
    let mut sim = Sim::new(2, 1, 10, at_least_one_byte);
    sim.panic_on_request = Some(3);
    assert!(!sim.run());
    assert_eq!(sim.reducer_panics, 1);
    assert_eq!(sim.spawned_reducers, vec![(0, 0), (1, 0)]);
    assert_eq!(sim.sup.smallest().size, 1);
}

#[test]
fn interrupt_mid_flight() {
    let mut sim = Sim::new(1, 1, 10, at_least_one_byte);
    sim.interrupt_after_promotion = true;
    assert!(sim.run());
    assert_eq!(sim.promotions, 1);
    assert_eq!(sim.sup.smallest().size, 9);
    assert!(!sim.sup.should_continue(Outcome::Interrupted));
    assert!(sim.sup.worker_ids().is_empty());
    assert_eq!(sim.sup.queue_len(), 0);
}

#[test]
fn exhaustion_at_stale_seed() {
    let t10 = Interesting { id: 0, size: 10 };
    let (mut sup, _) = Supervisor::spawn(1, 1, Some(t10)).unwrap();
    sup.start_iteration().unwrap();
    sup.request_next_reduction(0, None);
    let p9 = Potential { id: 9, size: 9 };
    sup.reply_next_reduction(0, p9, 0);
    let t9 = Interesting { id: 9, size: 9 };
    sup.report_interesting(0, t9).unwrap();
    let s = sup.no_more_reductions(0, t10);
    assert_eq!(s.commands, vec![Command::RequestNext(0)]);
    assert!(!sup.is_exhausted(0));
    assert_eq!(s.outcome, Outcome::Running);
    let p8 = Potential { id: 8, size: 8 };
    let s = sup.reply_next_reduction(0, p8, 0);
    assert_eq!(s.commands, vec![Command::Evaluate(0, p8), Command::RequestNext(0)]);
    let s = sup.no_more_reductions(0, t9);
    assert_eq!(s.commands, vec![Command::ObserveExhausted(0)]);
    assert!(sup.is_exhausted(0));
}

#[test]
fn zero_workers_terminate_at_once() {
    let (mut sup, _) = Supervisor::spawn(0, 1, Some(Interesting { id: 0, size: 10 })).unwrap();
    let step = sup.start_iteration().unwrap();
    assert_eq!(step.outcome, Outcome::IterationDone);
    assert!(!sup.should_continue(step.outcome));
}

#[test]
fn zero_reducers_drain_workers() {
    let (mut sup, cmds) = Supervisor::spawn(2, 0, Some(Interesting { id: 0, size: 10 })).unwrap();
    assert!(cmds.is_empty());
    let step = sup.start_iteration().unwrap();
    assert_eq!(sup.exhausted_count(), 0);
    assert_eq!(sup.queue_len(), 0);
    assert_eq!(step.outcome, Outcome::Running);
    let s = sup.request_next_reduction(0, None);
    assert_eq!(s.commands, vec![Command::ShutdownWorker(0)]);
    assert_eq!(s.outcome, Outcome::Running);
    let s = sup.request_next_reduction(1, None);
    assert_eq!(s.commands, vec![Command::ShutdownWorker(1)]);
    assert_eq!(s.outcome, Outcome::IterationDone);
    assert!(!sup.should_continue(s.outcome));
}

#[test]
fn predicate_always_false() {
    let mut sim = Sim::new(2, 2, 10, never);
    assert!(!sim.run());
    assert_eq!(sim.sup.smallest(), Interesting { id: 0, size: 10 });
    assert_eq!(sim.promotions, 0);
    assert_eq!(sim.sup.exhausted_count(), 2);
    assert!(sim.sup.worker_ids().is_empty());
}

#[test]
fn predicate_always_true() {
    let mut sim = Sim::new(3, 2, 20, always);
    assert!(!sim.run());
    assert_eq!(sim.sup.smallest().size, 1);
    assert!(sim.promotions >= 1 && sim.promotions <= 19);
}

#[test]
fn two_reducers_converge_with_races() {
    let mut sim = Sim::new(3, 3, 10, at_most_nine);
    assert!(!sim.run());
    assert_eq!(sim.sup.smallest().size, 1);
}

#[test]
fn reseed_twice_only_seeds_again() {
    let t = Interesting { id: 0, size: 10 };
    let (mut sup, _) = Supervisor::spawn(0, 2, Some(t)).unwrap();
    let first = sup.start_iteration().unwrap();
    assert_eq!(
        first.commands,
        vec![
            Command::SetSeed(0, t),
            Command::RequestNext(0),
            Command::SetSeed(1, t),
            Command::RequestNext(1),
        ]
    );
    let second = sup.start_iteration().unwrap();
    assert_eq!(second.commands, vec![Command::SetSeed(0, t), Command::SetSeed(1, t)]);
    assert_eq!(sup.exhausted_count(), 0);
}

#[test]
fn not_interesting_reply_is_handed_back() {
    let t = Interesting { id: 0, size: 10 };
    let (mut sup, _) = Supervisor::spawn(1, 1, Some(t)).unwrap();
    sup.start_iteration().unwrap();
    let p = Potential { id: 3, size: 10 };
    let s = sup.reply_next_reduction(0, p, 5);
    assert_eq!(s.commands, vec![Command::NotInteresting(0, p), Command::RequestNext(0)]);
    assert_eq!(sup.queue_len(), 0);
}

#[test]
fn worker_failure_spawns_replacement() {
    let t = Interesting { id: 0, size: 10 };
    let (mut sup, _) = Supervisor::spawn(2, 1, Some(t)).unwrap();
    sup.start_iteration().unwrap();
    sup.request_next_reduction(0, None);
    let s = sup.worker_panicked(0).unwrap();
    assert_eq!(s.commands, vec![Command::SpawnWorker(2)]);
    assert!(!sup.has_worker(0));
    assert!(!sup.is_idle(0));
    let s = sup.worker_errored(1).unwrap();
    assert_eq!(s.commands, vec![Command::SpawnWorker(3)]);
    assert_eq!(sup.worker_ids(), vec![2, 3]);
}

#[test]
fn reducer_failure_respawns_at_next_reseed() {
    let t = Interesting { id: 0, size: 10 };
    let (mut sup, cmds) = Supervisor::spawn(1, 2, Some(t)).unwrap();
    assert_eq!(cmds, vec![Command::SpawnReducer(0, 0), Command::SpawnReducer(1, 1)]);
    sup.start_iteration().unwrap();
    let s = sup.reducer_errored(0);
    assert!(s.commands.is_empty());
    assert!(!sup.has_reducer(0));
    sup.reducer_panicked(1);
    assert!(sup.reducer_ids().is_empty());
    let s = sup.start_iteration().unwrap();
    assert_eq!(
        s.commands,
        vec![
            Command::SpawnReducer(2, 0),
            Command::SpawnReducer(3, 1),
            Command::SetSeed(2, t),
            Command::RequestNext(2),
            Command::SetSeed(3, t),
            Command::RequestNext(3),
        ]
    );
}

#[test]
fn interrupt_discards_queue() {
    let t = Interesting { id: 0, size: 10 };
    let (mut sup, _) = Supervisor::spawn(1, 1, Some(t)).unwrap();
    sup.start_iteration().unwrap();
    let p = Potential { id: 4, size: 4 };
    sup.reply_next_reduction(0, p, 1);
    let s = sup.got_sigint();
    assert_eq!(s.outcome, Outcome::Interrupted);
    assert_eq!(s.commands, vec![Command::ShutdownWorker(0), Command::Discard(p)]);
}

#[test]
fn not_interesting_is_observed() {
    let t = Interesting { id: 0, size: 10 };
    let (mut sup, _) = Supervisor::spawn(1, 1, Some(t)).unwrap();
    sup.start_iteration().unwrap();
    let p = Potential { id: 4, size: 4 };
    let s = sup.request_next_reduction(0, Some(p));
    assert_eq!(s.commands, vec![Command::ObserveNotInteresting(p)]);
}

#[test]
fn equal_size_report_is_not_smaller() {
    let t = Interesting { id: 0, size: 10 };
    let (mut sup, _) = Supervisor::spawn(1, 1, Some(t)).unwrap();
    sup.start_iteration().unwrap();
    let same = Interesting { id: 3, size: 10 };
    let s = sup.report_interesting(0, same).unwrap();
    assert_eq!(s.commands, vec![Command::NotSmaller(same)]);
    assert_eq!(sup.smallest(), t);
    assert_eq!(sup.idle_worker_ids(), vec![0]);
}

#[test]
fn candidate_waits_without_idle_worker() {
    let t = Interesting { id: 0, size: 10 };
    let (mut sup, _) = Supervisor::spawn(1, 1, Some(t)).unwrap();
    sup.start_iteration().unwrap();
    let p = Potential { id: 2, size: 3 };
    let s = sup.reply_next_reduction(0, p, 1);
    assert!(s.commands.is_empty());
    assert_eq!(sup.queue_len(), 1);
    let s = sup.request_next_reduction(0, None);
    assert_eq!(s.commands[0], Command::Evaluate(0, p));
    assert_eq!(sup.queue_len(), 0);
}
