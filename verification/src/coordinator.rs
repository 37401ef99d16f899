//! The coordinator of an evaluation: hands queued paths to idle workers and takes in what they
//! return.
//!
//! Running a worker on a path is the caller's part. The caller asks for a [`Round`], sends each
//! assignment to its worker, waits for one worker to return an event, hands the event to
//! [`Coordinator::finish`], and starts over until a round or a returned event ends the evaluation.

use std::collections::VecDeque;

use vstd::prelude::*;
use vstd::string::*;

use crate::scheduler::{
    completed_work, first_eligible, law_first_eligible_item_is_handed_out,
    law_worker_without_work_waits, local_specs, local_workers, next_work, pool, pool_fits, remote_specs,
    remote_without_workers, remote_workers, seeded, validate_config, worker_specs, CompletedWork,
    CompletedWorkView, NextWork, NextWorkView, Scheduler, SchedulerView, WorkItem, WorkItemView,
    WorkerSpec, WorkerSpecView,
};
use crate::keyed_map::Duplicate;
use crate::types::{Config, ConfigView, Event, EventView, RemoteView};

verus! {

/// An attribute path for a worker to evaluate.
pub struct Assignment {
    pub worker: usize,
    pub path: Vec<String>,
}

pub struct AssignmentView {
    pub worker: usize,
    pub path: Seq<Seq<char>>,
}

impl View for Assignment {
    type V = AssignmentView;

    open spec fn view(&self) -> AssignmentView {
        AssignmentView { worker: self.worker, path: self.path.deep_view() }
    }
}

impl DeepView for Assignment {
    type V = AssignmentView;

    open spec fn deep_view(&self) -> AssignmentView {
        self@
    }
}

/// How a round leaves the evaluation.
pub enum RoundEnd {
    /// Some worker is busy.
    Running,
    /// The evaluation is over.
    Done,
    /// The evaluation failed.
    Failed(String),
}

pub enum RoundEndView {
    Running,
    Done,
    Failed(Seq<char>),
}

impl View for RoundEnd {
    type V = RoundEndView;

    open spec fn view(&self) -> RoundEndView {
        match self {
            RoundEnd::Running => RoundEndView::Running,
            RoundEnd::Done => RoundEndView::Done,
            RoundEnd::Failed(error) => RoundEndView::Failed(error@),
        }
    }
}

/// The work handed out at one time, and how that leaves the evaluation.
pub struct Round {
    pub assignments: Vec<Assignment>,
    pub end: RoundEnd,
}

pub struct RoundView {
    pub assignments: Seq<AssignmentView>,
    pub end: RoundEndView,
}

impl View for Round {
    type V = RoundView;

    open spec fn view(&self) -> RoundView {
        RoundView { assignments: self.assignments.deep_view(), end: self.end@ }
    }
}

/// The workers of an evaluation, what each of them is at, and what is left to do.
pub struct Coordinator {
    pub scheduler: Scheduler,
    pub workers: Vec<WorkerSpec>,
    /// The workers without work, in the order in which they are asked.
    pub idle: VecDeque<usize>,
    /// The item that each worker is at.
    pub running: Vec<Option<WorkItem>>,
}

#[verifier::ext_equal]
pub struct CoordinatorView {
    pub scheduler: SchedulerView,
    pub workers: Seq<WorkerSpecView>,
    pub idle: Seq<usize>,
    pub running: Seq<Option<WorkItemView>>,
}

impl View for Coordinator {
    type V = CoordinatorView;

    open spec fn view(&self) -> CoordinatorView {
        CoordinatorView {
            scheduler: self.scheduler@,
            workers: self.workers.deep_view(),
            idle: self.idle@,
            running: self.running.deep_view(),
        }
    }
}

impl CoordinatorView {
    /// Whether workers are numbered by their places and each of them is either idle or at one of
    /// the active items.
    pub open spec fn wf(self) -> bool {
        &&& self.running.len() == self.workers.len() <= usize::MAX
        &&& self.scheduler.worker_count == self.workers.len()
        &&& self.scheduler.active + self.idle.len() == self.workers.len()
        &&& self.idle.no_duplicates()
        &&& forall|w: int| 0 <= w < self.workers.len() ==> (#[trigger] self.workers[w]).id == w
        &&& forall|i: int|
            0 <= i < self.idle.len() ==> (#[trigger] self.idle[i]) < self.workers.len()
                && self.running[self.idle[i] as int] is None
        &&& forall|w: int|
            0 <= w < self.running.len() && (#[trigger] self.running[w]) is None
                ==> self.idle.contains(w as usize)
    }
}

/// The coordinator of a fresh evaluation by a pool of workers.
pub open spec fn fresh(workers: Seq<WorkerSpecView>) -> CoordinatorView {
    CoordinatorView {
        scheduler: seeded(workers.len()),
        workers,
        idle: Seq::new(workers.len(), |i: int| i as usize),
        running: Seq::new(workers.len(), |i: int| None::<WorkItemView>),
    }
}

/// What asking the next `n` idle workers gives.
pub open spec fn dispatched(c: CoordinatorView, n: nat) -> (CoordinatorView, RoundView)
    decreases n,
{
    if n == 0 {
        (c, RoundView { assignments: Seq::empty(), end: RoundEndView::Running })
    } else {
        let worker = c.idle[0];
        let (scheduler, next) = next_work(c.scheduler, worker);
        match next {
            NextWorkView::Dispatch(item) => {
                let (after, rest) = dispatched(
                    CoordinatorView {
                        scheduler,
                        idle: c.idle.skip(1),
                        running: c.running.update(worker as int, Some(item)),
                        ..c
                    },
                    (n - 1) as nat,
                );
                let first = AssignmentView { worker, path: item.path };
                (after, RoundView { assignments: seq![first] + rest.assignments, ..rest })
            },
            NextWorkView::Wait => dispatched(
                CoordinatorView { scheduler, idle: c.idle.skip(1).push(worker), ..c },
                (n - 1) as nat,
            ),
            NextWorkView::Done => (
                CoordinatorView { scheduler, ..c },
                RoundView { assignments: Seq::empty(), end: RoundEndView::Done },
            ),
            NextWorkView::Fatal(error) => (
                CoordinatorView { scheduler, ..c },
                RoundView { assignments: Seq::empty(), end: RoundEndView::Failed(error) },
            ),
        }
    }
}

/// What a round gives: each idle worker is asked once, unless the evaluation is cancelled.
pub open spec fn round_of(c: CoordinatorView, cancelled: bool) -> (CoordinatorView, RoundView) {
    if cancelled {
        (c, RoundView { assignments: Seq::empty(), end: RoundEndView::Done })
    } else {
        let (after, round) = dispatched(c, c.idle.len());
        let end = if round.end !is Running {
            round.end
        } else if after.scheduler.todo.len() == 0 && after.scheduler.active == 0 {
            RoundEndView::Done
        } else if after.scheduler.active == 0 && after.idle.len() == after.workers.len() {
            RoundEndView::Failed("scheduler stalled with no active workers"@)
        } else {
            RoundEndView::Running
        };
        (after, RoundView { end, ..round })
    }
}

/// What follows from an event that a busy worker returned.
pub open spec fn finished(c: CoordinatorView, worker: usize, event: EventView) -> (
    CoordinatorView,
    CompletedWorkView,
) {
    let item = c.running[worker as int]->0;
    let (scheduler, completed) = completed_work(
        c.scheduler,
        c.workers[worker as int],
        item,
        event,
    );
    (
        CoordinatorView {
            scheduler,
            idle: c.idle.push(worker),
            running: c.running.update(worker as int, None),
            ..c
        },
        completed,
    )
}

/// The message about a worker that returned no event.
pub open spec fn worker_failed(label: Seq<char>) -> Seq<char> {
    "worker "@ + label + " failed"@
}

/// The message about a worker that takes no work.
pub open spec fn worker_unreachable(label: Seq<char>) -> Seq<char> {
    "sending work to worker "@ + label
}

/// A round with one more assignment in front for each of `first`.
spec fn prefixed(first: Seq<AssignmentView>, outcome: (CoordinatorView, RoundView)) -> (
    CoordinatorView,
    RoundView,
) {
    (
        outcome.0,
        RoundView { assignments: first + outcome.1.assignments, ..outcome.1 },
    )
}

/// Asking the next idle worker keeps the coordinator in order.
pub proof fn lemma_next_keeps_wf(c: CoordinatorView)
    requires
        c.wf(),
        c.idle.len() > 0,
    ensures
        ({
            let worker = c.idle[0];
            let (scheduler, next) = next_work(c.scheduler, worker);
            match next {
                NextWorkView::Dispatch(item) => CoordinatorView {
                    scheduler,
                    idle: c.idle.skip(1),
                    running: c.running.update(worker as int, Some(item)),
                    ..c
                }.wf(),
                NextWorkView::Wait => CoordinatorView {
                    scheduler,
                    idle: c.idle.skip(1).push(worker),
                    ..c
                }.wf(),
                _ => CoordinatorView { scheduler, ..c }.wf(),
            }
        }),
{
    let worker = c.idle[0];
    let (scheduler, next) = next_work(c.scheduler, worker);
    let rest = c.idle.skip(1);
    assert(c.idle[0] < c.workers.len() && c.running[c.idle[0] as int] is None);
    assert forall|i: int, j: int| 0 <= i < rest.len() && 0 <= j < rest.len() && i != j implies
        rest[i] != rest[j] by {
        assert(rest[i] == c.idle[i + 1] && rest[j] == c.idle[j + 1]);
    }
    assert forall|i: int| 0 <= i < rest.len() implies (#[trigger] rest[i]) < c.workers.len()
        && c.running[rest[i] as int] is None && rest[i] != worker by {
        assert(rest[i] == c.idle[i + 1]);
    }
    assert forall|w: int| 0 <= w < c.running.len() && w != worker && (#[trigger] c.running[w]) is None implies rest.contains(w as usize) by {
        assert(c.idle.contains(w as usize));
        let k = choose|k: int| 0 <= k < c.idle.len() && c.idle[k] == w as usize;
        assert(rest[k - 1] == w as usize);
    }
    let waiting = rest.push(worker);
    assert forall|w: int| 0 <= w < c.running.len() && (#[trigger] c.running[w]) is None implies waiting.contains(w as usize) by {
        if w == worker {
            assert(waiting[waiting.len() - 1] == w as usize);
        } else {
            assert(rest.contains(w as usize));
            let k = choose|k: int| 0 <= k < rest.len() && rest[k] == w as usize;
            assert(waiting[k] == w as usize);
        }
    }
    assert forall|i: int| 0 <= i < waiting.len() implies (#[trigger] waiting[i]) < c.workers.len()
        && c.running[waiting[i] as int] is None by {
        if i < rest.len() {
            assert(waiting[i] == rest[i]);
        }
    }
    assert(waiting.no_duplicates()) by {
        assert forall|i: int, j: int| 0 <= i < waiting.len() && 0 <= j < waiting.len() && i != j implies waiting[i] != waiting[j] by {
            if i < rest.len() {
                assert(waiting[i] == rest[i]);
            }
            if j < rest.len() {
                assert(waiting[j] == rest[j]);
            }
        }
    }
    if let NextWorkView::Dispatch(item) = next {
        let running = c.running.update(worker as int, Some(item));
        assert forall|w: int| 0 <= w < running.len() && (#[trigger] running[w]) is None implies rest.contains(w as usize) by {
            assert(w != worker);
            assert(running[w] == c.running[w]);
        }
        assert forall|i: int| 0 <= i < rest.len() implies (#[trigger] rest[i]) < c.workers.len()
            && running[rest[i] as int] is None by {
            assert(rest[i] != worker);
        }
    }
}

proof fn lemma_dispatched_wf(c: CoordinatorView, n: nat)
    requires
        c.wf(),
        n <= c.idle.len(),
    ensures
        dispatched(c, n).0.wf(),
        dispatched(c, n).0.workers == c.workers,
    decreases n,
{
    if n > 0 {
        let worker = c.idle[0];
        let (scheduler, next) = next_work(c.scheduler, worker);
        lemma_next_keeps_wf(c);
        match next {
            NextWorkView::Dispatch(item) => {
                let after = CoordinatorView {
                    scheduler,
                    idle: c.idle.skip(1),
                    running: c.running.update(worker as int, Some(item)),
                    ..c
                };
                lemma_dispatched_wf(after, (n - 1) as nat);
            },
            NextWorkView::Wait => {
                let after = CoordinatorView { scheduler, idle: c.idle.skip(1).push(worker), ..c };
                lemma_dispatched_wf(after, (n - 1) as nat);
            },
            _ => {},
        }
    }
}

/// Asking idle workers for work keeps the coordinator in order: each worker is idle or at one
/// item, and the active items are those that workers are at.
pub proof fn law_round_keeps_order(c: CoordinatorView, cancelled: bool)
    requires
        c.wf(),
    ensures
        round_of(c, cancelled).0.wf(),
        round_of(c, cancelled).0.workers == c.workers,
{
    lemma_dispatched_wf(c, c.idle.len());
}

/// Taking in an event keeps the coordinator in order: the worker is idle again.
pub proof fn law_finish_keeps_order(c: CoordinatorView, worker: usize, event: EventView)
    requires
        c.wf(),
        worker < c.running.len(),
        c.running[worker as int] is Some,
    ensures
        finished(c, worker, event).0.wf(),
        finished(c, worker, event).0.workers == c.workers,
        c.scheduler.active > 0,
{
    let after = finished(c, worker, event).0;
    lemma_busy_worker_is_active(c, worker);
    assert(!c.idle.contains(worker));
    assert forall|w: int| 0 <= w < after.running.len() && (#[trigger] after.running[w]) is None implies after.idle.contains(w as usize) by {
        if w == worker {
            assert(after.idle[c.idle.len() as int] == w as usize);
        } else {
            assert(c.running[w] is None);
            let k = choose|k: int| 0 <= k < c.idle.len() && c.idle[k] == w as usize;
            assert(after.idle[k] == w as usize);
        }
    }
    assert forall|i: int| 0 <= i < after.idle.len() implies (#[trigger] after.idle[i]) < after.workers.len() && after.running[after.idle[i] as int] is None by {
        if i < c.idle.len() {
            assert(after.idle[i] == c.idle[i]);
        }
    }
    assert(after.idle.no_duplicates()) by {
        assert forall|i: int, j: int| 0 <= i < after.idle.len() && 0 <= j < after.idle.len() && i != j implies after.idle[i] != after.idle[j] by {
            if i < c.idle.len() {
                assert(after.idle[i] == c.idle[i]);
            }
            if j < c.idle.len() {
                assert(after.idle[j] == c.idle[j]);
            }
        }
    }
}

/// As many workers as there are cannot all be idle where one of them is not.
proof fn lemma_busy_worker_is_active(c: CoordinatorView, worker: usize)
    requires
        c.wf(),
        worker < c.running.len(),
        c.running[worker as int] is Some,
    ensures
        c.scheduler.active > 0,
{
    if c.scheduler.active == 0 {
        let places = Seq::new(c.workers.len(), |i: int| i as usize);
        c.idle.unique_seq_to_set();
        assert forall|i: int, j: int| 0 <= i < places.len() && 0 <= j < places.len() && i != j implies places[i] != places[j] by {
            assert(places[i] == i as usize && places[j] == j as usize);
        }
        places.unique_seq_to_set();
        assert(c.idle.to_set().subset_of(places.to_set())) by {
            assert forall|x: usize| c.idle.to_set().contains(x) implies places.to_set().contains(x) by {
                let k = choose|k: int| 0 <= k < c.idle.len() && c.idle[k] == x;
                assert(c.idle[k] < c.workers.len());
                assert(places[x as int] == x);
            }
        }
        vstd::set_lib::lemma_subset_equality(c.idle.to_set(), places.to_set());
        assert(places[worker as int] == worker);
        assert(places.to_set().contains(worker));
        assert(c.idle.to_set().contains(worker));
        let k = choose|k: int| 0 <= k < c.idle.len() && c.idle[k] == worker;
        assert(c.running[c.idle[k] as int] is None);
    }
}

proof fn lemma_remote_specs_numbered(remotes: Seq<RemoteView>, first: nat)
    requires
        first + remote_workers(remotes) <= usize::MAX,
    ensures
        remote_specs(remotes, first).len() == remote_workers(remotes),
        forall|i: int|
            0 <= i < remote_specs(remotes, first).len() ==> (#[trigger] remote_specs(
                remotes,
                first,
            )[i]).id == first + i,
    decreases remotes.len(),
{
    if remotes.len() > 0 {
        lemma_remote_specs_numbered(remotes.drop_last(), first);
        let before = remote_specs(remotes.drop_last(), first);
        let all = remote_specs(remotes, first);
        assert forall|i: int| 0 <= i < all.len() implies (#[trigger] all[i]).id == first + i by {
            if i < before.len() {
                assert(all[i] == before[i]);
            }
        }
    }
}

/// The workers of a pool are numbered by their places, and every configuration has one: with no
/// local worker asked for and no remote one, there is still a local one.
pub proof fn law_pool(config: ConfigView)
    requires
        pool_fits(config),
    ensures
        0 < pool(config).len() == local_workers(config) + remote_workers(config.remotes),
        forall|i: int|
            0 <= i < pool(config).len() ==> (#[trigger] pool(config)[i]).id == i,
        config.workers == 0 && remote_workers(config.remotes) > 0 ==> local_workers(config) == 0,
{
    lemma_remote_specs_numbered(config.remotes, local_workers(config));
    let local = local_specs(local_workers(config));
    let remote = remote_specs(config.remotes, local_workers(config));
    assert forall|i: int| 0 <= i < pool(config).len() implies (#[trigger] pool(config)[i]).id
        == i by {
        if i < local.len() {
            assert(pool(config)[i] == local[i]);
        } else {
            assert(pool(config)[i] == remote[i - local.len()]);
        }
    }
}

/// A fresh coordinator is in order: every worker is idle.
pub proof fn law_fresh_is_in_order(config: ConfigView)
    requires
        pool_fits(config),
    ensures
        fresh(pool(config)).wf(),
{
    law_pool(config);
    let c = fresh(pool(config));
    assert forall|w: int| 0 <= w < c.running.len() && (#[trigger] c.running[w]) is None implies c.idle.contains(w as usize) by {
        assert(c.idle[w] == w as usize);
    }
    assert(c.idle.no_duplicates()) by {
        assert forall|i: int, j: int| 0 <= i < c.idle.len() && 0 <= j < c.idle.len() && i != j implies c.idle[i] != c.idle[j] by {
            assert(c.idle[i] == i as usize && c.idle[j] == j as usize);
        }
    }
}

impl Coordinator {
    /// Checks a configuration and starts an evaluation by its worker pool.
    pub fn start(config: &Config) -> (result: Result<Self, String>)
        requires
            pool_fits(config@),
        ensures
            match result {
                Ok(coordinator) => remote_without_workers(config@.remotes) is None
                    && coordinator@ == fresh(pool(config@)) && coordinator@.wf(),
                Err(message) => remote_without_workers(config@.remotes) == Some(message@),
            },
    {
        match validate_config(config) {
            Ok(_) => {},
            Err(message) => return Err(message),
        }
        let workers = worker_specs(config);
        let scheduler = Scheduler::new(workers.len());
        let mut idle: VecDeque<usize> = VecDeque::new();
        let mut running: Vec<Option<WorkItem>> = Vec::new();
        let mut i: usize = 0;
        while i < workers.len()
            invariant
                i <= workers@.len(),
                idle@ =~= Seq::new(i as nat, |k: int| k as usize),
                running.deep_view() =~= Seq::new(i as nat, |k: int| None::<WorkItemView>),
            decreases workers@.len() - i,
        {
            let ghost before = running.deep_view();
            idle.push_back(i);
            running.push(None);
            assert(running.deep_view() =~= before.push(None));
            i += 1;
        }
        let coordinator = Coordinator { scheduler, workers, idle, running };
        proof {
            law_fresh_is_in_order(config@);
            assert(coordinator@ =~= fresh(pool(config@)));
        }
        Ok(coordinator)
    }

    /// Asks each idle worker once, and hands out the items that they are eligible for.
    pub fn round(&mut self, cancelled: bool) -> (round: Round)
        requires
            old(self)@.wf(),
        ensures
            (final(self)@, round@) == round_of(old(self)@, cancelled),
            final(self)@.wf(),
    {
        if cancelled {
            let round = Round { assignments: Vec::new(), end: RoundEnd::Done };
            assert(round@.assignments =~= Seq::empty());
            return round;
        }
        let ghost start = self@;
        let mut assignments: Vec<Assignment> = Vec::new();
        let mut left: usize = self.idle.len();
        assert(assignments.deep_view() =~= Seq::empty());
        proof {
            law_round_keeps_order(start, false);
            lemma_no_prefix(dispatched(start, start.idle.len()));
        }
        while left > 0
            invariant
                !cancelled,
                start == old(self)@,
                self@.wf(),
                left <= self.idle@.len(),
                prefixed(assignments.deep_view(), dispatched(self@, left as nat)) == dispatched(
                    start,
                    start.idle.len(),
                ),
            decreases left,
        {
            let ghost before = self@;
            proof {
                lemma_next_keeps_wf(before);
            }
            let worker: usize = match self.idle.pop_front() {
                Some(worker) => worker,
                None => 0,
            };
            assert(self.idle@ =~= before.idle.skip(1));
            match self.scheduler.next_for(worker) {
                NextWork::Dispatch(item) => {
                    let ghost handed = assignments.deep_view();
                    let assignment = Assignment { worker, path: item.path.duplicate() };
                    assignments.push(assignment);
                    let ghost slots = self.running.deep_view();
                    self.running.set(worker, Some(item));
                    proof {
                        assert(assignments.deep_view() =~= handed.push(assignment@));
                        assert(self.running.deep_view() =~= slots.update(
                            worker as int,
                            Some(item@),
                        ));
                        let rest = dispatched(self@, (left - 1) as nat);
                        assert(handed + (seq![assignment@] + rest.1.assignments)
                            =~= handed.push(assignment@) + rest.1.assignments);
                    }
                },
                NextWork::Wait => {
                    self.idle.push_back(worker);
                },
                NextWork::Done => {
                    self.idle.push_front(worker);
                    assert(self.idle@ =~= before.idle);
                    assert(assignments.deep_view() + Seq::empty() =~= assignments.deep_view());
                    return Round { assignments, end: RoundEnd::Done };
                },
                NextWork::Fatal(error) => {
                    self.idle.push_front(worker);
                    assert(self.idle@ =~= before.idle);
                    assert(assignments.deep_view() + Seq::empty() =~= assignments.deep_view());
                    return Round { assignments, end: RoundEnd::Failed(error) };
                },
            }
            left -= 1;
        }
        assert(assignments.deep_view() + Seq::empty() =~= assignments.deep_view());
        if self.scheduler.is_done() {
            return Round { assignments, end: RoundEnd::Done };
        }
        if !self.scheduler.has_active_work() && self.idle.len() == self.workers.len() {
            return Round {
                assignments,
                end: RoundEnd::Failed("scheduler stalled with no active workers".to_owned()),
            };
        }
        Round { assignments, end: RoundEnd::Running }
    }

    /// Whether a worker is at an item.
    pub fn is_busy(&self, worker: usize) -> (yes: bool)
        ensures
            yes == (worker < self@.running.len() && self@.running[worker as int] is Some),
    {
        worker < self.running.len() && self.running[worker].is_some()
    }

    /// Takes in the event that a busy worker returned.
    pub fn finish(&mut self, worker: usize, event: &Event) -> (completed: CompletedWork)
        requires
            old(self)@.wf(),
            worker < old(self)@.running.len(),
            old(self)@.running[worker as int] is Some,
        ensures
            (final(self)@, completed@) == finished(old(self)@, worker, event@),
            final(self)@.wf(),
    {
        let ghost before = self@;
        proof {
            law_finish_keeps_order(before, worker, event@);
        }
        self.idle.push_back(worker);
        let ghost slots = self.running.deep_view();
        let mut slot: Option<WorkItem> = None;
        assert(self.running@[worker as int].deep_view() == slots[worker as int]);
        self.running.set_and_swap(worker, &mut slot);
        assert(self.running.deep_view() =~= slots.update(worker as int, None));
        match slot {
            Some(item) => self.scheduler.complete(&self.workers[worker], item, event),
            None => CompletedWork { emit: false, fatal_error: None },
        }
    }

    /// The message about a worker that failed to return an event.
    pub fn worker_failure(&self, worker: usize) -> (message: String)
        requires
            worker < self@.workers.len(),
        ensures
            message@ == worker_failed(self@.workers[worker as int].label),
    {
        "worker ".to_owned().concat(self.workers[worker].label.as_str()).concat(" failed")
    }

    /// The message about a worker that takes no work.
    pub fn send_failure(&self, worker: usize) -> (message: String)
        requires
            worker < self@.workers.len(),
        ensures
            message@ == worker_unreachable(self@.workers[worker as int].label),
    {
        "sending work to worker ".to_owned().concat(self.workers[worker].label.as_str())
    }
}

proof fn lemma_no_prefix(outcome: (CoordinatorView, RoundView))
    ensures
        prefixed(Seq::empty(), outcome) == outcome,
{
    assert(Seq::empty() + outcome.1.assignments =~= outcome.1.assignments);
}

proof fn lemma_dispatched_done(c: CoordinatorView, n: nat)
    requires
        c.scheduler.error is None,
    ensures
        ({
            let (after, round) = dispatched(c, n);
            (round.end is Done || (round.end is Running && after.scheduler.todo.len() == 0
                && after.scheduler.active == 0)) <==> (c.scheduler.todo.len() == 0
                && c.scheduler.active == 0)
        }),
    decreases n,
{
    if n > 0 {
        let worker = c.idle[0];
        let (scheduler, next) = next_work(c.scheduler, worker);
        match next {
            NextWorkView::Dispatch(item) => {
                let after = CoordinatorView {
                    scheduler,
                    idle: c.idle.skip(1),
                    running: c.running.update(worker as int, Some(item)),
                    ..c
                };
                lemma_dispatched_done(after, (n - 1) as nat);
            },
            NextWorkView::Wait => {
                let after = CoordinatorView { scheduler, idle: c.idle.skip(1).push(worker), ..c };
                lemma_dispatched_done(after, (n - 1) as nat);
            },
            _ => {},
        }
    }
}

/// An evaluation that neither failed nor is cancelled is over exactly when the queue is empty and
/// no worker is busy.
pub proof fn law_done_when_nothing_is_left(c: CoordinatorView)
    requires
        c.wf(),
        c.scheduler.error is None,
    ensures
        round_of(c, false).1.end is Done <==> (c.scheduler.todo.len() == 0 && c.scheduler.active
            == 0),
{
    lemma_dispatched_done(c, c.idle.len());
}

/// A round of a cancelled evaluation hands nothing out and ends it.
pub proof fn law_cancelled_evaluations_end(c: CoordinatorView)
    ensures
        round_of(c, true).0 == c,
        round_of(c, true).1.assignments.len() == 0,
        round_of(c, true).1.end is Done,
{
}

/// Taking in an event frees the worker, which is asked behind the other idle ones; the others stay
/// at what they are at. What becomes of the event is what the scheduler says for the item that the
/// worker was at.
pub proof fn law_finish_frees_the_worker(
    c: CoordinatorView,
    worker: usize,
    event: EventView,
    other: int,
)
    requires
        c.wf(),
        worker < c.running.len(),
        c.running[worker as int] is Some,
    ensures
        ({
            let (after, completed) = finished(c, worker, event);
            let item = c.running[worker as int]->0;
            &&& after.running.len() == c.running.len()
            &&& after.running[worker as int] is None
            &&& 0 <= other < c.running.len() && other != worker ==> after.running[other]
                == c.running[other]
            &&& after.idle.drop_last() == c.idle
            &&& after.idle.last() == worker
            &&& after.workers == c.workers
            &&& (after.scheduler, completed) == completed_work(
                c.scheduler,
                c.workers[worker as int],
                item,
                event,
            )
        }),
{
    assert(c.idle.push(worker).drop_last() =~= c.idle);
}

proof fn lemma_assigned(c: CoordinatorView, n: nat, k: int)
    requires
        c.wf(),
        n <= c.idle.len(),
    ensures
        ({
            let (after, round) = dispatched(c, n);
            &&& after.running.len() == c.running.len()
            &&& forall|w: int|
                0 <= w < c.running.len() && (#[trigger] c.running[w]) is Some ==> after.running[w]
                    == c.running[w]
            &&& 0 <= k < round.assignments.len() ==> {
                let given = round.assignments[k];
                &&& given.worker < c.running.len()
                &&& c.running[given.worker as int] is None
                &&& after.running[given.worker as int] is Some
                &&& (after.running[given.worker as int]->0).path == given.path
            }
            &&& after.scheduler.active == c.scheduler.active + round.assignments.len()
            &&& after.scheduler.todo.len() + round.assignments.len() == c.scheduler.todo.len()
            &&& after.scheduler.worker_count == c.scheduler.worker_count
        }),
    decreases n,
{
    if n > 0 {
        let worker = c.idle[0];
        let (scheduler, next) = next_work(c.scheduler, worker);
        lemma_next_keeps_wf(c);
        assert(c.running[c.idle[0] as int] is None);
        lemma_first_eligible_place(c.scheduler.todo, worker);
        match next {
            NextWorkView::Dispatch(item) => {
                let then = CoordinatorView {
                    scheduler,
                    idle: c.idle.skip(1),
                    running: c.running.update(worker as int, Some(item)),
                    ..c
                };
                lemma_assigned(then, (n - 1) as nat, k - 1);
                let (after, rest) = dispatched(then, (n - 1) as nat);
                let round = dispatched(c, n).1;
                assert(then.running[worker as int] is Some);
                assert forall|w: int|
                    0 <= w < c.running.len() && (#[trigger] c.running[w]) is Some implies
                    after.running[w] == c.running[w] by {
                    assert(then.running[w] == c.running[w]);
                }
                if 0 < k < round.assignments.len() {
                    assert(round.assignments[k] == rest.assignments[k - 1]);
                    let given = rest.assignments[k - 1];
                    assert(then.running[given.worker as int] is None);
                    assert(given.worker != worker);
                }
            },
            NextWorkView::Wait => {
                let then = CoordinatorView { scheduler, idle: c.idle.skip(1).push(worker), ..c };
                lemma_assigned(then, (n - 1) as nat, k);
            },
            _ => {},
        }
    }
}

proof fn lemma_first_eligible_place(todo: Seq<WorkItemView>, worker: usize)
    ensures
        match first_eligible(todo, worker) {
            Some(i) => 0 <= i < todo.len() && !todo[i].rejected_by.contains(worker),
            None => forall|i: int|
                0 <= i < todo.len() ==> (#[trigger] todo[i]).rejected_by.contains(worker),
        },
    decreases todo.len(),
{
    if todo.len() > 0 {
        lemma_first_eligible_place(todo.drop_last(), worker);
        if first_eligible(todo, worker) is None {
            assert forall|i: int| 0 <= i < todo.len() implies (
            #[trigger] todo[i]).rejected_by.contains(worker) by {
                if i < todo.len() - 1 {
                    assert(todo.drop_last()[i] == todo[i]);
                }
            }
        }
    }
}

/// A round hands out queued items to idle workers: each assignment is of a worker that had nothing
/// to do, which is then at the assigned path. Busy workers stay at what they are at, and each item
/// that leaves the queue is assigned.
pub proof fn law_rounds_assign_to_idle_workers(c: CoordinatorView, k: int, w: int)
    requires
        c.wf(),
    ensures
        ({
            let (after, round) = round_of(c, false);
            &&& 0 <= k < round.assignments.len() ==> {
                let given = round.assignments[k];
                &&& given.worker < c.running.len()
                &&& c.running[given.worker as int] is None
                &&& after.running[given.worker as int] is Some
                &&& (after.running[given.worker as int]->0).path == given.path
            }
            &&& 0 <= w < c.running.len() && c.running[w] is Some ==> after.running[w]
                == c.running[w]
            &&& after.scheduler.active == c.scheduler.active + round.assignments.len()
            &&& after.scheduler.todo.len() + round.assignments.len() == c.scheduler.todo.len()
        }),
{
    lemma_assigned(c, c.idle.len(), k);
}

proof fn lemma_only_removed(c: CoordinatorView, n: nat, i: int)
    ensures
        0 <= i < dispatched(c, n).0.scheduler.todo.len() ==> c.scheduler.todo.contains(
            dispatched(c, n).0.scheduler.todo[i],
        ),
    decreases n,
{
    if n > 0 {
        let worker = c.idle[0];
        let (scheduler, next) = next_work(c.scheduler, worker);
        lemma_first_eligible_place(c.scheduler.todo, worker);
        match next {
            NextWorkView::Dispatch(item) => {
                let then = CoordinatorView {
                    scheduler,
                    idle: c.idle.skip(1),
                    running: c.running.update(worker as int, Some(item)),
                    ..c
                };
                lemma_only_removed(then, (n - 1) as nat, i);
                let after = dispatched(c, n).0;
                if 0 <= i < after.scheduler.todo.len() {
                    let left = scheduler.todo;
                    let x = after.scheduler.todo[i];
                    let m = choose|m: int| 0 <= m < left.len() && left[m] == x;
                    let at = first_eligible(c.scheduler.todo, worker)->0;
                    if m < at {
                        assert(c.scheduler.todo[m] == x);
                    } else {
                        assert(c.scheduler.todo[m + 1] == x);
                    }
                }
            },
            NextWorkView::Wait => {
                let then = CoordinatorView { scheduler, idle: c.idle.skip(1).push(worker), ..c };
                lemma_only_removed(then, (n - 1) as nat, i);
            },
            _ => {
                if 0 <= i < c.scheduler.todo.len() {
                    assert(c.scheduler.todo.contains(c.scheduler.todo[i]));
                }
            },
        }
    } else if 0 <= i < c.scheduler.todo.len() {
        assert(c.scheduler.todo.contains(c.scheduler.todo[i]));
    }
}

proof fn lemma_all_asked(c: CoordinatorView, n: nat, w: int, i: int)
    requires
        c.wf(),
        n <= c.idle.len(),
        dispatched(c, n).1.end is Running,
    ensures
        ({
            let after = dispatched(c, n).0;
            0 <= w < n && after.running[c.idle[w] as int] is None && 0 <= i
                < after.scheduler.todo.len() ==> after.scheduler.todo[i].rejected_by.contains(
                c.idle[w],
            )
        }),
    decreases n,
{
    let after = dispatched(c, n).0;
    if n > 0 && 0 <= w < n && after.running[c.idle[w] as int] is None && 0 <= i
        < after.scheduler.todo.len() {
        let worker = c.idle[0];
        let (scheduler, next) = next_work(c.scheduler, worker);
        lemma_next_keeps_wf(c);
        lemma_first_eligible_place(c.scheduler.todo, worker);
        match next {
            NextWorkView::Dispatch(item) => {
                let then = CoordinatorView {
                    scheduler,
                    idle: c.idle.skip(1),
                    running: c.running.update(worker as int, Some(item)),
                    ..c
                };
                lemma_assigned(then, (n - 1) as nat, 0);
                assert(then.running[worker as int] is Some);
                if w > 0 {
                    assert(then.idle[w - 1] == c.idle[w]);
                    lemma_all_asked(then, (n - 1) as nat, w - 1, i);
                }
            },
            NextWorkView::Wait => {
                let then = CoordinatorView { scheduler, idle: c.idle.skip(1).push(worker), ..c };
                if w > 0 {
                    assert(then.idle[w - 1] == c.idle[w]);
                    lemma_all_asked(then, (n - 1) as nat, w - 1, i);
                } else {
                    lemma_only_removed(c, n, i);
                    let x = after.scheduler.todo[i];
                    let m = choose|m: int|
                        0 <= m < c.scheduler.todo.len() && c.scheduler.todo[m] == x;
                    assert(c.scheduler.todo[m].rejected_by.contains(worker));
                }
            },
            _ => {},
        }
    }
}

/// A round leaves no worker idle that could work: where the evaluation goes on, a worker without
/// work has rejected every item that is still queued.
pub proof fn law_rounds_keep_everyone_busy(c: CoordinatorView, w: int, i: int)
    requires
        c.wf(),
        round_of(c, false).1.end is Running,
        0 <= w < c.running.len(),
        round_of(c, false).0.running[w] is None,
        0 <= i < round_of(c, false).0.scheduler.todo.len(),
    ensures
        round_of(c, false).0.scheduler.todo[i].rejected_by.contains(w as usize),
{
    lemma_assigned(c, c.idle.len(), 0);
    if c.running[w] is Some {
        assert(false);
    }
    assert(c.idle.contains(w as usize));
    let k = choose|k: int| 0 <= k < c.idle.len() && c.idle[k] == w as usize;
    lemma_all_asked(c, c.idle.len(), k, i);
}

/// The first idle worker of a round gets the first queued item that it has not rejected.
pub proof fn law_first_idle_worker_is_asked_first(c: CoordinatorView, i: int)
    requires
        c.wf(),
        c.idle.len() > 0,
        c.scheduler.error is None,
        0 <= i < c.scheduler.todo.len(),
        !c.scheduler.todo[i].rejected_by.contains(c.idle[0]),
        forall|j: int|
            0 <= j < i ==> (#[trigger] c.scheduler.todo[j]).rejected_by.contains(c.idle[0]),
    ensures
        round_of(c, false).1.assignments.len() > 0,
        round_of(c, false).1.assignments[0] == (AssignmentView {
            worker: c.idle[0],
            path: c.scheduler.todo[i].path,
        }),
{
    law_first_eligible_item_is_handed_out(c.scheduler, c.idle[0], i);
}

/// The first round of an evaluation hands the root to the first worker and goes on.
pub proof fn law_first_round(workers: Seq<WorkerSpecView>)
    requires
        fresh(workers).wf(),
        workers.len() > 0,
    ensures
        round_of(fresh(workers), false).1.end is Running,
        round_of(fresh(workers), false).1.assignments == seq![
            AssignmentView { worker: 0, path: Seq::empty() },
        ],
{
    let c = fresh(workers);
    law_first_idle_worker_is_asked_first(c, 0);
    law_rounds_assign_to_idle_workers(c, 0, 0);
    lemma_assigned(c, c.idle.len(), 0);
    let (after, round) = dispatched(c, c.idle.len());
    lemma_no_failure(c, c.idle.len());
    assert(round.assignments.len() == 1);
    assert(round.assignments =~= seq![AssignmentView { worker: 0, path: Seq::empty() }]);
}

proof fn lemma_no_failure(c: CoordinatorView, n: nat)
    requires
        c.wf(),
        n <= c.idle.len(),
        c.scheduler.error is None,
        c.scheduler.todo.len() > 0 || c.scheduler.active > 0,
        forall|i: int|
            0 <= i < c.scheduler.todo.len() ==> (#[trigger] c.scheduler.todo[i]).rejected_by.len()
                < c.scheduler.worker_count,
    ensures
        dispatched(c, n).1.end is Running,
    decreases n,
{
    if n > 0 {
        let worker = c.idle[0];
        let (scheduler, next) = next_work(c.scheduler, worker);
        lemma_next_keeps_wf(c);
        lemma_first_eligible_place(c.scheduler.todo, worker);
        match next {
            NextWorkView::Dispatch(item) => {
                let then = CoordinatorView {
                    scheduler,
                    idle: c.idle.skip(1),
                    running: c.running.update(worker as int, Some(item)),
                    ..c
                };
                let at = first_eligible(c.scheduler.todo, worker)->0;
                assert forall|i: int| 0 <= i < scheduler.todo.len() implies (
                #[trigger] scheduler.todo[i]).rejected_by.len() < scheduler.worker_count by {
                    if i < at {
                        assert(scheduler.todo[i] == c.scheduler.todo[i]);
                    } else {
                        assert(scheduler.todo[i] == c.scheduler.todo[i + 1]);
                    }
                }
                lemma_no_failure(then, (n - 1) as nat);
            },
            NextWorkView::Wait => {
                let then = CoordinatorView { scheduler, idle: c.idle.skip(1).push(worker), ..c };
                lemma_no_failure(then, (n - 1) as nat);
            },
            _ => {
                law_worker_without_work_waits(c.scheduler, worker);
            },
        }
    }
}

/// A fresh evaluation has every worker idle, in the order of the pool.
pub proof fn law_fresh_workers_are_idle(workers: Seq<WorkerSpecView>, i: int)
    requires
        workers.len() <= usize::MAX,
    ensures
        fresh(workers).workers == workers,
        fresh(workers).idle.len() == workers.len(),
        fresh(workers).running.len() == workers.len(),
        0 <= i < workers.len() ==> fresh(workers).idle[i] == i && fresh(workers).running[i] is None,
{
}

/// Troubles with workers are told with the worker's label.
pub proof fn law_worker_troubles_are_told(label: Seq<char>)
    ensures
        worker_failed(label) == "worker "@ + label + " failed"@,
        worker_unreachable(label) == "sending work to worker "@ + label,
{
}

} // verus!
