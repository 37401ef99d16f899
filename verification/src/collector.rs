//! The work queue that the collector threads of an evaluation share.
//!
//! Each collector owns one local worker. It takes paths from the queue, hands them to its worker,
//! and puts the children of expanded attrsets back. Locking the queue, parking and talking to
//! workers is the caller's part.

use std::collections::VecDeque;

use vstd::prelude::*;
use vstd::string::*;

use crate::keyed_map::Duplicate;
use crate::scheduler::{
    children, completed_work, first_eligible, first_exhausted, next_work, NextWorkView,
    SchedulerView, WorkItemView, WorkerSpecView,
};
use crate::types::{Event, EventView};

verus! {

/// The queue of an evaluation.
pub struct SharedState {
    pub todo: VecDeque<Vec<String>>,
    /// How many paths are at a worker.
    pub active: usize,
    /// The error that ended the evaluation.
    pub error: Option<String>,
}

#[verifier::ext_equal]
pub struct SharedStateView {
    pub todo: Seq<Seq<Seq<char>>>,
    pub active: nat,
    pub error: Option<Seq<char>>,
}

impl View for SharedState {
    type V = SharedStateView;

    open spec fn view(&self) -> SharedStateView {
        SharedStateView {
            todo: self.todo.deep_view(),
            active: self.active as nat,
            error: self.error.deep_view(),
        }
    }
}

/// What a collector does next.
pub enum CollectorStep {
    /// Hand a path to its worker.
    Work(Vec<String>),
    /// Wait until the queue changes.
    Park,
    /// Stop the worker: the evaluation is over or cancelled.
    Exit,
    /// Stop the worker and fail.
    Fail(String),
}

pub enum CollectorStepView {
    Work(Seq<Seq<char>>),
    Park,
    Exit,
    Fail(Seq<char>),
}

impl View for CollectorStep {
    type V = CollectorStepView;

    open spec fn view(&self) -> CollectorStepView {
        match self {
            CollectorStep::Work(path) => CollectorStepView::Work(path.deep_view()),
            CollectorStep::Park => CollectorStepView::Park,
            CollectorStep::Exit => CollectorStepView::Exit,
            CollectorStep::Fail(message) => CollectorStepView::Fail(message@),
        }
    }
}

/// What a collector does next, and the queue after that.
pub open spec fn collector_step(s: SharedStateView, cancelled: bool) -> (
    SharedStateView,
    CollectorStepView,
) {
    if cancelled {
        (s, CollectorStepView::Exit)
    } else {
        match s.error {
            Some(message) => (s, CollectorStepView::Fail(message)),
            None => if s.todo.len() > 0 {
                (
                    SharedStateView { todo: s.todo.skip(1), active: s.active + 1, ..s },
                    CollectorStepView::Work(s.todo[0]),
                )
            } else if s.active == 0 {
                (s, CollectorStepView::Exit)
            } else {
                (s, CollectorStepView::Park)
            },
        }
    }
}

/// The queue after a worker returned an event for a path.
pub open spec fn collected(s: SharedStateView, path: Seq<Seq<char>>, event: EventView) -> SharedStateView {
    let freed = SharedStateView { active: (s.active - 1) as nat, ..s };
    match event {
        EventView::AttrSet { attrs, .. } => SharedStateView {
            todo: s.todo + attrs.map_values(|name: Seq<char>| path.push(name)),
            ..freed
        },
        EventView::Error(error) => if error.fatal {
            SharedStateView { error: Some(error.error), ..freed }
        } else {
            freed
        },
        EventView::Derivation(_) => freed,
    }
}

/// How many collectors a configuration asks for: at least one.
pub fn collector_count(workers: usize) -> (count: usize)
    ensures
        count == (if workers == 0 {
            1
        } else {
            workers
        }),
{
    if workers == 0 {
        1
    } else {
        workers
    }
}

impl SharedState {
    /// The queue of a fresh evaluation: the root path alone.
    pub fn new() -> (state: Self)
        ensures
            state@ == (SharedStateView { todo: seq![Seq::empty()], active: 0, error: None }),
    {
        let mut todo: VecDeque<Vec<String>> = VecDeque::new();
        let root: Vec<String> = Vec::new();
        assert(root.deep_view() =~= Seq::empty());
        todo.push_back(root);
        let state = SharedState { todo, active: 0, error: None };
        assert(state@.todo =~= seq![Seq::<Seq<char>>::empty()]);
        state
    }

    /// What a collector does next.
    pub fn next(&mut self, cancelled: bool) -> (step: CollectorStep)
        requires
            old(self).active < usize::MAX,
        ensures
            (final(self)@, step@) == collector_step(old(self)@, cancelled),
    {
        if cancelled {
            return CollectorStep::Exit;
        }
        if let Some(message) = &self.error {
            return CollectorStep::Fail(message.clone());
        }
        let ghost before = self@;
        match self.todo.pop_front() {
            Some(path) => {
                self.active += 1;
                assert(self@.todo =~= before.todo.skip(1));
                CollectorStep::Work(path)
            },
            None => {
                if self.active == 0 {
                    CollectorStep::Exit
                } else {
                    CollectorStep::Park
                }
            },
        }
    }

    /// Takes in the event that a worker returned for a path. The event then goes to the event
    /// sink.
    pub fn finish(&mut self, path: &Vec<String>, event: &Event)
        requires
            old(self).active > 0,
        ensures
            final(self)@ == collected(old(self)@, path.deep_view(), event@),
    {
        self.active -= 1;
        match event {
            Event::AttrSet { attrs, .. } => {
                let ghost before = self@;
                let ghost names = attrs.deep_view();
                let ghost base = path.deep_view();
                let ghost f = |name: Seq<char>| base.push(name);
                let mut i: usize = 0;
                assert(self@.todo =~= before.todo + names.take(0).map_values(f));
                while i < attrs.len()
                    invariant
                        i <= attrs@.len(),
                        names == attrs.deep_view(),
                        base == path.deep_view(),
                        f == (|name: Seq<char>| base.push(name)),
                        self@ == (SharedStateView {
                            todo: before.todo + names.take(i as int).map_values(f),
                            ..before
                        }),
                    decreases attrs@.len() - i,
                {
                    let ghost so_far = self@.todo;
                    let mut child = path.duplicate();
                    child.push(attrs[i].clone());
                    assert(child.deep_view() =~= base.push(names[i as int]));
                    self.todo.push_back(child);
                    proof {
                        assert(self@.todo =~= so_far.push(child.deep_view()));
                        assert(names.take(i + 1) =~= names.take(i as int).push(names[i as int]));
                        assert(self@.todo =~= before.todo + names.take(i + 1).map_values(f));
                    }
                    i += 1;
                }
                assert(names.take(names.len() as int) =~= names);
            },
            Event::Error(error) => {
                if error.fatal {
                    self.error = Some(error.error.clone());
                }
            },
            Event::Derivation(_) => {},
        }
    }

    /// Takes in that a worker failed on its own: it ends the evaluation.
    pub fn fail(&mut self, message: &str)
        ensures
            final(self)@ == (SharedStateView { error: Some(message@), ..old(self)@ }),
    {
        self.error = Some(message.to_owned());
    }

    /// How the evaluation ended once every collector exited.
    pub fn outcome(&self) -> (result: Result<(), String>)
        ensures
            match result {
                Ok(_) => self@.error is None,
                Err(message) => self@.error == Some(message@),
            },
    {
        match &self.error {
            Some(message) => Err(message.clone()),
            None => Ok(()),
        }
    }
}

/// What a worker's status line asks for.
pub enum StatusOutcome {
    /// The worker takes more work.
    Ready,
    /// The worker exited at its memory limit; another takes its place.
    Restart,
    /// The worker reported an error.
    Failed(String),
    /// The line means nothing.
    Unexpected(String),
}

/// What a worker's status line asks for. `reported` is the message of the error event that the
/// line holds, where it holds one.
pub fn status_outcome(status: &str, reported: Option<String>) -> (outcome: StatusOutcome)
    ensures
        match outcome {
            StatusOutcome::Ready => status@ == "ready"@,
            StatusOutcome::Restart => status@ != "ready"@ && status@ == "restart"@,
            StatusOutcome::Failed(message) => status@ != "ready"@ && status@ != "restart"@
                && reported is Some && message@ == reported->0@,
            StatusOutcome::Unexpected(message) => status@ != "ready"@ && status@ != "restart"@
                && reported is None && message@ == "unexpected worker message: "@ + status@,
        },
{
    if crate::text::same(status, "ready") {
        return StatusOutcome::Ready;
    }
    if crate::text::same(status, "restart") {
        return StatusOutcome::Restart;
    }
    match reported {
        Some(message) => StatusOutcome::Failed(message),
        None => StatusOutcome::Unexpected("unexpected worker message: ".to_owned().concat(status)),
    }
}

/// The queue as the coordinator's scheduler keeps it.
pub open spec fn as_scheduler(s: SharedStateView, workers: nat) -> SchedulerView {
    SchedulerView {
        todo: s.todo.map_values(
            |path: Seq<Seq<char>>| WorkItemView { path, rejected_by: Seq::<usize>::empty() },
        ),
        active: s.active,
        worker_count: workers,
        error: s.error,
    }
}

proof fn lemma_nothing_rejected(todo: Seq<WorkItemView>, worker: usize, workers: nat)
    requires
        workers > 0,
        forall|i: int|
            0 <= i < todo.len() ==> (#[trigger] todo[i]).rejected_by == Seq::<usize>::empty(),
    ensures
        first_eligible(todo, worker) == if todo.len() > 0 {
            Some(0int)
        } else {
            None
        },
        first_exhausted(todo, workers) is None,
    decreases todo.len(),
{
    if todo.len() > 0 {
        let shorter = todo.drop_last();
        assert forall|i: int| 0 <= i < shorter.len() implies (#[trigger] shorter[i]).rejected_by
            == Seq::<usize>::empty() by {
            assert(shorter[i] == todo[i]);
        }
        lemma_nothing_rejected(shorter, worker, workers);
        assert(todo.last() == todo[todo.len() - 1]);
    }
}

/// Collectors are local workers of the coordinator: what a collector that is not cancelled does
/// next is what the coordinator's scheduler tells any worker, and both queues stay the same.
pub proof fn law_collectors_are_local_workers(s: SharedStateView, worker: usize, workers: nat)
    requires
        workers > 0,
    ensures
        ({
            let (after, step) = collector_step(s, false);
            let (scheduler, next) = next_work(as_scheduler(s, workers), worker);
            &&& scheduler == as_scheduler(after, workers)
            &&& match step {
                CollectorStepView::Work(path) => next == NextWorkView::Dispatch(
                    WorkItemView { path, rejected_by: Seq::empty() },
                ),
                CollectorStepView::Park => next is Wait,
                CollectorStepView::Exit => next is Done,
                CollectorStepView::Fail(message) => next == NextWorkView::Fatal(message),
            }
        }),
{
    let before = as_scheduler(s, workers);
    lemma_nothing_rejected(before.todo, worker, workers);
    let (after, step) = collector_step(s, false);
    if s.error is None && s.todo.len() > 0 {
        assert(before.todo.remove(0) =~= as_scheduler(after, workers).todo);
    }
}

/// Collectors are local workers of the coordinator: an event does to both queues the same, and
/// every event is emitted.
pub proof fn law_collected_events_are_completed_work(
    s: SharedStateView,
    worker: WorkerSpecView,
    path: Seq<Seq<char>>,
    event: EventView,
    workers: nat,
)
    requires
        s.active > 0,
        worker.kind is Local,
    ensures
        ({
            let item = WorkItemView { path, rejected_by: Seq::empty() };
            let (scheduler, completed) = completed_work(
                as_scheduler(s, workers),
                worker,
                item,
                event,
            );
            scheduler == as_scheduler(collected(s, path, event), workers) && completed.emit
        }),
{
    if let EventView::AttrSet { attrs, .. } = event {
        let item = WorkItemView { path, rejected_by: Seq::empty() };
        let after = as_scheduler(collected(s, path, event), workers);
        assert(as_scheduler(s, workers).todo + children(path, attrs) =~= after.todo);
    }
}

/// A cancelled collector exits and leaves the queue as it is; after a failure, every collector that
/// is not cancelled fails with its message.
pub proof fn law_collectors_stop(s: SharedStateView)
    ensures
        collector_step(s, true) == (s, CollectorStepView::Exit),
        s.error is Some ==> collector_step(s, false) == (s, CollectorStepView::Fail(s.error->0)),
{
}

/// A collector takes the first path of the queue; without one it parks while some worker is busy,
/// and exits when none is.
pub proof fn law_collectors_take_turns(s: SharedStateView)
    requires
        s.error is None,
    ensures
        s.todo.len() > 0 ==> ({
            let (after, step) = collector_step(s, false);
            &&& step == CollectorStepView::Work(s.todo[0])
            &&& seq![s.todo[0]] + after.todo == s.todo
            &&& after.active == s.active + 1
            &&& after.error is None
        }),
        s.todo.len() == 0 ==> collector_step(s, false).0 == s,
        s.todo.len() == 0 && s.active > 0 ==> collector_step(s, false).1 is Park,
        s.todo.len() == 0 && s.active == 0 ==> collector_step(s, false).1 is Exit,
{
    if s.todo.len() > 0 {
        assert(seq![s.todo[0]] + s.todo.skip(1) =~= s.todo);
    }
}

/// The children of an expanded attrset are queued behind everything else, one for each name below
/// the attrset's path; a fatal error ends the evaluation; nothing else changes the queue.
pub proof fn law_events_change_the_queue(
    s: SharedStateView,
    path: Seq<Seq<char>>,
    event: EventView,
    k: int,
)
    requires
        s.active > 0,
    ensures
        ({
            let after = collected(s, path, event);
            &&& after.active == s.active - 1
            &&& match event {
                EventView::AttrSet { attrs, .. } => {
                    &&& after.error == s.error
                    &&& after.todo.len() == s.todo.len() + attrs.len()
                    &&& after.todo.take(s.todo.len() as int) == s.todo
                    &&& 0 <= k < attrs.len() ==> after.todo[s.todo.len() + k] == path.push(attrs[k])
                },
                EventView::Error(error) => {
                    &&& after.todo == s.todo
                    &&& error.fatal ==> after.error == Some(error.error)
                    &&& !error.fatal ==> after.error == s.error
                },
                EventView::Derivation(_) => after.todo == s.todo && after.error == s.error,
            }
        }),
{
    let after = collected(s, path, event);
    if let EventView::AttrSet { attrs, .. } = event {
        assert(after.todo.take(s.todo.len() as int) =~= s.todo);
    }
}

} // verus!
