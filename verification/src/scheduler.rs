//! The shared work queue of an evaluation, and who may work on what.
//!
//! The queue is seeded with the root attribute path. Each worker gets the next path that it is
//! eligible for and returns one event: an attrset expands into one queued path per child, a
//! derivation or an error ends its path. A derivation for a system that its worker does not own
//! goes back on the queue for another worker.

use std::collections::VecDeque;

use vstd::prelude::*;
use vstd::string::*;

use crate::text::{contains_text, decimal, join, joined, number_text};
use crate::keyed_map::Duplicate;
use crate::types::{
    Config, ConfigView, DerivationView, EvalErrorView, Event, EventView, Remote, RemoteView,
};

verus! {

/// An attribute path waiting for a worker.
pub struct WorkItem {
    pub path: Vec<String>,
    /// The workers that returned a derivation for a system they do not own.
    pub rejected_by: Vec<usize>,
}

pub struct WorkItemView {
    pub path: Seq<Seq<char>>,
    pub rejected_by: Seq<usize>,
}

impl View for WorkItem {
    type V = WorkItemView;

    open spec fn view(&self) -> WorkItemView {
        WorkItemView { path: self.path.deep_view(), rejected_by: self.rejected_by@ }
    }
}

impl DeepView for WorkItem {
    type V = WorkItemView;

    open spec fn deep_view(&self) -> WorkItemView {
        self@
    }
}

/// Where a worker runs.
pub enum WorkerKind {
    Local,
    Remote(Remote),
}

pub enum WorkerKindView {
    Local,
    Remote(RemoteView),
}

impl View for WorkerKind {
    type V = WorkerKindView;

    open spec fn view(&self) -> WorkerKindView {
        match self {
            WorkerKind::Local => WorkerKindView::Local,
            WorkerKind::Remote(remote) => WorkerKindView::Remote(remote@),
        }
    }
}

/// One worker of the pool.
pub struct WorkerSpec {
    pub id: usize,
    pub label: String,
    pub kind: WorkerKind,
}

pub struct WorkerSpecView {
    pub id: usize,
    pub label: Seq<char>,
    pub kind: WorkerKindView,
}

impl View for WorkerSpec {
    type V = WorkerSpecView;

    open spec fn view(&self) -> WorkerSpecView {
        WorkerSpecView { id: self.id, label: self.label@, kind: self.kind@ }
    }
}

impl DeepView for WorkerSpec {
    type V = WorkerSpecView;

    open spec fn deep_view(&self) -> WorkerSpecView {
        self@
    }
}

/// What becomes of an event that a worker returned.
pub enum EventDisposition {
    Emit,
    Requeue { system: String },
}

/// What a worker that asks for work is told.
pub enum NextWork {
    Dispatch(WorkItem),
    Wait,
    Done,
    Fatal(String),
}

pub enum NextWorkView {
    Dispatch(WorkItemView),
    Wait,
    Done,
    Fatal(Seq<char>),
}

impl View for NextWork {
    type V = NextWorkView;

    open spec fn view(&self) -> NextWorkView {
        match self {
            NextWork::Dispatch(item) => NextWorkView::Dispatch(item@),
            NextWork::Wait => NextWorkView::Wait,
            NextWork::Done => NextWorkView::Done,
            NextWork::Fatal(error) => NextWorkView::Fatal(error@),
        }
    }
}

/// What follows from a returned event.
pub struct CompletedWork {
    /// Whether the event goes to the event sink.
    pub emit: bool,
    /// The error that ends the evaluation.
    pub fatal_error: Option<String>,
}

pub struct CompletedWorkView {
    pub emit: bool,
    pub fatal_error: Option<Seq<char>>,
}

impl View for CompletedWork {
    type V = CompletedWorkView;

    open spec fn view(&self) -> CompletedWorkView {
        CompletedWorkView { emit: self.emit, fatal_error: self.fatal_error.deep_view() }
    }
}

/// An attribute path for display.
pub open spec fn displayed_attr(path: Seq<Seq<char>>) -> Seq<char> {
    if path.len() == 0 {
        "<root>"@
    } else {
        joined(path, "."@)
    }
}

/// An attribute path for display: dotted, or `<root>` for the empty path.
pub fn display_attr(path: &Vec<String>) -> (attr: String)
    ensures
        attr@ == displayed_attr(path.deep_view()),
{
    if path.len() == 0 {
        "<root>".to_owned()
    } else {
        join(path, ".")
    }
}

/// The message about the first remote pool without workers.
pub open spec fn remote_without_workers(remotes: Seq<RemoteView>) -> Option<Seq<char>>
    decreases remotes.len(),
{
    if remotes.len() == 0 {
        None
    } else {
        match remote_without_workers(remotes.drop_last()) {
            Some(message) => Some(message),
            None => if remotes.last().workers == 0 {
                Some(
                    "remote worker count for "@ + remotes.last().endpoint
                        + " must be greater than zero"@,
                )
            } else {
                None
            },
        }
    }
}

/// Refuses a remote pool without workers.
pub fn validate_config(config: &Config) -> (result: Result<(), String>)
    ensures
        match result {
            Ok(_) => remote_without_workers(config@.remotes) is None,
            Err(message) => remote_without_workers(config@.remotes) == Some(message@),
        },
{
    let ghost remotes = config@.remotes;
    let mut i: usize = 0;
    while i < config.remotes.len()
        invariant
            i <= config.remotes@.len(),
            remotes == config.remotes.deep_view(),
            remote_without_workers(remotes.take(i as int)) is None,
        decreases config.remotes@.len() - i,
    {
        let remote = &config.remotes[i];
        assert(remotes.take(i + 1).drop_last() =~= remotes.take(i as int));
        if remote.workers == 0 {
            let message = "remote worker count for ".to_owned().concat(
                remote.endpoint.as_str(),
            ).concat(" must be greater than zero");
            proof {
                lemma_first_message_stays(remotes, i + 1);
            }
            return Err(message);
        }
        i += 1;
    }
    assert(remotes.take(remotes.len() as int) =~= remotes);
    Ok(())
}

proof fn lemma_first_message_stays(remotes: Seq<RemoteView>, k: int)
    requires
        0 <= k <= remotes.len(),
        remote_without_workers(remotes.take(k)) is Some,
    ensures
        remote_without_workers(remotes) == remote_without_workers(remotes.take(k)),
    decreases remotes.len() - k,
{
    if k < remotes.len() {
        assert(remotes.take(k + 1).drop_last() =~= remotes.take(k));
        lemma_first_message_stays(remotes, k + 1);
    } else {
        assert(remotes.take(k) =~= remotes);
    }
}

/// How many remote workers there are in all.
pub open spec fn remote_workers(remotes: Seq<RemoteView>) -> nat
    decreases remotes.len(),
{
    if remotes.len() == 0 {
        0
    } else {
        remote_workers(remotes.drop_last()) + remotes.last().workers
    }
}

/// How many local workers there are: at least one, unless none is asked for and there are remote
/// ones.
pub open spec fn local_workers(config: ConfigView) -> nat {
    if config.workers == 0 && remote_workers(config.remotes) > 0 {
        0
    } else if config.workers == 0 {
        1
    } else {
        config.workers
    }
}

/// The worker that stands at place `id` for the connection `index` to a remote pool.
pub open spec fn remote_worker(remote: RemoteView, index: nat, id: nat) -> WorkerSpecView {
    WorkerSpecView {
        id: id as usize,
        label: "remote:"@ + remote.endpoint + "#"@ + decimal(index),
        kind: WorkerKindView::Remote(remote),
    }
}

/// The workers of the remote pools in order, numbered from `first`.
pub open spec fn remote_specs(remotes: Seq<RemoteView>, first: nat) -> Seq<WorkerSpecView>
    decreases remotes.len(),
{
    if remotes.len() == 0 {
        Seq::empty()
    } else {
        let before = remote_specs(remotes.drop_last(), first);
        before + Seq::new(
            remotes.last().workers,
            |index: int| remote_worker(remotes.last(), index as nat, first + before.len() + index as nat),
        )
    }
}

/// The local workers, numbered from zero.
pub open spec fn local_specs(count: nat) -> Seq<WorkerSpecView> {
    Seq::new(
        count,
        |id: int|
            WorkerSpecView { id: id as usize, label: "local"@, kind: WorkerKindView::Local },
    )
}

/// The worker pool of a configuration: the local workers, then those of each remote pool.
pub open spec fn pool(config: ConfigView) -> Seq<WorkerSpecView> {
    local_specs(local_workers(config)) + remote_specs(config.remotes, local_workers(config))
}

/// Whether the worker pool of a configuration can be numbered in machine words.
pub open spec fn pool_fits(config: ConfigView) -> bool {
    local_workers(config) + remote_workers(config.remotes) <= usize::MAX
}

proof fn lemma_remote_workers_grow(remotes: Seq<RemoteView>, k: int)
    requires
        0 <= k <= remotes.len(),
    ensures
        remote_workers(remotes.take(k)) <= remote_workers(remotes),
    decreases remotes.len() - k,
{
    if k < remotes.len() {
        assert(remotes.take(k + 1).drop_last() =~= remotes.take(k));
        lemma_remote_workers_grow(remotes, k + 1);
    } else {
        assert(remotes.take(k) =~= remotes);
    }
}

proof fn lemma_remote_specs_len(remotes: Seq<RemoteView>, first: nat)
    ensures
        remote_specs(remotes, first).len() == remote_workers(remotes),
    decreases remotes.len(),
{
    if remotes.len() > 0 {
        lemma_remote_specs_len(remotes.drop_last(), first);
    }
}

/// The worker pool of a configuration.
pub fn worker_specs(config: &Config) -> (specs: Vec<WorkerSpec>)
    requires
        pool_fits(config@),
    ensures
        specs.deep_view() == pool(config@),
{
    let ghost remotes = config@.remotes;
    let mut remote_total: usize = 0;
    let mut i: usize = 0;
    while i < config.remotes.len()
        invariant
            i <= config.remotes@.len(),
            remotes == config.remotes.deep_view(),
            remote_workers(remotes) <= usize::MAX,
            remote_total == remote_workers(remotes.take(i as int)),
        decreases config.remotes@.len() - i,
    {
        proof {
            assert(remotes.take(i + 1).drop_last() =~= remotes.take(i as int));
            lemma_remote_workers_grow(remotes, i + 1);
        }
        remote_total = remote_total + config.remotes[i].workers;
        i += 1;
    }
    assert(remotes.take(remotes.len() as int) =~= remotes);
    let local_total: usize = if config.workers == 0 && remote_total > 0 {
        0
    } else if config.workers == 0 {
        1
    } else {
        config.workers
    };

    let mut specs: Vec<WorkerSpec> = Vec::new();
    while specs.len() < local_total
        invariant
            specs@.len() <= local_total,
            specs.deep_view() =~= local_specs(specs@.len() as nat),
        decreases local_total - specs@.len(),
    {
        let ghost before = specs.deep_view();
        let spec = WorkerSpec {
            id: specs.len(),
            label: "local".to_owned(),
            kind: WorkerKind::Local,
        };
        specs.push(spec);
        assert(specs.deep_view() =~= before.push(spec@));
    }

    let ghost local = local_specs(local_total as nat);
    let mut r: usize = 0;
    assert(specs.deep_view() =~= local + remote_specs(remotes.take(0), local_total as nat));
    while r < config.remotes.len()
        invariant
            r <= config.remotes@.len(),
            remotes == config.remotes.deep_view(),
            local == local_specs(local_total as nat),
            local_total + remote_workers(remotes) <= usize::MAX,
            specs.deep_view() == local + remote_specs(remotes.take(r as int), local_total as nat),
        decreases config.remotes@.len() - r,
    {
        let remote = &config.remotes[r];
        let ghost before = remote_specs(remotes.take(r as int), local_total as nat);
        proof {
            assert(remotes.take(r + 1).drop_last() =~= remotes.take(r as int));
            lemma_remote_workers_grow(remotes, r + 1);
            lemma_remote_specs_len(remotes.take(r as int), local_total as nat);
        }
        let mut index: usize = 0;
        while index < remote.workers
            invariant
                index <= remote.workers,
                local.len() == local_total,
                local_total + before.len() + remote.workers <= usize::MAX,
                specs.deep_view() =~= local + before + Seq::new(
                    index as nat,
                    |k: int|
                        remote_worker(remote@, k as nat, local_total as nat + before.len() + k as nat),
                ),
            decreases remote.workers - index,
        {
            let ghost so_far = specs.deep_view();
            let label = "remote:".to_owned().concat(remote.endpoint.as_str()).concat("#").concat(
                number_text(index).as_str(),
            );
            let spec = WorkerSpec {
                id: specs.len(),
                label,
                kind: WorkerKind::Remote(remote.duplicate()),
            };
            specs.push(spec);
            assert(specs.deep_view() =~= so_far.push(spec@));
            assert(spec@ == remote_worker(
                remote@,
                index as nat,
                local_total as nat + before.len() + index as nat,
            ));
            index += 1;
        }
        assert(specs.deep_view() =~= local + remote_specs(remotes.take(r + 1), local_total as nat));
        r += 1;
    }
    assert(remotes.take(remotes.len() as int) =~= remotes);
    specs
}

/// Whether a worker owns a system: local workers and remote pools without a list own every one.
pub open spec fn owns(kind: WorkerKindView, system: Seq<char>) -> bool {
    match kind {
        WorkerKindView::Local => true,
        WorkerKindView::Remote(remote) => remote.systems.len() == 0 || remote.systems.contains(
            system,
        ),
    }
}

/// Whether an event that a worker returned is accepted from it.
pub open spec fn accepts(kind: WorkerKindView, event: EventView) -> bool {
    match event {
        EventView::Derivation(drv) => owns(kind, drv.system),
        _ => true,
    }
}

/// Decides whether a worker's event is emitted, or goes back on the queue because the worker does
/// not own the derivation's system.
pub fn event_disposition(spec: &WorkerSpec, event: &Event) -> (disposition: EventDisposition)
    ensures
        match disposition {
            EventDisposition::Emit => accepts(spec@.kind, event@),
            EventDisposition::Requeue { system } => !accepts(spec@.kind, event@)
                && event@ is Derivation && system@ == event@->Derivation_0.system,
        },
        disposition is Requeue <==> match (spec@.kind, event@) {
            (WorkerKindView::Remote(remote), EventView::Derivation(drv)) => {
                &&& remote.systems.len() > 0
                &&& forall|i: int|
                    0 <= i < remote.systems.len() ==> (#[trigger] remote.systems[i]) != drv.system
            },
            _ => false,
        },
{
    let remote = match &spec.kind {
        WorkerKind::Local => return EventDisposition::Emit,
        WorkerKind::Remote(remote) => remote,
    };
    let drv = match event {
        Event::Derivation(drv) => drv,
        _ => return EventDisposition::Emit,
    };
    if remote.systems.len() == 0 {
        return EventDisposition::Emit;
    }
    if contains_text(&remote.systems, &drv.system) {
        proof {
            let systems = remote@.systems;
            let i = choose|i: int| 0 <= i < systems.len() && systems[i] == drv@.system;
            assert(systems[i] == drv@.system);
        }
        return EventDisposition::Emit;
    }
    EventDisposition::Requeue { system: drv.system.clone() }
}

/// The state of the work queue.
pub struct Scheduler {
    pub todo: VecDeque<WorkItem>,
    /// How many paths are at a worker.
    pub active: usize,
    pub worker_count: usize,
    /// The error that ended the evaluation.
    pub error: Option<String>,
}

#[verifier::ext_equal]
pub struct SchedulerView {
    pub todo: Seq<WorkItemView>,
    pub active: nat,
    pub worker_count: nat,
    pub error: Option<Seq<char>>,
}

impl View for Scheduler {
    type V = SchedulerView;

    open spec fn view(&self) -> SchedulerView {
        SchedulerView {
            todo: self.todo.deep_view(),
            active: self.active as nat,
            worker_count: self.worker_count as nat,
            error: self.error.deep_view(),
        }
    }
}

/// The queue of a fresh evaluation: the root path alone.
pub open spec fn seeded(worker_count: nat) -> SchedulerView {
    SchedulerView {
        todo: seq![WorkItemView { path: Seq::empty(), rejected_by: Seq::empty() }],
        active: 0,
        worker_count,
        error: None,
    }
}

/// The place of the first item that `worker` has not rejected.
pub open spec fn first_eligible(todo: Seq<WorkItemView>, worker: usize) -> Option<int>
    decreases todo.len(),
{
    if todo.len() == 0 {
        None
    } else {
        match first_eligible(todo.drop_last(), worker) {
            Some(i) => Some(i),
            None => if todo.last().rejected_by.contains(worker) {
                None
            } else {
                Some(todo.len() - 1)
            },
        }
    }
}

/// The place of the first item that as many workers as there are have rejected.
pub open spec fn first_exhausted(todo: Seq<WorkItemView>, worker_count: nat) -> Option<int>
    decreases todo.len(),
{
    if todo.len() == 0 {
        None
    } else {
        match first_exhausted(todo.drop_last(), worker_count) {
            Some(i) => Some(i),
            None => if todo.last().rejected_by.len() >= worker_count {
                Some(todo.len() - 1)
            } else {
                None
            },
        }
    }
}

/// The message about an item that every worker has rejected.
pub open spec fn nobody_accepts(path: Seq<Seq<char>>) -> Seq<char> {
    "no worker accepted derivation at "@ + displayed_attr(path)
}

/// The message about a derivation that every worker has rejected.
pub open spec fn nobody_accepts_system(path: Seq<Seq<char>>, system: Seq<char>) -> Seq<char> {
    "no worker accepted derivation at "@ + displayed_attr(path) + " for system "@ + system
}

/// What a worker that asks for work is told, and the queue after that.
pub open spec fn next_work(s: SchedulerView, worker: usize) -> (SchedulerView, NextWorkView) {
    match s.error {
        Some(error) => (s, NextWorkView::Fatal(error)),
        None => match first_eligible(s.todo, worker) {
            Some(i) => (
                SchedulerView { todo: s.todo.remove(i), active: s.active + 1, ..s },
                NextWorkView::Dispatch(s.todo[i]),
            ),
            None => match first_exhausted(s.todo, s.worker_count) {
                Some(i) => (
                    SchedulerView { error: Some(nobody_accepts(s.todo[i].path)), ..s },
                    NextWorkView::Fatal(nobody_accepts(s.todo[i].path)),
                ),
                None => (
                    s,
                    if s.todo.len() == 0 && s.active == 0 {
                        NextWorkView::Done
                    } else {
                        NextWorkView::Wait
                    },
                ),
            },
        },
    }
}

/// One queued path for each child of an expanded attrset.
pub open spec fn children(path: Seq<Seq<char>>, attrs: Seq<Seq<char>>) -> Seq<WorkItemView> {
    attrs.map_values(
        |name: Seq<char>|
            WorkItemView { path: path.push(name), rejected_by: Seq::<usize>::empty() },
    )
}

/// What follows from an event that a worker returned for an item, and the queue after that.
pub open spec fn completed_work(
    s: SchedulerView,
    worker: WorkerSpecView,
    item: WorkItemView,
    event: EventView,
) -> (SchedulerView, CompletedWorkView) {
    let freed = SchedulerView { active: (s.active - 1) as nat, ..s };
    let emitted = CompletedWorkView { emit: true, fatal_error: None };
    match event {
        EventView::AttrSet { attrs, .. } => (
            SchedulerView { todo: s.todo + children(item.path, attrs), ..freed },
            emitted,
        ),
        EventView::Error(error) => if error.fatal {
            (
                SchedulerView { error: Some(error.error), ..freed },
                CompletedWorkView { emit: true, fatal_error: Some(error.error) },
            )
        } else {
            (freed, emitted)
        },
        EventView::Derivation(drv) => if accepts(worker.kind, event) {
            (freed, emitted)
        } else if item.rejected_by.len() + 1 >= s.worker_count {
            let message = nobody_accepts_system(item.path, drv.system);
            (
                SchedulerView { error: Some(message), ..freed },
                CompletedWorkView { emit: false, fatal_error: Some(message) },
            )
        } else {
            let rejected = WorkItemView { rejected_by: item.rejected_by.push(worker.id), ..item };
            (
                SchedulerView { todo: s.todo.push(rejected), ..freed },
                CompletedWorkView { emit: false, fatal_error: None },
            )
        },
    }
}

proof fn lemma_first_eligible_at(todo: Seq<WorkItemView>, worker: usize, k: int)
    requires
        0 <= k < todo.len(),
        !todo[k].rejected_by.contains(worker),
        first_eligible(todo.take(k), worker) is None,
    ensures
        first_eligible(todo, worker) == Some(k),
    decreases todo.len(),
{
    if k == todo.len() - 1 {
        assert(todo.drop_last() =~= todo.take(k));
    } else {
        assert(todo.drop_last().take(k) =~= todo.take(k));
        lemma_first_eligible_at(todo.drop_last(), worker, k);
    }
}

proof fn lemma_first_exhausted_at(todo: Seq<WorkItemView>, worker_count: nat, k: int)
    requires
        0 <= k < todo.len(),
        todo[k].rejected_by.len() >= worker_count,
        first_exhausted(todo.take(k), worker_count) is None,
    ensures
        first_exhausted(todo, worker_count) == Some(k),
    decreases todo.len(),
{
    if k == todo.len() - 1 {
        assert(todo.drop_last() =~= todo.take(k));
    } else {
        assert(todo.drop_last().take(k) =~= todo.take(k));
        lemma_first_exhausted_at(todo.drop_last(), worker_count, k);
    }
}

fn contains_worker(workers: &Vec<usize>, worker: usize) -> (yes: bool)
    ensures
        yes == workers@.contains(worker),
{
    let mut i: usize = 0;
    while i < workers.len()
        invariant
            i <= workers@.len(),
            forall|j: int| 0 <= j < i ==> workers@[j] != worker,
        decreases workers@.len() - i,
    {
        if workers[i] == worker {
            return true;
        }
        i += 1;
    }
    false
}

impl Scheduler {
    /// The queue of a fresh evaluation.
    pub fn new(worker_count: usize) -> (scheduler: Self)
        ensures
            scheduler@ == seeded(worker_count as nat),
    {
        let mut todo: VecDeque<WorkItem> = VecDeque::new();
        let root = WorkItem { path: Vec::new(), rejected_by: Vec::new() };
        assert(root@.path =~= Seq::empty());
        todo.push_back(root);
        let scheduler = Scheduler { todo, active: 0, worker_count, error: None };
        assert(scheduler@.todo =~= seeded(worker_count as nat).todo);
        scheduler
    }

    /// Whether nothing is queued and no worker is busy.
    pub fn is_done(&self) -> (yes: bool)
        ensures
            yes == (self@.todo.len() == 0 && self@.active == 0),
    {
        self.todo.len() == 0 && self.active == 0
    }

    /// Whether a worker is busy.
    pub fn has_active_work(&self) -> (yes: bool)
        ensures
            yes == (self@.active > 0),
    {
        self.active > 0
    }

    /// Gives a worker that asks for work the first item that it has not rejected.
    pub fn next_for(&mut self, worker_id: usize) -> (next: NextWork)
        requires
            old(self).active < usize::MAX,
        ensures
            (final(self)@, next@) == next_work(old(self)@, worker_id),
    {
        if let Some(error) = &self.error {
            return NextWork::Fatal(error.clone());
        }
        let ghost todo = self@.todo;
        let mut i: usize = 0;
        while i < self.todo.len()
            invariant
                i <= self.todo@.len(),
                *self == *old(self),
                todo == self.todo.deep_view(),
                old(self).active < usize::MAX,
                self@.error is None,
                first_eligible(todo.take(i as int), worker_id) is None,
            decreases self.todo@.len() - i,
        {
            assert(todo.take(i + 1).drop_last() =~= todo.take(i as int));
            if !contains_worker(&self.todo[i].rejected_by, worker_id) {
                proof {
                    lemma_first_eligible_at(todo, worker_id, i as int);
                }
                let removed = self.todo.remove(i);
                if let Some(item) = removed {
                    self.active += 1;
                    assert(self@.todo =~= todo.remove(i as int));
                    assert(item@ == todo[i as int]);
                    return NextWork::Dispatch(item);
                }
            }
            i += 1;
        }
        assert(todo.take(todo.len() as int) =~= todo);
        if let Some(error) = self.exhausted_error() {
            self.error = Some(error.clone());
            return NextWork::Fatal(error);
        }
        if self.is_done() {
            return NextWork::Done;
        }
        NextWork::Wait
    }

    /// The error about the first item that every worker has rejected.
    pub fn exhausted_error(&self) -> (error: Option<String>)
        ensures
            match error {
                Some(message) => first_exhausted(self@.todo, self@.worker_count) is Some
                    && message@ == nobody_accepts(
                    self@.todo[first_exhausted(self@.todo, self@.worker_count)->0].path,
                ),
                None => first_exhausted(self@.todo, self@.worker_count) is None,
            },
    {
        let ghost todo = self@.todo;
        let mut i: usize = 0;
        while i < self.todo.len()
            invariant
                i <= self.todo@.len(),
                todo == self.todo.deep_view(),
                first_exhausted(todo.take(i as int), self@.worker_count) is None,
            decreases self.todo@.len() - i,
        {
            assert(todo.take(i + 1).drop_last() =~= todo.take(i as int));
            if self.todo[i].rejected_by.len() >= self.worker_count {
                proof {
                    lemma_first_exhausted_at(todo, self@.worker_count, i as int);
                }
                let attr = display_attr(&self.todo[i].path);
                return Some(
                    "no worker accepted derivation at ".to_owned().concat(attr.as_str()),
                );
            }
            i += 1;
        }
        assert(todo.take(todo.len() as int) =~= todo);
        None
    }

    /// Takes in the event that a worker returned for an item.
    pub fn complete(&mut self, spec: &WorkerSpec, item: WorkItem, event: &Event) -> (completed:
        CompletedWork)
        requires
            old(self).active > 0,
        ensures
            (final(self)@, completed@) == completed_work(old(self)@, spec@, item@, event@),
    {
        self.active -= 1;
        match event {
            Event::AttrSet { attrs, .. } => {
                let ghost before = self@;
                let ghost names = attrs.deep_view();
                let mut i: usize = 0;
                assert(children(item@.path, names.take(0)) =~= Seq::empty());
                assert(self@.todo =~= before.todo + children(item@.path, names.take(0)));
                while i < attrs.len()
                    invariant
                        i <= attrs@.len(),
                        names == attrs.deep_view(),
                        self@ == (SchedulerView {
                            todo: before.todo + children(item@.path, names.take(i as int)),
                            ..before
                        }),
                    decreases attrs@.len() - i,
                {
                    let ghost so_far = self@.todo;
                    let mut path = item.path.duplicate();
                    path.push(attrs[i].clone());
                    assert(path.deep_view() =~= item@.path.push(names[i as int]));
                    let child = WorkItem { path, rejected_by: Vec::new() };
                    self.todo.push_back(child);
                    proof {
                        assert(self@.todo =~= so_far.push(child@));
                        assert(names.take(i + 1) =~= names.take(i as int).push(names[i as int]));
                        assert(self@.todo =~= before.todo + children(
                            item@.path,
                            names.take(i + 1),
                        ));
                    }
                    i += 1;
                }
                assert(names.take(names.len() as int) =~= names);
                CompletedWork { emit: true, fatal_error: None }
            },
            Event::Error(error) => {
                if error.fatal {
                    self.error = Some(error.error.clone());
                    CompletedWork { emit: true, fatal_error: Some(error.error.clone()) }
                } else {
                    CompletedWork { emit: true, fatal_error: None }
                }
            },
            Event::Derivation(_) => {
                match event_disposition(spec, event) {
                    EventDisposition::Emit => CompletedWork { emit: true, fatal_error: None },
                    EventDisposition::Requeue { system } => {
                        let mut item = item;
                        let ghost before = item@;
                        item.rejected_by.push(spec.id);
                        if item.rejected_by.len() >= self.worker_count {
                            let attr = display_attr(&item.path);
                            let error = "no worker accepted derivation at ".to_owned().concat(
                                attr.as_str(),
                            ).concat(" for system ").concat(system.as_str());
                            self.error = Some(error.clone());
                            CompletedWork { emit: false, fatal_error: Some(error) }
                        } else {
                            let ghost so_far = self@.todo;
                            self.todo.push_back(item);
                            assert(self@.todo =~= so_far.push(item@));
                            CompletedWork { emit: false, fatal_error: None }
                        }
                    },
                }
            },
        }
    }
}

/// A remote pool owns every system that it lists, at whichever place of the list: a derivation for
/// such a system is accepted from it.
pub proof fn law_listed_systems_are_accepted(remote: RemoteView, drv: DerivationView, i: int)
    requires
        0 <= i < remote.systems.len(),
        remote.systems[i] == drv.system,
    ensures
        accepts(WorkerKindView::Remote(remote), EventView::Derivation(drv)),
{
}

/// A derivation is rejected only from a remote pool that lists systems, and only where none of them
/// is the derivation's; attrsets and errors are never rejected.
pub proof fn law_only_unlisted_systems_are_rejected(kind: WorkerKindView, event: EventView)
    ensures
        !accepts(kind, event) <==> {
            &&& kind is Remote
            &&& event is Derivation
            &&& kind->Remote_0.systems.len() > 0
            &&& forall|i: int|
                0 <= i < kind->Remote_0.systems.len() ==> (#[trigger] kind->Remote_0.systems[i])
                    != event->Derivation_0.system
        },
{
    if let (WorkerKindView::Remote(remote), EventView::Derivation(drv)) = (kind, event) {
        if remote.systems.contains(drv.system) {
            let i = choose|i: int|
                0 <= i < remote.systems.len() && remote.systems[i] == drv.system;
            assert(remote.systems[i] == drv.system);
        }
    }
}

/// An attribute path is shown with dots, and never as nothing: paths of names without dots are told
/// apart by what is shown.
pub proof fn law_shown_paths(path: Seq<Seq<char>>)
    ensures
        path.len() == 0 ==> displayed_attr(path) == "<root>"@,
        path.len() == 1 ==> displayed_attr(path) == path[0],
        path.len() > 1 ==> displayed_attr(path) == displayed_attr(path.drop_last()) + "."@
            + path.last(),
{
}

/// The first remote pool without workers is reported by its endpoint; where each has workers,
/// nothing is.
pub proof fn law_remotes_without_workers(remotes: Seq<RemoteView>, i: int)
    ensures
        (forall|k: int| 0 <= k < remotes.len() ==> (#[trigger] remotes[k]).workers > 0)
            <==> remote_without_workers(remotes) is None,
        0 <= i < remotes.len() && remotes[i].workers == 0 && (forall|k: int|
            0 <= k < i ==> (#[trigger] remotes[k]).workers > 0) ==> remote_without_workers(remotes)
            == Some(
            "remote worker count for "@ + remotes[i].endpoint + " must be greater than zero"@,
        ),
    decreases remotes.len(),
{
    if remotes.len() > 0 {
        let shorter = remotes.drop_last();
        law_remotes_without_workers(shorter, i);
        assert(remotes[remotes.len() - 1] == remotes.last());
        assert forall|k: int| 0 <= k < shorter.len() implies shorter[k] == (
        #[trigger] remotes[k]) by {}
        if forall|k: int| 0 <= k < remotes.len() ==> (#[trigger] remotes[k]).workers > 0 {
            assert forall|k: int| 0 <= k < shorter.len() implies (
            #[trigger] shorter[k]).workers > 0 by {
                assert(remotes[k].workers > 0);
            }
        }
        if remote_without_workers(remotes) is None {
            assert forall|k: int| 0 <= k < remotes.len() implies (
            #[trigger] remotes[k]).workers > 0 by {
                if k < shorter.len() {
                    assert(shorter[k].workers > 0);
                }
            }
        }
        if 0 <= i < remotes.len() && remotes[i].workers == 0 && forall|k: int|
            0 <= k < i ==> (#[trigger] remotes[k]).workers > 0 {
            assert forall|k: int| 0 <= k < i implies (#[trigger] shorter[k]).workers > 0 by {
                assert(remotes[k].workers > 0);
            }
            if i < shorter.len() {
                assert(shorter[i].workers == 0);
            } else {
                assert forall|k: int| 0 <= k < shorter.len() implies (
                #[trigger] shorter[k]).workers > 0 by {
                    assert(remotes[k].workers > 0);
                }
            }
        }
    }
}

/// The remote workers of two lists of pools are those of the one and those of the other, and a pool
/// has as many as it says.
pub proof fn law_remote_workers_add_up(
    one: Seq<RemoteView>,
    two: Seq<RemoteView>,
    remote: RemoteView,
)
    ensures
        remote_workers(one + two) == remote_workers(one) + remote_workers(two),
        remote_workers(seq![remote]) == remote.workers,
        remote_workers(Seq::empty()) == 0,
    decreases two.len(),
{
    assert(seq![remote].drop_last() =~= Seq::empty());
    assert(remote_workers(seq![remote].drop_last()) == 0);
    if two.len() == 0 {
        assert(one + two =~= one);
    } else {
        law_remote_workers_add_up(one, two.drop_last(), remote);
        assert((one + two).drop_last() =~= one + two.drop_last());
    }
}

proof fn lemma_some_remote_workers(remotes: Seq<RemoteView>)
    ensures
        remote_workers(remotes) > 0 <==> exists|r: int|
            0 <= r < remotes.len() && (#[trigger] remotes[r]).workers > 0,
    decreases remotes.len(),
{
    if remotes.len() > 0 {
        let shorter = remotes.drop_last();
        lemma_some_remote_workers(shorter);
        assert(remotes[remotes.len() - 1] == remotes.last());
        if remote_workers(shorter) > 0 {
            let r = choose|r: int| 0 <= r < shorter.len() && (#[trigger] shorter[r]).workers > 0;
            assert(remotes[r].workers > 0);
        }
        if exists|r: int| 0 <= r < remotes.len() && (#[trigger] remotes[r]).workers > 0 {
            let r = choose|r: int| 0 <= r < remotes.len() && (#[trigger] remotes[r]).workers > 0;
            if r < shorter.len() {
                assert(shorter[r].workers > 0);
            }
        }
    }
}

/// As many local workers take part as are asked for. Where none is asked for, there is none if some
/// remote pool has workers, and one otherwise.
pub proof fn law_local_workers(config: ConfigView)
    ensures
        config.workers > 0 ==> local_workers(config) == config.workers,
        config.workers == 0 ==> local_workers(config) == (if exists|r: int|
            0 <= r < config.remotes.len() && (#[trigger] config.remotes[r]).workers > 0 {
            0nat
        } else {
            1nat
        }),
{
    lemma_some_remote_workers(config.remotes);
}

proof fn lemma_remote_spec_at(remotes: Seq<RemoteView>, first: nat, r: int, k: int)
    requires
        0 <= r < remotes.len(),
        0 <= k < remotes[r].workers,
    ensures
        ({
            let place = remote_workers(remotes.take(r)) + k;
            0 <= place < remote_specs(remotes, first).len() && remote_specs(remotes, first)[place]
                == remote_worker(remotes[r], k as nat, (first + place) as nat)
        }),
    decreases remotes.len(),
{
    let shorter = remotes.drop_last();
    lemma_remote_specs_len(remotes, first);
    lemma_remote_specs_len(shorter, first);
    if r < shorter.len() {
        lemma_remote_spec_at(shorter, first, r, k);
        assert(shorter.take(r) =~= remotes.take(r));
    } else {
        assert(remotes.take(r) =~= shorter);
    }
}

/// The pool holds the local workers, and after them each connection to each remote pool in turn,
/// under the pool's endpoint and the number of the connection, with the systems that the pool
/// lists.
pub proof fn law_pool_members(config: ConfigView, i: int, r: int, k: int)
    requires
        pool_fits(config),
    ensures
        0 <= i < local_workers(config) ==> pool(config)[i] == (WorkerSpecView {
            id: i as usize,
            label: "local"@,
            kind: WorkerKindView::Local,
        }),
        0 <= r < config.remotes.len() && 0 <= k < config.remotes[r].workers ==> ({
            let place = local_workers(config) + remote_workers(config.remotes.take(r)) + k;
            0 <= place < pool(config).len() && pool(config)[place] == (WorkerSpecView {
                id: place as usize,
                label: "remote:"@ + config.remotes[r].endpoint + "#"@ + decimal(k as nat),
                kind: WorkerKindView::Remote(config.remotes[r]),
            })
        }),
{
    let local = local_specs(local_workers(config));
    if 0 <= i < local_workers(config) {
        assert(pool(config)[i] == local[i]);
    }
    if 0 <= r < config.remotes.len() && 0 <= k < config.remotes[r].workers {
        lemma_remote_spec_at(config.remotes, local_workers(config), r, k);
        let at = remote_workers(config.remotes.take(r)) + k;
        assert(pool(config)[local.len() + at] == remote_specs(
            config.remotes,
            local_workers(config),
        )[at]);
    }
}

/// The pool holds just those workers, and fits where each of them can be numbered.
pub proof fn law_pool_size(config: ConfigView)
    ensures
        pool(config).len() == local_workers(config) + remote_workers(config.remotes),
        pool_fits(config) <==> pool(config).len() <= usize::MAX,
{
    lemma_remote_specs_len(config.remotes, local_workers(config));
}

proof fn lemma_none_eligible(todo: Seq<WorkItemView>, worker: usize)
    requires
        forall|j: int| 0 <= j < todo.len() ==> (#[trigger] todo[j]).rejected_by.contains(worker),
    ensures
        first_eligible(todo, worker) is None,
    decreases todo.len(),
{
    if todo.len() > 0 {
        let shorter = todo.drop_last();
        assert forall|j: int| 0 <= j < shorter.len() implies (
        #[trigger] shorter[j]).rejected_by.contains(worker) by {
            assert(todo[j].rejected_by.contains(worker));
        }
        lemma_none_eligible(shorter, worker);
        assert(todo[todo.len() - 1].rejected_by.contains(worker));
    }
}

proof fn lemma_nothing_exhausted(todo: Seq<WorkItemView>, worker_count: nat)
    requires
        forall|j: int| 0 <= j < todo.len() ==> (#[trigger] todo[j]).rejected_by.len()
            < worker_count,
    ensures
        first_exhausted(todo, worker_count) is None,
    decreases todo.len(),
{
    if todo.len() > 0 {
        let shorter = todo.drop_last();
        assert forall|j: int| 0 <= j < shorter.len() implies (
        #[trigger] shorter[j]).rejected_by.len() < worker_count by {
            assert(todo[j].rejected_by.len() < worker_count);
        }
        lemma_nothing_exhausted(shorter, worker_count);
        assert(todo[todo.len() - 1].rejected_by.len() < worker_count);
    }
}

/// A worker that asks for work gets the first queued item that it has not rejected. The item leaves
/// the queue, and the others stay in order.
pub proof fn law_first_eligible_item_is_handed_out(s: SchedulerView, worker: usize, i: int)
    requires
        s.error is None,
        0 <= i < s.todo.len(),
        !s.todo[i].rejected_by.contains(worker),
        forall|j: int| 0 <= j < i ==> (#[trigger] s.todo[j]).rejected_by.contains(worker),
    ensures
        ({
            let (after, next) = next_work(s, worker);
            &&& next == NextWorkView::Dispatch(s.todo[i])
            &&& after.todo == s.todo.take(i) + s.todo.skip(i + 1)
            &&& after.active == s.active + 1
            &&& after.worker_count == s.worker_count
            &&& after.error is None
        }),
{
    assert forall|j: int| 0 <= j < i implies (
    #[trigger] s.todo.take(i)[j]).rejected_by.contains(worker) by {
        assert(s.todo[j].rejected_by.contains(worker));
    }
    lemma_none_eligible(s.todo.take(i), worker);
    lemma_first_eligible_at(s.todo, worker, i);
    assert(s.todo.remove(i) =~= s.todo.take(i) + s.todo.skip(i + 1));
}

/// A worker that has rejected whatever is queued is told that the evaluation is over where nothing
/// is queued and no worker is busy, and to wait otherwise.
pub proof fn law_worker_without_work_waits(s: SchedulerView, worker: usize)
    requires
        s.error is None,
        forall|j: int|
            0 <= j < s.todo.len() ==> (#[trigger] s.todo[j]).rejected_by.contains(worker)
                && s.todo[j].rejected_by.len() < s.worker_count,
    ensures
        next_work(s, worker).0 == s,
        next_work(s, worker).1 is Done <==> s.todo.len() == 0 && s.active == 0,
        next_work(s, worker).1 is Wait <==> s.todo.len() > 0 || s.active > 0,
{
    lemma_none_eligible(s.todo, worker);
    lemma_nothing_exhausted(s.todo, s.worker_count);
}

/// An item that as many workers as there are have rejected ends the evaluation when a worker finds
/// nothing else to do.
pub proof fn law_exhausted_item_fails(s: SchedulerView, worker: usize, i: int)
    requires
        s.error is None,
        forall|j: int|
            0 <= j < s.todo.len() ==> (#[trigger] s.todo[j]).rejected_by.contains(worker),
        0 <= i < s.todo.len(),
        s.todo[i].rejected_by.len() >= s.worker_count,
        forall|j: int|
            0 <= j < i ==> (#[trigger] s.todo[j]).rejected_by.len() < s.worker_count,
    ensures
        ({
            let message = "no worker accepted derivation at "@ + displayed_attr(s.todo[i].path);
            let (after, next) = next_work(s, worker);
            &&& next == NextWorkView::Fatal(message)
            &&& after.error == Some(message)
            &&& after.todo == s.todo
            &&& after.active == s.active
        }),
{
    lemma_none_eligible(s.todo, worker);
    assert forall|j: int| 0 <= j < i implies (
    #[trigger] s.todo.take(i)[j]).rejected_by.len() < s.worker_count by {
        assert(s.todo[j].rejected_by.len() < s.worker_count);
    }
    lemma_nothing_exhausted(s.todo.take(i), s.worker_count);
    lemma_first_exhausted_at(s.todo, s.worker_count, i);
}

/// A failed evaluation hands nothing out any more, and tells every worker why it failed.
pub proof fn law_failure_stays(s: SchedulerView, worker: usize)
    requires
        s.error is Some,
    ensures
        next_work(s, worker) == (s, NextWorkView::Fatal(s.error->0)),
{
}

/// An expanded attrset is emitted, and each of its names is queued behind everything else, one after
/// another, below the attrset's path.
pub proof fn law_attrset_is_expanded(
    s: SchedulerView,
    worker: WorkerSpecView,
    item: WorkItemView,
    event: EventView,
)
    requires
        s.active > 0,
        event is AttrSet,
    ensures
        ({
            let attrs = event->AttrSet_attrs;
            let (after, completed) = completed_work(s, worker, item, event);
            &&& completed.emit && completed.fatal_error is None
            &&& after.active == s.active - 1
            &&& after.error == s.error
            &&& after.worker_count == s.worker_count
            &&& after.todo.len() == s.todo.len() + attrs.len()
            &&& forall|j: int| 0 <= j < s.todo.len() ==> #[trigger] after.todo[j] == s.todo[j]
            &&& forall|k: int|
                0 <= k < attrs.len() ==> after.todo[s.todo.len() + k] == (WorkItemView {
                    path: item.path.push(#[trigger] attrs[k]),
                    rejected_by: Seq::empty(),
                })
        }),
{
}

/// An error is emitted and queues nothing. Where it is fatal, it is the error that ends the
/// evaluation; otherwise the evaluation goes on.
pub proof fn law_errors_end_their_path(
    s: SchedulerView,
    worker: WorkerSpecView,
    item: WorkItemView,
    error: EvalErrorView,
)
    requires
        s.active > 0,
    ensures
        ({
            let (after, completed) = completed_work(s, worker, item, EventView::Error(error));
            &&& completed.emit
            &&& completed.fatal_error == (if error.fatal {
                Some(error.error)
            } else {
                None
            })
            &&& after.error == (if error.fatal {
                Some(error.error)
            } else {
                s.error
            })
            &&& after.todo == s.todo
            &&& after.active == s.active - 1
            &&& after.worker_count == s.worker_count
        }),
{
}

/// A derivation is emitted where its worker is local, or lists no systems, or lists the derivation's
/// system; it then queues nothing and ends its path.
pub proof fn law_owned_derivation_is_emitted(
    s: SchedulerView,
    worker: WorkerSpecView,
    item: WorkItemView,
    drv: DerivationView,
)
    requires
        s.active > 0,
        worker.kind is Local || worker.kind->Remote_0.systems.len() == 0 || exists|i: int|
            0 <= i < worker.kind->Remote_0.systems.len() && worker.kind->Remote_0.systems[i]
                == drv.system,
    ensures
        ({
            let (after, completed) = completed_work(s, worker, item, EventView::Derivation(drv));
            &&& completed.emit && completed.fatal_error is None
            &&& after.todo == s.todo
            &&& after.active == s.active - 1
            &&& after.error == s.error
            &&& after.worker_count == s.worker_count
        }),
{
}

/// A derivation for a system that its worker does not list is not emitted. Its path goes back to the
/// end of the queue, marked as rejected by that worker; but where this was the last worker that had
/// not rejected it, the evaluation fails and names the path and the system.
pub proof fn law_foreign_derivation_goes_back(
    s: SchedulerView,
    worker: WorkerSpecView,
    item: WorkItemView,
    drv: DerivationView,
)
    requires
        s.active > 0,
        worker.kind is Remote,
        worker.kind->Remote_0.systems.len() > 0,
        forall|i: int|
            0 <= i < worker.kind->Remote_0.systems.len() ==> (
            #[trigger] worker.kind->Remote_0.systems[i]) != drv.system,
    ensures
        ({
            let (after, completed) = completed_work(s, worker, item, EventView::Derivation(drv));
            let message = "no worker accepted derivation at "@ + displayed_attr(item.path)
                + " for system "@ + drv.system;
            &&& !completed.emit
            &&& after.active == s.active - 1
            &&& after.worker_count == s.worker_count
            &&& item.rejected_by.len() + 1 < s.worker_count ==> {
                &&& completed.fatal_error is None
                &&& after.error == s.error
                &&& after.todo == s.todo.push(
                    WorkItemView {
                        path: item.path,
                        rejected_by: item.rejected_by.push(worker.id),
                    },
                )
            }
            &&& item.rejected_by.len() + 1 >= s.worker_count ==> {
                &&& completed.fatal_error == Some(message)
                &&& after.error == Some(message)
                &&& after.todo == s.todo
            }
        }),
{
    law_only_unlisted_systems_are_rejected(worker.kind, EventView::Derivation(drv));
}

/// A fresh evaluation has just the root to do, and nothing has failed or been rejected.
pub proof fn law_evaluation_starts_at_the_root(worker_count: nat, worker: usize)
    ensures
        seeded(worker_count).active == 0,
        seeded(worker_count).error is None,
        seeded(worker_count).worker_count == worker_count,
        next_work(seeded(worker_count), worker).1 == NextWorkView::Dispatch(
            WorkItemView { path: Seq::empty(), rejected_by: Seq::empty() },
        ),
        next_work(seeded(worker_count), worker).0.todo.len() == 0,
{
    law_first_eligible_item_is_handed_out(seeded(worker_count), worker, 0);
}

} // verus!
