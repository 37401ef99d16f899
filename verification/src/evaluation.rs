//! What holds of an evaluation as a whole, whichever workers take part and in whichever order they
//! answer.
//!
//! The attribute graph is a function from paths to events: what evaluating the path gives. A run
//! starts from the root path alone; each of its steps is a round of asking the idle workers, or
//! some busy worker's return of its path's event.

use vstd::prelude::*;

use crate::coordinator::{
    dispatched, finished, fresh, law_finish_keeps_order, round_of, CoordinatorView,
    RoundEndView,
};
use crate::scheduler::{
    accepts, children, first_eligible, first_exhausted, next_work, nobody_accepts_system,
    NextWorkView, WorkItemView, WorkerSpecView,
};
use crate::keyed_map::map_of;
use crate::state::{diff_of, last_derivation, law_empty_diff, law_recorded, recorded_all};
use crate::types::{EvalErrorView, EventView};

verus! {

/// How often `x` occurs in `s`.
pub open spec fn occurrences<T>(s: Seq<T>, x: T) -> nat
    decreases s.len(),
{
    if s.len() == 0 {
        0
    } else {
        occurrences(s.drop_last(), x) + if s.last() == x { 1nat } else { 0nat }
    }
}

/// The child names of a path.
pub open spec fn child_names(event: EventView) -> Seq<Seq<char>> {
    match event {
        EventView::AttrSet { attrs, .. } => attrs,
        _ => Seq::empty(),
    }
}

/// How often an attribute graph holds a path: the root once, and a child as often as its parent
/// lists its name, for each time that the parent is there.
pub open spec fn reached(graph: spec_fn(Seq<Seq<char>>) -> EventView, path: Seq<Seq<char>>) -> nat
    decreases path.len(),
{
    if path.len() == 0 {
        1
    } else {
        reached(graph, path.drop_last()) * occurrences(
            child_names(graph(path.drop_last())),
            path.last(),
        )
    }
}

/// A moment of a run: the coordinator, the events that went to the event sink so far, each with
/// the path that it answers, and whether the evaluation is over.
pub struct Moment {
    pub coordinator: CoordinatorView,
    pub emitted: Seq<(Seq<Seq<char>>, EventView)>,
    pub end: RoundEndView,
}

/// The moment before anything was handed out.
pub open spec fn outset(workers: Seq<WorkerSpecView>) -> Moment {
    Moment { coordinator: fresh(workers), emitted: Seq::empty(), end: RoundEndView::Running }
}

/// The moment after a round.
pub open spec fn after_round(m: Moment) -> Moment {
    let (coordinator, round) = round_of(m.coordinator, false);
    Moment { coordinator, end: round.end, ..m }
}

/// The moment after a busy worker returned the event of its path.
pub open spec fn after_return(
    graph: spec_fn(Seq<Seq<char>>) -> EventView,
    m: Moment,
    worker: usize,
) -> Moment {
    let path = (m.coordinator.running[worker as int]->0).path;
    let (coordinator, completed) = finished(m.coordinator, worker, graph(path));
    Moment {
        coordinator,
        emitted: if completed.emit {
            m.emitted.push((path, graph(path)))
        } else {
            m.emitted
        },
        end: match completed.fatal_error {
            Some(error) => RoundEndView::Failed(error),
            None => RoundEndView::Running,
        },
    }
}

/// Whether a worker is at an item.
pub open spec fn busy(m: Moment, worker: usize) -> bool {
    worker < m.coordinator.running.len() && m.coordinator.running[worker as int] is Some
}

/// Whether one moment of a run may follow another.
pub open spec fn follows(
    graph: spec_fn(Seq<Seq<char>>) -> EventView,
    before: Moment,
    after: Moment,
) -> bool {
    before.end is Running && (after == after_round(before) || exists|worker: usize|
        busy(before, worker) && after == #[trigger] after_return(graph, before, worker))
}

/// Whether the moments are those of a run by the workers of a pool.
pub open spec fn is_run(
    graph: spec_fn(Seq<Seq<char>>) -> EventView,
    workers: Seq<WorkerSpecView>,
    moments: Seq<Moment>,
) -> bool
    decreases moments.len(),
{
    if moments.len() == 0 {
        false
    } else if moments.len() == 1 {
        moments[0] == outset(workers)
    } else {
        is_run(graph, workers, moments.drop_last()) && follows(
            graph,
            moments.drop_last().last(),
            moments.last(),
        )
    }
}

/// The paths of queued items.
spec fn queued(todo: Seq<WorkItemView>) -> Seq<Seq<Seq<char>>> {
    todo.map_values(|item: WorkItemView| item.path)
}

/// The paths that workers are at.
spec fn underway(running: Seq<Option<WorkItemView>>) -> Seq<Option<Seq<Seq<char>>>> {
    running.map_values(
        |slot: Option<WorkItemView>|
            match slot {
                Some(item) => Some(item.path),
                None => None,
            },
    )
}

/// Whether an item lists distinct workers, not all of them, and each for a derivation that it does
/// not own.
spec fn item_ok(
    graph: spec_fn(Seq<Seq<char>>) -> EventView,
    workers: Seq<WorkerSpecView>,
    item: WorkItemView,
) -> bool {
    &&& item.rejected_by.no_duplicates()
    &&& item.rejected_by.len() < workers.len()
    &&& forall|i: int|
        0 <= i < item.rejected_by.len() ==> (#[trigger] item.rejected_by[i]) < workers.len()
            && !accepts(workers[item.rejected_by[i] as int].kind, graph(item.path))
}

spec fn items_ok(
    graph: spec_fn(Seq<Seq<char>>) -> EventView,
    c: CoordinatorView,
) -> bool {
    &&& c.wf()
    &&& c.scheduler.error is None
    &&& forall|i: int|
        0 <= i < c.scheduler.todo.len() ==> item_ok(graph, c.workers, #[trigger] c.scheduler.todo[i])
    &&& forall|w: int|
        0 <= w < c.running.len() && (#[trigger] c.running[w]) is Some ==> item_ok(
            graph,
            c.workers,
            c.running[w]->0,
        ) && !(c.running[w]->0).rejected_by.contains(w as usize)
}

/// How often a path is queued, underway or answered.
spec fn tally(
    graph: spec_fn(Seq<Seq<char>>) -> EventView,
    c: CoordinatorView,
    emitted: Seq<(Seq<Seq<char>>, EventView)>,
    path: Seq<Seq<char>>,
) -> nat {
    occurrences(queued(c.scheduler.todo), path) + occurrences(underway(c.running), Some(path))
        + occurrences(emitted, (path, graph(path)))
}

/// How often a path came up so far: as often as its answered parents list it.
spec fn came_up(
    graph: spec_fn(Seq<Seq<char>>) -> EventView,
    emitted: Seq<(Seq<Seq<char>>, EventView)>,
    path: Seq<Seq<char>>,
) -> nat {
    if path.len() == 0 {
        1
    } else {
        let parent = path.drop_last();
        occurrences(emitted, (parent, graph(parent))) * occurrences(
            child_names(graph(parent)),
            path.last(),
        )
    }
}

spec fn tallies_ok(
    graph: spec_fn(Seq<Seq<char>>) -> EventView,
    c: CoordinatorView,
    emitted: Seq<(Seq<Seq<char>>, EventView)>,
) -> bool {
    forall|path: Seq<Seq<char>>| #[trigger]
        tally(graph, c, emitted, path) == came_up(graph, emitted, path)
}

/// Whether some worker accepts what it is given for a path.
pub open spec fn accepted_by_some(workers: Seq<WorkerSpecView>, event: EventView) -> bool {
    exists|w: int| 0 <= w < workers.len() && accepts((#[trigger] workers[w]).kind, event)
}

/// Whether an event ends the whole evaluation.
pub open spec fn is_fatal(event: EventView) -> bool {
    event matches EventView::Error(error) && error.fatal
}

spec fn emitted_ok(
    graph: spec_fn(Seq<Seq<char>>) -> EventView,
    workers: Seq<WorkerSpecView>,
    m: Moment,
) -> bool {
    forall|i: int|
        0 <= i < m.emitted.len() ==> {
            let (path, event) = #[trigger] m.emitted[i];
            event == graph(path) && accepted_by_some(workers, event) && (m.end !is Failed
                ==> !is_fatal(event))
        }
}

/// Why a run failed: some path's error is fatal, or no worker owns the system of some path's
/// derivation.
pub open spec fn failure_cause(
    graph: spec_fn(Seq<Seq<char>>) -> EventView,
    workers: Seq<WorkerSpecView>,
    path: Seq<Seq<char>>,
    message: Seq<char>,
) -> bool {
    match graph(path) {
        EventView::Error(error) => error.fatal && message == error.error,
        EventView::Derivation(drv) => !accepted_by_some(workers, graph(path)) && message
            == nobody_accepts_system(path, drv.system),
        EventView::AttrSet { .. } => false,
    }
}

spec fn moment_ok(
    graph: spec_fn(Seq<Seq<char>>) -> EventView,
    workers: Seq<WorkerSpecView>,
    m: Moment,
) -> bool {
    &&& m.coordinator.workers == workers
    &&& emitted_ok(graph, workers, m)
    &&& m.end is Failed ==> exists|path: Seq<Seq<char>>| #[trigger]
        failure_cause(graph, workers, path, m.end->Failed_0) && reached(graph, path) > 0
    &&& m.end !is Failed ==> items_ok(graph, m.coordinator) && tallies_ok(
        graph,
        m.coordinator,
        m.emitted,
    )
    &&& m.end is Done ==> m.coordinator.scheduler.todo.len() == 0
        && m.coordinator.scheduler.active == 0
}

proof fn lemma_occurrences_push<T>(s: Seq<T>, x: T, y: T)
    ensures
        occurrences(s.push(x), y) == occurrences(s, y) + if x == y { 1nat } else { 0nat },
{
    assert(s.push(x).drop_last() =~= s);
}

proof fn lemma_occurrences_concat<T>(s: Seq<T>, t: Seq<T>, x: T)
    ensures
        occurrences(s + t, x) == occurrences(s, x) + occurrences(t, x),
    decreases t.len(),
{
    if t.len() == 0 {
        assert(s + t =~= s);
    } else {
        assert((s + t).drop_last() =~= s + t.drop_last());
        lemma_occurrences_concat(s, t.drop_last(), x);
    }
}

proof fn lemma_occurrences_remove<T>(s: Seq<T>, i: int, x: T)
    requires
        0 <= i < s.len(),
    ensures
        occurrences(s, x) == occurrences(s.remove(i), x) + if s[i] == x { 1nat } else { 0nat },
    decreases s.len(),
{
    if i == s.len() - 1 {
        assert(s.remove(i) =~= s.drop_last());
    } else {
        lemma_occurrences_remove(s.drop_last(), i, x);
        assert(s.remove(i).drop_last() =~= s.drop_last().remove(i));
    }
}

proof fn lemma_occurrences_update<T>(s: Seq<T>, i: int, y: T, x: T)
    requires
        0 <= i < s.len(),
    ensures
        occurrences(s.update(i, y), x) + (if s[i] == x { 1nat } else { 0nat }) == occurrences(s, x)
            + if y == x { 1nat } else { 0nat },
    decreases s.len(),
{
    if i == s.len() - 1 {
        assert(s.update(i, y).drop_last() =~= s.drop_last());
    } else {
        lemma_occurrences_update(s.drop_last(), i, y, x);
        assert(s.update(i, y).drop_last() =~= s.drop_last().update(i, y));
    }
}

proof fn lemma_occurrences_none<T>(s: Seq<T>, x: T)
    requires
        forall|i: int| 0 <= i < s.len() ==> s[i] != x,
    ensures
        occurrences(s, x) == 0,
    decreases s.len(),
{
    if s.len() > 0 {
        assert forall|i: int| 0 <= i < s.drop_last().len() implies s.drop_last()[i] != x by {
            assert(s.drop_last()[i] == s[i]);
        }
        lemma_occurrences_none(s.drop_last(), x);
        assert(s[s.len() - 1] != x);
    }
}

proof fn lemma_occurrences_some<T>(s: Seq<T>, x: T) -> (i: int)
    requires
        occurrences(s, x) > 0,
    ensures
        0 <= i < s.len(),
        s[i] == x,
    decreases s.len(),
{
    if s.last() == x {
        s.len() - 1
    } else {
        lemma_occurrences_some(s.drop_last(), x)
    }
}

proof fn lemma_occurrences_multiset<T>(s: Seq<T>, x: T)
    ensures
        s.to_multiset().count(x) == occurrences(s, x),
    decreases s.len(),
{
    broadcast use vstd::multiset::group_multiset_axioms;
    broadcast use vstd::seq_lib::group_to_multiset_ensures;

    if s.len() > 0 {
        lemma_occurrences_multiset(s.drop_last(), x);
        assert(s =~= s.drop_last().push(s.last()));
        assert(s.drop_last().push(s.last()).to_multiset() =~= s.drop_last().to_multiset().insert(
            s.last(),
        ));
    } else {
        assert(s.to_multiset().len() == 0);
    }
}

proof fn lemma_children(path: Seq<Seq<char>>, attrs: Seq<Seq<char>>, q: Seq<Seq<char>>)
    ensures
        occurrences(queued(children(path, attrs)), q) == if q.len() > 0 && q.drop_last() == path {
            occurrences(attrs, q.last())
        } else {
            0
        },
    decreases attrs.len(),
{
    let all = queued(children(path, attrs));
    if attrs.len() > 0 {
        lemma_children(path, attrs.drop_last(), q);
        assert(all.drop_last() =~= queued(children(path, attrs.drop_last())));
        assert(all.last() == path.push(attrs.last()));
        if q == path.push(attrs.last()) {
            assert(q.drop_last() =~= path);
        } else if q.len() > 0 && q.drop_last() == path {
            assert(q =~= path.push(q.last()));
        }
    }
}

proof fn lemma_first_eligible(todo: Seq<WorkItemView>, worker: usize)
    ensures
        match first_eligible(todo, worker) {
            Some(i) => 0 <= i < todo.len() && !todo[i].rejected_by.contains(worker),
            None => forall|i: int|
                0 <= i < todo.len() ==> (#[trigger] todo[i]).rejected_by.contains(worker),
        },
    decreases todo.len(),
{
    if todo.len() > 0 {
        lemma_first_eligible(todo.drop_last(), worker);
        if first_eligible(todo, worker) is None {
            assert forall|i: int| 0 <= i < todo.len() implies (
            #[trigger] todo[i]).rejected_by.contains(worker) by {
                if i < todo.len() - 1 {
                    assert(todo.drop_last()[i] == todo[i]);
                }
            }
        }
    }
}

proof fn lemma_none_exhausted(todo: Seq<WorkItemView>, worker_count: nat)
    requires
        forall|i: int|
            0 <= i < todo.len() ==> (#[trigger] todo[i]).rejected_by.len() < worker_count,
    ensures
        first_exhausted(todo, worker_count) is None,
    decreases todo.len(),
{
    if todo.len() > 0 {
        assert forall|i: int| 0 <= i < todo.drop_last().len() implies (
        #[trigger] todo.drop_last()[i]).rejected_by.len() < worker_count by {
            assert(todo.drop_last()[i] == todo[i]);
        }
        lemma_none_exhausted(todo.drop_last(), worker_count);
        assert(todo[todo.len() - 1].rejected_by.len() < worker_count);
    }
}

/// No item is ever rejected by all workers and still queued, so asking for work never fails.
proof fn lemma_next_never_fatal(
    graph: spec_fn(Seq<Seq<char>>) -> EventView,
    c: CoordinatorView,
    worker: usize,
)
    requires
        items_ok(graph, c),
    ensures
        next_work(c.scheduler, worker).1 !is Fatal,
        next_work(c.scheduler, worker).1 !is Dispatch ==> next_work(c.scheduler, worker).0
            == c.scheduler && first_eligible(c.scheduler.todo, worker) is None,
{
    assert forall|i: int| 0 <= i < c.scheduler.todo.len() implies (
    #[trigger] c.scheduler.todo[i]).rejected_by.len() < c.scheduler.worker_count by {
        assert(item_ok(graph, c.workers, c.scheduler.todo[i]));
    }
    lemma_none_exhausted(c.scheduler.todo, c.scheduler.worker_count);
}

/// The coordinator after an idle worker was given an item.
spec fn handed(c: CoordinatorView, i: int) -> CoordinatorView {
    let worker = c.idle[0];
    CoordinatorView {
        scheduler: crate::scheduler::SchedulerView {
            todo: c.scheduler.todo.remove(i),
            active: c.scheduler.active + 1,
            ..c.scheduler
        },
        idle: c.idle.skip(1),
        running: c.running.update(worker as int, Some(c.scheduler.todo[i])),
        ..c
    }
}

proof fn lemma_handed(
    graph: spec_fn(Seq<Seq<char>>) -> EventView,
    c: CoordinatorView,
    emitted: Seq<(Seq<Seq<char>>, EventView)>,
    i: int,
)
    requires
        items_ok(graph, c),
        tallies_ok(graph, c, emitted),
        c.idle.len() > 0,
        0 <= i < c.scheduler.todo.len(),
        first_eligible(c.scheduler.todo, c.idle[0]) == Some(i),
    ensures
        items_ok(graph, handed(c, i)),
        tallies_ok(graph, handed(c, i), emitted),
{
    let after = handed(c, i);
    let worker = c.idle[0] as int;
    let todo = c.scheduler.todo;
    assert(c.running[worker] is None && worker < c.workers.len());
    crate::coordinator::lemma_next_keeps_wf(c);
    assert(item_ok(graph, c.workers, todo[i]));
    assert forall|k: int| 0 <= k < after.scheduler.todo.len() implies item_ok(
        graph,
        c.workers,
        #[trigger] after.scheduler.todo[k],
    ) by {
        if k < i {
            assert(after.scheduler.todo[k] == todo[k]);
        } else {
            assert(after.scheduler.todo[k] == todo[k + 1]);
        }
    }
    lemma_first_eligible(todo, c.idle[0]);
    assert forall|w: int| 0 <= w < after.running.len() && (#[trigger] after.running[w]) is Some implies item_ok(
        graph,
        c.workers,
        after.running[w]->0,
    ) && !(after.running[w]->0).rejected_by.contains(w as usize) by {
        if w != worker {
            assert(after.running[w] == c.running[w]);
        }
    }
    assert forall|path: Seq<Seq<char>>| #[trigger]
        tally(graph, after, emitted, path) == came_up(graph, emitted, path) by {
        assert(tally(graph, c, emitted, path) == came_up(graph, emitted, path));
        lemma_occurrences_remove(queued(todo), i, path);
        assert(queued(todo).remove(i) =~= queued(after.scheduler.todo));
        lemma_occurrences_update(underway(c.running), worker, Some(todo[i].path), Some(path));
        assert(underway(c.running).update(worker, Some(todo[i].path)) =~= underway(after.running));
        assert(underway(c.running)[worker] == None::<Seq<Seq<char>>>);
        assert(queued(todo)[i] == todo[i].path);
    }
}

/// The coordinator after an idle worker was told to wait.
spec fn passed_over(c: CoordinatorView) -> CoordinatorView {
    CoordinatorView { idle: c.idle.skip(1).push(c.idle[0]), ..c }
}

proof fn lemma_dispatched(
    graph: spec_fn(Seq<Seq<char>>) -> EventView,
    c: CoordinatorView,
    emitted: Seq<(Seq<Seq<char>>, EventView)>,
    n: nat,
)
    requires
        items_ok(graph, c),
        tallies_ok(graph, c, emitted),
        n <= c.idle.len(),
    ensures
        ({
            let (after, round) = dispatched(c, n);
            &&& items_ok(graph, after)
            &&& tallies_ok(graph, after, emitted)
            &&& after.workers == c.workers
            &&& after.scheduler.active >= c.scheduler.active
            &&& round.end !is Failed
            &&& round.end is Done ==> after.scheduler.todo.len() == 0 && after.scheduler.active == 0
            &&& after.scheduler.active == 0 && round.end is Running ==> after.scheduler
                == c.scheduler && forall|k: int|
                0 <= k < n ==> first_eligible(c.scheduler.todo, #[trigger] c.idle[k]) is None
        }),
    decreases n,
{
    if n > 0 {
        let worker = c.idle[0];
        let (scheduler, next) = next_work(c.scheduler, worker);
        lemma_next_never_fatal(graph, c, worker);
        lemma_first_eligible(c.scheduler.todo, worker);
        match next {
            NextWorkView::Dispatch(item) => {
                let i = first_eligible(c.scheduler.todo, worker)->0;
                lemma_handed(graph, c, emitted, i);
                lemma_dispatched(graph, handed(c, i), emitted, (n - 1) as nat);
            },
            NextWorkView::Wait => {
                let after = passed_over(c);
                crate::coordinator::lemma_next_keeps_wf(c);
                assert(items_ok(graph, after));
                assert(tallies_ok(graph, after, emitted)) by {
                    assert forall|path: Seq<Seq<char>>| #[trigger]
                        tally(graph, after, emitted, path) == came_up(graph, emitted, path) by {
                        assert(tally(graph, c, emitted, path) == came_up(graph, emitted, path));
                    }
                }
                lemma_dispatched(graph, after, emitted, (n - 1) as nat);
                let (last, round) = dispatched(c, n);
                if last.scheduler.active == 0 && round.end is Running {
                    assert forall|k: int| 0 <= k < n implies first_eligible(
                        c.scheduler.todo,
                        #[trigger] c.idle[k],
                    ) is None by {
                        if k > 0 {
                            assert(after.idle[k - 1] == c.idle[k]);
                        }
                    }
                }
            },
            _ => {},
        }
    }
}

/// Distinct workers that are fewer than all of them leave one out.
proof fn lemma_one_left(workers: Seq<WorkerSpecView>, rejected_by: Seq<usize>)
    requires
        rejected_by.no_duplicates(),
        rejected_by.len() < workers.len() <= usize::MAX,
    ensures
        exists|w: usize| w < workers.len() && !rejected_by.contains(w),
{
    if forall|w: usize| w < workers.len() ==> rejected_by.contains(w) {
        let places = Seq::new(workers.len(), |i: int| i as usize);
        assert forall|i: int, j: int|
            0 <= i < places.len() && 0 <= j < places.len() && i != j implies places[i]
            != places[j] by {
            assert(places[i] == i as usize && places[j] == j as usize);
        }
        places.unique_seq_to_set();
        rejected_by.unique_seq_to_set();
        assert forall|x: usize| places.to_set().contains(x) implies rejected_by.to_set().contains(
            x,
        ) by {
            let k = choose|k: int| 0 <= k < places.len() && places[k] == x;
            assert(places[k] == k as usize);
            assert(rejected_by.contains(x));
        }
        assert(places.to_set().subset_of(rejected_by.to_set()));
        vstd::set_lib::lemma_len_subset(places.to_set(), rejected_by.to_set());
    }
}

/// An evaluation in order never stalls: with work queued and every worker idle, a round hands
/// something out.
proof fn lemma_never_stalls(
    graph: spec_fn(Seq<Seq<char>>) -> EventView,
    c: CoordinatorView,
    emitted: Seq<(Seq<Seq<char>>, EventView)>,
)
    requires
        items_ok(graph, c),
        tallies_ok(graph, c, emitted),
    ensures
        round_of(c, false).1.end !is Failed,
{
    let (after, round) = dispatched(c, c.idle.len());
    lemma_dispatched(graph, c, emitted, c.idle.len());
    if round.end is Running && after.scheduler.todo.len() > 0 && after.scheduler.active == 0 {
        let item = c.scheduler.todo[0];
        assert(item_ok(graph, c.workers, item));
        lemma_one_left(c.workers, item.rejected_by);
        let w = choose|w: usize| w < c.workers.len() && !item.rejected_by.contains(w);
        if c.running[w as int] is Some {
            law_finish_keeps_order(c, w, graph(Seq::empty()));
        }
        assert(c.idle.contains(w));
        let k = choose|k: int| 0 <= k < c.idle.len() && c.idle[k] == w;
        assert(first_eligible(c.scheduler.todo, c.idle[k]) is None);
        lemma_first_eligible(c.scheduler.todo, w);
        assert(item.rejected_by.contains(w));
    }
}

proof fn lemma_returned_items(
    graph: spec_fn(Seq<Seq<char>>) -> EventView,
    m: Moment,
    worker: usize,
)
    requires
        items_ok(graph, m.coordinator),
        busy(m, worker),
        after_return(graph, m, worker).end !is Failed,
    ensures
        items_ok(graph, after_return(graph, m, worker).coordinator),
{
    let c = m.coordinator;
    let item = c.running[worker as int]->0;
    let event = graph(item.path);
    let after = after_return(graph, m, worker).coordinator;
    law_finish_keeps_order(c, worker, event);
    assert(item_ok(graph, c.workers, item));
    assert forall|w: int| 0 <= w < after.running.len() && (#[trigger] after.running[w]) is Some implies item_ok(
        graph,
        c.workers,
        after.running[w]->0,
    ) && !(after.running[w]->0).rejected_by.contains(w as usize) by {
        assert(after.running[w] == c.running[w]);
    }
    assert forall|k: int| 0 <= k < after.scheduler.todo.len() implies item_ok(
        graph,
        c.workers,
        #[trigger] after.scheduler.todo[k],
    ) by {
        if k < c.scheduler.todo.len() {
            assert(after.scheduler.todo[k] == c.scheduler.todo[k]);
        } else if event is AttrSet {
            assert(after.scheduler.todo[k].rejected_by =~= Seq::empty());
        } else {
            let rejected = after.scheduler.todo[k].rejected_by;
            assert(rejected == item.rejected_by.push(worker));
            assert(c.workers[worker as int].id == worker);
            assert forall|i: int| 0 <= i < rejected.len() implies (#[trigger] rejected[i]) < c.workers.len()
                && !accepts(c.workers[rejected[i] as int].kind, event) by {
                if i < item.rejected_by.len() {
                    assert(rejected[i] == item.rejected_by[i]);
                }
            }
        }
    }
}

proof fn lemma_returned_tallies(
    graph: spec_fn(Seq<Seq<char>>) -> EventView,
    m: Moment,
    worker: usize,
)
    requires
        items_ok(graph, m.coordinator),
        tallies_ok(graph, m.coordinator, m.emitted),
        busy(m, worker),
        after_return(graph, m, worker).end !is Failed,
    ensures
        tallies_ok(
            graph,
            after_return(graph, m, worker).coordinator,
            after_return(graph, m, worker).emitted,
        ),
{
    let c = m.coordinator;
    let item = c.running[worker as int]->0;
    let event = graph(item.path);
    let next = after_return(graph, m, worker);
    let after = next.coordinator;
    let attrs = child_names(event);
    assert forall|path: Seq<Seq<char>>| #[trigger]
        tally(graph, after, next.emitted, path) == came_up(graph, next.emitted, path) by {
        assert(tally(graph, c, m.emitted, path) == came_up(graph, m.emitted, path));
        lemma_occurrences_update(underway(c.running), worker as int, None, Some(path));
        assert(underway(c.running).update(worker as int, None) =~= underway(after.running));
        assert(underway(c.running)[worker as int] == Some(item.path));
        if next.emitted == m.emitted {
            // Nothing was emitted: the item went back on the queue.
            let rejected = after.scheduler.todo.last();
            assert(queued(after.scheduler.todo) =~= queued(c.scheduler.todo).push(rejected.path));
            lemma_occurrences_push(queued(c.scheduler.todo), rejected.path, path);
        } else {
            lemma_occurrences_push(m.emitted, (item.path, event), (path, graph(path)));
            let fresh_items = children(item.path, attrs);
            assert(after.scheduler.todo =~= c.scheduler.todo + fresh_items);
            assert(queued(after.scheduler.todo) =~= queued(c.scheduler.todo) + queued(fresh_items));
            lemma_occurrences_concat(queued(c.scheduler.todo), queued(fresh_items), path);
            lemma_children(item.path, attrs, path);
            if path.len() > 0 {
                let parent = path.drop_last();
                let before = occurrences(m.emitted, (parent, graph(parent)));
                let listed = occurrences(child_names(graph(parent)), path.last());
                lemma_occurrences_push(m.emitted, (item.path, event), (parent, graph(parent)));
                if parent == item.path {
                    assert((before + 1) * listed == before * listed + listed) by (nonlinear_arith);
                }
            }
        }
    }
}

/// What is queued, underway or answered is in the attribute graph.
proof fn lemma_tallied_is_reached(
    graph: spec_fn(Seq<Seq<char>>) -> EventView,
    c: CoordinatorView,
    emitted: Seq<(Seq<Seq<char>>, EventView)>,
    path: Seq<Seq<char>>,
)
    requires
        tallies_ok(graph, c, emitted),
        tally(graph, c, emitted, path) > 0,
    ensures
        reached(graph, path) > 0,
    decreases path.len(),
{
    if path.len() > 0 {
        let parent = path.drop_last();
        let answered = occurrences(emitted, (parent, graph(parent)));
        let listed = occurrences(child_names(graph(parent)), path.last());
        assert(answered * listed > 0);
        assert(answered > 0 && listed > 0) by (nonlinear_arith)
            requires
                answered * listed > 0,
        ;
        assert(tally(graph, c, emitted, parent) >= answered);
        lemma_tallied_is_reached(graph, c, emitted, parent);
        let times = reached(graph, parent);
        assert(times * listed > 0) by (nonlinear_arith)
            requires
                times > 0,
                listed > 0,
        ;
    }
}

proof fn lemma_all_rejected(
    graph: spec_fn(Seq<Seq<char>>) -> EventView,
    c: CoordinatorView,
    worker: usize,
)
    requires
        items_ok(graph, c),
        worker < c.running.len(),
        c.running[worker as int] is Some,
        (c.running[worker as int]->0).rejected_by.len() + 1 >= c.workers.len(),
        !accepts(c.workers[worker as int].kind, graph((c.running[worker as int]->0).path)),
    ensures
        !accepted_by_some(c.workers, graph((c.running[worker as int]->0).path)),
{
    let item = c.running[worker as int]->0;
    let rejected = item.rejected_by.push(worker);
    assert(item_ok(graph, c.workers, item));
    if accepted_by_some(c.workers, graph(item.path)) {
        let w = choose|w: int|
            0 <= w < c.workers.len() && accepts((#[trigger] c.workers[w]).kind, graph(item.path));
        assert(!rejected.contains(w as usize)) by {
            if rejected.contains(w as usize) {
                let k = choose|k: int| 0 <= k < rejected.len() && rejected[k] == w as usize;
                if k < item.rejected_by.len() {
                    assert(item.rejected_by[k] == w as usize);
                }
            }
        }
        let all = rejected.push(w as usize);
        assert(all.no_duplicates()) by {
            assert forall|i: int, j: int| 0 <= i < j < all.len() implies all[i] != all[j] by {
                if j == rejected.len() {
                    assert(rejected[i] == all[i]);
                    assert(rejected.contains(all[i]));
                } else if j == item.rejected_by.len() {
                    assert(item.rejected_by[i] == all[i]);
                    assert(item.rejected_by.contains(all[i]));
                } else {
                    assert(item.rejected_by[i] == all[i] && item.rejected_by[j] == all[j]);
                }
            }
        }
        lemma_few_workers(c.workers, all);
    }
}

/// Distinct workers are no more than there are.
proof fn lemma_few_workers(workers: Seq<WorkerSpecView>, some: Seq<usize>)
    requires
        some.no_duplicates(),
        forall|i: int| 0 <= i < some.len() ==> (#[trigger] some[i]) < workers.len(),
        workers.len() <= usize::MAX,
    ensures
        some.len() <= workers.len(),
{
    let places = Seq::new(workers.len(), |i: int| i as usize);
    assert forall|i: int, j: int| 0 <= i < places.len() && 0 <= j < places.len() && i != j implies places[i]
        != places[j] by {
        assert(places[i] == i as usize && places[j] == j as usize);
    }
    places.unique_seq_to_set();
    some.unique_seq_to_set();
    assert forall|x: usize| some.to_set().contains(x) implies places.to_set().contains(x) by {
        let k = choose|k: int| 0 <= k < some.len() && some[k] == x;
        assert(some[k] < workers.len());
        assert(places[x as int] == x);
    }
    assert(some.to_set().subset_of(places.to_set()));
    vstd::set_lib::lemma_len_subset(some.to_set(), places.to_set());
}

proof fn lemma_step(
    graph: spec_fn(Seq<Seq<char>>) -> EventView,
    workers: Seq<WorkerSpecView>,
    before: Moment,
    after: Moment,
)
    requires
        moment_ok(graph, workers, before),
        follows(graph, before, after),
    ensures
        moment_ok(graph, workers, after),
{
    let c = before.coordinator;
    if after == after_round(before) {
        lemma_dispatched(graph, c, before.emitted, c.idle.len());
        lemma_never_stalls(graph, c, before.emitted);
        assert(emitted_ok(graph, workers, after)) by {
            assert forall|i: int| 0 <= i < after.emitted.len() implies {
                let (path, event) = #[trigger] after.emitted[i];
                event == graph(path) && accepted_by_some(workers, event) && !is_fatal(event)
            } by {
                assert(before.emitted[i] == after.emitted[i]);
            }
        }
    } else {
        let worker = choose|worker: usize|
            busy(before, worker) && after == #[trigger] after_return(graph, before, worker);
        let item = c.running[worker as int]->0;
        let event = graph(item.path);
        law_finish_keeps_order(c, worker, event);
        assert(c.workers[worker as int].id == worker);
        assert forall|i: int| 0 <= i < after.emitted.len() implies {
            let (path, event) = #[trigger] after.emitted[i];
            event == graph(path) && accepted_by_some(workers, event) && (after.end !is Failed
                ==> !is_fatal(event))
        } by {
            if i < before.emitted.len() {
                assert(before.emitted[i] == after.emitted[i]);
            } else {
                assert(accepts(workers[worker as int].kind, event));
            }
        }
        if after.end is Failed {
            if event is Derivation {
                lemma_all_rejected(graph, c, worker);
            }
            assert(underway(c.running)[worker as int] == Some(item.path));
            lemma_occurrences_at(underway(c.running), worker as int);
            lemma_tallied_is_reached(graph, c, before.emitted, item.path);
            assert(failure_cause(graph, workers, item.path, after.end->Failed_0));
        } else {
            lemma_returned_items(graph, before, worker);
            lemma_returned_tallies(graph, before, worker);
        }
    }
}

proof fn lemma_outset(graph: spec_fn(Seq<Seq<char>>) -> EventView, workers: Seq<WorkerSpecView>)
    requires
        fresh(workers).wf(),
        workers.len() > 0,
    ensures
        moment_ok(graph, workers, outset(workers)),
{
    let m = outset(workers);
    let c = m.coordinator;
    assert forall|path: Seq<Seq<char>>| #[trigger]
        tally(graph, c, m.emitted, path) == came_up(graph, m.emitted, path) by {
        let root = Seq::<Seq<char>>::empty();
        assert(queued(c.scheduler.todo) =~= Seq::empty().push(root));
        lemma_occurrences_push(Seq::<Seq<Seq<char>>>::empty(), root, path);
        lemma_occurrences_none(underway(c.running), Some(path));
        assert(occurrences(m.emitted, (path, graph(path))) == 0);
        if path.len() == 0 {
            assert(path =~= root);
        } else {
            let parent = path.drop_last();
            assert(occurrences(m.emitted, (parent, graph(parent))) == 0);
            assert(0 * occurrences(child_names(graph(parent)), path.last()) == 0);
        }
    }
    assert forall|i: int| 0 <= i < c.scheduler.todo.len() implies item_ok(
        graph,
        c.workers,
        #[trigger] c.scheduler.todo[i],
    ) by {
        assert(c.scheduler.todo[i].rejected_by =~= Seq::empty());
    }
}

proof fn lemma_run(
    graph: spec_fn(Seq<Seq<char>>) -> EventView,
    workers: Seq<WorkerSpecView>,
    moments: Seq<Moment>,
)
    requires
        fresh(workers).wf(),
        workers.len() > 0,
        is_run(graph, workers, moments),
    ensures
        moment_ok(graph, workers, moments.last()),
    decreases moments.len(),
{
    if moments.len() == 1 {
        lemma_outset(graph, workers);
    } else {
        lemma_run(graph, workers, moments.drop_last());
        lemma_step(graph, workers, moments.drop_last().last(), moments.last());
    }
}

proof fn lemma_done_tallies(
    graph: spec_fn(Seq<Seq<char>>) -> EventView,
    workers: Seq<WorkerSpecView>,
    m: Moment,
    path: Seq<Seq<char>>,
)
    requires
        moment_ok(graph, workers, m),
        m.end is Done,
    ensures
        occurrences(m.emitted, (path, graph(path))) == reached(graph, path),
    decreases path.len(),
{
    let c = m.coordinator;
    assert(tally(graph, c, m.emitted, path) == came_up(graph, m.emitted, path));
    assert forall|w: int| 0 <= w < underway(c.running).len() implies underway(c.running)[w] != Some(
        path,
    ) by {
        if c.running[w] is Some {
            law_finish_keeps_order(c, w as usize, graph(path));
        }
    }
    lemma_occurrences_none(underway(c.running), Some(path));
    assert(occurrences(queued(c.scheduler.todo), path) == 0);
    if path.len() > 0 {
        lemma_done_tallies(graph, workers, m, path.drop_last());
    }
}

/// A finished evaluation has answered each path of the attribute graph as often as the graph holds
/// it, with the path's own event, and nothing else.
pub proof fn law_every_path_is_answered(
    graph: spec_fn(Seq<Seq<char>>) -> EventView,
    workers: Seq<WorkerSpecView>,
    moments: Seq<Moment>,
    path: Seq<Seq<char>>,
    event: EventView,
)
    requires
        fresh(workers).wf(),
        workers.len() > 0,
        is_run(graph, workers, moments),
        moments.last().end is Done,
    ensures
        occurrences(moments.last().emitted, (path, event)) == if event == graph(path) {
            reached(graph, path)
        } else {
            0
        },
{
    lemma_run(graph, workers, moments);
    let m = moments.last();
    if event == graph(path) {
        lemma_done_tallies(graph, workers, m, path);
    } else {
        assert forall|i: int| 0 <= i < m.emitted.len() implies m.emitted[i] != (path, event) by {
            assert(m.emitted[i].1 == graph(m.emitted[i].0));
        }
        lemma_occurrences_none(m.emitted, (path, event));
    }
}

/// Workers are interchangeable: two finished evaluations of one attribute graph emit the same
/// events, each as often, whichever local and remote workers took part and in whichever order
/// they answered.
pub proof fn law_workers_are_interchangeable(
    graph: spec_fn(Seq<Seq<char>>) -> EventView,
    workers: Seq<WorkerSpecView>,
    moments: Seq<Moment>,
    other_workers: Seq<WorkerSpecView>,
    other_moments: Seq<Moment>,
)
    requires
        fresh(workers).wf(),
        workers.len() > 0,
        is_run(graph, workers, moments),
        moments.last().end is Done,
        fresh(other_workers).wf(),
        other_workers.len() > 0,
        is_run(graph, other_workers, other_moments),
        other_moments.last().end is Done,
    ensures
        moments.last().emitted.to_multiset() == other_moments.last().emitted.to_multiset(),
{
    let one = moments.last().emitted;
    let two = other_moments.last().emitted;
    assert forall|entry: (Seq<Seq<char>>, EventView)| #[trigger]
        one.to_multiset().count(entry) == two.to_multiset().count(entry) by {
        law_every_path_is_answered(graph, workers, moments, entry.0, entry.1);
        law_every_path_is_answered(graph, other_workers, other_moments, entry.0, entry.1);
        lemma_occurrences_multiset(one, entry);
        lemma_occurrences_multiset(two, entry);
    }
    assert(one.to_multiset() =~= two.to_multiset());
}

/// No derivation is lost, and none comes from a worker that does not own its system: where an
/// attribute graph holds a derivation for a system that no worker of the pool owns, no evaluation
/// of it finishes.
pub proof fn law_unowned_system_never_finishes(
    graph: spec_fn(Seq<Seq<char>>) -> EventView,
    workers: Seq<WorkerSpecView>,
    moments: Seq<Moment>,
    path: Seq<Seq<char>>,
)
    requires
        fresh(workers).wf(),
        workers.len() > 0,
        is_run(graph, workers, moments),
        reached(graph, path) > 0,
        !accepted_by_some(workers, graph(path)),
    ensures
        moments.last().end !is Done,
{
    if moments.last().end is Done {
        lemma_run(graph, workers, moments);
        law_every_path_is_answered(graph, workers, moments, path, graph(path));
        let i = lemma_occurrences_some(moments.last().emitted, (path, graph(path)));
        assert(moments.last().emitted[i].1 == graph(path));
    }
}

/// An evaluation fails for one of two reasons only, and each lies at a path that the attribute graph
/// holds: the path's event is a fatal error, which is then the message; or no worker of the pool
/// owns the system of the path's derivation, and the message names both. In particular it never
/// stalls.
pub proof fn law_failure_has_a_cause(
    graph: spec_fn(Seq<Seq<char>>) -> EventView,
    workers: Seq<WorkerSpecView>,
    moments: Seq<Moment>,
) -> (path: Seq<Seq<char>>)
    requires
        fresh(workers).wf(),
        workers.len() > 0,
        is_run(graph, workers, moments),
        moments.last().end is Failed,
    ensures
        failure_cause(graph, workers, path, moments.last().end->Failed_0),
        reached(graph, path) > 0,
{
    lemma_run(graph, workers, moments);
    choose|path: Seq<Seq<char>>| #[trigger]
        failure_cause(graph, workers, path, moments.last().end->Failed_0) && reached(graph, path)
            > 0
}

/// One bad attribute does not sink the run: an error that is not fatal is emitted and the
/// evaluation goes on.
pub proof fn law_plain_error_goes_on(
    graph: spec_fn(Seq<Seq<char>>) -> EventView,
    m: Moment,
    worker: usize,
)
    requires
        busy(m, worker),
        graph((m.coordinator.running[worker as int]->0).path) is Error,
        !is_fatal(graph((m.coordinator.running[worker as int]->0).path)),
    ensures
        ({
            let path = (m.coordinator.running[worker as int]->0).path;
            &&& after_return(graph, m, worker).end is Running
            &&& after_return(graph, m, worker).emitted == m.emitted.push((path, graph(path)))
            &&& after_return(graph, m, worker).coordinator.scheduler.todo
                == m.coordinator.scheduler.todo
        }),
{
}

/// A worker that rejected an item never gets it again: whatever it is handed lists it nowhere.
pub proof fn law_rejecting_worker_is_not_asked_again(
    graph: spec_fn(Seq<Seq<char>>) -> EventView,
    workers: Seq<WorkerSpecView>,
    moments: Seq<Moment>,
    worker: usize,
)
    requires
        fresh(workers).wf(),
        workers.len() > 0,
        is_run(graph, workers, moments),
        moments.last().end !is Failed,
        busy(moments.last(), worker),
    ensures
        !(moments.last().coordinator.running[worker as int]->0).rejected_by.contains(worker),
{
    lemma_run(graph, workers, moments);
    assert(moments.last().coordinator.running[worker as int] is Some);
}

/// The events of answers.
pub open spec fn events_of(emitted: Seq<(Seq<Seq<char>>, EventView)>) -> Seq<EventView> {
    emitted.map_values(|entry: (Seq<Seq<char>>, EventView)| entry.1)
}

/// Whether each derivation of an attribute graph names the path that it stands at.
pub open spec fn derivations_name_their_paths(
    graph: spec_fn(Seq<Seq<char>>) -> EventView,
) -> bool {
    forall|path: Seq<Seq<char>>|
        (#[trigger] graph(path)) is Derivation ==> graph(path)->Derivation_0.attr_path == path
}

proof fn lemma_last_derivation(events: Seq<EventView>, path: Seq<Seq<char>>)
    ensures
        match last_derivation(events, path) {
            Some(drv) => drv.attr_path == path && events.contains(EventView::Derivation(drv)),
            None => forall|i: int|
                0 <= i < events.len() && (#[trigger] events[i]) is Derivation
                    ==> events[i]->Derivation_0.attr_path != path,
        },
    decreases events.len(),
{
    if events.len() > 0 {
        let shorter = events.drop_last();
        lemma_last_derivation(shorter, path);
        assert(events[events.len() - 1] == events.last());
        match last_derivation(events, path) {
            Some(drv) => {
                if events.last() != EventView::Derivation(drv) {
                    let k = choose|k: int|
                        0 <= k < shorter.len() && shorter[k] == EventView::Derivation(drv);
                    assert(events[k] == EventView::Derivation(drv));
                }
            },
            None => {
                assert forall|i: int|
                    0 <= i < events.len() && (#[trigger] events[i]) is Derivation implies
                    events[i]->Derivation_0.attr_path != path by {
                    if i < shorter.len() {
                        assert(shorter[i] == events[i]);
                    }
                }
            },
        }
    }
}

/// The warm graph of a finished evaluation holds the derivations of the attribute graph, each at
/// its path, whoever evaluated them in whichever order.
pub proof fn law_warm_graph(
    graph: spec_fn(Seq<Seq<char>>) -> EventView,
    workers: Seq<WorkerSpecView>,
    moments: Seq<Moment>,
    path: Seq<Seq<char>>,
)
    requires
        derivations_name_their_paths(graph),
        fresh(workers).wf(),
        workers.len() > 0,
        is_run(graph, workers, moments),
        moments.last().end is Done,
    ensures
        ({
            let warm = map_of(recorded_all(events_of(moments.last().emitted)).graph);
            if reached(graph, path) > 0 && graph(path) is Derivation {
                warm.contains_pair(path, graph(path)->Derivation_0)
            } else {
                !warm.contains_key(path)
            }
        }),
{
    let emitted = moments.last().emitted;
    let events = events_of(emitted);
    let warm = map_of(recorded_all(events).graph);
    lemma_run(graph, workers, moments);
    law_every_path_is_answered(graph, workers, moments, path, graph(path));
    law_recorded(events);
    lemma_last_derivation(events, path);
    assert(warm.contains_key(path) || !warm.contains_key(path));
    if let Some(drv) = last_derivation(events, path) {
        let k = choose|k: int| 0 <= k < events.len() && events[k] == EventView::Derivation(drv);
        assert(events[k] == emitted[k].1);
        assert(graph(emitted[k].0) == emitted[k].1);
        assert(emitted[k] == (path, graph(path)));
        if occurrences(emitted, (path, graph(path))) == 0 {
            lemma_occurrences_at(emitted, k);
        }
    } else if reached(graph, path) > 0 && graph(path) is Derivation {
        let i = lemma_occurrences_some(emitted, (path, graph(path)));
        assert(events[i] == graph(path));
    }
}

proof fn lemma_occurrences_at<T>(s: Seq<T>, i: int)
    requires
        0 <= i < s.len(),
    ensures
        occurrences(s, s[i]) > 0,
    decreases s.len(),
{
    if i < s.len() - 1 {
        lemma_occurrences_at(s.drop_last(), i);
        assert(s.drop_last()[i] == s[i]);
    }
}

/// Evaluating an unchanged attribute graph again adds and removes nothing.
pub proof fn law_unchanged_graph_has_empty_diff(
    graph: spec_fn(Seq<Seq<char>>) -> EventView,
    workers: Seq<WorkerSpecView>,
    moments: Seq<Moment>,
    other_workers: Seq<WorkerSpecView>,
    other_moments: Seq<Moment>,
    errors: Seq<EvalErrorView>,
)
    requires
        derivations_name_their_paths(graph),
        fresh(workers).wf(),
        workers.len() > 0,
        is_run(graph, workers, moments),
        moments.last().end is Done,
        fresh(other_workers).wf(),
        other_workers.len() > 0,
        is_run(graph, other_workers, other_moments),
        other_moments.last().end is Done,
    ensures
        ({
            let diff = diff_of(
                recorded_all(events_of(moments.last().emitted)).graph,
                recorded_all(events_of(other_moments.last().emitted)).graph,
                errors,
            );
            diff.added.len() == 0 && diff.removed.len() == 0
        }),
{
    let one = recorded_all(events_of(moments.last().emitted)).graph;
    let two = recorded_all(events_of(other_moments.last().emitted)).graph;
    law_recorded(events_of(moments.last().emitted));
    law_recorded(events_of(other_moments.last().emitted));
    assert forall|path: Seq<Seq<char>>|
        #![trigger map_of(one).contains_key(path)]
        #![trigger map_of(two).contains_key(path)]
        map_of(one).contains_key(path) == map_of(two).contains_key(path) && (map_of(
            one,
        ).contains_key(path) ==> map_of(one)[path] == map_of(two)[path]) by {
        law_warm_graph(graph, workers, moments, path);
        law_warm_graph(graph, other_workers, other_moments, path);
    }
    assert(map_of(one).dom() =~= map_of(two).dom()) by {
        assert forall|path: Seq<Seq<char>>|
            map_of(one).dom().contains(path) == map_of(two).dom().contains(path) by {
            assert(map_of(one).contains_key(path) == map_of(two).contains_key(path));
        }
    }
    law_empty_diff(one, two, errors);
}

} // verus!
