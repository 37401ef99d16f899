//! Long-lived evaluation sessions: the state behind streaming, watching, comparing and querying.
//!
//! Running the evaluations and waiting for them is the caller's part.

use vstd::prelude::*;
use vstd::string::*;

use crate::error::{Error, ErrorView};
use crate::keyed_map::Duplicate;
use crate::state::{
    cold, diff_graphs, diff_of, matches_filter, passes, EvalAccumulator, EvalAccumulatorView,
    EvalGraph, WarmState, WarmStateView,
};
use crate::types::{
    no_filter, Config, ConfigView, Derivation, DerivationView, Diff, Filter, FilterView,
};

verus! {

/// Long-lived evaluation session.
///
/// It is opened without evaluating anything. Its event stream is single-use: once drained, the
/// session keeps a warm derivation graph for queries and diffs.
pub struct Session {
    config: Config,
    cancelled: bool,
    state: WarmState,
    used: bool,
}

pub struct SessionView {
    pub config: ConfigView,
    pub cancelled: bool,
    pub state: WarmStateView,
    /// Whether the initial evaluation was started.
    pub used: bool,
}

impl View for Session {
    type V = SessionView;

    closed spec fn view(&self) -> SessionView {
        SessionView {
            config: self.config@,
            cancelled: self.cancelled,
            state: self.state@,
            used: self.used,
        }
    }
}

/// What there is to wait for before a session's inputs can be watched.
pub enum InitialEvaluation {
    /// The initial evaluation completed.
    Completed,
    /// It failed.
    Failed(String),
    /// It is still running.
    Running,
    /// The session is gone.
    Dropped,
}

/// The derivations of a warm graph that pass a filter, in the order of the graph.
pub open spec fn queried(
    graph: Seq<(Seq<Seq<char>>, DerivationView)>,
    filter: FilterView,
) -> Seq<DerivationView>
    decreases graph.len(),
{
    if graph.len() == 0 {
        Seq::empty()
    } else {
        let before = queried(graph.drop_last(), filter);
        if passes(graph.last().1, filter) {
            before.push(graph.last().1)
        } else {
            before
        }
    }
}

/// The warm state after an evaluation.
pub open spec fn warmed(outcome: EvalAccumulatorView) -> WarmStateView {
    WarmStateView {
        graph: outcome.graph,
        errors: outcome.errors,
        completed: true,
        error: None,
    }
}

/// A session whose initial evaluation was started.
pub open spec fn started(session: SessionView) -> SessionView {
    SessionView { used: true, ..session }
}

/// A session whose initial evaluation ended: what it found is kept warm, or why it failed is
/// remembered.
pub open spec fn ended(
    session: SessionView,
    outcome: Result<EvalAccumulatorView, Seq<char>>,
) -> SessionView {
    SessionView {
        state: match outcome {
            Ok(found) => warmed(found),
            Err(message) => WarmStateView { error: Some(message), ..session.state },
        },
        ..session
    }
}

/// A session that was cancelled.
pub open spec fn cancelled(session: SessionView) -> SessionView {
    SessionView { cancelled: true, ..session }
}

impl Session {
    /// Opens a session without starting evaluation.
    pub fn open(config: Config) -> (session: Self)
        ensures
            session@ == (SessionView {
                config: config@,
                cancelled: false,
                state: cold(),
                used: false,
            }),
    {
        Session { config, cancelled: false, state: WarmState::default(), used: false }
    }

    /// The configuration to evaluate.
    pub fn config(&self) -> (config: &Config)
        ensures
            config@ == self@.config,
    {
        &self.config
    }

    /// Starts the single-use stream of the initial evaluation.
    pub fn stream(&mut self) -> (result: Result<(), Error>)
        ensures
            final(self)@ == started(old(self)@),
            match result {
                Ok(_) => !old(self)@.used,
                Err(error) => old(self)@.used && error@ == ErrorView::SessionStreamConsumed,
            },
    {
        if self.used {
            return Err(Error::SessionStreamConsumed);
        }
        self.used = true;
        Ok(())
    }

    /// Starts watching. Tells whether the initial evaluation has to be started first.
    pub fn watch(&mut self) -> (start_initial: bool)
        ensures
            final(self)@ == started(old(self)@),
            start_initial == !old(self)@.used,
    {
        let start_initial = !self.used;
        self.used = true;
        start_initial
    }

    /// Takes in how the initial evaluation ended.
    pub fn evaluate_initial(&mut self, outcome: Result<EvalAccumulator, String>) -> (result: Result<
        (),
        Error,
    >)
        ensures
            match outcome {
                Ok(accumulator) => result is Ok && final(self)@ == ended(
                    old(self)@,
                    Ok(accumulator@),
                ),
                Err(message) => result is Err && result->Err_0@ == (ErrorView::Internal {
                    message: message@,
                }) && final(self)@ == ended(old(self)@, Err(message@)),
            },
    {
        match outcome {
            Ok(accumulator) => {
                self.state = WarmState {
                    graph: accumulator.graph,
                    errors: accumulator.errors,
                    completed: true,
                    error: None,
                };
                Ok(())
            },
            Err(message) => {
                self.state.error = Some(message.clone());
                Err(Error::internal(message))
            },
        }
    }

    /// Queries a snapshot of the warm derivation graph. An initial evaluation must have completed.
    pub fn query_snapshot(&self, filter: &Filter) -> (result: Result<Vec<Derivation>, Error>)
        ensures
            match result {
                Ok(drvs) => self@.state.completed && drvs.deep_view() == queried(
                    self@.state.graph,
                    filter@,
                ),
                Err(error) => !self@.state.completed && error@ == (
                ErrorView::InitialEvaluationIncomplete { operation: "query_snapshot"@ }),
            },
    {
        if !self.state.completed {
            return Err(Error::InitialEvaluationIncomplete { operation: "query_snapshot" });
        }
        let ghost items = self.state.graph.items();
        let mut drvs: Vec<Derivation> = Vec::new();
        assert(drvs.deep_view() =~= Seq::empty());
        let mut i: usize = 0;
        while i < self.state.graph.len()
            invariant
                items == self.state.graph.items(),
                i <= items.len(),
                drvs.deep_view() == queried(items.take(i as int), filter@),
            decreases items.len() - i,
        {
            assert(items.take(i + 1).drop_last() =~= items.take(i as int));
            let drv = self.state.graph.value_at(i);
            if matches_filter(drv, filter) {
                let ghost before = drvs.deep_view();
                drvs.push(drv.duplicate());
                assert(drvs.deep_view() =~= before.push(drv@));
            }
            i += 1;
        }
        assert(items.take(items.len() as int) =~= items);
        Ok(drvs)
    }

    /// Another name of [`Session::query_snapshot`].
    pub fn query(&self, filter: &Filter) -> (result: Result<Vec<Derivation>, Error>)
        ensures
            match result {
                Ok(drvs) => self@.state.completed && drvs.deep_view() == queried(
                    self@.state.graph,
                    filter@,
                ),
                Err(error) => !self@.state.completed && error@ == (
                ErrorView::InitialEvaluationIncomplete { operation: "query_snapshot"@ }),
            },
    {
        self.query_snapshot(filter)
    }

    /// The graph that a new evaluation is to be compared with. An initial evaluation must have
    /// completed.
    pub fn diff_base(&self) -> (result: Result<EvalGraph, Error>)
        ensures
            match result {
                Ok(graph) => self@.state.completed && graph.items() == self@.state.graph,
                Err(error) => !self@.state.completed && error@ == (
                ErrorView::InitialEvaluationIncomplete { operation: "diff_once"@ }),
            },
    {
        if !self.state.completed {
            return Err(Error::InitialEvaluationIncomplete { operation: "diff_once" });
        }
        Ok(self.state.graph.duplicate())
    }

    /// The warm graph as it is.
    pub fn graph(&self) -> (graph: EvalGraph)
        ensures
            graph.items() == self@.state.graph,
    {
        self.state.graph.duplicate()
    }

    /// Compares a new evaluation with an earlier graph, and keeps it as the warm one.
    pub fn diff_once(&mut self, previous: &EvalGraph, outcome: EvalAccumulator) -> (diff: Diff)
        ensures
            diff@ == diff_of(previous.items(), outcome@.graph, outcome@.errors),
            final(self)@ == ended(old(self)@, Ok(outcome@)),
    {
        let diff = diff_graphs(previous, &outcome.graph, outcome.errors.duplicate());
        self.state = WarmState {
            graph: outcome.graph,
            errors: outcome.errors,
            completed: true,
            error: None,
        };
        diff
    }

    /// Whether an evaluation has completed.
    pub fn is_completed(&self) -> (yes: bool)
        ensures
            yes == self@.state.completed,
    {
        self.state.completed
    }

    /// Demands that an evaluation has completed; where the initial one failed, its error is
    /// reported again.
    pub fn require_completed(&self) -> (result: Result<(), Error>)
        ensures
            match result {
                Ok(_) => self@.state.completed,
                Err(error) => !self@.state.completed && error@ == (match self@.state.error {
                    Some(message) => ErrorView::EvaluationFailed { message },
                    None => ErrorView::SessionStillEvaluating,
                }),
            },
    {
        if self.state.completed {
            return Ok(());
        }
        match &self.state.error {
            Some(message) => Err(Error::EvaluationFailed { message: message.clone() }),
            None => Err(Error::SessionStillEvaluating),
        }
    }

    /// Cancels whatever is evaluated for the session.
    pub fn cancel(&mut self)
        ensures
            final(self)@ == cancelled(old(self)@),
    {
        self.cancelled = true;
    }

    /// Whether the session was cancelled.
    pub fn is_cancelled(&self) -> (yes: bool)
        ensures
            yes == self@.cancelled,
    {
        self.cancelled
    }

    /// How far the initial evaluation is.
    pub fn initial_evaluation(&self) -> (state: InitialEvaluation)
        ensures
            match state {
                InitialEvaluation::Dropped => self@.cancelled,
                InitialEvaluation::Completed => !self@.cancelled && self@.state.completed,
                InitialEvaluation::Failed(message) => !self@.cancelled && !self@.state.completed
                    && self@.state.error == Some(message@),
                InitialEvaluation::Running => !self@.cancelled && !self@.state.completed
                    && self@.state.error is None,
            },
    {
        if self.cancelled {
            return InitialEvaluation::Dropped;
        }
        if self.state.completed {
            return InitialEvaluation::Completed;
        }
        match &self.state.error {
            Some(message) => InitialEvaluation::Failed(message.clone()),
            None => InitialEvaluation::Running,
        }
    }
}

/// The stream of a session is single-use: once it was started, by a stream or a watch, nothing makes
/// it available again.
pub proof fn law_stream_is_single_use(
    session: SessionView,
    outcome: Result<EvalAccumulatorView, Seq<char>>,
)
    ensures
        started(session).used,
        session.used ==> ended(session, outcome).used && cancelled(session).used,
{
}

/// A session that is warm stays warm, whatever happens to it: evaluated once, it answers queries
/// for good.
pub proof fn law_warm_stays_warm(
    session: SessionView,
    outcome: Result<EvalAccumulatorView, Seq<char>>,
)
    requires
        session.state.completed,
    ensures
        started(session).state == session.state,
        cancelled(session).state == session.state,
        ended(session, outcome).state.completed,
        outcome is Err ==> ended(session, outcome).state.graph == session.state.graph,
{
}

/// A query gives exactly the derivations of the warm graph that pass the filter.
pub proof fn law_query_is_exact(
    graph: Seq<(Seq<Seq<char>>, DerivationView)>,
    filter: FilterView,
    drv: DerivationView,
)
    ensures
        queried(graph, filter).contains(drv) <==> passes(drv, filter) && exists|i: int|
            0 <= i < graph.len() && (#[trigger] graph[i]).1 == drv,
    decreases graph.len(),
{
    let all = queried(graph, filter);
    if graph.len() > 0 {
        let shorter = graph.drop_last();
        let before = queried(shorter, filter);
        law_query_is_exact(shorter, filter, drv);
        if before.contains(drv) {
            let k = choose|k: int| 0 <= k < before.len() && before[k] == drv;
            assert(all[k] == drv);
            let i = choose|i: int| 0 <= i < shorter.len() && (#[trigger] shorter[i]).1 == drv;
            assert(graph[i].1 == drv);
        } else if all.contains(drv) {
            let k = choose|k: int| 0 <= k < all.len() && all[k] == drv;
            if k < before.len() {
                assert(before[k] == drv);
            }
            assert(graph[graph.len() - 1].1 == drv);
        }
        if passes(drv, filter) && exists|i: int|
            0 <= i < graph.len() && (#[trigger] graph[i]).1 == drv {
            let i = choose|i: int| 0 <= i < graph.len() && (#[trigger] graph[i]).1 == drv;
            if i < shorter.len() {
                assert(shorter[i].1 == drv);
            } else {
                assert(all[all.len() - 1] == drv);
            }
        }
    }
}

/// A query without a filter gives the whole warm graph.
pub proof fn law_query_without_filter(graph: Seq<(Seq<Seq<char>>, DerivationView)>)
    ensures
        queried(graph, no_filter()).len() == graph.len(),
        forall|i: int|
            0 <= i < graph.len() ==> queried(graph, no_filter())[i] == (
            #[trigger] graph[i]).1,
    decreases graph.len(),
{
    if graph.len() > 0 {
        let shorter = graph.drop_last();
        law_query_without_filter(shorter);
        assert forall|i: int| 0 <= i < graph.len() implies queried(
            graph,
            no_filter(),
        )[i] == (#[trigger] graph[i]).1 by {
            if i < shorter.len() {
                assert(shorter[i] == graph[i]);
            }
        }
    }
}

/// The answers to a query come in the order of the graph: those from two parts of it are those from
/// the one and then those from the other; a single derivation is answered once where it passes.
pub proof fn law_answers_keep_their_order(
    one: Seq<(Seq<Seq<char>>, DerivationView)>,
    two: Seq<(Seq<Seq<char>>, DerivationView)>,
    filter: FilterView,
    path: Seq<Seq<char>>,
    drv: DerivationView,
)
    ensures
        queried(one + two, filter) == queried(one, filter) + queried(two, filter),
        queried(seq![(path, drv)], filter) == (if passes(drv, filter) {
            seq![drv]
        } else {
            Seq::empty()
        }),
        queried(Seq::empty(), filter) == Seq::<DerivationView>::empty(),
    decreases two.len(),
{
    let single = seq![(path, drv)];
    assert(single.drop_last() =~= Seq::empty());
    assert(queried(single.drop_last(), filter) =~= Seq::empty());
    assert(Seq::<DerivationView>::empty().push(drv) =~= seq![drv]);
    if two.len() == 0 {
        assert(one + two =~= one);
        assert(queried(one, filter) + queried(two, filter) =~= queried(one, filter));
    } else {
        law_answers_keep_their_order(one, two.drop_last(), filter, path, drv);
        assert((one + two).drop_last() =~= one + two.drop_last());
        assert(queried(one + two, filter) =~= queried(one, filter) + queried(two, filter));
    }
}

/// An evaluation that ended well leaves its graph and its errors in the session, completed and
/// without a failure; one that failed leaves its message, and whatever was warm as it was. Neither
/// changes anything else of the session.
pub proof fn law_sessions_keep_what_was_found(
    session: SessionView,
    found: EvalAccumulatorView,
    message: Seq<char>,
)
    ensures
        ({
            let after = ended(session, Ok(found));
            &&& after.state.graph == found.graph
            &&& after.state.errors == found.errors
            &&& after.state.completed
            &&& after.state.error is None
            &&& after.config == session.config
            &&& after.used == session.used
            &&& after.cancelled == session.cancelled
        }),
        ({
            let after = ended(session, Err(message));
            &&& after.state.graph == session.state.graph
            &&& after.state.errors == session.state.errors
            &&& after.state.completed == session.state.completed
            &&& after.state.error == Some(message)
            &&& after.config == session.config
            &&& after.used == session.used
            &&& after.cancelled == session.cancelled
        }),
{
}

/// Starting and cancelling a session mark it so, and change nothing else.
pub proof fn law_sessions_are_marked(session: SessionView)
    ensures
        started(session).used,
        started(session).cancelled == session.cancelled,
        started(session).config == session.config,
        started(session).state == session.state,
        cancelled(session).cancelled,
        cancelled(session).used == session.used,
        cancelled(session).config == session.config,
        cancelled(session).state == session.state,
{
}

/// Whatever evaluation a session took in last is what it answers from.
pub proof fn law_queries_see_the_last_evaluation(
    session: SessionView,
    found: EvalAccumulatorView,
    filter: FilterView,
    drv: DerivationView,
)
    ensures
        queried(ended(session, Ok(found)).state.graph, filter).contains(drv) <==> passes(
            drv,
            filter,
        ) && exists|i: int| 0 <= i < found.graph.len() && (#[trigger] found.graph[i]).1 == drv,
{
    law_query_is_exact(found.graph, filter, drv);
}

} // verus!
