//! The daemon: its warm sessions, and its answers to requests.
//!
//! Sockets, threads and running evaluations are the caller's part. The caller keeps the sessions
//! and gives each a number.

use vstd::prelude::*;
use vstd::string::*;

use crate::error::{Error, ErrorView};
use crate::keyed_map::KeyedMap;
use crate::protocol::{Request, RequestView, Response, ResponseView};
use crate::session::{ended, queried, Session, SessionView};
use crate::state::{diff_of, EvalAccumulator, EvalAccumulatorView, EvalGraph};
use crate::text::{same, trim, trimmed};
use crate::types::{
    Config, ConfigView, DerivationView, Diff, DiffView, Event, EventView, Filter, FilterView,
};

verus! {

/// The numbers of the warm sessions by their configurations.
pub struct DaemonState {
    sessions: KeyedMap<Config, usize>,
}

impl View for DaemonState {
    type V = Map<ConfigView, usize>;

    closed spec fn view(&self) -> Map<ConfigView, usize> {
        self.sessions@
    }
}

impl Default for DaemonState {
    fn default() -> (state: Self)
        ensures
            state@ == Map::<ConfigView, usize>::empty(),
    {
        DaemonState { sessions: KeyedMap::new() }
    }
}

impl DaemonState {
    /// Keeps a new session for a configuration, in place of the one that there was.
    pub fn replace_session(&mut self, config: Config, session: usize)
        ensures
            final(self)@ == old(self)@.insert(config@, session),
    {
        self.sessions.insert(config, session);
    }

    /// The session of a configuration.
    pub fn warm_session(&self, config: &Config) -> (result: Result<usize, String>)
        ensures
            match result {
                Ok(session) => self@.contains_pair(config@, session),
                Err(message) => !self@.contains_key(config@) && message@
                    == "no warm session for requested config"@,
            },
    {
        match self.sessions.get(config) {
            Some(session) => Ok(*session),
            None => Err("no warm session for requested config".to_owned()),
        }
    }
}

/// What ends the answer to a request: the last responses, and the error that the connection ends
/// with, if any.
pub struct Answer {
    pub responses: Vec<Response>,
    pub error: Option<String>,
}

pub struct AnswerView {
    pub responses: Seq<ResponseView>,
    pub error: Option<Seq<char>>,
}

impl View for Answer {
    type V = AnswerView;

    open spec fn view(&self) -> AnswerView {
        AnswerView { responses: self.responses.deep_view(), error: self.error.deep_view() }
    }
}

/// A request that is completed after some responses.
pub open spec fn completed(responses: Seq<ResponseView>) -> AnswerView {
    AnswerView { responses: responses.push(ResponseView::Done), error: None }
}

/// A request that is refused: a single response tells why, and the connection ends with an error
/// that says the same.
pub open spec fn refused(message: Seq<char>) -> AnswerView {
    AnswerView { responses: seq![ResponseView::Error { message }], error: Some(message) }
}

/// Completes a request after some responses.
fn complete(responses: Vec<Response>) -> (answer: Answer)
    ensures
        answer@ == completed(responses.deep_view()),
{
    let mut responses = responses;
    let ghost before = responses.deep_view();
    responses.push(Response::Done);
    assert(responses.deep_view() =~= before.push(ResponseView::Done));
    Answer { responses, error: None }
}

/// Refuses a request.
fn refuse(message: String) -> (answer: Answer)
    ensures
        answer@ == refused(message@),
{
    let mut responses: Vec<Response> = Vec::new();
    responses.push(Response::error(message.clone()));
    assert(responses.deep_view() =~= seq![ResponseView::Error { message: message@ }]);
    Answer { responses, error: Some(message) }
}

/// What there is to do for a request.
pub enum RequestStep {
    /// Open a session for the configuration in place of the one that there was, and answer with
    /// the events of its evaluation.
    Start { config: Config },
    /// Open a session for the configuration in place of the one that there was, and answer with
    /// its diffs as inputs change.
    Watch { config: Config },
    /// Query a session.
    Query { session: usize, filter: Filter },
    /// Evaluate a session again and compare.
    Diff { session: usize },
    /// Refuse the request.
    Refuse { answer: Answer },
}

pub enum RequestStepView {
    Start { config: ConfigView },
    Watch { config: ConfigView },
    Query { session: usize, filter: FilterView },
    Diff { session: usize },
    Refuse { answer: AnswerView },
}

impl View for RequestStep {
    type V = RequestStepView;

    open spec fn view(&self) -> RequestStepView {
        match self {
            RequestStep::Start { config } => RequestStepView::Start { config: config@ },
            RequestStep::Watch { config } => RequestStepView::Watch { config: config@ },
            RequestStep::Query { session, filter } => RequestStepView::Query {
                session: *session,
                filter: filter@,
            },
            RequestStep::Diff { session } => RequestStepView::Diff { session: *session },
            RequestStep::Refuse { answer } => RequestStepView::Refuse { answer: answer@ },
        }
    }
}

/// What there is to do for a request, given the warm sessions; `None` stands for a request that
/// cannot be read.
pub open spec fn route(
    sessions: Map<ConfigView, usize>,
    request: Option<RequestView>,
) -> RequestStepView {
    match request {
        None => RequestStepView::Refuse { answer: refused("parsing daemon request"@) },
        Some(RequestView::Eval { config }) => RequestStepView::Start { config },
        Some(RequestView::Watch { config }) => RequestStepView::Watch { config },
        Some(RequestView::Query { config, filter }) => if sessions.contains_key(config) {
            RequestStepView::Query { session: sessions[config], filter }
        } else {
            RequestStepView::Refuse { answer: refused("no warm session for requested config"@) }
        },
        Some(RequestView::Diff { config }) => if sessions.contains_key(config) {
            RequestStepView::Diff { session: sessions[config] }
        } else {
            RequestStepView::Refuse { answer: refused("no warm session for requested config"@) }
        },
    }
}

/// The text of the request on the line that a connection begins with: a blank line asks for
/// nothing.
pub fn request_text(line: &str) -> (text: Option<String>)
    ensures
        match text {
            Some(text) => trimmed(line@).len() > 0 && text@ == trimmed(line@),
            None => trimmed(line@).len() == 0,
        },
{
    let text = trim(line);
    proof {
        reveal_strlit("");
        assert(text@.len() == 0 ==> text@ =~= ""@);
    }
    if same(text.as_str(), "") {
        None
    } else {
        Some(text)
    }
}

/// Finds out what there is to do for the request that a connection begins with; `None` stands for a
/// request that cannot be read.
pub fn handle_connection(state: &DaemonState, request: Option<Request>) -> (step: RequestStep)
    ensures
        step@ == route(
            state@,
            match request {
                Some(request) => Some(request@),
                None => None,
            },
        ),
{
    match request {
        None => RequestStep::Refuse { answer: refuse("parsing daemon request".to_owned()) },
        Some(Request::Eval { config }) => RequestStep::Start { config },
        Some(Request::Watch { config }) => RequestStep::Watch { config },
        Some(Request::Query { config, filter }) => match state.warm_session(&config) {
            Ok(session) => RequestStep::Query { session, filter },
            Err(message) => RequestStep::Refuse { answer: refuse(message) },
        },
        Some(Request::Diff { config }) => match state.warm_session(&config) {
            Ok(session) => RequestStep::Diff { session },
            Err(message) => RequestStep::Refuse { answer: refuse(message) },
        },
    }
}

/// What there is to do while a request is answered.
pub enum AnswerStep {
    /// Send a response and go on.
    Send { response: Response },
    /// End the answer.
    End { answer: Answer },
}

pub enum AnswerStepView {
    Send { response: ResponseView },
    End { answer: AnswerView },
}

impl View for AnswerStep {
    type V = AnswerStepView;

    open spec fn view(&self) -> AnswerStepView {
        match self {
            AnswerStep::Send { response } => AnswerStepView::Send { response: response@ },
            AnswerStep::End { answer } => AnswerStepView::End { answer: answer@ },
        }
    }
}

/// The answer to one event of an evaluation, or to its error.
pub open spec fn event_response(item: Result<EventView, ErrorView>) -> ResponseView {
    match item {
        Ok(event) => ResponseView::Event { event },
        Err(error) => ResponseView::Error { message: error.message() },
    }
}

/// The answer to one diff of a watch, or to its error.
pub open spec fn diff_response(item: Result<DiffView, ErrorView>) -> ResponseView {
    match item {
        Ok(diff) => ResponseView::Diff { diff },
        Err(error) => ResponseView::Error { message: error.message() },
    }
}

/// What there is to do for an event of an evaluation, for its error, or at its end: the request is
/// then completed.
pub open spec fn event_step(item: Option<Result<EventView, ErrorView>>) -> AnswerStepView {
    match item {
        Some(item) => AnswerStepView::Send { response: event_response(item) },
        None => AnswerStepView::End { answer: completed(Seq::empty()) },
    }
}

/// What there is to do for a diff of a watch, for its error, or at its end: a watch ends without a
/// word.
pub open spec fn diff_step(item: Option<Result<DiffView, ErrorView>>) -> AnswerStepView {
    match item {
        Some(item) => AnswerStepView::Send { response: diff_response(item) },
        None => AnswerStepView::End {
            answer: AnswerView { responses: Seq::empty(), error: None },
        },
    }
}

/// Goes on with the answer to an evaluation.
pub fn handle_eval(item: &Option<Result<Event, Error>>) -> (step: AnswerStep)
    ensures
        step@ == event_step(
            match item {
                Some(Ok(event)) => Some(Ok(event@)),
                Some(Err(error)) => Some(Err(error@)),
                None => None,
            },
        ),
{
    match item {
        Some(Ok(event)) => AnswerStep::Send { response: Response::event(event) },
        Some(Err(error)) => AnswerStep::Send { response: Response::error(error.message()) },
        None => {
            let none: Vec<Response> = Vec::new();
            assert(none.deep_view() =~= Seq::<ResponseView>::empty());
            AnswerStep::End { answer: complete(none) }
        },
    }
}

/// Goes on with the answer to a watch.
pub fn handle_watch(item: &Option<Result<Diff, Error>>) -> (step: AnswerStep)
    ensures
        step@ == diff_step(
            match item {
                Some(Ok(diff)) => Some(Ok(diff@)),
                Some(Err(error)) => Some(Err(error@)),
                None => None,
            },
        ),
{
    match item {
        Some(Ok(diff)) => AnswerStep::Send { response: Response::diff(diff) },
        Some(Err(error)) => AnswerStep::Send { response: Response::error(error.message()) },
        None => {
            let none: Vec<Response> = Vec::new();
            assert(none.deep_view() =~= Seq::<ResponseView>::empty());
            AnswerStep::End { answer: Answer { responses: none, error: None } }
        },
    }
}

/// The error of a session that has no completed evaluation: it is still running, or failed.
pub open spec fn not_completed(session: SessionView) -> ErrorView {
    match session.state.error {
        Some(message) => ErrorView::EvaluationFailed { message },
        None => ErrorView::SessionStillEvaluating,
    }
}

/// The answer to a query of a warm session: the derivations, unless no evaluation has completed.
pub open spec fn query_answer(session: SessionView, filter: FilterView) -> AnswerView {
    if session.state.completed {
        completed(
            queried(session.state.graph, filter).map_values(
                |drv: DerivationView| ResponseView::Event { event: EventView::Derivation(drv) },
            ),
        )
    } else {
        refused(not_completed(session).message())
    }
}

/// Answers a query of a warm session.
pub fn handle_query(session: &Session, filter: &Filter) -> (answer: Answer)
    ensures
        answer@ == query_answer(session@, filter@),
{
    match session.require_completed() {
        Ok(_) => {},
        Err(error) => return refuse(error.message()),
    }
    let drvs = match session.query_snapshot(filter) {
        Ok(drvs) => drvs,
        Err(error) => return refuse(error.message()),
    };
    let ghost all = drvs.deep_view();
    let ghost f = |drv: DerivationView|
        ResponseView::Event { event: EventView::Derivation(drv) };
    let mut responses: Vec<Response> = Vec::new();
    let mut i: usize = 0;
    while i < drvs.len()
        invariant
            all == drvs.deep_view(),
            f == (|drv: DerivationView|
                ResponseView::Event { event: EventView::Derivation(drv) }),
            i <= drvs@.len(),
            responses.deep_view() =~= all.take(i as int).map_values(f),
        decreases drvs@.len() - i,
    {
        let ghost before = responses.deep_view();
        let response = Response::derivation_event(&drvs[i]);
        responses.push(response);
        assert(all[i as int] == drvs@[i as int]@);
        assert(responses.deep_view() =~= before.push(response@));
        i += 1;
    }
    assert(all.take(all.len() as int) =~= all);
    complete(responses)
}

/// The graph that a diff request is to compare with, or the refusal where no evaluation has
/// completed.
pub fn begin_diff(session: &Session) -> (result: Result<EvalGraph, Answer>)
    ensures
        match result {
            Ok(graph) => session@.state.completed && graph.items() == session@.state.graph,
            Err(answer) => !session@.state.completed && answer@ == refused(
                not_completed(session@).message(),
            ),
        },
{
    match session.require_completed() {
        Ok(_) => {},
        Err(error) => return Err(refuse(error.message())),
    }
    match session.diff_base() {
        Ok(graph) => Ok(graph),
        Err(error) => Err(refuse(error.message())),
    }
}

/// The answer to a diff request once its evaluation ended: the diff, unless the evaluation failed.
pub open spec fn diff_answer(
    previous: Seq<(Seq<Seq<char>>, DerivationView)>,
    outcome: Result<EvalAccumulatorView, Seq<char>>,
) -> AnswerView {
    match outcome {
        Ok(found) => completed(
            seq![ResponseView::Diff { diff: diff_of(previous, found.graph, found.errors) }],
        ),
        Err(message) => refused(message),
    }
}

/// Answers a diff request once its evaluation ended. The session keeps what the evaluation found;
/// where the evaluation failed, it stays as it was.
pub fn handle_diff(
    session: &mut Session,
    previous: &EvalGraph,
    outcome: Result<EvalAccumulator, String>,
) -> (answer: Answer)
    ensures
        match outcome {
            Ok(found) => answer@ == diff_answer(previous.items(), Ok(found@)) && final(session)@
                == ended(old(session)@, Ok(found@)),
            Err(message) => answer@ == diff_answer(previous.items(), Err(message@))
                && final(session)@ == old(session)@,
        },
{
    match outcome {
        Ok(found) => {
            let diff = session.diff_once(previous, found);
            let mut responses: Vec<Response> = Vec::new();
            responses.push(Response::diff(&diff));
            assert(responses.deep_view() =~= seq![ResponseView::Diff { diff: diff@ }]);
            complete(responses)
        },
        Err(message) => refuse(message),
    }
}

/// A query or a diff of a configuration that has no warm session is refused: it is answered by a
/// single error, and the connection ends with that error.
pub proof fn law_cold_requests_are_refused(
    sessions: Map<ConfigView, usize>,
    config: ConfigView,
    filter: FilterView,
)
    requires
        !sessions.contains_key(config),
    ensures
        ({
            let message = "no warm session for requested config"@;
            let refusal = RequestStepView::Refuse {
                answer: AnswerView {
                    responses: seq![ResponseView::Error { message }],
                    error: Some(message),
                },
            };
            &&& route(sessions, Some(RequestView::Query { config, filter })) == refusal
            &&& route(sessions, Some(RequestView::Diff { config })) == refusal
        }),
{
}

/// Whatever session was kept for a configuration last is the one that queries and diffs of that
/// configuration go to.
pub proof fn law_kept_sessions_are_asked(
    sessions: Map<ConfigView, usize>,
    config: ConfigView,
    session: usize,
    filter: FilterView,
)
    ensures
        route(sessions.insert(config, session), Some(RequestView::Query { config, filter }))
            == (RequestStepView::Query { session, filter }),
        route(sessions.insert(config, session), Some(RequestView::Diff { config }))
            == (RequestStepView::Diff { session }),
{
}

/// Whether an answer ends as it should: it is completed without an error, or it is a refusal.
pub open spec fn ends_well(answer: AnswerView) -> bool {
    if answer.error is Some {
        answer == refused(answer.error->0)
    } else {
        answer.responses.len() > 0 && answer.responses.last() == ResponseView::Done
    }
}

/// A query or a diff is either completed, and the last response says so, or refused, and the only
/// response is the error that the connection ends with.
pub proof fn law_answers_are_complete_or_refused(
    session: SessionView,
    filter: FilterView,
    previous: Seq<(Seq<Seq<char>>, DerivationView)>,
    outcome: Result<EvalAccumulatorView, Seq<char>>,
)
    ensures
        ends_well(query_answer(session, filter)),
        ends_well(diff_answer(previous, outcome)),
        query_answer(session, filter).error is None <==> session.state.completed,
        diff_answer(previous, outcome).error is None <==> outcome is Ok,
{
}

/// The responses that steps send, one after another.
pub open spec fn sent(steps: Seq<AnswerStepView>) -> Seq<ResponseView>
    decreases steps.len(),
{
    if steps.len() == 0 {
        Seq::empty()
    } else {
        match steps.last() {
            AnswerStepView::Send { response } => sent(steps.drop_last()).push(response),
            AnswerStepView::End { answer } => sent(steps.drop_last()) + answer.responses,
        }
    }
}

/// An evaluation is answered by one response for each item of its stream and after them the one
/// that the request is completed; a watch only by one for each item.
pub proof fn law_streams_are_answered(
    events: Seq<Result<EventView, ErrorView>>,
    diffs: Seq<Result<DiffView, ErrorView>>,
)
    ensures
        sent(
            events.map_values(|item: Result<EventView, ErrorView>| event_step(Some(item))).push(
                event_step(None),
            ),
        ) == events.map_values(|item: Result<EventView, ErrorView>| event_response(item)).push(
            ResponseView::Done,
        ),
        sent(
            diffs.map_values(|item: Result<DiffView, ErrorView>| diff_step(Some(item))).push(
                diff_step(None),
            ),
        ) == diffs.map_values(|item: Result<DiffView, ErrorView>| diff_response(item)),
{
    let event_steps = events.map_values(
        |item: Result<EventView, ErrorView>| event_step(Some(item)),
    );
    let event_responses = events.map_values(
        |item: Result<EventView, ErrorView>| event_response(item),
    );
    lemma_sends(event_steps, event_responses);
    assert(event_steps.push(event_step(None)).drop_last() =~= event_steps);
    assert(event_responses + completed(Seq::empty()).responses =~= event_responses.push(
        ResponseView::Done,
    ));
    let diff_steps = diffs.map_values(|item: Result<DiffView, ErrorView>| diff_step(Some(item)));
    let diff_responses = diffs.map_values(
        |item: Result<DiffView, ErrorView>| diff_response(item),
    );
    lemma_sends(diff_steps, diff_responses);
    assert(diff_steps.push(diff_step(None)).drop_last() =~= diff_steps);
    assert(diff_responses + Seq::<ResponseView>::empty() =~= diff_responses);
}

proof fn lemma_sends(steps: Seq<AnswerStepView>, responses: Seq<ResponseView>)
    requires
        steps.len() == responses.len(),
        forall|i: int|
            0 <= i < steps.len() ==> #[trigger] steps[i] == (AnswerStepView::Send {
                response: responses[i],
            }),
    ensures
        sent(steps) == responses,
    decreases steps.len(),
{
    if steps.len() > 0 {
        lemma_sends(steps.drop_last(), responses.drop_last());
        assert(responses.drop_last().push(responses.last()) =~= responses);
    } else {
        assert(responses =~= Seq::empty());
    }
}

/// A session is found by the configuration that it was kept for, until another takes its place;
/// sessions of other configurations stay as they are.
pub proof fn law_sessions_are_kept_apart(
    sessions: Map<ConfigView, usize>,
    config: ConfigView,
    session: usize,
    other: ConfigView,
)
    ensures
        sessions.insert(config, session).contains_pair(config, session),
        other != config ==> {
            &&& sessions.insert(config, session).contains_key(other) == sessions.contains_key(other)
            &&& sessions.insert(config, session)[other] == sessions[other]
        },
{
}

/// An evaluation or a watch is never refused: it starts over for the configuration that is asked
/// for, whichever sessions there are.
pub proof fn law_evaluations_start_over(sessions: Map<ConfigView, usize>, config: ConfigView)
    ensures
        route(sessions, Some(RequestView::Eval { config })) == (RequestStepView::Start { config }),
        route(sessions, Some(RequestView::Watch { config })) == (RequestStepView::Watch { config }),
{
}

/// A request that cannot be read is refused.
pub proof fn law_unreadable_requests_are_refused(sessions: Map<ConfigView, usize>)
    ensures
        route(sessions, None) == (RequestStepView::Refuse {
            answer: AnswerView {
                responses: seq![ResponseView::Error { message: "parsing daemon request"@ }],
                error: Some("parsing daemon request"@),
            },
        }),
{
}

/// A query of a completed session is answered by one event for each derivation of the warm graph that
/// passes the filter, in order, and then by the word that it is done. A session that failed answers
/// with its failure, and one that is still evaluating says so.
pub proof fn law_queries_are_answered(session: SessionView, filter: FilterView, i: int)
    ensures
        session.state.completed ==> ({
            let answer = query_answer(session, filter);
            let drvs = queried(session.state.graph, filter);
            &&& answer.error is None
            &&& answer.responses.len() == drvs.len() + 1
            &&& answer.responses.last() == ResponseView::Done
            &&& 0 <= i < drvs.len() ==> answer.responses[i] == (ResponseView::Event {
                event: EventView::Derivation(drvs[i]),
            })
        }),
        !session.state.completed && session.state.error is Some ==> query_answer(
            session,
            filter,
        ).error == session.state.error,
        !session.state.completed && session.state.error is None ==> query_answer(
            session,
            filter,
        ).error == Some("session is still evaluating"@),
{
}

/// A diff that was evaluated is answered by the difference from the earlier graph to the new one, and
/// then by the word that it is done; one whose evaluation failed, by its failure.
pub proof fn law_diffs_are_answered(
    previous: Seq<(Seq<Seq<char>>, DerivationView)>,
    found: EvalAccumulatorView,
    message: Seq<char>,
)
    ensures
        diff_answer(previous, Ok(found)).responses == seq![
            ResponseView::Diff { diff: diff_of(previous, found.graph, found.errors) },
            ResponseView::Done,
        ],
        diff_answer(previous, Ok(found)).error is None,
        diff_answer(previous, Err(message)).responses == seq![ResponseView::Error { message }],
        diff_answer(previous, Err(message)).error == Some(message),
{
    assert(diff_answer(previous, Ok(found)).responses =~= seq![
        ResponseView::Diff { diff: diff_of(previous, found.graph, found.errors) },
        ResponseView::Done,
    ]);
}

/// Events and diffs of a stream are sent on as they are, and its errors with their words.
pub proof fn law_items_are_sent_on(event: EventView, diff: DiffView, error: ErrorView)
    ensures
        event_response(Ok(event)) == (ResponseView::Event { event }),
        diff_response(Ok(diff)) == (ResponseView::Diff { diff }),
        event_response(Err(error)) == (ResponseView::Error { message: error.message() }),
        diff_response(Err(error)) == (ResponseView::Error { message: error.message() }),
{
}

} // verus!
