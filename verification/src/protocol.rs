//! The messages between the command line and the daemon.

use vstd::prelude::*;

use crate::types::{
    Config, ConfigView, Derivation, Diff, DiffView, Event, EventView, Filter, FilterView,
};

verus! {

/// What the daemon is asked.
#[derive(Debug)]
pub enum Request {
    /// Evaluate once and keep the session warm.
    Eval { config: Config },
    /// Evaluate, and again whenever inputs change.
    Watch { config: Config },
    /// Query the warm session of a configuration.
    Query { config: Config, filter: Filter },
    /// Evaluate again and compare with the warm session of a configuration.
    Diff { config: Config },
}

pub enum RequestView {
    Eval { config: ConfigView },
    Watch { config: ConfigView },
    Query { config: ConfigView, filter: FilterView },
    Diff { config: ConfigView },
}

impl View for Request {
    type V = RequestView;

    open spec fn view(&self) -> RequestView {
        match self {
            Request::Eval { config } => RequestView::Eval { config: config@ },
            Request::Watch { config } => RequestView::Watch { config: config@ },
            Request::Query { config, filter } => RequestView::Query {
                config: config@,
                filter: filter@,
            },
            Request::Diff { config } => RequestView::Diff { config: config@ },
        }
    }
}

impl Request {
    /// Asks for an evaluation.
    pub fn eval(config: &Config) -> (request: Self)
        ensures
            request@ == (RequestView::Eval { config: config@ }),
    {
        Request::Eval { config: config.clone() }
    }

    /// Asks for watching.
    pub fn watch(config: &Config) -> (request: Self)
        ensures
            request@ == (RequestView::Watch { config: config@ }),
    {
        Request::Watch { config: config.clone() }
    }

    /// Asks for a query.
    pub fn query(config: &Config, filter: &Filter) -> (request: Self)
        ensures
            request@ == (RequestView::Query { config: config@, filter: filter@ }),
    {
        Request::Query { config: config.clone(), filter: filter.clone() }
    }

    /// Asks for a diff.
    pub fn diff(config: &Config) -> (request: Self)
        ensures
            request@ == (RequestView::Diff { config: config@ }),
    {
        Request::Diff { config: config.clone() }
    }
}

/// What the daemon answers.
#[derive(Debug)]
pub enum Response {
    Event { event: Event },
    Diff { diff: Diff },
    /// The request is completed.
    Done,
    Error { message: String },
}

pub enum ResponseView {
    Event { event: EventView },
    Diff { diff: DiffView },
    Done,
    Error { message: Seq<char> },
}

impl View for Response {
    type V = ResponseView;

    open spec fn view(&self) -> ResponseView {
        match self {
            Response::Event { event } => ResponseView::Event { event: event@ },
            Response::Diff { diff } => ResponseView::Diff { diff: diff@ },
            Response::Done => ResponseView::Done,
            Response::Error { message } => ResponseView::Error { message: message@ },
        }
    }
}

impl DeepView for Response {
    type V = ResponseView;

    open spec fn deep_view(&self) -> ResponseView {
        self@
    }
}

impl Response {
    /// Answers with an event.
    pub fn event(event: &Event) -> (response: Self)
        ensures
            response@ == (ResponseView::Event { event: event@ }),
    {
        Response::Event { event: event.clone() }
    }

    /// Answers with the event of a derivation.
    pub fn derivation_event(derivation: &Derivation) -> (response: Self)
        ensures
            response@ == (ResponseView::Event { event: EventView::Derivation(derivation@) }),
    {
        Response::Event { event: Event::Derivation(derivation.clone()) }
    }

    /// Answers with a diff.
    pub fn diff(diff: &Diff) -> (response: Self)
        ensures
            response@ == (ResponseView::Diff { diff: diff@ }),
    {
        Response::Diff { diff: diff.clone() }
    }

    /// Answers with an error.
    pub fn error(message: String) -> (response: Self)
        ensures
            response@ == (ResponseView::Error { message: message@ }),
    {
        Response::Error { message }
    }
}

} // verus!
