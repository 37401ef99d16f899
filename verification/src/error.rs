//! Errors of the library.

use vstd::prelude::*;
use vstd::string::*;

verus! {

/// Error type returned by Evix's public library functions.
#[derive(Debug)]
#[non_exhaustive]
pub enum Error {
    /// `Session::stream` was requested after the single-use stream had already started or
    /// completed.
    SessionStreamConsumed,
    /// A warm-graph operation was requested before initial evaluation completed.
    InitialEvaluationIncomplete { operation: &'static str },
    /// A session operation requires completion, but evaluation is still running.
    SessionStillEvaluating,
    /// Initial evaluation failed and the stored error is being reported again.
    EvaluationFailed { message: String },
    /// A background task could not be spawned because no runtime was active.
    RuntimeUnavailable { message: String },
    /// An internal evaluator, worker, I/O, serialization, or protocol error.
    Internal { message: String },
}

pub enum ErrorView {
    SessionStreamConsumed,
    InitialEvaluationIncomplete { operation: Seq<char> },
    SessionStillEvaluating,
    EvaluationFailed { message: Seq<char> },
    RuntimeUnavailable { message: Seq<char> },
    Internal { message: Seq<char> },
}

impl View for Error {
    type V = ErrorView;

    open spec fn view(&self) -> ErrorView {
        match self {
            Error::SessionStreamConsumed => ErrorView::SessionStreamConsumed,
            Error::InitialEvaluationIncomplete { operation } => {
                ErrorView::InitialEvaluationIncomplete { operation: operation@ }
            },
            Error::SessionStillEvaluating => ErrorView::SessionStillEvaluating,
            Error::EvaluationFailed { message } => ErrorView::EvaluationFailed {
                message: message@,
            },
            Error::RuntimeUnavailable { message } => ErrorView::RuntimeUnavailable {
                message: message@,
            },
            Error::Internal { message } => ErrorView::Internal { message: message@ },
        }
    }
}

impl ErrorView {
    /// The error in words.
    pub open spec fn message(self) -> Seq<char> {
        match self {
            ErrorView::SessionStreamConsumed => "session stream has already been consumed"@,
            ErrorView::InitialEvaluationIncomplete { operation } => "Session::"@ + operation
                + " requires a completed initial evaluation"@,
            ErrorView::SessionStillEvaluating => "session is still evaluating"@,
            ErrorView::EvaluationFailed { message } => message,
            ErrorView::RuntimeUnavailable { message } => message,
            ErrorView::Internal { message } => message,
        }
    }
}

impl Error {
    /// An internal error with a message.
    pub fn internal(message: String) -> (error: Self)
        ensures
            error@ == (ErrorView::Internal { message: message@ }),
    {
        Error::Internal { message }
    }

    /// The error of a stream that was asked for outside of a runtime.
    pub fn no_runtime() -> (error: Self)
        ensures
            error@ == (ErrorView::RuntimeUnavailable {
                message: "Session streams require an active Tokio runtime"@,
            }),
    {
        Error::RuntimeUnavailable {
            message: "Session streams require an active Tokio runtime".to_owned(),
        }
    }

    /// The error in words.
    pub fn message(&self) -> (text: String)
        ensures
            text@ == self@.message(),
    {
        match self {
            Error::SessionStreamConsumed => "session stream has already been consumed".to_owned(),
            Error::InitialEvaluationIncomplete { operation } => "Session::".to_owned().concat(
                operation,
            ).concat(" requires a completed initial evaluation"),
            Error::SessionStillEvaluating => "session is still evaluating".to_owned(),
            Error::EvaluationFailed { message } => message.clone(),
            Error::RuntimeUnavailable { message } => message.clone(),
            Error::Internal { message } => message.clone(),
        }
    }
}

/// An error that brings its own words is told in them, and an operation that came too early is named
/// between the words that say so.
pub proof fn law_errors_are_told(text: Seq<char>)
    ensures
        (ErrorView::EvaluationFailed { message: text }).message() == text,
        (ErrorView::RuntimeUnavailable { message: text }).message() == text,
        (ErrorView::Internal { message: text }).message() == text,
        ({
            let told = (ErrorView::InitialEvaluationIncomplete { operation: text }).message();
            let before = "Session::"@;
            let after = " requires a completed initial evaluation"@;
            &&& told.len() == before.len() + text.len() + after.len()
            &&& told.take(before.len() as int) == before
            &&& told.subrange(before.len() as int, (before.len() + text.len()) as int) == text
            &&& told.skip((before.len() + text.len()) as int) == after
        }),
{
    let told = (ErrorView::InitialEvaluationIncomplete { operation: text }).message();
    let before = "Session::"@;
    let after = " requires a completed initial evaluation"@;
    assert(told.take(before.len() as int) =~= before);
    assert(told.subrange(before.len() as int, (before.len() + text.len()) as int) =~= text);
    assert(told.skip((before.len() + text.len()) as int) =~= after);
}

} // verus!
