//! The conversation with a worker: setup and ready, then one event and one status for each path.
//!
//! The same conversation runs over the pipes of a local worker process and over a connection to a
//! remote worker service. Encoding messages and moving them is the caller's part. Where a message
//! comes out of turn, `described` is that message as the caller shows it.

use vstd::prelude::*;
use vstd::string::*;

use crate::text::{same, trim, trimmed};
use crate::types::{Event, EventView};
use crate::worker_config::WorkerConfig;

verus! {

/// What a worker says after each event.
#[derive(Clone, Copy, PartialEq, Eq, Structural, Debug)]
pub enum WorkerStatus {
    /// It takes more work.
    Ready,
    /// It hit its memory limit and is replaced.
    Restart,
}

/// What a worker is told.
#[derive(Debug)]
pub enum ClientMessage {
    Setup(WorkerConfig),
    Work(Vec<String>),
    Shutdown,
}

/// What a worker says.
#[derive(Debug)]
pub enum ServerMessage {
    Ready,
    Event(Event),
    Status(WorkerStatus),
    Error(String),
}

pub enum ServerMessageView {
    Ready,
    Event(EventView),
    Status(WorkerStatus),
    Error(Seq<char>),
}

impl View for ServerMessage {
    type V = ServerMessageView;

    open spec fn view(&self) -> ServerMessageView {
        match self {
            ServerMessage::Ready => ServerMessageView::Ready,
            ServerMessage::Event(event) => ServerMessageView::Event(event@),
            ServerMessage::Status(status) => ServerMessageView::Status(*status),
            ServerMessage::Error(error) => ServerMessageView::Error(error@),
        }
    }
}

impl DeepView for ServerMessage {
    type V = ServerMessageView;

    open spec fn deep_view(&self) -> ServerMessageView {
        self@
    }
}

/// Where a worker is.
#[derive(Clone, Copy, PartialEq, Eq, Structural, Debug)]
pub enum Place {
    /// A process of this machine.
    Local,
    /// A service on another machine.
    Remote,
}

/// The message about an error that a worker reported.
pub open spec fn reported(place: Place, label: Seq<char>, error: Seq<char>) -> Seq<char> {
    match place {
        Place::Local => "worker "@ + label + " failed: "@ + error,
        Place::Remote => "remote worker "@ + label + ": "@ + error,
    }
}

fn report(place: Place, label: &str, error: &str) -> (message: String)
    ensures
        message@ == reported(place, label@, error@),
{
    match place {
        Place::Local => "worker ".to_owned().concat(label).concat(" failed: ").concat(error),
        Place::Remote => "remote worker ".to_owned().concat(label).concat(": ").concat(error),
    }
}

/// The message about a local worker that did not answer its setup with ready.
pub open spec fn bad_handshake(described: Seq<char>) -> Seq<char> {
    "unexpected worker handshake: "@ + described
}

/// The message about a worker that did not answer a path with an event. `shown_path` is the path
/// as the caller shows it.
pub open spec fn bad_event(
    place: Place,
    label: Seq<char>,
    shown_path: Seq<char>,
    described: Seq<char>,
) -> Seq<char> {
    match place {
        Place::Local => "unexpected worker event for "@ + shown_path + ": "@ + described,
        Place::Remote => "remote worker "@ + label + " sent unexpected event response: "@
            + described,
    }
}

/// The message about a worker that did not follow an event with a status.
pub open spec fn bad_status(
    place: Place,
    label: Seq<char>,
    attr: Seq<char>,
    described: Seq<char>,
) -> Seq<char> {
    match place {
        Place::Local => "unexpected worker status for "@ + attr + ": "@ + described,
        Place::Remote => "remote worker "@ + label + " sent unexpected status response: "@
            + described,
    }
}

/// Takes a local worker's answer to its setup.
pub fn read_ready(label: &str, message: &ServerMessage, described: &str) -> (result: Result<
    (),
    String,
>)
    ensures
        match message@ {
            ServerMessageView::Ready => result is Ok,
            ServerMessageView::Error(error) => result is Err && result->Err_0@ == reported(
                Place::Local,
                label@,
                error,
            ),
            _ => result is Err && result->Err_0@ == bad_handshake(described@),
        },
{
    match message {
        ServerMessage::Ready => Ok(()),
        ServerMessage::Error(error) => Err(report(Place::Local, label, error.as_str())),
        _ => Err("unexpected worker handshake: ".to_owned().concat(described)),
    }
}

/// What a worker's answer to a path is taken for.
pub open spec fn taken_event(
    place: Place,
    label: Seq<char>,
    shown_path: Seq<char>,
    message: ServerMessageView,
    described: Seq<char>,
) -> Result<EventView, Seq<char>> {
    match message {
        ServerMessageView::Event(event) => Ok(event),
        ServerMessageView::Error(error) => Err(reported(place, label, error)),
        _ => Err(bad_event(place, label, shown_path, described)),
    }
}

/// What a worker's message after an event is taken for.
pub open spec fn taken_status(
    place: Place,
    label: Seq<char>,
    attr: Seq<char>,
    message: ServerMessageView,
    described: Seq<char>,
) -> Result<WorkerStatus, Seq<char>> {
    match message {
        ServerMessageView::Status(status) => Ok(status),
        ServerMessageView::Error(error) => Err(reported(place, label, error)),
        _ => Err(bad_status(place, label, attr, described)),
    }
}

/// Takes a worker's answer to a path.
pub fn read_event(
    place: Place,
    label: &str,
    shown_path: &str,
    message: ServerMessage,
    described: &str,
) -> (result: Result<Event, String>)
    ensures
        match result {
            Ok(event) => taken_event(place, label@, shown_path@, message@, described@) == Ok::<
                _,
                Seq<char>,
            >(event@),
            Err(error) => taken_event(place, label@, shown_path@, message@, described@) == Err::<
                EventView,
                _,
            >(error@),
        },
{
    match message {
        ServerMessage::Event(event) => Ok(event),
        ServerMessage::Error(error) => Err(report(place, label, error.as_str())),
        _ => match place {
            Place::Local => Err(
                "unexpected worker event for ".to_owned().concat(shown_path).concat(": ").concat(
                    described,
                ),
            ),
            Place::Remote => Err(
                "remote worker ".to_owned().concat(label).concat(
                    " sent unexpected event response: ",
                ).concat(described),
            ),
        },
    }
}

/// Takes what a worker says after an event.
pub fn read_status(
    place: Place,
    label: &str,
    attr: &str,
    message: &ServerMessage,
    described: &str,
) -> (result: Result<WorkerStatus, String>)
    ensures
        match result {
            Ok(status) => taken_status(place, label@, attr@, message@, described@) == Ok::<
                _,
                Seq<char>,
            >(status),
            Err(error) => taken_status(place, label@, attr@, message@, described@) == Err::<
                WorkerStatus,
                _,
            >(error@),
        },
{
    match message {
        ServerMessage::Status(status) => Ok(*status),
        ServerMessage::Error(error) => Err(report(place, label, error.as_str())),
        _ => match place {
            Place::Local => Err(
                "unexpected worker status for ".to_owned().concat(attr).concat(": ").concat(
                    described,
                ),
            ),
            Place::Remote => Err(
                "remote worker ".to_owned().concat(label).concat(
                    " sent unexpected status response: ",
                ).concat(described),
            ),
        },
    }
}

/// The message about a worker process whose messages ended early.
pub open spec fn exited(
    label: Seq<char>,
    phase: Seq<char>,
    attr: Seq<char>,
    source: Seq<char>,
    status: Option<Seq<char>>,
    stderr: Seq<char>,
) -> Seq<char> {
    let head = "evix worker "@ + label + " failed while reading "@ + phase + " for "@ + attr + ": "@
        + source;
    let with_status = match status {
        Some(status) => head + " (status: "@ + status + ")"@,
        None => head,
    };
    if trimmed(stderr).len() == 0 {
        with_status
    } else {
        with_status + "\nworker stderr:\n"@ + trimmed(stderr)
    }
}

/// The message about a worker process whose messages ended early: how it exited, and what it wrote
/// on its error output.
pub fn exit_error(
    label: &str,
    phase: &str,
    attr: &str,
    source: &str,
    status: &Option<String>,
    stderr: &str,
) -> (message: String)
    ensures
        message@ == exited(label@, phase@, attr@, source@, status.deep_view(), stderr@),
{
    let mut message = "evix worker ".to_owned().concat(label).concat(
        " failed while reading ",
    ).concat(phase).concat(" for ").concat(attr).concat(": ").concat(source);
    if let Some(status) = status {
        message = message.concat(" (status: ").concat(status.as_str()).concat(")");
    }
    let written = trim(stderr);
    proof {
        reveal_strlit("");
        assert(written@.len() == 0 ==> written@ =~= ""@);
    }
    if !same(written.as_str(), "") {
        message = message.concat("\nworker stderr:\n").concat(written.as_str());
    }
    message
}

/// Takes the first message of a connection to a remote worker service.
pub fn first_message(message: ClientMessage, described: &str) -> (result: Result<
    WorkerConfig,
    String,
>)
    ensures
        match message {
            ClientMessage::Setup(config) => result is Ok && result->Ok_0 == config,
            _ => result is Err && result->Err_0@
                == "expected setup as first remote worker message, got "@ + described@,
        },
{
    match message {
        ClientMessage::Setup(config) => Ok(config),
        _ => Err(
            "expected setup as first remote worker message, got ".to_owned().concat(described),
        ),
    }
}

/// What a remote worker service does with a later message.
pub enum ServeStep {
    /// Have its worker evaluate a path.
    Work(Vec<String>),
    /// Stop its worker; the connection is over.
    Stop,
    /// The connection failed.
    Fail(String),
    /// Stop its worker; the connection failed.
    StopAndFail(String),
}

/// What a remote worker service does with a later message, or where none could be read.
pub fn next_message(message: Option<ClientMessage>) -> (step: ServeStep)
    ensures
        match message {
            Some(ClientMessage::Work(path)) => step is Work && step->Work_0 == path,
            Some(ClientMessage::Shutdown) => step is Stop,
            Some(ClientMessage::Setup(_)) => step is Fail && step->Fail_0@
                == "remote worker setup sent twice"@,
            None => step is StopAndFail && step->StopAndFail_0@ == "reading remote worker request"@,
        },
{
    match message {
        Some(ClientMessage::Work(path)) => ServeStep::Work(path),
        Some(ClientMessage::Shutdown) => ServeStep::Stop,
        Some(ClientMessage::Setup(_)) => ServeStep::Fail(
            "remote worker setup sent twice".to_owned(),
        ),
        None => ServeStep::StopAndFail("reading remote worker request".to_owned()),
    }
}

/// What a worker returned for a path.
pub struct WorkResponse {
    pub event: Event,
    pub status: WorkerStatus,
}

/// What a remote worker service answers for a path.
pub struct Answers {
    pub messages: Vec<ServerMessage>,
    /// Whether its worker is to be replaced.
    pub respawn: bool,
    /// Whether the connection is over.
    pub failed: bool,
}

/// The messages with which a remote worker service answers a path: its worker's event and status,
/// or its worker's error.
pub open spec fn answer_messages(worked: Result<(EventView, WorkerStatus), Seq<char>>) -> Seq<
    ServerMessageView,
> {
    match worked {
        Ok((event, status)) => seq![
            ServerMessageView::Event(event),
            ServerMessageView::Status(status),
        ],
        Err(error) => seq![ServerMessageView::Error(error)],
    }
}

/// What a remote worker service answers for a path: its worker's event and status, or its worker's
/// error.
pub fn answers(worked: Result<WorkResponse, String>) -> (answers: Answers)
    ensures
        match worked {
            Ok(response) => answers.messages.deep_view() == answer_messages(
                Ok((response.event@, response.status)),
            ) && answers.respawn == (response.status == WorkerStatus::Restart) && !answers.failed,
            Err(error) => answers.messages.deep_view() == answer_messages(Err(error@))
                && !answers.respawn && answers.failed,
        },
{
    let mut messages: Vec<ServerMessage> = Vec::new();
    match worked {
        Ok(response) => {
            let respawn = response.status == WorkerStatus::Restart;
            messages.push(ServerMessage::Event(response.event));
            messages.push(ServerMessage::Status(response.status));
            assert(messages.deep_view() =~= seq![
                ServerMessageView::Event(response.event@),
                ServerMessageView::Status(response.status),
            ]);
            Answers { messages, respawn, failed: false }
        },
        Err(error) => {
            messages.push(ServerMessage::Error(error));
            assert(messages.deep_view() =~= seq![ServerMessageView::Error(error@)]);
            Answers { messages, respawn: false, failed: true }
        },
    }
}

/// The two ends of a connection understand each other: what a remote worker service answers for a
/// path is taken for the event and the status that its worker returned, or for its worker's error
/// under the connection's name.
pub proof fn law_answers_are_understood(
    worked: Result<(EventView, WorkerStatus), Seq<char>>,
    label: Seq<char>,
    shown_path: Seq<char>,
    attr: Seq<char>,
    described: Seq<char>,
)
    ensures
        match worked {
            Ok((event, status)) => {
                &&& answer_messages(worked).len() == 2
                &&& taken_event(
                    Place::Remote,
                    label,
                    shown_path,
                    answer_messages(worked)[0],
                    described,
                ) == Ok::<_, Seq<char>>(event)
                &&& taken_status(
                    Place::Remote,
                    label,
                    attr,
                    answer_messages(worked)[1],
                    described,
                ) == Ok::<_, Seq<char>>(status)
            },
            Err(error) => {
                &&& answer_messages(worked).len() == 1
                &&& taken_event(
                    Place::Remote,
                    label,
                    shown_path,
                    answer_messages(worked)[0],
                    described,
                ) == Err::<EventView, _>("remote worker "@ + label + ": "@ + error)
            },
        },
{
}

/// An event is taken where one is due, and a status where one is due; a worker's error is reported
/// under the worker's name; anything else out of turn is shown as it came.
pub proof fn law_messages_are_taken_in_turn(
    place: Place,
    label: Seq<char>,
    shown: Seq<char>,
    message: ServerMessageView,
    described: Seq<char>,
)
    ensures
        match message {
            ServerMessageView::Event(event) => {
                &&& taken_event(place, label, shown, message, described) == Ok::<_, Seq<char>>(event)
                &&& taken_status(place, label, shown, message, described) is Err
            },
            ServerMessageView::Status(status) => {
                &&& taken_status(place, label, shown, message, described) == Ok::<_, Seq<char>>(
                    status,
                )
                &&& taken_event(place, label, shown, message, described) is Err
            },
            ServerMessageView::Error(error) => {
                let told = match place {
                    Place::Local => "worker "@ + label + " failed: "@ + error,
                    Place::Remote => "remote worker "@ + label + ": "@ + error,
                };
                &&& taken_event(place, label, shown, message, described) == Err::<EventView, _>(
                    told,
                )
                &&& taken_status(place, label, shown, message, described) == Err::<
                    WorkerStatus,
                    _,
                >(told)
            },
            ServerMessageView::Ready => {
                &&& taken_event(Place::Local, label, shown, message, described) == Err::<
                    EventView,
                    _,
                >("unexpected worker event for "@ + shown + ": "@ + described)
                &&& taken_event(Place::Remote, label, shown, message, described) == Err::<
                    EventView,
                    _,
                >("remote worker "@ + label + " sent unexpected event response: "@ + described)
                &&& taken_status(Place::Local, label, shown, message, described) == Err::<
                    WorkerStatus,
                    _,
                >("unexpected worker status for "@ + shown + ": "@ + described)
                &&& taken_status(Place::Remote, label, shown, message, described) == Err::<
                    WorkerStatus,
                    _,
                >("remote worker "@ + label + " sent unexpected status response: "@ + described)
            },
        },
{
}

/// A remote worker service answers a path with its worker's event and then its status, or with its
/// worker's error alone.
pub proof fn law_answer_messages(event: EventView, status: WorkerStatus, error: Seq<char>)
    ensures
        answer_messages(Ok((event, status))) == seq![
            ServerMessageView::Event(event),
            ServerMessageView::Status(status),
        ],
        answer_messages(Err(error)) == seq![ServerMessageView::Error(error)],
{
}

/// The message about a worker process that exited early grows with what is known: without an exit
/// status and with blank error output it names the worker, what was being read, the attribute and
/// the cause; a status and error output are added behind that.
pub proof fn law_early_exits_are_explained(
    label: Seq<char>,
    phase: Seq<char>,
    attr: Seq<char>,
    source: Seq<char>,
    status: Seq<char>,
    blank: Seq<char>,
    stderr: Seq<char>,
)
    requires
        trimmed(blank).len() == 0,
        trimmed(stderr).len() > 0,
    ensures
        ({
            let told = "evix worker "@ + label + " failed while reading "@ + phase + " for "@ + attr
                + ": "@ + source;
            let with_status = told + " (status: "@ + status + ")"@;
            &&& exited(label, phase, attr, source, None, blank) == told
            &&& exited(label, phase, attr, source, Some(status), blank) == with_status
            &&& exited(label, phase, attr, source, None, stderr) == told + "\nworker stderr:\n"@
                + trimmed(stderr)
            &&& exited(label, phase, attr, source, Some(status), stderr) == with_status
                + "\nworker stderr:\n"@ + trimmed(stderr)
        }),
{
}

/// A worker that does not get ready is told of with what it sent.
pub proof fn law_bad_handshakes_are_told(described: Seq<char>)
    ensures
        bad_handshake(described) == "unexpected worker handshake: "@ + described,
{
}

} // verus!
