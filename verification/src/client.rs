//! The command line's side of the daemon: which plans go to a daemon, and what its answers mean.

use vstd::prelude::*;
use vstd::string::*;

use crate::args::{CommandPlan, CommandPlanView};
use crate::json::{diff_json, diff_line, event_json, event_line};
use crate::json_value::json_text;
use crate::protocol::{Request, RequestView, Response, ResponseView};
use crate::text::{decimal, law_numbers_are_read_back, number_text};
use crate::types::{Config, ConfigView};

verus! {

/// What is done without a daemon.
#[derive(Debug)]
pub enum LocalFallback {
    Eval(Config),
    Watch(Config),
}

pub enum LocalFallbackView {
    Eval(ConfigView),
    Watch(ConfigView),
}

impl View for LocalFallback {
    type V = LocalFallbackView;

    open spec fn view(&self) -> LocalFallbackView {
        match self {
            LocalFallback::Eval(config) => LocalFallbackView::Eval(config@),
            LocalFallback::Watch(config) => LocalFallbackView::Watch(config@),
        }
    }
}

/// How a plan is carried out.
#[derive(Debug)]
pub enum Course {
    /// Here.
    Local(LocalFallback),
    /// By the daemon, or here where there is none.
    DaemonOrLocal { request: Request, socket: Option<String>, fallback: LocalFallback },
    /// By the daemon.
    DaemonOnly { request: Request, socket: Option<String> },
    /// As the daemon.
    ServeDaemon { socket: Option<String>, foreground: bool },
    /// As a remote worker service.
    ServeWorker { listen: String },
}

pub enum CourseView {
    Local(LocalFallbackView),
    DaemonOrLocal {
        request: RequestView,
        socket: Option<Seq<char>>,
        fallback: LocalFallbackView,
    },
    DaemonOnly { request: RequestView, socket: Option<Seq<char>> },
    ServeDaemon { socket: Option<Seq<char>>, foreground: bool },
    ServeWorker { listen: Seq<char> },
}

impl View for Course {
    type V = CourseView;

    open spec fn view(&self) -> CourseView {
        match self {
            Course::Local(fallback) => CourseView::Local(fallback@),
            Course::DaemonOrLocal { request, socket, fallback } => CourseView::DaemonOrLocal {
                request: request@,
                socket: socket.deep_view(),
                fallback: fallback@,
            },
            Course::DaemonOnly { request, socket } => CourseView::DaemonOnly {
                request: request@,
                socket: socket.deep_view(),
            },
            Course::ServeDaemon { socket, foreground } => CourseView::ServeDaemon {
                socket: socket.deep_view(),
                foreground: *foreground,
            },
            Course::ServeWorker { listen } => CourseView::ServeWorker { listen: listen@ },
        }
    }
}

/// How a plan is carried out: evaluating and watching fall back to this process, queries and diffs
/// need the daemon.
pub open spec fn course_of(plan: CommandPlanView) -> CourseView {
    match plan {
        CommandPlanView::Eval { config, socket, use_daemon } => if use_daemon {
            CourseView::DaemonOrLocal {
                request: RequestView::Eval { config },
                socket,
                fallback: LocalFallbackView::Eval(config),
            }
        } else {
            CourseView::Local(LocalFallbackView::Eval(config))
        },
        CommandPlanView::Watch { config, socket, use_daemon } => if use_daemon {
            CourseView::DaemonOrLocal {
                request: RequestView::Watch { config },
                socket,
                fallback: LocalFallbackView::Watch(config),
            }
        } else {
            CourseView::Local(LocalFallbackView::Watch(config))
        },
        CommandPlanView::Query { config, filter, socket } => CourseView::DaemonOnly {
            request: RequestView::Query { config, filter },
            socket,
        },
        CommandPlanView::Diff { config, socket } => CourseView::DaemonOnly {
            request: RequestView::Diff { config },
            socket,
        },
        CommandPlanView::Daemon { socket, foreground } => CourseView::ServeDaemon {
            socket,
            foreground,
        },
        CommandPlanView::Worker { listen } => CourseView::ServeWorker { listen },
    }
}

/// How a plan is carried out.
pub fn run_plan(plan: CommandPlan) -> (course: Course)
    ensures
        course@ == course_of(plan@),
{
    match plan {
        CommandPlan::Eval { config, socket, use_daemon } => {
            if use_daemon {
                Course::DaemonOrLocal {
                    request: Request::eval(&config),
                    socket,
                    fallback: LocalFallback::Eval(config),
                }
            } else {
                Course::Local(LocalFallback::Eval(config))
            }
        },
        CommandPlan::Watch { config, socket, use_daemon } => {
            if use_daemon {
                Course::DaemonOrLocal {
                    request: Request::watch(&config),
                    socket,
                    fallback: LocalFallback::Watch(config),
                }
            } else {
                Course::Local(LocalFallback::Watch(config))
            }
        },
        CommandPlan::Query { config, filter, socket } => Course::DaemonOnly {
            request: Request::query(&config, &filter),
            socket,
        },
        CommandPlan::Diff { config, socket } => Course::DaemonOnly {
            request: Request::diff(&config),
            socket,
        },
        CommandPlan::Daemon { socket, foreground } => Course::ServeDaemon { socket, foreground },
        CommandPlan::Worker { listen } => Course::ServeWorker { listen },
    }
}

/// The default socket of a user's daemon.
pub open spec fn default_socket(uid: nat) -> Seq<char> {
    "/run/user/"@ + decimal(uid) + "/evix.sock"@
}

/// The default socket of a user's daemon.
pub fn default_socket_path(uid: u32) -> (path: String)
    ensures
        path@ == default_socket(uid as nat),
{
    "/run/user/".to_owned().concat(number_text(uid as usize).as_str()).concat("/evix.sock")
}

/// The file that holds the process number of a user's daemon.
pub fn pid_path(uid: u32) -> (path: String)
    ensures
        path@ == "/run/user/"@ + decimal(uid as nat) + "/evix.pid"@,
{
    "/run/user/".to_owned().concat(number_text(uid as usize).as_str()).concat("/evix.pid")
}

/// The daemon's socket: the one asked for, else the environment's, else the user's default.
pub fn socket_path(flag: Option<String>, environment: Option<String>, uid: u32) -> (path: String)
    ensures
        path@ == (match (flag, environment) {
            (Some(path), _) => path@,
            (None, Some(path)) => path@,
            (None, None) => default_socket(uid as nat),
        }),
{
    match flag {
        Some(path) => path,
        None => match environment {
            Some(path) => path,
            None => default_socket_path(uid),
        },
    }
}

/// Why the daemon could not be reached.
#[derive(Clone, Copy, PartialEq, Eq, Structural, Debug)]
pub enum ConnectFailure {
    NotFound,
    ConnectionRefused,
    PermissionDenied,
    Other,
}

/// What happens when the daemon could not be reached.
pub enum Unreached {
    Local(LocalFallback),
    Fail(String),
}

/// What happens when the daemon could not be reached for a request that can be done here: it is
/// done here where no daemon runs, or none that this user may talk to.
pub fn run_client_or_local(failure: ConnectFailure, socket: &str, fallback: LocalFallback) -> (
    outcome: Unreached)
    ensures
        match outcome {
            Unreached::Local(local) => failure != ConnectFailure::Other && local@ == fallback@,
            Unreached::Fail(message) => failure == ConnectFailure::Other && message@
                == "connecting to "@ + socket@,
        },
{
    if failure == ConnectFailure::Other {
        Unreached::Fail("connecting to ".to_owned().concat(socket))
    } else {
        Unreached::Local(fallback)
    }
}

/// The message about a request that needs the daemon when it could not be reached.
pub fn run_daemon_only(socket: &str) -> (message: String)
    ensures
        message@ == "evix daemon is not running at "@ + socket@,
{
    "evix daemon is not running at ".to_owned().concat(socket)
}

/// A request under way: whether the daemon has to say that it is completed.
pub struct DaemonRequest {
    expects_done: bool,
}

/// What follows from an answer of the daemon.
pub enum ClientStep {
    /// Print a line and go on.
    Print(String),
    /// The request is completed.
    Finish,
    /// The request failed.
    Fail(String),
}

impl DaemonRequest {
    /// Whether the request is over only when the daemon says so.
    pub closed spec fn expects_done(self) -> bool {
        self.expects_done
    }

    /// Starts a request: every one but a watch has to be completed.
    pub fn start(request: &Request) -> (state: Self)
        ensures
            state.expects_done() == !(request@ is Watch),
    {
        let watches = match request {
            Request::Watch { .. } => true,
            _ => false,
        };
        DaemonRequest { expects_done: !watches }
    }

    /// What follows from an answer.
    pub fn receive(&self, response: &Response) -> (step: ClientStep)
        ensures
            match response@ {
                ResponseView::Event { event } => step is Print && step->Print_0@ == json_text(
                    event_json(event),
                ),
                ResponseView::Diff { diff } => step is Print && step->Print_0@ == json_text(
                    diff_json(diff),
                ),
                ResponseView::Done => step is Finish,
                ResponseView::Error { message } => step is Fail && step->Fail_0@ == message,
            },
            step is Print ==> !step->Print_0@.contains('\n'),
    {
        match response {
            Response::Event { event } => ClientStep::Print(event_line(event)),
            Response::Diff { diff } => ClientStep::Print(diff_line(diff)),
            Response::Done => ClientStep::Finish,
            Response::Error { message } => ClientStep::Fail(message.clone()),
        }
    }

    /// What follows from the end of the connection before the request was completed.
    pub fn closed(&self) -> (result: Result<(), String>)
        ensures
            match result {
                Ok(_) => !self.expects_done(),
                Err(message) => self.expects_done() && message@
                    == "daemon closed connection before completing request"@,
            },
    {
        if self.expects_done {
            Err("daemon closed connection before completing request".to_owned())
        } else {
            Ok(())
        }
    }
}

/// Only evaluating and watching are ever done without a daemon; queries and diffs are not.
pub proof fn law_queries_and_diffs_need_the_daemon(plan: CommandPlanView)
    ensures
        (plan is Query || plan is Diff) <==> course_of(plan) is DaemonOnly,
{
}

/// A request that goes to the daemon asks for the very configuration that is evaluated here
/// without one.
pub proof fn law_fallback_does_what_was_asked(plan: CommandPlanView)
    requires
        course_of(plan) is DaemonOrLocal,
    ensures
        match (course_of(plan)->DaemonOrLocal_request, course_of(plan)->fallback) {
            (RequestView::Eval { config }, LocalFallbackView::Eval(local)) => config == local,
            (RequestView::Watch { config }, LocalFallbackView::Watch(local)) => config == local,
            _ => false,
        },
{
}

/// Each plan is carried out as it says: the daemon is asked for the plan's own configuration and
/// filter at the plan's own socket, and what is done here is the plan's own evaluation.
pub proof fn law_plans_are_carried_out(plan: CommandPlanView)
    ensures
        match plan {
            CommandPlanView::Eval { config, socket, use_daemon } => {
                &&& !use_daemon ==> course_of(plan) == CourseView::Local(
                    LocalFallbackView::Eval(config),
                )
                &&& use_daemon ==> course_of(plan) is DaemonOrLocal && course_of(
                    plan,
                )->DaemonOrLocal_request == (RequestView::Eval { config }) && course_of(
                    plan,
                )->DaemonOrLocal_socket == socket
            },
            CommandPlanView::Watch { config, socket, use_daemon } => {
                &&& !use_daemon ==> course_of(plan) == CourseView::Local(
                    LocalFallbackView::Watch(config),
                )
                &&& use_daemon ==> course_of(plan) is DaemonOrLocal && course_of(
                    plan,
                )->DaemonOrLocal_request == (RequestView::Watch { config }) && course_of(
                    plan,
                )->DaemonOrLocal_socket == socket
            },
            CommandPlanView::Query { config, filter, socket } => course_of(plan) == (
            CourseView::DaemonOnly { request: RequestView::Query { config, filter }, socket }),
            CommandPlanView::Diff { config, socket } => course_of(plan) == (
            CourseView::DaemonOnly { request: RequestView::Diff { config }, socket }),
            CommandPlanView::Daemon { socket, foreground } => course_of(plan) == (
            CourseView::ServeDaemon { socket, foreground }),
            CommandPlanView::Worker { listen } => course_of(plan) == (CourseView::ServeWorker {
                listen,
            }),
        },
{
}

/// The default socket lies in the user's runtime directory, and users have different ones.
pub proof fn law_default_sockets(one: nat, two: nat)
    requires
        one <= usize::MAX,
        two <= usize::MAX,
        default_socket(one) == default_socket(two),
    ensures
        one == two,
        default_socket(one) == "/run/user/"@ + decimal(one) + "/evix.sock"@,
{
    let head = "/run/user/"@;
    let tail = "/evix.sock"@;
    assert(default_socket(one).subrange(head.len() as int, (head.len() + decimal(one).len()) as int)
        =~= decimal(one));
    assert(default_socket(two).subrange(head.len() as int, (head.len() + decimal(two).len()) as int)
        =~= decimal(two));
    law_numbers_are_read_back(one);
    law_numbers_are_read_back(two);
    assert(default_socket(one).len() == head.len() + decimal(one).len() + tail.len());
    assert(default_socket(two).len() == head.len() + decimal(two).len() + tail.len());
}

} // verus!
