use evix::args::parse_plan_from;
use evix::client::{
    default_socket_path, pid_path, run_client_or_local, run_daemon_only, run_plan, socket_path, ClientStep,
    ConnectFailure, Course, DaemonRequest, LocalFallback, Unreached,
};
use evix::daemon::{
    begin_diff, handle_connection, handle_diff, handle_eval, handle_query, handle_watch, request_text, Answer,
    AnswerStep, DaemonState, RequestStep,
};
use evix::keyed_map::KeyedMap;
use evix::protocol::{Request, Response};
use evix::serde_config::{AutoArgKind, AutoArgWire, InputWire};
use evix::session::InitialEvaluation;
use evix::state::EvalAccumulator;
use evix::{AutoArg, Config, Derivation, Diff, Error, Event, Filter, Input, Session};

fn job(name: &str, drv_path: &str) -> Event {
    Event::Derivation(Derivation {
        attr: name.into(),
        attr_path: vec![name.into()],
        name: name.into(),
        system: "x86_64-linux".into(),
        drv_path: drv_path.into(),
        outputs: KeyedMap::new(),
        meta: None,
        input_drvs: KeyedMap::new(),
        constituents: None,
        gc_root_error: None,
    })
}

fn outcome(events: &[Event]) -> EvalAccumulator {
    let mut outcome = EvalAccumulator::default();
    for event in events {
        outcome.record(event);
    }
    outcome
}

fn warm() -> Session {
    let mut session = Session::open(Config::expr("{}"));
    session.stream().unwrap();
    session.evaluate_initial(Ok(outcome(&[job("a", "/1"), job("b", "/2")]))).unwrap();
    session
}

fn course(words: &[&str]) -> Course {
    let words: Vec<String> = words.iter().map(|word| (*word).to_string()).collect();
    run_plan(parse_plan_from(&words).unwrap().1)
}

#[test]
fn finite_daemon_request_rejects_eof_before_done() {
    let error = DaemonRequest::start(&Request::query(&Config::default(), &Default::default()))
        .closed()
        .unwrap_err();

    assert!(error.contains("daemon closed connection before completing request"));
}

#[test]
fn watch_daemon_request_allows_eof_without_done() {
    DaemonRequest::start(&Request::watch(&Config::default())).closed().unwrap();
}

#[test]
fn missing_warm_session_returns_protocol_error() {
    let state = DaemonState::default();
    let request = Request::query(&Config::default(), &Filter::default());
    let RequestStep::Refuse { answer } = handle_connection(&state, Some(request)) else {
        panic!("expected a refusal");
    };

    let [Response::Error { message }] = &answer.responses[..] else {
        panic!("expected error response");
    };
    assert!(message.contains("no warm session for requested config"));
    assert!(answer.error.unwrap().contains("no warm session for requested config"));
}

#[test]
fn requests_take_their_way() {
    let mut state = DaemonState::default();
    let refusal = |step: RequestStep| match step {
        RequestStep::Refuse { answer } => refused(answer),
        _ => panic!("expected a refusal"),
    };
    assert_eq!(refusal(handle_connection(&state, None)), "parsing daemon request");
    assert_eq!(
        refusal(handle_connection(&state, Some(Request::diff(&Config::expr("1"))))),
        "no warm session for requested config"
    );
    assert!(matches!(
        handle_connection(&state, Some(Request::eval(&Config::expr("1")))),
        RequestStep::Start { config } if matches!(&config.input, Input::Expr(expr) if expr == "1")
    ));
    assert!(matches!(
        handle_connection(&state, Some(Request::watch(&Config::expr("2")))),
        RequestStep::Watch { config } if matches!(&config.input, Input::Expr(expr) if expr == "2")
    ));

    state.replace_session(Config::expr("1"), 7);
    state.replace_session(Config::expr("2"), 8);
    let filter = Filter { attr_prefix: Some(vec!["a".into()]), ..Filter::default() };
    assert!(matches!(
        handle_connection(&state, Some(Request::query(&Config::expr("1"), &filter))),
        RequestStep::Query { session: 7, filter } if filter.attr_prefix == Some(vec!["a".to_string()])
    ));
    assert!(matches!(
        handle_connection(&state, Some(Request::diff(&Config::expr("2")))),
        RequestStep::Diff { session: 8 }
    ));
    assert_eq!(
        refusal(handle_connection(&state, Some(Request::query(&Config::expr("3"), &filter)))),
        "no warm session for requested config"
    );
}

fn refused(answer: Answer) -> String {
    let [Response::Error { message }] = &answer.responses[..] else {
        panic!("expected one error");
    };
    assert_eq!(answer.error.as_ref(), Some(message));
    message.clone()
}

#[test]
fn sessions_are_found_by_their_whole_configuration() {
    let mut state = DaemonState::default();
    state.replace_session(Config::expr("1"), 1);
    state.replace_session(Config::expr("2"), 2);
    state.replace_session(Config::expr("1"), 3);
    assert_eq!(state.warm_session(&Config::expr("1")).unwrap(), 3);
    assert_eq!(state.warm_session(&Config::expr("2")).unwrap(), 2);
    assert!(state.warm_session(&Config { meta: true, ..Config::expr("1") }).is_err());
    assert!(state.warm_session(&Config { input: Input::Flake("1".into()), ..Config::default() }).is_err());
}

#[test]
fn configurations_are_built() {
    let config = Config::expr("{ }").builder().workers(4).max_memory_size(64).build();
    assert!(matches!(&config.input, Input::Expr(expr) if expr == "{ }"));
    assert_eq!((config.workers, config.max_memory_size), (4, 64));
    assert!(!config.meta && config.remotes.is_empty() && config.gc_roots_dir.is_none());
}

#[test]
fn a_stream_is_used_once() {
    let mut session = Session::open(Config::expr("{}"));
    assert!(matches!(session.config().input, Input::Expr(_)));
    session.stream().unwrap();
    let error = session.stream().unwrap_err();
    assert_eq!(error.message(), "session stream has already been consumed");
    assert!(!session.watch());
    assert!(Session::open(Config::default()).watch());
}

#[test]
fn cold_sessions_answer_nothing() {
    let mut session = Session::open(Config::expr("{}"));
    assert_eq!(
        session.query(&Filter::default()).unwrap_err().message(),
        "Session::query_snapshot requires a completed initial evaluation"
    );
    assert!(matches!(
        session.diff_base(),
        Err(error) if error.message() == "Session::diff_once requires a completed initial evaluation"
    ));
    assert_eq!(session.require_completed().unwrap_err().message(), "session is still evaluating");
    assert!(matches!(session.initial_evaluation(), InitialEvaluation::Running));
    let error = session.evaluate_initial(Err("no nix".into())).unwrap_err();
    assert_eq!(error.message(), "no nix");
    assert!(!session.is_completed());
    assert_eq!(session.require_completed().unwrap_err().message(), "no nix");
    assert!(matches!(session.initial_evaluation(), InitialEvaluation::Failed(message) if message == "no nix"));
    assert!(!session.is_cancelled());
    session.cancel();
    assert!(session.is_cancelled());
    assert!(matches!(session.initial_evaluation(), InitialEvaluation::Dropped));
}

#[test]
fn warm_sessions_are_queried_and_compared() {
    let mut session = warm();
    assert!(matches!(session.initial_evaluation(), InitialEvaluation::Completed));
    let names = |drvs: Vec<Derivation>| -> Vec<String> { drvs.into_iter().map(|drv| drv.name).collect() };
    assert_eq!(names(session.query(&Filter::default()).unwrap()), ["a", "b"]);
    let filter = Filter { names: Some(vec!["b".into()]), ..Filter::default() };
    assert_eq!(names(session.query_snapshot(&filter).unwrap()), ["b"]);

    let base = session.diff_base().ok().unwrap();
    assert_eq!(session.graph().len(), 2);
    let diff = session.diff_once(&base, outcome(&[job("a", "/1"), job("b", "/3")]));
    assert_eq!(names(diff.added), ["b"]);
    assert_eq!(names(diff.removed), ["b"]);
    let base = session.diff_base().ok().unwrap();
    let diff = session.diff_once(&base, outcome(&[job("b", "/3"), job("a", "/1")]));
    assert!(diff.added.is_empty() && diff.removed.is_empty());
}

#[test]
fn warm_sessions_stay_warm() {
    let mut session = warm();
    session.cancel();
    assert!(session.stream().is_err());
    assert!(!session.watch());
    let _ = session.evaluate_initial(Err("gone".into()));
    assert!(session.is_completed());
    assert_eq!(session.query(&Filter::default()).unwrap().len(), 2);
    assert!(session.require_completed().is_ok());
}

#[test]
fn blank_lines_ask_for_nothing() {
    assert!(request_text("").is_none());
    assert!(request_text(" \t\n").is_none());
    assert_eq!(request_text(" {}\r\n").as_deref(), Some("{}"));
}

#[test]
fn daemon_answers() {
    assert!(matches!(
        handle_eval(&Some(Ok(job("a", "/1")))),
        AnswerStep::Send { response: Response::Event { event: Event::Derivation(drv) } } if drv.name == "a"
    ));
    assert!(matches!(
        handle_eval(&Some(Err(Error::no_runtime()))),
        AnswerStep::Send { response: Response::Error { message } }
            if message == "Session streams require an active Tokio runtime"
    ));
    assert!(matches!(
        handle_eval(&None),
        AnswerStep::End { answer: Answer { responses, error: None } } if matches!(&responses[..], [Response::Done])
    ));
    let empty = Diff { added: vec![], removed: vec![], errors: vec![] };
    assert!(matches!(
        handle_watch(&Some(Ok(empty))),
        AnswerStep::Send { response: Response::Diff { .. } }
    ));
    assert!(matches!(
        handle_watch(&Some(Err(Error::internal("gone".into())))),
        AnswerStep::Send { response: Response::Error { message } } if message == "gone"
    ));
    assert!(matches!(
        handle_watch(&None),
        AnswerStep::End { answer: Answer { responses, error: None } } if responses.is_empty()
    ));

    let mut session = warm();
    let answer = handle_query(&session, &Filter::default());
    assert!(answer.error.is_none());
    assert!(matches!(
        &answer.responses[..],
        [Response::Event { event: Event::Derivation(a) }, Response::Event { event: Event::Derivation(b) }, Response::Done]
            if a.name == "a" && b.name == "b"
    ));
    let base = begin_diff(&session).ok().unwrap();
    assert_eq!(refused(handle_diff(&mut session, &base, Err("no nix".into()))), "no nix");
    assert!(session.is_completed());
    let answer = handle_diff(&mut session, &base, Ok(outcome(&[job("a", "/1")])));
    assert!(answer.error.is_none());
    assert!(matches!(
        &answer.responses[..],
        [Response::Diff { diff }, Response::Done] if diff.removed[0].name == "b" && diff.added.is_empty()
    ));

    let mut cold = Session::open(Config::default());
    assert_eq!(refused(handle_query(&cold, &Filter::default())), "session is still evaluating");
    assert_eq!(begin_diff(&cold).err().map(refused).unwrap(), "session is still evaluating");
    assert!(cold.evaluate_initial(Err("no nix".into())).is_err());
    assert_eq!(refused(handle_query(&cold, &Filter::default())), "no nix");
    assert_eq!(begin_diff(&cold).err().map(refused).unwrap(), "no nix");
}

#[test]
fn clients_print_finish_or_fail() {
    let request = DaemonRequest::start(&Request::eval(&Config::default()));
    assert!(matches!(
        request.receive(&Response::event(&Event::AttrSet { attr: "".into(), attr_path: vec![], attrs: vec![] })),
        ClientStep::Print(line) if line.contains("\"attrPath\":[]")
    ));
    let diff = Diff { added: vec![], removed: vec![], errors: vec![] };
    assert!(matches!(request.receive(&Response::diff(&diff)), ClientStep::Print(line) if line.contains("\"added\":[]")));
    assert!(matches!(request.receive(&Response::Done), ClientStep::Finish));
    assert!(matches!(request.receive(&Response::error("no".into())), ClientStep::Fail(message) if message == "no"));
    assert!(DaemonRequest::start(&Request::diff(&Config::default())).closed().is_err());
}

#[test]
fn plans_take_their_course() {
    assert!(matches!(
        course(&["eval", "--expr", "1"]),
        Course::DaemonOrLocal { request: Request::Eval { .. }, socket: None, fallback: LocalFallback::Eval(_) }
    ));
    assert!(matches!(course(&["eval", "--expr", "1", "--no-daemon"]), Course::Local(LocalFallback::Eval(_))));
    assert!(matches!(
        course(&["watch", "--flake", "."]),
        Course::DaemonOrLocal { request: Request::Watch { .. }, fallback: LocalFallback::Watch(_), .. }
    ));
    assert!(matches!(course(&["watch", "--flake", ".", "--no-daemon"]), Course::Local(LocalFallback::Watch(_))));
    assert!(matches!(course(&["query", "--expr", "1"]), Course::DaemonOnly { request: Request::Query { .. }, .. }));
    assert!(matches!(course(&["diff", "--expr", "1"]), Course::DaemonOnly { request: Request::Diff { .. }, .. }));
    assert!(matches!(course(&["daemon"]), Course::ServeDaemon { socket: None, foreground: false }));
    assert!(matches!(course(&["worker", "--listen", "a:1"]), Course::ServeWorker { listen } if listen == "a:1"));
}

#[test]
fn sockets_and_unreachable_daemons() {
    assert_eq!(default_socket_path(1000), "/run/user/1000/evix.sock");
    assert_eq!(pid_path(0), "/run/user/0/evix.pid");
    assert_eq!(socket_path(Some("/a".into()), Some("/b".into()), 1), "/a");
    assert_eq!(socket_path(None, Some("/b".into()), 1), "/b");
    assert_eq!(socket_path(None, None, 4294967295), "/run/user/4294967295/evix.sock");
    for failure in [ConnectFailure::NotFound, ConnectFailure::ConnectionRefused, ConnectFailure::PermissionDenied] {
        assert!(matches!(
            run_client_or_local(failure, "/s", LocalFallback::Eval(Config::default())),
            Unreached::Local(LocalFallback::Eval(_))
        ));
    }
    assert!(matches!(
        run_client_or_local(ConnectFailure::Other, "/s", LocalFallback::Eval(Config::default())),
        Unreached::Fail(message) if message == "connecting to /s"
    ));
    assert_eq!(run_daemon_only("/s"), "evix daemon is not running at /s");
}

#[test]
fn inputs_and_arguments_keep_their_meaning_under_way() {
    assert!(matches!(InputWire::serialize(&Input::Flake(".#jobs".into())), InputWire::Flake { value } if value == ".#jobs"));
    assert!(matches!(InputWire::serialize(&Input::File("default.nix".into())), InputWire::File { path } if path == "default.nix"));
    let roundtrip = InputWire::serialize(&Input::File("default.nix".into())).deserialize();
    assert!(matches!(roundtrip, Input::File(path) if path == "default.nix"));

    let args = vec![
        ("pkgs".to_string(), AutoArg::Expr("import <nixpkgs> {}".into())),
        ("name".to_string(), AutoArg::Str("hello".into())),
    ];
    let wires = AutoArgWire::serialize(&args);
    assert_eq!((wires[0].name.as_str(), wires[0].kind, wires[0].value.as_str()), ("pkgs", AutoArgKind::Expr, "import <nixpkgs> {}"));
    assert_eq!((wires[1].name.as_str(), wires[1].kind, wires[1].value.as_str()), ("name", AutoArgKind::Str, "hello"));
    let roundtrip = AutoArgWire::deserialize(&wires);
    assert_eq!(roundtrip.len(), 2);
    assert!(matches!(&roundtrip[1], (name, AutoArg::Str(text)) if name == "name" && text == "hello"));
}
