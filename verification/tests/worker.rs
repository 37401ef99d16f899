use evix::collector::{collector_count, status_outcome, CollectorStep, SharedState, StatusOutcome};
use evix::worker::{
    do_line, format_worker_closed_stdout_error, nix_options_file, read_config, read_line, should_restart,
    status_line, worker_command, WorkerCommand, WorkerStderr, STDERR_CAPTURE_LIMIT,
};
use evix::worker_config::{EvalOptions, WorkerConfig};
use evix::worker_link::{
    answers, exit_error, first_message, next_message, read_event, read_ready, read_status, ClientMessage, Place,
    ServeStep, ServerMessage, WorkResponse, WorkerStatus,
};
use evix::{Config, EvalError, Event, Input};

fn path(names: &[&str]) -> Vec<String> {
    names.iter().map(|name| (*name).to_string()).collect()
}

fn attr_set(names: &[&str], attrs: &[&str]) -> Event {
    Event::AttrSet { attr: names.join("."), attr_path: path(names), attrs: path(attrs) }
}

fn failure(fatal: bool) -> Event {
    Event::Error(EvalError { attr: "a".into(), attr_path: path(&["a"]), error: "boom".into(), fatal })
}

#[test]
fn closed_stdout_error_includes_phase_attr_status_and_stderr() {
    let message = format_worker_closed_stdout_error(
        "event",
        "packages.x86_64-linux.bad",
        "exit status: 1",
        "evix worker failed: locking flake\ncaused by: missing input",
    );

    assert!(message.contains("reading event"));
    assert!(message.contains("packages.x86_64-linux.bad"));
    assert!(message.contains("exit status: 1"));
    assert!(message.contains("locking flake"));
    assert!(!message.contains("worker closed stdout unexpectedly"));
}

#[test]
fn closed_stdout_error_notes_empty_stderr() {
    let message = format_worker_closed_stdout_error("handshake", "<startup>", "exit status: 101", "");

    assert!(message.contains("reading handshake"));
    assert!(message.contains("<startup>"));
    assert!(message.contains("worker stderr was empty"));
}

#[test]
fn workers_read_back_every_path() {
    for names in [&[][..], &["a"], &["a b", "\"quoted\"", "new\nline", "\u{e9}"]] {
        let line = do_line(&path(names)) + "\n";
        assert!(matches!(worker_command(&Some(line)), Ok(WorkerCommand::Do(read)) if read == path(names)));
    }
    assert_eq!(do_line(&path(&["a", "b"])), r#"do ["a","b"]"#);
}

fn command_error(line: &str) -> (String, Option<String>) {
    let error = worker_command(&Some(line.into())).unwrap_err();
    (error.message(), error.cause())
}

#[test]
fn other_worker_lines() {
    assert!(matches!(worker_command(&None), Ok(WorkerCommand::Exit)));
    assert!(matches!(worker_command(&Some(" exit\r\n".into())), Ok(WorkerCommand::Exit)));
    assert_eq!(command_error("go"), ("invalid worker command: go".into(), None));
    assert_eq!(command_error("do"), ("invalid worker command: do".into(), None));
    for body in ["[1]", "[\"a\"", "{}"] {
        let cause = serde_json::from_str::<Vec<String>>(body).unwrap_err().to_string();
        assert_eq!(
            command_error(&format!("do {body}")),
            ("parsing attr path from master".to_string(), Some(cause))
        );
    }
    assert_eq!(read_line(&Some("ready \r\n".into())).as_deref(), Some("ready"));
    assert_eq!(read_line(&Some("\tready".into())).as_deref(), Some("\tready"));
    assert!(read_line(&None).is_none());
    assert_eq!(read_config(&Some(" {} \n".into())).unwrap(), "{}");
    assert_eq!(read_config(&None).unwrap_err(), "worker received no configuration line");
}

#[test]
fn the_tail_of_error_output_is_kept() {
    let mut stderr = WorkerStderr::new();
    stderr.capture_stderr(&b"  first ".to_vec());
    assert_eq!(stderr.snapshot(), "first");
    stderr.capture_stderr(&vec![b'x'; STDERR_CAPTURE_LIMIT - 1]);
    assert_eq!(stderr.bytes.len(), STDERR_CAPTURE_LIMIT);
    assert_eq!(stderr.bytes[0], b' ');
    assert_eq!(stderr.bytes[1], b'x');
    let mut broken = WorkerStderr::new();
    broken.capture_stderr(&vec![0xff, b'a']);
    assert_eq!(broken.snapshot(), "\u{fffd}a");
}

#[test]
fn workers_restart_above_their_limit() {
    assert!(!should_restart(4096 * 1024, 4096));
    assert!(should_restart(4096 * 1024 + 1, 4096));
    assert_eq!(status_line(true), "restart");
    assert_eq!(status_line(false), "ready");
}

#[test]
fn nix_options_become_a_settings_file() {
    assert!(nix_options_file(&vec![]).is_none());
    let options = vec![("restrict-eval".to_string(), "true".to_string()), ("a".to_string(), "".to_string())];
    assert_eq!(nix_options_file(&options).unwrap(), "restrict-eval = true\na = \n");
}

#[test]
fn collectors_drain_the_queue() {
    assert_eq!(collector_count(0), 1);
    assert_eq!(collector_count(5), 5);
    let mut state = SharedState::new();
    let CollectorStep::Work(root) = state.next(false) else { panic!("expected work") };
    assert!(root.is_empty());
    assert!(matches!(state.next(false), CollectorStep::Park));
    state.finish(&root, &attr_set(&[], &["a", "b"]));
    let CollectorStep::Work(first) = state.next(false) else { panic!("expected work") };
    let CollectorStep::Work(second) = state.next(false) else { panic!("expected work") };
    assert_eq!(first, path(&["a"]));
    assert_eq!(second, path(&["b"]));
    state.finish(&second, &attr_set(&["b"], &[]));
    state.finish(&first, &failure(false));
    assert!(matches!(state.next(false), CollectorStep::Exit));
    assert!(state.outcome().is_ok());
}

#[test]
fn collectors_stop_on_fatal_errors_and_cancellation() {
    let mut state = SharedState::new();
    assert!(matches!(state.next(true), CollectorStep::Exit));
    let CollectorStep::Work(root) = state.next(false) else { panic!("expected work") };
    state.finish(&root, &failure(true));
    assert!(matches!(state.next(false), CollectorStep::Fail(message) if message == "boom"));
    assert_eq!(state.outcome().unwrap_err(), "boom");
    let mut other = SharedState::new();
    other.fail("worker died");
    assert_eq!(other.outcome().unwrap_err(), "worker died");
}

#[test]
fn status_lines_are_told_apart() {
    assert!(matches!(status_outcome("ready", None), StatusOutcome::Ready));
    assert!(matches!(status_outcome("restart", None), StatusOutcome::Restart));
    assert!(matches!(status_outcome("{}", Some("boom".into())), StatusOutcome::Failed(message) if message == "boom"));
    assert!(matches!(
        status_outcome("huh", None),
        StatusOutcome::Unexpected(message) if message == "unexpected worker message: huh"
    ));
}

#[test]
fn worker_messages_in_and_out_of_turn() {
    assert!(read_ready("local", &ServerMessage::Ready, "").is_ok());
    assert_eq!(
        read_ready("local", &ServerMessage::Error("no nix".into()), "").unwrap_err(),
        "worker local failed: no nix"
    );
    assert_eq!(
        read_ready("local", &ServerMessage::Status(WorkerStatus::Ready), "Status(Ready)").unwrap_err(),
        "unexpected worker handshake: Status(Ready)"
    );
    let event = attr_set(&["a"], &[]);
    assert!(matches!(
        read_event(Place::Remote, "r", "", ServerMessage::Event(event), ""),
        Ok(Event::AttrSet { .. })
    ));
    assert_eq!(
        read_event(Place::Remote, "r", "", ServerMessage::Error("x".into()), "").unwrap_err(),
        "remote worker r: x"
    );
    assert_eq!(
        read_event(Place::Remote, "r", "", ServerMessage::Ready, "Ready").unwrap_err(),
        "remote worker r sent unexpected event response: Ready"
    );
    assert_eq!(
        read_event(Place::Local, "l", "[\"a\"]", ServerMessage::Ready, "Ready").unwrap_err(),
        "unexpected worker event for [\"a\"]: Ready"
    );
    assert_eq!(
        read_status(Place::Local, "l", "a", &ServerMessage::Status(WorkerStatus::Restart), "").unwrap(),
        WorkerStatus::Restart
    );
    assert_eq!(
        read_status(Place::Local, "l", "a", &ServerMessage::Ready, "Ready").unwrap_err(),
        "unexpected worker status for a: Ready"
    );
    assert_eq!(
        read_status(Place::Remote, "r", "a", &ServerMessage::Ready, "Ready").unwrap_err(),
        "remote worker r sent unexpected status response: Ready"
    );
    assert_eq!(
        read_status(Place::Local, "l", "a", &ServerMessage::Error("x".into()), "").unwrap_err(),
        "worker l failed: x"
    );
}

#[test]
fn both_ends_of_a_connection_understand_each_other() {
    let response = WorkResponse { event: attr_set(&["a"], &["b"]), status: WorkerStatus::Restart };
    let mut messages = answers(Ok(response)).messages.into_iter();
    let event = read_event(Place::Remote, "r", "", messages.next().unwrap(), "").unwrap();
    assert!(matches!(event, Event::AttrSet { attrs, .. } if attrs == path(&["b"])));
    let status = read_status(Place::Remote, "r", "a", &messages.next().unwrap(), "").unwrap();
    assert_eq!(status, WorkerStatus::Restart);
    assert!(messages.next().is_none());
    let mut messages = answers(Err("broken".into())).messages.into_iter();
    let error = read_event(Place::Remote, "r", "", messages.next().unwrap(), "").unwrap_err();
    assert_eq!(error, "remote worker r: broken");
}

#[test]
fn exit_errors_say_what_is_known() {
    assert_eq!(
        exit_error("local", "event", "a.b", "end of file", &Some("exit status: 1".into()), " oops\n"),
        "evix worker local failed while reading event for a.b: end of file (status: exit status: 1)\nworker stderr:\noops"
    );
    assert_eq!(
        exit_error("local", "event", "a.b", "end of file", &None, "\n"),
        "evix worker local failed while reading event for a.b: end of file"
    );
}

#[test]
fn remote_service_steps() {
    let config = WorkerConfig::new(&Config::default());
    assert!(first_message(ClientMessage::Setup(config.clone()), "").is_ok());
    assert_eq!(
        first_message(ClientMessage::Shutdown, "Shutdown").unwrap_err(),
        "expected setup as first remote worker message, got Shutdown"
    );
    assert!(matches!(next_message(Some(ClientMessage::Work(path(&["a"])))), ServeStep::Work(work) if work == path(&["a"])));
    assert!(matches!(next_message(Some(ClientMessage::Shutdown)), ServeStep::Stop));
    assert!(matches!(
        next_message(Some(ClientMessage::Setup(config))),
        ServeStep::Fail(message) if message == "remote worker setup sent twice"
    ));
    assert!(matches!(
        next_message(None),
        ServeStep::StopAndFail(message) if message == "reading remote worker request"
    ));

    let replies = answers(Ok(WorkResponse { event: attr_set(&[], &[]), status: WorkerStatus::Restart }));
    assert!(replies.respawn && !replies.failed);
    assert!(matches!(replies.messages[0], ServerMessage::Event(_)));
    assert!(matches!(replies.messages[1], ServerMessage::Status(WorkerStatus::Restart)));
    assert_eq!(replies.messages.len(), 2);
    let replies = answers(Err("broken".into()));
    assert!(!replies.respawn && replies.failed);
    assert!(matches!(&replies.messages[..], [ServerMessage::Error(error)] if error == "broken"));
}

#[test]
fn worker_configs_leave_the_pool_out() {
    let config = Config {
        input: Input::Flake(".".into()),
        meta: true,
        gc_roots_dir: Some("/roots".into()),
        max_memory_size: 7,
        nix_options: vec![("k".into(), "v".into())],
        ..Config::default()
    };
    let worker = WorkerConfig::new(&config);
    assert!(matches!(&worker.input, Input::Flake(flake) if flake == "."));
    assert_eq!(worker.max_memory_size, 7);
    assert_eq!(worker.nix_options, config.nix_options);
    let options = EvalOptions::new(&worker);
    assert!(options.meta && !options.show_input_drvs && !options.force_recurse);
    assert_eq!(options.gc_roots_dir.as_deref(), Some("/roots"));
    let other = Config { workers: 9, ..config };
    assert_eq!(format!("{:?}", WorkerConfig::new(&other)), format!("{worker:?}"));
}
