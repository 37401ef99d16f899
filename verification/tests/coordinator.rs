use evix::coordinator::{Coordinator, Round, RoundEnd};
use evix::keyed_map::KeyedMap;
use evix::scheduler::{
    display_attr, event_disposition, validate_config, worker_specs, EventDisposition, NextWork, Scheduler, WorkerKind,
};
use evix::{Config, Derivation, EvalError, Event, Remote};

fn path(names: &[&str]) -> Vec<String> {
    names.iter().map(|name| (*name).to_string()).collect()
}

fn remote(endpoint: &str, systems: &[&str], workers: usize) -> Remote {
    Remote { endpoint: endpoint.into(), systems: path(systems), workers }
}

fn attr_set(names: &[&str], attrs: &[&str]) -> Event {
    Event::AttrSet { attr: names.join("."), attr_path: path(names), attrs: path(attrs) }
}

fn job(names: &[&str], system: &str) -> Event {
    Event::Derivation(Derivation {
        attr: names.join("."),
        attr_path: path(names),
        name: "job".into(),
        system: system.into(),
        drv_path: "/nix/store/job.drv".into(),
        outputs: KeyedMap::new(),
        meta: None,
        input_drvs: KeyedMap::new(),
        constituents: None,
        gc_root_error: None,
    })
}

fn error(names: &[&str], fatal: bool) -> Event {
    Event::Error(EvalError { attr: names.join("."), attr_path: path(names), error: "boom".into(), fatal })
}

fn handed(round: &Round) -> Vec<(usize, String)> {
    round.assignments.iter().map(|one| (one.worker, one.path.join("."))).collect()
}

#[test]
fn a_remote_without_workers_is_refused() {
    let config = Config { remotes: vec![remote("a:1", &[], 1), remote("b:2", &[], 0)], ..Config::default() };
    let message = "remote worker count for b:2 must be greater than zero";
    assert_eq!(validate_config(&config).unwrap_err(), message);
    assert!(matches!(Coordinator::start(&config), Err(error) if error == message));
    assert!(validate_config(&Config::default()).is_ok());
}

#[test]
fn the_pool_is_the_local_workers_and_then_each_remotes() {
    let config = Config { workers: 2, remotes: vec![remote("a:1", &[], 1), remote("b:2", &["s"], 2)], ..Config::default() };
    let specs = worker_specs(&config);
    let labels: Vec<&str> = specs.iter().map(|spec| spec.label.as_str()).collect();
    assert_eq!(labels, ["local", "local", "remote:a:1#0", "remote:b:2#0", "remote:b:2#1"]);
    for (i, spec) in specs.iter().enumerate() {
        assert_eq!(spec.id, i);
        assert_eq!(matches!(spec.kind, WorkerKind::Local), i < 2);
    }
    let only_remote = Config { workers: 0, remotes: vec![remote("a:1", &[], 1)], ..Config::default() };
    assert_eq!(worker_specs(&only_remote).len(), 1);
}

#[test]
fn without_any_workers_there_is_one_local_one() {
    let specs = worker_specs(&Config { workers: 0, ..Config::default() });
    assert_eq!(specs.len(), 1);
    assert!(matches!(specs[0].kind, WorkerKind::Local));
}

#[test]
fn derivations_of_other_systems_go_back() {
    let config = Config { workers: 1, remotes: vec![remote("a:1", &["x"], 1), remote("b:2", &[], 1)], ..Config::default() };
    let specs = worker_specs(&config);
    assert!(matches!(event_disposition(&specs[0], &job(&["j"], "y")), EventDisposition::Emit));
    assert!(matches!(event_disposition(&specs[1], &job(&["j"], "x")), EventDisposition::Emit));
    assert!(matches!(
        event_disposition(&specs[1], &job(&["j"], "y")),
        EventDisposition::Requeue { system } if system == "y"
    ));
    assert!(matches!(event_disposition(&specs[2], &job(&["j"], "y")), EventDisposition::Emit));
    assert!(matches!(event_disposition(&specs[1], &error(&["j"], false)), EventDisposition::Emit));
}

#[test]
fn an_evaluation_visits_every_attribute_once() {
    let mut coordinator = Coordinator::start(&Config { workers: 2, ..Config::default() }).ok().unwrap();
    let round = coordinator.round(false);
    assert_eq!(handed(&round), [(0, String::new())]);
    assert!(matches!(round.end, RoundEnd::Running));
    assert!(coordinator.is_busy(0) && !coordinator.is_busy(1) && !coordinator.is_busy(2));

    let done = coordinator.finish(0, &attr_set(&[], &["a", "b"]));
    assert!(done.emit && done.fatal_error.is_none());
    let round = coordinator.round(false);
    assert_eq!(handed(&round), [(1, "a".to_string()), (0, "b".to_string())]);

    assert!(coordinator.finish(0, &error(&["b"], false)).emit);
    assert!(matches!(coordinator.round(false).end, RoundEnd::Running));
    assert!(coordinator.finish(1, &job(&["a"], "x")).emit);
    let round = coordinator.round(false);
    assert!(round.assignments.is_empty());
    assert!(matches!(round.end, RoundEnd::Done));
}

#[test]
fn a_fatal_error_or_a_cancellation_ends_an_evaluation() {
    let mut coordinator = Coordinator::start(&Config::default()).ok().unwrap();
    assert!(matches!(coordinator.round(true).end, RoundEnd::Done));
    coordinator.round(false);
    let done = coordinator.finish(0, &error(&[], true));
    assert!(done.emit);
    assert_eq!(done.fatal_error.as_deref(), Some("boom"));
    assert!(matches!(coordinator.round(false).end, RoundEnd::Failed(message) if message == "boom"));
}

#[test]
fn a_rejected_path_goes_to_another_worker_or_fails() {
    let config = Config { workers: 0, remotes: vec![remote("a:1", &["x"], 1), remote("b:2", &["y"], 1)], ..Config::default() };
    let mut coordinator = Coordinator::start(&config).ok().unwrap();
    coordinator.round(false);
    assert!(!coordinator.finish(0, &job(&[], "y")).emit);
    let round = coordinator.round(false);
    assert_eq!(handed(&round), [(1, String::new())]);
    assert!(coordinator.finish(1, &job(&[], "y")).emit);
    assert!(matches!(coordinator.round(false).end, RoundEnd::Done));

    let mut coordinator = Coordinator::start(&config).ok().unwrap();
    coordinator.round(false);
    assert!(!coordinator.finish(0, &job(&[], "z")).emit);
    coordinator.round(false);
    let done = coordinator.finish(1, &job(&[], "z"));
    assert!(!done.emit);
    assert_eq!(done.fatal_error.as_deref(), Some("no worker accepted derivation at <root> for system z"));
    let round = coordinator.round(false);
    let RoundEnd::Failed(message) = round.end else {
        panic!("expected a failure");
    };
    assert_eq!(message, "no worker accepted derivation at <root> for system z");
}

#[test]
fn failing_workers_are_named() {
    let coordinator = Coordinator::start(&Config::default()).ok().unwrap();
    assert_eq!(coordinator.worker_failure(0), "worker local failed");
    assert_eq!(coordinator.send_failure(0), "sending work to worker local");
}

#[test]
fn the_queue_starts_with_the_root() {
    let mut scheduler = Scheduler::new(1);
    assert!(!scheduler.is_done() && !scheduler.has_active_work());
    assert!(scheduler.exhausted_error().is_none());
    let NextWork::Dispatch(item) = scheduler.next_for(0) else {
        panic!("expected work");
    };
    assert!(item.path.is_empty() && item.rejected_by.is_empty());
    assert!(scheduler.has_active_work());
    assert!(matches!(scheduler.next_for(0), NextWork::Wait));
    assert_eq!(display_attr(&item.path), "<root>");
    assert_eq!(display_attr(&path(&["a", "b"])), "a.b");
}
