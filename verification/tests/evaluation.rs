use evix::collector::{CollectorStep, SharedState};
use evix::coordinator::{Coordinator, RoundEnd};
use evix::json::event_line;
use evix::keyed_map::KeyedMap;
use evix::state::{diff_graphs, EvalAccumulator};
use evix::{Config, Derivation, EvalError, Event, Remote};

fn attr_set(path: &[String], attrs: &[&str]) -> Event {
    Event::AttrSet {
        attr: path.join("."),
        attr_path: path.to_vec(),
        attrs: attrs.iter().map(|name| (*name).to_string()).collect(),
    }
}

fn job(path: &[String], system: &str) -> Event {
    Event::Derivation(Derivation {
        attr: path.join("."),
        attr_path: path.to_vec(),
        name: path.join("-"),
        system: system.into(),
        drv_path: format!("/nix/store/{}.drv", path.join("-")),
        outputs: KeyedMap::new(),
        meta: None,
        input_drvs: KeyedMap::new(),
        constituents: None,
        gc_root_error: None,
    })
}

/// An attribute graph with jobs for two systems and a broken attribute.
fn event_at(path: &[String]) -> Event {
    let names: Vec<&str> = path.iter().map(String::as_str).collect();
    match names.as_slice() {
        [] => attr_set(path, &["x", "y", "broken", "empty"]),
        ["x"] | ["y"] => attr_set(path, &["one", "two", "three"]),
        ["x", _] => job(path, "x86_64-linux"),
        ["y", _] => job(path, "aarch64-linux"),
        ["broken"] => Event::Error(EvalError {
            attr: path.join("."),
            attr_path: path.to_vec(),
            error: "boom".into(),
            fatal: false,
        }),
        _ => attr_set(path, &[]),
    }
}

fn remote(endpoint: &str, systems: &[&str], workers: usize) -> Remote {
    Remote {
        endpoint: endpoint.into(),
        systems: systems.iter().map(|system| (*system).to_string()).collect(),
        workers,
    }
}

/// Runs an evaluation in which the latest or the earliest asked worker answers first.
fn run(config: &Config, latest_first: bool) -> (Result<(), String>, Vec<Event>) {
    let mut coordinator = Coordinator::start(config).ok().unwrap();
    let mut busy: Vec<(usize, Vec<String>)> = Vec::new();
    let mut events = Vec::new();
    loop {
        let round = coordinator.round(false);
        for assignment in round.assignments {
            busy.push((assignment.worker, assignment.path));
        }
        match round.end {
            RoundEnd::Done => {
                assert!(busy.is_empty());
                return (Ok(()), events);
            }
            RoundEnd::Failed(message) => return (Err(message), events),
            RoundEnd::Running => {}
        }
        let (worker, path) = if latest_first { busy.pop().unwrap() } else { busy.remove(0) };
        let event = event_at(&path);
        let completed = coordinator.finish(worker, &event);
        if completed.emit {
            events.push(event);
        }
    }
}

fn sorted_lines(events: &[Event]) -> Vec<String> {
    let mut lines: Vec<String> = events.iter().map(event_line).collect();
    lines.sort();
    lines
}

fn pools() -> Vec<Config> {
    vec![
        Config::default(),
        Config { workers: 3, ..Config::default() },
        Config { workers: 20, ..Config::default() },
        Config { workers: 0, remotes: vec![remote("a:1", &[], 2)], ..Config::default() },
        Config {
            workers: 0,
            remotes: vec![remote("a:1", &["x86_64-linux"], 2), remote("b:2", &["aarch64-linux"], 1)],
            ..Config::default()
        },
        Config { workers: 1, remotes: vec![remote("b:2", &["riscv64-linux"], 3)], ..Config::default() },
    ]
}

#[test]
fn workers_are_interchangeable() {
    let (_, expected) = run(&Config::default(), false);
    assert_eq!(expected.len(), 11);
    for config in pools() {
        for latest_first in [false, true] {
            let (result, events) = run(&config, latest_first);
            assert_eq!(result, Ok(()));
            assert_eq!(sorted_lines(&events), sorted_lines(&expected));
        }
    }
}

#[test]
fn a_system_that_nobody_owns_fails_the_evaluation() {
    let config = Config { workers: 0, remotes: vec![remote("a:1", &["x86_64-linux"], 2)], ..Config::default() };
    for latest_first in [false, true] {
        let (result, _) = run(&config, latest_first);
        let message = result.unwrap_err();
        assert!(message.starts_with("no worker accepted derivation at y."), "{message}");
        assert!(message.ends_with(" for system aarch64-linux"), "{message}");
    }
}

#[test]
fn the_warm_graph_does_not_depend_on_the_pool() {
    let mut graphs = Vec::new();
    for config in pools() {
        let mut accumulator = EvalAccumulator::default();
        for event in run(&config, true).1 {
            accumulator.record(&event);
        }
        assert_eq!(accumulator.graph.len(), 6);
        assert_eq!(accumulator.errors.len(), 1);
        graphs.push(accumulator.graph);
    }
    for graph in &graphs {
        let diff = diff_graphs(&graphs[0], graph, vec![]);
        assert!(diff.added.is_empty() && diff.removed.is_empty());
    }
}

#[test]
fn collectors_evaluate_what_local_workers_do() {
    let mut state = SharedState::new();
    let mut events = Vec::new();
    while let CollectorStep::Work(path) = state.next(false) {
        let event = event_at(&path);
        state.finish(&path, &event);
        events.push(event);
    }
    assert!(state.outcome().is_ok());
    let (_, expected) = run(&Config::default(), false);
    let lines: Vec<String> = events.iter().map(event_line).collect();
    let expected: Vec<String> = expected.iter().map(event_line).collect();
    assert_eq!(lines, expected);
}
