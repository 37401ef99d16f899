use evix::keyed_map::{Duplicate, KeyedMap};
use evix::state::{attr_path_starts_with, diff_graphs, matches_filter, wildcard_matches, EvalAccumulator, EvalGraph};
use evix::{Derivation, Diff, EvalError, Event, Filter};

fn drv(system: &str, attr_path: &[&str]) -> Derivation {
    Derivation {
        attr: attr_path.join("."),
        attr_path: attr_path.iter().map(|part| (*part).to_string()).collect(),
        name: "job".into(),
        system: system.into(),
        drv_path: "/nix/store/job.drv".into(),
        outputs: KeyedMap::new(),
        meta: None,
        input_drvs: KeyedMap::new(),
        constituents: None,
        gc_root_error: None,
    }
}

fn graph(drvs: &[&Derivation]) -> EvalGraph {
    let mut graph = EvalGraph::new();
    for drv in drvs {
        graph.insert(drv.attr_path.clone(), drv.duplicate());
    }
    graph
}

fn attrs(drvs: &[Derivation]) -> Vec<String> {
    drvs.iter().map(|drv| drv.attr.clone()).collect()
}

#[test]
fn filter_matches_system_and_attr_prefix() {
    let drv = drv("x86_64-linux", &["hydraJobs", "release"]);
    assert!(matches_filter(
        &drv,
        &Filter {
            systems: Some(vec!["x86_64-linux".into()]),
            attr_prefix: Some(vec!["hydraJobs".into()]),
            ..Filter::default()
        },
    ));
    assert!(!matches_filter(
        &drv,
        &Filter {
            systems: Some(vec!["aarch64-linux".into()]),
            attr_prefix: Some(vec!["hydraJobs".into()]),
            ..Filter::default()
        },
    ));
}

#[test]
fn filter_matches_expanded_fields() {
    let mut drv = drv("x86_64-linux", &["hydraJobs", "release"]);
    drv.name = "release-job".into();
    drv.drv_path = "/nix/store/release-job.drv".into();

    assert!(matches_filter(
        &drv,
        &Filter {
            attr_prefixes: Some(vec![vec!["packages".into()], vec!["hydraJobs".into()]]),
            attrs: Some(vec![vec!["hydraJobs".into(), "release".into()]]),
            names: Some(vec!["release-job".into()]),
            drv_paths: Some(vec!["/nix/store/release-job.drv".into()]),
            include_patterns: Some(vec!["hydraJobs.*".into()]),
            exclude_patterns: Some(vec!["*.debug".into()]),
            ..Filter::default()
        }
    ));
    assert!(!matches_filter(
        &drv,
        &Filter {
            include_patterns: Some(vec!["packages.*".into()]),
            ..Filter::default()
        }
    ));
    assert!(!matches_filter(
        &drv,
        &Filter {
            exclude_patterns: Some(vec!["hydraJobs.*".into()]),
            ..Filter::default()
        }
    ));
}

#[test]
fn diff_treats_drv_path_changes_as_remove_and_add() {
    let old = drv("x86_64-linux", &["job"]);
    let mut new = old.duplicate();
    new.drv_path = "/nix/store/new-job.drv".into();

    let previous = graph(&[&old]);
    let current = graph(&[&new]);
    let diff = diff_graphs(&previous, &current, Vec::new());

    assert_eq!(diff.removed[0].drv_path, old.drv_path);
    assert_eq!(diff.added[0].drv_path, new.drv_path);
}

#[test]
fn diffs_hold_what_changed_and_nothing_else() {
    let kept = drv("x86_64-linux", &["kept"]);
    let gone = drv("x86_64-linux", &["gone"]);
    let fresh = drv("x86_64-linux", &["fresh"]);
    let mut renamed = kept.duplicate();
    renamed.name = "other".into();
    let previous = graph(&[&kept, &gone]);
    let current = graph(&[&fresh, &renamed]);
    let error = EvalError { attr: "x".into(), attr_path: vec!["x".into()], error: "boom".into(), fatal: false };
    let Diff { added, removed, errors } = diff_graphs(&previous, &current, vec![error]);
    assert_eq!(attrs(&added), ["fresh"]);
    assert_eq!(attrs(&removed), ["gone"]);
    assert_eq!(errors[0].error, "boom");
    let back = diff_graphs(&current, &previous, vec![]);
    assert_eq!(attrs(&back.added), ["gone"]);
    assert_eq!(attrs(&back.removed), ["fresh"]);
    let none = diff_graphs(&previous, &previous, vec![]);
    assert!(none.added.is_empty() && none.removed.is_empty() && none.errors.is_empty());
}

#[test]
fn filters_narrow_down() {
    let job = drv("x86_64-linux", &["a", "b"]);
    assert!(matches_filter(&job, &Filter::default()));
    assert!(!matches_filter(&job, &Filter { systems: Some(vec![]), ..Filter::default() }));
    assert!(matches_filter(&job, &Filter { exclude_patterns: Some(vec![]), ..Filter::default() }));
    assert!(!matches_filter(&job, &Filter { include_patterns: Some(vec![]), ..Filter::default() }));
    assert!(matches_filter(&job, &Filter { attr_prefix: Some(vec![]), ..Filter::default() }));
    assert!(!matches_filter(&job, &Filter { attrs: Some(vec![vec!["a".into()]]), ..Filter::default() }));
    assert!(!matches_filter(&job, &Filter { names: Some(vec!["jo".into()]), ..Filter::default() }));
    assert!(!matches_filter(&job, &Filter { drv_paths: Some(vec!["/x".into()]), ..Filter::default() }));
    assert!(!matches_filter(
        &job,
        &Filter {
            systems: Some(vec!["x86_64-linux".into()]),
            names: Some(vec!["other".into()]),
            ..Filter::default()
        }
    ));
}

#[test]
fn prefixes_of_attribute_paths() {
    let path = |names: &[&str]| -> Vec<String> { names.iter().map(|name| (*name).to_string()).collect() };
    assert!(attr_path_starts_with(&path(&["a", "b"]), &path(&["a"])));
    assert!(attr_path_starts_with(&path(&["a"]), &path(&["a"])));
    assert!(attr_path_starts_with(&path(&[]), &path(&[])));
    assert!(!attr_path_starts_with(&path(&["a"]), &path(&["a", "b"])));
    assert!(!attr_path_starts_with(&path(&["ab"]), &path(&["a"])));
}

#[test]
fn wildcard_patterns() {
    assert!(wildcard_matches("*", ""));
    assert!(wildcard_matches("*", "any.thing"));
    assert!(wildcard_matches("plain.name", "plain.name"));
    assert!(!wildcard_matches("plain.name", "plainXname"));
    assert!(wildcard_matches("a?c", "a\u{e9}c"));
    assert!(!wildcard_matches("a?c", "ac"));
    assert!(wildcard_matches("a*b*c", "a--b--b--c"));
    assert!(!wildcard_matches("a*b*c", "a--b--"));
    assert!(wildcard_matches("", ""));
    assert!(!wildcard_matches("", "a"));
    assert!(wildcard_matches("**", "a"));
    assert!(!wildcard_matches("?", ""));
}

#[test]
fn recorded_events_make_up_the_graph() {
    let mut accumulator = EvalAccumulator::default();
    let first = drv("x86_64-linux", &["a"]);
    let mut second = first.duplicate();
    second.name = "later".into();
    accumulator.record(&Event::Derivation(first));
    accumulator.record(&Event::Derivation(drv("x86_64-linux", &["b"])));
    accumulator.record(&Event::AttrSet { attr: "".into(), attr_path: vec![], attrs: vec!["a".into()] });
    accumulator.record(&Event::Derivation(second));
    accumulator.record(&Event::Error(EvalError {
        attr: "c".into(),
        attr_path: vec!["c".into()],
        error: "boom".into(),
        fatal: false,
    }));
    assert_eq!(accumulator.graph.len(), 2);
    assert_eq!(accumulator.graph.get(&vec!["a".to_string()]).unwrap().name, "later");
    assert!(accumulator.graph.get(&vec!["c".to_string()]).is_none());
    assert_eq!(accumulator.errors.len(), 1);
}
