use evix::eval::{
    auto_arg_context, collect_recurse, fragment_parts, gc_root_link, input_drvs, make_job, output_paths, process_attr,
    Finding, Job,
};
use evix::json_value::Json;
use evix::worker_config::{EvalOptions, WorkerConfig};
use evix::{AutoArg, Config, Event};

fn path(names: &[&str]) -> Vec<String> {
    names.iter().map(|name| (*name).to_string()).collect()
}

fn options(meta: bool, show_input_drvs: bool, force_recurse: bool) -> EvalOptions {
    let gc_roots_dir = if meta { Some("/roots".to_string()) } else { None };
    let config = Config { meta, show_input_drvs, force_recurse, gc_roots_dir, ..Config::default() };
    EvalOptions::new(&WorkerConfig::new(&config))
}

fn job() -> Job {
    Job {
        drv_path: "/nix/store/a.drv".into(),
        name: "a".into(),
        system: Some("x86_64-linux".into()),
        outputs: vec![("out".into(), Some("/nix/store/a".into())), ("dev".into(), None)],
        meta: Some(Json::Bool(true)),
        input_drvs: vec![("/nix/store/i.drv".into(), path(&["out"]))],
        constituents: Some(path(&["x"])),
        gc_root_error: Some("no link".into()),
    }
}

#[test]
fn derivations_hold_what_was_asked_for() {
    let Event::Derivation(drv) = make_job(&path(&["p", "a"]), job(), &options(true, true, false)) else {
        panic!("expected derivation");
    };
    assert_eq!(drv.attr, "p.a");
    assert_eq!(drv.attr_path, path(&["p", "a"]));
    assert_eq!(drv.drv_path, "/nix/store/a.drv");
    assert_eq!(drv.system, "x86_64-linux");
    assert_eq!(drv.outputs.get(&"out".to_string()), Some(&Some("/nix/store/a".to_string())));
    assert_eq!(drv.outputs.get(&"dev".to_string()), Some(&None));
    assert!(matches!(drv.meta, Some(Json::Bool(true))));
    assert_eq!(drv.input_drvs.get(&"/nix/store/i.drv".to_string()), Some(&path(&["out"])));
    assert_eq!(drv.constituents, Some(path(&["x"])));
    assert_eq!(drv.gc_root_error.as_deref(), Some("no link"));

    let Event::Derivation(bare) = make_job(&path(&[]), Job { system: None, ..job() }, &options(false, false, false)) else {
        panic!("expected derivation");
    };
    assert_eq!(bare.attr, "");
    assert!(bare.meta.is_none());
    assert!(bare.gc_root_error.is_none());
    assert!(bare.input_drvs.is_empty());
    assert_eq!(bare.system, "");
}

#[test]
fn findings_become_events() {
    let plain = options(false, false, false);
    assert!(matches!(
        process_attr(&path(&["a"]), Finding::Failed("boom".into()), &plain),
        Event::Error(error) if error.error == "boom" && error.attr == "a" && !error.fatal
    ));
    assert!(matches!(
        process_attr(&path(&["a"]), Finding::Plain, &plain),
        Event::AttrSet { attrs, .. } if attrs.is_empty()
    ));
    assert!(matches!(process_attr(&path(&["a"]), Finding::Derivation(job()), &plain), Event::Derivation(_)));
    assert!(matches!(
        process_attr(&path(&[]), Finding::AttrSet { keys: Some(path(&["b", "c"])), recurse: false }, &plain),
        Event::AttrSet { attrs, .. } if attrs == path(&["b", "c"])
    ));
}

#[test]
fn attrsets_below_the_root_are_entered_on_request() {
    let keys = Some(path(&["b", "recurseForDerivations", "c"]));
    let below = path(&["a"]);
    assert!(collect_recurse(&keys, false, &below, false).is_empty());
    assert_eq!(collect_recurse(&keys, true, &below, false), path(&["b", "c"]));
    assert_eq!(collect_recurse(&keys, false, &below, true), path(&["b", "c"]));
    assert_eq!(collect_recurse(&keys, false, &path(&[]), false), path(&["b", "c"]));
    assert!(collect_recurse(&None, true, &below, true).is_empty());
}

#[test]
fn outputs_are_keyed_by_name() {
    let outputs = output_paths(&vec![("out".into(), None), ("out".into(), Some("/x".into()))]);
    assert_eq!(outputs.len(), 1);
    assert_eq!(outputs.get(&"out".to_string()), Some(&Some("/x".to_string())));
}

#[test]
fn gc_roots_are_named_like_their_derivations() {
    assert_eq!(gc_root_link("/roots", "/nix/store/a.drv").unwrap(), "/roots/a.drv");
    assert_eq!(gc_root_link("roots/", "a.drv/").unwrap(), "roots/a.drv");
    for bad in ["", "/", "..", "a/.."] {
        assert_eq!(gc_root_link("/roots", bad).unwrap_err(), "drv path has no filename");
    }
}

#[test]
fn fragments_and_arguments() {
    assert!(fragment_parts("").is_empty());
    assert_eq!(fragment_parts("hydraJobs.x86_64-linux"), path(&["hydraJobs", "x86_64-linux"]));
    assert_eq!(fragment_parts("a..b"), path(&["a", "", "b"]));
    assert_eq!(auto_arg_context("n", &AutoArg::Expr("1".into())), "--arg n");
    assert_eq!(auto_arg_context("n", &AutoArg::Str("1".into())), "--argstr n");
}

#[test]
fn input_derivations_are_read_with_their_outputs() {
    let text = r#"{"name":"n","inputDrvs":{
        "/nix/store/b.drv":["dev","out"],
        "/nix/store/a.drv":{"dynamicOutputs":{},"outputs":["out"]}
    }}"#;
    assert_eq!(
        input_drvs(text).unwrap(),
        [
            ("/nix/store/a.drv".to_string(), vec!["out".to_string()]),
            ("/nix/store/b.drv".to_string(), vec!["dev".to_string(), "out".to_string()]),
        ]
    );
    assert!(input_drvs(r#"{"name":"n"}"#).unwrap().is_empty());
    assert!(input_drvs(r#"{"inputDrvs":[]}"#).unwrap().is_empty());

    let error = input_drvs("drv").unwrap_err();
    assert_eq!(error.message(), "parsing derivation");
    assert_eq!(error.cause(), Some(serde_json::from_str::<serde_json::Value>("drv").unwrap_err().to_string()));
    let error = input_drvs(r#"{"inputDrvs":{"b":[1],"a":{"outputs":true}}}"#).unwrap_err();
    let cause = serde_json::from_value::<Vec<String>>(serde_json::Value::Bool(true)).unwrap_err();
    assert_eq!((error.message(), error.cause()), (cause.to_string(), None));
}
