use evix::args::{parse_plan_from, CommandPlan};
use evix::remote::{accepts_event, eval_args, failure_event, line_outcome, remote_config, LineOutcome};
use evix::{AutoArg, Config, Event, Input, Remote};

fn remote(systems: &[&str]) -> Remote {
    Remote {
        endpoint: "builder".into(),
        systems: systems.iter().map(|system| (*system).to_string()).collect(),
        workers: 3,
    }
}

#[test]
fn eval_args_force_one_shot_eval() {
    let config = Config {
        input: Input::Flake(".#hydraJobs".into()),
        workers: 3,
        ..Config::default()
    };

    let args = eval_args(&config, true);
    assert_eq!(args[0], "eval");
    assert!(args.contains(&"--no-daemon".to_string()));
    assert!(args.windows(2).any(|pair| pair[0] == "--flake" && pair[1] == ".#hydraJobs"));
    assert!(args.windows(2).any(|pair| pair[0] == "--workers" && pair[1] == "3"));
}

#[test]
fn eval_args_list_every_setting_in_order() {
    let config = Config {
        input: Input::File("jobs.nix".into()),
        auto_args: vec![
            ("a".into(), AutoArg::Str("x".into())),
            ("b".into(), AutoArg::Expr("1".into())),
        ],
        force_recurse: true,
        gc_roots_dir: Some("/roots".into()),
        workers: 10,
        max_memory_size: 2048,
        meta: true,
        show_input_drvs: true,
        override_inputs: vec![("nixpkgs".into(), "path:/n".into())],
        nix_options: vec![("k".into(), "v".into())],
        remotes: vec![remote(&[])],
    };
    assert_eq!(
        eval_args(&config, false),
        [
            "eval", "--file", "jobs.nix", "--workers", "10", "--max-memory", "2048", "--gc-roots-dir",
            "/roots", "--meta", "--show-input-drvs", "--force-recurse", "--override-input", "nixpkgs",
            "path:/n", "--argstr", "a", "x", "--arg", "b", "1", "--option", "k", "v",
        ]
    );
}

#[test]
fn eval_args_are_read_back() {
    let config = Config {
        input: Input::Expr("{ a, b }: a".into()),
        auto_args: vec![
            ("b".into(), AutoArg::Expr("-1".into())),
            ("a".into(), AutoArg::Str("--dashed".into())),
        ],
        gc_roots_dir: Some("/roots".into()),
        workers: 0,
        meta: true,
        nix_options: vec![("k".into(), "v".into())],
        ..Config::default()
    };
    let (_, CommandPlan::Eval { config: read, socket, use_daemon }) =
        parse_plan_from(&eval_args(&config, true)).unwrap()
    else {
        panic!("expected eval command");
    };
    assert!(!use_daemon);
    assert!(socket.is_none());
    assert_eq!(format!("{read:?}"), format!("{config:?}"));
}

#[test]
fn remote_config_has_the_pools_workers_and_no_remotes() {
    let config = Config { workers: 8, remotes: vec![remote(&[])], meta: true, ..Config::default() };
    let result = remote_config(&config, &remote(&[]));
    assert_eq!(result.workers, 3);
    assert!(result.remotes.is_empty());
    assert!(result.meta);
}

#[test]
fn remote_lines_are_sorted() {
    let derivation = |system: &str| {
        format!(
            r#"{{"attr":"a","attrPath":["a"],"name":"a","system":"{system}","drvPath":"/nix/store/a.drv","outputs":{{}}}}"#
        )
    };
    let owner = remote(&["x86_64-linux"]);
    assert!(matches!(line_outcome(&owner, &derivation("x86_64-linux")), LineOutcome::Emit(Event::Derivation(_))));
    assert!(matches!(line_outcome(&owner, &derivation("aarch64-linux")), LineOutcome::Skip));
    assert!(matches!(line_outcome(&remote(&[]), &derivation("aarch64-linux")), LineOutcome::Emit(_)));
    assert!(matches!(line_outcome(&owner, " \t"), LineOutcome::Skip));
    assert!(matches!(line_outcome(&owner, r#"{"attr":"","attrPath":[],"attrs":["a"]}"#), LineOutcome::Skip));
    assert!(matches!(line_outcome(&owner, r#"{"attr":"a","attrPath":["a"],"error":"boom"}"#), LineOutcome::Emit(Event::Error(_))));
    match line_outcome(&owner, "warning: something") {
        LineOutcome::Warn(message) => assert_eq!(message, "parsing event line"),
        _ => panic!("expected a warning"),
    }
    let set = Event::AttrSet { attr: "".into(), attr_path: vec![], attrs: vec![] };
    assert!(!accepts_event(&owner, &set));
}

#[test]
fn a_failed_remote_reports_its_error_output_or_status() {
    let Event::Error(error) = failure_event(&remote(&[]), " no route to host \n", "exit status: 255") else {
        panic!("expected error");
    };
    assert_eq!(error.error, "no route to host");
    assert_eq!(error.attr, "builder");
    assert_eq!(error.attr_path, vec!["builder".to_string()]);
    assert!(!error.fatal);
    let Event::Error(error) = failure_event(&remote(&[]), "\n", "exit status: 255") else {
        panic!("expected error");
    };
    assert_eq!(error.error, "ssh remote builder exited with exit status: 255");
}
