use evix::args::{parse_plan_from, CommandPlan, Pair, RemoteArg, Verbosity};
use evix::command_line::{normalize_args, pack, packed_arity, PlanError};
use evix::one_shot::Args;
use evix::{AutoArg, Input};

fn words(list: &[&str]) -> Vec<String> {
    list.iter().map(|word| (*word).to_string()).collect()
}

fn error(list: &[&str]) -> String {
    match parse_plan_from(&words(list)) {
        Ok(_) => panic!("expected an error for {list:?}"),
        Err(error) => error.message(),
    }
}

#[test]
fn eval_accepts_nix_style_argstr_pairs() {
    let (_, CommandPlan::Eval { config, .. }) = parse_plan_from(&words(&[
        "eval",
        "--expr",
        "{ label }: { inherit label; }",
        "--argstr",
        "label",
        "fallback",
    ]))
    .expect("parse eval plan") else {
        panic!("expected eval command");
    };

    assert_eq!(config.auto_args.len(), 1);
    let (name, value) = &config.auto_args[0];
    assert_eq!(name, "label");
    match value {
        AutoArg::Str(value) => assert_eq!(value, "fallback"),
        AutoArg::Expr(value) => panic!("expected string arg, got expr {value:?}"),
    }
}

#[test]
fn eval_accepts_nix_style_remote_triples() {
    let (_, CommandPlan::Eval { config, .. }) = parse_plan_from(&words(&[
        "eval",
        "--expr",
        "{}",
        "--remote",
        "worker:7357",
        "x86_64-linux,aarch64-linux",
        "2",
    ]))
    .expect("parse eval plan") else {
        panic!("expected eval command");
    };

    assert_eq!(config.remotes.len(), 1);
    assert_eq!(config.remotes[0].endpoint, "worker:7357");
    assert_eq!(
        config.remotes[0].systems,
        vec!["x86_64-linux".to_owned(), "aarch64-linux".to_owned()]
    );
    assert_eq!(config.remotes[0].workers, 2);
}

#[test]
fn grouped_values_may_start_with_dashes() {
    let (_, CommandPlan::Eval { config, .. }) = parse_plan_from(&words(&[
        "eval",
        "--expr",
        "{ label }: label",
        "--argstr",
        "label",
        "--not-a-flag",
    ]))
    .expect("parse eval plan") else {
        panic!("expected eval command");
    };

    let (_, value) = &config.auto_args[0];
    match value {
        AutoArg::Str(value) => assert_eq!(value, "--not-a-flag"),
        AutoArg::Expr(value) => panic!("expected string arg, got expr {value:?}"),
    }
}

#[test]
fn watch_rejects_expr_input() {
    let error = match parse_plan_from(&words(&["watch", "--expr", "{}"])) {
        Ok(_) => panic!("watch expr should fail"),
        Err(error) => error.message(),
    };

    assert!(error.contains("watch requires --flake or --file input"));
}

#[test]
fn global_and_command_verbosity_accumulate() {
    let (verbosity, CommandPlan::Eval { .. }) =
        parse_plan_from(&words(&["-v", "eval", "-vv", "--expr", "{}"])).expect("parse eval plan")
    else {
        panic!("expected eval command");
    };

    assert_eq!(verbosity.verbose, 3);
    assert_eq!(verbosity.quiet, 0);
}

#[test]
fn global_and_command_quiet_accumulate() {
    let (verbosity, CommandPlan::Eval { .. }) =
        parse_plan_from(&words(&["-q", "eval", "-qq", "--expr", "{}"])).expect("parse eval plan")
    else {
        panic!("expected eval command");
    };

    assert_eq!(verbosity.verbose, 0);
    assert_eq!(verbosity.quiet, 3);
}

#[test]
fn daemon_accepts_grouped_verbose_flags() {
    let (verbosity, CommandPlan::Daemon { foreground, .. }) =
        parse_plan_from(&words(&["daemon", "--foreground", "-vv"])).expect("parse daemon plan")
    else {
        panic!("expected daemon command");
    };

    assert_eq!(verbosity.verbose, 2);
    assert_eq!(verbosity.quiet, 0);
    assert!(foreground);
}

#[test]
fn worker_accepts_long_verbose_flags() {
    let (verbosity, CommandPlan::Worker { listen }) =
        parse_plan_from(&words(&["worker", "--verbose", "--listen", "0.0.0.0:7357"]))
            .expect("parse worker plan")
    else {
        panic!("expected worker command");
    };

    assert_eq!(verbosity.verbose, 1);
    assert_eq!(verbosity.quiet, 0);
    assert_eq!(listen, "0.0.0.0:7357");
}

#[test]
fn every_eval_option_reaches_the_config() {
    let (_, CommandPlan::Eval { config, socket, use_daemon }) = parse_plan_from(&words(&[
        "eval",
        "--flake=.#jobs",
        "--arg",
        "pkgs",
        "import <nixpkgs> {}",
        "--argstr=name",
        "hello",
        "--override-input",
        "nixpkgs",
        "github:NixOS/nixpkgs",
        "--option",
        "restrict-eval",
        "true",
        "--remote",
        "a:1",
        "",
        "4",
        "--meta",
        "--show-input-drvs",
        "--workers",
        "0",
        "--max-memory-size",
        "128",
        "--force-recurse",
        "--gc-roots-dir",
        "/roots",
        "--socket",
        "/tmp/evix.sock",
        "--no-daemon",
    ]))
    .expect("parse eval plan") else {
        panic!("expected eval command");
    };
    assert!(matches!(&config.input, Input::Flake(flake) if flake == ".#jobs"));
    assert!(matches!(&config.auto_args[0], (name, AutoArg::Expr(expr)) if name == "pkgs" && expr == "import <nixpkgs> {}"));
    assert!(matches!(&config.auto_args[1], (name, AutoArg::Str(text)) if name == "name" && text == "hello"));
    assert_eq!(config.override_inputs, vec![("nixpkgs".to_string(), "github:NixOS/nixpkgs".to_string())]);
    assert_eq!(config.nix_options, vec![("restrict-eval".to_string(), "true".to_string())]);
    assert_eq!(config.remotes[0].endpoint, "a:1");
    assert!(config.remotes[0].systems.is_empty());
    assert_eq!(config.remotes[0].workers, 4);
    assert!(config.meta && config.show_input_drvs && config.force_recurse);
    assert_eq!(config.workers, 0);
    assert_eq!(config.max_memory_size, 128);
    assert_eq!(config.gc_roots_dir.as_deref(), Some("/roots"));
    assert_eq!(socket.as_deref(), Some("/tmp/evix.sock"));
    assert!(!use_daemon);
}

#[test]
fn defaults_are_one_worker_and_four_gigabytes() {
    let (verbosity, CommandPlan::Diff { config, socket }) =
        parse_plan_from(&words(&["diff", "--file", "default.nix"])).expect("parse diff plan")
    else {
        panic!("expected diff command");
    };
    assert_eq!(verbosity, Verbosity::default());
    assert_eq!(config.workers, 1);
    assert_eq!(config.max_memory_size, 4096);
    assert!(socket.is_none());
    assert!(matches!(&config.input, Input::File(path) if path == "default.nix"));
}

#[test]
fn query_options_become_a_filter() {
    let (_, CommandPlan::Query { filter, .. }) = parse_plan_from(&words(&[
        "query",
        "--flake",
        ".",
        "--system",
        "x86_64-linux",
        "--system",
        "aarch64-linux",
        "--attr-prefix",
        "packages..x86_64-linux",
    ]))
    .expect("parse query plan") else {
        panic!("expected query command");
    };
    assert_eq!(filter.systems, Some(words(&["x86_64-linux", "aarch64-linux"])));
    assert_eq!(filter.attr_prefix, Some(words(&["packages", "x86_64-linux"])));
    assert!(filter.names.is_none());

    let (_, CommandPlan::Query { filter, .. }) =
        parse_plan_from(&words(&["query", "--flake", "."])).expect("parse query plan")
    else {
        panic!("expected query command");
    };
    assert!(filter.systems.is_none());
    assert!(filter.attr_prefix.is_none());
}

#[test]
fn the_last_value_of_an_option_counts() {
    let (_, CommandPlan::Eval { config, .. }) =
        parse_plan_from(&words(&["eval", "--expr", "1", "--expr", "2", "--workers", "-1", "--workers", "+3"]))
            .expect("parse eval plan")
    else {
        panic!("expected eval command");
    };
    assert!(matches!(&config.input, Input::Expr(expr) if expr == "2"));
    assert_eq!(config.workers, 3);
}

#[test]
fn each_bad_command_line_has_its_message() {
    assert_eq!(error(&[]), "a subcommand is required");
    assert_eq!(error(&["build"]), "unknown subcommand 'build'");
    assert_eq!(error(&["eval"]), "one of --flake, --expr, --file is required (input)");
    assert_eq!(
        error(&["eval", "--file", "a", "--expr", "b"]),
        "--expr and --file cannot be used together (input)"
    );
    assert_eq!(
        error(&["diff", "--flake", "a", "--file", "b"]),
        "--flake and --file cannot be used together (input)"
    );
    assert_eq!(error(&["eval", "--bogus"]), "unrecognized argument '--bogus'");
    assert_eq!(error(&["eval", "-x"]), "unrecognized argument '-x'");
    assert_eq!(error(&["eval", "-vx"]), "unrecognized argument '-x'");
    assert_eq!(error(&["eval", "--expr"]), "'--expr' needs a value");
    assert_eq!(error(&["eval", "--expr", "--meta"]), "'--expr' needs a value");
    assert_eq!(error(&["eval", "--meta=yes"]), "'--meta' does not take a value");
    assert_eq!(error(&["eval", "stray"]), "unexpected argument 'stray'");
    assert_eq!(error(&["eval", "-5"]), "unexpected argument '-5'");
    assert_eq!(error(&["eval", "--", "--expr"]), "unexpected argument '--expr'");
    assert_eq!(error(&["eval", "--version"]), "unrecognized argument '--version'");
    assert_eq!(error(&["diff", "--no-daemon"]), "unrecognized argument '--no-daemon'");
    assert_eq!(error(&["worker"]), "missing required argument --listen");
    assert_eq!(
        error(&["eval", "--expr", "1", "--workers", "many"]),
        "invalid value 'many' for --workers: invalid digit found in string"
    );
    assert_eq!(
        error(&["eval", "--expr", "1", "--max-memory-size", ""]),
        "invalid value '' for --max-memory: cannot parse integer from empty string"
    );
    assert_eq!(
        error(&["eval", "--expr", "1", "--workers", "99999999999999999999999"]),
        "invalid value '99999999999999999999999' for --workers: number too large to fit in target type"
    );
    assert_eq!(
        error(&["eval", "--expr", "1", "--remote", "a", "b", "0"]),
        "invalid value 'a\u{1f}b\u{1f}0' for --remote: worker count must be greater than zero"
    );
    assert_eq!(error(&["eval", "--arg", "name"]), "--arg requires 2 values");
    assert_eq!(error(&["eval", "--remote=a", "b"]), "--remote requires 3 values");
    assert_eq!(
        error(&["eval", "--arg", "a\u{1f}b", "c"]),
        "argument values cannot contain ASCII unit separator"
    );
}

#[test]
fn help_and_version_are_told_apart() {
    for line in [&["--help"][..], &["-h"], &["help"], &["help", "eval"], &["eval", "--help"], &["eval", "-vh"]] {
        assert!(matches!(parse_plan_from(&words(line)), Err(PlanError::Help)), "{line:?}");
    }
    for line in [&["--version"][..], &["-V"]] {
        assert!(matches!(parse_plan_from(&words(line)), Err(PlanError::Version)), "{line:?}");
    }
    assert_eq!(error(&["help", "eval", "diff"]), "unknown subcommand 'diff'");
}

#[test]
fn grouped_values_are_packed_into_one_word() {
    assert_eq!(
        normalize_args(&words(&["eval", "--arg", "a", "b", "--remote=x", "y", "z", "--meta"])).unwrap(),
        words(&["eval", "--arg=a\u{1f}b", "--remote=x\u{1f}y\u{1f}z", "--meta"])
    );
    assert_eq!(packed_arity("--option"), Some(2));
    assert_eq!(packed_arity("--remote"), Some(3));
    assert_eq!(packed_arity("--expr"), None);
    assert_eq!(pack(&words(&["a", "b"])).unwrap(), "a\u{1f}b");
}

#[test]
fn packed_values_are_read_or_refused() {
    let pair = Pair::from_arg("name\u{1f}value\u{1f}more").unwrap();
    assert_eq!(pair.name, "name");
    assert_eq!(pair.value, "value\u{1f}more");
    assert_eq!(Pair::from_arg("name").unwrap_err(), "expected packed NAME VALUE");

    let remote = RemoteArg::from_arg("host:1\u{1f},a,,b,\u{1f}7").unwrap();
    assert_eq!(remote.endpoint, "host:1");
    assert_eq!(remote.systems, words(&["a", "b"]));
    assert_eq!(remote.workers, 7);
    assert_eq!(RemoteArg::from_arg("host").unwrap_err(), "expected systems");
    assert_eq!(RemoteArg::from_arg("host\u{1f}a").unwrap_err(), "expected worker count");
    assert_eq!(RemoteArg::from_arg("h\u{1f}a\u{1f}x").unwrap_err(), "invalid digit found in string");
}

#[test]
fn verbosity_sets_the_log_level() {
    let level = |verbose, quiet| Verbosity { verbose, quiet }.level();
    assert_eq!(level(0, 200), "off");
    assert_eq!(level(0, 3), "off");
    assert_eq!(level(0, 2), "error");
    assert_eq!(level(1, 2), "warn");
    assert_eq!(level(2, 2), "info");
    assert_eq!(level(1, 0), "debug");
    assert_eq!(level(2, 0), "trace");
    assert_eq!(level(255, 0), "trace");
}

fn one_shot() -> Args {
    Args {
        flake: None,
        expr: Some("{}".into()),
        file: None,
        arg: vec![],
        argstr: vec![],
        override_input: vec![],
        option: vec![],
        meta: false,
        show_input_drvs: true,
        workers: 2,
        max_memory_size: 64,
        force_recurse: false,
        gc_roots_dir: None,
        verbose: 0,
    }
}

#[test]
fn one_shot_options_come_in_pairs() {
    let mut args = one_shot();
    args.arg = words(&["a", "1", "b", "2"]);
    args.argstr = words(&["c", "text"]);
    args.override_input = words(&["nixpkgs", "path:/nixpkgs"]);
    args.option = words(&["key", "value"]);
    let config = args.to_config().unwrap();
    assert_eq!(config.auto_args.len(), 3);
    assert!(matches!(&config.auto_args[1], (name, AutoArg::Expr(expr)) if name == "b" && expr == "2"));
    assert!(matches!(&config.auto_args[2], (name, AutoArg::Str(text)) if name == "c" && text == "text"));
    assert_eq!(config.override_inputs, vec![("nixpkgs".to_string(), "path:/nixpkgs".to_string())]);
    assert_eq!(config.nix_options, vec![("key".to_string(), "value".to_string())]);
    assert_eq!(config.workers, 2);
    assert!(config.show_input_drvs && !config.meta);

    args.arg.pop();
    assert_eq!(
        args.to_config().unwrap_err(),
        "--arg requires paired NAME EXPR values: use --arg NAME --arg EXPR"
    );
    let mut args = one_shot();
    args.argstr = words(&["c"]);
    assert!(args.to_config().unwrap_err().starts_with("--argstr requires paired NAME VALUE values"));
    let mut args = one_shot();
    args.override_input = words(&["c"]);
    assert!(args.to_config().unwrap_err().starts_with("--override-input requires paired NAME REF values"));
    let mut args = one_shot();
    args.option = words(&["c"]);
    assert!(args.to_config().unwrap_err().starts_with("--option requires paired KEY VALUE values"));
}

#[test]
fn one_shot_input_and_level() {
    let mut args = one_shot();
    args.file = Some("default.nix".into());
    assert!(matches!(args.to_config().unwrap().input, Input::Expr(_)));
    args.flake = Some(".".into());
    assert!(matches!(args.to_config().unwrap().input, Input::Flake(_)));
    args.flake = None;
    args.expr = None;
    assert!(matches!(args.to_config().unwrap().input, Input::File(path) if path == "default.nix"));
    let mut args = one_shot();
    assert_eq!(args.init_tracing(), "info");
    args.verbose = 1;
    assert_eq!(args.init_tracing(), "debug");
    args.verbose = 9;
    assert_eq!(args.init_tracing(), "trace");
}
