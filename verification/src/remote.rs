//! Evaluation by `evix` on other machines: the command line that they are started with, and what
//! becomes of the lines that they print.

use vstd::prelude::*;
use vstd::string::*;

use crate::json::{parse_event_line, parsed_line};
use crate::text::{contains_text, decimal, number_text, same, trim, trimmed};
use crate::types::{
    AutoArg, AutoArgView, Config, ConfigView, EvalError, EvalErrorView, Event, EventView, Input,
    InputView, Remote, RemoteView,
};

verus! {

/// The configuration for one of the remote machines: its number of workers, and no remote
/// machines of its own.
pub open spec fn remote_config_of(config: ConfigView, remote: RemoteView) -> ConfigView {
    ConfigView { workers: remote.workers, remotes: Seq::empty(), ..config }
}

/// The configuration for one of the remote machines.
pub fn remote_config(config: &Config, remote: &Remote) -> (result: Config)
    ensures
        result@ == remote_config_of(config@, remote@),
{
    let mut result = config.clone();
    result.workers = remote.workers;
    result.remotes = Vec::new();
    assert(result@.remotes =~= Seq::empty());
    result
}

/// Whether an event of a remote machine is handed on: a derivation for a system that the machine
/// owns, or an error.
pub open spec fn accepted(remote: RemoteView, event: EventView) -> bool {
    match event {
        EventView::Derivation(drv) => remote.systems.len() == 0 || remote.systems.contains(
            drv.system,
        ),
        EventView::Error(_) => true,
        EventView::AttrSet { .. } => false,
    }
}

/// Whether an event of a remote machine is handed on.
pub fn accepts_event(remote: &Remote, event: &Event) -> (yes: bool)
    ensures
        yes == accepted(remote@, event@),
{
    match event {
        Event::Derivation(drv) => remote.systems.len() == 0 || contains_text(
            &remote.systems,
            &drv.system,
        ),
        Event::Error(_) => true,
        Event::AttrSet { .. } => false,
    }
}

/// What becomes of a line that a remote machine printed.
pub enum LineOutcome {
    /// Nothing: it is blank, or its event is not handed on.
    Skip,
    Emit(Event),
    /// It is no event.
    Warn(String),
}

/// What becomes of a line that a remote machine printed.
pub fn line_outcome(remote: &Remote, line: &str) -> (outcome: LineOutcome)
    ensures
        match outcome {
            LineOutcome::Skip => trimmed(line@).len() == 0 || (parsed_line(line@) is Ok
                && !accepted(remote@, parsed_line(line@)->Ok_0)),
            LineOutcome::Emit(event) => trimmed(line@).len() > 0 && parsed_line(line@) is Ok
                && parsed_line(line@)->Ok_0 == event@ && accepted(remote@, event@),
            LineOutcome::Warn(message) => trimmed(line@).len() > 0 && parsed_line(line@) is Err
                && message@ == parsed_line(line@)->Err_0.message(),
        },
{
    let text = trim(line);
    proof {
        reveal_strlit("");
        assert(text@.len() == 0 ==> text@ =~= ""@);
    }
    if same(text.as_str(), "") {
        return LineOutcome::Skip;
    }
    match parse_event_line(line) {
        Ok(event) => {
            if accepts_event(remote, &event) {
                LineOutcome::Emit(event)
            } else {
                LineOutcome::Skip
            }
        },
        Err(error) => LineOutcome::Warn(error.message()),
    }
}

/// The error event of a remote machine whose `evix` failed: what it wrote on its error output, or
/// its exit status where it wrote nothing.
pub open spec fn failure_of(endpoint: Seq<char>, stderr: Seq<char>, status: Seq<char>) -> EventView {
    EventView::Error(
        EvalErrorView {
            attr: endpoint,
            attr_path: seq![endpoint],
            error: if trimmed(stderr).len() == 0 {
                "ssh remote "@ + endpoint + " exited with "@ + status
            } else {
                trimmed(stderr)
            },
            fatal: false,
        },
    )
}

/// The error event of a remote machine whose `evix` failed.
pub fn failure_event(remote: &Remote, stderr: &str, status: &str) -> (event: Event)
    ensures
        event@ == failure_of(remote@.endpoint, stderr@, status@),
{
    let written = trim(stderr);
    proof {
        reveal_strlit("");
        assert(written@.len() == 0 ==> written@ =~= ""@);
    }
    let error = if same(written.as_str(), "") {
        "ssh remote ".to_owned().concat(remote.endpoint.as_str()).concat(" exited with ").concat(
            status,
        )
    } else {
        written
    };
    let mut attr_path: Vec<String> = Vec::new();
    attr_path.push(remote.endpoint.clone());
    assert(attr_path.deep_view() =~= seq![remote.endpoint@]);
    Event::Error(
        EvalError { attr: remote.endpoint.clone(), attr_path, error, fatal: false },
    )
}

/// The options that name the input.
pub open spec fn input_words(input: InputView) -> Seq<Seq<char>> {
    match input {
        InputView::Flake(value) => seq!["--flake"@, value],
        InputView::Expr(value) => seq!["--expr"@, value],
        InputView::File(path) => seq!["--file"@, path],
    }
}

/// A switch, where it is on.
pub open spec fn switch_words(flag: Seq<char>, on: bool) -> Seq<Seq<char>> {
    if on {
        seq![flag]
    } else {
        Seq::empty()
    }
}

/// The option for the GC roots directory, where there is one.
pub open spec fn gc_roots_words(dir: Option<Seq<char>>) -> Seq<Seq<char>> {
    match dir {
        Some(dir) => seq!["--gc-roots-dir"@, dir],
        None => Seq::empty(),
    }
}

/// One option with two values for each pair.
pub open spec fn pair_words(flag: Seq<char>, pairs: Seq<(Seq<char>, Seq<char>)>) -> Seq<Seq<char>>
    decreases pairs.len(),
{
    if pairs.len() == 0 {
        Seq::empty()
    } else {
        pair_words(flag, pairs.drop_last()) + seq![flag, pairs.last().0, pairs.last().1]
    }
}

/// One option with two values for each argument.
pub open spec fn auto_arg_words(args: Seq<(Seq<char>, AutoArgView)>) -> Seq<Seq<char>>
    decreases args.len(),
{
    if args.len() == 0 {
        Seq::empty()
    } else {
        auto_arg_words(args.drop_last()) + match args.last().1 {
            AutoArgView::Expr(value) => seq!["--arg"@, args.last().0, value],
            AutoArgView::Str(value) => seq!["--argstr"@, args.last().0, value],
        }
    }
}

/// The command line that evaluates a configuration once.
pub open spec fn eval_words(config: ConfigView, no_daemon: bool) -> Seq<Seq<char>> {
    seq!["eval"@] + switch_words("--no-daemon"@, no_daemon) + input_words(config.input) + seq![
        "--workers"@,
        decimal(config.workers),
        "--max-memory"@,
        decimal(config.max_memory_size),
    ] + gc_roots_words(config.gc_roots_dir) + switch_words("--meta"@, config.meta) + switch_words(
        "--show-input-drvs"@,
        config.show_input_drvs,
    ) + switch_words("--force-recurse"@, config.force_recurse) + pair_words(
        "--override-input"@,
        config.override_inputs,
    ) + auto_arg_words(config.auto_args) + pair_words("--option"@, config.nix_options)
}

fn push(args: &mut Vec<String>, word: &str)
    ensures
        final(args).deep_view() == old(args).deep_view() + seq![word@],
{
    let ghost before = args.deep_view();
    args.push(word.to_owned());
    assert(args.deep_view() =~= before + seq![word@]);
}

/// Adds an option and its value to a command line.
pub fn push_pair(args: &mut Vec<String>, flag: &str, value: &str)
    ensures
        final(args).deep_view() == old(args).deep_view() + seq![flag@, value@],
{
    let ghost before = args.deep_view();
    args.push(flag.to_owned());
    args.push(value.to_owned());
    assert(args.deep_view() =~= before + seq![flag@, value@]);
}

fn push_triple(args: &mut Vec<String>, flag: &str, name: &str, value: &str)
    ensures
        final(args).deep_view() == old(args).deep_view() + seq![flag@, name@, value@],
{
    let ghost before = args.deep_view();
    push_pair(args, flag, name);
    push(args, value);
    assert(args.deep_view() =~= before + seq![flag@, name@, value@]);
}

fn push_switch(args: &mut Vec<String>, flag: &str, on: bool)
    ensures
        final(args).deep_view() == old(args).deep_view() + switch_words(flag@, on),
{
    let ghost before = args.deep_view();
    if on {
        push(args, flag);
    }
    assert(args.deep_view() =~= before + switch_words(flag@, on));
}

fn push_pairs(args: &mut Vec<String>, flag: &str, pairs: &Vec<(String, String)>)
    ensures
        final(args).deep_view() == old(args).deep_view() + pair_words(flag@, pairs.deep_view()),
{
    let ghost before = args.deep_view();
    let ghost all = pairs.deep_view();
    let mut i: usize = 0;
    assert(args.deep_view() =~= before + pair_words(flag@, all.take(0)));
    while i < pairs.len()
        invariant
            all == pairs.deep_view(),
            i <= pairs@.len(),
            args.deep_view() == before + pair_words(flag@, all.take(i as int)),
        decreases pairs@.len() - i,
    {
        let ghost so_far = args.deep_view();
        push_triple(args, flag, pairs[i].0.as_str(), pairs[i].1.as_str());
        proof {
            assert(all.take(i + 1).drop_last() =~= all.take(i as int));
            assert(all[i as int] == pairs@[i as int].deep_view());
            assert(args.deep_view() =~= before + pair_words(flag@, all.take(i + 1)));
        }
        i += 1;
    }
    assert(all.take(all.len() as int) =~= all);
}

fn push_auto_args(args: &mut Vec<String>, auto_args: &Vec<(String, AutoArg)>)
    ensures
        final(args).deep_view() == old(args).deep_view() + auto_arg_words(auto_args.deep_view()),
{
    let ghost before = args.deep_view();
    let ghost all = auto_args.deep_view();
    let mut i: usize = 0;
    assert(args.deep_view() =~= before + auto_arg_words(all.take(0)));
    while i < auto_args.len()
        invariant
            all == auto_args.deep_view(),
            i <= auto_args@.len(),
            args.deep_view() == before + auto_arg_words(all.take(i as int)),
        decreases auto_args@.len() - i,
    {
        let ghost so_far = args.deep_view();
        match &auto_args[i].1 {
            AutoArg::Expr(value) => {
                push_triple(args, "--arg", auto_args[i].0.as_str(), value.as_str());
            },
            AutoArg::Str(value) => {
                push_triple(args, "--argstr", auto_args[i].0.as_str(), value.as_str());
            },
        }
        proof {
            assert(all.take(i + 1).drop_last() =~= all.take(i as int));
            assert(all[i as int] == auto_args@[i as int].deep_view());
            assert(args.deep_view() =~= before + auto_arg_words(all.take(i + 1)));
        }
        i += 1;
    }
    assert(all.take(all.len() as int) =~= all);
}

/// The command line that evaluates a configuration once, by way of a daemon or without one.
pub fn eval_args(config: &Config, no_daemon: bool) -> (args: Vec<String>)
    ensures
        args.deep_view() == eval_words(config@, no_daemon),
{
    let mut args: Vec<String> = Vec::new();
    push(&mut args, "eval");
    assert(args.deep_view() =~= seq!["eval"@]);
    push_switch(&mut args, "--no-daemon", no_daemon);
    match &config.input {
        Input::Flake(value) => push_pair(&mut args, "--flake", value.as_str()),
        Input::Expr(value) => push_pair(&mut args, "--expr", value.as_str()),
        Input::File(path) => push_pair(&mut args, "--file", path.as_str()),
    }
    let ghost before = args.deep_view();
    push_pair(&mut args, "--workers", number_text(config.workers).as_str());
    push_pair(&mut args, "--max-memory", number_text(config.max_memory_size).as_str());
    assert(args.deep_view() =~= before + seq![
        "--workers"@,
        decimal(config@.workers),
        "--max-memory"@,
        decimal(config@.max_memory_size),
    ]);
    let ghost numbered = args.deep_view();
    if let Some(dir) = &config.gc_roots_dir {
        push_pair(&mut args, "--gc-roots-dir", dir.as_str());
    }
    assert(args.deep_view() =~= numbered + gc_roots_words(config@.gc_roots_dir));
    push_switch(&mut args, "--meta", config.meta);
    push_switch(&mut args, "--show-input-drvs", config.show_input_drvs);
    push_switch(&mut args, "--force-recurse", config.force_recurse);
    push_pairs(&mut args, "--override-input", &config.override_inputs);
    push_auto_args(&mut args, &config.auto_args);
    push_pairs(&mut args, "--option", &config.nix_options);
    args
}

/// A remote machine evaluates the configuration itself, with the number of workers of its pool and
/// without remotes of its own.
pub proof fn law_remote_machines_evaluate_the_same(config: ConfigView, remote: RemoteView)
    ensures
        ({
            let there = remote_config_of(config, remote);
            &&& there.workers == remote.workers
            &&& there.remotes.len() == 0
            &&& there.input == config.input
            &&& there.auto_args == config.auto_args
            &&& there.force_recurse == config.force_recurse
            &&& there.gc_roots_dir == config.gc_roots_dir
            &&& there.max_memory_size == config.max_memory_size
            &&& there.meta == config.meta
            &&& there.show_input_drvs == config.show_input_drvs
            &&& there.override_inputs == config.override_inputs
            &&& there.nix_options == config.nix_options
        }),
{
}

/// A derivation of a remote machine is handed on where the machine lists no systems, or lists the
/// derivation's at any place; errors always are, attrsets never.
pub proof fn law_listed_systems_are_handed_on(remote: RemoteView, event: EventView)
    ensures
        match event {
            EventView::Derivation(drv) => accepted(remote, event) <==> (remote.systems.len() == 0
                || exists|i: int|
                0 <= i < remote.systems.len() && #[trigger] remote.systems[i] == drv.system),
            EventView::Error(_) => accepted(remote, event),
            EventView::AttrSet { .. } => !accepted(remote, event),
        },
{
}

/// A remote machine that failed is told as an error that is not fatal, under its endpoint: with what
/// it wrote on its error output, or with its exit status where that is blank.
pub proof fn law_remote_failures_are_told(
    endpoint: Seq<char>,
    stderr: Seq<char>,
    status: Seq<char>,
)
    ensures
        ({
            let event = failure_of(endpoint, stderr, status);
            &&& event is Error
            &&& !event->Error_0.fatal
            &&& event->Error_0.attr == endpoint
            &&& event->Error_0.attr_path == seq![endpoint]
            &&& trimmed(stderr).len() > 0 ==> event->Error_0.error == trimmed(stderr)
            &&& trimmed(stderr).len() == 0 ==> event->Error_0.error == "ssh remote "@ + endpoint
                + " exited with "@ + status
        }),
{
}

} // verus!
