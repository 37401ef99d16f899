//! What the `evix` command line asks for.

use vstd::prelude::*;
use vstd::string::*;

use crate::command_line::{
    law_other_words_stay, law_subcommand_comes_first,
    law_subcommands_share_their_options, normalize_args, normalized, shape_of, sort_line,
    sorted_line, Line, LineView, PlanError, PlanErrorView, Use, UseView, Verb, PACK_SEP,
};
use crate::keyed_map::Duplicate;
use crate::text::{
    halves, joined, law_halves, law_joined_parts_are_pieces, parse_number, parsed_number, pieces,
    same, split, split_once, NumberError,
};
use crate::types::{
    no_filter, AutoArg, AutoArgView, Config, ConfigView, Filter, FilterView, Input, InputView,
    Remote, RemoteView,
};

verus! {

/// The values of an option, in order.
pub open spec fn values_of(uses: Seq<UseView>, name: Seq<char>) -> Seq<Seq<char>>
    decreases uses.len(),
{
    if uses.len() == 0 {
        Seq::empty()
    } else {
        let before = values_of(uses.drop_last(), name);
        let last = uses.last();
        if last.name == name && last.value is Some {
            before.push(last.value->0)
        } else {
            before
        }
    }
}

/// The value of an option that takes effect: its last one.
pub open spec fn value_of(uses: Seq<UseView>, name: Seq<char>) -> Option<Seq<char>> {
    let values = values_of(uses, name);
    if values.len() == 0 {
        None
    } else {
        Some(values.last())
    }
}

/// How often an option is used.
pub open spec fn times_used(uses: Seq<UseView>, name: Seq<char>) -> nat
    decreases uses.len(),
{
    if uses.len() == 0 {
        0
    } else {
        times_used(uses.drop_last(), name) + if uses.last().name == name { 1nat } else { 0nat }
    }
}

fn values(uses: &Vec<Use>, name: &str) -> (found: Vec<String>)
    ensures
        found.deep_view() == values_of(uses.deep_view(), name@),
{
    let ghost all = uses.deep_view();
    let mut found: Vec<String> = Vec::new();
    assert(found.deep_view() =~= Seq::empty());
    let mut i: usize = 0;
    while i < uses.len()
        invariant
            all == uses.deep_view(),
            i <= uses@.len(),
            found.deep_view() == values_of(all.take(i as int), name@),
        decreases uses@.len() - i,
    {
        assert(all.take(i + 1).drop_last() =~= all.take(i as int));
        assert(all[i as int] == uses@[i as int]@);
        if same(uses[i].name.as_str(), name) {
            if let Some(value) = &uses[i].value {
                let ghost before = found.deep_view();
                found.push(value.clone());
                assert(found.deep_view() =~= before.push(value@));
            }
        }
        i += 1;
    }
    assert(all.take(all.len() as int) =~= all);
    found
}

fn value(uses: &Vec<Use>, name: &str) -> (found: Option<String>)
    ensures
        found.deep_view() == value_of(uses.deep_view(), name@),
{
    let all = values(uses, name);
    if all.len() == 0 {
        None
    } else {
        assert(all.deep_view().last() == all@[all@.len() - 1]@);
        Some(all[all.len() - 1].clone())
    }
}

fn count_uses(uses: &Vec<Use>, name: &str) -> (n: usize)
    ensures
        n == times_used(uses.deep_view(), name@),
{
    let ghost all = uses.deep_view();
    let mut n: usize = 0;
    let mut i: usize = 0;
    while i < uses.len()
        invariant
            all == uses.deep_view(),
            n <= i <= uses@.len(),
            n == times_used(all.take(i as int), name@),
        decreases uses@.len() - i,
    {
        assert(all.take(i + 1).drop_last() =~= all.take(i as int));
        assert(all[i as int] == uses@[i as int]@);
        if same(uses[i].name.as_str(), name) {
            n += 1;
        }
        i += 1;
    }
    assert(all.take(all.len() as int) =~= all);
    n
}

/// A name and a value that belong together.
#[derive(Debug)]
pub struct Pair {
    pub name: String,
    pub value: String,
}

impl View for Pair {
    type V = (Seq<char>, Seq<char>);

    open spec fn view(&self) -> (Seq<char>, Seq<char>) {
        (self.name@, self.value@)
    }
}

impl DeepView for Pair {
    type V = (Seq<char>, Seq<char>);

    open spec fn deep_view(&self) -> (Seq<char>, Seq<char>) {
        self@
    }
}

/// The pair of a packed value, or why it is none.
pub open spec fn parsed_pair(text: Seq<char>) -> Result<(Seq<char>, Seq<char>), Seq<char>> {
    match halves(text, PACK_SEP) {
        Some(pair) => Ok(pair),
        None => Err("expected packed NAME VALUE"@),
    }
}

impl Pair {
    /// Reads a pair from a packed value.
    pub fn from_arg(text: &str) -> (result: Result<Self, String>)
        ensures
            match result {
                Ok(pair) => parsed_pair(text@) == Ok::<_, Seq<char>>(pair@),
                Err(reason) => parsed_pair(text@) == Err::<(Seq<char>, Seq<char>), _>(reason@),
            },
    {
        match split_once(text, PACK_SEP) {
            Some((name, value)) => Ok(Pair { name, value }),
            None => Err("expected packed NAME VALUE".to_owned()),
        }
    }
}

/// A remote worker pool as written on the command line.
#[derive(Debug)]
pub struct RemoteArg {
    pub endpoint: String,
    pub systems: Vec<String>,
    pub workers: usize,
}

impl View for RemoteArg {
    type V = RemoteView;

    open spec fn view(&self) -> RemoteView {
        RemoteView {
            endpoint: self.endpoint@,
            systems: self.systems.deep_view(),
            workers: self.workers as nat,
        }
    }
}

impl DeepView for RemoteArg {
    type V = RemoteView;

    open spec fn deep_view(&self) -> RemoteView {
        self@
    }
}

/// The parts that are not empty.
pub open spec fn without_empty(parts: Seq<Seq<char>>) -> Seq<Seq<char>>
    decreases parts.len(),
{
    if parts.len() == 0 {
        Seq::empty()
    } else {
        let before = without_empty(parts.drop_last());
        if parts.last().len() == 0 {
            before
        } else {
            before.push(parts.last())
        }
    }
}

fn drop_empty(parts: &Vec<String>) -> (kept: Vec<String>)
    ensures
        kept.deep_view() == without_empty(parts.deep_view()),
{
    let ghost all = parts.deep_view();
    let mut kept: Vec<String> = Vec::new();
    assert(kept.deep_view() =~= Seq::empty());
    let mut i: usize = 0;
    while i < parts.len()
        invariant
            all == parts.deep_view(),
            i <= parts@.len(),
            kept.deep_view() == without_empty(all.take(i as int)),
        decreases parts@.len() - i,
    {
        assert(all.take(i + 1).drop_last() =~= all.take(i as int));
        assert(all[i as int] == parts@[i as int]@);
        if !is_empty_text(parts[i].as_str()) {
            let ghost before = kept.deep_view();
            kept.push(parts[i].clone());
            assert(kept.deep_view() =~= before.push(all[i as int]));
        }
        i += 1;
    }
    assert(all.take(all.len() as int) =~= all);
    kept
}

fn is_empty_text(text: &str) -> (yes: bool)
    ensures
        yes == (text@.len() == 0),
{
    proof {
        reveal_strlit("");
        assert(text@.len() == 0 ==> text@ =~= ""@);
    }
    same(text, "")
}

/// The remote worker pool of a packed value, or why it is none: the endpoint, its systems
/// separated by commas, and the number of workers, of which there must be one.
pub open spec fn parsed_remote(text: Seq<char>) -> Result<RemoteView, Seq<char>> {
    match halves(text, PACK_SEP) {
        None => Err("expected systems"@),
        Some((endpoint, rest)) => match halves(rest, PACK_SEP) {
            None => Err("expected worker count"@),
            Some((systems, workers)) => match parsed_number(workers) {
                Err(error) => Err(error.spec_message()),
                Ok(workers) => if workers == 0 {
                    Err("worker count must be greater than zero"@)
                } else {
                    Ok(
                        RemoteView {
                            endpoint,
                            systems: without_empty(pieces(systems, ',')),
                            workers,
                        },
                    )
                },
            },
        },
    }
}

impl RemoteArg {
    /// Reads a remote worker pool from a packed value.
    pub fn from_arg(text: &str) -> (result: Result<Self, String>)
        ensures
            match result {
                Ok(remote) => parsed_remote(text@) == Ok::<_, Seq<char>>(remote@),
                Err(reason) => parsed_remote(text@) == Err::<RemoteView, _>(reason@),
            },
    {
        let (endpoint, rest) = match split_once(text, PACK_SEP) {
            Some(cut) => cut,
            None => return Err("expected systems".to_owned()),
        };
        let (systems, workers) = match split_once(rest.as_str(), PACK_SEP) {
            Some(cut) => cut,
            None => return Err("expected worker count".to_owned()),
        };
        let workers: usize = match parse_number(workers.as_str()) {
            Ok(workers) => workers,
            Err(error) => return Err(error.message()),
        };
        if workers == 0 {
            return Err("worker count must be greater than zero".to_owned());
        }
        let systems = drop_empty(&split(systems.as_str(), ','));
        Ok(RemoteArg { endpoint, systems, workers })
    }
}

/// The pairs of an option's values.
pub open spec fn parsed_pairs(option: Seq<char>, values: Seq<Seq<char>>) -> Result<
    Seq<(Seq<char>, Seq<char>)>,
    PlanErrorView,
>
    decreases values.len(),
{
    if values.len() == 0 {
        Ok(Seq::empty())
    } else {
        match parsed_pairs(option, values.drop_last()) {
            Err(error) => Err(error),
            Ok(pairs) => match parsed_pair(values.last()) {
                Ok(pair) => Ok(pairs.push(pair)),
                Err(reason) => Err(
                    PlanErrorView::BadValue { option, value: values.last(), reason },
                ),
            },
        }
    }
}

proof fn lemma_pairs_error_stays(option: Seq<char>, values: Seq<Seq<char>>, k: int)
    requires
        0 <= k <= values.len(),
        parsed_pairs(option, values.take(k)) is Err,
    ensures
        parsed_pairs(option, values) == parsed_pairs(option, values.take(k)),
    decreases values.len() - k,
{
    if k < values.len() {
        assert(values.take(k + 1).drop_last() =~= values.take(k));
        lemma_pairs_error_stays(option, values, k + 1);
    } else {
        assert(values.take(k) =~= values);
    }
}

fn read_pairs(option: &str, values: &Vec<String>) -> (result: Result<Vec<Pair>, PlanError>)
    ensures
        match result {
            Ok(pairs) => parsed_pairs(option@, values.deep_view()) == Ok::<_, PlanErrorView>(
                pairs.deep_view(),
            ),
            Err(error) => parsed_pairs(option@, values.deep_view()) == Err::<
                Seq<(Seq<char>, Seq<char>)>,
                _,
            >(error@),
        },
{
    let ghost all = values.deep_view();
    let mut pairs: Vec<Pair> = Vec::new();
    assert(pairs.deep_view() =~= Seq::empty());
    let mut i: usize = 0;
    while i < values.len()
        invariant
            all == values.deep_view(),
            i <= values@.len(),
            parsed_pairs(option@, all.take(i as int)) == Ok::<_, PlanErrorView>(pairs.deep_view()),
        decreases values@.len() - i,
    {
        assert(all.take(i + 1).drop_last() =~= all.take(i as int));
        assert(all[i as int] == values@[i as int]@);
        match Pair::from_arg(values[i].as_str()) {
            Ok(pair) => {
                let ghost before = pairs.deep_view();
                pairs.push(pair);
                assert(pairs.deep_view() =~= before.push(pair@));
            },
            Err(reason) => {
                proof {
                    lemma_pairs_error_stays(option@, all, i + 1);
                }
                return Err(
                    PlanError::BadValue {
                        option: option.to_owned(),
                        value: values[i].clone(),
                        reason,
                    },
                );
            },
        }
        i += 1;
    }
    assert(all.take(all.len() as int) =~= all);
    Ok(pairs)
}

/// The remote worker pools of an option's values.
pub open spec fn parsed_remotes(option: Seq<char>, values: Seq<Seq<char>>) -> Result<
    Seq<RemoteView>,
    PlanErrorView,
>
    decreases values.len(),
{
    if values.len() == 0 {
        Ok(Seq::empty())
    } else {
        match parsed_remotes(option, values.drop_last()) {
            Err(error) => Err(error),
            Ok(remotes) => match parsed_remote(values.last()) {
                Ok(remote) => Ok(remotes.push(remote)),
                Err(reason) => Err(
                    PlanErrorView::BadValue { option, value: values.last(), reason },
                ),
            },
        }
    }
}

proof fn lemma_remotes_error_stays(option: Seq<char>, values: Seq<Seq<char>>, k: int)
    requires
        0 <= k <= values.len(),
        parsed_remotes(option, values.take(k)) is Err,
    ensures
        parsed_remotes(option, values) == parsed_remotes(option, values.take(k)),
    decreases values.len() - k,
{
    if k < values.len() {
        assert(values.take(k + 1).drop_last() =~= values.take(k));
        lemma_remotes_error_stays(option, values, k + 1);
    } else {
        assert(values.take(k) =~= values);
    }
}

fn read_remotes(option: &str, values: &Vec<String>) -> (result: Result<Vec<RemoteArg>, PlanError>)
    ensures
        match result {
            Ok(remotes) => parsed_remotes(option@, values.deep_view()) == Ok::<_, PlanErrorView>(
                remotes.deep_view(),
            ),
            Err(error) => parsed_remotes(option@, values.deep_view()) == Err::<Seq<RemoteView>, _>(
                error@,
            ),
        },
{
    let ghost all = values.deep_view();
    let mut remotes: Vec<RemoteArg> = Vec::new();
    assert(remotes.deep_view() =~= Seq::empty());
    let mut i: usize = 0;
    while i < values.len()
        invariant
            all == values.deep_view(),
            i <= values@.len(),
            parsed_remotes(option@, all.take(i as int)) == Ok::<_, PlanErrorView>(
                remotes.deep_view(),
            ),
        decreases values@.len() - i,
    {
        assert(all.take(i + 1).drop_last() =~= all.take(i as int));
        assert(all[i as int] == values@[i as int]@);
        match RemoteArg::from_arg(values[i].as_str()) {
            Ok(remote) => {
                let ghost before = remotes.deep_view();
                remotes.push(remote);
                assert(remotes.deep_view() =~= before.push(remote@));
            },
            Err(reason) => {
                proof {
                    lemma_remotes_error_stays(option@, all, i + 1);
                }
                return Err(
                    PlanError::BadValue {
                        option: option.to_owned(),
                        value: values[i].clone(),
                        reason,
                    },
                );
            },
        }
        i += 1;
    }
    assert(all.take(all.len() as int) =~= all);
    Ok(remotes)
}

/// The number that an option sets.
pub open spec fn parsed_count(option: Seq<char>, value: Option<Seq<char>>, default: nat) -> Result<
    nat,
    PlanErrorView,
> {
    match value {
        None => Ok(default),
        Some(text) => match parsed_number(text) {
            Ok(n) => Ok(n),
            Err(error) => Err(
                PlanErrorView::BadValue { option, value: text, reason: error.spec_message() },
            ),
        },
    }
}

fn read_count(option: &str, value: Option<String>, default: usize) -> (result: Result<
    usize,
    PlanError,
>)
    ensures
        match result {
            Ok(n) => parsed_count(option@, value.deep_view(), default as nat) == Ok::<
                _,
                PlanErrorView,
            >(n as nat),
            Err(error) => parsed_count(option@, value.deep_view(), default as nat) == Err::<nat, _>(
                error@,
            ),
        },
{
    match value {
        None => Ok(default),
        Some(text) => match parse_number(text.as_str()) {
            Ok(n) => Ok(n),
            Err(error) => Err(
                PlanError::BadValue {
                    option: option.to_owned(),
                    value: text,
                    reason: error.message(),
                },
            ),
        },
    }
}

/// The options of the subcommands that evaluate an input.
#[derive(Debug)]
pub struct EvalInput {
    pub flake: Option<String>,
    pub expr: Option<String>,
    pub file: Option<String>,
    pub arg: Vec<Pair>,
    pub argstr: Vec<Pair>,
    pub override_input: Vec<Pair>,
    pub option: Vec<Pair>,
    pub remote: Vec<RemoteArg>,
    pub meta: bool,
    pub show_input_drvs: bool,
    pub workers: usize,
    pub max_memory: usize,
    pub force_recurse: bool,
    pub gc_roots_dir: Option<String>,
}

pub struct EvalInputView {
    pub flake: Option<Seq<char>>,
    pub expr: Option<Seq<char>>,
    pub file: Option<Seq<char>>,
    pub arg: Seq<(Seq<char>, Seq<char>)>,
    pub argstr: Seq<(Seq<char>, Seq<char>)>,
    pub override_input: Seq<(Seq<char>, Seq<char>)>,
    pub option: Seq<(Seq<char>, Seq<char>)>,
    pub remote: Seq<RemoteView>,
    pub meta: bool,
    pub show_input_drvs: bool,
    pub workers: nat,
    pub max_memory: nat,
    pub force_recurse: bool,
    pub gc_roots_dir: Option<Seq<char>>,
}

impl View for EvalInput {
    type V = EvalInputView;

    open spec fn view(&self) -> EvalInputView {
        EvalInputView {
            flake: self.flake.deep_view(),
            expr: self.expr.deep_view(),
            file: self.file.deep_view(),
            arg: self.arg.deep_view(),
            argstr: self.argstr.deep_view(),
            override_input: self.override_input.deep_view(),
            option: self.option.deep_view(),
            remote: self.remote.deep_view(),
            meta: self.meta,
            show_input_drvs: self.show_input_drvs,
            workers: self.workers as nat,
            max_memory: self.max_memory as nat,
            force_recurse: self.force_recurse,
            gc_roots_dir: self.gc_roots_dir.deep_view(),
        }
    }
}

/// A subcommand with its options.
pub enum Commands {
    Eval { input: EvalInput, socket: Option<String>, no_daemon: bool },
    Watch { input: EvalInput, socket: Option<String>, no_daemon: bool },
    Query {
        input: EvalInput,
        socket: Option<String>,
        system: Vec<String>,
        attr_prefix: Vec<String>,
        no_daemon: bool,
    },
    Diff { input: EvalInput, socket: Option<String> },
    Daemon { socket: Option<String>, foreground: bool },
    Worker { listen: String },
}

pub enum CommandsView {
    Eval { input: EvalInputView, socket: Option<Seq<char>>, no_daemon: bool },
    Watch { input: EvalInputView, socket: Option<Seq<char>>, no_daemon: bool },
    Query {
        input: EvalInputView,
        socket: Option<Seq<char>>,
        system: Seq<Seq<char>>,
        attr_prefix: Seq<Seq<char>>,
        no_daemon: bool,
    },
    Diff { input: EvalInputView, socket: Option<Seq<char>> },
    Daemon { socket: Option<Seq<char>>, foreground: bool },
    Worker { listen: Seq<char> },
}

impl View for Commands {
    type V = CommandsView;

    open spec fn view(&self) -> CommandsView {
        match self {
            Commands::Eval { input, socket, no_daemon } => CommandsView::Eval {
                input: input@,
                socket: socket.deep_view(),
                no_daemon: *no_daemon,
            },
            Commands::Watch { input, socket, no_daemon } => CommandsView::Watch {
                input: input@,
                socket: socket.deep_view(),
                no_daemon: *no_daemon,
            },
            Commands::Query { input, socket, system, attr_prefix, no_daemon } => {
                CommandsView::Query {
                    input: input@,
                    socket: socket.deep_view(),
                    system: system.deep_view(),
                    attr_prefix: attr_prefix.deep_view(),
                    no_daemon: *no_daemon,
                }
            },
            Commands::Diff { input, socket } => CommandsView::Diff {
                input: input@,
                socket: socket.deep_view(),
            },
            Commands::Daemon { socket, foreground } => CommandsView::Daemon {
                socket: socket.deep_view(),
                foreground: *foreground,
            },
            Commands::Worker { listen } => CommandsView::Worker { listen: listen@ },
        }
    }
}

/// What there is to do.
#[derive(Debug)]
pub enum CommandPlan {
    Eval { config: Config, socket: Option<String>, use_daemon: bool },
    Watch { config: Config, socket: Option<String>, use_daemon: bool },
    Query { config: Config, filter: Filter, socket: Option<String> },
    Diff { config: Config, socket: Option<String> },
    Daemon { socket: Option<String>, foreground: bool },
    Worker { listen: String },
}

pub enum CommandPlanView {
    Eval { config: ConfigView, socket: Option<Seq<char>>, use_daemon: bool },
    Watch { config: ConfigView, socket: Option<Seq<char>>, use_daemon: bool },
    Query { config: ConfigView, filter: FilterView, socket: Option<Seq<char>> },
    Diff { config: ConfigView, socket: Option<Seq<char>> },
    Daemon { socket: Option<Seq<char>>, foreground: bool },
    Worker { listen: Seq<char> },
}

impl View for CommandPlan {
    type V = CommandPlanView;

    open spec fn view(&self) -> CommandPlanView {
        match self {
            CommandPlan::Eval { config, socket, use_daemon } => CommandPlanView::Eval {
                config: config@,
                socket: socket.deep_view(),
                use_daemon: *use_daemon,
            },
            CommandPlan::Watch { config, socket, use_daemon } => CommandPlanView::Watch {
                config: config@,
                socket: socket.deep_view(),
                use_daemon: *use_daemon,
            },
            CommandPlan::Query { config, filter, socket } => CommandPlanView::Query {
                config: config@,
                filter: filter@,
                socket: socket.deep_view(),
            },
            CommandPlan::Diff { config, socket } => CommandPlanView::Diff {
                config: config@,
                socket: socket.deep_view(),
            },
            CommandPlan::Daemon { socket, foreground } => CommandPlanView::Daemon {
                socket: socket.deep_view(),
                foreground: *foreground,
            },
            CommandPlan::Worker { listen } => CommandPlanView::Worker { listen: listen@ },
        }
    }
}

/// How much is logged.
#[derive(Clone, Copy, PartialEq, Eq, Structural, Debug)]
pub struct Verbosity {
    pub verbose: u8,
    pub quiet: u8,
}

impl Default for Verbosity {
    fn default() -> (verbosity: Self)
        ensures
            verbosity == (Verbosity { verbose: 0, quiet: 0 }),
    {
        Verbosity { verbose: 0, quiet: 0 }
    }
}

/// The arguments for functions that are called automatically: the expressions, then the strings.
pub open spec fn auto_args_of(
    expr_args: Seq<(Seq<char>, Seq<char>)>,
    str_args: Seq<(Seq<char>, Seq<char>)>,
) -> Seq<(Seq<char>, AutoArgView)> {
    expr_args.map_values(
        |pair: (Seq<char>, Seq<char>)| (pair.0, AutoArgView::Expr(pair.1)),
    ) + str_args.map_values(|pair: (Seq<char>, Seq<char>)| (pair.0, AutoArgView::Str(pair.1)))
}

/// The arguments for functions that are called automatically: the expressions, then the strings.
pub fn auto_args(expr_args: Vec<Pair>, str_args: Vec<Pair>) -> (args: Vec<(String, AutoArg)>)
    ensures
        args.deep_view() == auto_args_of(expr_args.deep_view(), str_args.deep_view()),
{
    let ghost exprs = expr_args.deep_view();
    let ghost strs = str_args.deep_view();
    let mut args: Vec<(String, AutoArg)> = Vec::new();
    let mut i: usize = 0;
    assert(args.deep_view() =~= auto_args_of(exprs.take(0), strs.take(0)));
    while i < expr_args.len()
        invariant
            exprs == expr_args.deep_view(),
            i <= expr_args@.len(),
            args.deep_view() =~= auto_args_of(exprs.take(i as int), strs.take(0)),
        decreases expr_args@.len() - i,
    {
        let ghost before = args.deep_view();
        let pair = &expr_args[i];
        let one = (pair.name.clone(), AutoArg::Expr(pair.value.clone()));
        args.push(one);
        assert(exprs[i as int] == pair@);
        assert(args.deep_view() =~= before.push(one.deep_view()));
        i += 1;
    }
    let mut k: usize = 0;
    assert(exprs.take(exprs.len() as int) =~= exprs);
    while k < str_args.len()
        invariant
            strs == str_args.deep_view(),
            k <= str_args@.len(),
            args.deep_view() =~= auto_args_of(exprs, strs.take(k as int)),
        decreases str_args@.len() - k,
    {
        let ghost before = args.deep_view();
        let pair = &str_args[k];
        let one = (pair.name.clone(), AutoArg::Str(pair.value.clone()));
        args.push(one);
        assert(strs[k as int] == pair@);
        assert(args.deep_view() =~= before.push(one.deep_view()));
        k += 1;
    }
    assert(strs.take(strs.len() as int) =~= strs);
    args
}

/// Pairs as tuples.
pub fn pairs(values: Vec<Pair>) -> (tuples: Vec<(String, String)>)
    ensures
        tuples.deep_view() == values.deep_view(),
{
    let ghost all = values.deep_view();
    let mut tuples: Vec<(String, String)> = Vec::new();
    let mut i: usize = 0;
    while i < values.len()
        invariant
            all == values.deep_view(),
            i <= values@.len(),
            tuples.deep_view() =~= all.take(i as int),
        decreases values@.len() - i,
    {
        let ghost before = tuples.deep_view();
        let one = (values[i].name.clone(), values[i].value.clone());
        tuples.push(one);
        assert(all[i as int] == values@[i as int]@);
        assert(tuples.deep_view() =~= before.push(one.deep_view()));
        i += 1;
    }
    assert(all.take(all.len() as int) =~= all);
    tuples
}

fn remotes(values: Vec<RemoteArg>) -> (found: Vec<Remote>)
    ensures
        found.deep_view() == values.deep_view(),
{
    let ghost all = values.deep_view();
    let mut found: Vec<Remote> = Vec::new();
    let mut i: usize = 0;
    while i < values.len()
        invariant
            all == values.deep_view(),
            i <= values@.len(),
            found.deep_view() =~= all.take(i as int),
        decreases values@.len() - i,
    {
        let ghost before = found.deep_view();
        let one = Remote {
            endpoint: values[i].endpoint.clone(),
            systems: values[i].systems.duplicate(),
            workers: values[i].workers,
        };
        found.push(one);
        assert(all[i as int] == values@[i as int]@);
        assert(found.deep_view() =~= before.push(one@));
        i += 1;
    }
    assert(all.take(all.len() as int) =~= all);
    found
}

/// The configuration that options stand for: they name exactly one input.
pub open spec fn config_of(args: EvalInputView) -> Result<ConfigView, PlanErrorView> {
    let input = match (args.flake, args.expr, args.file) {
        (Some(flake), None, None) => Some(InputView::Flake(flake)),
        (None, Some(expr), None) => Some(InputView::Expr(expr)),
        (None, None, Some(file)) => Some(InputView::File(file)),
        _ => None,
    };
    match input {
        None => Err(PlanErrorView::NotOneInput),
        Some(input) => Ok(
            ConfigView {
                input,
                auto_args: auto_args_of(args.arg, args.argstr),
                force_recurse: args.force_recurse,
                gc_roots_dir: args.gc_roots_dir,
                workers: args.workers,
                max_memory_size: args.max_memory,
                meta: args.meta,
                show_input_drvs: args.show_input_drvs,
                override_inputs: args.override_input,
                nix_options: args.option,
                remotes: args.remote,
            },
        ),
    }
}

/// The configuration that options stand for.
pub fn config(args: EvalInput) -> (result: Result<Config, PlanError>)
    ensures
        match result {
            Ok(config) => config_of(args@) == Ok::<_, PlanErrorView>(config@),
            Err(error) => config_of(args@) == Err::<ConfigView, _>(error@),
        },
{
    let input = match (args.flake, args.expr, args.file) {
        (Some(flake), None, None) => Input::Flake(flake),
        (None, Some(expr), None) => Input::Expr(expr),
        (None, None, Some(file)) => Input::File(file),
        _ => return Err(PlanError::NotOneInput),
    };
    Ok(
        Config {
            input,
            auto_args: auto_args(args.arg, args.argstr),
            force_recurse: args.force_recurse,
            gc_roots_dir: args.gc_roots_dir,
            workers: args.workers,
            max_memory_size: args.max_memory,
            meta: args.meta,
            show_input_drvs: args.show_input_drvs,
            override_inputs: pairs(args.override_input),
            nix_options: pairs(args.option),
            remotes: remotes(args.remote),
        },
    )
}

/// The names of dotted attribute prefixes one after another, without empty ones.
pub open spec fn prefix_parts(prefixes: Seq<Seq<char>>) -> Seq<Seq<char>>
    decreases prefixes.len(),
{
    if prefixes.len() == 0 {
        Seq::empty()
    } else {
        prefix_parts(prefixes.drop_last()) + without_empty(pieces(prefixes.last(), '.'))
    }
}

/// The filter of a query: options that are not given filter nothing.
pub open spec fn filter_of(systems: Seq<Seq<char>>, prefixes: Seq<Seq<char>>) -> FilterView {
    FilterView {
        systems: if systems.len() == 0 {
            None
        } else {
            Some(systems)
        },
        attr_prefix: if prefixes.len() == 0 {
            None
        } else {
            Some(prefix_parts(prefixes))
        },
        ..no_filter()
    }
}

/// The filter of a query.
pub fn filter(systems: Vec<String>, prefixes: Vec<String>) -> (filter: Filter)
    ensures
        filter@ == filter_of(systems.deep_view(), prefixes.deep_view()),
{
    let ghost all = prefixes.deep_view();
    let mut parts: Vec<String> = Vec::new();
    assert(parts.deep_view() =~= Seq::empty());
    let mut i: usize = 0;
    while i < prefixes.len()
        invariant
            all == prefixes.deep_view(),
            i <= prefixes@.len(),
            parts.deep_view() == prefix_parts(all.take(i as int)),
        decreases prefixes@.len() - i,
    {
        assert(all.take(i + 1).drop_last() =~= all.take(i as int));
        assert(all[i as int] == prefixes@[i as int]@);
        let ghost before = parts.deep_view();
        let mut more = drop_empty(&split(prefixes[i].as_str(), '.'));
        let ghost added = more.deep_view();
        parts.append(&mut more);
        assert(parts.deep_view() =~= before + added);
        i += 1;
    }
    assert(all.take(all.len() as int) =~= all);
    let mut filter = Filter::default();
    if systems.len() > 0 {
        filter.systems = Some(systems);
    }
    if prefixes.len() > 0 {
        filter.attr_prefix = Some(parts);
    }
    filter
}

/// What there is to do for a subcommand.
pub open spec fn plan_of(command: CommandsView) -> Result<CommandPlanView, PlanErrorView> {
    match command {
        CommandsView::Eval { input, socket, no_daemon } => match config_of(input) {
            Ok(config) => Ok(CommandPlanView::Eval { config, socket, use_daemon: !no_daemon }),
            Err(error) => Err(error),
        },
        CommandsView::Watch { input, socket, no_daemon } => match config_of(input) {
            Ok(config) => if config.input is Expr {
                Err(PlanErrorView::WatchesExpr)
            } else {
                Ok(CommandPlanView::Watch { config, socket, use_daemon: !no_daemon })
            },
            Err(error) => Err(error),
        },
        CommandsView::Query { input, socket, system, attr_prefix, .. } => match config_of(input) {
            Ok(config) => Ok(
                CommandPlanView::Query { config, filter: filter_of(system, attr_prefix), socket },
            ),
            Err(error) => Err(error),
        },
        CommandsView::Diff { input, socket } => match config_of(input) {
            Ok(config) => Ok(CommandPlanView::Diff { config, socket }),
            Err(error) => Err(error),
        },
        CommandsView::Daemon { socket, foreground } => Ok(
            CommandPlanView::Daemon { socket, foreground },
        ),
        CommandsView::Worker { listen } => Ok(CommandPlanView::Worker { listen }),
    }
}

/// What there is to do for a subcommand.
pub fn command_plan(command: Commands) -> (result: Result<CommandPlan, PlanError>)
    ensures
        match result {
            Ok(plan) => plan_of(command@) == Ok::<_, PlanErrorView>(plan@),
            Err(error) => plan_of(command@) == Err::<CommandPlanView, _>(error@),
        },
{
    match command {
        Commands::Eval { input, socket, no_daemon } => match config(input) {
            Ok(config) => Ok(CommandPlan::Eval { config, socket, use_daemon: !no_daemon }),
            Err(error) => Err(error),
        },
        Commands::Watch { input, socket, no_daemon } => match config(input) {
            Ok(config) => {
                if let Input::Expr(_) = &config.input {
                    return Err(PlanError::WatchesExpr);
                }
                Ok(CommandPlan::Watch { config, socket, use_daemon: !no_daemon })
            },
            Err(error) => Err(error),
        },
        Commands::Query { input, socket, system, attr_prefix, no_daemon: _ } => match config(
            input,
        ) {
            Ok(config) => Ok(
                CommandPlan::Query { config, filter: filter(system, attr_prefix), socket },
            ),
            Err(error) => Err(error),
        },
        Commands::Diff { input, socket } => match config(input) {
            Ok(config) => Ok(CommandPlan::Diff { config, socket }),
            Err(error) => Err(error),
        },
        Commands::Daemon { socket, foreground } => Ok(CommandPlan::Daemon { socket, foreground }),
        Commands::Worker { listen } => Ok(CommandPlan::Worker { listen }),
    }
}

/// Whether the options name one input, or why not.
pub open spec fn input_error(uses: Seq<UseView>) -> Option<PlanErrorView> {
    let flake = times_used(uses, "flake"@) > 0;
    let expr = times_used(uses, "expr"@) > 0;
    let file = times_used(uses, "file"@) > 0;
    if flake && expr {
        Some(PlanErrorView::Conflict { first: "--flake"@, second: "--expr"@ })
    } else if flake && file {
        Some(PlanErrorView::Conflict { first: "--flake"@, second: "--file"@ })
    } else if expr && file {
        Some(PlanErrorView::Conflict { first: "--expr"@, second: "--file"@ })
    } else if !flake && !expr && !file {
        Some(PlanErrorView::MissingInput)
    } else {
        None
    }
}

fn check_input(uses: &Vec<Use>) -> (error: Option<PlanError>)
    ensures
        match error {
            Some(error) => input_error(uses.deep_view()) == Some(error@),
            None => input_error(uses.deep_view()) is None,
        },
{
    let flake = count_uses(uses, "flake") > 0;
    let expr = count_uses(uses, "expr") > 0;
    let file = count_uses(uses, "file") > 0;
    if flake && expr {
        Some(PlanError::Conflict { first: "--flake".to_owned(), second: "--expr".to_owned() })
    } else if flake && file {
        Some(PlanError::Conflict { first: "--flake".to_owned(), second: "--file".to_owned() })
    } else if expr && file {
        Some(PlanError::Conflict { first: "--expr".to_owned(), second: "--file".to_owned() })
    } else if !flake && !expr && !file {
        Some(PlanError::MissingInput)
    } else {
        None
    }
}

/// The evaluation options that uses of options stand for. Of several values that do not have their
/// option's form, the one whose option comes first here is reported.
pub open spec fn eval_input_of(uses: Seq<UseView>) -> Result<EvalInputView, PlanErrorView> {
    match (
        parsed_pairs("--arg"@, values_of(uses, "arg"@)),
        parsed_pairs("--argstr"@, values_of(uses, "argstr"@)),
        parsed_pairs("--override-input"@, values_of(uses, "override-input"@)),
        parsed_pairs("--option"@, values_of(uses, "option"@)),
        parsed_remotes("--remote"@, values_of(uses, "remote"@)),
        parsed_count("--workers"@, value_of(uses, "workers"@), 1),
        parsed_count("--max-memory"@, value_of(uses, "max-memory"@), 4096),
    ) {
        (Err(error), _, _, _, _, _, _) => Err(error),
        (_, Err(error), _, _, _, _, _) => Err(error),
        (_, _, Err(error), _, _, _, _) => Err(error),
        (_, _, _, Err(error), _, _, _) => Err(error),
        (_, _, _, _, Err(error), _, _) => Err(error),
        (_, _, _, _, _, Err(error), _) => Err(error),
        (_, _, _, _, _, _, Err(error)) => Err(error),
        (
            Ok(arg),
            Ok(argstr),
            Ok(override_input),
            Ok(option),
            Ok(remote),
            Ok(workers),
            Ok(max_memory),
        ) => Ok(
            EvalInputView {
                flake: value_of(uses, "flake"@),
                expr: value_of(uses, "expr"@),
                file: value_of(uses, "file"@),
                arg,
                argstr,
                override_input,
                option,
                remote,
                meta: times_used(uses, "meta"@) > 0,
                show_input_drvs: times_used(uses, "show-input-drvs"@) > 0,
                workers,
                max_memory,
                force_recurse: times_used(uses, "force-recurse"@) > 0,
                gc_roots_dir: value_of(uses, "gc-roots-dir"@),
            },
        ),
    }
}

fn read_eval_input(uses: &Vec<Use>) -> (result: Result<EvalInput, PlanError>)
    ensures
        match result {
            Ok(input) => eval_input_of(uses.deep_view()) == Ok::<_, PlanErrorView>(input@),
            Err(error) => eval_input_of(uses.deep_view()) == Err::<EvalInputView, _>(error@),
        },
{
    let arg = match read_pairs("--arg", &values(uses, "arg")) {
        Ok(pairs) => pairs,
        Err(error) => return Err(error),
    };
    let argstr = match read_pairs("--argstr", &values(uses, "argstr")) {
        Ok(pairs) => pairs,
        Err(error) => return Err(error),
    };
    let override_input = match read_pairs("--override-input", &values(uses, "override-input")) {
        Ok(pairs) => pairs,
        Err(error) => return Err(error),
    };
    let option = match read_pairs("--option", &values(uses, "option")) {
        Ok(pairs) => pairs,
        Err(error) => return Err(error),
    };
    let remote = match read_remotes("--remote", &values(uses, "remote")) {
        Ok(remotes) => remotes,
        Err(error) => return Err(error),
    };
    let workers: usize = match read_count("--workers", value(uses, "workers"), 1) {
        Ok(n) => n,
        Err(error) => return Err(error),
    };
    let max_memory: usize = match read_count("--max-memory", value(uses, "max-memory"), 4096) {
        Ok(n) => n,
        Err(error) => return Err(error),
    };
    Ok(
        EvalInput {
            flake: value(uses, "flake"),
            expr: value(uses, "expr"),
            file: value(uses, "file"),
            arg,
            argstr,
            override_input,
            option,
            remote,
            meta: count_uses(uses, "meta") > 0,
            show_input_drvs: count_uses(uses, "show-input-drvs") > 0,
            workers,
            max_memory,
            force_recurse: count_uses(uses, "force-recurse") > 0,
            gc_roots_dir: value(uses, "gc-roots-dir"),
        },
    )
}

/// The subcommand of a sorted line with its options.
pub open spec fn command_of(line: LineView) -> Result<CommandsView, PlanErrorView> {
    let uses = line.uses;
    match line.verb {
        None => Err(PlanErrorView::MissingVerb),
        Some(Verb::Daemon) => Ok(
            CommandsView::Daemon {
                socket: value_of(uses, "socket"@),
                foreground: times_used(uses, "foreground"@) > 0,
            },
        ),
        Some(Verb::Worker) => match value_of(uses, "listen"@) {
            Some(listen) => Ok(CommandsView::Worker { listen }),
            None => Err(PlanErrorView::MissingOption("--listen"@)),
        },
        Some(verb) => match input_error(uses) {
            Some(error) => Err(error),
            None => match eval_input_of(uses) {
                Err(error) => Err(error),
                Ok(input) => Ok(
                    match verb {
                        Verb::Eval => CommandsView::Eval {
                            input,
                            socket: value_of(uses, "socket"@),
                            no_daemon: times_used(uses, "no-daemon"@) > 0,
                        },
                        Verb::Watch => CommandsView::Watch {
                            input,
                            socket: value_of(uses, "socket"@),
                            no_daemon: times_used(uses, "no-daemon"@) > 0,
                        },
                        Verb::Query => CommandsView::Query {
                            input,
                            socket: value_of(uses, "socket"@),
                            system: values_of(uses, "system"@),
                            attr_prefix: values_of(uses, "attr-prefix"@),
                            no_daemon: times_used(uses, "no-daemon"@) > 0,
                        },
                        _ => CommandsView::Diff { input, socket: value_of(uses, "socket"@) },
                    },
                ),
            },
        },
    }
}

fn read_command(line: &Line) -> (result: Result<Commands, PlanError>)
    ensures
        match result {
            Ok(command) => command_of(line@) == Ok::<_, PlanErrorView>(command@),
            Err(error) => command_of(line@) == Err::<CommandsView, _>(error@),
        },
{
    let uses = &line.uses;
    let verb = match line.verb {
        None => return Err(PlanError::MissingVerb),
        Some(verb) => verb,
    };
    if verb == Verb::Daemon {
        return Ok(
            Commands::Daemon {
                socket: value(uses, "socket"),
                foreground: count_uses(uses, "foreground") > 0,
            },
        );
    }
    if verb == Verb::Worker {
        return match value(uses, "listen") {
            Some(listen) => Ok(Commands::Worker { listen }),
            None => Err(PlanError::MissingOption("--listen".to_owned())),
        };
    }
    if let Some(error) = check_input(uses) {
        return Err(error);
    }
    let input = match read_eval_input(uses) {
        Ok(input) => input,
        Err(error) => return Err(error),
    };
    let socket = value(uses, "socket");
    let no_daemon = count_uses(uses, "no-daemon") > 0;
    Ok(
        match verb {
            Verb::Eval => Commands::Eval { input, socket, no_daemon },
            Verb::Watch => Commands::Watch { input, socket, no_daemon },
            Verb::Query => Commands::Query {
                input,
                socket,
                system: values(uses, "system"),
                attr_prefix: values(uses, "attr-prefix"),
                no_daemon,
            },
            _ => Commands::Diff { input, socket },
        },
    )
}

/// How much is logged: each use of the option counts, wherever on the line it stands, up to what a
/// byte holds.
pub open spec fn verbosity_of(uses: Seq<UseView>) -> Verbosity {
    Verbosity {
        verbose: (times_used(uses, "verbose"@) % 256) as u8,
        quiet: (times_used(uses, "quiet"@) % 256) as u8,
    }
}

/// What a command line asks for.
pub open spec fn parsed_plan(words: Seq<Seq<char>>) -> Result<
    (Verbosity, CommandPlanView),
    PlanErrorView,
> {
    match normalized(words) {
        Err(error) => Err(error),
        Ok(words) => match sorted_line(None, words, false) {
            Err(error) => Err(error),
            Ok(line) => match command_of(line) {
                Err(error) => Err(error),
                Ok(command) => match plan_of(command) {
                    Err(error) => Err(error),
                    Ok(plan) => Ok((verbosity_of(line.uses), plan)),
                },
            },
        },
    }
}

/// Reads what a command line asks for. Help and version requests come back as errors.
pub fn parse_plan_from(args: &Vec<String>) -> (result: Result<(Verbosity, CommandPlan), PlanError>)
    ensures
        match result {
            Ok((verbosity, plan)) => parsed_plan(args.deep_view()) == Ok::<_, PlanErrorView>(
                (verbosity, plan@),
            ),
            Err(error) => parsed_plan(args.deep_view()) == Err::<(Verbosity, CommandPlanView), _>(
                error@,
            ),
        },
{
    let words = match normalize_args(args) {
        Ok(words) => words,
        Err(error) => return Err(error),
    };
    let line = match sort_line(&words) {
        Ok(line) => line,
        Err(error) => return Err(error),
    };
    let command = match read_command(&line) {
        Ok(command) => command,
        Err(error) => return Err(error),
    };
    let plan = match command_plan(command) {
        Ok(plan) => plan,
        Err(error) => return Err(error),
    };
    let verbosity = Verbosity {
        verbose: (count_uses(&line.uses, "verbose") % 256) as u8,
        quiet: (count_uses(&line.uses, "quiet") % 256) as u8,
    };
    Ok((verbosity, plan))
}

/// The log level for a verbosity, in words of a log filter.
pub open spec fn level_of(verbosity: Verbosity) -> Seq<char> {
    let balance = verbosity.verbose - verbosity.quiet;
    if balance <= -3 {
        "off"@
    } else if balance == -2 {
        "error"@
    } else if balance == -1 {
        "warn"@
    } else if balance == 0 {
        "info"@
    } else if balance == 1 {
        "debug"@
    } else {
        "trace"@
    }
}

impl Verbosity {
    /// The log level, in words of a log filter.
    pub fn level(&self) -> (level: &'static str)
        ensures
            level@ == level_of(*self),
    {
        let balance: i16 = self.verbose as i16 - self.quiet as i16;
        if balance <= -3 {
            "off"
        } else if balance == -2 {
            "error"
        } else if balance == -1 {
            "warn"
        } else if balance == 0 {
            "info"
        } else if balance == 1 {
            "debug"
        } else {
            "trace"
        }
    }
}

/// Exactly one input is required: of the options that name one, just one is used.
pub proof fn law_exactly_one_input(uses: Seq<UseView>)
    ensures
        input_error(uses) is None <==> ({
            let flake = times_used(uses, "flake"@) > 0;
            let expr = times_used(uses, "expr"@) > 0;
            let file = times_used(uses, "file"@) > 0;
            (flake && !expr && !file) || (!flake && expr && !file) || (!flake && !expr && file)
        }),
{
}

/// A watch is never one of an inline expression.
pub proof fn law_watches_are_of_files(words: Seq<Seq<char>>)
    ensures
        parsed_plan(words) matches Ok((_, CommandPlanView::Watch { config, .. })) ==> !(
        config.input is Expr),
{
}

/// The values of an option come in the order of its uses: those of two stretches of a line are those
/// of the one and then those of the other. A use of another option, or without a value, adds none.
pub proof fn law_values_keep_their_order(
    one: Seq<UseView>,
    two: Seq<UseView>,
    name: Seq<char>,
    other: UseView,
)
    ensures
        values_of(one + two, name) == values_of(one, name) + values_of(two, name),
        values_of(Seq::empty(), name).len() == 0,
        other.name == name && other.value is Some ==> values_of(seq![other], name) == seq![
            other.value->0,
        ],
        other.name != name || other.value is None ==> values_of(seq![other], name).len() == 0,
        times_used(one + two, name) == times_used(one, name) + times_used(two, name),
        times_used(Seq::empty(), name) == 0,
        times_used(seq![other], name) == (if other.name == name {
            1nat
        } else {
            0nat
        }),
    decreases two.len(),
{
    let single = seq![other];
    assert(single.drop_last() =~= Seq::empty());
    assert(values_of(single.drop_last(), name) =~= Seq::empty());
    assert(times_used(single.drop_last(), name) == 0);
    if other.value is Some {
        assert(Seq::<Seq<char>>::empty().push(other.value->0) =~= seq![other.value->0]);
    }
    if two.len() == 0 {
        assert(one + two =~= one);
        assert(values_of(one, name) + values_of(two, name) =~= values_of(one, name));
    } else {
        law_values_keep_their_order(one, two.drop_last(), name, other);
        assert((one + two).drop_last() =~= one + two.drop_last());
        assert(values_of(one + two, name) =~= values_of(one, name) + values_of(two, name));
    }
}

/// Of several values of an option that takes effect once, the last one does.
pub proof fn law_last_value_takes_effect(
    uses: Seq<UseView>,
    name: Seq<char>,
    value: Seq<char>,
    other: UseView,
)
    ensures
        value_of(uses.push(UseView { name, value: Some(value) }), name) == Some(value),
        other.name != name ==> value_of(uses.push(other), name) == value_of(uses, name),
        value_of(Seq::empty(), name) is None,
{
    assert(uses.push(UseView { name, value: Some(value) }).drop_last() =~= uses);
    assert(uses.push(other).drop_last() =~= uses);
}

/// A pair is read from a name and a value that were packed; what was not packed is none.
pub proof fn law_pairs_are_unpacked(name: Seq<char>, value: Seq<char>)
    requires
        !name.contains(PACK_SEP),
    ensures
        parsed_pair(name.push(PACK_SEP) + value) == Ok::<_, Seq<char>>((name, value)),
        parsed_pair(name) == Err::<(Seq<char>, Seq<char>), _>("expected packed NAME VALUE"@),
{
    law_halves(name, PACK_SEP, value);
}

/// The parts that are not empty stay, in order.
pub proof fn law_empty_parts_are_dropped(
    one: Seq<Seq<char>>,
    two: Seq<Seq<char>>,
    part: Seq<char>,
)
    ensures
        without_empty(one + two) == without_empty(one) + without_empty(two),
        without_empty(Seq::empty()).len() == 0,
        part.len() > 0 ==> without_empty(seq![part]) == seq![part],
        part.len() == 0 ==> without_empty(seq![part]).len() == 0,
    decreases two.len(),
{
    let single = seq![part];
    assert(single.drop_last() =~= Seq::empty());
    assert(without_empty(single.drop_last()) =~= Seq::empty());
    assert(Seq::<Seq<char>>::empty().push(part) =~= seq![part]);
    if two.len() == 0 {
        assert(one + two =~= one);
        assert(without_empty(one) + without_empty(two) =~= without_empty(one));
    } else {
        law_empty_parts_are_dropped(one, two.drop_last(), part);
        assert((one + two).drop_last() =~= one + two.drop_last());
        assert(without_empty(one + two) =~= without_empty(one) + without_empty(two));
    }
}

proof fn lemma_nothing_empty(parts: Seq<Seq<char>>)
    requires
        forall|i: int| 0 <= i < parts.len() ==> (#[trigger] parts[i]).len() > 0,
    ensures
        without_empty(parts) == parts,
    decreases parts.len(),
{
    if parts.len() > 0 {
        let shorter = parts.drop_last();
        assert forall|i: int| 0 <= i < shorter.len() implies (#[trigger] shorter[i]).len() > 0 by {
            assert(parts[i].len() > 0);
        }
        lemma_nothing_empty(shorter);
        assert(parts[parts.len() - 1].len() > 0);
        assert(shorter.push(parts.last()) =~= parts);
    } else {
        assert(without_empty(parts) =~= parts);
    }
}

/// A remote pool is read from its endpoint, its systems separated by commas, and its number of
/// workers: every listed system counts, and an empty list stays empty. A pool without workers is
/// refused, and so is one whose number of workers is none.
pub proof fn law_remotes_are_read(
    endpoint: Seq<char>,
    systems: Seq<Seq<char>>,
    count: Seq<char>,
)
    requires
        !endpoint.contains(PACK_SEP),
        !joined(systems, seq![',']).contains(PACK_SEP),
        forall|i: int|
            0 <= i < systems.len() ==> (#[trigger] systems[i]).len() > 0 && !systems[i].contains(
                ',',
            ),
    ensures
        ({
            let text = endpoint.push(PACK_SEP) + (joined(systems, seq![',']).push(PACK_SEP)
                + count);
            match parsed_number(count) {
                Ok(workers) => {
                    &&& workers > 0 ==> parsed_remote(text) == Ok::<_, Seq<char>>(
                        RemoteView { endpoint, systems, workers },
                    )
                    &&& workers == 0 ==> parsed_remote(text) == Err::<RemoteView, _>(
                        "worker count must be greater than zero"@,
                    )
                },
                Err(error) => parsed_remote(text) == Err::<RemoteView, _>(error.spec_message()),
            }
        }),
        parsed_remote(endpoint) == Err::<RemoteView, _>("expected systems"@),
        parsed_remote(endpoint.push(PACK_SEP) + joined(systems, seq![','])) == Err::<RemoteView, _>(
            "expected worker count"@,
        ),
{
    let listed = joined(systems, seq![',']);
    law_halves(endpoint, PACK_SEP, listed.push(PACK_SEP) + count);
    law_halves(endpoint, PACK_SEP, listed);
    law_halves(listed, PACK_SEP, count);
    if systems.len() > 0 {
        law_joined_parts_are_pieces(systems, ',');
        lemma_nothing_empty(systems);
    } else {
        assert(listed =~= Seq::empty());
        assert(pieces(listed, ',') =~= seq![Seq::<char>::empty()]);
        law_empty_parts_are_dropped(Seq::empty(), Seq::empty(), Seq::empty());
        assert(without_empty(pieces(listed, ',')) =~= systems);
    }
}

proof fn lemma_pairs_len(option: Seq<char>, values: Seq<Seq<char>>)
    ensures
        parsed_pairs(option, values) is Ok ==> parsed_pairs(option, values)->Ok_0.len()
            == values.len(),
        parsed_remotes(option, values) is Ok ==> parsed_remotes(option, values)->Ok_0.len()
            == values.len(),
    decreases values.len(),
{
    if values.len() > 0 {
        lemma_pairs_len(option, values.drop_last());
    }
}

/// Every value of a paired option is read, each in its place; one that is no pair spoils the line.
pub proof fn law_every_pair_is_read(option: Seq<char>, values: Seq<Seq<char>>, i: int)
    requires
        0 <= i < values.len(),
    ensures
        parsed_pairs(option, values) is Ok ==> parsed_pairs(option, values)->Ok_0.len()
            == values.len() && parsed_pair(values[i]) == Ok::<_, Seq<char>>(
            parsed_pairs(option, values)->Ok_0[i],
        ),
        parsed_pair(values[i]) is Err && (forall|k: int|
            0 <= k < i ==> parsed_pair(#[trigger] values[k]) is Ok) ==> parsed_pairs(option, values)
            == Err::<Seq<(Seq<char>, Seq<char>)>, _>(
            PlanErrorView::BadValue {
                option,
                value: values[i],
                reason: parsed_pair(values[i])->Err_0,
            },
        ),
        (forall|k: int| 0 <= k < values.len() ==> parsed_pair(#[trigger] values[k]) is Ok)
            ==> parsed_pairs(option, values) is Ok,
    decreases values.len(),
{
    let shorter = values.drop_last();
    lemma_pairs_len(option, values);
    lemma_pairs_len(option, shorter);
    lemma_good_pairs(option, values);
    if i < shorter.len() {
        law_every_pair_is_read(option, shorter, i);
        assert(shorter[i] == values[i]);
        if forall|k: int| 0 <= k < i ==> parsed_pair(#[trigger] values[k]) is Ok {
            assert forall|k: int| 0 <= k < i implies parsed_pair(#[trigger] shorter[k]) is Ok by {
                assert(parsed_pair(values[k]) is Ok);
            }
        }
    } else if forall|k: int| 0 <= k < i ==> parsed_pair(#[trigger] values[k]) is Ok {
        assert forall|k: int| 0 <= k < shorter.len() implies parsed_pair(
            #[trigger] shorter[k],
        ) is Ok by {
            assert(parsed_pair(values[k]) is Ok);
        }
        lemma_good_pairs(option, shorter);
    }
}

proof fn lemma_good_pairs(option: Seq<char>, values: Seq<Seq<char>>)
    ensures
        (forall|k: int| 0 <= k < values.len() ==> parsed_pair(#[trigger] values[k]) is Ok)
            ==> parsed_pairs(option, values) is Ok,
    decreases values.len(),
{
    if values.len() > 0 && forall|k: int|
        0 <= k < values.len() ==> parsed_pair(#[trigger] values[k]) is Ok {
        let shorter = values.drop_last();
        assert forall|k: int| 0 <= k < shorter.len() implies parsed_pair(
            #[trigger] shorter[k],
        ) is Ok by {
            assert(parsed_pair(values[k]) is Ok);
        }
        lemma_good_pairs(option, shorter);
        assert(parsed_pair(values[values.len() - 1]) is Ok);
    }
}

/// Every remote pool is read, each in its place; one that is none spoils the line.
pub proof fn law_every_remote_is_read(option: Seq<char>, values: Seq<Seq<char>>, i: int)
    requires
        0 <= i < values.len(),
    ensures
        parsed_remotes(option, values) is Ok ==> parsed_remotes(option, values)->Ok_0.len()
            == values.len() && parsed_remote(values[i]) == Ok::<_, Seq<char>>(
            parsed_remotes(option, values)->Ok_0[i],
        ),
        parsed_remote(values[i]) is Err && (forall|k: int|
            0 <= k < i ==> parsed_remote(#[trigger] values[k]) is Ok) ==> parsed_remotes(
            option,
            values,
        ) == Err::<Seq<RemoteView>, _>(
            PlanErrorView::BadValue {
                option,
                value: values[i],
                reason: parsed_remote(values[i])->Err_0,
            },
        ),
        (forall|k: int| 0 <= k < values.len() ==> parsed_remote(#[trigger] values[k]) is Ok)
            ==> parsed_remotes(option, values) is Ok,
    decreases values.len(),
{
    let shorter = values.drop_last();
    lemma_pairs_len(option, values);
    lemma_pairs_len(option, shorter);
    lemma_good_remotes(option, values);
    if i < shorter.len() {
        law_every_remote_is_read(option, shorter, i);
        assert(shorter[i] == values[i]);
        if forall|k: int| 0 <= k < i ==> parsed_remote(#[trigger] values[k]) is Ok {
            assert forall|k: int| 0 <= k < i implies parsed_remote(#[trigger] shorter[k]) is Ok by {
                assert(parsed_remote(values[k]) is Ok);
            }
        }
    } else if forall|k: int| 0 <= k < i ==> parsed_remote(#[trigger] values[k]) is Ok {
        assert forall|k: int| 0 <= k < shorter.len() implies parsed_remote(
            #[trigger] shorter[k],
        ) is Ok by {
            assert(parsed_remote(values[k]) is Ok);
        }
        lemma_good_remotes(option, shorter);
    }
}

proof fn lemma_good_remotes(option: Seq<char>, values: Seq<Seq<char>>)
    ensures
        (forall|k: int| 0 <= k < values.len() ==> parsed_remote(#[trigger] values[k]) is Ok)
            ==> parsed_remotes(option, values) is Ok,
    decreases values.len(),
{
    if values.len() > 0 && forall|k: int|
        0 <= k < values.len() ==> parsed_remote(#[trigger] values[k]) is Ok {
        let shorter = values.drop_last();
        assert forall|k: int| 0 <= k < shorter.len() implies parsed_remote(
            #[trigger] shorter[k],
        ) is Ok by {
            assert(parsed_remote(values[k]) is Ok);
        }
        lemma_good_remotes(option, shorter);
        assert(parsed_remote(values[values.len() - 1]) is Ok);
    }
}

/// An option that sets a number sets the one that is written, or its default where it is not used; a
/// value that is no number is refused with the reason.
pub proof fn law_counts_are_read(option: Seq<char>, text: Seq<char>, default: nat)
    ensures
        parsed_count(option, None, default) == Ok::<_, PlanErrorView>(default),
        match parsed_number(text) {
            Ok(n) => parsed_count(option, Some(text), default) == Ok::<_, PlanErrorView>(n),
            Err(error) => parsed_count(option, Some(text), default) == Err::<nat, _>(
                PlanErrorView::BadValue { option, value: text, reason: error.spec_message() },
            ),
        },
{
}

/// The arguments that are expressions come before those that are strings, each group in order.
pub proof fn law_arguments_keep_their_kind(
    exprs: Seq<(Seq<char>, Seq<char>)>,
    strs: Seq<(Seq<char>, Seq<char>)>,
    i: int,
)
    ensures
        auto_args_of(exprs, strs).len() == exprs.len() + strs.len(),
        0 <= i < exprs.len() ==> auto_args_of(exprs, strs)[i] == (
            exprs[i].0,
            AutoArgView::Expr(exprs[i].1),
        ),
        0 <= i < strs.len() ==> auto_args_of(exprs, strs)[exprs.len() + i] == (
            strs[i].0,
            AutoArgView::Str(strs[i].1),
        ),
{
}

/// Every option reaches the configuration unchanged, and the input is the one that is named; naming
/// none or several is refused.
pub proof fn law_options_reach_the_configuration(args: EvalInputView)
    ensures
        config_of(args) is Ok ==> ({
            let config = config_of(args)->Ok_0;
            &&& config.auto_args == auto_args_of(args.arg, args.argstr)
            &&& config.force_recurse == args.force_recurse
            &&& config.gc_roots_dir == args.gc_roots_dir
            &&& config.workers == args.workers
            &&& config.max_memory_size == args.max_memory
            &&& config.meta == args.meta
            &&& config.show_input_drvs == args.show_input_drvs
            &&& config.override_inputs == args.override_input
            &&& config.nix_options == args.option
            &&& config.remotes == args.remote
            &&& match config.input {
                InputView::Flake(text) => args.flake == Some(text) && args.expr is None
                    && args.file is None,
                InputView::Expr(text) => args.expr == Some(text) && args.flake is None
                    && args.file is None,
                InputView::File(text) => args.file == Some(text) && args.flake is None
                    && args.expr is None,
            }
        }),
        config_of(args) is Err ==> config_of(args) == Err::<ConfigView, _>(
            PlanErrorView::NotOneInput,
        ),
        config_of(args) is Ok <==> {
            ||| args.flake is Some && args.expr is None && args.file is None
            ||| args.flake is None && args.expr is Some && args.file is None
            ||| args.flake is None && args.expr is None && args.file is Some
        },
{
}

/// The names of dotted prefixes follow each other: those of two lists are those of the one and then
/// those of the other.
pub proof fn law_prefixes_follow_each_other(
    one: Seq<Seq<char>>,
    two: Seq<Seq<char>>,
    names: Seq<Seq<char>>,
)
    requires
        names.len() > 0,
        forall|i: int|
            0 <= i < names.len() ==> (#[trigger] names[i]).len() > 0 && !names[i].contains('.'),
    ensures
        prefix_parts(one + two) == prefix_parts(one) + prefix_parts(two),
        prefix_parts(Seq::empty()).len() == 0,
        prefix_parts(seq![joined(names, seq!['.'])]) == names,
    decreases two.len(),
{
    let dotted = joined(names, seq!['.']);
    let single = seq![dotted];
    law_joined_parts_are_pieces(names, '.');
    lemma_nothing_empty(names);
    assert(single.drop_last() =~= Seq::empty());
    assert(prefix_parts(single.drop_last()) =~= Seq::empty());
    assert(Seq::<Seq<char>>::empty() + names =~= names);
    if two.len() == 0 {
        assert(one + two =~= one);
        assert(prefix_parts(one) + prefix_parts(two) =~= prefix_parts(one));
    } else {
        law_prefixes_follow_each_other(one, two.drop_last(), names);
        assert((one + two).drop_last() =~= one + two.drop_last());
        assert(prefix_parts(one + two) =~= prefix_parts(one) + prefix_parts(two));
    }
}

/// A query filters by all of the systems that are given, and by the attribute prefix; what is not
/// given filters nothing, and there are no other parts.
pub proof fn law_query_filters(systems: Seq<Seq<char>>, prefixes: Seq<Seq<char>>)
    ensures
        ({
            let filter = filter_of(systems, prefixes);
            &&& systems.len() == 0 ==> filter.systems is None
            &&& systems.len() > 0 ==> filter.systems == Some(systems)
            &&& prefixes.len() == 0 ==> filter.attr_prefix is None
            &&& prefixes.len() > 0 ==> filter.attr_prefix == Some(prefix_parts(prefixes))
            &&& filter.attr_prefixes is None
            &&& filter.attrs is None
            &&& filter.names is None
            &&& filter.drv_paths is None
            &&& filter.include_patterns is None
            &&& filter.exclude_patterns is None
        }),
{
}

/// A subcommand is planned with the configuration of its options, at its socket, with the daemon
/// unless that was ruled out; a watch of an expression is refused.
pub proof fn law_subcommands_are_planned(input: EvalInputView, config: ConfigView, socket: Option<
    Seq<char>,
>, no_daemon: bool, systems: Seq<Seq<char>>, prefixes: Seq<Seq<char>>)
    requires
        config_of(input) == Ok::<_, PlanErrorView>(config),
    ensures
        plan_of(CommandsView::Eval { input, socket, no_daemon }) == Ok::<_, PlanErrorView>(
            CommandPlanView::Eval { config, socket, use_daemon: !no_daemon },
        ),
        !(config.input is Expr) ==> plan_of(CommandsView::Watch { input, socket, no_daemon })
            == Ok::<_, PlanErrorView>(
            CommandPlanView::Watch { config, socket, use_daemon: !no_daemon },
        ),
        config.input is Expr ==> plan_of(CommandsView::Watch { input, socket, no_daemon }) == Err::<
            CommandPlanView,
            _,
        >(PlanErrorView::WatchesExpr),
        plan_of(
            CommandsView::Query { input, socket, system: systems, attr_prefix: prefixes, no_daemon },
        ) == Ok::<_, PlanErrorView>(
            CommandPlanView::Query { config, filter: filter_of(systems, prefixes), socket },
        ),
        plan_of(CommandsView::Diff { input, socket }) == Ok::<_, PlanErrorView>(
            CommandPlanView::Diff { config, socket },
        ),
{
}

/// Services are planned as they are asked for.
pub proof fn law_services_are_planned(
    socket: Option<Seq<char>>,
    foreground: bool,
    listen: Seq<char>,
)
    ensures
        plan_of(CommandsView::Daemon { socket, foreground }) == Ok::<_, PlanErrorView>(
            CommandPlanView::Daemon { socket, foreground },
        ),
        plan_of(CommandsView::Worker { listen }) == Ok::<_, PlanErrorView>(
            CommandPlanView::Worker { listen },
        ),
{
}

/// Each evaluation option is read from the uses of its name: the paired ones and the remotes from all
/// of their values, the others from the last, switches from being used at all. Without a use there
/// is one worker of at most 4096 megabytes.
pub proof fn law_evaluation_options_are_read(uses: Seq<UseView>)
    ensures
        eval_input_of(uses) is Ok ==> ({
            let input = eval_input_of(uses)->Ok_0;
            &&& input.flake == value_of(uses, "flake"@)
            &&& input.expr == value_of(uses, "expr"@)
            &&& input.file == value_of(uses, "file"@)
            &&& parsed_pairs("--arg"@, values_of(uses, "arg"@)) == Ok::<_, PlanErrorView>(input.arg)
            &&& parsed_pairs("--argstr"@, values_of(uses, "argstr"@)) == Ok::<_, PlanErrorView>(
                input.argstr,
            )
            &&& parsed_pairs("--override-input"@, values_of(uses, "override-input"@)) == Ok::<
                _,
                PlanErrorView,
            >(input.override_input)
            &&& parsed_pairs("--option"@, values_of(uses, "option"@)) == Ok::<_, PlanErrorView>(
                input.option,
            )
            &&& parsed_remotes("--remote"@, values_of(uses, "remote"@)) == Ok::<_, PlanErrorView>(
                input.remote,
            )
            &&& value_of(uses, "workers"@) is None ==> input.workers == 1
            &&& value_of(uses, "workers"@) is Some ==> parsed_number(value_of(uses, "workers"@)->0)
                == Ok::<nat, NumberError>(input.workers)
            &&& value_of(uses, "max-memory"@) is None ==> input.max_memory == 4096
            &&& value_of(uses, "max-memory"@) is Some ==> parsed_number(
                value_of(uses, "max-memory"@)->0,
            ) == Ok::<nat, NumberError>(input.max_memory)
            &&& input.meta <==> times_used(uses, "meta"@) > 0
            &&& input.show_input_drvs <==> times_used(uses, "show-input-drvs"@) > 0
            &&& input.force_recurse <==> times_used(uses, "force-recurse"@) > 0
            &&& input.gc_roots_dir == value_of(uses, "gc-roots-dir"@)
        }),
        eval_input_of(uses) is Ok <==> {
            &&& parsed_pairs("--arg"@, values_of(uses, "arg"@)) is Ok
            &&& parsed_pairs("--argstr"@, values_of(uses, "argstr"@)) is Ok
            &&& parsed_pairs("--override-input"@, values_of(uses, "override-input"@)) is Ok
            &&& parsed_pairs("--option"@, values_of(uses, "option"@)) is Ok
            &&& parsed_remotes("--remote"@, values_of(uses, "remote"@)) is Ok
            &&& value_of(uses, "workers"@) is Some ==> parsed_number(
                value_of(uses, "workers"@)->0,
            ) is Ok
            &&& value_of(uses, "max-memory"@) is Some ==> parsed_number(
                value_of(uses, "max-memory"@)->0,
            ) is Ok
        },
{
}

/// A sorted line is the subcommand that it names, with its options; without one it is refused, and so
/// is a worker without an address to listen at.
pub proof fn law_lines_are_commands(uses: Seq<UseView>, input: EvalInputView)
    requires
        input_error(uses) is None,
        eval_input_of(uses) == Ok::<_, PlanErrorView>(input),
    ensures
        ({
            let socket = value_of(uses, "socket"@);
            let no_daemon = times_used(uses, "no-daemon"@) > 0;
            &&& command_of(LineView { verb: Some(Verb::Eval), uses }) == Ok::<_, PlanErrorView>(
                CommandsView::Eval { input, socket, no_daemon },
            )
            &&& command_of(LineView { verb: Some(Verb::Watch), uses }) == Ok::<_, PlanErrorView>(
                CommandsView::Watch { input, socket, no_daemon },
            )
            &&& command_of(LineView { verb: Some(Verb::Query), uses }) == Ok::<_, PlanErrorView>(
                CommandsView::Query {
                    input,
                    socket,
                    system: values_of(uses, "system"@),
                    attr_prefix: values_of(uses, "attr-prefix"@),
                    no_daemon,
                },
            )
            &&& command_of(LineView { verb: Some(Verb::Diff), uses }) == Ok::<_, PlanErrorView>(
                CommandsView::Diff { input, socket },
            )
        }),
{
}

/// The services need no input: the daemon takes its socket and whether it stays in the foreground, a
/// worker the address to listen at. Without a subcommand a line is refused.
pub proof fn law_service_lines(uses: Seq<UseView>)
    ensures
        command_of(LineView { verb: Some(Verb::Daemon), uses }) == Ok::<_, PlanErrorView>(
            CommandsView::Daemon {
                socket: value_of(uses, "socket"@),
                foreground: times_used(uses, "foreground"@) > 0,
            },
        ),
        value_of(uses, "listen"@) is Some ==> command_of(
            LineView { verb: Some(Verb::Worker), uses },
        ) == Ok::<_, PlanErrorView>(CommandsView::Worker { listen: value_of(uses, "listen"@)->0 }),
        value_of(uses, "listen"@) is None ==> command_of(
            LineView { verb: Some(Verb::Worker), uses },
        ) == Err::<CommandsView, _>(PlanErrorView::MissingOption("--listen"@)),
        command_of(LineView { verb: None, uses }) == Err::<CommandsView, _>(
            PlanErrorView::MissingVerb,
        ),
{
}

/// Which two inputs stand in each other's way, or that there is none, is told.
pub proof fn law_input_conflicts(uses: Seq<UseView>)
    ensures
        ({
            let flake = times_used(uses, "flake"@) > 0;
            let expr = times_used(uses, "expr"@) > 0;
            let file = times_used(uses, "file"@) > 0;
            &&& flake && expr ==> input_error(uses) == Some(
                PlanErrorView::Conflict { first: "--flake"@, second: "--expr"@ },
            )
            &&& flake && !expr && file ==> input_error(uses) == Some(
                PlanErrorView::Conflict { first: "--flake"@, second: "--file"@ },
            )
            &&& !flake && expr && file ==> input_error(uses) == Some(
                PlanErrorView::Conflict { first: "--expr"@, second: "--file"@ },
            )
            &&& !flake && !expr && !file ==> input_error(uses) == Some(PlanErrorView::MissingInput)
        }),
{
}

/// Each use of an option for more or less logging counts.
pub proof fn law_verbosity_counts_uses(uses: Seq<UseView>)
    requires
        times_used(uses, "verbose"@) < 256,
        times_used(uses, "quiet"@) < 256,
    ensures
        verbosity_of(uses).verbose == times_used(uses, "verbose"@),
        verbosity_of(uses).quiet == times_used(uses, "quiet"@),
{
}

/// The log level depends on how much more was asked for than less: information by default, one step
/// to debugging and two to tracing; the other way warnings, errors, and then nothing.
pub proof fn law_log_levels(verbosity: Verbosity)
    ensures
        ({
            let balance = verbosity.verbose as int - verbosity.quiet as int;
            &&& balance >= 2 ==> level_of(verbosity) == "trace"@
            &&& balance == 1 ==> level_of(verbosity) == "debug"@
            &&& balance == 0 ==> level_of(verbosity) == "info"@
            &&& balance == -1 ==> level_of(verbosity) == "warn"@
            &&& balance == -2 ==> level_of(verbosity) == "error"@
            &&& balance <= -3 ==> level_of(verbosity) == "off"@
        }),
{
}

proof fn lemma_verb_word(name: Seq<char>, words: Seq<Seq<char>>)
    requires
        name == "eval"@ || name == "watch"@ || name == "query"@ || name == "diff"@,
        normalized(words) is Ok,
    ensures
        normalized(seq![name] + words) == Ok::<_, PlanErrorView>(
            seq![name] + normalized(words)->Ok_0,
        ),
{
    reveal_strlit("eval");
    reveal_strlit("watch");
    reveal_strlit("query");
    reveal_strlit("diff");
    reveal_strlit("--arg");
    reveal_strlit("--argstr");
    reveal_strlit("--override-input");
    reveal_strlit("--option");
    reveal_strlit("--remote");
    assert(name[0] != '-');
    assert(!name.contains('='));
    law_halves(name, '=', name);
    law_other_words_stay(name, words);
}

proof fn lemma_bad_words(name: Seq<char>, words: Seq<Seq<char>>)
    requires
        name == "eval"@,
        normalized(words) is Err,
    ensures
        normalized(seq![name] + words) is Err,
{
    reveal_strlit("eval");
    reveal_strlit("--arg");
    reveal_strlit("--argstr");
    reveal_strlit("--override-input");
    reveal_strlit("--option");
    reveal_strlit("--remote");
    assert(name[0] != '-');
    assert(!name.contains('='));
    law_halves(name, '=', name);
    law_other_words_stay(name, words);
}

proof fn lemma_no_values(uses: Seq<UseView>, name: Seq<char>)
    requires
        forall|i: int| 0 <= i < uses.len() ==> (#[trigger] uses[i]).name != name,
    ensures
        values_of(uses, name).len() == 0,
        times_used(uses, name) == 0,
    decreases uses.len(),
{
    if uses.len() > 0 {
        let shorter = uses.drop_last();
        assert forall|i: int| 0 <= i < shorter.len() implies (#[trigger] shorter[i]).name
            != name by {
            assert(uses[i].name != name);
        }
        lemma_no_values(shorter, name);
        assert(uses[uses.len() - 1].name != name);
    }
}

proof fn lemma_used(uses: Seq<UseView>, i: int)
    requires
        0 <= i < uses.len(),
    ensures
        times_used(uses, uses[i].name) > 0,
    decreases uses.len(),
{
    if i < uses.len() - 1 {
        lemma_used(uses.drop_last(), i);
        assert(uses.drop_last()[i] == uses[i]);
    }
}

/// What is said to `eval` can be said to `watch`, `query` and `diff`, and they do it with the very
/// configuration that `eval` evaluates: a session is found again by saying the same. A watch cannot
/// be one of an expression, and a diff cannot do without the daemon.
pub proof fn law_subcommands_mean_the_same_configuration(words: Seq<Seq<char>>)
    requires
        parsed_plan(seq!["eval"@] + words) is Ok,
    ensures
        ({
            let (verbosity, plan) = parsed_plan(seq!["eval"@] + words)->Ok_0;
            &&& plan is Eval
            &&& !(plan->Eval_config.input is Expr) ==> parsed_plan(seq!["watch"@] + words) == Ok::<
                _,
                PlanErrorView,
            >(
                (
                    verbosity,
                    CommandPlanView::Watch {
                        config: plan->Eval_config,
                        socket: plan->Eval_socket,
                        use_daemon: plan->Eval_use_daemon,
                    },
                ),
            )
            &&& parsed_plan(seq!["query"@] + words) == Ok::<_, PlanErrorView>(
                (
                    verbosity,
                    CommandPlanView::Query {
                        config: plan->Eval_config,
                        filter: no_filter(),
                        socket: plan->Eval_socket,
                    },
                ),
            )
            &&& plan->Eval_use_daemon ==> parsed_plan(seq!["diff"@] + words) == Ok::<
                _,
                PlanErrorView,
            >(
                (
                    verbosity,
                    CommandPlanView::Diff {
                        config: plan->Eval_config,
                        socket: plan->Eval_socket,
                    },
                ),
            )
        }),
{
    if normalized(words) is Err {
        lemma_bad_words("eval"@, words);
    }
    let normal = normalized(words)->Ok_0;
    lemma_verb_word("eval"@, words);
    lemma_verb_word("watch"@, words);
    lemma_verb_word("query"@, words);
    lemma_verb_word("diff"@, words);
    crate::command_line::law_subcommands("eval"@);
    law_subcommand_comes_first("eval"@, normal);
    law_subcommand_comes_first("watch"@, normal);
    law_subcommand_comes_first("query"@, normal);
    law_subcommand_comes_first("diff"@, normal);
    let line = sorted_line(Some(Verb::Eval), normal, false)->Ok_0;
    let uses = line.uses;
    law_subcommands_share_their_options(Verb::Watch, normal, false);
    law_subcommands_share_their_options(Verb::Query, normal, false);
    assert(eval_input_of(uses) is Ok);
    law_lines_are_commands(uses, eval_input_of(uses)->Ok_0);
    assert(shape_of(Some(Verb::Eval), "system"@) is None && shape_of(
        Some(Verb::Eval),
        "attr-prefix"@,
    ) is None) by {
        lemma_query_options();
    }
    assert forall|i: int| 0 <= i < uses.len() implies (#[trigger] uses[i]).name != "system"@
        && uses[i].name != "attr-prefix"@ by {
        assert(shape_of(Some(Verb::Eval), uses[i].name) is Some);
    }
    lemma_no_values(uses, "system"@);
    lemma_no_values(uses, "attr-prefix"@);
    if times_used(uses, "no-daemon"@) == 0 {
        assert forall|i: int| 0 <= i < uses.len() implies (#[trigger] uses[i]).name
            != "no-daemon"@ by {
            lemma_used(uses, i);
        }
        law_subcommands_share_their_options(Verb::Diff, normal, false);
    }
}

proof fn lemma_query_options()
    ensures
        shape_of(Some(Verb::Eval), "system"@) is None,
        shape_of(Some(Verb::Eval), "attr-prefix"@) is None,
{
    reveal_strlit("system");
    reveal_strlit("attr-prefix");
    reveal_strlit("verbose");
    reveal_strlit("quiet");
    reveal_strlit("flake");
    reveal_strlit("expr");
    reveal_strlit("file");
    reveal_strlit("arg");
    reveal_strlit("argstr");
    reveal_strlit("override-input");
    reveal_strlit("option");
    reveal_strlit("remote");
    reveal_strlit("workers");
    reveal_strlit("max-memory");
    reveal_strlit("gc-roots-dir");
    reveal_strlit("socket");
    reveal_strlit("meta");
    reveal_strlit("show-input-drvs");
    reveal_strlit("force-recurse");
    reveal_strlit("no-daemon");
    assert("system"@.len() == 6 && "attr-prefix"@.len() == 11);
    assert("system"@[0] == 's' && "system"@[1] == 'y' && "socket"@[1] == 'o');
    assert("argstr"@[0] == 'a' && "option"@[0] == 'o' && "remote"@[0] == 'r');
    assert("verbose"@.len() == 7 && "quiet"@.len() == 5 && "flake"@.len() == 5 && "expr"@.len()
        == 4 && "file"@.len() == 4 && "arg"@.len() == 3 && "override-input"@.len() == 14);
    assert("workers"@.len() == 7 && "max-memory"@.len() == 10 && "gc-roots-dir"@.len() == 12
        && "meta"@.len() == 4 && "show-input-drvs"@.len() == 15 && "force-recurse"@.len() == 13
        && "no-daemon"@.len() == 9);
}

} // verus!
