//! The options of the one-shot evaluator, which writes the values of paired options one option at
//! a time: `--arg NAME --arg EXPR`.

use vstd::prelude::*;
use vstd::string::*;

use crate::keyed_map::Duplicate;
use crate::types::{AutoArg, AutoArgView, Config, ConfigView, Input, InputView};

verus! {

/// The options of the one-shot evaluator.
#[derive(Debug)]
pub struct Args {
    /// Evaluate a flake output (e.g. `.#hydraJobs`).
    pub flake: Option<String>,
    /// Evaluate an inline Nix expression.
    pub expr: Option<String>,
    /// Evaluate a Nix file.
    pub file: Option<String>,
    /// Pass a Nix expression as an argument (`--arg NAME --arg EXPR` pairs).
    pub arg: Vec<String>,
    /// Pass a string value as an argument (`--argstr NAME --argstr VALUE` pairs).
    pub argstr: Vec<String>,
    /// Override a flake input (`--override-input NAME --override-input REF` pairs).
    pub override_input: Vec<String>,
    /// Set a Nix setting (`--option KEY --option VALUE` pairs).
    pub option: Vec<String>,
    /// Attach each derivation's `meta` attribute to the output.
    pub meta: bool,
    /// Attach each derivation's input derivations (`inputDrvs`) to the output.
    pub show_input_drvs: bool,
    /// Number of worker processes.
    pub workers: usize,
    /// Memory limit per worker in megabytes; a worker restarts when it is exceeded.
    pub max_memory_size: usize,
    /// Recurse into all attrsets, ignoring recurseForDerivations.
    pub force_recurse: bool,
    /// Directory in which to register GC roots for evaluated derivations.
    pub gc_roots_dir: Option<String>,
    /// How often logging verbosity was increased.
    pub verbose: u8,
}

/// The pairs of a list of values, two by two.
pub open spec fn paired(values: Seq<Seq<char>>) -> Seq<(Seq<char>, Seq<char>)> {
    Seq::new(values.len() / 2, |i: int| (values[2 * i], values[2 * i + 1]))
}

/// The message about the first option whose values do not come in pairs.
pub open spec fn usage_error(args: Args) -> Option<Seq<char>> {
    if args.arg@.len() % 2 != 0 {
        Some("--arg requires paired NAME EXPR values: use --arg NAME --arg EXPR"@)
    } else if args.argstr@.len() % 2 != 0 {
        Some("--argstr requires paired NAME VALUE values: use --argstr NAME --argstr VALUE"@)
    } else if args.override_input@.len() % 2 != 0 {
        Some(
            "--override-input requires paired NAME REF values: use --override-input NAME --override-input REF"@,
        )
    } else if args.option@.len() % 2 != 0 {
        Some("--option requires paired KEY VALUE values: use --option KEY --option VALUE"@)
    } else {
        None
    }
}

/// The input that is named; of several, the first of flake, expression and file.
pub open spec fn named_input(args: Args) -> Option<InputView> {
    match (args.flake, args.expr, args.file) {
        (Some(flake), _, _) => Some(InputView::Flake(flake@)),
        (None, Some(expr), _) => Some(InputView::Expr(expr@)),
        (None, None, Some(file)) => Some(InputView::File(file@)),
        (None, None, None) => None,
    }
}

/// The configuration that the options stand for.
pub open spec fn config_of(args: Args) -> ConfigView {
    ConfigView {
        input: named_input(args)->0,
        auto_args: paired(args.arg.deep_view()).map_values(
            |pair: (Seq<char>, Seq<char>)| (pair.0, AutoArgView::Expr(pair.1)),
        ) + paired(args.argstr.deep_view()).map_values(
            |pair: (Seq<char>, Seq<char>)| (pair.0, AutoArgView::Str(pair.1)),
        ),
        force_recurse: args.force_recurse,
        gc_roots_dir: args.gc_roots_dir.deep_view(),
        workers: args.workers as nat,
        max_memory_size: args.max_memory_size as nat,
        meta: args.meta,
        show_input_drvs: args.show_input_drvs,
        override_inputs: paired(args.override_input.deep_view()),
        nix_options: paired(args.option.deep_view()),
        remotes: Seq::empty(),
    }
}

fn pair_up(values: &Vec<String>) -> (result: Option<Vec<(String, String)>>)
    ensures
        match result {
            Some(pairs) => values@.len() % 2 == 0 && pairs.deep_view() == paired(
                values.deep_view(),
            ),
            None => values@.len() % 2 != 0,
        },
{
    if values.len() % 2 != 0 {
        return None;
    }
    let ghost all = values.deep_view();
    let mut pairs: Vec<(String, String)> = Vec::new();
    let mut i: usize = 0;
    while i < values.len()
        invariant
            all == values.deep_view(),
            values@.len() % 2 == 0,
            i % 2 == 0,
            i <= values@.len(),
            pairs.deep_view() =~= paired(all.take(i as int)),
        decreases values@.len() - i,
    {
        let ghost before = pairs.deep_view();
        let one = (values[i].clone(), values[i + 1].clone());
        pairs.push(one);
        assert(pairs.deep_view() =~= before.push(one.deep_view()));
        assert(all[i as int] == values@[i as int]@ && all[i + 1] == values@[i + 1]@);
        i += 2;
    }
    assert(all.take(all.len() as int) =~= all);
    Some(pairs)
}

impl Args {
    /// The configuration that the options stand for, or the message about an option whose values
    /// do not come in pairs. The options name an input.
    pub fn to_config(&self) -> (result: Result<Config, &'static str>)
        requires
            named_input(*self) is Some,
        ensures
            match result {
                Ok(config) => usage_error(*self) is None && config@ == config_of(*self),
                Err(message) => usage_error(*self) == Some(message@),
            },
    {
        let input = if let Some(flake) = &self.flake {
            Input::Flake(flake.clone())
        } else if let Some(expr) = &self.expr {
            Input::Expr(expr.clone())
        } else if let Some(file) = &self.file {
            Input::File(file.clone())
        } else {
            Input::Expr(String::new())
        };
        let exprs = match pair_up(&self.arg) {
            Some(pairs) => pairs,
            None => {
                return Err("--arg requires paired NAME EXPR values: use --arg NAME --arg EXPR");
            },
        };
        let strs = match pair_up(&self.argstr) {
            Some(pairs) => pairs,
            None => {
                return Err(
                    "--argstr requires paired NAME VALUE values: use --argstr NAME --argstr VALUE",
                );
            },
        };
        let override_inputs = match pair_up(&self.override_input) {
            Some(pairs) => pairs,
            None => {
                return Err(
                    "--override-input requires paired NAME REF values: use --override-input NAME --override-input REF",
                );
            },
        };
        let nix_options = match pair_up(&self.option) {
            Some(pairs) => pairs,
            None => {
                return Err(
                    "--option requires paired KEY VALUE values: use --option KEY --option VALUE",
                );
            },
        };
        let config = Config {
            input,
            auto_args: auto_args(&exprs, &strs),
            force_recurse: self.force_recurse,
            gc_roots_dir: self.gc_roots_dir.duplicate(),
            workers: self.workers,
            max_memory_size: self.max_memory_size,
            meta: self.meta,
            show_input_drvs: self.show_input_drvs,
            override_inputs,
            nix_options,
            remotes: Vec::new(),
        };
        assert(config@.remotes =~= Seq::empty());
        Ok(config)
    }

    /// The log level, in words of a log filter.
    pub fn init_tracing(&self) -> (level: &'static str)
        ensures
            level@ == (if self.verbose == 0 {
                "info"@
            } else if self.verbose == 1 {
                "debug"@
            } else {
                "trace"@
            }),
    {
        if self.verbose == 0 {
            "info"
        } else if self.verbose == 1 {
            "debug"
        } else {
            "trace"
        }
    }
}

fn auto_args(exprs: &Vec<(String, String)>, strs: &Vec<(String, String)>) -> (args: Vec<
    (String, AutoArg),
>)
    ensures
        args.deep_view() == exprs.deep_view().map_values(
            |pair: (Seq<char>, Seq<char>)| (pair.0, AutoArgView::Expr(pair.1)),
        ) + strs.deep_view().map_values(
            |pair: (Seq<char>, Seq<char>)| (pair.0, AutoArgView::Str(pair.1)),
        ),
{
    let ghost expr_views = exprs.deep_view().map_values(
        |pair: (Seq<char>, Seq<char>)| (pair.0, AutoArgView::Expr(pair.1)),
    );
    let ghost str_views = strs.deep_view().map_values(
        |pair: (Seq<char>, Seq<char>)| (pair.0, AutoArgView::Str(pair.1)),
    );
    let mut args: Vec<(String, AutoArg)> = Vec::new();
    let mut i: usize = 0;
    while i < exprs.len()
        invariant
            i <= exprs@.len(),
            expr_views == exprs.deep_view().map_values(
                |pair: (Seq<char>, Seq<char>)| (pair.0, AutoArgView::Expr(pair.1)),
            ),
            args.deep_view() =~= expr_views.take(i as int),
        decreases exprs@.len() - i,
    {
        let ghost before = args.deep_view();
        let one = (exprs[i].0.clone(), AutoArg::Expr(exprs[i].1.clone()));
        args.push(one);
        assert(expr_views[i as int] == one.deep_view());
        assert(args.deep_view() =~= before.push(one.deep_view()));
        i += 1;
    }
    let mut k: usize = 0;
    assert(args.deep_view() =~= expr_views + str_views.take(0));
    while k < strs.len()
        invariant
            k <= strs@.len(),
            str_views == strs.deep_view().map_values(
                |pair: (Seq<char>, Seq<char>)| (pair.0, AutoArgView::Str(pair.1)),
            ),
            args.deep_view() =~= expr_views + str_views.take(k as int),
        decreases strs@.len() - k,
    {
        let ghost before = args.deep_view();
        let one = (strs[k].0.clone(), AutoArg::Str(strs[k].1.clone()));
        args.push(one);
        assert(str_views[k as int] == one.deep_view());
        assert(args.deep_view() =~= before.push(one.deep_view()));
        k += 1;
    }
    assert(str_views.take(str_views.len() as int) =~= str_views);
    args
}

/// Values are paired two by two, in order.
pub proof fn law_values_are_paired(values: Seq<Seq<char>>, i: int)
    requires
        values.len() % 2 == 0,
    ensures
        2 * paired(values).len() == values.len(),
        0 <= i < paired(values).len() ==> paired(values)[i] == (values[2 * i], values[2 * i + 1]),
{
}

/// Every option reaches the configuration unchanged: the arguments that are expressions come before
/// those that are strings, and there are no remotes.
pub proof fn law_options_reach_the_configuration(args: Args, i: int)
    ensures
        ({
            let config = config_of(args);
            let exprs = paired(args.arg.deep_view());
            let strs = paired(args.argstr.deep_view());
            &&& config.force_recurse == args.force_recurse
            &&& config.gc_roots_dir == args.gc_roots_dir.deep_view()
            &&& config.workers == args.workers
            &&& config.max_memory_size == args.max_memory_size
            &&& config.meta == args.meta
            &&& config.show_input_drvs == args.show_input_drvs
            &&& config.override_inputs == paired(args.override_input.deep_view())
            &&& config.nix_options == paired(args.option.deep_view())
            &&& config.remotes.len() == 0
            &&& config.auto_args.len() == exprs.len() + strs.len()
            &&& 0 <= i < exprs.len() ==> config.auto_args[i] == (
                exprs[i].0,
                AutoArgView::Expr(exprs[i].1),
            )
            &&& 0 <= i < strs.len() ==> config.auto_args[exprs.len() + i] == (
                strs[i].0,
                AutoArgView::Str(strs[i].1),
            )
        }),
{
}

/// The input is the one that is named; a flake goes before an expression, and an expression before a
/// file.
pub proof fn law_named_inputs(args: Args)
    ensures
        args.flake is Some ==> named_input(args) == Some(InputView::Flake(args.flake->0@)),
        args.flake is None && args.expr is Some ==> named_input(args) == Some(
            InputView::Expr(args.expr->0@),
        ),
        args.flake is None && args.expr is None && args.file is Some ==> named_input(args) == Some(
            InputView::File(args.file->0@),
        ),
        args.flake is None && args.expr is None && args.file is None ==> named_input(args) is None,
        named_input(args) is Some ==> config_of(args).input == named_input(args)->0,
{
}

/// Options whose values do not come in pairs are refused, and only those.
pub proof fn law_odd_values_are_refused(args: Args)
    ensures
        usage_error(args) is None <==> {
            &&& args.arg@.len() % 2 == 0
            &&& args.argstr@.len() % 2 == 0
            &&& args.override_input@.len() % 2 == 0
            &&& args.option@.len() % 2 == 0
        },
{
}

} // verus!
