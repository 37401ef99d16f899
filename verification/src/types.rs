//! The data of an evaluation: what is asked for, and what comes back.

use vstd::prelude::*;

use crate::json_value::{Json, JsonView};
use crate::keyed_map::{Duplicate, Key, TextMap};

verus! {

/// Environment variable that marks a process as a worker of an evaluation. A binary that
/// executes itself again to host workers enters the worker protocol when it is set.
pub const WORKER_ENV: &'static str = "EVIX_WORKER";

/// Input source for a Nix evaluation.
#[derive(Debug)]
pub enum Input {
    Flake(String),
    Expr(String),
    /// The path of a Nix file.
    File(String),
}

pub enum InputView {
    Flake(Seq<char>),
    Expr(Seq<char>),
    File(Seq<char>),
}

impl View for Input {
    type V = InputView;

    open spec fn view(&self) -> InputView {
        match self {
            Input::Flake(s) => InputView::Flake(s@),
            Input::Expr(s) => InputView::Expr(s@),
            Input::File(s) => InputView::File(s@),
        }
    }
}

impl Clone for Input {
    fn clone(&self) -> (copy: Self)
        ensures
            copy@ == self@,
    {
        match self {
            Input::Flake(s) => Input::Flake(s.clone()),
            Input::Expr(s) => Input::Expr(s.clone()),
            Input::File(s) => Input::File(s.clone()),
        }
    }
}

impl DeepView for Input {
    type V = InputView;

    open spec fn deep_view(&self) -> InputView {
        self@
    }
}

impl Key for Input {
    fn same_as(&self, other: &Self) -> (yes: bool) {
        match (self, other) {
            (Input::Flake(a), Input::Flake(b)) => *a == *b,
            (Input::Expr(a), Input::Expr(b)) => *a == *b,
            (Input::File(a), Input::File(b)) => *a == *b,
            _ => false,
        }
    }
}

/// Argument passed to a Nix function parameter.
#[derive(Debug)]
pub enum AutoArg {
    Expr(String),
    Str(String),
}

pub enum AutoArgView {
    Expr(Seq<char>),
    Str(Seq<char>),
}

impl View for AutoArg {
    type V = AutoArgView;

    open spec fn view(&self) -> AutoArgView {
        match self {
            AutoArg::Expr(s) => AutoArgView::Expr(s@),
            AutoArg::Str(s) => AutoArgView::Str(s@),
        }
    }
}

impl DeepView for AutoArg {
    type V = AutoArgView;

    open spec fn deep_view(&self) -> AutoArgView {
        self@
    }
}

impl Duplicate for AutoArg {
    fn duplicate(&self) -> (copy: Self) {
        match self {
            AutoArg::Expr(s) => AutoArg::Expr(s.clone()),
            AutoArg::Str(s) => AutoArg::Str(s.clone()),
        }
    }
}

impl Clone for AutoArg {
    fn clone(&self) -> (copy: Self)
        ensures
            copy@ == self@,
    {
        self.duplicate()
    }
}

impl Key for AutoArg {
    fn same_as(&self, other: &Self) -> (yes: bool) {
        match (self, other) {
            (AutoArg::Expr(a), AutoArg::Expr(b)) => *a == *b,
            (AutoArg::Str(a), AutoArg::Str(b)) => *a == *b,
            _ => false,
        }
    }
}

/// Remote worker pool configuration.
#[derive(Debug)]
pub struct Remote {
    pub endpoint: String,
    /// The derivation systems that the pool owns; none means every system.
    pub systems: Vec<String>,
    pub workers: usize,
}

pub struct RemoteView {
    pub endpoint: Seq<char>,
    pub systems: Seq<Seq<char>>,
    pub workers: nat,
}

impl View for Remote {
    type V = RemoteView;

    open spec fn view(&self) -> RemoteView {
        RemoteView {
            endpoint: self.endpoint@,
            systems: self.systems.deep_view(),
            workers: self.workers as nat,
        }
    }
}

impl DeepView for Remote {
    type V = RemoteView;

    open spec fn deep_view(&self) -> RemoteView {
        self@
    }
}

impl Duplicate for Remote {
    fn duplicate(&self) -> (copy: Self) {
        Remote {
            endpoint: self.endpoint.clone(),
            systems: self.systems.duplicate(),
            workers: self.workers,
        }
    }
}

impl Clone for Remote {
    fn clone(&self) -> (copy: Self)
        ensures
            copy@ == self@,
    {
        self.duplicate()
    }
}

impl Key for Remote {
    fn same_as(&self, other: &Self) -> (yes: bool) {
        self.endpoint == other.endpoint && self.systems.same_as(&other.systems) && self.workers
            == other.workers
    }
}

/// Configuration for an evaluation run.
#[derive(Debug)]
pub struct Config {
    pub input: Input,
    pub auto_args: Vec<(String, AutoArg)>,
    /// Recurse into all attrsets, ignoring `recurseForDerivations`.
    pub force_recurse: bool,
    /// The directory in which GC roots are registered.
    pub gc_roots_dir: Option<String>,
    pub workers: usize,
    /// The memory limit of one worker, in megabytes.
    pub max_memory_size: usize,
    /// Attach each derivation's `meta` attribute to the emitted [`Derivation`]. Off by default
    /// because forcing `meta` deeply costs extra evaluation.
    pub meta: bool,
    /// Read each derivation's input derivations from the store and attach them as
    /// [`Derivation::input_drvs`]. Off by default because it reads the `.drv` file of every job.
    pub show_input_drvs: bool,
    /// Flake input overrides applied while locking, as pairs of input path and reference. Only
    /// meaningful for [`Input::Flake`].
    pub override_inputs: Vec<(String, String)>,
    /// Nix settings applied before the evaluation state is built, as pairs of key and value.
    pub nix_options: Vec<(String, String)>,
    /// Remote worker endpoints available to the master.
    pub remotes: Vec<Remote>,
}

pub struct ConfigView {
    pub input: InputView,
    pub auto_args: Seq<(Seq<char>, AutoArgView)>,
    pub force_recurse: bool,
    pub gc_roots_dir: Option<Seq<char>>,
    pub workers: nat,
    pub max_memory_size: nat,
    pub meta: bool,
    pub show_input_drvs: bool,
    pub override_inputs: Seq<(Seq<char>, Seq<char>)>,
    pub nix_options: Seq<(Seq<char>, Seq<char>)>,
    pub remotes: Seq<RemoteView>,
}

impl View for Config {
    type V = ConfigView;

    open spec fn view(&self) -> ConfigView {
        ConfigView {
            input: self.input@,
            auto_args: self.auto_args.deep_view(),
            force_recurse: self.force_recurse,
            gc_roots_dir: self.gc_roots_dir.deep_view(),
            workers: self.workers as nat,
            max_memory_size: self.max_memory_size as nat,
            meta: self.meta,
            show_input_drvs: self.show_input_drvs,
            override_inputs: self.override_inputs.deep_view(),
            nix_options: self.nix_options.deep_view(),
            remotes: self.remotes.deep_view(),
        }
    }
}

impl Clone for Config {
    fn clone(&self) -> (copy: Self)
        ensures
            copy@ == self@,
    {
        Config {
            input: self.input.clone(),
            auto_args: self.auto_args.duplicate(),
            force_recurse: self.force_recurse,
            gc_roots_dir: self.gc_roots_dir.duplicate(),
            workers: self.workers,
            max_memory_size: self.max_memory_size,
            meta: self.meta,
            show_input_drvs: self.show_input_drvs,
            override_inputs: self.override_inputs.duplicate(),
            nix_options: self.nix_options.duplicate(),
            remotes: self.remotes.duplicate(),
        }
    }
}

impl DeepView for Config {
    type V = ConfigView;

    open spec fn deep_view(&self) -> ConfigView {
        self@
    }
}

impl Key for Config {
    fn same_as(&self, other: &Self) -> (yes: bool) {
        self.input.same_as(&other.input) && self.auto_args.same_as(&other.auto_args)
            && self.force_recurse == other.force_recurse && self.gc_roots_dir.same_as(
            &other.gc_roots_dir,
        ) && self.workers == other.workers && self.max_memory_size == other.max_memory_size
            && self.meta == other.meta && self.show_input_drvs == other.show_input_drvs
            && self.override_inputs.same_as(&other.override_inputs) && self.nix_options.same_as(
            &other.nix_options,
        ) && self.remotes.same_as(&other.remotes)
    }
}

/// The configuration that evaluates the empty attrset on one local worker of at most 4096
/// megabytes, and asks for nothing else.
pub open spec fn default_config() -> ConfigView {
    ConfigView {
        input: InputView::Expr("{}"@),
        auto_args: Seq::empty(),
        force_recurse: false,
        gc_roots_dir: None,
        workers: 1,
        max_memory_size: 4096,
        meta: false,
        show_input_drvs: false,
        override_inputs: Seq::empty(),
        nix_options: Seq::empty(),
        remotes: Seq::empty(),
    }
}

impl Default for Config {
    fn default() -> (config: Self)
        ensures
            config@ == default_config(),
            config@.input == InputView::Expr("{}"@),
            config@.auto_args.len() == 0,
            config@.force_recurse == false,
            config@.gc_roots_dir is None,
            config@.workers == 1,
            config@.max_memory_size == 4096,
            config@.meta == false,
            config@.show_input_drvs == false,
            config@.override_inputs.len() == 0,
            config@.nix_options.len() == 0,
            config@.remotes.len() == 0,
    {
        let config = Config {
            input: Input::Expr("{}".to_owned()),
            auto_args: Vec::new(),
            force_recurse: false,
            gc_roots_dir: None,
            workers: 1,
            max_memory_size: 4096,
            meta: false,
            show_input_drvs: false,
            override_inputs: Vec::new(),
            nix_options: Vec::new(),
            remotes: Vec::new(),
        };
        proof {
            assert(config@.auto_args =~= default_config().auto_args);
            assert(config@.override_inputs =~= default_config().override_inputs);
            assert(config@.nix_options =~= default_config().nix_options);
            assert(config@.remotes =~= default_config().remotes);
        }
        config
    }
}

impl Config {
    /// The default configuration with an inline Nix expression as its input.
    pub fn expr(expr: &str) -> (config: Self)
        ensures
            config@ == (ConfigView { input: InputView::Expr(expr@), ..default_config() }),
            config@.input == InputView::Expr(expr@),
            config@.auto_args.len() == 0,
            config@.force_recurse == false,
            config@.gc_roots_dir is None,
            config@.workers == 1,
            config@.max_memory_size == 4096,
            config@.meta == false,
            config@.show_input_drvs == false,
            config@.override_inputs.len() == 0,
            config@.nix_options.len() == 0,
            config@.remotes.len() == 0,
    {
        let mut config = Config::default();
        config.input = Input::Expr(expr.to_owned());
        config
    }

    /// Starts changing single settings.
    pub fn builder(self) -> (builder: ConfigBuilder)
        ensures
            builder@ == self@,
    {
        ConfigBuilder { config: self }
    }
}

/// A configuration under construction.
#[derive(Debug)]
pub struct ConfigBuilder {
    config: Config,
}

impl View for ConfigBuilder {
    type V = ConfigView;

    closed spec fn view(&self) -> ConfigView {
        self.config@
    }
}

impl ConfigBuilder {
    /// Sets the number of local workers.
    pub fn workers(self, workers: usize) -> (builder: Self)
        ensures
            builder@ == (ConfigView { workers: workers as nat, ..self@ }),
    {
        let mut config = self.config;
        config.workers = workers;
        ConfigBuilder { config }
    }

    /// Sets the memory limit of one worker, in megabytes.
    pub fn max_memory_size(self, megabytes: usize) -> (builder: Self)
        ensures
            builder@ == (ConfigView { max_memory_size: megabytes as nat, ..self@ }),
    {
        let mut config = self.config;
        config.max_memory_size = megabytes;
        ConfigBuilder { config }
    }

    /// The finished configuration.
    pub fn build(self) -> (config: Config)
        ensures
            config@ == self@,
    {
        self.config
    }
}

/// A derivation emitted by evaluation.
#[derive(Debug)]
pub struct Derivation {
    pub attr: String,
    pub attr_path: Vec<String>,
    pub name: String,
    pub system: String,
    pub drv_path: String,
    pub outputs: TextMap<Option<String>>,
    /// The derivation's `meta` attribute as freeform JSON, present only when [`Config::meta`] is
    /// set and the attribute exists.
    pub meta: Option<Json>,
    /// Input derivations keyed by `.drv` store path, present only when
    /// [`Config::show_input_drvs`] is set. The value is the list of output names of that input.
    pub input_drvs: TextMap<Vec<String>>,
    /// Constituent attribute names of an aggregate job, present only when the derivation
    /// declares them.
    pub constituents: Option<Vec<String>>,
    pub gc_root_error: Option<String>,
}

pub struct DerivationView {
    pub attr: Seq<char>,
    pub attr_path: Seq<Seq<char>>,
    pub name: Seq<char>,
    pub system: Seq<char>,
    pub drv_path: Seq<char>,
    pub outputs: Map<Seq<char>, Option<Seq<char>>>,
    pub meta: Option<JsonView>,
    pub input_drvs: Map<Seq<char>, Seq<Seq<char>>>,
    pub constituents: Option<Seq<Seq<char>>>,
    pub gc_root_error: Option<Seq<char>>,
}

impl View for Derivation {
    type V = DerivationView;

    open spec fn view(&self) -> DerivationView {
        DerivationView {
            attr: self.attr@,
            attr_path: self.attr_path.deep_view(),
            name: self.name@,
            system: self.system@,
            drv_path: self.drv_path@,
            outputs: self.outputs@,
            meta: self.meta.deep_view(),
            input_drvs: self.input_drvs@,
            constituents: self.constituents.deep_view(),
            gc_root_error: self.gc_root_error.deep_view(),
        }
    }
}

impl DeepView for Derivation {
    type V = DerivationView;

    open spec fn deep_view(&self) -> DerivationView {
        self@
    }
}

impl Duplicate for Derivation {
    fn duplicate(&self) -> (copy: Self) {
        Derivation {
            attr: self.attr.clone(),
            attr_path: self.attr_path.duplicate(),
            name: self.name.clone(),
            system: self.system.clone(),
            drv_path: self.drv_path.clone(),
            outputs: self.outputs.duplicate(),
            meta: self.meta.duplicate(),
            input_drvs: self.input_drvs.duplicate(),
            constituents: self.constituents.duplicate(),
            gc_root_error: self.gc_root_error.duplicate(),
        }
    }
}

impl Clone for Derivation {
    fn clone(&self) -> (copy: Self)
        ensures
            copy@ == self@,
    {
        self.duplicate()
    }
}

/// An evaluation error associated with a specific attribute path.
#[derive(Debug)]
pub struct EvalError {
    pub attr: String,
    pub attr_path: Vec<String>,
    pub error: String,
    pub fatal: bool,
}

pub struct EvalErrorView {
    pub attr: Seq<char>,
    pub attr_path: Seq<Seq<char>>,
    pub error: Seq<char>,
    pub fatal: bool,
}

impl View for EvalError {
    type V = EvalErrorView;

    open spec fn view(&self) -> EvalErrorView {
        EvalErrorView {
            attr: self.attr@,
            attr_path: self.attr_path.deep_view(),
            error: self.error@,
            fatal: self.fatal,
        }
    }
}

impl DeepView for EvalError {
    type V = EvalErrorView;

    open spec fn deep_view(&self) -> EvalErrorView {
        self@
    }
}

impl Duplicate for EvalError {
    fn duplicate(&self) -> (copy: Self) {
        EvalError {
            attr: self.attr.clone(),
            attr_path: self.attr_path.duplicate(),
            error: self.error.clone(),
            fatal: self.fatal,
        }
    }
}

impl Clone for EvalError {
    fn clone(&self) -> (copy: Self)
        ensures
            copy@ == self@,
    {
        self.duplicate()
    }
}

/// Complete change set between two evaluations.
#[derive(Debug)]
pub struct Diff {
    pub added: Vec<Derivation>,
    pub removed: Vec<Derivation>,
    pub errors: Vec<EvalError>,
}

pub struct DiffView {
    pub added: Seq<DerivationView>,
    pub removed: Seq<DerivationView>,
    pub errors: Seq<EvalErrorView>,
}

impl View for Diff {
    type V = DiffView;

    open spec fn view(&self) -> DiffView {
        DiffView {
            added: self.added.deep_view(),
            removed: self.removed.deep_view(),
            errors: self.errors.deep_view(),
        }
    }
}

impl Clone for Diff {
    fn clone(&self) -> (copy: Self)
        ensures
            copy@ == self@,
    {
        Diff {
            added: self.added.duplicate(),
            removed: self.removed.duplicate(),
            errors: self.errors.duplicate(),
        }
    }
}

/// Query filter over a session's warm evaluation graph. A derivation passes when every part that
/// is present accepts it.
#[derive(Debug)]
pub struct Filter {
    /// One of these systems.
    pub systems: Option<Vec<String>>,
    /// An attribute path that begins with this one.
    pub attr_prefix: Option<Vec<String>>,
    /// An attribute path that begins with one of these.
    pub attr_prefixes: Option<Vec<Vec<String>>>,
    /// One of these attribute paths.
    pub attrs: Option<Vec<Vec<String>>>,
    /// One of these names.
    pub names: Option<Vec<String>>,
    /// One of these `.drv` paths.
    pub drv_paths: Option<Vec<String>>,
    /// A dotted attribute that one of these wildcard patterns matches.
    pub include_patterns: Option<Vec<String>>,
    /// A dotted attribute that none of these wildcard patterns matches.
    pub exclude_patterns: Option<Vec<String>>,
}

pub struct FilterView {
    pub systems: Option<Seq<Seq<char>>>,
    pub attr_prefix: Option<Seq<Seq<char>>>,
    pub attr_prefixes: Option<Seq<Seq<Seq<char>>>>,
    pub attrs: Option<Seq<Seq<Seq<char>>>>,
    pub names: Option<Seq<Seq<char>>>,
    pub drv_paths: Option<Seq<Seq<char>>>,
    pub include_patterns: Option<Seq<Seq<char>>>,
    pub exclude_patterns: Option<Seq<Seq<char>>>,
}

impl View for Filter {
    type V = FilterView;

    open spec fn view(&self) -> FilterView {
        FilterView {
            systems: self.systems.deep_view(),
            attr_prefix: self.attr_prefix.deep_view(),
            attr_prefixes: self.attr_prefixes.deep_view(),
            attrs: self.attrs.deep_view(),
            names: self.names.deep_view(),
            drv_paths: self.drv_paths.deep_view(),
            include_patterns: self.include_patterns.deep_view(),
            exclude_patterns: self.exclude_patterns.deep_view(),
        }
    }
}

impl Clone for Filter {
    fn clone(&self) -> (copy: Self)
        ensures
            copy@ == self@,
    {
        Filter {
            systems: self.systems.duplicate(),
            attr_prefix: self.attr_prefix.duplicate(),
            attr_prefixes: self.attr_prefixes.duplicate(),
            attrs: self.attrs.duplicate(),
            names: self.names.duplicate(),
            drv_paths: self.drv_paths.duplicate(),
            include_patterns: self.include_patterns.duplicate(),
            exclude_patterns: self.exclude_patterns.duplicate(),
        }
    }
}

/// The filter without any part, which every derivation passes.
pub open spec fn no_filter() -> FilterView {
    FilterView {
        systems: None,
        attr_prefix: None,
        attr_prefixes: None,
        attrs: None,
        names: None,
        drv_paths: None,
        include_patterns: None,
        exclude_patterns: None,
    }
}

impl Default for Filter {
    fn default() -> (filter: Self)
        ensures
            filter@ == no_filter(),
            filter@.systems is None,
            filter@.attr_prefix is None,
            filter@.attr_prefixes is None,
            filter@.attrs is None,
            filter@.names is None,
            filter@.drv_paths is None,
            filter@.include_patterns is None,
            filter@.exclude_patterns is None,
    {
        Filter {
            systems: None,
            attr_prefix: None,
            attr_prefixes: None,
            attrs: None,
            names: None,
            drv_paths: None,
            include_patterns: None,
            exclude_patterns: None,
        }
    }
}

/// Event produced while traversing a Nix expression.
#[derive(Debug)]
pub enum Event {
    Derivation(Derivation),
    AttrSet { attr: String, attr_path: Vec<String>, attrs: Vec<String> },
    Error(EvalError),
}

pub enum EventView {
    Derivation(DerivationView),
    AttrSet { attr: Seq<char>, attr_path: Seq<Seq<char>>, attrs: Seq<Seq<char>> },
    Error(EvalErrorView),
}

impl View for Event {
    type V = EventView;

    open spec fn view(&self) -> EventView {
        match self {
            Event::Derivation(drv) => EventView::Derivation(drv@),
            Event::AttrSet { attr, attr_path, attrs } => EventView::AttrSet {
                attr: attr@,
                attr_path: attr_path.deep_view(),
                attrs: attrs.deep_view(),
            },
            Event::Error(error) => EventView::Error(error@),
        }
    }
}

impl DeepView for Event {
    type V = EventView;

    open spec fn deep_view(&self) -> EventView {
        self@
    }
}

impl Clone for Event {
    fn clone(&self) -> (copy: Self)
        ensures
            copy@ == self@,
    {
        match self {
            Event::Derivation(drv) => Event::Derivation(drv.clone()),
            Event::AttrSet { attr, attr_path, attrs } => Event::AttrSet {
                attr: attr.clone(),
                attr_path: attr_path.duplicate(),
                attrs: attrs.duplicate(),
            },
            Event::Error(error) => Event::Error(error.clone()),
        }
    }
}

impl EventView {
    /// The dotted attribute path of the event.
    pub open spec fn attr(self) -> Seq<char> {
        match self {
            EventView::Derivation(drv) => drv.attr,
            EventView::AttrSet { attr, .. } => attr,
            EventView::Error(error) => error.attr,
        }
    }

    /// The attribute path of the event.
    pub open spec fn attr_path(self) -> Seq<Seq<char>> {
        match self {
            EventView::Derivation(drv) => drv.attr_path,
            EventView::AttrSet { attr_path, .. } => attr_path,
            EventView::Error(error) => error.attr_path,
        }
    }
}

impl Event {
    /// Attribute path rendered with dots.
    pub fn attr(&self) -> (attr: &str)
        ensures
            attr@ == self@.attr(),
            match self {
                Event::Derivation(drv) => attr@ == drv.attr@,
                Event::AttrSet { attr: dotted, .. } => attr@ == dotted@,
                Event::Error(error) => attr@ == error.attr@,
            },
    {
        match self {
            Event::Derivation(drv) => drv.attr.as_str(),
            Event::AttrSet { attr, .. } => attr.as_str(),
            Event::Error(error) => error.attr.as_str(),
        }
    }

    /// Attribute path as a list of names.
    pub fn attr_path(&self) -> (path: &Vec<String>)
        ensures
            path.deep_view() == self@.attr_path(),
            match self {
                Event::Derivation(drv) => path@ == drv.attr_path@,
                Event::AttrSet { attr_path, .. } => path@ == attr_path@,
                Event::Error(error) => path@ == error.attr_path@,
            },
    {
        match self {
            Event::Derivation(drv) => &drv.attr_path,
            Event::AttrSet { attr_path, .. } => attr_path,
            Event::Error(error) => &error.attr_path,
        }
    }
}

} // verus!
