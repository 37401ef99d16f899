//! What a worker needs to know of a configuration.

use vstd::prelude::*;

use crate::keyed_map::Duplicate;
use crate::types::{AutoArg, AutoArgView, Config, ConfigView, Input, InputView};

verus! {

/// The configuration of a worker.
#[derive(Debug)]
pub struct WorkerConfig {
    pub input: Input,
    pub auto_args: Vec<(String, AutoArg)>,
    pub force_recurse: bool,
    pub gc_roots_dir: Option<String>,
    pub max_memory_size: usize,
    pub meta: bool,
    pub show_input_drvs: bool,
    pub override_inputs: Vec<(String, String)>,
    pub nix_options: Vec<(String, String)>,
}

pub struct WorkerConfigView {
    pub input: InputView,
    pub auto_args: Seq<(Seq<char>, AutoArgView)>,
    pub force_recurse: bool,
    pub gc_roots_dir: Option<Seq<char>>,
    pub max_memory_size: nat,
    pub meta: bool,
    pub show_input_drvs: bool,
    pub override_inputs: Seq<(Seq<char>, Seq<char>)>,
    pub nix_options: Seq<(Seq<char>, Seq<char>)>,
}

impl View for WorkerConfig {
    type V = WorkerConfigView;

    open spec fn view(&self) -> WorkerConfigView {
        WorkerConfigView {
            input: self.input@,
            auto_args: self.auto_args.deep_view(),
            force_recurse: self.force_recurse,
            gc_roots_dir: self.gc_roots_dir.deep_view(),
            max_memory_size: self.max_memory_size as nat,
            meta: self.meta,
            show_input_drvs: self.show_input_drvs,
            override_inputs: self.override_inputs.deep_view(),
            nix_options: self.nix_options.deep_view(),
        }
    }
}

/// The part of a configuration that a worker needs: all but how many workers there are, and where.
pub open spec fn worker_part(config: ConfigView) -> WorkerConfigView {
    WorkerConfigView {
        input: config.input,
        auto_args: config.auto_args,
        force_recurse: config.force_recurse,
        gc_roots_dir: config.gc_roots_dir,
        max_memory_size: config.max_memory_size,
        meta: config.meta,
        show_input_drvs: config.show_input_drvs,
        override_inputs: config.override_inputs,
        nix_options: config.nix_options,
    }
}

impl WorkerConfig {
    /// The part of a configuration that a worker needs.
    pub fn new(config: &Config) -> (worker: Self)
        ensures
            worker@ == worker_part(config@),
            worker@.input == config@.input,
            worker@.auto_args == config@.auto_args,
            worker@.force_recurse == config@.force_recurse,
            worker@.gc_roots_dir == config@.gc_roots_dir,
            worker@.max_memory_size == config@.max_memory_size,
            worker@.meta == config@.meta,
            worker@.show_input_drvs == config@.show_input_drvs,
            worker@.override_inputs == config@.override_inputs,
            worker@.nix_options == config@.nix_options,
    {
        WorkerConfig {
            input: config.input.clone(),
            auto_args: config.auto_args.duplicate(),
            force_recurse: config.force_recurse,
            gc_roots_dir: config.gc_roots_dir.duplicate(),
            max_memory_size: config.max_memory_size,
            meta: config.meta,
            show_input_drvs: config.show_input_drvs,
            override_inputs: config.override_inputs.duplicate(),
            nix_options: config.nix_options.duplicate(),
        }
    }
}

impl Clone for WorkerConfig {
    fn clone(&self) -> (copy: Self)
        ensures
            copy@ == self@,
    {
        WorkerConfig {
            input: self.input.clone(),
            auto_args: self.auto_args.duplicate(),
            force_recurse: self.force_recurse,
            gc_roots_dir: self.gc_roots_dir.duplicate(),
            max_memory_size: self.max_memory_size,
            meta: self.meta,
            show_input_drvs: self.show_input_drvs,
            override_inputs: self.override_inputs.duplicate(),
            nix_options: self.nix_options.duplicate(),
        }
    }
}

/// What evaluating a single attribute needs to know.
#[derive(Debug)]
pub struct EvalOptions {
    pub force_recurse: bool,
    pub gc_roots_dir: Option<String>,
    pub meta: bool,
    pub show_input_drvs: bool,
}

pub struct EvalOptionsView {
    pub force_recurse: bool,
    pub gc_roots_dir: Option<Seq<char>>,
    pub meta: bool,
    pub show_input_drvs: bool,
}

impl View for EvalOptions {
    type V = EvalOptionsView;

    open spec fn view(&self) -> EvalOptionsView {
        EvalOptionsView {
            force_recurse: self.force_recurse,
            gc_roots_dir: self.gc_roots_dir.deep_view(),
            meta: self.meta,
            show_input_drvs: self.show_input_drvs,
        }
    }
}

impl EvalOptions {
    /// The part of a worker's configuration that evaluating a single attribute needs.
    pub fn new(config: &WorkerConfig) -> (options: Self)
        ensures
            options@ == (EvalOptionsView {
                force_recurse: config@.force_recurse,
                gc_roots_dir: config@.gc_roots_dir,
                meta: config@.meta,
                show_input_drvs: config@.show_input_drvs,
            }),
    {
        EvalOptions {
            force_recurse: config.force_recurse,
            gc_roots_dir: config.gc_roots_dir.duplicate(),
            meta: config.meta,
            show_input_drvs: config.show_input_drvs,
        }
    }
}

/// Workers do not depend on how many of them there are, nor on where they run: configurations that
/// differ in that alone give workers the same configuration.
pub proof fn law_workers_do_not_see_the_pool(one: ConfigView, two: ConfigView)
    requires
        one == (ConfigView { workers: one.workers, remotes: one.remotes, ..two }),
    ensures
        worker_part(one) == worker_part(two),
{
}

/// Every setting that governs evaluation reaches the workers unchanged.
pub proof fn law_workers_get_every_setting(config: ConfigView)
    ensures
        worker_part(config).input == config.input,
        worker_part(config).auto_args == config.auto_args,
        worker_part(config).force_recurse == config.force_recurse,
        worker_part(config).gc_roots_dir == config.gc_roots_dir,
        worker_part(config).max_memory_size == config.max_memory_size,
        worker_part(config).meta == config.meta,
        worker_part(config).show_input_drvs == config.show_input_drvs,
        worker_part(config).override_inputs == config.override_inputs,
        worker_part(config).nix_options == config.nix_options,
{
}

/// Configurations that give workers the same configuration differ at most in how many workers there
/// are, and where.
pub proof fn law_workers_see_all_but_the_pool(one: ConfigView, two: ConfigView)
    requires
        worker_part(one) == worker_part(two),
    ensures
        one == (ConfigView { workers: one.workers, remotes: one.remotes, ..two }),
{
}

} // verus!
