//! Library core of evix, an evaluation engine for Nix expressions.
//!
//! Evix hands the attributes of a Nix expression to a pool of workers, local and remote, and streams
//! one event for each: a derivation, an attrset to go on with, or an error. This crate holds what
//! there is to decide: the work queue and who may work on what ([`scheduler`], [`coordinator`],
//! [`collector`]), what holds of evaluations as a whole ([`evaluation`]), the warm derivation graph
//! and its diffs and queries ([`state`], [`session`]), the JSON of events ([`json`]), the command
//! line ([`args`]), the daemon ([`client`], [`daemon`], [`protocol`]), and the conversation with
//! workers ([`worker`], [`worker_link`], [`eval`]). Processes, sockets and the Nix evaluator itself
//! are reached by the programs around it.

pub mod args;
pub mod client;
pub mod collector;
pub mod command_line;
pub mod coordinator;
pub mod daemon;
pub mod error;
pub mod eval;
pub mod eval_line;
pub mod evaluation;
pub mod json;
pub mod json_value;
pub mod key_order;
pub mod keyed_map;
pub mod one_shot;
pub mod paths;
pub mod protocol;
pub mod remote;
pub mod scheduler;
pub mod serde_config;
pub mod session;
pub mod state;
pub mod text;
pub mod types;
pub mod watch;
pub mod worker;
pub mod worker_config;
pub mod worker_link;

pub use error::Error;
pub use session::Session;
pub use types::{
    AutoArg, Config, ConfigBuilder, Derivation, Diff, EvalError, Event, Filter, Input, Remote,
    WORKER_ENV,
};
