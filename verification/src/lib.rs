//! Verified core of a task and service runner: the dependency graph of tasks and the
//! visitor that decides when each task may run, together with the pure logic of the
//! terminal user interfaces (key encoding, search, selection, layout) and of the
//! configuration (defaults, names, variable caching).
use vstd::prelude::*;

pub mod cli;
pub mod command;
pub mod config;
pub mod env;
pub mod footer;
pub mod graph;
pub mod hyperlink;
pub mod input;
pub mod keys;
pub mod layout;
pub mod link_writer;
pub mod log;
pub mod ordered;
pub mod path;
pub mod output;
pub mod probe;
pub mod project;
pub mod project_config;
pub mod runner;
pub mod ring;
pub mod search;
pub mod size;
pub mod sorted;
pub mod summary;
pub mod template;
pub mod term;
pub mod text;
pub mod tui_state;
pub mod unset_vars;
pub mod variants;
pub mod visitor;
pub mod workspace;
pub mod yaml;
