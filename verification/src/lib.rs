//! Verified core of a platform tool that manages a collection of
//! infrastructure projects, their environments and the dependencies
//! between them.

pub mod audit;
pub mod backend;
pub mod backup;
pub mod ci;
pub mod ci_detect_changes;
pub mod create;
pub mod clone;
pub mod cost;
pub mod dependency_graph;
pub mod deps;
pub mod devex;
pub mod devex_tools;
pub mod disaster_recovery;
pub mod discovery;
pub mod drift;
pub mod env_command;
pub mod env_promote;
pub mod env_sync;
pub mod env_variables;
pub mod environments;
pub mod execution;
pub mod find;
pub mod infrastructure;
pub mod fs;
pub mod json;
pub mod graph;
pub mod import;
pub mod keymap;
pub mod lock;
pub mod manager;
pub mod node_run;
pub mod output;
pub mod paths;
pub mod records;
pub mod resources;
pub mod stamps;
pub mod text;
pub mod yaml;
