//! Local-first code intelligence: a knowledge graph of the symbols and
//! relations of a code base, with traversal, call resolution and context
//! building over it.

pub mod kinds;
pub mod model;
pub mod error;
pub mod db;
pub mod text;
pub mod graph;
pub mod resolve;
pub mod context;
pub mod config;
pub mod walker;
pub mod json;
pub mod installer;
pub mod orchestrator;
pub mod viz;
pub mod syntax;
pub mod extract;
pub mod bin_install;
pub mod watcher;
pub mod paths;
