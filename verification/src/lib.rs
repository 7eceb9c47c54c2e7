//! A small interpreter for scripts of command pipelines: the text of a script
//! is split into words, parsed into comments and pipelines with their
//! variables substituted, and each pipeline is turned into the sequence of
//! actions that runs it.

pub mod config;
pub mod env;
pub mod laws;
pub mod parser;
pub mod pipeline;
pub mod text;
pub mod util;
