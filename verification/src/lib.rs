//! A minimal task runner library: task definitions are read from TOML
//! configuration documents, merged across a user-global and a project-local
//! source, bound to command-line arguments, and expanded into a shell command.

pub mod commands;
pub mod config;
pub mod error;
pub mod runner;
pub mod task;
pub mod text;
pub mod toml_doc;
