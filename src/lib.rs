//! Configuration, dependency ordering, incremental change detection and
//! package resolution for a build orchestrator of multi-target native projects.

pub mod text;
pub mod hasher;
pub mod error;
pub mod target;
pub mod toml_doc;
pub mod config;
pub mod order;
pub mod package;
pub mod store;
pub mod logging;
pub mod qemu;
