//! Watching folders, deciding which file-system changes are worth telling, and
//! the two socket protocols that the daemon speaks.

pub mod args;
pub mod client;
pub mod clock;
pub mod components;
pub mod config;
pub mod dedup;
pub mod environment;
pub mod error;
pub mod event;
pub mod folder;
pub mod fs_path;
pub mod ignore_rules;
pub mod order;
pub mod paths;
pub mod protocol;
pub mod prune;
pub mod repo;
pub mod server;
pub mod skipped;
pub mod text;
pub mod translate;
pub mod views;
pub mod watch;
pub mod watch_config;

pub use crate::args::Args;
