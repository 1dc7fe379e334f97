//! How the daemon is started.

use vstd::prelude::*;

use crate::components::components;
use crate::environment::Environment;
use crate::error::{IoError, IoErrorKind, IoErrorView};
use crate::folder::spelled;
use crate::fs_path::{copy_paths, FsPath};
use crate::paths::{expand_path, path_expanded};
use crate::views::{option_view, result_view, seq_view};

verus! {

/// Nanoseconds in a millisecond.
pub const NANOS_PER_MILLI: u128 = 1_000_000;

/// What the daemon is started with.
#[derive(Debug)]
pub struct Args {
    /// Socket path for the event broadcast stream.
    pub socket: FsPath,
    /// Socket path for control commands.
    pub control_socket: FsPath,
    /// Config file path, where it is not the default one.
    pub config: Option<FsPath>,
    /// Window in milliseconds in which the same event is told once.
    pub debounce_ms: u64,
    /// Folders to watch from the start.
    pub folders: Vec<FsPath>,
}

impl Clone for Args {
    fn clone(&self) -> (copy: Args)
        ensures
            copy.socket@ == self.socket@,
            copy.control_socket@ == self.control_socket@,
            option_view(copy.config) == option_view(self.config),
            copy.debounce_ms == self.debounce_ms,
            seq_view(copy.folders@) == seq_view(self.folders@),
    {
        Args {
            socket: self.socket.clone(),
            control_socket: self.control_socket.clone(),
            config: match &self.config {
                Some(config) => Some(config.clone()),
                None => None,
            },
            debounce_ms: self.debounce_ms,
            folders: copy_paths(&self.folders),
        }
    }
}

impl Args {
    /// Where the config file is, once `~` and variables are replaced.
    pub fn config_path(&self, env: &Environment) -> (path: Result<FsPath, IoError>)
        ensures
            result_view(path) == path_expanded(
                match self.config {
                    Some(config) => config@,
                    None => spelled("~/.gong/config.json"@),
                },
                env@,
            ),
    {
        match &self.config {
            Some(config) => expand_path(config, env),
            None => default_config_path(env),
        }
    }

    /// The window in which the same event is told once, in nanoseconds.
    pub fn debounce_window(&self) -> (window: u128)
        ensures
            window == self.debounce_ms * NANOS_PER_MILLI,
            window == self.debounce_ms * 1_000_000,
    {
        self.debounce_ms as u128 * NANOS_PER_MILLI
    }

    /// The two sockets must not be the same path.
    pub fn check_sockets(&self) -> (checked: Result<(), IoError>)
        ensures
            checked is Err <==> components(self.socket@) == components(self.control_socket@),
            checked matches Err(e) ==> e@ == (IoErrorView {
                kind: IoErrorKind::InvalidInput,
                message: "event socket and control socket must be different paths"@,
            }),
    {
        if self.socket == self.control_socket {
            Err(
                IoError::new(
                    IoErrorKind::InvalidInput,
                    "event socket and control socket must be different paths",
                ),
            )
        } else {
            Ok(())
        }
    }
}

/// Where the config file is unless the daemon is told otherwise.
pub fn default_config_path(env: &Environment) -> (path: Result<FsPath, IoError>)
    ensures
        result_view(path) == path_expanded(spelled("~/.gong/config.json"@), env@),
{
    expand_path(&FsPath::from_text("~/.gong/config.json"), env)
}

} // verus!
