//! What the caller asks of a run, and what makes a database unusable.

use vstd::prelude::*;
use crate::entry::CompileCommand;
use crate::paths::{has_header_extension, is_header, is_system_path, lies_under, system_root};

verus! {

/// Why a run cannot start.
#[derive(Debug, Clone, Copy, PartialEq, Eq)]
pub enum ConfigError {
    /// The database file cannot be read.
    Unreadable,
    /// The database file does not hold a list of entries.
    Unparseable,
    /// The database holds no entry.
    Empty,
}

/// What the caller asks of a run.
#[derive(Debug)]
pub struct RunConfiguration {
    /// Where the compilation database lies.
    pub database_path: String,
    /// Whether paths in the system include tree are left out.
    pub exclude_system_headers: bool,
    /// Whether only header files are reported.
    pub headers_only: bool,
}

impl RunConfiguration {
    /// Whether a path passes the filters that are switched on. The two filters
    /// judge each path on their own, and a path must pass both.
    pub open spec fn retains(&self, path: Seq<char>) -> bool {
        &&& self.exclude_system_headers ==> !lies_under(path, system_root())
        &&& self.headers_only ==> has_header_extension(path)
    }

    /// Whether a path passes the filters that are switched on.
    pub fn keeps(&self, path: &str) -> (kept: bool)
        ensures
            kept == self.retains(path@),
    {
        if self.exclude_system_headers && is_system_path(path) {
            return false;
        }
        if self.headers_only && !is_header(path) {
            return false;
        }
        true
    }
}

/// Accepts the entries of a database that holds at least one.
pub fn check_database(entries: Vec<CompileCommand>) -> (result: Result<
    Vec<CompileCommand>,
    ConfigError,
>)
    ensures
        entries.len() == 0 ==> result == Err::<Vec<CompileCommand>, ConfigError>(
            ConfigError::Empty,
        ),
        entries.len() > 0 ==> result == Ok::<Vec<CompileCommand>, ConfigError>(entries),
{
    if entries.len() == 0 {
        Err(ConfigError::Empty)
    } else {
        Ok(entries)
    }
}

} // verus!
