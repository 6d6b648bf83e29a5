//! Knowledge-base lookup library.
//!
//! Topics are named collections of records (a description, ordered entry
//! lines, and a tag set) stored one per file under a list of configured
//! directories.  This crate holds the verified core of the lookup tool: the
//! record model and its filter semantics, substring search and match
//! highlighting, the two-mode renderer, file-name / extension handling, and
//! the search-path aggregation rules.  Reading files, environment values and
//! command-line flags, and printing are left to the surrounding binary.

use vstd::prelude::*;

pub mod cheatsheet;
pub mod inventory;
pub mod knowledge;
pub mod record;
pub mod render;
pub mod search_path;
pub mod text;

verus! {

/// The error taxonomy of the lookup engine.
///
/// `NoMatch` is deliberately absent: an empty result list is a valid,
/// silent outcome, not an error.
#[derive(Debug, Clone, Copy, PartialEq, Eq, Structural)]
pub enum KError {
    /// A required configuration value is absent.  Fatal: nothing is
    /// processed after it is raised.
    ConfigError,
    /// A configured directory cannot be listed.  Non-fatal: the remaining
    /// directories are still processed.
    ScanError,
    /// A topic file cannot be read or fails structural validation.
    /// Non-fatal in aggregate mode.
    LoadError,
}

/// The single-line diagnostic of each error kind.  No failure exposes
/// more than one line.
pub open spec fn message_seq(e: KError) -> Seq<char> {
    match e {
        KError::ConfigError => "Environment variable KSEARCH_PATH not defined."@,
        KError::ScanError => "Cannot read directory."@,
        KError::LoadError => "Unknown or unreadable topic."@,
    }
}

impl KError {
    /// The error's single-line diagnostic message.
    pub fn message(&self) -> (m: &'static str)
        ensures
            m@ == message_seq(*self),
    {
        match self {
            KError::ConfigError => "Environment variable KSEARCH_PATH not defined.",
            KError::ScanError => "Cannot read directory.",
            KError::LoadError => "Unknown or unreadable topic.",
        }
    }
}

} // verus!
