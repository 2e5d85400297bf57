//! Worktree management core: parsing the repository's machine-readable
//! worktree listing, resolving the shared repository root from any linked
//! worktree, and choosing a base branch through a deterministic fallback
//! chain. All external commands are executed by the caller; this crate
//! consumes their captured text output as plain values.

use vstd::prelude::*;

pub mod config;
pub mod git;
pub mod text;

verus! {

/// An error carrying a process exit code and a diagnostic message.
pub struct GwError {
    pub code: i32,
    pub message: String,
}

impl GwError {
    pub fn new(code: i32, message: String) -> (r: GwError)
        ensures
            r.code == code,
            r.message == message,
    {
        GwError { code, message }
    }
}

} // verus!
