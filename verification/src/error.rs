//! What can go wrong between finding a task file and running a task.

use vstd::prelude::*;

verus! {

/// The fixed parameters of a task definition, and whether more arguments may
/// follow them.
#[derive(Clone, Copy, Debug, PartialEq, Eq, Structural)]
pub struct Arity {
    pub params: usize,
    pub rest: bool,
}

/// Why a run came to nothing.
#[derive(Clone, Debug, PartialEq, Eq)]
pub enum Error {
    /// Neither the starting directory nor any directory above it holds a
    /// task file.
    Discovery,
    /// A line that should open a task begins with whitespace.
    Parse { path: String, line: usize },
    /// The definition at `earlier_line` takes every call that the one at
    /// `later_line` could take.
    Validation { path: String, earlier_line: usize, later_line: usize, name: String },
    /// No file declares a task of this name.
    UnknownTask { path: String, name: String },
    /// The task is declared, but with no definition for this many arguments.
    ArityMismatch { path: String, name: String, candidates: Vec<Arity>, given: usize },
    /// The task was called from within a task, too many levels deep.
    RecursionLimit { path: String, line: usize, name: String, given: usize },
    /// The environment lacks the variable, or holds no usable value for it.
    Environment { variable: String },
    /// The shell ended without an exit code or a signal number.
    Process,
}

} // verus!
