//! A small task launcher: tasks are declared in a line-oriented text file,
//! looked up by name and argument count, and run in the user's shell.
//!
//! This crate holds the rules: how a file is read into tasks, which
//! definitions a file may hold, which definition a call selects, and what is
//! handed to the shell.  Reading files and spawning processes is left to the
//! caller.

pub mod text;
pub mod error;
pub mod jogfile;
pub mod resolve;
pub mod print;
pub mod shell;
pub mod locate;
