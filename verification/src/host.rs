//! What the engine asks of its surroundings. Reading files and running
//! child processes cannot be verified, so the engine never does either
//! itself: a caller hands it a [`Host`] that performs them. Nothing is
//! assumed about what a host returns; every contract in this crate states
//! what holds whatever came back.

use vstd::prelude::*;
use crate::context::Context;
use crate::error::Error;

verus! {

/// The engine's collaborator for everything outside the engine: opening
/// files, running shell commands, and holding the child processes of open
/// `#in` blocks.
///
/// A host keeps its own stack of child processes, pushed by [`Host::pipe_open`]
/// and popped by [`Host::pipe_close`], in step with the context's `in_depth`
/// count: the engine calls `pipe_open` exactly when it increments the count
/// and `pipe_close` exactly when it decrements it, so the innermost open
/// child is always the top of the host's stack.
pub trait Host {
    /// Read the named file and split it into lines, as [`crate::text::split_lines`]
    /// splits a string; `Err` (usually `Error::IoError`) when the file
    /// cannot be read.
    fn read_lines(&mut self, path: &str) -> Result<Vec<String>, Error>;

    /// Process the named file through the engine, with the same context.
    /// An implementation calls [`crate::process_file`] with itself as the
    /// host; errors come back already wrapped with the file's own label and
    /// line numbers.
    fn include_file(&mut self, path: &str, context: &mut Context) -> Result<String, Error>;

    /// Run `cmd` through the platform shell, wait for it, and return its
    /// captured standard output. A nonzero exit status is
    /// `Error::ChildFailed`, output that is not UTF-8 is
    /// `Error::FromUtf8Error`, and a spawn failure is `Error::IoError`.
    fn run_command(&mut self, cmd: &str) -> Result<String, Error>;

    /// Spawn `cmd` through the platform shell with piped input and output
    /// and push it on the stack of open children.
    fn pipe_open(&mut self, cmd: &str) -> Result<(), Error>;

    /// Write `text` to the innermost open child's input.
    fn pipe_write(&mut self, text: &str) -> Result<(), Error>;

    /// Pop the innermost open child, close its input, wait for it, and
    /// return its captured standard output, with the same error cases as
    /// [`Host::run_command`].
    fn pipe_close(&mut self) -> Result<String, Error>;
}

} // verus!
