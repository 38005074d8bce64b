//! The errors processing can end with. A failing line aborts the whole call;
//! errors crossing a file or stream boundary are wrapped with the source's
//! label and the 0-based line number where they arose, so an `#include`
//! chain reports the full path to the fault.

use vstd::prelude::*;

verus! {

/// Why processing stopped.
#[derive(Debug)]
pub enum Error {
    /// A command name that is not recognized, or one of the `#exec` family
    /// used while execution is not permitted.
    InvalidCommand { command_name: String },
    /// A command that takes no argument (`#else`, `#endif`, `#endin`) was
    /// given one.
    TooManyParameters { command: String },
    /// A command that does not fit here; only `#endin` with no open `#in`
    /// block raises it.
    UnexpectedCommand { command: String },
    /// A child process exited with a nonzero status; `status` is its exit
    /// code, or `None` when it was ended by a signal.
    ChildFailed { status: Option<i32> },
    /// A pipe to a child process could not be set up.
    PipeFailed,
    /// Reading, writing or spawning failed; the message describes the cause.
    IoError { message: String },
    /// A child's captured output was not valid UTF-8.
    FromUtf8Error { message: String },
    /// An error from another source (an included file, a stream), wrapped
    /// with that source's label and the 0-based line where it happened.
    FileError { filename: String, line: usize, error: Box<Error> },
}

/// The mathematical content of an [`Error`].
pub ghost enum ErrView {
    InvalidCommand { command_name: Seq<char> },
    TooManyParameters { command: Seq<char> },
    UnexpectedCommand { command: Seq<char> },
    ChildFailed { status: Option<i32> },
    PipeFailed,
    IoError { message: Seq<char> },
    FromUtf8Error { message: Seq<char> },
    FileError { filename: Seq<char>, line: int, error: Box<ErrView> },
}

impl View for Error {
    type V = ErrView;

    open spec fn view(&self) -> ErrView
        decreases self,
    {
        match self {
            Error::InvalidCommand { command_name } => ErrView::InvalidCommand {
                command_name: command_name@,
            },
            Error::TooManyParameters { command } => ErrView::TooManyParameters {
                command: command@,
            },
            Error::UnexpectedCommand { command } => ErrView::UnexpectedCommand {
                command: command@,
            },
            Error::ChildFailed { status } => ErrView::ChildFailed { status: *status },
            Error::PipeFailed => ErrView::PipeFailed,
            Error::IoError { message } => ErrView::IoError { message: message@ },
            Error::FromUtf8Error { message } => ErrView::FromUtf8Error { message: message@ },
            Error::FileError { filename, line, error } => ErrView::FileError {
                filename: filename@,
                line: *line as int,
                error: Box::new((**error)@),
            },
        }
    }
}

} // verus!
