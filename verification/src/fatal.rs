//! The errors that end the daemon. None of them is retried.

use vstd::prelude::*;

verus! {

/// Why no selection can be made from the corpus.
#[derive(Clone, Copy, PartialEq, Eq, Debug, Structural)]
pub enum CorpusFault {
    /// The corpus could not be opened, or reading it failed.
    Unreadable,
    /// The corpus holds no complete record.
    Empty,
}

/// Which operation on the named pipe failed.
#[derive(Clone, Copy, PartialEq, Eq, Debug, Structural)]
pub enum PipeFault {
    /// The pipe was missing and could not be created.
    Create,
    /// Writing a record into the pipe failed.
    Write,
}

/// A fatal error.
#[derive(Clone, Copy, PartialEq, Eq, Debug, Structural)]
pub enum Fatal {
    /// Another live instance holds the recorded process id.
    SingletonViolation { pid: i32 },
    /// The corpus gave nothing to publish.
    Corpus(CorpusFault),
    /// The named pipe could not be created or written.
    Pipe(PipeFault),
    /// The shutdown handlers could not be installed.
    SignalRegistration,
}

/// Exit code of a run that was asked to stop and did.
pub const EXIT_CLEAN: u8 = 0;

/// Exit code of a run that a fatal error ended.
pub const EXIT_FATAL: u8 = 1;

/// The exit code of the process: zero after a clean end, non-zero after any
/// fatal error.
pub fn exit_code(end: &Result<(), Fatal>) -> (code: u8)
    ensures
        code == if end is Ok {
            EXIT_CLEAN
        } else {
            EXIT_FATAL
        },
        (code == 0) == (end is Ok),
{
    match end {
        Ok(_) => EXIT_CLEAN,
        Err(_) => EXIT_FATAL,
    }
}

} // verus!
