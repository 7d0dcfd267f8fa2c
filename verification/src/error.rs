//! The ways an operation can fail, and which of them end the session.

use vstd::prelude::*;
use crate::keys::Command;

verus! {

/// Why an operation failed.
#[derive(Clone, Copy, Debug, PartialEq, Eq, Structural)]
pub enum StoreError {
    /// The backing file could not be read at startup.
    StartupFileMissing,
    /// Reading or writing the backing file failed during the session.
    FileIo,
    /// The clipboard could not be read or set.
    ClipboardUnavailable,
    /// The file's text has no line at the position asked for.
    IndexOutOfRange,
}

/// Whether a failure of kind `error` while carrying out `command` ends the
/// session. Every failure does, but for the clipboard failing on a yank or a
/// delete: there the operation is given up before anything was changed.
pub open spec fn is_fatal(error: StoreError, command: Command) -> bool {
    !(error == StoreError::ClipboardUnavailable && (command == Command::YankSelected || command
        == Command::DeleteSelected))
}

impl StoreError {
    /// Whether this failure, met while carrying out `command`, ends the
    /// session.
    pub fn ends_session(self, command: Command) -> (fatal: bool)
        ensures
            fatal == is_fatal(self, command),
    {
        match self {
            StoreError::ClipboardUnavailable => match command {
                Command::YankSelected => false,
                Command::DeleteSelected => false,
                _ => true,
            },
            _ => true,
        }
    }
}

} // verus!
