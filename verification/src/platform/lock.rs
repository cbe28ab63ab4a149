//! Why an exclusive file lock could not be taken.

use vstd::prelude::*;

use crate::text::{concat, io_error_text};

verus! {

/// Why a lock file could not be created: another owner holds it, or
/// the file system refused.
#[derive(Debug)]
pub enum FileLockError {
    Busy { path: String },
    Io(std::io::Error),
}

impl FileLockError {
    /// The message this error reads as.
    pub fn describe(&self) -> (r: String)
        ensures
            self matches FileLockError::Busy { path } ==> r@ == "lock is busy: "@ + path@,
    {
        match self {
            FileLockError::Busy { path } => concat("lock is busy: ", path.as_str()),
            FileLockError::Io(error) => io_error_text(error),
        }
    }
}

} // verus!
