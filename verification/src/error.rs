//! Classified download errors.

use vstd::prelude::*;

verus! {

/// Everything that can abort a download, classified by origin.
#[derive(Clone, Copy, Debug, PartialEq, Eq, Structural)]
pub enum DownloadError {
    /// A transport-level failure or a non-success HTTP status, during the
    /// probe, a sequential fetch, or any segment fetch.
    RequestError,
    /// A concurrently scheduled unit of work terminated abnormally instead
    /// of returning a result.
    TaskFailure,
    /// A filesystem failure while creating, seeking or writing the output.
    FileWriteError,
}

impl DownloadError {
    /// A short human-readable name for the error class.
    pub fn describe(&self) -> (r: &'static str)
        ensures
            self is RequestError ==> r@ == "request failed"@,
            self is TaskFailure ==> r@ == "task failed"@,
            self is FileWriteError ==> r@ == "file write failed"@,
    {
        match self {
            DownloadError::RequestError => "request failed",
            DownloadError::TaskFailure => "task failed",
            DownloadError::FileWriteError => "file write failed",
        }
    }
}

} // verus!
