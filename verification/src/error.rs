//! The ways in which a download can fail.
use vstd::prelude::*;

verus! {

/// The kind of a failure. None is retried by the library: a caller resumes
/// by running the download again over the same working directory.
#[derive(Clone, Copy, Debug, PartialEq, Eq)]
pub enum DownloadError {
    /// A request failed, timed out or was answered with an error status.
    Fetch,
    /// A manifest lacks an expected field or holds unusable timing.
    Parse,
    /// The requested quality is not on offer.
    Selection,
    /// A directory or file could not be read or written.
    Filesystem,
    /// The remux tool is missing or ended with an error status.
    Subprocess,
}

} // verus!
