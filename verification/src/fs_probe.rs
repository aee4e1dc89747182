//! Trusted probes against the filesystem. Each one asks a single question
//! of a single candidate path. What they answer depends on the state of
//! the disk at the time of the call, which may change between calls, so
//! none of them promises anything about its result: callers state what
//! holds whatever came back. A probe that fails for any reason, such as a
//! permission error, simply answers `false`.

use vstd::prelude::*;

verus! {

/// Relies on std::path::Path::exists: `true` exactly when some filesystem
/// entity, of any kind, exists at `candidate` at the time of the call.
#[verifier::external_body]
pub(crate) fn probe_exists(candidate: &String) -> bool {
    std::path::Path::new(candidate.as_str()).exists()
}

/// Relies on std::path::Path::is_file: `true` exactly when a regular file
/// exists at `candidate` at the time of the call.
#[verifier::external_body]
pub(crate) fn probe_is_file(candidate: &String) -> bool {
    std::path::Path::new(candidate.as_str()).is_file()
}

/// Relies on std::path::Path::is_dir: `true` exactly when a directory
/// exists at `candidate` at the time of the call.
#[verifier::external_body]
pub(crate) fn probe_is_dir(candidate: &String) -> bool {
    std::path::Path::new(candidate.as_str()).is_dir()
}

} // verus!
