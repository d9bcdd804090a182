//! Error kinds shared by every component of the library.

use vstd::prelude::*;

verus! {

/// Every failure the library can report. Batch commands isolate these per
/// path; whole-command setup failures (discovery, remote resolution,
/// authentication) are fatal to one invocation.
#[derive(Clone, Copy, Debug, PartialEq, Eq, Structural)]
pub enum LocketError {
    /// Repository discovery found no enclosing git repository.
    NotAGitRepo,
    /// No remote name was given and none could be selected.
    NoRemoteSelected,
    /// The remote URL does not belong to a supported hosting service,
    /// or lacks an owner segment.
    UnsupportedRemote,
    /// No credential is stored and acquisition was declined or cancelled.
    AuthenticationRequired,
    /// The path is not tracked by the lock manifest.
    NotManaged,
    /// The file is already locked; locking again is a no-op failure.
    AlreadyLocked,
    /// The file is already unlocked; unlocking again is a no-op failure.
    AlreadyUnlocked,
    /// An authentication tag did not verify: tampering or a wrong key.
    IntegrityFailure,
    /// A filesystem operation failed or a resource was exhausted.
    IoFailure,
    /// The user cancelled an interactive selection.
    Cancelled,
}

impl LocketError {
    /// A short human-readable description, for the surrounding application.
    pub fn message(&self) -> (r: &'static str)
    {
        match self {
            LocketError::NotAGitRepo => "Failed to find git repository. Ensure that the directory is a git repo.",
            LocketError::NoRemoteSelected => "Repository has no valid remotes",
            LocketError::UnsupportedRemote => "Invalid service matched",
            LocketError::AuthenticationRequired => "Authentication required",
            LocketError::NotManaged => "File is not managed",
            LocketError::AlreadyLocked => "File is already locked",
            LocketError::AlreadyUnlocked => "File is already unlocked",
            LocketError::IntegrityFailure => "Integrity failure: ciphertext was tampered with or the credential is wrong",
            LocketError::IoFailure => "An I/O operation failed",
            LocketError::Cancelled => "No remote selection provided",
        }
    }
}

} // verus!
