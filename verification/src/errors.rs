use vstd::prelude::*;

verus! {

/// Why an operation of this library failed.
#[derive(Debug)]
pub enum CommitError {
    /// The path to upsert had no components.
    EmptyPath,
    /// The branch exists neither locally nor (when tracking was requested)
    /// on the remote, and creating it was declined.
    BranchNotFound { track_remote: bool },
    /// A ref exists but does not point directly at an object.
    InvalidRef,
    /// Neither repository-level nor global configuration supplies both a
    /// user name and an email.
    IdentityMissing,
    /// The underlying object store reported a failure.
    Git(git2::Error),
    /// The interactive confirmation could not be read.
    Prompt(dialoguer::Error),
}

impl CommitError {
    /// A short human-readable account of the failure kind.
    pub fn describe(&self) -> (r: &'static str)
        ensures
            self matches CommitError::EmptyPath ==> r@ == "empty path"@,
            self matches CommitError::BranchNotFound { track_remote: t } ==> r@ == (if *t {
                "branch not found locally or on origin"@
            } else {
                "branch not found locally"@
            }),
            self matches CommitError::InvalidRef ==> r@ == "ref has no target"@,
            self matches CommitError::IdentityMissing ==> r@
                == "user.name or user.email is not configured"@,
            self matches CommitError::Git(_) ==> r@ == "git operation failed"@,
            self matches CommitError::Prompt(_) ==> r@ == "could not read confirmation"@,
    {
        match self {
            CommitError::EmptyPath => "empty path",
            CommitError::BranchNotFound { track_remote } => {
                if *track_remote {
                    "branch not found locally or on origin"
                } else {
                    "branch not found locally"
                }
            },
            CommitError::InvalidRef => "ref has no target",
            CommitError::IdentityMissing => "user.name or user.email is not configured",
            CommitError::Git(_) => "git operation failed",
            CommitError::Prompt(_) => "could not read confirmation",
        }
    }
}

} // verus!
