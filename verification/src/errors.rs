//! The error taxonomy of the synchronization engine.
//!
//! Every failure the engine can report is one of these kinds. Authentication
//! failures are retried up to a fixed bound and then surfaced as
//! `AuthExhausted`; a failed fetch of all branches aborts the whole
//! synchronization; individual branch deletions that fail are collected and
//! never escalate; a failed fetch of the default branch at the end is fatal.

use vstd::prelude::*;

verus! {

/// A failure kind reported by the engine.
#[derive(Clone, Copy, PartialEq, Eq, Structural, Debug)]
pub enum CommandError {
    /// No repository was found at the given path or by environment discovery.
    RepositoryNotFound,
    /// The named remote does not exist in the repository.
    RemoteNotFound,
    /// The authentication-retry bound was exceeded without a successful
    /// connection.
    AuthExhausted,
    /// A network- or protocol-level failure while talking to the remote.
    TransportFailure,
    /// HEAD or the remote's default branch could not be resolved to a name.
    RefResolutionFailure,
    /// A fetch operation failed.
    FetchFailure,
    /// Deleting one local branch failed; never fatal to the surrounding
    /// pruning loop.
    BranchDeletionFailure,
    /// Updating the working tree after a fast-forward failed.
    CheckoutFailure,
}

/// The text `message` returns for each error kind.
pub open spec fn message_spec(e: CommandError) -> Seq<char> {
    match e {
        CommandError::RepositoryNotFound => "repository not found"@,
        CommandError::RemoteNotFound => "remote not found"@,
        CommandError::AuthExhausted => "authentication retries exhausted"@,
        CommandError::TransportFailure => "transport failure"@,
        CommandError::RefResolutionFailure => "reference resolution failure"@,
        CommandError::FetchFailure => "fetch failure"@,
        CommandError::BranchDeletionFailure => "branch deletion failure"@,
        CommandError::CheckoutFailure => "checkout failure"@,
    }
}

impl CommandError {
    /// A human-readable description of the error kind.
    pub fn message(&self) -> (m: String)
        ensures
            m@ == message_spec(*self),
    {
        match self {
            CommandError::RepositoryNotFound => String::from_str("repository not found"),
            CommandError::RemoteNotFound => String::from_str("remote not found"),
            CommandError::AuthExhausted => String::from_str("authentication retries exhausted"),
            CommandError::TransportFailure => String::from_str("transport failure"),
            CommandError::RefResolutionFailure => String::from_str("reference resolution failure"),
            CommandError::FetchFailure => String::from_str("fetch failure"),
            CommandError::BranchDeletionFailure => String::from_str("branch deletion failure"),
            CommandError::CheckoutFailure => String::from_str("checkout failure"),
        }
    }
}

} // verus!
