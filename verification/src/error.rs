//! The error taxonomy of the library.

use vstd::prelude::*;
use vstd::string::StringExecFns;

verus! {

/// Errors surfaced by the library. Configuration errors are fatal before any
/// reconciliation; repository-access and git-operation errors are fatal for
/// the node they occur at.
#[derive(Debug)]
pub enum GemoteError {
    /// No repository could be opened or discovered.
    RepoNotFound(git2::Error),
    /// The configuration file does not exist (the payload is its path).
    ConfigNotFound(String),
    /// The configuration document is malformed.
    ConfigParse(String),
    /// The configuration could not be serialized.
    ConfigSerialize(String),
    /// An underlying version-control operation failed.
    Git(git2::Error),
    /// A filesystem operation failed.
    Io(String),
}

/// The human-readable text of an error.
pub open spec fn spec_error_message(e: &GemoteError) -> Seq<char> {
    match e {
        GemoteError::RepoNotFound(_) => "failed to discover git repository"@,
        GemoteError::ConfigNotFound(p) => "config file not found: "@ + p@,
        GemoteError::ConfigParse(d) => "failed to parse config: "@ + d@,
        GemoteError::ConfigSerialize(_) => "failed to serialize config"@,
        GemoteError::Git(_) => "git operation failed"@,
        GemoteError::Io(_) => "IO error"@,
    }
}

impl GemoteError {
    /// Render the error as one human-readable line.
    pub fn message(&self) -> (r: String)
        ensures
            r@ == spec_error_message(self),
    {
        match self {
            GemoteError::RepoNotFound(_) => {
                let r = String::from_str("failed to discover git repository");
                assert(r@ =~= spec_error_message(self));
                r
            },
            GemoteError::ConfigNotFound(p) => {
                let mut r = String::from_str("config file not found: ");
                r.append(p.as_str());
                assert(r@ =~= spec_error_message(self));
                r
            },
            GemoteError::ConfigParse(d) => {
                let mut r = String::from_str("failed to parse config: ");
                r.append(d.as_str());
                assert(r@ =~= spec_error_message(self));
                r
            },
            GemoteError::ConfigSerialize(_) => {
                let r = String::from_str("failed to serialize config");
                assert(r@ =~= spec_error_message(self));
                r
            },
            GemoteError::Git(_) => {
                let r = String::from_str("git operation failed");
                assert(r@ =~= spec_error_message(self));
                r
            },
            GemoteError::Io(_) => {
                let r = String::from_str("IO error");
                assert(r@ =~= spec_error_message(self));
                r
            },
        }
    }
}

} // verus!
