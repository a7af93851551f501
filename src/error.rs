use vstd::prelude::*;

verus! {

/// What can stop a command.
#[derive(Debug, PartialEq, Eq)]
pub enum Error {
    /// The current directory holds no project marker file.
    NotInProject,
    /// The manifest is missing where a command needs it.
    ConfigNotFound,
    /// A source URL is malformed.
    InvalidUrl(String),
    /// An addon is absent from the manifest or from a source.
    AddonNotFound(String),
    /// A git operation failed.
    GitError(String),
    /// A filesystem operation failed.
    Io(String),
    /// Anything else, with its message.
    Other(String),
}

} // verus!
