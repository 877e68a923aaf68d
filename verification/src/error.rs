//! The library's error taxonomy. Every fallible operation returns one of
//! these typed failures; contracts state exactly when each one is produced.

use vstd::prelude::*;

verus! {

/// A typed failure of a registry, manifest or lifecycle operation.
#[derive(Clone, Copy, Debug, PartialEq, Eq, Structural)]
pub enum SomaError {
    /// The data directory could not be created or opened.
    DataDirectoryAccessDenied,
    /// Another process holds the exclusive lock on the data directory.
    DataDirectoryLockFailed,
    /// The container runtime reported a failure while building an image.
    DockerBuildFailed,
    /// A repository with the same name is already registered.
    DuplicateRepository,
    /// A file name could not be derived from a path.
    FileNameNotFound,
    /// A source file is neither a regular file nor a directory.
    FileUnreachable,
    /// Some entry in the manifest is invalid.
    InvalidManifest,
    /// The repository does not contain a manifest or a problem list.
    InvalidRepository,
    /// The problem list contains a duplicate or inaccessible entry.
    InvalidSomaList,
    /// The name does not satisfy the container image name component rules.
    InvalidName,
    /// A path contains characters outside the supported encoding.
    InvalidUnicode,
    /// A container for the problem is already running.
    ProblemAlreadyRunning,
    /// No problem matches the query.
    ProblemNotFound,
    /// No container exists for the problem.
    ProblemNotRunning,
    /// The query matches more than one problem.
    ProblemQueryAmbiguous,
    /// An image or a container from the repository still exists.
    RepositoryInUse,
    /// No repository with the given name is registered.
    RepositoryNotFound,
    /// The repository changed in a way the update operation cannot handle.
    UnsupportedUpdate,
}

/// The result type used by every fallible operation of the library.
pub type SomaResult<T> = Result<T, SomaError>;

impl SomaError {
    /// A human-readable description of the failure.
    pub fn message(&self) -> &'static str {
        match self {
            SomaError::DataDirectoryAccessDenied => "Failed to access the data directory",
            SomaError::DataDirectoryLockFailed => {
                "Another Soma instance is using the data directory"
            },
            SomaError::DockerBuildFailed => "Failed to build docker image for a problem",
            SomaError::DuplicateRepository => "A repository with the same name already exists",
            SomaError::FileNameNotFound => "Failed to detect filename from the path",
            SomaError::FileUnreachable => {
                "The specified file does not exist, or you don't have enough permission to access it"
            },
            SomaError::InvalidManifest => "Some entry in the manifest is invalid",
            SomaError::InvalidRepository => {
                "The provided repository does not contain 'soma.toml' or 'soma-list.toml'"
            },
            SomaError::InvalidSomaList => {
                "soma-list.toml contains a duplicate or inaccessible entry"
            },
            SomaError::InvalidName => {
                "The name doesn't satisfy docker name component rules, which allows lower case alphanumerics with non-boundary '_', '__', or (multiple) '-'(s)"
            },
            SomaError::InvalidUnicode => {
                "The specified file's path contains unsupported characters"
            },
            SomaError::ProblemAlreadyRunning => {
                "There is a container already running for the specified problem"
            },
            SomaError::ProblemNotFound => "The specified problem is not found",
            SomaError::ProblemNotRunning => {
                "There is no container running for the specified problem"
            },
            SomaError::ProblemQueryAmbiguous => "The provided query returned multiple problems",
            SomaError::RepositoryInUse => "There is an image or an container from the repository",
            SomaError::RepositoryNotFound => "The specified repository is not found",
            SomaError::UnsupportedUpdate => {
                "The repository contains changes that cannot be handled by update command; Please remove and add the repository manually"
            },
        }
    }
}

} // verus!
