//! Failure kinds of the engine.
//!
//! [`TixError`] is the shared taxonomy; each operation that can also fail in
//! an operation-specific way wraps it in a small enum of its own. The
//! `InvalidArgument` variants mark arguments that the operation cannot even
//! marshal; the engine's typed surface never produces them, but callers that
//! translate foreign input may.

use vstd::prelude::*;

verus! {

/// Everything that can go wrong inside the engine.
///
/// The switch variants carry the project name they were invoked with.
#[derive(Clone, Debug, PartialEq, Eq)]
pub enum TixError {
    OutOfMemory,
    NotARepository,
    CommandFailed,
    FileSystemError,
    InitWorkspaceCreationFailed,
    InitAccessDenied,
    ConfigInvalidKey,
    RemoteAlreadyExists,
    RemoteInvalidName,
    SwitchProjectNotFound(String),
    SwitchProjectAlreadyExists(String),
    SwitchAlreadyOnProject(String),
    InvalidPriority,
    InvalidStatus,
    InvalidTitle,
    InvalidTicketId,
    TicketNotFound,
    PushRejectedNeedsForce,
    UnknownError,
}

/// Failures of `add`.
#[derive(Clone, Debug, PartialEq, Eq)]
pub enum AddError {
    TixError(TixError),
    InvalidArgument,
}

/// Failures of `amend`.
#[derive(Clone, Debug, PartialEq, Eq)]
pub enum AmendError {
    TixError(TixError),
    InvalidArgument,
}

/// Failures of `clone`.
#[derive(Clone, Debug, PartialEq, Eq)]
pub enum CloneError {
    TixError(TixError),
    InvalidArgument,
}

/// Failures of `config_get` and `config_set`.
#[derive(Clone, Debug, PartialEq, Eq)]
pub enum ConfigError {
    TixError(TixError),
    InvalidArgument,
}

/// Failures of `list`.
#[derive(Clone, Debug, PartialEq, Eq)]
pub enum ListError {
    TixError(TixError),
    InvalidArgument,
    InvalidStatus,
}

/// Failures of `log`.
#[derive(Clone, Debug, PartialEq, Eq)]
pub enum LogError {
    TixError(TixError),
    InvalidArgument,
}

/// Failures of `mv`.
#[derive(Clone, Debug, PartialEq, Eq)]
pub enum MvError {
    TixError(TixError),
    InvalidArgument,
    InvalidStatus,
}

/// Failures of `projects`.
#[derive(Clone, Debug, PartialEq, Eq)]
pub enum ProjectsError {
    TixError(TixError),
}

/// Failures of `remote` and `remote_add`.
#[derive(Clone, Debug, PartialEq, Eq)]
pub enum RemoteError {
    TixError(TixError),
    InvalidArgument,
}

/// Failures of `show` and its field projections.
#[derive(Clone, Debug, PartialEq, Eq)]
pub enum ShowError {
    TixError(TixError),
    InvalidArgument,
}

/// Failures of `switch`.
#[derive(Clone, Debug, PartialEq, Eq)]
pub enum SwitchError {
    TixError(TixError),
    InvalidArgument,
}

/// What a successful `init` did.
#[derive(Clone, Debug, PartialEq, Eq, Structural)]
pub enum InitResult {
    /// A fresh workspace was created.
    Initialized,
    /// The workspace already existed; nothing changed.
    Reinitialized,
}

/// What a successful `switch` did; both variants carry the project name.
#[derive(Clone, Debug, PartialEq, Eq)]
pub enum SwitchResult {
    /// Switched to a project that already existed.
    Switched(String),
    /// Created the project and switched to it.
    Created(String),
}

} // verus!
