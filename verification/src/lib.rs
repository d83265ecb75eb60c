//! A versioned ticket store.
//!
//! The engine behind a small, git-like ticket tracker: tickets live in named
//! projects, every mutation appends a commit to the active project's history,
//! a cursor over that history drives linear undo/redo, and a push/pull/clone
//! protocol synchronises a whole workspace with a remote copy.
//!
//! All state is held in a [`workspace::Workspace`] value; callers perform I/O
//! (persistence, transport, terminals) outside and hand the engine plain
//! values.

pub mod error;
pub mod history;
pub mod ids;
pub mod laws;
pub mod logfmt;
pub mod store;
pub mod sync;
pub mod template;
pub mod text;
pub mod ticket;
pub mod workspace;

pub use error::{
    AddError, AmendError, CloneError, ConfigError, InitResult, ListError, LogError, MvError,
    ProjectsError, RemoteError, ShowError, SwitchError, SwitchResult, TixError,
};
pub use history::{Commit, CommitModel, Project, ProjectModel};
pub use sync::{Remote, RemoteModel, RemoteState, SyncProject, SyncProjectModel};
pub use template::parse_ticket_template;
pub use ticket::{Priority, PriorityVecExt, Status, StatusVecExt, Ticket, TicketModel};
pub use workspace::{Workspace, WorkspaceModel};
