//! The daemon that owns interactive agent sessions: who may attach, what each
//! connection is told, and when a session ends.
use vstd::prelude::*;

pub mod admission;
pub mod attachment;
pub mod capability;
pub mod catalog;
pub mod connection;
pub mod conversing;
pub mod fitting;
pub mod frame_fit;
pub mod handshake;
pub mod lifecycle;
pub mod listed;
pub mod listing;
pub mod local_socket;
pub mod membership;
pub mod pages;
pub mod paging;
pub mod registry;
pub mod restoring;
pub mod retelling;
pub mod setup;
pub mod snapshot_course;
pub mod snapshot_events;
pub mod snapshot_state;
pub mod turnover;
pub mod wire_errors;

verus! {

#[derive(Debug, Clone, Copy, PartialEq, Eq, Structural)]
pub enum SessionOpenMode {
    Create,
    Load,
}

#[derive(Debug, Clone, Copy, PartialEq, Eq, Structural)]
pub enum SessionOpenError {
    NotFound,
    UnsafeId,
    FutureVersion,
    UnsupportedVersion,
    Corrupt,
    Permission,
    Io,
    WorkspaceUnknown,
    WorkspaceMismatch,
    Internal,
}

#[derive(Debug, PartialEq, Eq)]
pub enum SessionDaemonError {
    DuplicateSession(String),
    SessionLimitReached { max: usize },
    SessionNotFound(String),
    SessionStopped(String),
    DuplicateClient(String),
    ClientLimitReached { max: usize },
    EventSubscription(String),
    FactoryUnavailable,
    OpenFailed(SessionOpenError),
    ShuttingDown,
}

/// What a last attempt to save a session came to.
#[derive(Debug, Clone, Copy, PartialEq, Eq, Structural)]
pub enum FinalSaveOutcome {
    Saved,
    Failed,
    TimedOut,
}

} // verus!
