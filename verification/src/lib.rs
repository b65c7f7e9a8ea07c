//! Core of a build daemon that mediates between editor clients and native
//! build tooling: a per-project broadcast hub fanning subprocess output out to
//! attached clients, a debounced watch-and-retrigger scheduler, and a parser
//! that derives a compile-command database from raw build logs.

pub mod broadcast;
pub mod command;
pub mod compile;
pub mod generator;
pub mod message;
pub mod project;
pub mod response;
pub mod state;
pub mod text;
pub mod watch;

use vstd::prelude::*;

verus! {

/// Error taxonomy of the daemon.
///
/// Failures local to one client connection or one subprocess never propagate
/// to unrelated projects, registrations, or clients; build failures are
/// recoverable by design.
#[derive(Debug, PartialEq)]
pub enum DaemonError {
    /// Endpoint bind/remove or file read/write failure; fatal to the
    /// operation that caused it, but not to the daemon.
    IoError,
    /// Spawn failure or abnormal termination of a supervised process,
    /// carrying the name of the target that failed to build.
    ProcessError { target: String },
    /// Project regeneration failed.
    GenerateError,
    /// A client-issued request named a project root or registration that is
    /// not present in the daemon state.
    StateError,
    /// A malformed outbound message; the message is dropped, the relay
    /// continues.
    SerializationError,
}

impl DaemonError {
    /// Whether this error leaves the daemon state untouched and recoverable.
    pub fn is_recoverable(&self) -> (r: bool)
        ensures
            r == !(self is IoError),
    {
        !matches!(self, DaemonError::IoError)
    }
}

} // verus!
