//! The units of work that run side by side, and how one of them fails.

use vstd::prelude::*;

verus! {

/// One unit of work under the supervisor.
#[derive(Clone, Copy, Debug, PartialEq, Eq, Structural)]
pub enum Task {
    /// The decoy listener on this port.
    Listener(u16),
    /// The metrics server on this port.
    Metrics(u16),
    /// The stand-in for the metrics server where none is configured: it never
    /// ends and never fails.
    Idle,
}

impl Task {
    /// The port that the task needs for itself, if it needs one.
    pub open spec fn spec_port(self) -> Option<u16> {
        match self {
            Task::Listener(port) => Some(port),
            Task::Metrics(port) => Some(port),
            Task::Idle => None,
        }
    }

    /// The port that the task needs for itself, if it needs one.
    #[verifier::when_used_as_spec(spec_port)]
    pub fn port(self) -> (port: Option<u16>)
        ensures
            port == self.spec_port(),
    {
        match self {
            Task::Listener(port) => Some(port),
            Task::Metrics(port) => Some(port),
            Task::Idle => None,
        }
    }
}

/// At which step a task failed.
#[derive(Clone, Copy, Debug, PartialEq, Eq, Structural)]
pub enum FailureKind {
    /// The task's port could not be bound.
    Bind,
    /// The task's socket was bound and then failed to take a connection.
    Accept,
}

/// The end of a task: which one, at which step, and what the socket layer said.
/// Tasks end in no other way.
#[derive(Clone, Debug, PartialEq, Eq)]
pub struct Failure {
    pub task: Task,
    pub kind: FailureKind,
    pub detail: String,
}

} // verus!
