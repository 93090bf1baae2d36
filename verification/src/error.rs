use vstd::prelude::*;

use crate::domain::allocation::{AllocationId, StateTransitionError};
use crate::text::joined;
use crate::worker::error::WorkerError;

verus! {

/// Why admission refused. Logged with the refusal, never returned in a body.
#[derive(Clone, Copy, Debug, PartialEq, Eq, Structural)]
pub enum BusyReason {
    Serialized,
    Slots,
    Budget,
    ProbeFailed,
    /// One profile's three image names are owned by one producer at a time.
    Regenerating,
}

/// A durable store could not be read or written.
#[derive(Debug, PartialEq, Eq)]
pub struct StoreError {
    pub message: String,
}

/// The caller's signed claims do not authorize the request.
#[derive(Debug, PartialEq, Eq)]
pub struct AuthorizationError {
    pub message: String,
}

#[derive(Debug, PartialEq, Eq)]
pub enum ManagerError {
    UnknownProfile(String),
    Busy { reason: BusyReason, holder: Option<AllocationId> },
    NotFound(AllocationId),
    DuplicateAllocation(AllocationId),
    InvalidVmName(String),
    InvalidRunnerLabel(String),
    RequestExceedsProfile,
    InvalidRequest,
    ShuttingDown,
    InvalidRunnerId,
    Authorization(AuthorizationError),
    Transition(StateTransitionError),
    Store(StoreError),
    Worker(WorkerError),
}

impl ManagerError {
    /// The text the error reads as.
    pub open spec fn text(&self) -> Seq<char> {
        match self {
            ManagerError::UnknownProfile(name) => "unknown profile "@ + name@,
            ManagerError::Busy { .. } => "allocation capacity is busy"@,
            ManagerError::NotFound(id) => "allocation "@ + id@ + " was not found"@,
            ManagerError::DuplicateAllocation(id) => "duplicate allocation ID "@ + id@
                + " in durable state"@,
            ManagerError::InvalidVmName(message) => "invalid generated VM name: "@ + message@,
            ManagerError::InvalidRunnerLabel(message) => "invalid generated runner label: "@
                + message@,
            ManagerError::RequestExceedsProfile => "request exceeds its profile ceiling"@,
            ManagerError::InvalidRequest => "allocation request is structurally invalid"@,
            ManagerError::ShuttingDown => "service is shutting down"@,
            ManagerError::InvalidRunnerId => "runner ID must be positive"@,
            ManagerError::Authorization(error) => error.message@,
            ManagerError::Transition(error) => match error.message {
                Some(message) => message@,
                None => Seq::empty(),
            },
            ManagerError::Store(error) => error.message@,
            ManagerError::Worker(error) => error.text(),
        }
    }

    /// The text the error reads as.
    pub fn message(&self) -> (text: String)
        ensures
            text@ == self.text(),
    {
        match self {
            ManagerError::UnknownProfile(name) => joined("unknown profile ", name.as_str()),
            ManagerError::Busy { .. } => "allocation capacity is busy".to_owned(),
            ManagerError::NotFound(id) => enclosed("allocation ", id.as_str(), " was not found"),
            ManagerError::DuplicateAllocation(id) => enclosed(
                "duplicate allocation ID ",
                id.as_str(),
                " in durable state",
            ),
            ManagerError::InvalidVmName(message) => joined(
                "invalid generated VM name: ",
                message.as_str(),
            ),
            ManagerError::InvalidRunnerLabel(message) => joined(
                "invalid generated runner label: ",
                message.as_str(),
            ),
            ManagerError::RequestExceedsProfile => "request exceeds its profile ceiling".to_owned(),
            ManagerError::InvalidRequest => {
                "allocation request is structurally invalid".to_owned()
            },
            ManagerError::ShuttingDown => "service is shutting down".to_owned(),
            ManagerError::InvalidRunnerId => "runner ID must be positive".to_owned(),
            ManagerError::Authorization(error) => error.message.clone(),
            ManagerError::Transition(error) => match &error.message {
                Some(message) => message.clone(),
                None => String::new(),
            },
            ManagerError::Store(error) => error.message.clone(),
            ManagerError::Worker(error) => error.message().clone(),
        }
    }
}

fn enclosed(head: &str, middle: &str, tail: &str) -> (text: String)
    ensures
        text@ == head@ + middle@ + tail@,
{
    let front: String = joined(head, middle);
    joined(front.as_str(), tail)
}

} // verus!
