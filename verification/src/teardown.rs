use vstd::prelude::*;

use crate::error::ManagerError;
use crate::worker::error::{bounded, WorkerError, MESSAGE_LIMIT};

verus! {

/// Binds allocation teardown to the worker task's scope. Whatever ends that
/// task, what it holds is torn down once.
#[derive(Debug)]
pub struct WorkerTeardown<T> {
    /// Taking this claim is what makes teardown run exactly once: the normal
    /// path takes it and awaits teardown, and the guard only fires without it.
    claim: Option<T>,
}

impl<T> WorkerTeardown<T> {
    /// Is teardown still owed?
    pub closed spec fn is_owed(&self) -> bool {
        self.claim is Some
    }

    /// What is owed a teardown.
    pub closed spec fn owed(&self) -> Option<T> {
        self.claim
    }

    pub fn new(teardown: T) -> (guard: WorkerTeardown<T>)
        ensures
            guard.is_owed(),
            guard.owed() == Some(teardown),
    {
        WorkerTeardown { claim: Some(teardown) }
    }

    /// Takes what is owed a teardown, and disarms the guard: whoever asks next
    /// gets nothing.
    pub fn ensure_finished(&mut self) -> (teardown: Option<T>)
        ensures
            teardown == old(self).owed(),
            teardown is Some <==> old(self).is_owed(),
            !final(self).is_owed(),
            final(self).owed() is None,
    {
        self.claim.take()
    }
}

/// Does a worker's end speak against the warm image it booted? A full host
/// proves nothing about an image it never used.
pub fn is_image_suspect(run_result: &Result<(), WorkerError>) -> (is: bool)
    ensures
        is == (*run_result matches Err(error) && !(error is Capacity)),
{
    match run_result {
        Ok(()) => false,
        Err(error) => !error.is_capacity(),
    }
}

/// What follows the end of an allocation's worker, in its order.
#[derive(Clone, Copy, Debug, PartialEq, Eq, Structural)]
pub enum WorkerEndStep {
    /// Hold the failure against the warm image the allocation booted.
    Quarantine,
    /// Record the worker's error.
    RecordError,
    /// Drive the allocation to the state its worker's end asks for.
    Finish,
    /// Nobody listens to the allocation's token any more: say so.
    Release,
    Done,
}

/// Where the end of a worker begins. One that succeeded has nothing to record,
/// and one that found the host full says nothing of an image.
pub open spec fn worker_end_start(run_result: Result<(), WorkerError>) -> WorkerEndStep {
    match run_result {
        Ok(()) => WorkerEndStep::Finish,
        Err(error) => if error is Capacity {
            WorkerEndStep::RecordError
        } else {
            WorkerEndStep::Quarantine
        },
    }
}

pub open spec fn worker_end_next(step: WorkerEndStep) -> WorkerEndStep {
    match step {
        WorkerEndStep::Quarantine => WorkerEndStep::RecordError,
        WorkerEndStep::RecordError => WorkerEndStep::Finish,
        WorkerEndStep::Finish => WorkerEndStep::Release,
        _ => WorkerEndStep::Done,
    }
}

/// Where the end of a worker begins.
pub fn begin_worker_end(run_result: &Result<(), WorkerError>) -> (step: WorkerEndStep)
    ensures
        step == worker_end_start(*run_result),
{
    if run_result.is_ok() {
        WorkerEndStep::Finish
    } else if is_image_suspect(run_result) {
        WorkerEndStep::Quarantine
    } else {
        WorkerEndStep::RecordError
    }
}

/// What follows a step, whatever the step came to: neither an error that cannot
/// be recorded nor an allocation that cannot be finished keeps the rest from
/// being done.
pub fn next_worker_end(step: WorkerEndStep, _outcome: &Result<(), ManagerError>) -> (next:
    WorkerEndStep)
    ensures
        next == worker_end_next(step),
{
    match step {
        WorkerEndStep::Quarantine => WorkerEndStep::RecordError,
        WorkerEndStep::RecordError => WorkerEndStep::Finish,
        WorkerEndStep::Finish => WorkerEndStep::Release,
        WorkerEndStep::Release => WorkerEndStep::Done,
        WorkerEndStep::Done => WorkerEndStep::Done,
    }
}

/// How far the end of a worker still is.
pub open spec fn worker_end_left(step: WorkerEndStep) -> nat {
    match step {
        WorkerEndStep::Quarantine => 4,
        WorkerEndStep::RecordError => 3,
        WorkerEndStep::Finish => 2,
        WorkerEndStep::Release => 1,
        WorkerEndStep::Done => 0,
    }
}

/// Supervision is released last, after the allocation was finished, and nothing
/// is over before it is: until then a cancel still finds a worker to signal.
pub proof fn law_supervision_is_released_last(
    run_result: Result<(), WorkerError>,
    step: WorkerEndStep,
)
    ensures
        !(worker_end_start(run_result) is Release) && !(worker_end_start(run_result) is Done),
        worker_end_next(step) is Release <==> step is Finish,
        worker_end_next(step) is Done <==> step is Release || step is Done,
        worker_end_next(step) is RecordError <==> step is Quarantine,
        !(step is Done) ==> worker_end_left(worker_end_next(step)) < worker_end_left(step),
{
}

/// What a worker that ended without returning failed with.
pub fn worker_vanished() -> (error: WorkerError)
    ensures
        error matches WorkerError::Failed(text) && text@ == bounded(
            "allocation worker task ended without returning"@,
            MESSAGE_LIMIT as int,
        ),
{
    WorkerError::new("allocation worker task ended without returning".to_owned())
}

/// A failed worker is recorded before its allocation is finished, and held against
/// its image first unless the host was merely full; a worker that succeeded has
/// nothing to record.
pub proof fn law_failure_is_recorded_before_the_end(run_result: Result<(), WorkerError>)
    ensures
        run_result is Ok ==> worker_end_start(run_result) is Finish,
        run_result matches Err(error) ==> if error is Capacity {
            worker_end_start(run_result) is RecordError
        } else {
            worker_end_start(run_result) is Quarantine
        },
        worker_end_next(WorkerEndStep::RecordError) is Finish,
{
}

} // verus!
