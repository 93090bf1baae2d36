use vstd::prelude::*;

use crate::domain::allocation::{Allocation, AllocationId, AllocationState};
use crate::error::ManagerError;
use crate::service::AllocationManager;
use crate::state::{find_entry, is_keyed, is_resident, law_entry_is_found_by_its_id, place_of, Entry};
use crate::text::joined;
use crate::worker::budget::CleanupBudget;
use crate::worker::error::{bounded, WorkerError, MESSAGE_LIMIT};

verus! {

/// How often teardown is tried while no stop is running.
pub const CLEANUP_ATTEMPTS: u32 = 3;

/// The state a worker's end asks for: a cancelled one is cancelled, whatever
/// came of it.
pub open spec fn asked_state(is_cancelled: bool, is_ok: bool) -> AllocationState {
    if is_cancelled {
        AllocationState::Cancelled
    } else if is_ok {
        AllocationState::Completed
    } else {
        AllocationState::Failed
    }
}

/// The state a worker's end asks for.
pub fn finish_worker(is_cancelled: bool, run_result: &Result<(), WorkerError>) -> (requested:
    AllocationState)
    ensures
        requested == asked_state(is_cancelled, *run_result is Ok),
{
    if is_cancelled {
        AllocationState::Cancelled
    } else if run_result.is_ok() {
        AllocationState::Completed
    } else {
        AllocationState::Failed
    }
}

/// What one attempt of a cleanup leads to. The last two end it.
#[derive(Debug, PartialEq, Eq)]
pub enum CleanupStep {
    /// Wait the configured pause, then try again.
    Pause,
    Succeeded,
    /// The attempts are used up. Under a stop the allocation is a leak.
    Exhausted { error: WorkerError, is_leaked: bool },
}

/// A cleanup and its retries.
#[derive(Debug)]
pub struct CleanupRun {
    /// How many attempts there are in all.
    pub attempts: u32,
    /// How many were made.
    pub made: u32,
    pub budget: CleanupBudget,
}

impl CleanupRun {
    /// A closing manager gets one bounded attempt: spending a fixed grace on
    /// retries guarantees that the process is killed in the middle of one, and
    /// recovery reconciles the rest on the next start.
    pub open spec fn of(budget: CleanupBudget) -> CleanupRun {
        CleanupRun {
            attempts: if budget.deadline is Some {
                1
            } else {
                CLEANUP_ATTEMPTS
            },
            made: 0,
            budget,
        }
    }

    /// No more attempts are made than there are.
    pub open spec fn wf(&self) -> bool {
        &&& self.attempts == CleanupRun::of(self.budget).attempts
        &&& self.made <= self.attempts
    }

    pub fn new(budget: CleanupBudget) -> (run: CleanupRun)
        ensures
            run == CleanupRun::of(budget),
            run.wf(),
    {
        CleanupRun {
            attempts: if budget.is_bounded() {
                1
            } else {
                CLEANUP_ATTEMPTS
            },
            made: 0,
            budget,
        }
    }

    /// Takes in what one attempt came to.
    pub fn attempted(&mut self, outcome: Result<(), WorkerError>) -> (step: CleanupStep)
        requires
            old(self).wf(),
            old(self).made < old(self).attempts,
        ensures
            final(self).wf(),
            *final(self) == (CleanupRun { made: (old(self).made + 1) as u32, ..*old(self) }),
            step == match outcome {
                Ok(()) => CleanupStep::Succeeded,
                Err(error) => if old(self).made + 1 < old(self).attempts {
                    CleanupStep::Pause
                } else {
                    CleanupStep::Exhausted { error, is_leaked: old(self).budget.deadline is Some }
                },
            },
    {
        self.made = self.made + 1;
        match outcome {
            Ok(()) => CleanupStep::Succeeded,
            Err(error) => if self.made < self.attempts {
                CleanupStep::Pause
            } else {
                CleanupStep::Exhausted { error, is_leaked: self.budget.is_bounded() }
            },
        }
    }
}

/// What a teardown attempt fails with when the grace ran out under it.
pub fn abandoned_cleanup() -> (error: WorkerError)
    ensures
        error matches WorkerError::Failed(text) && text@ == bounded(
            "cleanup was abandoned when the shutdown grace expired"@,
            MESSAGE_LIMIT as int,
        ),
{
    WorkerError::new("cleanup was abandoned when the shutdown grace expired".to_owned())
}

/// What an allocation's record says when its cleanup used up its retries.
pub fn cleanup_failure(error: &WorkerError) -> (text: String)
    ensures
        text@ == "cleanup failed: "@ + error.text(),
{
    joined("cleanup failed: ", error.message().as_str())
}

/// The next thing that drives an allocation to its end. The last two end it.
#[derive(Debug, PartialEq, Eq)]
pub enum TerminalStep {
    /// Record that the allocation is being cleaned; teardown runs whether or
    /// not that can be written.
    Clean,
    /// Let the pool take the machine. That comes before cleanup, because
    /// cleanup is what destroys a guest.
    Release { allocation: Allocation },
    /// Tear the guest and the runner down.
    Cleanup { allocation: Allocation },
    /// Record that cleanup used up its retries.
    RecordFailure { error: WorkerError },
    /// Record the cleaning again where that failed before; now it has to be
    /// written.
    CleanAgain { terminal: AllocationState },
    /// Record the end.
    Transition { terminal: AllocationState },
    Done(AllocationState),
    Failed(ManagerError),
}

/// What a step came back with.
#[derive(Debug, PartialEq, Eq)]
pub enum TerminalEvent {
    /// The record was written, or why it was not.
    Recorded(Result<(), ManagerError>),
    Released,
    CleanedUp(Result<(), WorkerError>),
}

/// What follows a step, given what is resident at that moment. An answer that
/// is not the one a step waits for changes nothing.
pub open spec fn terminal_next(
    step: TerminalStep,
    event: TerminalEvent,
    latest: Result<Allocation, ManagerError>,
    fallback: Allocation,
    requested: AllocationState,
) -> TerminalStep {
    match (step, event) {
        (TerminalStep::Clean, TerminalEvent::Recorded(_)) => {
            let current = match latest {
                Ok(found) => found,
                Err(_) => fallback,
            };
            if current.state.terminal() {
                TerminalStep::Done(current.state)
            } else if current.hot() {
                TerminalStep::Release { allocation: current }
            } else {
                TerminalStep::Cleanup { allocation: current }
            }
        },
        (TerminalStep::Release { allocation }, TerminalEvent::Released) => TerminalStep::Cleanup {
            allocation,
        },
        (TerminalStep::Cleanup { .. }, TerminalEvent::CleanedUp(outcome)) => match outcome {
            Ok(()) => TerminalStep::CleanAgain { terminal: requested },
            Err(error) => match latest {
                Ok(found) => if found.state.terminal() {
                    TerminalStep::Done(found.state)
                } else {
                    TerminalStep::RecordFailure { error }
                },
                Err(_) => TerminalStep::RecordFailure { error },
            },
        },
        (
            TerminalStep::RecordFailure { .. },
            TerminalEvent::Recorded(_),
        ) => TerminalStep::CleanAgain { terminal: AllocationState::Failed },
        (TerminalStep::CleanAgain { terminal }, TerminalEvent::Recorded(outcome)) => match outcome {
            Err(error) => TerminalStep::Failed(error),
            Ok(()) => match latest {
                Err(error) => TerminalStep::Failed(error),
                Ok(found) => if found.state.terminal() {
                    TerminalStep::Done(found.state)
                } else {
                    TerminalStep::Transition { terminal }
                },
            },
        },
        (TerminalStep::Transition { terminal }, TerminalEvent::Recorded(outcome)) => match outcome {
            Ok(()) => TerminalStep::Done(terminal),
            Err(error) => TerminalStep::Failed(error),
        },
        _ => step,
    }
}

impl AllocationManager {
    /// What is resident of this allocation.
    pub open spec fn latest(&self, id: AllocationId) -> Result<Allocation, ManagerError> {
        if is_resident(self.entries@, id@) {
            Ok(self.entries@[place_of(self.entries@, id@)].allocation)
        } else {
            Err(ManagerError::NotFound(id))
        }
    }

    /// Runs teardown before requiring durable terminal bookkeeping: what
    /// follows a step. It begins with `Clean`. Cleanup exhaustion records
    /// `Failed`; state errors propagate after teardown.
    ///
    /// `fallback` is the caller's snapshot, used where the entry is gone.
    pub fn ensure_terminal(
        &self,
        step: TerminalStep,
        event: TerminalEvent,
        fallback: &Allocation,
        requested: AllocationState,
    ) -> (next: TerminalStep)
        requires
            is_keyed(self.entries@),
        ensures
            next == terminal_next(step, event, self.latest(fallback.id), *fallback, requested),
    {
        match (step, event) {
            (TerminalStep::Clean, TerminalEvent::Recorded(_)) => {
                let current: Allocation = match self.get(&fallback.id) {
                    Ok(found) => found,
                    Err(_) => fallback.clone(),
                };
                // Someone else finished it while this call was waiting: that is
                // success, not a refused transition and not an error to stamp
                // on the record.
                if current.state.is_terminal() {
                    return TerminalStep::Done(current.state);
                }
                if current.is_hot() {
                    TerminalStep::Release { allocation: current }
                } else {
                    TerminalStep::Cleanup { allocation: current }
                }
            },
            (TerminalStep::Release { allocation }, TerminalEvent::Released) => {
                TerminalStep::Cleanup { allocation }
            },
            (TerminalStep::Cleanup { .. }, TerminalEvent::CleanedUp(outcome)) => match outcome {
                Ok(()) => TerminalStep::CleanAgain { terminal: requested },
                Err(error) => match self.get(&fallback.id) {
                    Ok(found) => if found.state.is_terminal() {
                        TerminalStep::Done(found.state)
                    } else {
                        TerminalStep::RecordFailure { error }
                    },
                    Err(_) => TerminalStep::RecordFailure { error },
                },
            },
            (TerminalStep::RecordFailure { .. }, TerminalEvent::Recorded(_)) => {
                TerminalStep::CleanAgain { terminal: AllocationState::Failed }
            },
            (
                TerminalStep::CleanAgain { terminal },
                TerminalEvent::Recorded(outcome),
            ) => match outcome {
                Err(error) => TerminalStep::Failed(error),
                Ok(()) => match self.get(&fallback.id) {
                    Err(error) => TerminalStep::Failed(error),
                    Ok(found) => if found.state.is_terminal() {
                        TerminalStep::Done(found.state)
                    } else {
                        TerminalStep::Transition { terminal }
                    },
                },
            },
            (
                TerminalStep::Transition { terminal },
                TerminalEvent::Recorded(outcome),
            ) => match outcome {
                Ok(()) => TerminalStep::Done(terminal),
                Err(error) => TerminalStep::Failed(error),
            },
            (other, _) => other,
        }
    }

    /// Is a task listening to this allocation's token?
    pub fn is_supervised(&self, id: &AllocationId) -> (is: bool)
        requires
            is_keyed(self.entries@),
        ensures
            is == (is_resident(self.entries@, id@) && self.entries@[place_of(
                self.entries@,
                id@,
            )].is_supervised),
    {
        match find_entry(&self.entries, id) {
            Some(index) => self.entries[index].is_supervised,
            None => false,
        }
    }

    /// No task listens to this allocation's token from here on, whether or not
    /// it reached a terminal state, so the operator must not be told a
    /// cancellation was signalled to somebody.
    pub fn release_supervision(&mut self, id: &AllocationId)
        requires
            is_keyed(old(self).entries@),
        ensures
            old(self).wf() ==> final(self).wf(),
            is_keyed(final(self).entries@),
            final(self).entries@ == if is_resident(old(self).entries@, id@) {
                let place = place_of(old(self).entries@, id@);
                old(self).entries@.update(
                    place,
                    Entry { is_supervised: false, ..old(self).entries@[place] },
                )
            } else {
                old(self).entries@
            },
            *final(self) == (AllocationManager { entries: final(self).entries, ..*old(self) }),
    {
        if let Some(index) = find_entry(&self.entries, id) {
            let entry: Entry = self.entries[index].clone();
            self.entries.set(
                index,
                Entry {
                    allocation: entry.allocation,
                    is_supervised: false,
                    is_terminalizing: entry.is_terminalizing,
                },
            );
        }
    }
}

/// Teardown runs whatever becomes of the bookkeeping before it: an allocation
/// that is not over is cleaned up, whether or not `Cleaning` could be written
/// and whether or not its entry is still there.
pub proof fn law_teardown_always_runs(
    outcome: Result<(), ManagerError>,
    latest: Result<Allocation, ManagerError>,
    fallback: Allocation,
    requested: AllocationState,
)
    requires
        latest matches Ok(found) ==> found.live(),
        latest is Err ==> fallback.live(),
    ensures
        ({
            let next = terminal_next(
                TerminalStep::Clean,
                TerminalEvent::Recorded(outcome),
                latest,
                fallback,
                requested,
            );
            next is Cleanup || (next is Release && terminal_next(
                next,
                TerminalEvent::Released,
                latest,
                fallback,
                requested,
            ) is Cleanup)
        }),
{
}

/// An allocation ends as it was asked to only where its cleanup succeeded; an
/// exhausted cleanup ends it as failed.
pub proof fn law_failed_cleanup_ends_failed(
    error: WorkerError,
    allocation: Allocation,
    recorded: Result<(), ManagerError>,
    latest: Result<Allocation, ManagerError>,
    fallback: Allocation,
    requested: AllocationState,
)
    requires
        latest matches Ok(found) ==> found.live(),
    ensures
        ({
            let after = terminal_next(
                TerminalStep::Cleanup { allocation },
                TerminalEvent::CleanedUp(Err(error)),
                latest,
                fallback,
                requested,
            );
            after == (TerminalStep::RecordFailure { error }) && terminal_next(
                after,
                TerminalEvent::Recorded(recorded),
                latest,
                fallback,
                requested,
            ) == (TerminalStep::CleanAgain { terminal: AllocationState::Failed })
        }),
{
}

/// An allocation that is over already is left as it is: no cleanup runs a
/// second time and nothing is written over its state.
pub proof fn law_finished_work_is_left_alone(
    outcome: Result<(), ManagerError>,
    found: Allocation,
    fallback: Allocation,
    requested: AllocationState,
)
    requires
        found.state.terminal(),
    ensures
        terminal_next(
            TerminalStep::Clean,
            TerminalEvent::Recorded(outcome),
            Ok(found),
            fallback,
            requested,
        ) == TerminalStep::Done(found.state),
{
}

/// How far the drive to an end still is.
pub open spec fn terminal_left(step: TerminalStep) -> nat {
    match step {
        TerminalStep::Clean => 6,
        TerminalStep::Release { .. } => 5,
        TerminalStep::Cleanup { .. } => 4,
        TerminalStep::RecordFailure { .. } => 3,
        TerminalStep::CleanAgain { .. } => 2,
        TerminalStep::Transition { .. } => 1,
        _ => 0,
    }
}

/// Every answer a step waits for brings an allocation nearer its end, and the
/// state it ends in is a terminal one.
pub proof fn law_terminalizing_ends(
    step: TerminalStep,
    event: TerminalEvent,
    latest: Result<Allocation, ManagerError>,
    fallback: Allocation,
    requested: AllocationState,
)
    requires
        requested.terminal(),
        step matches TerminalStep::CleanAgain { terminal } ==> terminal.terminal(),
        step matches TerminalStep::Transition { terminal } ==> terminal.terminal(),
    ensures
        ({
            let next = terminal_next(step, event, latest, fallback, requested);
            &&& next == step || terminal_left(next) < terminal_left(step)
            &&& next != step ==> (next matches TerminalStep::Done(state) ==> state.terminal())
            &&& next matches TerminalStep::CleanAgain { terminal } ==> terminal.terminal()
            &&& next matches TerminalStep::Transition { terminal } ==> terminal.terminal()
        }),
{
}

proof fn lemma_drive_advances(
    steps: Seq<TerminalStep>,
    events: Seq<TerminalEvent>,
    latests: Seq<Result<Allocation, ManagerError>>,
    fallback: Allocation,
    requested: AllocationState,
    i: int,
    j: int,
)
    requires
        is_drive(steps, events, latests, fallback, requested),
        0 <= i < j < steps.len(),
    ensures
        terminal_left(steps[j]) < terminal_left(steps[i]),
    decreases j - i,
{
    assert(is_drive_step(steps, events, latests, fallback, requested, j - 1));
    if i < j - 1 {
        lemma_drive_advances(steps, events, latests, fallback, requested, i, j - 1);
    }
}

/// Is the step after this one what its answer led to, and another one?
pub open spec fn is_drive_step(
    steps: Seq<TerminalStep>,
    events: Seq<TerminalEvent>,
    latests: Seq<Result<Allocation, ManagerError>>,
    fallback: Allocation,
    requested: AllocationState,
    k: int,
) -> bool {
    &&& steps[k + 1] == terminal_next(steps[k], events[k], latests[k], fallback, requested)
    &&& steps[k + 1] != steps[k]
}

/// Are these the steps one drive to an end went through, with what each came back
/// with and what was resident then?
pub open spec fn is_drive(
    steps: Seq<TerminalStep>,
    events: Seq<TerminalEvent>,
    latests: Seq<Result<Allocation, ManagerError>>,
    fallback: Allocation,
    requested: AllocationState,
) -> bool {
    forall|k: int|
        0 <= k < steps.len() - 1 ==> #[trigger] is_drive_step(
            steps,
            events,
            latests,
            fallback,
            requested,
            k,
        )
}

/// One drive tears down at most once, whatever its steps come back with and
/// whatever else happens to the record meanwhile.
pub proof fn law_drive_cleans_up_once(
    steps: Seq<TerminalStep>,
    events: Seq<TerminalEvent>,
    latests: Seq<Result<Allocation, ManagerError>>,
    fallback: Allocation,
    requested: AllocationState,
    i: int,
    j: int,
)
    requires
        is_drive(steps, events, latests, fallback, requested),
        0 <= i < j < steps.len(),
        steps[i] is Cleanup,
    ensures
        !(steps[j] is Cleanup),
{
    lemma_drive_advances(steps, events, latests, fallback, requested, i, j);
}

/// Teardown is tried once under a stop, and three times otherwise.
pub proof fn law_cleanup_attempts_are_counted(budget: CleanupBudget)
    ensures
        budget.deadline is Some ==> CleanupRun::of(budget).attempts == 1,
        budget.deadline is None ==> CleanupRun::of(budget).attempts == 3,
{
}

/// How a worker's end is recorded: cancelled where it was cancelled, whatever it
/// came to; else completed where it succeeded and failed where it did not.
pub proof fn law_end_says_what_happened(is_cancelled: bool, is_ok: bool)
    ensures
        asked_state(is_cancelled, is_ok) is Cancelled <==> is_cancelled,
        asked_state(is_cancelled, is_ok) is Completed <==> !is_cancelled && is_ok,
        asked_state(is_cancelled, is_ok) is Failed <==> !is_cancelled && !is_ok,
{
}

/// The pool is let at a machine before cleanup destroys it, and exactly where it
/// has a say: the allocation reused a pool machine or was to keep its own. Any
/// other unfinished allocation is cleaned up at once.
pub proof fn law_pool_has_its_say_before_cleanup(
    outcome: Result<(), ManagerError>,
    current: Allocation,
    latest: Result<Allocation, ManagerError>,
    fallback: Allocation,
    requested: AllocationState,
)
    requires
        latest == Ok::<Allocation, ManagerError>(current) || (latest is Err && current
            == fallback),
        !(current.state is Completed || current.state is Failed || current.state is Cancelled),
    ensures
        ({
            let next = terminal_next(
                TerminalStep::Clean,
                TerminalEvent::Recorded(outcome),
                latest,
                fallback,
                requested,
            );
            if current.hot_lane is Some || current.origin is HotReuse {
                next == (TerminalStep::Release { allocation: current })
            } else {
                next == (TerminalStep::Cleanup { allocation: current })
            }
        }),
        terminal_next(
            TerminalStep::Release { allocation: current },
            TerminalEvent::Released,
            latest,
            fallback,
            requested,
        ) == (TerminalStep::Cleanup { allocation: current }),
{
}

/// A cleanup that succeeds ends the allocation as it was asked to: once its
/// cleaning and then its end are written, that state is what it is done with, and
/// either one that cannot be written fails the drive.
pub proof fn law_clean_end_is_the_requested_one(
    allocation: Allocation,
    found: Allocation,
    error: ManagerError,
    fallback: Allocation,
    requested: AllocationState,
)
    requires
        !(found.state is Completed || found.state is Failed || found.state is Cancelled),
    ensures
        ({
            let latest = Ok::<Allocation, ManagerError>(found);
            let written = TerminalEvent::Recorded(Ok(()));
            let again = TerminalStep::CleanAgain { terminal: requested };
            let last = TerminalStep::Transition { terminal: requested };
            &&& terminal_next(
                TerminalStep::Cleanup { allocation },
                TerminalEvent::CleanedUp(Ok(())),
                latest,
                fallback,
                requested,
            ) == again
            &&& terminal_next(again, written, latest, fallback, requested) == last
            &&& terminal_next(last, written, latest, fallback, requested) == TerminalStep::Done(
                requested,
            )
            &&& terminal_next(
                again,
                TerminalEvent::Recorded(Err(error)),
                latest,
                fallback,
                requested,
            ) == TerminalStep::Failed(error)
            &&& terminal_next(
                last,
                TerminalEvent::Recorded(Err(error)),
                latest,
                fallback,
                requested,
            ) == TerminalStep::Failed(error)
        }),
{
}

/// What is resident of an allocation is its own entry, and one without an entry is
/// not found.
pub proof fn law_latest_is_the_entrys(manager: AllocationManager, id: AllocationId, place: int)
    requires
        is_keyed(manager.entries@),
    ensures
        0 <= place < manager.entries@.len() && manager.entries@[place].allocation.id@ == id@
            ==> manager.latest(id) == Ok::<Allocation, ManagerError>(
            manager.entries@[place].allocation,
        ),
        (forall|i: int|
            0 <= i < manager.entries@.len() ==> (#[trigger] manager.entries@[i]).allocation.id@
                != id@) ==> manager.latest(id) == Err::<Allocation, ManagerError>(
            ManagerError::NotFound(id),
        ),
{
    law_entry_is_found_by_its_id(manager.entries@, id@, place);
}

} // verus!
