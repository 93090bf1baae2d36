use vstd::prelude::*;

use crate::domain::allocation::{Allocation, VmName};
use crate::domain::hot::{HotDrainReason, HotGuest};
use crate::error::StoreError;
use crate::service::AllocationManager;
use crate::worker::error::{bounded, WorkerError, MESSAGE_LIMIT};

verus! {

/// The next thing that stands between a claim and its job.
#[derive(Debug, PartialEq, Eq)]
pub enum ReadyStep {
    /// Read the record of the claimed machine.
    LoadClaim { vm_name: VmName },
    /// Move the allocation to `Preparing`, where a hot and a cold one agree.
    Prepare { guest: HotGuest },
    /// Ask the backend whether the machine is still live.
    Probe { guest: HotGuest },
    /// Destroy the machine that is not, then fail.
    Evict { guest: HotGuest, reason: HotDrainReason },
    /// The backend's own run is entered.
    Ready,
    Failed(WorkerError),
}

/// What a step came back with.
#[derive(Debug, PartialEq, Eq)]
pub enum ReadyEvent {
    Loaded(Result<Option<HotGuest>, StoreError>),
    /// The transition was recorded, or why it was not.
    Prepared(Result<(), String>),
    Live(bool),
    Evicted,
}

pub open spec fn ready_start(allocation: Allocation) -> ReadyStep {
    match allocation.origin {
        crate::domain::allocation::AllocationOrigin::HotReuse { vm_name, .. } => {
            ReadyStep::LoadClaim { vm_name }
        },
        crate::domain::allocation::AllocationOrigin::Cloned => ReadyStep::Ready,
    }
}

/// The step is a failure that reads as this text, as far as messages are kept.
pub open spec fn fails_as(step: ReadyStep, text: Seq<char>) -> bool {
    step matches ReadyStep::Failed(WorkerError::Failed(message)) && message@ == bounded(
        text,
        MESSAGE_LIMIT as int,
    )
}

/// Is `next` what follows a step that came back with this event? An answer that
/// is not the one a step waits for changes nothing.
pub open spec fn is_ready_next(step: ReadyStep, event: ReadyEvent, next: ReadyStep) -> bool {
    match (step, event) {
        (ReadyStep::LoadClaim { .. }, ReadyEvent::Loaded(loaded)) => match loaded {
            Ok(Some(guest)) => next == (ReadyStep::Prepare { guest }),
            Ok(None) => fails_as(next, "the hot guest record this allocation claimed is gone"@),
            Err(error) => fails_as(next, error.message@),
        },
        (ReadyStep::Prepare { guest }, ReadyEvent::Prepared(prepared)) => match prepared {
            Ok(()) => next == (ReadyStep::Probe { guest }),
            Err(message) => fails_as(next, message@),
        },
        (ReadyStep::Probe { guest }, ReadyEvent::Live(is_live)) => if is_live {
            next == ReadyStep::Ready
        } else {
            next == (ReadyStep::Evict { guest, reason: HotDrainReason::MachineGone })
        },
        (ReadyStep::Evict { .. }, ReadyEvent::Evicted) => fails_as(
            next,
            "the claimed hot guest is no longer live"@,
        ),
        _ => next == step,
    }
}

impl AllocationManager {
    /// Checks that the machine this allocation claimed is still there, before
    /// the backend's own run is entered: where that begins.
    ///
    /// There is nothing to build: the pool holds only machines a previous
    /// allocation left behind, so a claim either finds one alive or finds
    /// nothing.
    pub fn ensure_hot_ready(allocation: &Allocation) -> (step: ReadyStep)
        ensures
            step == ready_start(*allocation),
    {
        match allocation.origin.hot_vm_name() {
            Some(vm_name) => ReadyStep::LoadClaim { vm_name: vm_name.clone() },
            None => ReadyStep::Ready,
        }
    }

    /// What follows a step. A machine that is not live is evicted and the
    /// allocation fails, rather than the daemon silently re-cloning under an
    /// allocation the operator was told reused a guest.
    pub fn next_ready(step: ReadyStep, event: ReadyEvent) -> (next: ReadyStep)
        ensures
            is_ready_next(step, event, next),
    {
        match (step, event) {
            (ReadyStep::LoadClaim { .. }, ReadyEvent::Loaded(loaded)) => match loaded {
                Ok(Some(guest)) => ReadyStep::Prepare { guest },
                Ok(None) => ReadyStep::Failed(
                    WorkerError::new(
                        "the hot guest record this allocation claimed is gone".to_owned(),
                    ),
                ),
                Err(error) => ReadyStep::Failed(WorkerError::new(error.message)),
            },
            (ReadyStep::Prepare { guest }, ReadyEvent::Prepared(prepared)) => match prepared {
                Ok(()) => ReadyStep::Probe { guest },
                Err(message) => ReadyStep::Failed(WorkerError::new(message)),
            },
            (ReadyStep::Probe { guest }, ReadyEvent::Live(is_live)) => if is_live {
                ReadyStep::Ready
            } else {
                ReadyStep::Evict { guest, reason: HotDrainReason::MachineGone }
            },
            (ReadyStep::Evict { .. }, ReadyEvent::Evicted) => ReadyStep::Failed(
                WorkerError::new("the claimed hot guest is no longer live".to_owned()),
            ),
            (other, _) => other,
        }
    }
}

/// A claim enters its run only on a machine the backend says is live.
pub proof fn law_reuse_runs_on_a_live_machine(step: ReadyStep, event: ReadyEvent, next: ReadyStep)
    requires
        is_ready_next(step, event, next),
        next is Ready,
        !(step is Ready),
    ensures
        step is Probe,
        event == ReadyEvent::Live(true),
{
}

/// A reused machine is looked at before its job: an allocation that was promised
/// a pool machine begins with that machine's record, and only one that clones its
/// own guest needs nothing.
pub proof fn law_promised_machine_is_looked_at_first(allocation: Allocation)
    ensures
        allocation.origin is Cloned ==> ready_start(allocation) == ReadyStep::Ready,
        allocation.origin matches crate::domain::allocation::AllocationOrigin::HotReuse {
            vm_name,
            ..
        } ==> ready_start(allocation) == (ReadyStep::LoadClaim { vm_name }),
{
}

/// A claimed machine that is gone fails its allocation: it is never replaced by a
/// clone. A missing or unreadable record and a refused transition fail it too, and
/// a machine that is not live is destroyed first.
pub proof fn law_lost_claim_fails_its_allocation(step: ReadyStep, event: ReadyEvent, next: ReadyStep)
    requires
        is_ready_next(step, event, next),
    ensures
        step is LoadClaim && (event == ReadyEvent::Loaded(Ok(None)) || (event matches
            ReadyEvent::Loaded(Err(_)))) ==> next is Failed,
        step is Prepare && (event matches ReadyEvent::Prepared(Err(_))) ==> next is Failed,
        step matches ReadyStep::Probe { guest } ==> (event == ReadyEvent::Live(false) ==> next == (
        ReadyStep::Evict { guest, reason: HotDrainReason::MachineGone })),
        step is Evict && event is Evicted ==> next is Failed,
        step is LoadClaim ==> (event matches ReadyEvent::Loaded(Ok(Some(found))) ==> next == (
        ReadyStep::Prepare { guest: found })),
        step matches ReadyStep::Prepare { guest } ==> (event matches ReadyEvent::Prepared(Ok(_))
            ==> next == (ReadyStep::Probe { guest })),
        step is Probe && event == ReadyEvent::Live(true) ==> next is Ready,
        step is Ready || step is Failed ==> next == step,
{
}

/// A failure reads as its cause, as far as messages are kept.
pub proof fn law_failure_reads_as_its_cause(step: ReadyStep, text: Seq<char>)
    requires
        fails_as(step, text),
    ensures
        step matches ReadyStep::Failed(WorkerError::Failed(message)) && message@.is_prefix_of(text)
            && (text.len() <= MESSAGE_LIMIT ==> message@ == text),
{
}

} // verus!
