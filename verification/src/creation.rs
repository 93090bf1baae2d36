use vstd::prelude::*;

use crate::admission::capacity::HostLoad;
use crate::domain::allocation::{Allocation, AllocationId, AllocationRequest, RequestOptions,
    VmName};
use crate::domain::hot::{HotDrainReason, HotGuest};
use crate::domain::profile::Config;
use crate::error::{ManagerError, StoreError};
use crate::event::Fact;
use crate::hot::claim::HotClaim;
use crate::hot::model::HotContext;
use crate::ident::{hyphenated, is_random};
use crate::resolve::{derived_vm_name, vm_name_text};
use crate::service::{admits, asks_pool, fresh_runner_label, is_attempt_exclusive, is_hot_asked,
    is_new_allocation, is_predecessor, law_one_attempt_one_allocation, lemma_predecessor_from,
    predecessor, Admission, AllocationManager, CreateAllocation, Resolved};
use crate::state::{is_entry_of, is_resident};
use crate::worker::error::WorkerError;
use crate::worker::model::HostMachine;

verus! {

/// One authorized request on its way to an allocation, with everything that was
/// settled about it before the host is touched.
#[derive(Debug)]
pub struct CreateRun {
    pub request: AllocationRequest,
    pub options: RequestOptions,
    pub resolved: Resolved,
}

/// The next thing a creation does. The last three end it.
#[derive(Debug)]
pub enum CreateStep {
    /// Drain every machine the profile's pool holds: the request ends its hot
    /// session.
    EvictPool { reason: HotDrainReason },
    /// Let idle machines yield their slots, as far as this request needs them.
    YieldPool,
    /// Ask what this request may ask of the pool.
    AskPool,
    /// List the host and read the pool's records.
    Probe { context: Option<HotContext> },
    /// Have the generated names judged. From here on the entries stand still
    /// until the allocation is one of them.
    Name { context: Option<HotContext>, hot: Vec<HotGuest>, label: String, name: VmName },
    /// Save the record of the machine this allocation claims.
    SaveClaim { new: CreateAllocation, guest: HotGuest },
    /// Save the allocation's own record.
    SaveRecord { new: CreateAllocation },
    /// Drain the machine that was claimed for an allocation that never became
    /// durable.
    Abandon { guest: HotGuest, reason: HotDrainReason, error: StoreError },
    /// The same attempt has an allocation that is still going.
    Existing(Allocation),
    /// The records are durable: the allocation joins the entries and a worker
    /// drives it.
    Created(Allocation),
    Failed(ManagerError),
}

/// What a step came back with.
#[derive(Debug)]
pub enum CreateEvent {
    Done,
    Asked(Option<HotContext>),
    Probed {
        machines: Result<Vec<HostMachine>, WorkerError>,
        hot: Result<Vec<HotGuest>, StoreError>,
    },
    /// What the rules for labels and machine names say of the generated ones,
    /// and what the new record is filled in with.
    Named {
        label: Result<(), String>,
        name: Result<(), String>,
        id: AllocationId,
        is_source_deferred: bool,
        now: u64,
    },
    Saved(Result<(), StoreError>),
}

/// Can the load of this host be counted?
pub open spec fn is_load_countable(
    manager: AllocationManager,
    config: Config,
    machines: Result<Vec<HostMachine>, WorkerError>,
    hot: Result<Vec<HotGuest>, StoreError>,
) -> bool {
    machines matches Ok(listed) ==> HostLoad::of(
        manager.entries@,
        config,
        listed@,
        match hot {
            Ok(pool) => pool@,
            Err(_) => Seq::<HotGuest>::empty(),
        },
    ).is_countable()
}

/// Is this a runner label of its own: the profile's, a hyphen, and a random
/// UUID?
pub open spec fn is_fresh_label(label: Seq<char>, profile_label: Seq<char>) -> bool {
    exists|value: u128| #[trigger]
        is_random(value) && label == profile_label + "-"@ + hyphenated(value)
}

impl CreateRun {
    /// Where a creation begins: what frees slots comes first.
    pub open spec fn start(&self) -> CreateStep {
        if self.options.hot is Evict {
            CreateStep::EvictPool { reason: HotDrainReason::EvictRequested }
        } else {
            CreateStep::YieldPool
        }
    }

    /// Is this what follows an admission's answer?
    pub open spec fn is_answered(
        &self,
        manager: AllocationManager,
        config: Config,
        context: Option<HotContext>,
        machines: Result<Vec<HostMachine>, WorkerError>,
        hot: Result<Vec<HotGuest>, StoreError>,
        next: CreateStep,
    ) -> bool {
        let answer = match next {
            CreateStep::Failed(error) => Err::<Admission, ManagerError>(error),
            CreateStep::Existing(allocation) => Ok(Admission::Existing(allocation)),
            CreateStep::Name { hot: held, .. } => Ok(Admission::Fits { hot: held }),
            _ => Err(ManagerError::InvalidRequest),
        };
        &&& next is Failed || next is Existing || next is Name
        &&& admits(
            manager.entries@,
            manager.is_closing,
            config,
            self.request,
            self.resolved.mode,
            self.resolved.size,
            machines,
            hot,
            answer,
        )
        &&& next matches CreateStep::Name { context: kept, label, name, .. } ==> {
            &&& kept == context
            &&& is_fresh_label(label@, self.resolved.profile.runner_label@)
            &&& name@ == derived_vm_name(config, self.request)
        }
    }

    /// Is this what follows the judgement of the generated names?
    pub open spec fn is_named(
        &self,
        manager: AllocationManager,
        config: Config,
        step: CreateStep,
        event: CreateEvent,
        next: CreateStep,
    ) -> bool {
        match (step, event) {
            (
                CreateStep::Name { context, hot, label, name },
                CreateEvent::Named { label: label_taken, name: name_taken, id, is_source_deferred, now },
            ) => match (label_taken, name_taken) {
                (Err(message), _) => next == CreateStep::Failed(
                    ManagerError::InvalidRunnerLabel(message),
                ),
                (Ok(()), Err(message)) => next == CreateStep::Failed(
                    ManagerError::InvalidVmName(message),
                ),
                (Ok(()), Ok(())) => {
                    &&& next matches CreateStep::SaveClaim { new, guest } ==> (new.claim matches Some(
                        HotClaim::Reused { guest: claimed, .. },
                    ) && claimed == guest)
                    &&& next matches CreateStep::SaveRecord { new } ==> !(new.claim matches Some(
                        HotClaim::Reused { .. },
                    ))
                    &&& next is SaveClaim || next is SaveRecord
                    &&& is_new_allocation(
                        manager.entries@,
                        config,
                        self.request,
                        self.options,
                        self.resolved,
                        context,
                        hot@,
                        id,
                        label,
                        name,
                        is_source_deferred,
                        now,
                        match next {
                            CreateStep::SaveClaim { new, .. } => new,
                            _ => next->SaveRecord_new,
                        },
                    )
                },
            },
            _ => false,
        }
    }

    /// Is `next` what follows a step that came back with this event? An answer
    /// that is not the one a step waits for changes nothing.
    pub open spec fn is_next(
        &self,
        manager: AllocationManager,
        config: Config,
        step: CreateStep,
        event: CreateEvent,
        next: CreateStep,
    ) -> bool {
        match (step, event) {
            (CreateStep::EvictPool { .. }, CreateEvent::Done) => next == CreateStep::YieldPool,
            (CreateStep::YieldPool, CreateEvent::Done) => next == if asks_pool(
                self.resolved.mode,
                self.options,
            ) {
                CreateStep::AskPool
            } else {
                CreateStep::Probe { context: None }
            },
            (CreateStep::AskPool, CreateEvent::Asked(context)) => next == (CreateStep::Probe {
                context,
            }),
            (CreateStep::Probe { context }, CreateEvent::Probed { machines, hot }) => {
                self.is_answered(manager, config, context, machines, hot, next)
            },
            (CreateStep::Name { .. }, CreateEvent::Named { .. }) => {
                self.is_named(manager, config, step, event, next)
            },
            (CreateStep::SaveClaim { new, .. }, CreateEvent::Saved(saved)) => next == match saved {
                Ok(()) => CreateStep::SaveRecord { new },
                Err(error) => CreateStep::Failed(ManagerError::Store(error)),
            },
            (CreateStep::SaveRecord { new }, CreateEvent::Saved(saved)) => next == match saved {
                Ok(()) => CreateStep::Created(new.allocation),
                Err(error) => match new.claim {
                    Some(HotClaim::Reused { guest, .. }) => CreateStep::Abandon {
                        guest,
                        reason: HotDrainReason::ResetFailed,
                        error,
                    },
                    _ => CreateStep::Failed(ManagerError::Store(error)),
                },
            },
            (CreateStep::Abandon { error, .. }, CreateEvent::Done) => next == CreateStep::Failed(
                ManagerError::Store(error),
            ),
            _ => next == step,
        }
    }

    /// Where a creation begins. The eviction and the capacity yield come before
    /// anything is counted: on a host with one slot and a retained machine
    /// holding it, a deferred teardown deadlocks, because the allocation is not
    /// admitted until the slot is free and the slot is not freed until the
    /// allocation completes.
    pub fn begin(&self) -> (step: CreateStep)
        ensures
            step == self.start(),
    {
        if self.options.hot.is_evicting() {
            CreateStep::EvictPool { reason: HotDrainReason::EvictRequested }
        } else {
            CreateStep::YieldPool
        }
    }

    /// What follows a step.
    pub fn next(
        &self,
        manager: &AllocationManager,
        config: &Config,
        step: CreateStep,
        event: CreateEvent,
    ) -> (next: CreateStep)
        requires
            event matches CreateEvent::Probed { machines, hot } ==> is_load_countable(
                *manager,
                *config,
                machines,
                hot,
            ),
        ensures
            self.is_next(*manager, *config, step, event, next),
    {
        match (step, event) {
            (CreateStep::EvictPool { .. }, CreateEvent::Done) => CreateStep::YieldPool,
            (CreateStep::YieldPool, CreateEvent::Done) => if is_hot_asked(
                self.resolved.mode,
                self.options,
            ) {
                CreateStep::AskPool
            } else {
                CreateStep::Probe { context: None }
            },
            (CreateStep::AskPool, CreateEvent::Asked(context)) => CreateStep::Probe { context },
            (CreateStep::Probe { context }, CreateEvent::Probed { machines, hot }) => {
                self.admitted(manager, config, context, machines, hot)
            },
            (
                CreateStep::Name { context, hot, label, name },
                CreateEvent::Named { label: label_taken, name: name_taken, id, is_source_deferred, now },
            ) => {
                let taken_label: Result<String, String> = match label_taken {
                    Ok(()) => Ok(label),
                    Err(message) => Err(message),
                };
                let taken_name: Result<VmName, String> = match name_taken {
                    Ok(()) => Ok(name),
                    Err(message) => Err(message),
                };
                match manager.create(
                    config,
                    self.request.clone(),
                    self.options,
                    &self.resolved,
                    &context,
                    &hot,
                    id,
                    taken_label,
                    taken_name,
                    is_source_deferred,
                    now,
                ) {
                    Ok(new) => {
                        let claimed: Option<HotGuest> = match AllocationManager::abandon_hot_claim(
                            &new.claim,
                        ) {
                            Some(guest) => Some(guest.clone()),
                            None => None,
                        };
                        match claimed {
                            Some(guest) => CreateStep::SaveClaim { new, guest },
                            None => CreateStep::SaveRecord { new },
                        }
                    },
                    Err(error) => CreateStep::Failed(error),
                }
            },
            (CreateStep::SaveClaim { new, .. }, CreateEvent::Saved(saved)) => match saved {
                Ok(()) => CreateStep::SaveRecord { new },
                Err(error) => CreateStep::Failed(ManagerError::Store(error)),
            },
            (CreateStep::SaveRecord { new }, CreateEvent::Saved(saved)) => match saved {
                Ok(()) => CreateStep::Created(new.allocation),
                Err(error) => match new.claim {
                    Some(HotClaim::Reused { guest, .. }) => CreateStep::Abandon {
                        guest,
                        reason: HotDrainReason::ResetFailed,
                        error,
                    },
                    _ => CreateStep::Failed(ManagerError::Store(error)),
                },
            },
            (CreateStep::Abandon { error, .. }, CreateEvent::Done) => CreateStep::Failed(
                ManagerError::Store(error),
            ),
            (other, _) => other,
        }
    }

    /// What follows an admission: the names of an allocation there is room for.
    fn admitted(
        &self,
        manager: &AllocationManager,
        config: &Config,
        context: Option<HotContext>,
        machines: Result<Vec<HostMachine>, WorkerError>,
        hot: Result<Vec<HotGuest>, StoreError>,
    ) -> (next: CreateStep)
        requires
            is_load_countable(*manager, *config, machines, hot),
        ensures
            self.is_answered(*manager, *config, context, machines, hot, next),
    {
        match manager.ensure_admitted(
            config,
            &self.request,
            self.resolved.mode,
            self.resolved.size,
            machines,
            hot,
        ) {
            Ok(Admission::Existing(allocation)) => CreateStep::Existing(allocation),
            Ok(Admission::Fits { hot: held }) => {
                let label: String = fresh_runner_label(self.resolved.profile.runner_label.as_str());
                let name: VmName = vm_name_text(config, &self.request);
                CreateStep::Name { context, hot: held, label, name }
            },
            Err(error) => CreateStep::Failed(error),
        }
    }
}

/// The fact a creation leaves once a step came back: a claim whose record is
/// durable is told, whatever becomes of the allocation after it.
pub open spec fn creation_leaves(step: CreateStep, event: CreateEvent) -> Option<Fact> {
    match (step, event) {
        (CreateStep::SaveClaim { new, guest }, CreateEvent::Saved(Ok(_))) => Some(
            Fact::claim(new.allocation.id, guest),
        ),
        _ => None,
    }
}

/// The fact a creation leaves once a step came back.
pub fn creation_fact(step: &CreateStep, event: &CreateEvent) -> (fact: Option<Fact>)
    ensures
        fact == creation_leaves(*step, *event),
{
    match (step, event) {
        (CreateStep::SaveClaim { new, guest }, CreateEvent::Saved(Ok(_))) => Some(
            Fact::claimed(&new.allocation.id, guest),
        ),
        _ => None,
    }
}

/// How far a creation still is from its end.
pub open spec fn creation_left(step: CreateStep) -> nat {
    match step {
        CreateStep::EvictPool { .. } => 8,
        CreateStep::YieldPool => 7,
        CreateStep::AskPool => 6,
        CreateStep::Probe { .. } => 5,
        CreateStep::Name { .. } => 4,
        CreateStep::SaveClaim { .. } => 3,
        CreateStep::SaveRecord { .. } => 2,
        CreateStep::Abandon { .. } => 1,
        _ => 0,
    }
}

/// Every answer a step waits for brings a creation nearer its end.
pub proof fn law_creation_ends(
    run: CreateRun,
    manager: AllocationManager,
    config: Config,
    step: CreateStep,
    event: CreateEvent,
    next: CreateStep,
)
    requires
        run.is_next(manager, config, step, event, next),
    ensures
        next == step || creation_left(next) < creation_left(step),
{
}

/// Slots are freed before they are counted: a creation comes to its reading of
/// the host and the pool only after idle machines were asked to yield, and where
/// the request ends its hot session it begins by draining that pool.
pub proof fn law_slots_are_freed_before_they_are_counted(
    run: CreateRun,
    manager: AllocationManager,
    config: Config,
    step: CreateStep,
    event: CreateEvent,
    next: CreateStep,
)
    requires
        run.is_next(manager, config, step, event, next),
        next != step,
    ensures
        run.options.hot is Evict ==> run.start() is EvictPool,
        !(run.options.hot is Evict) ==> run.start() is YieldPool,
        next is YieldPool ==> step is EvictPool,
        next is AskPool ==> step is YieldPool,
        next is Probe ==> step is YieldPool || step is AskPool,
        next is Name ==> step is Probe,
{
}

/// An allocation is created only once its record is durable, and a claim made
/// for one whose record is not is given back: the machine is drained.
pub proof fn law_claim_never_outlives_its_allocation(
    run: CreateRun,
    manager: AllocationManager,
    config: Config,
    step: CreateStep,
    event: CreateEvent,
    next: CreateStep,
)
    requires
        run.is_next(manager, config, step, event, next),
    ensures
        next is Created && next != step ==> step is SaveRecord && (event matches CreateEvent::Saved(
            Ok(_),
        )),
        step matches CreateStep::SaveRecord { new } ==> event matches CreateEvent::Saved(Err(error))
            ==> match new.claim {
            Some(HotClaim::Reused { guest, .. }) => next == (CreateStep::Abandon {
                guest,
                reason: HotDrainReason::ResetFailed,
                error,
            }),
            _ => next == CreateStep::Failed(ManagerError::Store(error)),
        },
{
}

/// What was saved of a claim is what the record says: the machine whose record
/// is saved first is the one the allocation runs on.
pub proof fn law_saved_claim_is_the_allocations(
    run: CreateRun,
    manager: AllocationManager,
    config: Config,
    step: CreateStep,
    event: CreateEvent,
    next: CreateStep,
)
    requires
        run.is_next(manager, config, step, event, next),
        step is Name,
        next is SaveClaim,
    ensures
        next->SaveClaim_new.allocation.origin.hot_name() == Some(next->SaveClaim_guest.vm_name@),
        next->SaveClaim_guest.claimed_for(next->SaveClaim_new.allocation.id@),
        next->SaveClaim_guest.state is Claimed,
{
}

/// A second request for an attempt gets the first one's allocation while that is
/// still going: nothing is named, saved or begun for it, and the creation is over.
pub proof fn law_repeated_attempt_gets_its_allocation(
    run: CreateRun,
    manager: AllocationManager,
    config: Config,
    context: Option<HotContext>,
    machines: Result<Vec<HostMachine>, WorkerError>,
    hot: Result<Vec<HotGuest>, StoreError>,
    next: CreateStep,
    i: int,
)
    requires
        is_attempt_exclusive(manager.entries@),
        !manager.is_closing,
        0 <= i < manager.entries@.len(),
        is_predecessor(manager.entries@[i], run.request),
        run.is_next(
            manager,
            config,
            CreateStep::Probe { context },
            CreateEvent::Probed { machines, hot },
            next,
        ),
    ensures
        next == CreateStep::Existing(manager.entries@[i].allocation),
        forall|event: CreateEvent, after: CreateStep| #[trigger]
            run.is_next(manager, config, next, event, after) ==> after == next,
{
    let answer = match next {
        CreateStep::Failed(error) => Err::<Admission, ManagerError>(error),
        CreateStep::Existing(allocation) => Ok(Admission::Existing(allocation)),
        CreateStep::Name { hot: held, .. } => Ok(Admission::Fits { hot: held }),
        _ => Err(ManagerError::InvalidRequest),
    };
    law_one_attempt_one_allocation(
        manager.entries@,
        config,
        run.request,
        run.resolved.mode,
        run.resolved.size,
        machines,
        hot,
        answer,
        i,
    );
}

/// A finished allocation of the attempt never answers for it: what a request is
/// answered with is still going.
pub proof fn law_finished_predecessor_never_matches(
    run: CreateRun,
    manager: AllocationManager,
    config: Config,
    context: Option<HotContext>,
    machines: Result<Vec<HostMachine>, WorkerError>,
    hot: Result<Vec<HotGuest>, StoreError>,
    next: CreateStep,
)
    requires
        run.is_next(
            manager,
            config,
            CreateStep::Probe { context },
            CreateEvent::Probed { machines, hot },
            next,
        ),
    ensures
        next matches CreateStep::Existing(found) ==> found.live() && found.request.same_attempt(
            &run.request,
        ),
        (forall|i: int|
            0 <= i < manager.entries@.len() ==> !is_predecessor(
                #[trigger] manager.entries@[i],
                run.request,
            )) ==> !(next is Existing),
{
    if predecessor(manager.entries@, run.request) is Some {
        let k: int = lemma_predecessor_from(manager.entries@, run.request);
        assert(is_predecessor(manager.entries@[k], run.request));
    }
}

/// A new allocation has the ID that was drawn for it, so where no entry has that
/// ID it is none of the allocations there are.
pub proof fn law_new_allocation_is_another(
    run: CreateRun,
    manager: AllocationManager,
    config: Config,
    step: CreateStep,
    event: CreateEvent,
    next: CreateStep,
)
    requires
        run.is_next(manager, config, step, event, next),
        step is Name,
        event is Named,
        !is_resident(manager.entries@, event->Named_id@),
        next is SaveClaim || next is SaveRecord,
    ensures
        ({
            let new = match next {
                CreateStep::SaveClaim { new, .. } => new,
                _ => next->SaveRecord_new,
            };
            &&& new.allocation.id == event->Named_id
            &&& new.allocation.live()
            &&& new.allocation.request == run.request
            &&& forall|i: int|
                0 <= i < manager.entries@.len() ==> (
                #[trigger] manager.entries@[i]).allocation.id@ != new.allocation.id@
        }),
{
    let id = event->Named_id@;
    assert forall|i: int| 0 <= i < manager.entries@.len() implies (
    #[trigger] manager.entries@[i]).allocation.id@ != id by {
        assert(!is_entry_of(manager.entries@, id, i));
    }
}

/// The pool is asked exactly by a request that wants its machine kept and does not
/// regenerate; every other one goes on without it.
pub proof fn law_only_a_retaining_request_asks_the_pool(
    run: CreateRun,
    manager: AllocationManager,
    config: Config,
    next: CreateStep,
)
    requires
        run.is_next(manager, config, CreateStep::YieldPool, CreateEvent::Done, next),
    ensures
        run.options.hot is Retain && !(run.resolved.mode is Regenerate) ==> next
            == CreateStep::AskPool,
        !(run.options.hot is Retain) || run.resolved.mode is Regenerate ==> next == (
        CreateStep::Probe { context: None }),
{
}

/// What is created is what was saved: the record that was written is the one that
/// is shown, a claim is written before it, and a claim that could not be written
/// creates nothing.
pub proof fn law_created_is_what_was_saved(
    run: CreateRun,
    manager: AllocationManager,
    config: Config,
    new: CreateAllocation,
    guest: HotGuest,
    saved: Result<(), StoreError>,
    next: CreateStep,
)
    ensures
        run.is_next(
            manager,
            config,
            CreateStep::SaveRecord { new },
            CreateEvent::Saved(Ok(())),
            next,
        ) ==> next == CreateStep::Created(new.allocation),
        run.is_next(
            manager,
            config,
            CreateStep::SaveClaim { new, guest },
            CreateEvent::Saved(Ok(())),
            next,
        ) ==> next == (CreateStep::SaveRecord { new }),
        run.is_next(
            manager,
            config,
            CreateStep::SaveClaim { new, guest },
            CreateEvent::Saved(saved),
            next,
        ) && saved is Err ==> next is Failed,
{
}

} // verus!
