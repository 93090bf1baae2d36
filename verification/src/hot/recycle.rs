use vstd::prelude::*;

use crate::admission::probe::SECOND;
use crate::domain::allocation::{Allocation, VmName};
use crate::domain::hot::{HotConfig, HotDrainReason, HotGuest, HotLane, HotState};
use crate::domain::profile::Profile;
use crate::error::StoreError;
use crate::event::Fact;
use crate::hot::claim::{retained, retained_record};
use crate::hot::evict::{ensure_hot_eviction_pending, hot_drain_pending, pending};
use crate::service::AllocationManager;
use crate::worker::budget::CleanupBudget;
use crate::worker::model::HotReset;

verus! {

/// The next thing a release does. The last three end it.
#[derive(Debug, PartialEq, Eq)]
pub enum ReleaseStep {
    /// Read the record of the pool machine this allocation reused.
    LoadClaim { vm_name: VmName },
    /// Save the record with the claim given up.
    SaveRelease { guest: HotGuest },
    /// Look for a record of the guest this allocation cloned.
    FindRetained { lane: HotLane },
    /// Save the record of a machine entering the pool, before the machine is
    /// anyone else's, so a machine the pool holds is never one with no record.
    SaveRetained { guest: HotGuest },
    /// Ask the backend to keep the machine past the worker that built it.
    Handover { guest: HotGuest, reset: HotReset },
    /// The backend could not: remove the record again.
    Withdraw { guest: HotGuest },
    /// Run the recycle gate.
    Reset { guest: HotGuest, reset: HotReset },
    /// Read whether the machine was drained while it was being reset.
    ReadDrain { guest: HotGuest },
    /// Save the record as idle.
    SaveIdle { guest: HotGuest },
    /// The machine is in the pool: tell it.
    Pooled { guest: HotGuest },
    /// The machine that came back may be one too many for its lane: apply the
    /// pool's bounds.
    Bound,
    /// The machine is destroyed.
    Evict { guest: HotGuest, reason: HotDrainReason },
    /// A record stayed behind; it is marked to go where it is not yet.
    Stamp { stamped: Option<HotGuest> },
    /// There is nothing to do; teardown goes on as usual.
    Nothing,
}

/// What a step came back with.
#[derive(Debug, PartialEq, Eq)]
pub enum ReleaseEvent {
    Loaded(Result<Option<HotGuest>, StoreError>),
    /// The write or the backend call succeeded, or it did not.
    Done(bool),
}

/// The recycle settings: what the profile resets, for as long as it allows.
pub open spec fn reset_of(hot: HotConfig, deadline: Option<u128>) -> HotReset {
    HotReset {
        simulator_reset: hot.simulator_reset,
        budget: CleanupBudget {
            allowance: (hot.reset_timeout_seconds * SECOND) as u128,
            deadline,
        },
    }
}

/// Where a release begins. An allocation that reused a machine releases it; one
/// that was flagged for retention hands over the guest it cloned.
pub open spec fn release_start(allocation: Allocation, profile: Profile) -> ReleaseStep {
    match allocation.origin {
        crate::domain::allocation::AllocationOrigin::HotReuse { vm_name, .. } => {
            ReleaseStep::LoadClaim { vm_name }
        },
        crate::domain::allocation::AllocationOrigin::Cloned => match allocation.hot_lane {
            Some(lane) => if allocation.vm_created && profile.live_hot() is Some {
                ReleaseStep::FindRetained { lane }
            } else {
                ReleaseStep::Nothing
            },
            None => ReleaseStep::Nothing,
        },
    }
}

/// The one gate both ways in run through: reset, unless the handover did that
/// already, then join the pool or be destroyed.
pub open spec fn gate(
    guest: HotGuest,
    profile: Profile,
    is_reset: bool,
    deadline: Option<u128>,
) -> ReleaseStep {
    match profile.live_hot() {
        None => ReleaseStep::Evict { guest, reason: HotDrainReason::ConfigReloaded },
        Some(hot) => if is_reset {
            ReleaseStep::ReadDrain { guest }
        } else {
            ReleaseStep::Reset { guest, reset: reset_of(hot, deadline) }
        },
    }
}

/// What a release does after a step came back. An answer that is not the one a
/// step waits for changes nothing.
pub open spec fn release_next(
    step: ReleaseStep,
    event: ReleaseEvent,
    allocation: Allocation,
    profile: Profile,
    deadline: Option<u128>,
    now: u64,
) -> ReleaseStep {
    match (step, event) {
        (ReleaseStep::LoadClaim { .. }, ReleaseEvent::Loaded(loaded)) => match loaded {
            Ok(Some(guest)) => if !guest.claimed_for(allocation.id@) {
                ReleaseStep::Nothing
            } else if guest.state is Claimed {
                ReleaseStep::SaveRelease { guest: guest.released(now) }
            } else {
                ReleaseStep::Evict { guest, reason: HotDrainReason::ResetFailed }
            },
            _ => ReleaseStep::Nothing,
        },
        (ReleaseStep::SaveRelease { guest }, ReleaseEvent::Done(is_saved)) => if is_saved {
            gate(guest, profile, false, deadline)
        } else {
            ReleaseStep::Evict { guest, reason: HotDrainReason::ResetFailed }
        },
        (ReleaseStep::FindRetained { lane }, ReleaseEvent::Loaded(loaded)) => match loaded {
            Ok(Some(_)) => ReleaseStep::Nothing,
            _ => match retained(allocation, lane, now) {
                Some(guest) => ReleaseStep::SaveRetained { guest },
                None => ReleaseStep::Nothing,
            },
        },
        (ReleaseStep::SaveRetained { guest }, ReleaseEvent::Done(is_saved)) => match (
            is_saved,
            profile.live_hot(),
        ) {
            (true, Some(hot)) => ReleaseStep::Handover { guest, reset: reset_of(hot, deadline) },
            _ => ReleaseStep::Nothing,
        },
        (ReleaseStep::Handover { guest, .. }, ReleaseEvent::Done(is_kept)) => if is_kept {
            gate(guest, profile, true, deadline)
        } else {
            ReleaseStep::Withdraw { guest }
        },
        (ReleaseStep::Withdraw { guest }, ReleaseEvent::Done(is_removed)) => if is_removed {
            ReleaseStep::Nothing
        } else {
            ReleaseStep::Stamp { stamped: pending(guest, HotDrainReason::ResetFailed) }
        },
        (ReleaseStep::Reset { guest, .. }, ReleaseEvent::Done(is_clean)) => if is_clean {
            ReleaseStep::ReadDrain { guest }
        } else {
            ReleaseStep::Evict { guest, reason: HotDrainReason::ResetFailed }
        },
        (ReleaseStep::ReadDrain { guest }, ReleaseEvent::Loaded(loaded)) => {
            let stamped = match loaded {
                Ok(Some(record)) => record.drain_reason,
                _ => None,
            };
            match stamped {
                Some(reason) => ReleaseStep::Evict { guest, reason },
                None => if guest.state is Idle {
                    ReleaseStep::SaveIdle { guest }
                } else if guest.state.leads_to(HotState::Idle) {
                    ReleaseStep::SaveIdle {
                        guest: HotGuest { state: HotState::Idle, updated_at_unix: now, ..guest },
                    }
                } else {
                    ReleaseStep::Evict { guest, reason: HotDrainReason::ResetFailed }
                },
            }
        },
        (ReleaseStep::SaveIdle { guest }, ReleaseEvent::Done(is_saved)) => if is_saved {
            ReleaseStep::Pooled { guest }
        } else {
            ReleaseStep::Evict { guest, reason: HotDrainReason::ResetFailed }
        },
        (ReleaseStep::Pooled { .. }, ReleaseEvent::Done(_)) => ReleaseStep::Bound,
        (ReleaseStep::Bound, ReleaseEvent::Done(_)) => ReleaseStep::Nothing,
        _ => step,
    }
}

fn reset_for(hot: HotConfig, manager: &AllocationManager) -> (reset: HotReset)
    ensures
        reset == reset_of(hot, manager.teardown_deadline),
{
    HotReset {
        simulator_reset: hot.simulator_reset,
        budget: manager.teardown_budget(hot.reset_timeout_seconds as u128 * SECOND),
    }
}

impl AllocationManager {
    /// Hands a machine to the pool once its job has ended, or lets teardown
    /// destroy it: where that begins.
    pub fn ensure_hot_released(allocation: &Allocation, profile: &Profile) -> (step: ReleaseStep)
        ensures
            step == release_start(*allocation, *profile),
    {
        if let Some(vm_name) = allocation.origin.hot_vm_name() {
            return ReleaseStep::LoadClaim { vm_name: vm_name.clone() };
        }
        match allocation.hot_lane {
            Some(lane) => if allocation.vm_created && profile.enabled_hot().is_some() {
                ReleaseStep::FindRetained { lane }
            } else {
                ReleaseStep::Nothing
            },
            None => ReleaseStep::Nothing,
        }
    }

    /// Reset, then join the pool or be destroyed.
    pub fn ensure_hot_gated(&self, guest: HotGuest, profile: &Profile, is_reset: bool) -> (step:
        ReleaseStep)
        ensures
            step == gate(guest, *profile, is_reset, self.teardown_deadline),
    {
        match profile.enabled_hot() {
            // The profile stopped naming hot while this machine was claimed.
            None => ReleaseStep::Evict { guest, reason: HotDrainReason::ConfigReloaded },
            Some(hot) => if is_reset {
                ReleaseStep::ReadDrain { guest }
            } else {
                ReleaseStep::Reset { guest, reset: reset_for(hot, self) }
            },
        }
    }

    /// Releases the machine this allocation reused, once its record was read.
    /// Only this allocation's own claim is this allocation's to release. A
    /// record already back in the pool means an earlier pass released it, and
    /// evicting on that would destroy a machine the pool legitimately holds —
    /// possibly one another allocation has since claimed.
    pub fn ensure_hot_recycled(
        allocation: &Allocation,
        loaded: Result<Option<HotGuest>, StoreError>,
        now: u64,
    ) -> (step: ReleaseStep)
        ensures
            forall|vm_name: VmName, profile: Profile, deadline: Option<u128>|
                step == #[trigger] release_next(
                    ReleaseStep::LoadClaim { vm_name },
                    ReleaseEvent::Loaded(loaded),
                    *allocation,
                    profile,
                    deadline,
                    now,
                ),
    {
        match loaded {
            Ok(Some(found)) => {
                if !found.is_claimed_for(&allocation.id) {
                    return ReleaseStep::Nothing;
                }
                let mut guest: HotGuest = found;
                if guest.ensure_released(now).is_err() {
                    return ReleaseStep::Evict { guest, reason: HotDrainReason::ResetFailed };
                }
                ReleaseStep::SaveRelease { guest }
            },
            _ => ReleaseStep::Nothing,
        }
    }

    /// Takes over the guest a hot-flagged allocation cloned, unless a record
    /// already names it: overwriting that one would reset the machine's history
    /// and recycle again a guest the pool is already serving from.
    pub fn ensure_hot_retained(
        allocation: &Allocation,
        lane: HotLane,
        loaded: Result<Option<HotGuest>, StoreError>,
        now: u64,
    ) -> (step: ReleaseStep)
        ensures
            forall|profile: Profile, deadline: Option<u128>|
                step == #[trigger] release_next(
                    ReleaseStep::FindRetained { lane },
                    ReleaseEvent::Loaded(loaded),
                    *allocation,
                    profile,
                    deadline,
                    now,
                ),
    {
        if let Ok(Some(_)) = loaded {
            return ReleaseStep::Nothing;
        }
        match retained_record(allocation, lane, now) {
            Some(guest) => ReleaseStep::SaveRetained { guest },
            None => ReleaseStep::Nothing,
        }
    }

    /// A machine that came out of its reset clean: whether it rejoins the pool. A drain stamped
    /// during the reset is the answer, not how clean the reset was;
    /// `Recycling` has no edge to `Draining`, so this is the only place that
    /// request can be honoured before the machine serves another job.
    pub fn ensure_hot_joined(
        guest: HotGuest,
        loaded: Result<Option<HotGuest>, StoreError>,
        now: u64,
    ) -> (step: ReleaseStep)
        ensures
            forall|allocation: Allocation, profile: Profile, deadline: Option<u128>|
                step == #[trigger] release_next(
                    ReleaseStep::ReadDrain { guest },
                    ReleaseEvent::Loaded(loaded),
                    allocation,
                    profile,
                    deadline,
                    now,
                ),
    {
        if let Some(reason) = hot_drain_pending(&loaded) {
            return ReleaseStep::Evict { guest, reason };
        }
        let mut joined: HotGuest = guest;
        if joined.ensure_state(HotState::Idle, now).is_err() {
            return ReleaseStep::Evict { guest: joined, reason: HotDrainReason::ResetFailed };
        }
        ReleaseStep::SaveIdle { guest: joined }
    }

    /// What a release does after a step came back.
    pub fn next_release(
        &self,
        step: ReleaseStep,
        event: ReleaseEvent,
        allocation: &Allocation,
        profile: &Profile,
        now: u64,
    ) -> (next: ReleaseStep)
        ensures
            next == release_next(
                step,
                event,
                *allocation,
                *profile,
                self.teardown_deadline,
                now,
            ),
    {
        match (step, event) {
            (ReleaseStep::LoadClaim { .. }, ReleaseEvent::Loaded(loaded)) => {
                AllocationManager::ensure_hot_recycled(allocation, loaded, now)
            },
            (ReleaseStep::SaveRelease { guest }, ReleaseEvent::Done(is_saved)) => if is_saved {
                self.ensure_hot_gated(guest, profile, false)
            } else {
                ReleaseStep::Evict { guest, reason: HotDrainReason::ResetFailed }
            },
            (ReleaseStep::FindRetained { lane }, ReleaseEvent::Loaded(loaded)) => {
                AllocationManager::ensure_hot_retained(allocation, lane, loaded, now)
            },
            (ReleaseStep::SaveRetained { guest }, ReleaseEvent::Done(is_saved)) => match (
                is_saved,
                profile.enabled_hot(),
            ) {
                (true, Some(hot)) => ReleaseStep::Handover { guest, reset: reset_for(hot, self) },
                _ => ReleaseStep::Nothing,
            },
            (ReleaseStep::Handover { guest, .. }, ReleaseEvent::Done(is_kept)) => if is_kept {
                self.ensure_hot_gated(guest, profile, true)
            } else {
                ReleaseStep::Withdraw { guest }
            },
            (ReleaseStep::Withdraw { guest }, ReleaseEvent::Done(is_removed)) => if is_removed {
                ReleaseStep::Nothing
            } else {
                ReleaseStep::Stamp {
                    stamped: ensure_hot_eviction_pending(&guest, HotDrainReason::ResetFailed),
                }
            },
            (ReleaseStep::Reset { guest, .. }, ReleaseEvent::Done(is_clean)) => if is_clean {
                ReleaseStep::ReadDrain { guest }
            } else {
                ReleaseStep::Evict { guest, reason: HotDrainReason::ResetFailed }
            },
            (ReleaseStep::ReadDrain { guest }, ReleaseEvent::Loaded(loaded)) => {
                AllocationManager::ensure_hot_joined(guest, loaded, now)
            },
            (ReleaseStep::SaveIdle { guest }, ReleaseEvent::Done(is_saved)) => if is_saved {
                ReleaseStep::Pooled { guest }
            } else {
                ReleaseStep::Evict { guest, reason: HotDrainReason::ResetFailed }
            },
            (ReleaseStep::Pooled { .. }, ReleaseEvent::Done(_)) => ReleaseStep::Bound,
            (ReleaseStep::Bound, ReleaseEvent::Done(_)) => ReleaseStep::Nothing,
            (other, _) => other,
        }
    }
}

/// How far a release still is from its end.
pub open spec fn steps_left(step: ReleaseStep) -> nat {
    match step {
        ReleaseStep::LoadClaim { .. } => 7,
        ReleaseStep::SaveRelease { .. } => 6,
        ReleaseStep::FindRetained { .. } => 7,
        ReleaseStep::SaveRetained { .. } => 6,
        ReleaseStep::Handover { .. } => 5,
        ReleaseStep::Withdraw { .. } => 1,
        ReleaseStep::Reset { .. } => 5,
        ReleaseStep::ReadDrain { .. } => 4,
        ReleaseStep::SaveIdle { .. } => 3,
        ReleaseStep::Pooled { .. } => 2,
        ReleaseStep::Bound => 1,
        _ => 0,
    }
}

/// Every answer a step waits for brings a release nearer its end.
pub proof fn law_release_ends(
    step: ReleaseStep,
    event: ReleaseEvent,
    allocation: Allocation,
    profile: Profile,
    deadline: Option<u128>,
    now: u64,
)
    ensures
        release_next(step, event, allocation, profile, deadline, now) == step || steps_left(
            release_next(step, event, allocation, profile, deadline, now),
        ) < steps_left(step),
{
}

/// The pool takes a machine only through its reset: it is idle and durably so,
/// nothing had drained it, and before that was asked its reset was clean or its
/// handover was.
pub proof fn law_pool_takes_only_clean_machines(
    step: ReleaseStep,
    event: ReleaseEvent,
    allocation: Allocation,
    profile: Profile,
    deadline: Option<u128>,
    now: u64,
)
    ensures
        ({
            let next = release_next(step, event, allocation, profile, deadline, now);
            &&& next is Pooled && next != step ==> step is SaveIdle && event
                == ReleaseEvent::Done(true) && next->Pooled_guest == step->SaveIdle_guest
            &&& next is SaveIdle && next != step ==> next->SaveIdle_guest.state is Idle && step
                is ReadDrain && (event matches ReleaseEvent::Loaded(loaded) && !(
            loaded matches Ok(Some(record)) && record.drain_reason is Some))
            &&& next is ReadDrain && next != step ==> (step is Reset || step is Handover) && event
                == ReleaseEvent::Done(true)
        }),
{
}

/// The fact a step of a release leaves: a machine that came into the pool is
/// told, and nothing else is. What an eviction leaves, its own end says.
pub open spec fn release_leaves(step: ReleaseStep) -> Option<Fact> {
    match step {
        ReleaseStep::Pooled { guest } => Some(Fact::recycling(guest)),
        _ => None,
    }
}

/// The fact a step of a release leaves.
pub fn release_fact(step: &ReleaseStep) -> (fact: Option<Fact>)
    ensures
        fact == release_leaves(*step),
{
    match step {
        ReleaseStep::Pooled { guest } => Some(Fact::recycled(guest)),
        _ => None,
    }
}

/// A machine that came back to the pool is told and then the pool's bounds are
/// applied, because it may be one too many; no other end of a release does either.
pub proof fn law_pool_is_bounded_after_a_machine_comes_back(
    step: ReleaseStep,
    event: ReleaseEvent,
    allocation: Allocation,
    profile: Profile,
    deadline: Option<u128>,
    now: u64,
    is_done: bool,
)
    ensures
        step is Pooled ==> release_leaves(step) is Some && release_next(
            step,
            ReleaseEvent::Done(is_done),
            allocation,
            profile,
            deadline,
            now,
        ) is Bound,
        ({
            let next = release_next(step, event, allocation, profile, deadline, now);
            next is Bound && next != step ==> step is Pooled
        }),
{
}

/// A release that was made already is not made again: a record that another
/// allocation holds, or nobody, is left alone, and so is a guest the pool has.
pub proof fn law_release_is_idempotent(
    vm_name: VmName,
    lane: HotLane,
    guest: HotGuest,
    allocation: Allocation,
    profile: Profile,
    deadline: Option<u128>,
    now: u64,
)
    requires
        !guest.claimed_for(allocation.id@),
    ensures
        release_next(
            ReleaseStep::LoadClaim { vm_name },
            ReleaseEvent::Loaded(Ok(Some(guest))),
            allocation,
            profile,
            deadline,
            now,
        ) is Nothing,
        release_next(
            ReleaseStep::FindRetained { lane },
            ReleaseEvent::Loaded(Ok(Some(guest))),
            allocation,
            profile,
            deadline,
            now,
        ) is Nothing,
{
}

/// After its release is saved, the record no longer is this allocation's, so a
/// second pass finds nothing to release.
pub proof fn law_released_record_is_nobodys(guest: HotGuest, id: Seq<char>, now: u64)
    ensures
        !guest.released(now).claimed_for(id),
        guest.released(now).jobs_served >= guest.jobs_served,
        guest.jobs_served < u32::MAX ==> guest.released(now).jobs_served == guest.jobs_served + 1,
{
}

/// Whose machine is released: an allocation that reused one releases that very
/// machine; one that was to keep its guest hands it over where that guest was made
/// and its profile's pool is still switched on; no other one has anything to
/// release.
pub proof fn law_release_begins_with_the_machine_that_was_used(
    allocation: Allocation,
    profile: Profile,
)
    ensures
        ({
            let first = release_start(allocation, profile);
            &&& allocation.origin matches crate::domain::allocation::AllocationOrigin::HotReuse {
                vm_name,
                ..
            } ==> first == (ReleaseStep::LoadClaim { vm_name })
            &&& allocation.origin is Cloned ==> match allocation.hot_lane {
                None => first is Nothing,
                Some(lane) => if allocation.vm_created && profile.hot is Some
                    && profile.hot.unwrap().enabled {
                    first == (ReleaseStep::FindRetained { lane })
                } else {
                    first is Nothing
                },
            }
        }),
{
}

/// Only an allocation's own claim is released, and it always is: the record must
/// name that allocation. A claimed machine goes to its reset with one job more; a
/// record of this allocation in any other state is destroyed; every other record
/// is left alone.
pub proof fn law_only_the_own_claim_is_released(
    vm_name: VmName,
    loaded: Result<Option<HotGuest>, StoreError>,
    allocation: Allocation,
    profile: Profile,
    deadline: Option<u128>,
    now: u64,
)
    ensures
        ({
            let next = release_next(
                ReleaseStep::LoadClaim { vm_name },
                ReleaseEvent::Loaded(loaded),
                allocation,
                profile,
                deadline,
                now,
            );
            let is_own = loaded matches Ok(Some(guest)) && (guest.claimed_by matches Some(holder)
                && holder@ == allocation.id@);
            &&& !is_own ==> next is Nothing
            &&& is_own ==> (loaded matches Ok(Some(guest)) && if guest.state is Claimed {
                next matches ReleaseStep::SaveRelease { guest: released } && released.vm_name
                    == guest.vm_name && released.state == HotState::Recycling
                    && released.claimed_by is None && released.updated_at_unix == now && (
                guest.jobs_served < u32::MAX ==> released.jobs_served == guest.jobs_served + 1)
            } else {
                next == (ReleaseStep::Evict { guest, reason: HotDrainReason::ResetFailed })
            })
        }),
{
}

/// A machine that did not come through is destroyed, never pooled: its release
/// could not be written, its profile keeps no pool any more, its reset failed, a
/// drain was asked for meanwhile, or its return could not be written. A guest whose
/// handover failed is withdrawn, and its record marked where it cannot be.
pub proof fn law_unsound_machine_is_destroyed(
    guest: HotGuest,
    reset: HotReset,
    record: HotGuest,
    allocation: Allocation,
    profile: Profile,
    deadline: Option<u128>,
    now: u64,
)
    ensures
        ({
            let destroyed = ReleaseStep::Evict { guest, reason: HotDrainReason::ResetFailed };
            let failed = ReleaseEvent::Done(false);
            &&& release_next(
                ReleaseStep::SaveRelease { guest },
                failed,
                allocation,
                profile,
                deadline,
                now,
            ) == destroyed
            &&& release_next(
                ReleaseStep::Reset { guest, reset },
                failed,
                allocation,
                profile,
                deadline,
                now,
            ) == destroyed
            &&& release_next(
                ReleaseStep::SaveIdle { guest },
                failed,
                allocation,
                profile,
                deadline,
                now,
            ) == destroyed
            &&& release_next(
                ReleaseStep::Handover { guest, reset },
                failed,
                allocation,
                profile,
                deadline,
                now,
            ) == (ReleaseStep::Withdraw { guest })
            &&& release_next(
                ReleaseStep::Withdraw { guest },
                failed,
                allocation,
                profile,
                deadline,
                now,
            ) is Stamp
            &&& record.drain_reason matches Some(reason) ==> release_next(
                ReleaseStep::ReadDrain { guest },
                ReleaseEvent::Loaded(Ok(Some(record))),
                allocation,
                profile,
                deadline,
                now,
            ) == (ReleaseStep::Evict { guest, reason })
            &&& profile.hot is None || !profile.hot.unwrap().enabled ==> {
                &&& release_next(
                    ReleaseStep::SaveRelease { guest },
                    ReleaseEvent::Done(true),
                    allocation,
                    profile,
                    deadline,
                    now,
                ) == (ReleaseStep::Evict { guest, reason: HotDrainReason::ConfigReloaded })
                &&& release_next(
                    ReleaseStep::Handover { guest, reset },
                    ReleaseEvent::Done(true),
                    allocation,
                    profile,
                    deadline,
                    now,
                ) == (ReleaseStep::Evict { guest, reason: HotDrainReason::ConfigReloaded })
                &&& release_next(
                    ReleaseStep::SaveRetained { guest },
                    ReleaseEvent::Done(true),
                    allocation,
                    profile,
                    deadline,
                    now,
                ) is Nothing
            }
        }),
{
}

/// A sound machine comes back: released and written, it is reset as its profile
/// says and for as long as its profile allows; clean and not drained, it is idle
/// again; written so, it is in the pool. A kept guest goes the same way through its
/// handover, once a record names it and none did before.
pub proof fn law_sound_machine_comes_back(
    guest: HotGuest,
    reset: HotReset,
    lane: HotLane,
    loaded: Result<Option<HotGuest>, StoreError>,
    allocation: Allocation,
    profile: Profile,
    hot: HotConfig,
    deadline: Option<u128>,
    now: u64,
)
    requires
        profile.hot == Some(hot),
        hot.enabled,
        loaded matches Ok(Some(record)) ==> record.drain_reason is None,
        guest.state is Recycling || guest.state is Provisioning,
    ensures
        ({
            let done = ReleaseEvent::Done(true);
            let reset_now = HotReset {
                simulator_reset: hot.simulator_reset,
                budget: CleanupBudget {
                    allowance: (hot.reset_timeout_seconds * 1_000_000_000) as u128,
                    deadline,
                },
            };
            &&& release_next(
                ReleaseStep::SaveRelease { guest },
                done,
                allocation,
                profile,
                deadline,
                now,
            ) == (ReleaseStep::Reset { guest, reset: reset_now })
            &&& release_next(
                ReleaseStep::Reset { guest, reset },
                done,
                allocation,
                profile,
                deadline,
                now,
            ) == (ReleaseStep::ReadDrain { guest })
            &&& release_next(
                ReleaseStep::ReadDrain { guest },
                ReleaseEvent::Loaded(loaded),
                allocation,
                profile,
                deadline,
                now,
            ) == (ReleaseStep::SaveIdle {
                guest: HotGuest { state: HotState::Idle, updated_at_unix: now, ..guest },
            })
            &&& release_next(
                ReleaseStep::SaveIdle { guest },
                done,
                allocation,
                profile,
                deadline,
                now,
            ) == (ReleaseStep::Pooled { guest })
            &&& release_next(
                ReleaseStep::SaveRetained { guest },
                done,
                allocation,
                profile,
                deadline,
                now,
            ) == (ReleaseStep::Handover { guest, reset: reset_now })
            &&& release_next(
                ReleaseStep::Handover { guest, reset },
                done,
                allocation,
                profile,
                deadline,
                now,
            ) == (ReleaseStep::ReadDrain { guest })
            &&& !(loaded matches Ok(Some(_))) && allocation.size is Some
                && allocation.source is Some ==> (release_next(
                ReleaseStep::FindRetained { lane },
                ReleaseEvent::Loaded(loaded),
                allocation,
                profile,
                deadline,
                now,
            ) matches ReleaseStep::SaveRetained { guest: kept } && kept.vm_name
                == allocation.vm_name && kept.lane == lane && kept.jobs_served == 1)
        }),
{
}

} // verus!
