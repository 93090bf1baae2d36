use vstd::prelude::*;

use crate::admission::probe::SECOND;
use crate::domain::hot::{HotConfig, HotDrainReason, HotGuest, HotState};
use crate::domain::profile::Profile;
use crate::event::Fact;
use crate::hot::recycle::reset_of;
use crate::service::AllocationManager;
use crate::worker::model::HotReset;

verus! {

/// The next thing the reconciliation of one hot record does. The last five end
/// it, and only one of them leaves the machine in the pool.
#[derive(Debug, PartialEq, Eq)]
pub enum AdoptStep {
    /// Run the recycle gate over the machine.
    Reset { reset: HotReset },
    /// Save the machine as idle.
    Save { adopted: HotGuest },
    /// The machine is back in the pool.
    Adopted,
    /// The record no longer names a machine: remove it.
    Drop,
    /// The host does not report the machine: remove the record, and destroy
    /// nothing.
    Forget { reason: HotDrainReason },
    /// Destroy the machine.
    Evict { reason: HotDrainReason },
}

/// Where the reconciliation of one hot record begins.
pub open spec fn adopt_start(
    guest: HotGuest,
    is_present: bool,
    hot: Option<HotConfig>,
    deadline: Option<u128>,
) -> AdoptStep {
    if guest.state is Evicted {
        AdoptStep::Drop
    } else if !is_present {
        AdoptStep::Forget { reason: HotDrainReason::MachineGone }
    } else {
        match guest.drain_reason {
            Some(reason) => AdoptStep::Evict { reason },
            None => match hot {
                None => AdoptStep::Evict { reason: HotDrainReason::ConfigReloaded },
                Some(policy) => AdoptStep::Reset { reset: reset_of(policy, deadline) },
            },
        }
    }
}

/// The record of a machine that was reset after a restart, where its
/// state has a way back to the pool. No allocation survives a restart still
/// holding a machine, so a claim is given up.
pub open spec fn adopted_record(guest: HotGuest, now: u64) -> Option<HotGuest> {
    let freed = if guest.state is Claimed {
        guest.released(now)
    } else {
        guest
    };
    if freed.state is Idle {
        Some(freed)
    } else if freed.state.leads_to(HotState::Idle) {
        Some(HotGuest { state: HotState::Idle, updated_at_unix: now, ..freed })
    } else {
        None
    }
}

/// What follows a step that succeeded or did not. A step that ended stays.
pub open spec fn adopt_next(step: AdoptStep, is_done: bool, guest: HotGuest, now: u64) -> AdoptStep {
    match step {
        AdoptStep::Reset { .. } => if !is_done {
            AdoptStep::Evict { reason: HotDrainReason::Unverifiable }
        } else {
            match adopted_record(guest, now) {
                Some(adopted) => AdoptStep::Save { adopted },
                None => AdoptStep::Evict { reason: HotDrainReason::Unverifiable },
            }
        },
        AdoptStep::Save { .. } => if is_done {
            AdoptStep::Adopted
        } else {
            AdoptStep::Evict { reason: HotDrainReason::Unverifiable }
        },
        ended => ended,
    }
}

/// The fact the end of one record's adoption leaves: a machine that is gone is
/// told. What an eviction leaves, its own end says.
pub open spec fn adoption_leaves(step: AdoptStep, guest: HotGuest) -> Option<Fact> {
    match step {
        AdoptStep::Forget { reason } => Some(Fact::absence(guest, reason)),
        _ => None,
    }
}

/// The fact the end of one record's adoption leaves.
pub fn adoption_fact(step: &AdoptStep, guest: &HotGuest) -> (fact: Option<Fact>)
    ensures
        fact == adoption_leaves(*step, *guest),
{
    match step {
        AdoptStep::Forget { reason } => Some(Fact::absent(guest, *reason)),
        _ => None,
    }
}

impl AllocationManager {
    /// Reconciles one durable hot record against the host listing: where that
    /// begins. Adoption requires proof, and the recycle gate is the proof: a
    /// machine the host still reports is re-verified before it may serve
    /// another job.
    ///
    /// A machine that was drained does not come back claimable: the reason
    /// outlives the restart.
    pub fn ensure_hot_consistent(
        &self,
        guest: &HotGuest,
        is_present: bool,
        profile: Option<&Profile>,
    ) -> (step: AdoptStep)
        ensures
            step == adopt_start(
                *guest,
                is_present,
                match profile {
                    Some(found) => found.live_hot(),
                    None => None::<HotConfig>,
                },
                self.teardown_deadline,
            ),
    {
        if guest.state.is_terminal() {
            return AdoptStep::Drop;
        }
        if !is_present {
            return AdoptStep::Forget { reason: HotDrainReason::MachineGone };
        }
        if let Some(reason) = guest.drain_reason {
            return AdoptStep::Evict { reason };
        }
        let hot: Option<HotConfig> = match profile {
            Some(found) => found.enabled_hot(),
            None => None,
        };
        match hot {
            None => AdoptStep::Evict { reason: HotDrainReason::ConfigReloaded },
            Some(policy) => AdoptStep::Reset {
                reset: HotReset {
                    simulator_reset: policy.simulator_reset,
                    budget: self.teardown_budget(policy.reset_timeout_seconds as u128 * SECOND),
                },
            },
        }
    }

    /// Verifies one surviving machine and returns it to the pool, or evicts it:
    /// what follows a step. Every path that is not a clean gate pass ends in an
    /// eviction, so the pool never inherits a machine nobody proved clean.
    pub fn is_hot_adoptable(step: AdoptStep, is_done: bool, guest: &HotGuest, now: u64) -> (next:
        AdoptStep)
        ensures
            next == adopt_next(step, is_done, *guest, now),
    {
        match step {
            AdoptStep::Reset { .. } => {
                if !is_done {
                    return AdoptStep::Evict { reason: HotDrainReason::Unverifiable };
                }
                let mut adopted: HotGuest = guest.clone();
                // The claim is given up through the record rather than assigned
                // past, so a state with no edge back to the pool evicts instead
                // of being written over.
                if adopted.state == HotState::Claimed {
                    let released = adopted.ensure_released(now);
                    assert(released is Ok);
                }
                if adopted.ensure_state(HotState::Idle, now).is_err() {
                    return AdoptStep::Evict { reason: HotDrainReason::Unverifiable };
                }
                AdoptStep::Save { adopted }
            },
            AdoptStep::Save { .. } => if is_done {
                AdoptStep::Adopted
            } else {
                AdoptStep::Evict { reason: HotDrainReason::Unverifiable }
            },
            ended => ended,
        }
    }
}

/// The pool never inherits a machine nobody proved clean: a machine comes back
/// only once its gate passed and its record as an idle one is durable.
pub proof fn law_adoption_needs_a_clean_gate(step: AdoptStep, is_done: bool, guest: HotGuest, now: u64)
    ensures
        ({
            let next = adopt_next(step, is_done, guest, now);
            &&& next is Adopted && !(step is Adopted) ==> step is Save && is_done
            &&& next is Save && !(step is Save) ==> step is Reset && is_done
                && next->Save_adopted.state is Idle && next->Save_adopted.claimed_by
                == (if guest.state is Claimed {
                None
            } else {
                guest.claimed_by
            })
        }),
{
}

/// A machine that was drained before a restart does not come back, nor does one
/// the host no longer reports or no profile keeps.
pub proof fn law_drained_machine_stays_out(
    guest: HotGuest,
    is_present: bool,
    hot: Option<HotConfig>,
    deadline: Option<u128>,
)
    ensures
        adopt_start(guest, is_present, hot, deadline) is Reset <==> guest.state.holding()
            && is_present && guest.drain_reason is None && hot is Some,
{
}

/// What becomes of a pool record after a restart, in the order it is asked: an
/// evicted record is dropped, a machine the host does not list is forgotten, one
/// that was drained or has no policy any more is destroyed, and every other is
/// reset before anybody trusts it.
pub proof fn law_restart_judges_every_machine(
    guest: HotGuest,
    is_present: bool,
    hot: Option<HotConfig>,
    deadline: Option<u128>,
)
    ensures
        ({
            let first = adopt_start(guest, is_present, hot, deadline);
            &&& first is Drop <==> guest.state is Evicted
            &&& first is Forget <==> !(guest.state is Evicted) && !is_present
            &&& first matches AdoptStep::Forget { reason } ==> reason
                == HotDrainReason::MachineGone
            &&& !(guest.state is Evicted) && is_present ==> match guest.drain_reason {
                Some(reason) => first == (AdoptStep::Evict { reason }),
                None => match hot {
                    None => first == (AdoptStep::Evict {
                        reason: HotDrainReason::ConfigReloaded,
                    }),
                    Some(policy) => first matches AdoptStep::Reset { reset }
                        && reset.simulator_reset == policy.simulator_reset
                        && reset.budget.deadline == deadline && reset.budget.allowance
                        == policy.reset_timeout_seconds * 1_000_000_000,
                },
            }
        }),
{
}

/// A machine comes back idle and nobody's, whatever it was doing when the daemon
/// stopped, unless it was on its way out. The job of an interrupted claim counts.
pub proof fn law_surviving_machine_comes_back_idle(guest: HotGuest, now: u64)
    ensures
        adopted_record(guest, now) is Some <==> guest.state is Idle || guest.state is Provisioning
            || guest.state is Recycling || guest.state is Claimed,
        adopted_record(guest, now) matches Some(adopted) ==> {
            &&& adopted.state == HotState::Idle
            &&& adopted.vm_name == guest.vm_name
            &&& adopted.profile == guest.profile
            &&& adopted.lane == guest.lane
            &&& adopted.size == guest.size
            &&& adopted.source == guest.source
            &&& adopted.booted_at_unix == guest.booted_at_unix
            &&& adopted.drain_reason == guest.drain_reason
            &&& guest.state is Claimed ==> adopted.claimed_by is None && (guest.jobs_served
                < u32::MAX ==> adopted.jobs_served == guest.jobs_served + 1)
            &&& !(guest.state is Claimed) ==> adopted.jobs_served == guest.jobs_served
            &&& guest.state is Idle ==> adopted == guest
        },
{
}

/// Without proof there is no way back: a reset that fails, a state without a way
/// to idle and a record that cannot be written each end in the machine's
/// destruction.
pub proof fn law_unproved_machine_is_destroyed(
    reset: HotReset,
    adopted: HotGuest,
    guest: HotGuest,
    now: u64,
)
    ensures
        ({
            let destroyed = AdoptStep::Evict { reason: HotDrainReason::Unverifiable };
            &&& adopt_next(AdoptStep::Reset { reset }, false, guest, now) == destroyed
            &&& adopt_next(AdoptStep::Save { adopted }, false, guest, now) == destroyed
            &&& guest.state is Draining || guest.state is Evicted ==> adopt_next(
                AdoptStep::Reset { reset },
                true,
                guest,
                now,
            ) == destroyed
            &&& adopt_next(AdoptStep::Save { adopted }, true, guest, now) == AdoptStep::Adopted
            &&& !(guest.state is Draining || guest.state is Evicted) ==> adopt_next(
                AdoptStep::Reset { reset },
                true,
                guest,
                now,
            ) is Save
        }),
{
}

} // verus!
