use vstd::prelude::*;

use crate::domain::allocation::{Allocation, AllocationId, AllocationState, ProfileName, VmName};
use crate::domain::hot::{HotDrainReason, HotGuest, HotLane};
use crate::state::Change;

verus! {

/// What happened, for whoever keeps the history.
#[derive(Clone, Copy, Debug, PartialEq, Eq, Structural)]
pub enum EventKind {
    AllocationLeaked,
    AllocationStateChanged,
    HotClaimed,
    HotEvicted,
    HotRecycled,
    ReaperDeleted,
    ReaperSweep,
}

/// What a fact says beyond its kind and what it is about.
#[derive(Debug, PartialEq, Eq)]
pub enum Payload {
    /// An allocation went from one state to another.
    Transition { from: AllocationState, to: AllocationState },
    /// A shutdown left an allocation behind in this state.
    Leak { state: AllocationState, is_vm_created: bool, runner_id: Option<i64> },
    /// A pool machine was claimed after so many jobs.
    Claim { jobs_served: u32 },
    /// A pool machine was destroyed.
    Eviction { reason: HotDrainReason, jobs_served: u32 },
    /// The record of a machine that the host no longer reports was retired.
    Absence { reason: HotDrainReason },
    /// A machine came into the pool.
    Recycling { lane: HotLane, jobs_served: u32 },
    /// A sweep deleted the machine of this name.
    Deletion { name: String },
    /// A deleting sweep ended, with so many of each.
    Sweep {
        planned: usize,
        deleted: usize,
        skipped: usize,
        unaged: usize,
        pruned_records: usize,
        retired_images: usize,
    },
}

/// One fact of the daemon's history.
#[derive(Debug, PartialEq, Eq)]
pub struct Fact {
    pub kind: EventKind,
    pub allocation_id: Option<AllocationId>,
    pub vm_name: Option<VmName>,
    pub profile: Option<ProfileName>,
    pub payload: Payload,
}

impl Fact {
    /// A fact about one pool machine.
    pub open spec fn of_guest(kind: EventKind, guest: HotGuest, payload: Payload) -> Fact {
        Fact {
            kind,
            allocation_id: None,
            vm_name: Some(guest.vm_name),
            profile: Some(guest.profile),
            payload,
        }
    }

    fn about(kind: EventKind, guest: &HotGuest, payload: Payload) -> (fact: Fact)
        ensures
            fact == Fact::of_guest(kind, *guest, payload),
    {
        Fact {
            kind,
            allocation_id: None,
            vm_name: Some(guest.vm_name.clone()),
            profile: Some(guest.profile.clone()),
            payload,
        }
    }

    /// This allocation claimed a pool machine.
    pub open spec fn claim(allocation_id: AllocationId, guest: HotGuest) -> Fact {
        Fact {
            allocation_id: Some(allocation_id),
            ..Fact::of_guest(
                EventKind::HotClaimed,
                guest,
                Payload::Claim { jobs_served: guest.jobs_served },
            )
        }
    }

    pub fn claimed(allocation_id: &AllocationId, guest: &HotGuest) -> (fact: Fact)
        ensures
            fact == Fact::claim(*allocation_id, *guest),
    {
        let payload: Payload = Payload::Claim { jobs_served: guest.jobs_served };
        let mut fact: Fact = Fact::about(EventKind::HotClaimed, guest, payload);
        fact.allocation_id = Some(allocation_id.clone());
        fact
    }

    /// A pool machine was destroyed and its record retired.
    pub open spec fn eviction(guest: HotGuest, reason: HotDrainReason) -> Fact {
        Fact::of_guest(
            EventKind::HotEvicted,
            guest,
            Payload::Eviction { reason, jobs_served: guest.jobs_served },
        )
    }

    pub fn evicted(guest: &HotGuest, reason: HotDrainReason) -> (fact: Fact)
        ensures
            fact == Fact::eviction(*guest, reason),
    {
        let payload: Payload = Payload::Eviction { reason, jobs_served: guest.jobs_served };
        Fact::about(EventKind::HotEvicted, guest, payload)
    }

    /// The record of a pool machine that is gone was retired.
    pub open spec fn absence(guest: HotGuest, reason: HotDrainReason) -> Fact {
        Fact::of_guest(EventKind::HotEvicted, guest, Payload::Absence { reason })
    }

    pub fn absent(guest: &HotGuest, reason: HotDrainReason) -> (fact: Fact)
        ensures
            fact == Fact::absence(*guest, reason),
    {
        Fact::about(EventKind::HotEvicted, guest, Payload::Absence { reason })
    }

    /// A machine came into the pool.
    pub open spec fn recycling(guest: HotGuest) -> Fact {
        Fact::of_guest(
            EventKind::HotRecycled,
            guest,
            Payload::Recycling { lane: guest.lane, jobs_served: guest.jobs_served },
        )
    }

    pub fn recycled(guest: &HotGuest) -> (fact: Fact)
        ensures
            fact == Fact::recycling(*guest),
    {
        let payload: Payload = Payload::Recycling {
            lane: guest.lane,
            jobs_served: guest.jobs_served,
        };
        Fact::about(EventKind::HotRecycled, guest, payload)
    }

    /// A sweep deleted the machine of this name.
    pub open spec fn deletion(name: String) -> Fact {
        Fact {
            kind: EventKind::ReaperDeleted,
            allocation_id: None,
            vm_name: None,
            profile: None,
            payload: Payload::Deletion { name },
        }
    }

    pub fn deleted(name: &String) -> (fact: Fact)
        ensures
            fact == Fact::deletion(*name),
    {
        Fact {
            kind: EventKind::ReaperDeleted,
            allocation_id: None,
            vm_name: None,
            profile: None,
            payload: Payload::Deletion { name: name.clone() },
        }
    }
}

/// The fact that going to a state leaves of an allocation. No other change
/// leaves one.
pub open spec fn fact_of(before: Allocation, change: Change) -> Option<Fact> {
    match change {
        Change::Transition(to) => Some(
            Fact {
                kind: EventKind::AllocationStateChanged,
                allocation_id: Some(before.id),
                vm_name: None,
                profile: None,
                payload: Payload::Transition { from: before.state, to },
            },
        ),
        _ => None,
    }
}

/// The fact to be told once a change of this record is durable.
pub fn state_change(before: &Allocation, change: &Change) -> (fact: Option<Fact>)
    ensures
        fact == fact_of(*before, *change),
{
    match change {
        Change::Transition(to) => Some(
            Fact {
                kind: EventKind::AllocationStateChanged,
                allocation_id: Some(before.id.clone()),
                vm_name: None,
                profile: None,
                payload: Payload::Transition { from: before.state, to: *to },
            },
        ),
        _ => None,
    }
}

/// A fact names what it is about: the machine and its profile, the allocation that
/// claimed it, what was served and why it went.
pub proof fn law_fact_names_its_subject(
    id: AllocationId,
    guest: HotGuest,
    reason: HotDrainReason,
    name: String,
)
    ensures
        Fact::claim(id, guest) == (Fact {
            kind: EventKind::HotClaimed,
            allocation_id: Some(id),
            vm_name: Some(guest.vm_name),
            profile: Some(guest.profile),
            payload: Payload::Claim { jobs_served: guest.jobs_served },
        }),
        Fact::eviction(guest, reason) == (Fact {
            kind: EventKind::HotEvicted,
            allocation_id: None,
            vm_name: Some(guest.vm_name),
            profile: Some(guest.profile),
            payload: Payload::Eviction { reason, jobs_served: guest.jobs_served },
        }),
        Fact::absence(guest, reason) == (Fact {
            kind: EventKind::HotEvicted,
            allocation_id: None,
            vm_name: Some(guest.vm_name),
            profile: Some(guest.profile),
            payload: Payload::Absence { reason },
        }),
        Fact::recycling(guest) == (Fact {
            kind: EventKind::HotRecycled,
            allocation_id: None,
            vm_name: Some(guest.vm_name),
            profile: Some(guest.profile),
            payload: Payload::Recycling { lane: guest.lane, jobs_served: guest.jobs_served },
        }),
        Fact::deletion(name) == (Fact {
            kind: EventKind::ReaperDeleted,
            allocation_id: None,
            vm_name: None,
            profile: None,
            payload: Payload::Deletion { name },
        }),
{
}

} // verus!
