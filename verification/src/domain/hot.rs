use vstd::prelude::*;

use crate::domain::allocation::{AllocationId, CloneSource, GuestSize, ProfileName, VmName};

verus! {

/// Which kind of ref a machine has served; a machine never crosses lanes.
#[derive(Clone, Copy, Debug, PartialEq, Eq, Structural)]
pub enum HotLane {
    Protected,
    Unprotected,
}

impl HotLane {
    pub open spec fn of_ref(is_protected: bool) -> HotLane {
        if is_protected {
            HotLane::Protected
        } else {
            HotLane::Unprotected
        }
    }

    pub fn from_ref_protected(is_protected: bool) -> (lane: HotLane)
        ensures
            lane == HotLane::of_ref(is_protected),
    {
        if is_protected {
            HotLane::Protected
        } else {
            HotLane::Unprotected
        }
    }
}

/// The lanes a profile keeps machines for.
#[derive(Clone, Copy, Debug, PartialEq, Eq, Structural)]
pub struct HotLanePolicy {
    pub admits_protected: bool,
    pub admits_unprotected: bool,
}

impl HotLanePolicy {
    pub open spec fn admits(&self, lane: HotLane) -> bool {
        match lane {
            HotLane::Protected => self.admits_protected,
            HotLane::Unprotected => self.admits_unprotected,
        }
    }

    pub fn is_lane_admitted(&self, lane: HotLane) -> (is: bool)
        ensures
            is == self.admits(lane),
    {
        match lane {
            HotLane::Protected => self.admits_protected,
            HotLane::Unprotected => self.admits_unprotected,
        }
    }
}

/// How deep a reset the backend runs between two jobs; its own business.
#[derive(Clone, Copy, Debug, PartialEq, Eq, Structural)]
pub struct SimulatorReset {
    pub level: u8,
}

/// A profile's pool policy.
#[derive(Clone, Copy, Debug, PartialEq, Eq, Structural)]
pub struct HotConfig {
    pub enabled: bool,
    pub lanes: HotLanePolicy,
    /// Idle machines one lane may hold.
    pub max_idle: u8,
    pub idle_ttl_seconds: u64,
    pub max_lifetime_seconds: u64,
    pub max_jobs: u32,
    pub reset_timeout_seconds: u64,
    pub simulator_reset: SimulatorReset,
}

/// What a request asks of the pool.
#[derive(Clone, Copy, Debug, PartialEq, Eq, Structural)]
pub enum HotRequest {
    Untouched,
    Retain { age_seconds: Option<u64> },
    Evict,
}

impl HotRequest {
    pub fn is_retaining(self) -> (is: bool)
        ensures
            is == (self is Retain),
    {
        match self {
            HotRequest::Retain { .. } => true,
            _ => false,
        }
    }

    pub fn is_evicting(self) -> (is: bool)
        ensures
            is == (self is Evict),
    {
        match self {
            HotRequest::Evict => true,
            _ => false,
        }
    }
}

/// Why a hot request got no pool machine.
#[derive(Clone, Copy, Debug, PartialEq, Eq, Structural)]
pub enum HotRefusal {
    Regeneration,
    NotEnabled,
    LaneNotAdmitted,
    PoolFull,
    Unsupported,
}

/// Why a pool machine has to go.
#[derive(Clone, Copy, Debug, PartialEq, Eq, Structural)]
pub enum HotDrainReason {
    MaxLifetime,
    MaxJobs,
    StaleBase,
    IdleTtl,
    MaxIdle,
    ConfigReloaded,
    EvictRequested,
    ResetFailed,
    MachineGone,
    CapacityPressure,
    OperatorRequest,
    Unverifiable,
}

#[derive(Clone, Copy, Debug, PartialEq, Eq, Structural)]
pub enum HotState {
    Provisioning,
    Idle,
    Claimed,
    Recycling,
    Draining,
    Evicted,
}

impl HotState {
    /// An evicted record no longer names a machine; every other one does.
    pub open spec fn holding(self) -> bool {
        !(self is Evicted)
    }

    /// The edges of the pool's state machine. A machine in the middle of an
    /// operation has no edge to `Draining`, and a draining one has none back.
    pub open spec fn leads_to(self, next: HotState) -> bool {
        match self {
            HotState::Provisioning => next is Idle,
            HotState::Idle => next is Claimed || next is Draining,
            HotState::Claimed => next is Recycling || next is Draining,
            HotState::Recycling => next is Idle,
            HotState::Draining => next is Evicted,
            HotState::Evicted => false,
        }
    }

    pub fn is_terminal(self) -> (is: bool)
        ensures
            is == (self is Evicted),
    {
        match self {
            HotState::Evicted => true,
            _ => false,
        }
    }

    pub fn is_holding_machine(self) -> (is: bool)
        ensures
            is == self.holding(),
    {
        !self.is_terminal()
    }

    pub fn is_edge(self, next: HotState) -> (is: bool)
        ensures
            is == self.leads_to(next),
    {
        match self {
            HotState::Provisioning => next == HotState::Idle,
            HotState::Idle => next == HotState::Claimed || next == HotState::Draining,
            HotState::Claimed => next == HotState::Recycling || next == HotState::Draining,
            HotState::Recycling => next == HotState::Idle,
            HotState::Draining => next == HotState::Evicted,
            HotState::Evicted => false,
        }
    }
}

/// A pool record was asked for a move its state does not have.
#[derive(Clone, Copy, Debug, PartialEq, Eq, Structural)]
pub struct HotTransitionError {
    pub from: HotState,
    pub to: HotState,
}

/// The durable record of one machine the pool holds.
#[derive(Debug, PartialEq, Eq)]
pub struct HotGuest {
    pub vm_name: VmName,
    pub profile: ProfileName,
    pub lane: HotLane,
    pub state: HotState,
    pub size: GuestSize,
    pub source: CloneSource,
    pub warm_generation: Option<u64>,
    pub jobs_served: u32,
    pub booted_at_unix: u64,
    pub updated_at_unix: u64,
    pub claimed_by: Option<AllocationId>,
    pub drain_reason: Option<HotDrainReason>,
    /// The lifetime the retaining run asked for; the profile's ceiling binds.
    pub age_limit_seconds: Option<u64>,
}

impl Clone for HotGuest {
    fn clone(&self) -> (copy: HotGuest)
        ensures
            copy == *self,
    {
        HotGuest {
            vm_name: self.vm_name.clone(),
            profile: self.profile.clone(),
            lane: self.lane,
            state: self.state,
            size: self.size,
            source: self.source.clone(),
            warm_generation: self.warm_generation,
            jobs_served: self.jobs_served,
            booted_at_unix: self.booted_at_unix,
            updated_at_unix: self.updated_at_unix,
            claimed_by: self.claimed_by.clone(),
            drain_reason: self.drain_reason,
            age_limit_seconds: self.age_limit_seconds,
        }
    }
}

impl HotGuest {
    pub open spec fn fresh(
        vm_name: VmName,
        profile: ProfileName,
        lane: HotLane,
        size: GuestSize,
        source: CloneSource,
        warm_generation: Option<u64>,
        age_limit_seconds: Option<u64>,
        now: u64,
    ) -> HotGuest {
        HotGuest {
            vm_name,
            profile,
            lane,
            state: HotState::Provisioning,
            size,
            source,
            warm_generation,
            jobs_served: 0,
            booted_at_unix: now,
            updated_at_unix: now,
            claimed_by: None,
            drain_reason: None,
            age_limit_seconds,
        }
    }

    /// A machine entering the pool: provisioning, unclaimed, with no job served.
    pub fn new(
        vm_name: VmName,
        profile: ProfileName,
        lane: HotLane,
        size: GuestSize,
        source: CloneSource,
        warm_generation: Option<u64>,
        age_limit_seconds: Option<u64>,
        now: u64,
    ) -> (guest: HotGuest)
        ensures
            guest == HotGuest::fresh(
                vm_name,
                profile,
                lane,
                size,
                source,
                warm_generation,
                age_limit_seconds,
                now,
            ),
    {
        HotGuest {
            vm_name,
            profile,
            lane,
            state: HotState::Provisioning,
            size,
            source,
            warm_generation,
            jobs_served: 0,
            booted_at_unix: now,
            updated_at_unix: now,
            claimed_by: None,
            drain_reason: None,
            age_limit_seconds,
        }
    }

    /// Is this an idle machine of this profile and lane?
    pub open spec fn serves(&self, profile: Seq<char>, lane: HotLane) -> bool {
        self.state is Idle && self.profile@ == profile && self.lane == lane
    }

    pub fn is_serving(&self, profile: &str, lane: HotLane) -> (is: bool)
        ensures
            is == self.serves(profile@, lane),
    {
        self.state == HotState::Idle && self.lane == lane && crate::text::is_same_text(
            self.profile.as_str(),
            profile,
        )
    }

    /// Is the machine claimed by this very allocation?
    pub open spec fn claimed_for(&self, id: Seq<char>) -> bool {
        self.claimed_by matches Some(holder) && holder@ == id
    }

    pub fn is_claimed_for(&self, id: &AllocationId) -> (is: bool)
        ensures
            is == self.claimed_for(id@),
    {
        match &self.claimed_by {
            Some(holder) => *holder == *id,
            None => false,
        }
    }

    /// Moves the record along one edge of the pool's state machine; a record
    /// already there stays.
    pub fn ensure_state(&mut self, next: HotState, now: u64) -> (moved: Result<
        (),
        HotTransitionError,
    >)
        ensures
            old(self).state == next ==> moved is Ok && *final(self) == *old(self),
            old(self).state != next && old(self).state.leads_to(next) ==> moved is Ok && *final(self)
                == (HotGuest { state: next, updated_at_unix: now, ..*old(self) }),
            old(self).state != next && !old(self).state.leads_to(next) ==> *final(self) == *old(self)
                && moved == Err::<(), HotTransitionError>(
                HotTransitionError { from: old(self).state, to: next },
            ),
    {
        if self.state == next {
            return Ok(());
        }
        if !self.state.is_edge(next) {
            return Err(HotTransitionError { from: self.state, to: next });
        }
        self.state = next;
        self.updated_at_unix = now;
        Ok(())
    }

    /// Gives an idle machine to one allocation; anything but `Idle` refuses.
    pub fn ensure_claimed(&mut self, id: &AllocationId, now: u64) -> (claimed: Result<
        (),
        HotTransitionError,
    >)
        ensures
            claimed is Ok <==> old(self).state is Idle,
            claimed is Ok ==> *final(self) == (HotGuest {
                state: HotState::Claimed,
                claimed_by: Some(*id),
                updated_at_unix: now,
                ..*old(self)
            }),
            claimed is Err ==> *final(self) == *old(self) && claimed == Err::<(), HotTransitionError>(
                HotTransitionError { from: old(self).state, to: HotState::Claimed },
            ),
    {
        if self.state != HotState::Idle {
            return Err(HotTransitionError { from: self.state, to: HotState::Claimed });
        }
        self.state = HotState::Claimed;
        self.claimed_by = Some(id.clone());
        self.updated_at_unix = now;
        Ok(())
    }

    /// Ends a claim: the machine has served one more job and is recycled next.
    pub fn ensure_released(&mut self, now: u64) -> (released: Result<(), HotTransitionError>)
        ensures
            released is Ok <==> old(self).state is Claimed,
            released is Ok ==> *final(self) == old(self).released(now),
            released is Err ==> *final(self) == *old(self) && released == Err::<
                (),
                HotTransitionError,
            >(HotTransitionError { from: old(self).state, to: HotState::Recycling }),
    {
        if self.state != HotState::Claimed {
            return Err(HotTransitionError { from: self.state, to: HotState::Recycling });
        }
        self.state = HotState::Recycling;
        self.claimed_by = None;
        self.jobs_served = self.jobs_served.saturating_add(1);
        self.updated_at_unix = now;
        Ok(())
    }

    /// The record as a release leaves it.
    pub open spec fn released(&self, now: u64) -> HotGuest {
        HotGuest {
            state: HotState::Recycling,
            claimed_by: None,
            jobs_served: if self.jobs_served == u32::MAX {
                u32::MAX
            } else {
                (self.jobs_served + 1) as u32
            },
            updated_at_unix: now,
            ..*self
        }
    }
}

/// The ways through the pool, told by where they lead. A machine is claimed only
/// from idle and recycled only from a claim; it becomes idle only out of an
/// operation that ends; it drains only from idle or from a claim, and is evicted
/// only once it drained. Nothing leads back in.
pub proof fn law_pool_states_are_reached_in_order(from: HotState)
    ensures
        from.leads_to(HotState::Claimed) <==> from == HotState::Idle,
        from.leads_to(HotState::Recycling) <==> from == HotState::Claimed,
        from.leads_to(HotState::Idle) <==> from == HotState::Provisioning || from
            == HotState::Recycling,
        from.leads_to(HotState::Draining) <==> from == HotState::Idle || from == HotState::Claimed,
        from.leads_to(HotState::Evicted) <==> from == HotState::Draining,
        !from.leads_to(HotState::Provisioning),
{
}

/// A record holds its machine in every state but one.
pub proof fn law_only_an_evicted_record_holds_nothing(state: HotState)
    ensures
        match state {
            HotState::Provisioning
            | HotState::Idle
            | HotState::Claimed
            | HotState::Recycling
            | HotState::Draining => state.holding(),
            HotState::Evicted => !state.holding(),
        },
{
}

/// A protected ref and an unprotected one never share a lane, and each lane is
/// admitted by its own flag alone.
pub proof fn law_lanes_are_apart(is_protected: bool, lanes: HotLanePolicy)
    ensures
        HotLane::of_ref(true) != HotLane::of_ref(false),
        HotLane::of_ref(is_protected) is Protected <==> is_protected,
        lanes.admits(HotLane::of_ref(is_protected)) == if is_protected {
            lanes.admits_protected
        } else {
            lanes.admits_unprotected
        },
{
}

/// A release counts the job that was served and gives the claim up; what the
/// machine is does not change.
pub proof fn law_release_counts_one_job(guest: HotGuest, now: u64)
    ensures
        ({
            let released = guest.released(now);
            &&& guest.jobs_served < u32::MAX ==> released.jobs_served == guest.jobs_served + 1
            &&& released.jobs_served >= guest.jobs_served
            &&& released.state == HotState::Recycling
            &&& released.claimed_by is None
            &&& released.updated_at_unix == now
            &&& released.vm_name == guest.vm_name
            &&& released.profile == guest.profile
            &&& released.lane == guest.lane
            &&& released.size == guest.size
            &&& released.source == guest.source
            &&& released.warm_generation == guest.warm_generation
            &&& released.booted_at_unix == guest.booted_at_unix
            &&& released.drain_reason == guest.drain_reason
            &&& released.age_limit_seconds == guest.age_limit_seconds
        }),
{
}

/// A machine is claimed for its holder and for nobody else.
pub proof fn law_claim_has_one_holder(guest: HotGuest, a: Seq<char>, b: Seq<char>)
    ensures
        guest.claimed_by matches Some(holder) ==> guest.claimed_for(holder@),
        guest.claimed_by is None ==> !guest.claimed_for(a),
        guest.claimed_for(a) && guest.claimed_for(b) ==> a == b,
{
}

/// Only an idle machine serves, and only its own profile in its own lane.
pub proof fn law_machine_serves_its_own(guest: HotGuest, profile: Seq<char>, lane: HotLane)
    ensures
        guest.state is Idle ==> guest.serves(guest.profile@, guest.lane),
        guest.serves(profile, lane) ==> guest.state is Idle && guest.profile@ == profile
            && guest.lane == lane,
{
}

} // verus!
