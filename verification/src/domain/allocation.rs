use vstd::prelude::*;

use crate::domain::hot::{HotLane, HotRefusal, HotRequest};

verus! {

pub type AllocationId = String;

pub type ProfileName = String;

pub type VmName = String;

/// What one guest is sized to.
#[derive(Clone, Copy, Debug, PartialEq, Eq, Structural)]
pub struct GuestSize {
    pub cpu_count: u8,
    pub memory_mb: u32,
    pub storage_mb: u64,
}

#[derive(Clone, Copy, Debug, PartialEq, Eq, Structural)]
pub enum AllocationState {
    Requested,
    Preparing,
    Booting,
    Registering,
    WaitingForJob,
    Ready,
    Running,
    Cleaning,
    Completed,
    Failed,
    Cancelled,
}

impl AllocationState {
    /// Is the allocation over?
    pub open spec fn terminal(self) -> bool {
        self is Completed || self is Failed || self is Cancelled
    }

    pub fn is_terminal(self) -> (is: bool)
        ensures
            is == self.terminal(),
    {
        match self {
            AllocationState::Completed | AllocationState::Failed | AllocationState::Cancelled => true,
            _ => false,
        }
    }
}

/// What is said of a transition that has no edge.
#[derive(Debug, PartialEq, Eq)]
pub struct EdgeRefusal {
    pub from: AllocationState,
    pub to: AllocationState,
    pub message: String,
}

/// The lifecycle edges a record may take, and what is said where there is none.
#[derive(Debug, PartialEq, Eq)]
pub struct LifecycleEdges {
    pub edges: Vec<(AllocationState, AllocationState)>,
    pub refusals: Vec<EdgeRefusal>,
}

/// What the first of these refusals of a transition says.
pub open spec fn refusal_message(
    refusals: Seq<EdgeRefusal>,
    from: AllocationState,
    to: AllocationState,
) -> Option<String>
    decreases refusals.len(),
{
    if refusals.len() == 0 {
        None
    } else {
        match refusal_message(refusals.drop_last(), from, to) {
            Some(message) => Some(message),
            None => if refusals.last().from == from && refusals.last().to == to {
                Some(refusals.last().message)
            } else {
                None
            },
        }
    }
}

impl LifecycleEdges {
    /// Is there an edge from one state to another?
    pub open spec fn permits(&self, from: AllocationState, to: AllocationState) -> bool {
        exists|i: int| 0 <= i < self.edges@.len() && #[trigger] self.edges@[i] == (from, to)
    }

    pub fn is_permitted(&self, from: AllocationState, to: AllocationState) -> (is: bool)
        ensures
            is == self.permits(from, to),
    {
        let mut i: usize = 0;
        while i < self.edges.len()
            invariant
                i <= self.edges@.len(),
                forall|k: int| 0 <= k < i ==> #[trigger] self.edges@[k] != (from, to),
            decreases self.edges@.len() - i,
        {
            if self.edges[i].0 == from && self.edges[i].1 == to {
                assert(self.edges@[i as int] == (from, to));
                return true;
            }
            i = i + 1;
        }
        false
    }

    /// The error of a transition that has no edge.
    pub open spec fn refused(&self, from: AllocationState, to: AllocationState) -> StateTransitionError {
        StateTransitionError { from, to, message: refusal_message(self.refusals@, from, to) }
    }

    pub fn refusal(&self, from: AllocationState, to: AllocationState) -> (error:
        StateTransitionError)
        ensures
            error == self.refused(from, to),
    {
        let mut message: Option<String> = None;
        let mut i: usize = 0;
        while i < self.refusals.len()
            invariant
                i <= self.refusals@.len(),
                message == refusal_message(self.refusals@.take(i as int), from, to),
            decreases self.refusals@.len() - i,
        {
            proof {
                assert(self.refusals@.take(i + 1).drop_last() =~= self.refusals@.take(i as int));
                assert(self.refusals@.take(i + 1).last() == self.refusals@[i as int]);
            }
            if message.is_none() && self.refusals[i].from == from && self.refusals[i].to == to {
                message = Some(self.refusals[i].message.clone());
            }
            i = i + 1;
        }
        assert(self.refusals@.take(self.refusals@.len() as int) =~= self.refusals@);
        StateTransitionError { from, to, message }
    }
}

#[derive(Debug, PartialEq, Eq)]
pub struct StateTransitionError {
    pub from: AllocationState,
    pub to: AllocationState,
    /// What the lifecycle rules say of it, where they say anything.
    pub message: Option<String>,
}

#[derive(Clone, Copy, Debug, PartialEq, Eq, Structural)]
pub enum AllocationMode {
    Cold,
    Warm,
    Regenerate,
}

#[derive(Clone, Copy, Debug, PartialEq, Eq, Structural)]
pub enum CloneKind {
    Template,
    Warm,
}

/// Why a warm request booted the cold template.
#[derive(Clone, Copy, Debug, PartialEq, Eq, Structural)]
pub enum FallbackReason {
    NotDeclared,
    Unsupported,
    Quarantined,
    Absent,
    NoRecord,
    Unclaimed,
    Repointed,
    NotPromoted,
    NotStopped,
    FingerprintUnavailable,
    StaleBase,
}

/// What a guest was cloned from.
#[derive(Debug, PartialEq, Eq)]
pub struct CloneSource {
    pub name: VmName,
    pub kind: CloneKind,
    pub base_fingerprint: Option<String>,
    pub fallback_reason: Option<FallbackReason>,
}

impl Clone for CloneSource {
    fn clone(&self) -> (copy: CloneSource)
        ensures
            copy == *self,
    {
        CloneSource {
            name: self.name.clone(),
            kind: self.kind,
            base_fingerprint: self.base_fingerprint.clone(),
            fallback_reason: self.fallback_reason,
        }
    }
}

/// Where an allocation's machine came from.
#[derive(Debug, PartialEq, Eq)]
pub enum AllocationOrigin {
    Cloned,
    HotReuse { vm_name: VmName, jobs_served: u32, booted_at_unix: u64 },
}

impl AllocationOrigin {
    /// The pool machine this origin reuses, if it reuses one.
    pub open spec fn hot_name(&self) -> Option<Seq<char>> {
        match self {
            AllocationOrigin::Cloned => None,
            AllocationOrigin::HotReuse { vm_name, .. } => Some(vm_name@),
        }
    }

    pub fn hot_vm_name(&self) -> (name: Option<&VmName>)
        ensures
            match name {
                Some(vm_name) => self.hot_name() == Some(vm_name@) && (self matches
                    AllocationOrigin::HotReuse { vm_name: held, .. } && *vm_name == held),
                None => self.hot_name() is None,
            },
    {
        match self {
            AllocationOrigin::Cloned => None,
            AllocationOrigin::HotReuse { vm_name, .. } => Some(vm_name),
        }
    }
}

impl Clone for AllocationOrigin {
    fn clone(&self) -> (copy: AllocationOrigin)
        ensures
            copy == *self,
    {
        match self {
            AllocationOrigin::Cloned => AllocationOrigin::Cloned,
            AllocationOrigin::HotReuse { vm_name, jobs_served, booted_at_unix } => {
                AllocationOrigin::HotReuse {
                    vm_name: vm_name.clone(),
                    jobs_served: *jobs_served,
                    booted_at_unix: *booted_at_unix,
                }
            },
        }
    }
}

/// One run attempt's request for a machine.
#[derive(Debug, PartialEq, Eq)]
pub struct AllocationRequest {
    pub profile: ProfileName,
    pub repository: String,
    pub run_id: u64,
    pub run_attempt: u32,
}

impl AllocationRequest {
    /// Do both requests come from one run attempt, whatever they ask for?
    pub open spec fn same_attempt(&self, other: &AllocationRequest) -> bool {
        &&& self.repository@ == other.repository@
        &&& self.run_id == other.run_id
        &&& self.run_attempt == other.run_attempt
    }

    pub fn is_same_attempt(&self, other: &AllocationRequest) -> (is: bool)
        ensures
            is == self.same_attempt(other),
    {
        self.repository == other.repository && self.run_id == other.run_id && self.run_attempt
            == other.run_attempt
    }
}

impl Clone for AllocationRequest {
    fn clone(&self) -> (copy: AllocationRequest)
        ensures
            copy == *self,
    {
        AllocationRequest {
            profile: self.profile.clone(),
            repository: self.repository.clone(),
            run_id: self.run_id,
            run_attempt: self.run_attempt,
        }
    }
}

/// What a request asks for beyond its profile's defaults.
#[derive(Clone, Copy, Debug, PartialEq, Eq, Structural)]
pub struct RequestOptions {
    pub warm: bool,
    pub cpu_count: Option<u8>,
    pub memory_mb: Option<u32>,
    pub hot: HotRequest,
}

impl Default for RequestOptions {
    fn default() -> (options: RequestOptions)
        ensures
            options == (RequestOptions {
                warm: false,
                cpu_count: None,
                memory_mb: None,
                hot: HotRequest::Untouched,
            }),
    {
        RequestOptions { warm: false, cpu_count: None, memory_mb: None, hot: HotRequest::Untouched }
    }
}

/// Where retention of a regenerated image stopped and what it produced.
#[derive(Debug, PartialEq, Eq)]
pub struct RetentionOutcome {
    pub outcome: String,
    pub phase: String,
    pub message: String,
    pub generation: Option<u64>,
}

impl Clone for RetentionOutcome {
    fn clone(&self) -> (copy: RetentionOutcome)
        ensures
            copy == *self,
    {
        RetentionOutcome {
            outcome: self.outcome.clone(),
            phase: self.phase.clone(),
            message: self.message.clone(),
            generation: self.generation,
        }
    }
}

/// The durable record of one allocation.
#[derive(Debug, PartialEq, Eq)]
pub struct Allocation {
    pub id: AllocationId,
    pub request: AllocationRequest,
    pub vm_name: VmName,
    pub runner_label: String,
    pub state: AllocationState,
    pub mode: AllocationMode,
    /// Absent on a record written before requests were sized one by one.
    pub size: Option<GuestSize>,
    pub source: Option<CloneSource>,
    pub warm_generation: Option<u64>,
    pub origin: AllocationOrigin,
    pub hot_lane: Option<HotLane>,
    pub hot_age_seconds: Option<u64>,
    pub hot_refusal: Option<HotRefusal>,
    pub vm_created: bool,
    pub runner_id: Option<i64>,
    pub error: Option<String>,
    pub retention: Option<RetentionOutcome>,
    pub created_at_unix: u64,
    pub updated_at_unix: u64,
}

impl Clone for Allocation {
    fn clone(&self) -> (copy: Allocation)
        ensures
            copy == *self,
    {
        Allocation {
            id: self.id.clone(),
            request: self.request.clone(),
            vm_name: self.vm_name.clone(),
            runner_label: self.runner_label.clone(),
            state: self.state,
            mode: self.mode,
            size: self.size,
            source: self.source.clone(),
            warm_generation: self.warm_generation,
            origin: self.origin.clone(),
            hot_lane: self.hot_lane,
            hot_age_seconds: self.hot_age_seconds,
            hot_refusal: self.hot_refusal,
            vm_created: self.vm_created,
            runner_id: self.runner_id,
            error: self.error.clone(),
            retention: self.retention.clone(),
            created_at_unix: self.created_at_unix,
            updated_at_unix: self.updated_at_unix,
        }
    }
}

impl Allocation {
    /// A fresh record: requested, cloned from nothing yet, and bound to the one
    /// machine name it may ever own.
    pub fn new(
        id: AllocationId,
        request: AllocationRequest,
        vm_name: VmName,
        runner_label: String,
        mode: AllocationMode,
        size: GuestSize,
        now: u64,
    ) -> (allocation: Allocation)
        ensures
            allocation == Allocation::fresh(id, request, vm_name, runner_label, mode, size, now),
    {
        Allocation {
            id,
            request,
            vm_name,
            runner_label,
            state: AllocationState::Requested,
            mode,
            size: Some(size),
            source: None,
            warm_generation: None,
            origin: AllocationOrigin::Cloned,
            hot_lane: None,
            hot_age_seconds: None,
            hot_refusal: None,
            vm_created: false,
            runner_id: None,
            error: None,
            retention: None,
            created_at_unix: now,
            updated_at_unix: now,
        }
    }

    pub open spec fn fresh(
        id: AllocationId,
        request: AllocationRequest,
        vm_name: VmName,
        runner_label: String,
        mode: AllocationMode,
        size: GuestSize,
        now: u64,
    ) -> Allocation {
        Allocation {
            id,
            request,
            vm_name,
            runner_label,
            state: AllocationState::Requested,
            mode,
            size: Some(size),
            source: None,
            warm_generation: None,
            origin: AllocationOrigin::Cloned,
            hot_lane: None,
            hot_age_seconds: None,
            hot_refusal: None,
            vm_created: false,
            runner_id: None,
            error: None,
            retention: None,
            created_at_unix: now,
            updated_at_unix: now,
        }
    }

    /// Is the allocation still going?
    pub open spec fn live(&self) -> bool {
        !self.state.terminal()
    }

    /// The name of the machine this allocation will leave behind: the pool
    /// machine it reused, or else the guest it cloned.
    pub open spec fn held_name(&self) -> Seq<char> {
        match self.origin.hot_name() {
            Some(name) => name,
            None => self.vm_name@,
        }
    }

    /// Does the pool have a say in what becomes of this allocation's machine?
    pub open spec fn hot(&self) -> bool {
        self.hot_lane is Some || self.origin is HotReuse
    }

    pub fn is_hot(&self) -> (is: bool)
        ensures
            is == self.hot(),
    {
        self.hot_lane.is_some() || self.origin.hot_vm_name().is_some()
    }

    /// Records what admission decided about a hot request. A source given here
    /// replaces the recorded one; none leaves it.
    pub fn set_hot(
        &mut self,
        lane: Option<HotLane>,
        origin: AllocationOrigin,
        source: Option<CloneSource>,
        age_seconds: Option<u64>,
    )
        ensures
            *final(self) == (Allocation {
                hot_lane: lane,
                origin,
                source: if source is Some { source } else { old(self).source },
                hot_age_seconds: age_seconds,
                ..*old(self)
            }),
    {
        self.hot_lane = lane;
        self.origin = origin;
        if source.is_some() {
            self.source = source;
        }
        self.hot_age_seconds = age_seconds;
    }

    /// Records why a hot request produced no pool machine.
    pub fn set_hot_refused(&mut self, refusal: HotRefusal)
        ensures
            *final(self) == (Allocation { hot_refusal: Some(refusal), ..*old(self) }),
    {
        self.hot_refusal = Some(refusal);
    }

    /// Records the clone source and the warm generation together.
    pub fn set_clone_source(&mut self, source: CloneSource, warm_generation: Option<u64>)
        ensures
            *final(self) == (Allocation { source: Some(source), warm_generation, ..*old(self) }),
    {
        self.source = Some(source);
        self.warm_generation = warm_generation;
    }
}

/// An allocation is over in three ways and in no other: while it prepares, boots,
/// registers, waits, runs or is cleaned up, it still goes on.
pub proof fn law_allocation_is_over_in_three_ways(allocation: Allocation)
    ensures
        match allocation.state {
            AllocationState::Completed
            | AllocationState::Failed
            | AllocationState::Cancelled => allocation.state.terminal() && !allocation.live(),
            _ => !allocation.state.terminal() && allocation.live(),
        },
{
}

/// One attempt is one repository, one run and one try of it: whatever else two
/// requests ask for, they are one attempt exactly while these agree, and a rerun
/// is another one.
pub proof fn law_attempt_is_repository_run_and_try(a: AllocationRequest, b: AllocationRequest)
    ensures
        a.same_attempt(&b) ==> a.repository@ == b.repository@ && a.run_id == b.run_id
            && a.run_attempt == b.run_attempt,
        a.repository@ == b.repository@ && a.run_id == b.run_id && a.run_attempt == b.run_attempt
            ==> a.same_attempt(&b),
        a.same_attempt(&b) == b.same_attempt(&a),
        a.same_attempt(&a),
{
}

/// A refused transition is told in the words of the first refusal of that very
/// edge: refusals of other edges before it say nothing of it, and nothing after it
/// does either. Where none is of it, nothing is told.
pub proof fn law_refusal_speaks_of_its_own_edge(
    refusals: Seq<EdgeRefusal>,
    from: AllocationState,
    to: AllocationState,
    i: int,
)
    requires
        forall|k: int|
            0 <= k < i && k < refusals.len() ==> (#[trigger] refusals[k]).from != from
                || refusals[k].to != to,
        0 <= i <= refusals.len(),
        i < refusals.len() ==> refusals[i].from == from && refusals[i].to == to,
    ensures
        i < refusals.len() ==> refusal_message(refusals, from, to) == Some(refusals[i].message),
        i == refusals.len() ==> refusal_message(refusals, from, to) is None,
    decreases refusals.len(),
{
    if refusals.len() > 0 {
        let rest = refusals.drop_last();
        let last: int = refusals.len() - 1;
        assert forall|k: int| 0 <= k < i && k < rest.len() implies (#[trigger] rest[k]).from
            != from || rest[k].to != to by {
            assert(rest[k] == refusals[k]);
        }
        if i < last {
            assert(rest[i] == refusals[i]);
            law_refusal_speaks_of_its_own_edge(rest, from, to, i);
        } else {
            law_refusal_speaks_of_its_own_edge(rest, from, to, last);
            if i > last {
                assert(refusals[last].from != from || refusals[last].to != to);
            }
        }
    }
}

/// A new record begins at the beginning: requested, with its own identity, the
/// size it was granted, nothing created, nothing claimed and nothing gone wrong.
pub proof fn law_new_record_begins_at_the_beginning(
    id: AllocationId,
    request: AllocationRequest,
    vm_name: VmName,
    runner_label: String,
    mode: AllocationMode,
    size: GuestSize,
    now: u64,
)
    ensures
        ({
            let record = Allocation::fresh(id, request, vm_name, runner_label, mode, size, now);
            &&& record.state == AllocationState::Requested
            &&& record.id == id && record.request == request && record.vm_name == vm_name
            &&& record.runner_label == runner_label && record.mode == mode
            &&& record.size == Some(size)
            &&& !record.vm_created && record.runner_id is None && record.error is None
            &&& record.origin is Cloned && record.hot_lane is None && record.hot_refusal is None
            &&& record.retention is None && record.source is None
            &&& record.created_at_unix == now && record.updated_at_unix == now
        }),
{
}

/// The machine an allocation leaves behind is the one its job ran on: the pool
/// machine where it reused one, and its own guest where it did not.
pub proof fn law_job_leaves_the_machine_it_ran_on(allocation: Allocation)
    ensures
        allocation.origin matches AllocationOrigin::HotReuse { vm_name, .. }
            ==> allocation.held_name() == vm_name@ && allocation.hot(),
        allocation.origin is Cloned ==> allocation.held_name() == allocation.vm_name@
            && allocation.hot() == (allocation.hot_lane is Some),
{
}

} // verus!
