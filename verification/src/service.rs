use vstd::prelude::*;

use crate::admission::capacity::{first_holder, is_producing, refusal as capacity_refusal, HostLoad};
use crate::admission::hot::{hot_configured, hot_snapshot};
use crate::admission::probe::MachineProbe;
use crate::admission::storage::{effective_size, floored_size};
use crate::domain::allocation::{Allocation, AllocationId, AllocationMode, AllocationOrigin,
    AllocationRequest, AllocationState, GuestSize, LifecycleEdges, RequestOptions, VmName};
use crate::domain::hot::{HotGuest, HotLane, HotRefusal, HotRequest};
use crate::domain::profile::{Config, Profile};
use crate::error::{AuthorizationError, BusyReason, ManagerError, StoreError};
use crate::hot::claim::{claimed_names, is_claimed_name, law_claim_keeps_the_machine,
    law_machine_is_taken_while_its_job_goes_on, plan_hot_claim, reuse, HotClaim};
use crate::hot::model::{admitted_policy, law_pool_is_asked_only_with_every_permission, HotContext};
use crate::hot::select::{is_choice, law_claimed_machine_is_sound};
use crate::names::NameSet;
use crate::reaper::sweep::SweepReport;
use crate::resolve::{profile as requested_profile, requested_age, requested_mode, requested_size,
    resolve_hot_age, resolve_mode, resolve_size};
use crate::shutdown::{is_leak_keyed, AllocationLeak};
use crate::state::{is_entry_of, is_keyed, is_resident, law_pruning_keeps_keys, place_of, pruned,
    departing, lemma_without_ascends, prune_terminal_history, updated, Change, Entry};
use crate::text::joined;
use crate::tuning::ManagerTuning;
use crate::warm::source::SourceSelection;
use crate::worker::error::WorkerError;
use crate::worker::model::HostMachine;

verus! {

/// The daemon's allocations and what it knows about its host.
pub struct AllocationManager {
    pub entries: Vec<Entry>,
    /// Profiles whose warm images were proven unusable this run; deliberately
    /// not durable.
    pub quarantined: NameSet,
    /// The report of the last deleting sweep.
    pub last_sweep: Option<SweepReport>,
    pub probe: MachineProbe,
    pub is_closing: bool,
    /// The knobs production always leaves at their defaults.
    pub tuning: ManagerTuning,
    /// Set once when a shutdown starts. Every teardown path reads it, so one
    /// that outlives its worker is bounded by the same grace as one the worker
    /// awaited.
    pub teardown_deadline: Option<u128>,
    /// Allocations a shutdown could not finish tearing down.
    pub leaked: Vec<AllocationLeak>,
}

/// What a request gets: its predecessor of the same attempt, or leave to go on.
#[derive(Debug, PartialEq, Eq)]
pub enum Admission {
    Existing(Allocation),
    /// There is room; the pool is the snapshot it was measured against.
    Fits { hot: Vec<HotGuest> },
}

/// A new allocation and what it takes from the pool. Both records are written
/// together or neither is.
#[derive(Debug, PartialEq, Eq)]
pub struct CreateAllocation {
    pub allocation: Allocation,
    pub claim: Option<HotClaim>,
}

/// What policy alone settled about a request, before anything is asked of the
/// host.
#[derive(Debug, PartialEq, Eq)]
pub struct Authorized {
    pub profile: Profile,
    pub size: GuestSize,
    pub mode: AllocationMode,
    pub lane: HotLane,
    pub age_seconds: Option<u64>,
}

/// Everything settled about a request: the policy decisions the admission fold
/// and the record both read.
#[derive(Debug, PartialEq, Eq)]
pub struct Resolved {
    pub profile: Profile,
    pub size: GuestSize,
    pub mode: AllocationMode,
    pub source: SourceSelection,
    pub lane: HotLane,
    pub age_seconds: Option<u64>,
}

/// Is this an entry of the same attempt that is still going?
pub open spec fn is_predecessor(entry: Entry, request: AllocationRequest) -> bool {
    entry.allocation.live() && entry.allocation.request.same_attempt(&request)
}

/// The first entry of the same attempt that is still going.
pub open spec fn predecessor(entries: Seq<Entry>, request: AllocationRequest) -> Option<Allocation>
    decreases entries.len(),
{
    if entries.len() == 0 {
        None
    } else {
        match predecessor(entries.drop_last(), request) {
            Some(found) => Some(found),
            None => if is_predecessor(entries.last(), request) {
                Some(entries.last().allocation)
            } else {
                None
            },
        }
    }
}

/// The live allocation for this same run attempt, if one is still going. Two
/// requests for one attempt get one allocation, whatever the second asked for.
pub fn idempotent(entries: &Vec<Entry>, request: &AllocationRequest) -> (found: Option<Allocation>)
    ensures
        found == predecessor(entries@, *request),
{
    let mut found: Option<usize> = None;
    let mut i: usize = 0;
    while i < entries.len()
        invariant
            i <= entries@.len(),
            match found {
                Some(index) => index < i && predecessor(entries@.take(i as int), *request) == Some(
                    entries@[index as int].allocation,
                ),
                None => predecessor(entries@.take(i as int), *request) is None,
            },
        decreases entries@.len() - i,
    {
        let entry: &Entry = &entries[i];
        proof {
            assert(entries@.take(i + 1).drop_last() =~= entries@.take(i as int));
            assert(entries@.take(i + 1).last() == *entry);
        }
        if found.is_none() && !entry.allocation.state.is_terminal()
            && entry.allocation.request.is_same_attempt(request) {
            found = Some(i);
        }
        i = i + 1;
    }
    assert(entries@.take(entries@.len() as int) =~= entries@);
    match found {
        Some(index) => Some(entries[index].allocation.clone()),
        None => None,
    }
}

/// Why a hot request produced no pool machine, when the profile or the backend
/// is what refused rather than the pool being full.
pub open spec fn hot_refusal(
    mode: AllocationMode,
    profile: Profile,
    lane: HotLane,
    max_hot_vms: u8,
) -> HotRefusal {
    if mode is Regenerate {
        HotRefusal::Regeneration
    } else {
        match profile.live_hot() {
            None => HotRefusal::NotEnabled,
            Some(hot) => if !hot.lanes.admits(lane) {
                HotRefusal::LaneNotAdmitted
            } else if max_hot_vms == 0 {
                HotRefusal::PoolFull
            } else {
                HotRefusal::Unsupported
            },
        }
    }
}

/// Why a hot request produced no pool machine, when the profile or the backend
/// is what refused rather than the pool being full.
pub fn refusal(mode: AllocationMode, profile: &Profile, lane: HotLane, max_hot_vms: u8) -> (reason:
    HotRefusal)
    ensures
        reason == hot_refusal(mode, *profile, lane, max_hot_vms),
{
    if mode == AllocationMode::Regenerate {
        return HotRefusal::Regeneration;
    }
    match profile.enabled_hot() {
        None => HotRefusal::NotEnabled,
        Some(hot) => if !hot.lanes.is_lane_admitted(lane) {
            HotRefusal::LaneNotAdmitted
        } else if max_hot_vms == 0 {
            // The global cap leaves the pool no room, which is this refusal's
            // own case. Only a backend that declares nothing is `Unsupported`.
            HotRefusal::PoolFull
        } else {
            HotRefusal::Unsupported
        },
    }
}

/// What admission decided about one `hot` request, in the shape the record
/// takes it. Kept together so a lane without an outcome and an outcome without
/// a lane are both unspellable.
pub struct HotDecision<'a> {
    pub claim: &'a Option<HotClaim>,
    /// Did the profile and the backend let the request ask the pool at all?
    pub has_context: bool,
    pub lane: HotLane,
    pub age_seconds: Option<u64>,
    pub mode: AllocationMode,
    pub max_hot_vms: u8,
}

/// The record of an allocation with what was decided about its `hot` request.
pub open spec fn decided(
    allocation: Allocation,
    claim: Option<HotClaim>,
    has_context: bool,
    lane: HotLane,
    age_seconds: Option<u64>,
    mode: AllocationMode,
    max_hot_vms: u8,
    hot: HotRequest,
    profile: Profile,
) -> Allocation {
    match claim {
        Some(HotClaim::Reused { origin, source, .. }) => Allocation {
            hot_lane: Some(lane),
            origin,
            source: Some(source),
            hot_age_seconds: age_seconds,
            ..allocation
        },
        Some(HotClaim::Retain) => Allocation {
            hot_lane: Some(lane),
            origin: AllocationOrigin::Cloned,
            hot_age_seconds: age_seconds,
            ..allocation
        },
        None => if hot is Retain {
            Allocation {
                hot_refusal: Some(
                    if has_context {
                        HotRefusal::PoolFull
                    } else {
                        hot_refusal(mode, profile, lane, max_hot_vms)
                    },
                ),
                ..allocation
            }
        } else {
            allocation
        },
    }
}

impl HotDecision<'_> {
    /// A refused preference never fails the request: it is recorded and the
    /// allocation runs as an ordinary one, exactly as a warm request that finds
    /// no usable image boots cold.
    pub fn apply(&self, allocation: &mut Allocation, options: RequestOptions, profile: &Profile)
        ensures
            *final(allocation) == decided(
                *old(allocation),
                *self.claim,
                self.has_context,
                self.lane,
                self.age_seconds,
                self.mode,
                self.max_hot_vms,
                options.hot,
                *profile,
            ),
    {
        match self.claim {
            Some(HotClaim::Reused { origin, source, .. }) => {
                allocation.set_hot(
                    Some(self.lane),
                    origin.clone(),
                    Some(source.clone()),
                    self.age_seconds,
                );
            },
            Some(HotClaim::Retain) => {
                allocation.set_hot(
                    Some(self.lane),
                    AllocationOrigin::Cloned,
                    None,
                    self.age_seconds,
                );
            },
            None => {
                if options.hot.is_retaining() {
                    // A context that exists but yielded no claim means the pool
                    // had no room; no context at all means the profile or the
                    // backend refused, and only then is there a reason to
                    // derive.
                    let reason: HotRefusal = if self.has_context {
                        HotRefusal::PoolFull
                    } else {
                        refusal(self.mode, profile, self.lane, self.max_hot_vms)
                    };
                    allocation.set_hot_refused(reason);
                }
            },
        }
    }
}

/// The label an allocation's runner registers under, as text.
pub fn runner_label_text(profile_label: &str, uuid_text: &str) -> (text: String)
    ensures
        text@ == profile_label@ + "-"@ + uuid_text@,
{
    let head: String = joined(profile_label, "-");
    joined(head.as_str(), uuid_text)
}

/// A runner label of its own for one allocation: the profile's, a hyphen, and a
/// random UUID.
pub fn fresh_runner_label(profile_label: &str) -> (text: String)
    ensures
        exists|value: u128| #[trigger]
            crate::ident::is_random(value) && text@ == profile_label@ + "-"@
                + crate::ident::hyphenated(value),
{
    let value: u128 = crate::ident::fresh_uuid();
    let uuid_text: String = crate::ident::uuid_text(value);
    runner_label_text(profile_label, uuid_text.as_str())
}

/// What a request and its claims settle by policy alone.
pub open spec fn authorized(
    profile: Profile,
    options: RequestOptions,
    workflow_file: Seq<char>,
    is_ref_protected: bool,
) -> Option<Authorized> {
    match (requested_size(options, profile), requested_age(options.hot, profile)) {
        (Some(size), Ok(age_seconds)) => Some(
            Authorized {
                profile,
                size,
                mode: requested_mode(options, profile, workflow_file),
                lane: HotLane::of_ref(is_ref_protected),
                age_seconds,
            },
        ),
        _ => None,
    }
}

/// Does a request ask the pool for anything? A regeneration never does.
pub open spec fn asks_pool(mode: AllocationMode, options: RequestOptions) -> bool {
    !(mode is Regenerate) && options.hot is Retain
}

/// Does this request ask the pool for a machine, or for keeping its own?
pub fn is_hot_asked(mode: AllocationMode, options: RequestOptions) -> (is: bool)
    ensures
        is == asks_pool(mode, options),
{
    mode != AllocationMode::Regenerate && options.hot.is_retaining()
}

/// What an admission answers, in the order its refusals come.
pub open spec fn admits(
    entries: Seq<Entry>,
    is_closing: bool,
    config: Config,
    request: AllocationRequest,
    mode: AllocationMode,
    size: GuestSize,
    machines: Result<Vec<HostMachine>, WorkerError>,
    hot: Result<Vec<HotGuest>, StoreError>,
    answer: Result<Admission, ManagerError>,
) -> bool {
    if is_closing {
        answer == Err::<Admission, ManagerError>(ManagerError::ShuttingDown)
    } else if predecessor(entries, request) is Some {
        answer == Ok::<Admission, ManagerError>(
            Admission::Existing(predecessor(entries, request).unwrap()),
        )
    } else if mode is Regenerate && exists|i: int|
        0 <= i < entries.len() && is_producing(#[trigger] entries[i], request.profile@) {
        exists|i: int|
            0 <= i < entries.len() && is_producing(#[trigger] entries[i], request.profile@) && (
            forall|k: int|
                0 <= k < i ==> !is_producing(#[trigger] entries[k], request.profile@)) && answer
                == Err::<Admission, ManagerError>(
                ManagerError::Busy {
                    reason: BusyReason::Regenerating,
                    holder: Some(entries[i].allocation.id),
                },
            )
    } else if machines is Err || (hot is Err && hot_configured(config)) {
        answer == Err::<Admission, ManagerError>(
            ManagerError::Busy { reason: BusyReason::ProbeFailed, holder: None },
        )
    } else {
        let listed = machines->Ok_0@;
        let pool = match hot {
            Ok(guests) => guests@,
            Err(_) => Seq::<HotGuest>::empty(),
        };
        match capacity_refusal(config, HostLoad::of(entries, config, listed, pool), size) {
            Some(reason) => answer == Err::<Admission, ManagerError>(
                ManagerError::Busy { reason, holder: first_holder(entries) },
            ),
            None => answer matches Ok(Admission::Fits { hot: held }) && held@ == pool,
        }
    }
}

impl AllocationManager {
    /// What every operation keeps: one entry per allocation, a quarantine that
    /// lists a profile once, and one leak per allocation.
    pub open spec fn wf(&self) -> bool {
        &&& is_keyed(self.entries@)
        &&& self.quarantined.wf()
        &&& is_leak_keyed(self.leaked@)
    }

    /// A manager with nothing resident.
    pub fn new(tuning: ManagerTuning) -> (manager: AllocationManager)
        ensures
            manager.wf(),
            manager.entries@ == Seq::<Entry>::empty(),
            manager.quarantined@ == Set::<Seq<char>>::empty(),
            manager.last_sweep is None,
            manager.probe.cached is None,
            manager.probe.warned_at is None,
            !manager.is_closing,
            manager.tuning == tuning,
            manager.teardown_deadline is None,
            manager.leaked@ == Seq::<AllocationLeak>::empty(),
    {
        AllocationManager {
            entries: Vec::new(),
            quarantined: NameSet::new(),
            last_sweep: None,
            probe: MachineProbe::default(),
            is_closing: false,
            tuning,
            teardown_deadline: None,
            leaked: Vec::new(),
        }
    }

    /// The profile a well-formed request names, or why it is refused before any
    /// claim is looked at. `is_valid` says whether the request is structurally
    /// valid.
    pub fn requested(config: &Config, request: &AllocationRequest, is_valid: bool) -> (found: Result<
        Profile,
        ManagerError,
    >)
        ensures
            if !is_valid {
                found == Err::<Profile, ManagerError>(ManagerError::InvalidRequest)
            } else {
                match config.named(request.profile@) {
                    Some(held) => found matches Ok(copy) && copy.same_as(&held),
                    None => found == Err::<Profile, ManagerError>(
                        ManagerError::UnknownProfile(request.profile),
                    ),
                }
            },
    {
        if !is_valid {
            return Err(ManagerError::InvalidRequest);
        }
        requested_profile(config, request)
    }

    /// Authorizes the request against its profile and settles what policy alone
    /// can refuse. `permitted` is what the caller's claims say of this profile
    /// and this request.
    ///
    /// Both ceilings are rejections rather than clamps: silently granting less
    /// than a workflow asked for is worse than refusing.
    pub fn authorize(
        profile: Profile,
        options: RequestOptions,
        permitted: Result<(), AuthorizationError>,
        workflow_file: &str,
        is_ref_protected: bool,
    ) -> (resolved: Result<Authorized, ManagerError>)
        ensures
            resolved == match permitted {
                Err(error) => Err::<Authorized, ManagerError>(ManagerError::Authorization(error)),
                Ok(()) => match authorized(profile, options, workflow_file@, is_ref_protected) {
                    Some(settled) => Ok(settled),
                    None => Err(ManagerError::RequestExceedsProfile),
                },
            },
    {
        if let Err(error) = permitted {
            return Err(ManagerError::Authorization(error));
        }
        let size: GuestSize = match resolve_size(options, &profile) {
            Ok(size) => size,
            Err(error) => {
                return Err(error);
            },
        };
        let age_seconds: Option<u64> = match resolve_hot_age(options.hot, &profile) {
            Ok(age) => age,
            Err(error) => {
                return Err(error);
            },
        };
        let mode: AllocationMode = resolve_mode(options, &profile, workflow_file);
        let lane: HotLane = HotLane::from_ref_protected(is_ref_protected);
        Ok(Authorized { profile, size, mode, lane, age_seconds })
    }

    /// Adds what the backend was asked: the source, and the size floored at the
    /// base that source boots from.
    pub fn resolved(
        authorized: Authorized,
        source: SourceSelection,
        base_mb: Option<u64>,
        ceiling_mb: u64,
    ) -> (resolved: Resolved)
        ensures
            resolved == (Resolved {
                profile: authorized.profile,
                size: match base_mb {
                    Some(mb) => floored_size(authorized.size, mb, ceiling_mb),
                    None => authorized.size,
                },
                mode: authorized.mode,
                source,
                lane: authorized.lane,
                age_seconds: authorized.age_seconds,
            }),
    {
        Resolved {
            profile: authorized.profile,
            size: effective_size(authorized.size, base_mb, ceiling_mb),
            mode: authorized.mode,
            source,
            lane: authorized.lane,
            age_seconds: authorized.age_seconds,
        }
    }

    /// Admits a request or returns its idempotent predecessor. The host and the
    /// pool were read before; they are judged here, while the entries stand
    /// still, and only in this order: a manager that is closing answers nothing
    /// else, and a request that has a predecessor is refused for nothing.
    pub fn ensure_admitted(
        &self,
        config: &Config,
        request: &AllocationRequest,
        mode: AllocationMode,
        size: GuestSize,
        machines: Result<Vec<HostMachine>, WorkerError>,
        hot: Result<Vec<HotGuest>, StoreError>,
    ) -> (answer: Result<Admission, ManagerError>)
        requires
            machines matches Ok(listed) ==> {
                &&& hot matches Ok(pool) ==> HostLoad::of(
                    self.entries@,
                    *config,
                    listed@,
                    pool@,
                ).is_countable()
                &&& hot is Err ==> HostLoad::of(
                    self.entries@,
                    *config,
                    listed@,
                    Seq::<HotGuest>::empty(),
                ).is_countable()
            },
        ensures
            admits(
                self.entries@,
                self.is_closing,
                *config,
                *request,
                mode,
                size,
                machines,
                hot,
                answer,
            ),
    {
        if self.is_closing {
            return Err(ManagerError::ShuttingDown);
        }
        if let Some(existing) = idempotent(&self.entries, request) {
            return Ok(Admission::Existing(existing));
        }
        if let Err(error) = AllocationManager::ensure_sole_producer(
            &self.entries,
            request.profile.as_str(),
            mode,
        ) {
            return Err(error);
        }
        let listed: Vec<HostMachine> = match machines {
            Ok(listed) => listed,
            Err(_) => {
                return Err(ManagerError::Busy { reason: BusyReason::ProbeFailed, holder: None });
            },
        };
        let pool: Vec<HotGuest> = match hot_snapshot(hot, config) {
            Ok(pool) => pool,
            Err(error) => {
                return Err(error);
            },
        };
        proof {
            if hot is Err {
                assert(pool@ =~= Seq::<HotGuest>::empty());
            }
        }
        if let Err(error) = AllocationManager::ensure_capacity(
            &self.entries,
            config,
            size,
            &listed,
            &pool,
        ) {
            return Err(error);
        }
        Ok(Admission::Fits { hot: pool })
    }

    /// Creates the record of an admitted request. `label` and `name` are what
    /// the rules for labels and machine names make of the generated ones; a
    /// label they refuse is named first.
    ///
    /// The claim is a pure state decision against the snapshot and the names
    /// live entries already hold; only its commit touches a store, beside the
    /// allocation's own.
    pub fn create(
        &self,
        config: &Config,
        request: AllocationRequest,
        options: RequestOptions,
        resolved: &Resolved,
        context: &Option<HotContext>,
        hot: &Vec<HotGuest>,
        id: AllocationId,
        label: Result<String, String>,
        name: Result<VmName, String>,
        is_source_deferred: bool,
        now: u64,
    ) -> (created: Result<CreateAllocation, ManagerError>)
        ensures
            label matches Err(message) ==> created == Err::<CreateAllocation, ManagerError>(
                ManagerError::InvalidRunnerLabel(message),
            ),
            label is Ok && name is Err ==> created == Err::<CreateAllocation, ManagerError>(
                ManagerError::InvalidVmName(name->Err_0),
            ),
            label matches Ok(runner_label) ==> name matches Ok(vm_name) ==> {
                created matches Ok(new) && is_new_allocation(
                    self.entries@,
                    *config,
                    request,
                    options,
                    *resolved,
                    *context,
                    hot@,
                    id,
                    runner_label,
                    vm_name,
                    is_source_deferred,
                    now,
                    new,
                )
            },
    {
        let runner_label: String = match label {
            Ok(text) => text,
            Err(message) => {
                return Err(ManagerError::InvalidRunnerLabel(message));
            },
        };
        let vm_name: VmName = match name {
            Ok(text) => text,
            Err(message) => {
                return Err(ManagerError::InvalidVmName(message));
            },
        };
        let claim: Option<HotClaim> = match context {
            Some(context) => plan_hot_claim(&self.entries, hot, context, &id, now),
            None => None,
        };
        let mut allocation: Allocation = Allocation::new(
            id,
            request,
            vm_name,
            runner_label,
            resolved.mode,
            resolved.size,
            now,
        );
        if !is_source_deferred {
            allocation.set_clone_source(
                resolved.source.source.clone(),
                resolved.source.warm_generation,
            );
        }
        let decision: HotDecision = HotDecision {
            claim: &claim,
            has_context: context.is_some(),
            lane: resolved.lane,
            age_seconds: resolved.age_seconds,
            mode: resolved.mode,
            max_hot_vms: config.runtime.max_hot_vms,
        };
        decision.apply(&mut allocation, options, &resolved.profile);
        Ok(CreateAllocation { allocation, claim })
    }

    /// Shows an allocation whose records are durable: a worker drives it from
    /// here on. Older finished work makes room.
    pub fn insert(&mut self, allocation: Allocation)
        requires
            is_keyed(old(self).entries@),
            !is_resident(old(self).entries@, allocation.id@),
        ensures
            old(self).wf() ==> final(self).wf(),
            is_keyed(final(self).entries@),
            final(self).entries@ == pruned(
                old(self).entries@.push(
                    Entry { allocation, is_supervised: true, is_terminalizing: false },
                ),
                old(self).tuning.history_limit as int,
            ),
            *final(self) == (AllocationManager { entries: final(self).entries, ..*old(self) }),
    {
        let ghost before: Seq<Entry> = self.entries@;
        let ghost entry: Entry = Entry {
            allocation,
            is_supervised: true,
            is_terminalizing: false,
        };
        self.entries.push(Entry { allocation, is_supervised: true, is_terminalizing: false });
        proof {
            lemma_push_keyed(before, entry);
            law_pruning_keeps_keys(self.entries@, self.tuning.history_limit as int);
        }
        prune_terminal_history(&mut self.entries, self.tuning.history_limit);
    }

    /// The pool machine to give back when the allocation it was claimed for
    /// never became durable. It returns through the drain path, which destroys
    /// it rather than guessing that it is still clean.
    pub fn abandon_hot_claim(claim: &Option<HotClaim>) -> (guest: Option<&HotGuest>)
        ensures
            match guest {
                Some(held) => *claim matches Some(HotClaim::Reused { guest: claimed, .. })
                    && claimed == *held,
                None => !(*claim matches Some(HotClaim::Reused { .. })),
            },
    {
        match claim {
            Some(HotClaim::Reused { guest, .. }) => Some(guest),
            _ => None,
        }
    }

    /// Keeps the report of a deleting sweep; a dry run does not replace it.
    pub fn finish_sweep(&mut self, report: SweepReport, is_dry_run: bool)
        ensures
            old(self).wf() ==> final(self).wf(),
            *final(self) == (AllocationManager {
                last_sweep: if is_dry_run {
                    old(self).last_sweep
                } else {
                    Some(report)
                },
                ..*old(self)
            }),
    {
        if !is_dry_run {
            self.last_sweep = Some(report);
        }
    }

    /// The report of the last deleting sweep, if one ran in this process.
    pub fn last_sweep(&self) -> (report: Option<&SweepReport>)
        ensures
            match report {
                Some(held) => self.last_sweep == Some(*held),
                None => self.last_sweep is None,
            },
    {
        match &self.last_sweep {
            Some(held) => Some(held),
            None => None,
        }
    }

    /// The resident allocation and the profile its caller's claims are checked
    /// against again.
    pub fn get_authorized(&self, config: &Config, id: &AllocationId) -> (found: Result<
        (Allocation, Profile),
        ManagerError,
    >)
        requires
            is_keyed(self.entries@),
        ensures
            if !is_resident(self.entries@, id@) {
                found == Err::<(Allocation, Profile), ManagerError>(ManagerError::NotFound(*id))
            } else {
                let allocation = self.entries@[place_of(self.entries@, id@)].allocation;
                match config.named(allocation.request.profile@) {
                    Some(held) => found matches Ok(pair) && pair.0 == allocation && pair.1.same_as(
                        &held,
                    ),
                    None => found == Err::<(Allocation, Profile), ManagerError>(
                        ManagerError::UnknownProfile(allocation.request.profile),
                    ),
                }
            },
    {
        match self.get(id) {
            Ok(allocation) => match requested_profile(config, &allocation.request) {
                Ok(held) => Ok((allocation, held)),
                Err(error) => Err(error),
            },
            Err(error) => Err(error),
        }
    }
}

/// Is this the allocation an admitted request becomes: a fresh record, from the
/// source that was settled unless the worker reports its own, with what the pool
/// decided about its `hot` request?
pub open spec fn is_new_allocation(
    entries: Seq<Entry>,
    config: Config,
    request: AllocationRequest,
    options: RequestOptions,
    resolved: Resolved,
    context: Option<HotContext>,
    hot: Seq<HotGuest>,
    id: AllocationId,
    runner_label: String,
    vm_name: VmName,
    is_source_deferred: bool,
    now: u64,
    new: CreateAllocation,
) -> bool {
    let fresh = Allocation::fresh(
        id,
        request,
        vm_name,
        runner_label,
        resolved.mode,
        resolved.size,
        now,
    );
    let sourced = if is_source_deferred {
        fresh
    } else {
        Allocation {
            source: Some(resolved.source.source),
            warm_generation: resolved.source.warm_generation,
            ..fresh
        }
    };
    &&& new.allocation == decided(
        sourced,
        new.claim,
        context is Some,
        resolved.lane,
        resolved.age_seconds,
        resolved.mode,
        config.runtime.max_hot_vms,
        options.hot,
        resolved.profile,
    )
    &&& is_planned_claim(entries, hot, context, id, now, new.claim)
}

/// Is this the claim the pool and the entries lead to?
pub open spec fn is_planned_claim(
    entries: Seq<Entry>,
    hot: Seq<HotGuest>,
    context: Option<HotContext>,
    id: AllocationId,
    now: u64,
    claim: Option<HotClaim>,
) -> bool {
    match context {
        None => claim is None,
        Some(context) => {
            &&& forall|choice: int|
                is_choice(
                    hot,
                    context.name@,
                    context.lane,
                    claimed_names(entries),
                    context.policy_at(now),
                    choice,
                ) ==> claim == Some(reuse(#[trigger] hot[choice], id, context.age_seconds, now))
            &&& (claim matches Some(HotClaim::Reused { .. })) ==> exists|choice: int|
                is_choice(
                    hot,
                    context.name@,
                    context.lane,
                    claimed_names(entries),
                    context.policy_at(now),
                    choice,
                ) && claim == Some(reuse(#[trigger] hot[choice], id, context.age_seconds, now))
            &&& (forall|j: int|
                0 <= j < hot.len() ==> !crate::hot::select::is_claimable(
                    #[trigger] hot[j],
                    context.name@,
                    context.lane,
                    claimed_names(entries),
                    context.policy_at(now),
                )) ==> claim == if crate::hot::select::held_count(hot)
                + crate::hot::claim::in_flight(entries, hot).len() < context.max_hot_vms {
                Some(HotClaim::Retain)
            } else {
                None::<HotClaim>
            }
        },
    }
}

proof fn lemma_push_keyed(entries: Seq<Entry>, entry: Entry)
    requires
        is_keyed(entries),
        !is_resident(entries, entry.allocation.id@),
    ensures
        is_keyed(entries.push(entry)),
{
    let all = entries.push(entry);
    assert forall|i: int, j: int| 0 <= i < j < all.len() implies (#[trigger] all[i]).allocation.id@
        != (#[trigger] all[j]).allocation.id@ by {
        if j == entries.len() {
            assert(!is_entry_of(entries, entry.allocation.id@, i));
        }
    }
}

/// No two allocations still going hold one pool machine.
pub open spec fn is_claim_exclusive(entries: Seq<Entry>) -> bool {
    forall|i: int, j: int|
        0 <= i < j < entries.len() && (#[trigger] entries[i]).allocation.live() && (
        #[trigger] entries[j]).allocation.live() && entries[i].allocation.origin.hot_name() is Some
            ==> entries[i].allocation.origin.hot_name() != entries[j].allocation.origin.hot_name()
}

/// A machine is claimed by one allocation at a time: an entry created against
/// the entries there are keeps every claim exclusive.
pub proof fn law_claims_stay_exclusive(
    entries: Seq<Entry>,
    hot: Seq<HotGuest>,
    context: Option<HotContext>,
    now: u64,
    created: CreateAllocation,
    sourced: Allocation,
    lane: HotLane,
    age_seconds: Option<u64>,
    mode: AllocationMode,
    max_hot_vms: u8,
    request: HotRequest,
    profile: Profile,
)
    requires
        is_claim_exclusive(entries),
        is_planned_claim(entries, hot, context, created.allocation.id, now, created.claim),
        sourced.origin is Cloned,
        created.allocation == decided(
            sourced,
            created.claim,
            context is Some,
            lane,
            age_seconds,
            mode,
            max_hot_vms,
            request,
            profile,
        ),
    ensures
        is_claim_exclusive(
            entries.push(
                Entry {
                    allocation: created.allocation,
                    is_supervised: true,
                    is_terminalizing: false,
                },
            ),
        ),
{
    let entry = Entry {
        allocation: created.allocation,
        is_supervised: true,
        is_terminalizing: false,
    };
    let all = entries.push(entry);
    assert forall|i: int, j: int|
        0 <= i < j < all.len() && (#[trigger] all[i]).allocation.live() && (
        #[trigger] all[j]).allocation.live() && all[i].allocation.origin.hot_name()
            is Some implies all[i].allocation.origin.hot_name()
        != all[j].allocation.origin.hot_name() by {
        if j == entries.len() && created.claim matches Some(HotClaim::Reused { .. }) {
            let held = context.unwrap();
            let choice: int = choose|choice: int|
                is_choice(
                    hot,
                    held.name@,
                    held.lane,
                    claimed_names(entries),
                    held.policy_at(now),
                    choice,
                ) && created.claim == Some(
                    reuse(
                        #[trigger] hot[choice],
                        created.allocation.id,
                        held.age_seconds,
                        now,
                    ),
                );
            assert(!claimed_names(entries).contains(hot[choice].vm_name@));
            if all[i].allocation.origin.hot_name() == Some(hot[choice].vm_name@) {
                assert(entries[i].allocation.live());
                assert(is_claimed_name(entries, hot[choice].vm_name@));
            }
        }
    }
}

/// One image, one producer: of two allocations still going that regenerate,
/// each has a profile of its own.
pub open spec fn is_production_exclusive(entries: Seq<Entry>) -> bool {
    forall|i: int, j: int|
        0 <= i < j < entries.len() && (#[trigger] entries[i]).allocation.live() && (
        #[trigger] entries[j]).allocation.live() && entries[i].allocation.mode is Regenerate
            && entries[j].allocation.mode is Regenerate ==> entries[i].allocation.request.profile@
            != entries[j].allocation.request.profile@
}

/// An admitted regeneration is its profile's only producer, so production stays
/// exclusive when its entry joins the others.
pub proof fn law_production_stays_exclusive(
    entries: Seq<Entry>,
    is_closing: bool,
    config: Config,
    request: AllocationRequest,
    mode: AllocationMode,
    size: GuestSize,
    machines: Result<Vec<HostMachine>, WorkerError>,
    hot: Result<Vec<HotGuest>, StoreError>,
    answer: Result<Admission, ManagerError>,
    entry: Entry,
)
    requires
        is_production_exclusive(entries),
        admits(entries, is_closing, config, request, mode, size, machines, hot, answer),
        answer matches Ok(Admission::Fits { .. }),
        entry.allocation.mode == mode,
        entry.allocation.request == request,
    ensures
        is_production_exclusive(entries.push(entry)),
{
    let all = entries.push(entry);
    assert forall|i: int, j: int|
        0 <= i < j < all.len() && (#[trigger] all[i]).allocation.live() && (
        #[trigger] all[j]).allocation.live() && all[i].allocation.mode is Regenerate
            && all[j].allocation.mode is Regenerate implies all[i].allocation.request.profile@
        != all[j].allocation.request.profile@ by {
        if j == entries.len() {
            assert(!is_producing(entries[i], request.profile@));
        }
    }
}

/// No two allocations still going are of one attempt.
pub open spec fn is_attempt_exclusive(entries: Seq<Entry>) -> bool {
    forall|i: int, j: int|
        0 <= i < j < entries.len() && (#[trigger] entries[i]).allocation.live() && (
        #[trigger] entries[j]).allocation.live() ==> !entries[i].allocation.request.same_attempt(
            &entries[j].allocation.request,
        )
}

/// An admitted request is its attempt's only one still going, so every attempt
/// keeps one such allocation when its entry joins the others and the history is
/// pruned.
pub proof fn law_attempts_stay_exclusive(
    entries: Seq<Entry>,
    is_closing: bool,
    config: Config,
    request: AllocationRequest,
    mode: AllocationMode,
    size: GuestSize,
    machines: Result<Vec<HostMachine>, WorkerError>,
    hot: Result<Vec<HotGuest>, StoreError>,
    answer: Result<Admission, ManagerError>,
    entry: Entry,
    limit: int,
)
    requires
        is_attempt_exclusive(entries),
        admits(entries, is_closing, config, request, mode, size, machines, hot, answer),
        answer matches Ok(Admission::Fits { .. }),
        entry.allocation.request == request,
    ensures
        is_attempt_exclusive(pruned(entries.push(entry), limit)),
{
    let all = entries.push(entry);
    assert forall|i: int, j: int|
        0 <= i < j < all.len() && (#[trigger] all[i]).allocation.live() && (
        #[trigger] all[j]).allocation.live() implies !all[i].allocation.request.same_attempt(
        &all[j].allocation.request,
    ) by {
        if j == entries.len() && is_predecessor(entries[i], request) {
            lemma_predecessor(entries, request, i);
        }
    }
    let gone = departing(all, limit);
    let kept = pruned(all, limit);
    assert forall|a: int, b: int|
        0 <= a < b < kept.len() && (#[trigger] kept[a]).allocation.live() && (
        #[trigger] kept[b]).allocation.live() implies !kept[a].allocation.request.same_attempt(
        &kept[b].allocation.request,
    ) by {
        let places = lemma_without_ascends(all, gone, a, b);
        assert(all[places.0].allocation.live() && all[places.1].allocation.live());
    }
}

/// A change of one record keeps one allocation still going per attempt, as long
/// as no edge leads out of an end.
pub proof fn law_change_keeps_attempts_exclusive(
    entries: Seq<Entry>,
    place: int,
    change: Change,
    edges: LifecycleEdges,
    now: u64,
)
    requires
        is_attempt_exclusive(entries),
        0 <= place < entries.len(),
        updated(entries[place].allocation, change, edges, now) is Ok,
        forall|from: AllocationState, to: AllocationState| #[trigger]
            edges.permits(from, to) && from.terminal() ==> to.terminal(),
    ensures
        is_attempt_exclusive(
            entries.update(
                place,
                Entry {
                    allocation: updated(entries[place].allocation, change, edges, now)->Ok_0.record,
                    ..entries[place]
                },
            ),
        ),
{
    let record = updated(entries[place].allocation, change, edges, now)->Ok_0.record;
    let all = entries.update(place, Entry { allocation: record, ..entries[place] });
    assert(record.request == entries[place].allocation.request);
    assert(record.live() ==> entries[place].allocation.live());
    assert forall|i: int, j: int|
        0 <= i < j < all.len() && (#[trigger] all[i]).allocation.live() && (
        #[trigger] all[j]).allocation.live() implies !all[i].allocation.request.same_attempt(
        &all[j].allocation.request,
    ) by {
        assert(entries[i].allocation.live() && entries[j].allocation.live());
    }
}

/// Two requests for one attempt get one allocation: while the first one's is
/// still going, a second is answered with it, whatever the second asks for and
/// however full the host is.
pub proof fn law_one_attempt_one_allocation(
    entries: Seq<Entry>,
    config: Config,
    request: AllocationRequest,
    mode: AllocationMode,
    size: GuestSize,
    machines: Result<Vec<HostMachine>, WorkerError>,
    hot: Result<Vec<HotGuest>, StoreError>,
    answer: Result<Admission, ManagerError>,
    i: int,
)
    requires
        is_attempt_exclusive(entries),
        0 <= i < entries.len(),
        is_predecessor(entries[i], request),
        admits(entries, false, config, request, mode, size, machines, hot, answer),
    ensures
        answer == Ok::<Admission, ManagerError>(Admission::Existing(entries[i].allocation)),
{
    lemma_predecessor(entries, request, i);
    let k: int = lemma_predecessor_from(entries, request);
    if k < i {
        assert(!entries[k].allocation.request.same_attempt(&entries[i].allocation.request));
    } else if i < k {
        assert(!entries[i].allocation.request.same_attempt(&entries[k].allocation.request));
    }
}

proof fn lemma_predecessor(entries: Seq<Entry>, request: AllocationRequest, i: int)
    requires
        0 <= i < entries.len(),
        is_predecessor(entries[i], request),
    ensures
        predecessor(entries, request) matches Some(found) && found.request.same_attempt(&request)
            && found.live(),
    decreases entries.len(),
{
    let rest = entries.drop_last();
    if i < entries.len() - 1 {
        lemma_predecessor(rest, request, i);
    } else if predecessor(rest, request) is Some {
        let k = lemma_predecessor_from(rest, request);
        lemma_predecessor(rest, request, k);
    }
}

/// A predecessor is an entry's allocation.
pub proof fn lemma_predecessor_from(entries: Seq<Entry>, request: AllocationRequest) -> (i: int)
    requires
        predecessor(entries, request) is Some,
    ensures
        0 <= i < entries.len(),
        is_predecessor(entries[i], request),
        predecessor(entries, request) == Some(entries[i].allocation),
    decreases entries.len(),
{
    if predecessor(entries.drop_last(), request) is Some {
        lemma_predecessor_from(entries.drop_last(), request)
    } else {
        entries.len() - 1
    }
}

/// A refused preference never fails a request: where no claim is made, the
/// record is the ordinary one, but for the reason a machine was asked for and
/// not given.
pub proof fn law_refused_preference_changes_nothing_else(
    allocation: Allocation,
    has_context: bool,
    lane: HotLane,
    age_seconds: Option<u64>,
    mode: AllocationMode,
    max_hot_vms: u8,
    hot: HotRequest,
    profile: Profile,
)
    ensures
        ({
            let record = decided(
                allocation,
                None,
                has_context,
                lane,
                age_seconds,
                mode,
                max_hot_vms,
                hot,
                profile,
            );
            &&& record == (Allocation { hot_refusal: record.hot_refusal, ..allocation })
            &&& !(hot is Retain) ==> record == allocation
            &&& hot is Retain ==> record.hot_refusal is Some
        }),
{
}

proof fn lemma_no_predecessor(entries: Seq<Entry>, request: AllocationRequest)
    requires
        predecessor(entries, request) is None,
    ensures
        forall|i: int| 0 <= i < entries.len() ==> !is_predecessor(#[trigger] entries[i], request),
    decreases entries.len(),
{
    if entries.len() > 0 {
        let rest = entries.drop_last();
        lemma_no_predecessor(rest, request);
        assert forall|i: int| 0 <= i < entries.len() implies !is_predecessor(
            #[trigger] entries[i],
            request,
        ) by {
            if i < rest.len() {
                assert(entries[i] == rest[i]);
            }
        }
    }
}

/// A request is given an allocation that exists exactly where one of the same
/// repository, run and try is not over, and that is the one it is given; one that
/// completed, failed or was cancelled never answers a request.
pub proof fn law_same_attempt_gets_its_unfinished_allocation(
    entries: Seq<Entry>,
    request: AllocationRequest,
    i: int,
)
    ensures
        predecessor(entries, request) matches Some(found) ==> {
            &&& exists|k: int|
                0 <= k < entries.len() && (#[trigger] entries[k]).allocation == found
            &&& !(found.state is Completed || found.state is Failed || found.state is Cancelled)
            &&& found.request.repository@ == request.repository@
            &&& found.request.run_id == request.run_id
            &&& found.request.run_attempt == request.run_attempt
        },
        0 <= i < entries.len() && !(entries[i].allocation.state is Completed
            || entries[i].allocation.state is Failed || entries[i].allocation.state is Cancelled)
            && entries[i].allocation.request.repository@ == request.repository@
            && entries[i].allocation.request.run_id == request.run_id
            && entries[i].allocation.request.run_attempt == request.run_attempt ==> predecessor(
            entries,
            request,
        ) is Some,
{
    if predecessor(entries, request) is Some {
        let k = lemma_predecessor_from(entries, request);
        assert(entries[k].allocation == predecessor(entries, request).unwrap());
    } else {
        lemma_no_predecessor(entries, request);
        if 0 <= i < entries.len() {
            assert(!is_predecessor(entries[i], request));
        }
    }
}

/// The order of admission. A manager that closes admits nobody. Otherwise an
/// unfinished allocation of the same attempt is the answer, whatever the host is
/// like. Otherwise two regenerations of one profile exclude each other, a host or
/// a kept pool that cannot be read refuses, and only then is capacity judged; a
/// request that goes through has none of these against it.
pub proof fn law_admission_answers_in_order(
    entries: Seq<Entry>,
    is_closing: bool,
    config: Config,
    request: AllocationRequest,
    mode: AllocationMode,
    size: GuestSize,
    machines: Result<Vec<HostMachine>, WorkerError>,
    hot: Result<Vec<HotGuest>, StoreError>,
    answer: Result<Admission, ManagerError>,
    i: int,
)
    requires
        admits(entries, is_closing, config, request, mode, size, machines, hot, answer),
    ensures
        is_closing ==> answer == Err::<Admission, ManagerError>(ManagerError::ShuttingDown),
        !is_closing && 0 <= i < entries.len() && !(entries[i].allocation.state is Completed
            || entries[i].allocation.state is Failed || entries[i].allocation.state is Cancelled)
            ==> {
            &&& entries[i].allocation.request.repository@ == request.repository@
                && entries[i].allocation.request.run_id == request.run_id
                && entries[i].allocation.request.run_attempt == request.run_attempt ==> (
            answer matches Ok(Admission::Existing(found)) && found.request.repository@
                == request.repository@ && found.request.run_id == request.run_id
                && found.request.run_attempt == request.run_attempt)
            &&& mode is Regenerate && entries[i].allocation.mode is Regenerate
                && entries[i].allocation.request.profile@ == request.profile@ ==> !(
            answer matches Ok(Admission::Fits { .. }))
        },
        answer matches Ok(Admission::Fits { hot: held }) ==> {
            &&& !is_closing
            &&& machines is Ok
            &&& hot matches Ok(pool) ==> held@ == pool@
            &&& hot is Err ==> config.runtime.max_hot_vms == 0 && held@.len() == 0
            &&& capacity_refusal(
                config,
                HostLoad::of(entries, config, machines->Ok_0@, held@),
                size,
            ) is None
        },
        answer matches Ok(Admission::Existing(found)) ==> {
            &&& !is_closing
            &&& !(found.state is Completed || found.state is Failed || found.state is Cancelled)
            &&& found.request.repository@ == request.repository@
            &&& found.request.run_id == request.run_id
            &&& found.request.run_attempt == request.run_attempt
        },
        answer == Err::<Admission, ManagerError>(ManagerError::ShuttingDown) ==> is_closing,
{
    law_same_attempt_gets_its_unfinished_allocation(entries, request, i);
    if 0 <= i < entries.len() && !is_closing {
        if mode is Regenerate && is_producing(entries[i], request.profile@) {
            assert(!(answer matches Ok(Admission::Fits { .. })));
        }
    }
    if let Ok(Admission::Fits { hot: held }) = answer {
        if hot is Err {
            assert(held@ =~= Seq::<HotGuest>::empty());
        }
    }
}

/// Why the pool was not asked, in the order it is told: a regeneration never asks
/// it, then the profile keeps none, then not for this lane, then the host may hold
/// none; what is left is a backend that cannot.
pub proof fn law_refusal_tells_the_cause(
    mode: AllocationMode,
    profile: Profile,
    lane: HotLane,
    max_hot_vms: u8,
)
    ensures
        ({
            let told = hot_refusal(mode, profile, lane, max_hot_vms);
            let is_kept = profile.hot is Some && profile.hot.unwrap().enabled;
            let is_admitted = is_kept && (lane is Protected
                ==> profile.hot.unwrap().lanes.admits_protected) && (lane is Unprotected
                ==> profile.hot.unwrap().lanes.admits_unprotected);
            &&& told == HotRefusal::Regeneration <==> mode is Regenerate
            &&& told == HotRefusal::NotEnabled <==> !(mode is Regenerate) && !is_kept
            &&& told == HotRefusal::LaneNotAdmitted <==> !(mode is Regenerate) && is_kept
                && !is_admitted
            &&& told == HotRefusal::PoolFull <==> !(mode is Regenerate) && is_admitted
                && max_hot_vms == 0
            &&& told == HotRefusal::Unsupported <==> !(mode is Regenerate) && is_admitted
                && max_hot_vms > 0
        }),
{
}

/// A new allocation keeps its machine only in a lane that its profile admits, and
/// only where the pool was asked at all. Its lane is that of its own ref; where the
/// pool was asked and gave nothing, the record says why, and the machine is not
/// kept.
pub proof fn law_machine_is_kept_only_in_an_admitted_lane(
    entries: Seq<Entry>,
    config: Config,
    request: AllocationRequest,
    options: RequestOptions,
    resolved: Resolved,
    context: Option<HotContext>,
    supports_hot: bool,
    hot: Seq<HotGuest>,
    id: AllocationId,
    runner_label: String,
    vm_name: VmName,
    is_source_deferred: bool,
    now: u64,
    new: CreateAllocation,
)
    requires
        is_new_allocation(
            entries,
            config,
            request,
            options,
            resolved,
            context,
            hot,
            id,
            runner_label,
            vm_name,
            is_source_deferred,
            now,
            new,
        ),
        context is Some ==> admitted_policy(config, resolved.profile, resolved.lane, supports_hot)
            is Some,
    ensures
        new.allocation.hot_lane matches Some(lane) ==> {
            &&& context is Some
            &&& lane == resolved.lane
            &&& resolved.profile.hot is Some
            &&& resolved.profile.hot.unwrap().enabled
            &&& lane is Protected ==> resolved.profile.hot.unwrap().lanes.admits_protected
            &&& lane is Unprotected ==> resolved.profile.hot.unwrap().lanes.admits_unprotected
            &&& config.runtime.max_hot_vms > 0
            &&& supports_hot
            &&& new.allocation.hot_refusal is None
            &&& new.allocation.hot_age_seconds == resolved.age_seconds
        },
        new.allocation.hot_lane is None ==> new.claim is None && new.allocation.origin is Cloned,
        new.allocation.hot_lane is None && options.hot is Retain
            ==> new.allocation.hot_refusal is Some,
        context is Some && new.claim is None && options.hot is Retain
            ==> new.allocation.hot_refusal == Some(HotRefusal::PoolFull),
        !(options.hot is Retain) && context is None ==> new.allocation.hot_lane is None
            && new.allocation.hot_refusal is None,
        new.allocation.id == id,
        new.allocation.request == request,
        new.allocation.vm_name == vm_name,
        new.allocation.runner_label == runner_label,
        new.allocation.mode == resolved.mode,
        new.allocation.size == Some(resolved.size),
        new.allocation.state is Requested,
        !new.allocation.vm_created,
        new.claim is None && !is_source_deferred ==> new.allocation.source == Some(
            resolved.source.source,
        ) && new.allocation.warm_generation == resolved.source.warm_generation,
{
    law_pool_is_asked_only_with_every_permission(
        config,
        resolved.profile,
        resolved.lane,
        supports_hot,
    );
}

/// A machine that is reused is the one its allocation says it runs on, its record
/// is claimed for that allocation, it was idle, and it served this very profile
/// and lane; the pool never grows over its cap.
pub proof fn law_reused_machine_is_claimed_for_its_allocation(
    entries: Seq<Entry>,
    hot: Seq<HotGuest>,
    context: HotContext,
    id: AllocationId,
    now: u64,
    claim: Option<HotClaim>,
)
    requires
        is_planned_claim(entries, hot, Some(context), id, now, claim),
    ensures
        claim matches Some(HotClaim::Reused { guest, origin, source }) ==> {
            &&& guest.claimed_by == Some(id)
            &&& guest.state is Claimed
            &&& guest.profile@ == context.name@
            &&& guest.lane == context.lane
            &&& guest.warm_generation == context.warm_generation
            &&& source == guest.source
            &&& origin matches AllocationOrigin::HotReuse { vm_name, .. } && vm_name
                == guest.vm_name
            &&& exists|k: int|
                0 <= k < hot.len() && (#[trigger] hot[k]).vm_name == guest.vm_name
                    && hot[k].state is Idle
            &&& forall|i: int|
                0 <= i < entries.len() && !((#[trigger] entries[i]).allocation.state is Completed
                    || entries[i].allocation.state is Failed
                    || entries[i].allocation.state is Cancelled) ==> (
                entries[i].allocation.origin matches AllocationOrigin::HotReuse { vm_name, .. }
                    ==> vm_name@ != guest.vm_name@)
        },
{
    if let Some(HotClaim::Reused { guest, origin, source }) = claim {
        let choice: int = choose|choice: int|
            is_choice(
                hot,
                context.name@,
                context.lane,
                claimed_names(entries),
                context.policy_at(now),
                choice,
            ) && claim == Some(reuse(#[trigger] hot[choice], id, context.age_seconds, now));
        law_claim_keeps_the_machine(hot[choice], id, context.age_seconds, now);
        law_claimed_machine_is_sound(
            hot,
            context.name@,
            context.lane,
            claimed_names(entries),
            context.policy_at(now),
            choice,
        );
        law_machine_is_taken_while_its_job_goes_on(entries, guest.vm_name@);
        assert(hot[choice].vm_name == guest.vm_name);
    }
}

/// The lane of a run is that of its ref, and what policy grants it is inside its
/// profile.
pub proof fn law_policy_grants_inside_the_profile(
    profile: Profile,
    options: RequestOptions,
    workflow_file: Seq<char>,
    is_ref_protected: bool,
)
    ensures
        authorized(profile, options, workflow_file, is_ref_protected) matches Some(settled) ==> {
            &&& settled.profile == profile
            &&& settled.lane is Protected <==> is_ref_protected
            &&& settled.size.cpu_count <= profile.cpu_count
            &&& settled.size.memory_mb <= profile.memory_mb
            &&& settled.size.storage_mb == profile.storage_mb
            &&& settled.mode is Regenerate <==> (profile.regeneration_workflow is Some
                && profile.regeneration_workflow.unwrap()@ == workflow_file)
            &&& settled.age_seconds matches Some(age) ==> profile.hot is Some && age
                <= profile.hot.unwrap().max_lifetime_seconds
        },
        authorized(profile, options, workflow_file, is_ref_protected) is None ==> {
            ||| options.cpu_count is Some && options.cpu_count.unwrap() > profile.cpu_count
            ||| options.memory_mb is Some && options.memory_mb.unwrap() > profile.memory_mb
            ||| options.hot matches HotRequest::Retain { age_seconds: Some(age) }
                && profile.hot is Some && age > profile.hot.unwrap().max_lifetime_seconds
        },
{
}

/// While the pool has no idle machine, a new one is promised exactly as long as the
/// machines it has and those on their way leave room.
pub proof fn law_machine_is_promised_while_there_is_room(
    entries: Seq<Entry>,
    hot: Seq<HotGuest>,
    context: HotContext,
    id: AllocationId,
    now: u64,
    claim: Option<HotClaim>,
)
    requires
        is_planned_claim(entries, hot, Some(context), id, now, claim),
        forall|j: int| 0 <= j < hot.len() ==> !((#[trigger] hot[j]).state is Idle),
    ensures
        crate::hot::select::held_count(hot) + crate::hot::claim::in_flight(entries, hot).len()
            < context.max_hot_vms ==> claim == Some(HotClaim::Retain),
        crate::hot::select::held_count(hot) + crate::hot::claim::in_flight(entries, hot).len()
            >= context.max_hot_vms ==> claim is None,
{
    assert forall|j: int| 0 <= j < hot.len() implies !crate::hot::select::is_claimable(
        #[trigger] hot[j],
        context.name@,
        context.lane,
        claimed_names(entries),
        context.policy_at(now),
    ) by {
        assert(!(hot[j].state is Idle));
    }
}

/// The pool is asked by exactly the requests that want to keep a machine and do not
/// produce an image.
pub proof fn law_regeneration_never_asks_the_pool(mode: AllocationMode, options: RequestOptions)
    ensures
        mode is Regenerate ==> !asks_pool(mode, options),
        !(options.hot is Retain) ==> !asks_pool(mode, options),
        !(mode is Regenerate) && options.hot is Retain ==> asks_pool(mode, options),
{
}

/// An admitted request becomes a record of its own: under its ID, names, mode and
/// size, from the source that was settled, left open where the worker reports it,
/// and from the machine's where one is reused.
pub proof fn law_new_record_is_the_requests(
    entries: Seq<Entry>,
    config: Config,
    request: AllocationRequest,
    options: RequestOptions,
    resolved: Resolved,
    context: Option<HotContext>,
    hot: Seq<HotGuest>,
    id: AllocationId,
    runner_label: String,
    vm_name: VmName,
    is_source_deferred: bool,
    now: u64,
    new: CreateAllocation,
)
    requires
        is_new_allocation(
            entries,
            config,
            request,
            options,
            resolved,
            context,
            hot,
            id,
            runner_label,
            vm_name,
            is_source_deferred,
            now,
            new,
        ),
    ensures
        new.allocation.id == id,
        new.allocation.request == request,
        new.allocation.vm_name == vm_name,
        new.allocation.runner_label == runner_label,
        new.allocation.mode == resolved.mode,
        new.allocation.size == Some(resolved.size),
        new.allocation.created_at_unix == now,
        new.allocation.hot_lane is Some <==> new.claim is Some,
        new.allocation.hot_lane is Some ==> new.allocation.hot_lane == Some(resolved.lane),
        match new.claim {
            Some(HotClaim::Reused { origin, source, .. }) => new.allocation.source == Some(source)
                && new.allocation.origin == origin,
            _ => new.allocation.origin is Cloned && if is_source_deferred {
                new.allocation.source is None && new.allocation.warm_generation is None
            } else {
                new.allocation.source == Some(resolved.source.source)
                    && new.allocation.warm_generation == resolved.source.warm_generation
            },
        },
{
}

} // verus!
