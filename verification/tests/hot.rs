use flanforge_manager::creation::{creation_fact, CreateEvent, CreateRun, CreateStep};
use flanforge_manager::domain::allocation::{
    Allocation, AllocationMode, AllocationOrigin, AllocationRequest, AllocationState, CloneKind,
    CloneSource, GuestSize, RequestOptions,
};
use flanforge_manager::domain::hot::{
    HotConfig, HotDrainReason, HotGuest, HotLane, HotLanePolicy, HotRefusal, HotRequest, HotState,
    HotTransitionError, SimulatorReset,
};
use flanforge_manager::domain::profile::{Config, NamedProfile, Profile, RuntimeConfig};
use flanforge_manager::error::{ManagerError, StoreError};
use flanforge_manager::event::{EventKind, Fact, Payload};
use flanforge_manager::hot::bounds::{
    ensure_hot_bounded, ensure_hot_drained, ensure_hot_drains_finished,
    ensure_hot_evictions_retried, ensure_hot_surplus_retired, next_bound_phase, BoundPhase,
    DrainStep, Resolved,
};
use flanforge_manager::hot::claim::{live_hot_names, plan_hot_claim, HotClaim};
use flanforge_manager::hot::evict::{
    ensure_hot_evicted, ensure_hot_eviction_pending, eviction_fact, hot_eviction_seconds,
    Eviction,
};
use flanforge_manager::hot::model::{hot_context, HotContext};
use flanforge_manager::hot::ready::{ReadyEvent, ReadyStep};
use flanforge_manager::hot::recycle::{release_fact, ReleaseEvent, ReleaseStep};
use flanforge_manager::hot::reload::{
    begin_reload, drained_profiles, ensure_hot_evicted_for, ensure_hot_reloaded,
    is_hot_draining_change, next_reload, ReloadEvent, ReloadStep,
};
use flanforge_manager::hot::select::{
    claimable, drain_reason, is_pool_expandable, surplus_idle, HotPolicy,
};
use flanforge_manager::hot::yield_slot::HotYield;
use flanforge_manager::ident::{fresh_uuid, uuid_text};
use flanforge_manager::names::NameSet;
use flanforge_manager::resolve::resolve_hot_age;
use flanforge_manager::service::{is_hot_asked, refusal, AllocationManager};
use flanforge_manager::state::Entry;
use flanforge_manager::tuning::ManagerTuning;
use flanforge_manager::warm::source::SourceSelection;
use flanforge_manager::worker::error::WorkerError;
use flanforge_manager::worker::model::{HostMachine, MachineOwnership, MachineState};

const NOW: u64 = 1_755_324_251;

/// The one machine every pool fixture here holds.
const POOLED: &str = "ci-hot-project-0123456789ab";

const SECOND_POOLED: &str = "ci-hot-project-ba9876543210";

fn size() -> GuestSize {
    GuestSize { cpu_count: 4, memory_mb: 8_192, storage_mb: 40_960 }
}

fn profile() -> Profile {
    Profile {
        repository: "owner/project".to_owned(),
        template: "flanforge-base".to_owned(),
        runner_label: "macos-tart-project".to_owned(),
        job_name: "build".to_owned(),
        allowed_workflows: vec!["build.yml".to_owned()],
        allowed_events: vec!["push".to_owned()],
        allowed_refs: vec!["refs/heads/main".to_owned()],
        allowed_ref_prefixes: Vec::new(),
        require_protected_ref: false,
        network: "softnet".to_owned(),
        cpu_count: 4,
        memory_mb: 8_192,
        storage_mb: 40_960,
        boot_timeout_seconds: 120,
        idle_timeout_seconds: 300,
        job_timeout_seconds: 3_600,
        cleanup_timeout_seconds: 60,
        warm_template: None,
        regeneration_workflow: None,
        reap: true,
        hot: None,
    }
}

fn config_of(profiles: Vec<(&str, Profile)>) -> Config {
    Config {
        runtime: RuntimeConfig {
            vm_prefix: "ci-".to_owned(),
            max_running_vms: 2,
            max_hot_vms: 1,
            host_cpu_count: None,
            host_memory_mb: None,
            host_storage_mb: None,
            min_storage_free_mb: None,
            poll_seconds: 1,
        },
        profiles: profiles
            .into_iter()
            .map(|(name, profile)| NamedProfile { name: name.to_owned(), profile })
            .collect(),
    }
}

fn config() -> Config {
    config_of(vec![("project", profile())])
}

fn hot_config() -> HotConfig {
    HotConfig {
        enabled: true,
        lanes: HotLanePolicy { admits_protected: true, admits_unprotected: false },
        max_idle: 1,
        max_lifetime_seconds: 14_400,
        max_jobs: 20,
        idle_ttl_seconds: 900,
        reset_timeout_seconds: 120,
        simulator_reset: SimulatorReset { level: 1 },
    }
}

fn hot_profile() -> Profile {
    let mut profile = profile();
    profile.hot = Some(hot_config());
    profile
}

fn hot_enabled() -> Config {
    config_of(vec![("project", hot_profile())])
}

/// A hot configuration whose host has exactly one slot.
fn capped(max_hot_vms: u8) -> Config {
    let mut config = hot_enabled();
    config.runtime.max_hot_vms = max_hot_vms;
    config.runtime.max_running_vms = 1;
    config
}

fn source() -> CloneSource {
    CloneSource {
        name: "flanforge-base".to_owned(),
        kind: CloneKind::Template,
        base_fingerprint: None,
        fallback_reason: None,
    }
}

fn guest(name: &str, jobs_served: u32) -> HotGuest {
    let mut guest = HotGuest::new(
        name.to_owned(),
        "project".to_owned(),
        HotLane::Protected,
        size(),
        source(),
        None,
        None,
        NOW,
    );
    guest.state = HotState::Idle;
    guest.jobs_served = jobs_served;
    guest
}

fn policy_at(hot: HotConfig, now: u64) -> HotPolicy {
    HotPolicy { hot, fingerprint: None, warm_generation: None, now }
}

fn new_id() -> String {
    uuid_text(fresh_uuid())
}

/// An allocation bound to a pool machine, exactly as `create` leaves it.
fn hot_allocation(vm_name: &str) -> Allocation {
    let mut allocation = Allocation::new(
        new_id(),
        AllocationRequest {
            profile: "project".to_owned(),
            repository: "owner/project".to_owned(),
            run_id: 42,
            run_attempt: 1,
        },
        "ci-project-1-1".to_owned(),
        "label".to_owned(),
        AllocationMode::Cold,
        size(),
        NOW,
    );
    allocation.state = AllocationState::Registering;
    allocation.origin = AllocationOrigin::HotReuse {
        vm_name: vm_name.to_owned(),
        jobs_served: 1,
        booted_at_unix: 0,
    };
    allocation
}

/// A finished allocation whose own guest is to be kept.
fn retained_allocation() -> Allocation {
    let mut allocation = hot_allocation("ci-project-1-1");
    allocation.origin = AllocationOrigin::Cloned;
    allocation.hot_lane = Some(HotLane::Protected);
    allocation.vm_created = true;
    allocation.source = Some(source());
    allocation
}

/// A pool's records and the machines the host lists.
#[derive(Default)]
struct Host {
    pool: Vec<HotGuest>,
    machines: Vec<HostMachine>,
}

impl Host {
    /// Destroys a machine, and answers what is told of it.
    fn evict(&mut self, guest: &HotGuest, reason: HotDrainReason) -> Option<Fact> {
        let eviction = ensure_hot_evicted(guest, reason, true);
        assert_eq!(eviction, Eviction::Retire);
        self.pool.retain(|held| held.vm_name != guest.vm_name);
        self.machines.retain(|machine| machine.name != guest.vm_name);
        eviction_fact(guest, reason, &eviction)
    }
}

/// Drives one authorized request of the fixture's profile to its allocation.
fn create(config: &Config, hot: HotRequest, host: &mut Host) -> (Allocation, Vec<Fact>) {
    let manager = AllocationManager::new(ManagerTuning::default());
    let request = AllocationRequest {
        profile: "project".to_owned(),
        repository: "owner/project".to_owned(),
        run_id: 42,
        run_attempt: 1,
    };
    let options = RequestOptions { hot, ..RequestOptions::default() };
    let settled = AllocationManager::requested(config, &request, true).and_then(|profile| {
        AllocationManager::authorize(profile, options, Ok(()), "build.yml", true)
    });
    let authorized = match settled {
        Ok(authorized) => authorized,
        Err(error) => panic!("authorize: {error:?}"),
    };
    let selected = SourceSelection { source: source(), warm_generation: None };
    let resolved = AllocationManager::resolved(authorized, selected, None, 65_536);
    let run = CreateRun { request, options, resolved };
    let mut facts = Vec::new();
    let mut step = run.begin();
    loop {
        let event = match &step {
            CreateStep::EvictPool { reason } => {
                let guests = host.pool.clone();
                for drain in ensure_hot_evicted_for(&guests, "project", *reason) {
                    match ensure_hot_drained(&guests[drain.place], drain.reason, NOW) {
                        DrainStep::Save { draining, is_evicted: true } => {
                            facts.extend(host.evict(&draining, drain.reason));
                        }
                        other => panic!("an idle machine goes at once: {other:?}"),
                    }
                }
                CreateEvent::Done
            }
            CreateStep::YieldPool => CreateEvent::Done,
            CreateStep::AskPool => CreateEvent::Asked(hot_context(
                config,
                &run.request.profile,
                &run.resolved.profile,
                run.resolved.lane,
                run.resolved.age_seconds,
                true,
                None,
                None,
            )),
            CreateStep::Probe { .. } => CreateEvent::Probed {
                machines: Ok(host.machines.clone()),
                hot: Ok(host.pool.clone()),
            },
            CreateStep::Name { .. } => CreateEvent::Named {
                label: Ok(()),
                name: Ok(()),
                id: new_id(),
                is_source_deferred: false,
                now: NOW,
            },
            CreateStep::SaveClaim { guest, .. } => {
                save(&mut host.pool, guest);
                CreateEvent::Saved(Ok(()))
            }
            CreateStep::SaveRecord { .. } => CreateEvent::Saved(Ok(())),
            CreateStep::Created(allocation) => return (allocation.clone(), facts),
            other => panic!("a creation ended in {other:?}"),
        };
        facts.extend(creation_fact(&step, &event));
        step = run.next(&manager, config, step, event);
    }
}

fn entries(allocations: Vec<Allocation>) -> Vec<Entry> {
    allocations
        .into_iter()
        .map(|allocation| Entry { allocation, is_supervised: true, is_terminalizing: false })
        .collect()
}

fn context_with(max_hot_vms: u8) -> HotContext {
    HotContext {
        hot: hot_config(),
        name: "project".to_owned(),
        lane: HotLane::Protected,
        fingerprint: None,
        warm_generation: None,
        max_hot_vms,
        age_seconds: None,
    }
}

fn unresolved(guests: &Vec<HotGuest>) -> Vec<Resolved> {
    guests.iter().map(|_| Resolved { fingerprint: None, warm_generation: None }).collect()
}

fn find(pool: &[HotGuest], name: &str) -> Result<Option<HotGuest>, StoreError> {
    Ok(pool.iter().find(|guest| guest.vm_name == name).cloned())
}

fn save(pool: &mut Vec<HotGuest>, guest: &HotGuest) {
    pool.retain(|held| held.vm_name != guest.vm_name);
    pool.push(guest.clone());
}

/// Runs one release against a pool held in memory and a backend whose every
/// handover and reset comes to `is_clean`.
fn release(
    pool: &mut Vec<HotGuest>,
    allocation: &Allocation,
    profile: &Profile,
    is_clean: bool,
) -> (ReleaseStep, Option<Fact>) {
    let mut told = None;
    let manager = AllocationManager::new(ManagerTuning::default());
    let mut step = AllocationManager::ensure_hot_released(allocation, profile);
    loop {
        let event = match &step {
            ReleaseStep::LoadClaim { vm_name } => ReleaseEvent::Loaded(find(pool, vm_name)),
            ReleaseStep::FindRetained { .. } => {
                ReleaseEvent::Loaded(find(pool, &allocation.vm_name))
            }
            ReleaseStep::ReadDrain { guest } => ReleaseEvent::Loaded(find(pool, &guest.vm_name)),
            ReleaseStep::SaveRelease { guest }
            | ReleaseStep::SaveRetained { guest }
            | ReleaseStep::SaveIdle { guest } => {
                save(pool, guest);
                ReleaseEvent::Done(true)
            }
            ReleaseStep::Handover { reset, .. } | ReleaseStep::Reset { reset, .. } => {
                assert_eq!(reset.budget.allowance(), 120_000_000_000);
                ReleaseEvent::Done(is_clean)
            }
            ReleaseStep::Withdraw { guest } => {
                let name = guest.vm_name.clone();
                pool.retain(|held| held.vm_name != name);
                ReleaseEvent::Done(true)
            }
            ReleaseStep::Evict { guest, .. } => {
                let name = guest.vm_name.clone();
                pool.retain(|held| held.vm_name != name);
                return (step, told);
            }
            ReleaseStep::Pooled { .. } => {
                told = release_fact(&step);
                ReleaseEvent::Done(true)
            }
            _ => return (step, told),
        };
        assert_eq!(told.is_some(), release_fact(&step).is_some());
        step = manager.next_release(step, event, allocation, profile, NOW + 60);
    }
}

/// The first claim is visible through its entry before its record is written,
/// and that entry is what the second one sees.
#[test]
fn two_concurrent_claims_cannot_take_one_machine() {
    let hot = vec![guest(POOLED, 3)];
    let empty = NameSet::new();
    let first =
        claimable(&hot, "project", HotLane::Protected, &empty, &policy_at(hot_config(), NOW))
            .unwrap_or_else(|| unreachable!("an idle machine is claimable"));
    assert_eq!(hot[first].vm_name, POOLED);

    let taken = entries(vec![hot_allocation(POOLED)]);
    let claimed = live_hot_names(&taken);
    assert!(claimed.contains(POOLED));
    assert!(
        claimable(&hot, "project", HotLane::Protected, &claimed, &policy_at(hot_config(), NOW))
            .is_none(),
        "the second claim must not take the machine the first one holds"
    );
}

/// Profile pinning is absolute and the lane is derived from a signed claim, so
/// neither is negotiable at selection time.
#[test]
fn a_claim_never_crosses_a_profile_or_a_lane() {
    let hot = vec![guest(POOLED, 0)];
    let empty = NameSet::new();
    let policy = policy_at(hot_config(), NOW);
    assert!(claimable(&hot, "other", HotLane::Protected, &empty, &policy).is_none());
    assert!(claimable(&hot, "project", HotLane::Unprotected, &empty, &policy).is_none());
}

/// Wear concentrates on one machine rather than spreading.
#[test]
fn the_machine_closest_to_its_job_bound_is_claimed_first() {
    let hot = vec![guest(POOLED, 1), guest(SECOND_POOLED, 7)];
    let claimed = claimable(
        &hot,
        "project",
        HotLane::Protected,
        &NameSet::new(),
        &policy_at(hot_config(), NOW),
    )
    .unwrap_or_else(|| unreachable!("one of the two is claimable"));
    assert_eq!(hot[claimed].vm_name, SECOND_POOLED);
}

#[test]
fn every_configured_bound_names_the_reason_it_drained() {
    let booted = guest(POOLED, 0).booted_at_unix;

    let over_lifetime = guest(POOLED, 0);
    assert_eq!(
        drain_reason(&over_lifetime, &policy_at(hot_config(), booted + 14_400)),
        Some(HotDrainReason::MaxLifetime)
    );

    let spent = guest(POOLED, 20);
    assert_eq!(
        drain_reason(&spent, &policy_at(hot_config(), booted + 1)),
        Some(HotDrainReason::MaxJobs)
    );

    let mut stale = guest(POOLED, 0);
    stale.updated_at_unix = booted;
    assert_eq!(
        drain_reason(&stale, &policy_at(hot_config(), booted + 900)),
        Some(HotDrainReason::IdleTtl)
    );

    // A machine built from a warm generation the profile no longer promotes is
    // not the machine hot was configured to hand out.
    let mut superseded = guest(POOLED, 0);
    superseded.warm_generation = Some(3);
    assert_eq!(
        drain_reason(&superseded, &policy_at(hot_config(), booted + 1)),
        Some(HotDrainReason::StaleBase)
    );

    assert_eq!(drain_reason(&guest(POOLED, 0), &policy_at(hot_config(), NOW)), None);
}

/// A drained machine is never claimable, whatever else the record says.
#[test]
fn a_machine_past_a_bound_is_not_claimable() {
    let hot = vec![guest(POOLED, 20)];
    let policy = policy_at(hot_config(), hot[0].booted_at_unix + 1);
    assert!(claimable(&hot, "project", HotLane::Protected, &NameSet::new(), &policy).is_none());
}

/// The global cap is the only thing admission asks about.
#[test]
fn the_global_cap_is_what_admission_checks() {
    let name = "project".to_owned();
    let held = vec![guest("ci-project-1-1", 0)];
    assert!(
        !is_pool_expandable(&held, 1, &Vec::new()),
        "one machine already fills a global cap of one"
    );
    assert!(is_pool_expandable(&held, 2, &Vec::new()));
    assert!(
        !is_pool_expandable(&held, 2, &vec![&name]),
        "an in-flight retention counts against the cap"
    );
}

/// A release that overshoots retires the stalest machine, not the one just
/// recycled.
#[test]
fn surplus_idle_retires_the_stalest_machine_first() {
    let mut stale = guest(POOLED, 0);
    stale.updated_at_unix = 100;
    let mut fresh = guest(SECOND_POOLED, 0);
    fresh.updated_at_unix = 900;
    let pool = vec![stale, fresh];
    let surplus = surplus_idle(&pool, "project", HotLane::Protected, &hot_config());
    assert_eq!(surplus.len(), 1);
    assert_eq!(pool[surplus[0]].vm_name, POOLED);
}

#[test]
fn a_retained_guest_is_claimed_by_the_next_request_for_its_lane() {
    let config = hot_enabled();
    let profile = hot_profile();
    let mut pool = Vec::new();

    // A finished hot allocation hands its guest over.
    let (end, told) = release(&mut pool, &retained_allocation(), &profile, true);
    assert_eq!(end, ReleaseStep::Bound, "the pool is bounded once a machine came back");
    assert_eq!(
        told,
        Some(Fact {
            kind: EventKind::HotRecycled,
            allocation_id: None,
            vm_name: Some("ci-project-1-1".to_owned()),
            profile: Some("project".to_owned()),
            payload: Payload::Recycling { lane: HotLane::Protected, jobs_served: 1 },
        })
    );
    assert_eq!(pool.len(), 1, "the finished guest joined the pool");
    assert_eq!(pool[0].vm_name, "ci-project-1-1");
    assert_eq!(pool[0].state, HotState::Idle);
    assert_eq!(pool[0].jobs_served, 1, "the job it just ran is its first");

    // The next request for the same profile and lane claims it.
    let context = hot_context(
        &config,
        &"project".to_owned(),
        &profile,
        HotLane::Protected,
        None,
        true,
        None,
        None,
    )
    .unwrap_or_else(|| unreachable!("hot is enabled and supported"));
    let claim = plan_hot_claim(&Vec::new(), &pool, &context, &new_id(), NOW + 61)
        .unwrap_or_else(|| unreachable!("an idle machine is claimable"));
    match claim {
        HotClaim::Reused { guest, origin, .. } => {
            assert_eq!(guest.state, HotState::Claimed);
            assert_eq!(origin.hot_vm_name().map(|name| name.as_str()), Some("ci-project-1-1"));
        }
        HotClaim::Retain => panic!("a machine in the pool is reused, not retained again"),
    }

    // The other lane cannot have this machine, and with a cap of one already
    // held it cannot retain one of its own either.
    let other = HotContext { lane: HotLane::Unprotected, ..context };
    assert!(plan_hot_claim(&Vec::new(), &pool, &other, &new_id(), NOW + 61).is_none());
}

/// A second release that evicted would destroy a machine the pool holds.
#[test]
fn releasing_the_same_allocation_twice_leaves_the_pool_alone() {
    let profile = hot_profile();
    let mut pool = Vec::new();
    let retained = retained_allocation();
    release(&mut pool, &retained, &profile, true);
    assert_eq!(release(&mut pool, &retained, &profile, true), (ReleaseStep::Nothing, None));
    assert_eq!(pool.len(), 1, "the second retention was not a second record");
    assert_eq!(pool[0].state, HotState::Idle);
    assert_eq!(pool[0].jobs_served, 1, "the job was not counted twice");

    // Now the reuse arm, against the record the retention left behind.
    let reuser = hot_allocation("ci-project-1-1");
    let mut claimed = pool[0].clone();
    assert!(claimed.ensure_claimed(&reuser.id, NOW + 61).is_ok());
    save(&mut pool, &claimed);

    let (end, _) = release(&mut pool, &reuser, &profile, true);
    assert_eq!(end, ReleaseStep::Bound);
    assert_eq!(release(&mut pool, &reuser, &profile, true), (ReleaseStep::Nothing, None));
    assert_eq!(pool.len(), 1, "the second release did not evict the machine");
    assert_eq!(pool[0].state, HotState::Idle);
    assert_eq!(pool[0].jobs_served, 2, "the reused job counted exactly once");
}

#[test]
fn a_machine_whose_reset_fails_never_rejoins_the_pool() {
    let profile = hot_profile();
    let mut pool = Vec::new();
    assert_eq!(
        release(&mut pool, &retained_allocation(), &profile, false),
        (ReleaseStep::Nothing, None),
        "a backend that cannot keep the machine leaves it to teardown"
    );
    assert!(pool.is_empty());

    let reuser = hot_allocation(POOLED);
    let mut claimed = guest(POOLED, 1);
    assert!(claimed.ensure_claimed(&reuser.id, NOW).is_ok());
    save(&mut pool, &claimed);
    let (end, told) = release(&mut pool, &reuser, &profile, false);
    assert!(matches!(end, ReleaseStep::Evict { reason: HotDrainReason::ResetFailed, .. }));
    assert_eq!(told, None);
    assert!(pool.is_empty());
}

#[test]
fn a_drain_stamped_during_the_reset_wins_over_a_clean_one() {
    let manager = AllocationManager::new(ManagerTuning::default());
    let mut recycling = guest(POOLED, 1);
    recycling.state = HotState::Recycling;
    let mut stamped = recycling.clone();
    stamped.drain_reason = Some(HotDrainReason::EvictRequested);
    let next = manager.next_release(
        ReleaseStep::ReadDrain { guest: recycling },
        ReleaseEvent::Loaded(Ok(Some(stamped))),
        &hot_allocation(POOLED),
        &hot_profile(),
        NOW,
    );
    assert!(matches!(next, ReleaseStep::Evict { reason: HotDrainReason::EvictRequested, .. }));
}

/// A workflow that does not mention hot must leave the pool alone.
#[test]
fn an_untouched_request_neither_claims_nor_retains() {
    let options = RequestOptions::default();
    assert!(!options.hot.is_retaining());
    assert!(!options.hot.is_evicting());
    assert_eq!(options.hot, HotRequest::Untouched);
    assert!(!is_hot_asked(AllocationMode::Cold, options));
}

/// A request above the ceiling is refused rather than quietly shortened.
#[test]
fn a_requested_lifetime_above_the_profile_ceiling_is_rejected_not_clamped() {
    let hot = hot_profile();
    let ceiling = hot_config().max_lifetime_seconds;
    assert_eq!(
        resolve_hot_age(HotRequest::Retain { age_seconds: Some(ceiling) }, &hot),
        Ok(Some(ceiling))
    );
    assert!(resolve_hot_age(HotRequest::Retain { age_seconds: Some(ceiling + 1) }, &hot).is_err());
    // Unset takes the ceiling, which is the only place the default lives.
    assert_eq!(resolve_hot_age(HotRequest::Retain { age_seconds: None }, &hot), Ok(None));
    // A profile that does not enable hot has no ceiling to exceed.
    assert_eq!(
        resolve_hot_age(HotRequest::Retain { age_seconds: Some(ceiling * 100) }, &profile()),
        Ok(None)
    );
}

/// A backend that can hold machines under a cap of zero is a full pool.
#[test]
fn the_global_kill_switch_refuses_a_request_as_a_full_pool() {
    let (created, facts) =
        create(&capped(0), HotRequest::Retain { age_seconds: None }, &mut Host::default());
    assert_eq!(created.hot_refusal, Some(HotRefusal::PoolFull));
    assert!(created.hot_lane.is_none());
    assert!(facts.is_empty(), "{facts:?}");

    assert_eq!(
        refusal(AllocationMode::Cold, &hot_profile(), HotLane::Protected, 0),
        HotRefusal::PoolFull
    );
    assert!(plan_hot_claim(&Vec::new(), &Vec::new(), &context_with(0), &new_id(), NOW).is_none());
}

/// A claim is told of the allocation that made it.
#[test]
fn a_claim_is_told_once_its_record_is_durable() {
    let mut host = Host { pool: vec![guest(POOLED, 3)], machines: vec![pooled_machine()] };
    let mut config = capped(1);
    config.runtime.max_running_vms = 2;
    let asked = HotRequest::Retain { age_seconds: None };
    let (created, facts) = create(&config, asked, &mut host);
    assert_eq!(created.hot_lane, Some(HotLane::Protected));
    assert_eq!(created.hot_refusal, None);
    assert_eq!(created.origin.hot_vm_name().map(|name| name.as_str()), Some(POOLED));
    assert_eq!(
        facts,
        vec![Fact {
            kind: EventKind::HotClaimed,
            allocation_id: Some(created.id.clone()),
            vm_name: Some(POOLED.to_owned()),
            profile: Some("project".to_owned()),
            payload: Payload::Claim { jobs_served: 3 },
        }]
    );
    assert!(host.pool[0].is_claimed_for(&created.id));
}

#[test]
fn every_refusal_names_its_cause() {
    let hot = hot_profile();
    assert_eq!(
        refusal(AllocationMode::Regenerate, &hot, HotLane::Protected, 1),
        HotRefusal::Regeneration
    );
    assert_eq!(
        refusal(AllocationMode::Cold, &profile(), HotLane::Protected, 1),
        HotRefusal::NotEnabled
    );
    assert_eq!(
        refusal(AllocationMode::Cold, &hot, HotLane::Unprotected, 1),
        HotRefusal::LaneNotAdmitted
    );
    assert_eq!(
        refusal(AllocationMode::Cold, &hot, HotLane::Protected, 1),
        HotRefusal::Unsupported
    );
}

#[test]
fn a_backend_without_the_capability_admits_no_hot_context() {
    let config = hot_enabled();
    let context = |supports_hot: bool| {
        hot_context(
            &config,
            &"project".to_owned(),
            &hot_profile(),
            HotLane::Protected,
            None,
            supports_hot,
            None,
            None,
        )
    };
    assert!(
        context(false).is_none(),
        "a backend that cannot hold a machine open must not be handed one"
    );
    assert!(context(true).is_some());
}

/// Every field a running machine cannot absorb.
#[test]
fn a_reload_that_resizes_or_repoints_a_profile_drains_it() {
    let base = hot_profile();
    assert!(!is_hot_draining_change(&base, &base));
    for mutate in [
        (|profile: &mut Profile| profile.cpu_count += 1) as fn(&mut Profile),
        |profile: &mut Profile| profile.memory_mb += 1_024,
        |profile: &mut Profile| profile.storage_mb += 1_024,
        |profile: &mut Profile| profile.network = "default".to_owned(),
        |profile: &mut Profile| profile.template = "other-base".to_owned(),
        |profile: &mut Profile| {
            profile.hot = Some(HotConfig { max_jobs: 3, ..hot_config() });
        },
    ] {
        let mut next = base.clone();
        mutate(&mut next);
        assert!(is_hot_draining_change(&base, &next));
    }
    // A field a running machine can absorb is not a drain.
    let mut retimed = base.clone();
    retimed.job_timeout_seconds += 60;
    assert!(!is_hot_draining_change(&base, &retimed));
}

#[test]
fn a_reload_drains_only_the_profiles_it_changed() {
    let before = config_of(vec![("project", hot_profile()), ("other", hot_profile())]);
    let mut larger = hot_profile();
    larger.cpu_count = 8;
    let after = config_of(vec![("project", larger), ("other", hot_profile())]);
    let changed = drained_profiles(&before, &after);
    assert!(changed.contains("project") && !changed.contains("other"));
    let mut kept = guest(SECOND_POOLED, 0);
    kept.profile = "other".to_owned();
    let drains = ensure_hot_reloaded(&vec![kept, guest(POOLED, 0)], &changed);
    assert_eq!(drains.len(), 1);
    assert_eq!(drains[0].place, 1);
    assert_eq!(drains[0].reason, HotDrainReason::ConfigReloaded);
    // A profile that is gone drains too.
    assert!(drained_profiles(&before, &config_of(Vec::new())).contains("other"));
}

/// What a reload invalidated goes before the bounds apply.
#[test]
fn a_reload_drains_before_it_bounds() {
    let mut changed = NameSet::new();
    assert_eq!(begin_reload(&changed), ReloadStep::Bound, "nothing changed, nothing is read");
    changed.insert("project".to_owned());
    let next = |step: ReloadStep, event: ReloadEvent| next_reload(step, event, &changed);
    let first = begin_reload(&changed);
    assert_eq!(first, ReloadStep::Load);
    let drain = next(first, ReloadEvent::Loaded(Ok(vec![guest(POOLED, 1)])));
    match &drain {
        ReloadStep::Drain { guests, drains } => {
            assert_eq!(guests[drains[0].place].vm_name, POOLED);
            assert_eq!(drains[0].reason, HotDrainReason::ConfigReloaded);
            assert_eq!(drains.len(), 1);
        }
        other => panic!("a changed profile's machines drain: {other:?}"),
    }
    let bound = next(drain, ReloadEvent::Done);
    assert_eq!(bound, ReloadStep::Bound);
    assert_eq!(next(bound, ReloadEvent::Done), ReloadStep::Done);
    // Records that cannot be read are left to the bounds.
    let unreadable = StoreError { message: "unavailable".to_owned() };
    assert_eq!(
        next(ReloadStep::Load, ReloadEvent::Loaded(Err(unreadable))),
        ReloadStep::Bound
    );
}

#[test]
fn a_machine_built_from_a_generation_the_profile_no_longer_promotes_drains() {
    let mut superseded = guest(POOLED, 1);
    superseded.warm_generation = Some(3);
    let guests = vec![superseded];
    let drains = ensure_hot_bounded(&hot_enabled(), &guests, &unresolved(&guests), NOW);
    assert_eq!(drains.len(), 1);
    assert_eq!(drains[0].reason, HotDrainReason::StaleBase);
}

#[test]
fn an_evict_request_frees_the_only_slot_before_capacity_folds() {
    let config = capped(1);
    let pool = vec![guest(POOLED, 1)];
    let machines = vec![pooled_machine()];
    assert!(AllocationManager::ensure_capacity(
        &Vec::new(),
        &config,
        size(),
        &machines,
        &pool
    )
    .is_err());
    let mut host = Host { pool, machines };
    let (created, facts) = create(&config, HotRequest::Evict, &mut host);
    assert!(host.pool.is_empty(), "the profile's pool outlived the run that ended its hot session");
    assert_eq!(
        facts,
        vec![Fact {
            kind: EventKind::HotEvicted,
            allocation_id: None,
            vm_name: Some(POOLED.to_owned()),
            profile: Some("project".to_owned()),
            payload: Payload::Eviction {
                reason: HotDrainReason::EvictRequested,
                jobs_served: 1,
            },
        }]
    );
    // Asking for the pool to go keeps nothing of its own.
    assert!(created.hot_lane.is_none());
    assert!(created.hot_refusal.is_none());
    let evict = RequestOptions { hot: HotRequest::Evict, ..RequestOptions::default() };
    assert!(!is_hot_asked(AllocationMode::Cold, evict));
}

/// The kill switch has to drain, not freeze.
#[test]
fn the_global_kill_switch_drains_the_pool_rather_than_freezing_it() {
    let mut pool = vec![guest(POOLED, 1)];
    assert_eq!(bounded_pass(&capped(1), &mut pool), Vec::<String>::new());
    assert_eq!(pool, vec![guest(POOLED, 1)]);
    assert_eq!(bounded_pass(&capped(0), &mut pool), vec![POOLED.to_owned()]);
    assert!(pool.is_empty(), "the kill switch froze the pool instead of draining it");
}

/// One pass over a pool nobody holds a claim in, on a backend that destroys what
/// it is asked to. Answers the machines it was asked to destroy.
fn bounded_pass(config: &Config, pool: &mut Vec<HotGuest>) -> Vec<String> {
    let guests = pool.clone();
    let mut destroyed = Vec::new();
    let mut evict = |pool: &mut Vec<HotGuest>, guest: &HotGuest, reason: HotDrainReason| {
        destroyed.push(guest.vm_name.clone());
        assert_eq!(ensure_hot_evicted(guest, reason, true), Eviction::Retire);
        pool.retain(|kept| kept.vm_name != guest.vm_name);
    };
    let mut phase = BoundPhase::Bound;
    while phase != BoundPhase::Done {
        match phase {
            BoundPhase::Bound => {
                for drain in ensure_hot_bounded(config, &guests, &unresolved(&guests), NOW) {
                    match ensure_hot_drained(&guests[drain.place], drain.reason, NOW) {
                        DrainStep::Save { draining, is_evicted: true } => {
                            evict(pool, &draining, drain.reason);
                        }
                        other => panic!("an idle machine goes at once: {other:?}"),
                    }
                }
            }
            BoundPhase::Finish => {
                for eviction in ensure_hot_drains_finished(&guests, &NameSet::new()) {
                    evict(pool, &guests[eviction.place], eviction.reason);
                }
            }
            BoundPhase::Retry => {
                for eviction in ensure_hot_evictions_retried(&guests, &NameSet::new()) {
                    evict(pool, &guests[eviction.place], eviction.reason);
                }
            }
            BoundPhase::Done => {}
        }
        phase = next_bound_phase(phase);
    }
    destroyed
}

/// A machine one too many for its lane is drained once.
#[test]
fn a_pass_drains_lane_surplus_once() {
    let mut pool = vec![guest(POOLED, 1), guest(SECOND_POOLED, 1)];
    let destroyed = bounded_pass(&capped(2), &mut pool);
    assert_eq!(destroyed.len(), 1, "{destroyed:?}");
    assert_eq!(pool.len(), 1);
}

fn pooled_machine() -> HostMachine {
    HostMachine {
        name: POOLED.to_owned(),
        state: MachineState::Running,
        age_seconds: Some(10),
        size: None,
        ownership: MachineOwnership::Owned,
    }
}

/// A retained machine is a cache, and a cache yields under pressure.
#[test]
fn an_idle_machine_yields_its_slot_to_an_allocation_that_needs_it() {
    for max_hot_vms in [0, 1] {
        let config = capped(max_hot_vms);
        let mut pool = vec![guest(POOLED, 1)];
        let mut machines = vec![pooled_machine()];
        let mut run = HotYield::new(pool.len());
        let mut evicted = 0;
        loop {
            let found = AllocationManager::yieldable_hot(
                &Vec::new(),
                &config,
                size(),
                &machines,
                &pool,
            );
            match run.next(found) {
                Some(guest) => {
                    evicted += 1;
                    pool.retain(|held| held.vm_name != guest.vm_name);
                    machines.retain(|machine| machine.name != guest.vm_name);
                }
                None => break,
            }
        }
        assert_eq!(evicted, 1, "an idle machine kept the only slot under {max_hot_vms}");
    }
}

/// Freeing this allocation's slot by failing somebody else's running job is not
/// a trade the pool may make.
#[test]
fn a_claimed_machine_never_yields_its_slot() {
    let mut claimed = guest(POOLED, 1);
    assert!(claimed.ensure_claimed(&new_id(), NOW).is_ok());
    assert!(AllocationManager::yieldable_hot(
        &Vec::new(),
        &capped(1),
        size(),
        &vec![pooled_machine()],
        &vec![claimed]
    )
    .is_none());
}

/// The cap must count the machine a reuser's origin names, which the record
/// snapshot already counts.
#[test]
fn a_reusing_allocation_does_not_charge_the_pool_a_second_slot() {
    let mut recorded = guest(POOLED, 1);
    assert!(recorded.ensure_claimed(&new_id(), NOW).is_ok());

    let mut reuser = hot_allocation(POOLED);
    let origin = reuser.origin.clone();
    reuser.set_hot(Some(HotLane::Protected), origin, None, None);
    assert!(
        matches!(
            plan_hot_claim(
                &entries(vec![reuser]),
                &vec![recorded],
                &context_with(2),
                &new_id(),
                NOW
            ),
            Some(HotClaim::Retain)
        ),
        "a host holding one machine refused a second because it charged the reuser too"
    );
}

/// A drain that lands on a machine in the middle of an operation leaves
/// something behind, and a later pass acts on it.
#[test]
fn a_drain_that_lands_mid_operation_is_stamped_and_retried() {
    for state in [HotState::Provisioning, HotState::Recycling] {
        let mut busy = guest(POOLED, 1);
        busy.state = state;
        let drains =
            ensure_hot_evicted_for(&vec![busy.clone()], "project", HotDrainReason::EvictRequested);
        assert_eq!(drains.len(), 1);
        let stamped = match ensure_hot_drained(&busy, drains[0].reason, NOW) {
            DrainStep::Stamp { stamped: Some(stamped) } => stamped,
            other => panic!("a {state:?} record kept no trace of the drain: {other:?}"),
        };
        assert_eq!(stamped.drain_reason, Some(HotDrainReason::EvictRequested));
        assert_eq!(stamped.state, state);
        // Stamping once more writes nothing.
        assert_eq!(ensure_hot_eviction_pending(&stamped, HotDrainReason::EvictRequested), None);

        let retried = ensure_hot_evictions_retried(&vec![stamped.clone()], &NameSet::new());
        assert_eq!(retried.len(), 1, "a stamped {state:?} record was never retried");
        assert_eq!(retried[0].reason, HotDrainReason::EvictRequested);
        assert_eq!(
            ensure_hot_evicted(&stamped, HotDrainReason::EvictRequested, true),
            Eviction::Retire
        );
    }
}

/// Too many idle machines and one idle for too long are different causes.
#[test]
fn an_idle_overshoot_names_max_idle_rather_than_the_ttl() {
    let mut stalest = guest(POOLED, 1);
    stalest.updated_at_unix -= 60;
    let drains =
        ensure_hot_surplus_retired(&hot_enabled(), &vec![stalest.clone(), guest(SECOND_POOLED, 1)]);
    assert_eq!(drains.len(), 1);
    assert_eq!(drains[0].place, 0);
    assert_eq!(drains[0].reason, HotDrainReason::MaxIdle);
    match ensure_hot_drained(&stalest, drains[0].reason, NOW) {
        DrainStep::Save { draining, is_evicted } => {
            assert!(is_evicted);
            assert_eq!(draining.state, HotState::Draining);
            assert_eq!(draining.drain_reason, Some(HotDrainReason::MaxIdle));
            // An eviction that fails keeps the record for its reason.
            let kept = ensure_hot_evicted(&draining, HotDrainReason::MaxIdle, false);
            assert_eq!(kept, Eviction::Keep { stamped: None });
            assert_eq!(eviction_fact(&draining, HotDrainReason::MaxIdle, &kept), None);
        }
        other => panic!("an idle machine drains at once: {other:?}"),
    }
}

#[test]
fn a_draining_machine_goes_once_nobody_holds_it() {
    let mut draining = guest(POOLED, 1);
    draining.state = HotState::Draining;
    draining.drain_reason = Some(HotDrainReason::MaxJobs);
    let guests = vec![draining];
    let mut claimed = NameSet::new();
    claimed.insert(POOLED.to_owned());
    assert!(ensure_hot_drains_finished(&guests, &claimed).is_empty());
    let finished = ensure_hot_drains_finished(&guests, &NameSet::new());
    assert_eq!(finished.len(), 1);
    assert_eq!(finished[0].reason, HotDrainReason::MaxJobs);
}

#[test]
fn a_claim_that_finds_no_live_machine_fails_rather_than_cloning() {
    let reuser = hot_allocation(POOLED);
    let start = AllocationManager::ensure_hot_ready(&reuser);
    assert_eq!(start, ReadyStep::LoadClaim { vm_name: POOLED.to_owned() });
    let step = AllocationManager::next_ready(
        start,
        ReadyEvent::Loaded(Ok(Some(guest(POOLED, 1)))),
    );
    let step = AllocationManager::next_ready(step, ReadyEvent::Prepared(Ok(())));
    let step = AllocationManager::next_ready(step, ReadyEvent::Live(false));
    assert!(matches!(step, ReadyStep::Evict { reason: HotDrainReason::MachineGone, .. }));
    assert_eq!(
        AllocationManager::next_ready(step, ReadyEvent::Evicted),
        ReadyStep::Failed(WorkerError::new("the claimed hot guest is no longer live".to_owned()))
    );
    assert_eq!(
        AllocationManager::next_ready(
            ReadyStep::LoadClaim { vm_name: POOLED.to_owned() },
            ReadyEvent::Loaded(Ok(None))
        ),
        ReadyStep::Failed(WorkerError::new(
            "the hot guest record this allocation claimed is gone".to_owned()
        ))
    );
    assert_eq!(
        AllocationManager::ensure_hot_ready(&retained_allocation()),
        ReadyStep::Ready
    );
}

#[test]
fn an_operator_drains_or_evicts_only_a_machine_that_is_recorded() {
    let name = POOLED.to_owned();
    assert_eq!(
        AllocationManager::hot_evict(Ok(None), &name),
        Err(ManagerError::NotFound(name.clone()))
    );
    assert_eq!(
        AllocationManager::hot_drain(Ok(None), &name, NOW),
        Err(ManagerError::NotFound(name.clone()))
    );
    let unreadable = || StoreError { message: "unavailable".to_owned() };
    assert_eq!(
        AllocationManager::hot_evict(Err(unreadable()), &name),
        Err(ManagerError::Store(unreadable()))
    );
    assert_eq!(
        AllocationManager::hot_evict(Ok(Some(guest(POOLED, 1))), &name),
        Ok((guest(POOLED, 1), HotDrainReason::OperatorRequest))
    );
    assert!(matches!(
        AllocationManager::hot_drain(Ok(Some(guest(POOLED, 1))), &name, NOW),
        Ok(DrainStep::Save { is_evicted: true, .. })
    ));
}

#[test]
fn a_machine_moves_only_along_its_edges() {
    let mut machine = guest(POOLED, 1);
    let id = new_id();
    assert!(machine.ensure_claimed(&id, NOW).is_ok());
    assert!(machine.is_claimed_for(&id));
    assert!(machine.ensure_claimed(&new_id(), NOW).is_err());
    assert!(machine.ensure_released(NOW + 1).is_ok());
    assert_eq!((machine.state, machine.jobs_served), (HotState::Recycling, 2));
    assert_eq!(machine.claimed_by, None);
    assert_eq!(
        machine.ensure_state(HotState::Draining, NOW + 2),
        Err(HotTransitionError { from: HotState::Recycling, to: HotState::Draining })
    );
    assert!(machine.ensure_state(HotState::Idle, NOW + 2).is_ok());
    assert!(machine.is_serving("project", HotLane::Protected));
    assert_eq!(machine.updated_at_unix, NOW + 2);
}

#[test]
fn an_eviction_is_allowed_the_widest_configured_cleanup() {
    let mut slow = profile();
    slow.cleanup_timeout_seconds = 900;
    assert_eq!(hot_eviction_seconds(&config_of(vec![("a", profile()), ("b", slow)]), 300), 900);
    assert_eq!(hot_eviction_seconds(&config(), 300), 300);
    assert_eq!(hot_eviction_seconds(&config_of(Vec::new()), 300), 300);
}
