use flanforge_manager::creation::{CreateEvent, CreateRun, CreateStep};
use flanforge_manager::domain::allocation::{
    Allocation, AllocationMode, AllocationRequest, AllocationState, CloneKind, CloneSource,
    GuestSize, RequestOptions,
};
use flanforge_manager::domain::hot::{
    HotConfig, HotDrainReason, HotGuest, HotLane, HotLanePolicy, HotRequest, HotState,
    SimulatorReset,
};
use flanforge_manager::domain::image::{WarmImageRecord, WarmImageState, WarmName};
use flanforge_manager::domain::profile::{Config, NamedProfile, Profile, RuntimeConfig};
use flanforge_manager::error::{BusyReason, ManagerError, StoreError};
use flanforge_manager::hot::bounds::{next_bound_phase, BoundPhase};
use flanforge_manager::hot::model::{hot_context, HotContext};
use flanforge_manager::ident::{fresh_uuid, uuid_text};
use flanforge_manager::recovery::hot::AdoptStep;
use flanforge_manager::recovery::pass::{next_warm_pass, HotPass, WarmPassEvent, WarmPassStep};
use flanforge_manager::service::{AllocationManager, Resolved};
use flanforge_manager::tuning::ManagerTuning;
use flanforge_manager::warm::retention::Reversion;
use flanforge_manager::warm::source::SourceSelection;
use flanforge_manager::worker::error::WorkerError;
use flanforge_manager::worker::model::{
    HostMachine, MachineOwnership, MachineState, WarmAvailability,
};

const NOW: u64 = 1_755_324_251;

const POOLED: &str = "ci-hot-project-0123456789ab";

fn size() -> GuestSize {
    GuestSize { cpu_count: 4, memory_mb: 8_192, storage_mb: 40_960 }
}

fn profile() -> Profile {
    Profile {
        repository: "owner/project".to_owned(),
        template: "flanforge-base".to_owned(),
        runner_label: "macos-tart-project".to_owned(),
        job_name: "build".to_owned(),
        allowed_workflows: vec!["build.yml".to_owned()],
        allowed_events: vec!["push".to_owned()],
        allowed_refs: vec!["refs/heads/main".to_owned()],
        allowed_ref_prefixes: Vec::new(),
        require_protected_ref: false,
        network: "softnet".to_owned(),
        cpu_count: 4,
        memory_mb: 8_192,
        storage_mb: 40_960,
        boot_timeout_seconds: 120,
        idle_timeout_seconds: 300,
        job_timeout_seconds: 3_600,
        cleanup_timeout_seconds: 60,
        warm_template: None,
        regeneration_workflow: None,
        reap: true,
        hot: None,
    }
}

fn config_of(profiles: Vec<(&str, Profile)>) -> Config {
    Config {
        runtime: RuntimeConfig {
            vm_prefix: "ci-".to_owned(),
            max_running_vms: 2,
            max_hot_vms: 1,
            host_cpu_count: None,
            host_memory_mb: None,
            host_storage_mb: None,
            min_storage_free_mb: None,
            poll_seconds: 1,
        },
        profiles: profiles
            .into_iter()
            .map(|(name, profile)| NamedProfile { name: name.to_owned(), profile })
            .collect(),
    }
}

fn config() -> Config {
    config_of(vec![("project", profile())])
}

fn hot_profile() -> Profile {
    let mut profile = profile();
    profile.hot = Some(HotConfig {
        enabled: true,
        lanes: HotLanePolicy { admits_protected: true, admits_unprotected: false },
        max_idle: 1,
        max_lifetime_seconds: 14_400,
        max_jobs: 20,
        idle_ttl_seconds: 900,
        reset_timeout_seconds: 120,
        simulator_reset: SimulatorReset { level: 1 },
    });
    profile
}

fn template() -> CloneSource {
    CloneSource {
        name: "flanforge-base".to_owned(),
        kind: CloneKind::Template,
        base_fingerprint: None,
        fallback_reason: None,
    }
}

fn request() -> AllocationRequest {
    AllocationRequest {
        profile: "project".to_owned(),
        repository: "owner/project".to_owned(),
        run_id: 42,
        run_attempt: 1,
    }
}

fn run(hot: HotRequest) -> CreateRun {
    CreateRun {
        request: request(),
        options: RequestOptions { hot, ..RequestOptions::default() },
        resolved: Resolved {
            profile: hot_profile(),
            size: size(),
            mode: AllocationMode::Cold,
            source: SourceSelection { source: template(), warm_generation: None },
            lane: HotLane::Protected,
            age_seconds: None,
        },
    }
}

fn pool_config() -> Config {
    config_of(vec![("project", hot_profile())])
}

fn context() -> Option<HotContext> {
    hot_context(
        &pool_config(),
        &"project".to_owned(),
        &hot_profile(),
        HotLane::Protected,
        None,
        true,
        None,
        None,
    )
}

fn idle() -> HotGuest {
    let mut guest = HotGuest::new(
        POOLED.to_owned(),
        "project".to_owned(),
        HotLane::Protected,
        size(),
        template(),
        None,
        None,
        NOW,
    );
    guest.state = HotState::Idle;
    guest
}

fn unavailable() -> StoreError {
    StoreError { message: "unavailable".to_owned() }
}

fn named(label: Result<(), String>, name: Result<(), String>) -> CreateEvent {
    CreateEvent::Named {
        label,
        name,
        id: uuid_text(fresh_uuid()),
        is_source_deferred: false,
        now: NOW,
    }
}

/// A creation up to the saving of its claim, over a pool with one idle machine.
fn claiming(manager: &AllocationManager) -> (CreateRun, CreateStep) {
    let config = pool_config();
    let run = run(HotRequest::Retain { age_seconds: None });
    let step = run.begin();
    assert!(matches!(step, CreateStep::YieldPool));
    let step = run.next(manager, &config, step, CreateEvent::Done);
    assert!(matches!(step, CreateStep::AskPool));
    let step = run.next(manager, &config, step, CreateEvent::Asked(context()));
    assert!(matches!(step, CreateStep::Probe { context: Some(_) }));
    let step = run.next(
        manager,
        &config,
        step,
        CreateEvent::Probed { machines: Ok(Vec::new()), hot: Ok(vec![idle()]) },
    );
    match &step {
        CreateStep::Name { label, name, .. } => {
            assert!(label.starts_with("macos-tart-project-"));
            assert_eq!(label.len(), "macos-tart-project-".len() + 36);
            assert_eq!(name, "ci-project-42-1");
        }
        other => panic!("an admitted request is named: {other:?}"),
    }
    let step = run.next(manager, &config, step, named(Ok(()), Ok(())));
    (run, step)
}

#[test]
fn a_claim_is_saved_before_the_allocation_that_holds_it() {
    let mut manager = AllocationManager::new(ManagerTuning::default());
    let config = pool_config();
    let (run, step) = claiming(&manager);
    match &step {
        CreateStep::SaveClaim { new, guest } => {
            assert_eq!(guest.state, HotState::Claimed);
            assert!(guest.is_claimed_for(&new.allocation.id));
            assert_eq!(
                new.allocation.origin.hot_vm_name().map(|name| name.as_str()),
                Some(POOLED)
            );
        }
        other => panic!("a claim is saved first: {other:?}"),
    }
    let step = run.next(&manager, &config, step, CreateEvent::Saved(Ok(())));
    assert!(matches!(step, CreateStep::SaveRecord { .. }));
    match run.next(&manager, &config, step, CreateEvent::Saved(Ok(()))) {
        CreateStep::Created(allocation) => {
            assert_eq!(allocation.state, AllocationState::Requested);
            manager.insert(allocation.clone());
            assert_eq!(manager.get(&allocation.id), Ok(allocation));
        }
        other => panic!("a durable allocation is created: {other:?}"),
    }
}

#[test]
fn a_claim_whose_allocation_never_became_durable_is_given_back() {
    let manager = AllocationManager::new(ManagerTuning::default());
    let config = pool_config();
    let (run, step) = claiming(&manager);
    let step = run.next(&manager, &config, step, CreateEvent::Saved(Ok(())));
    let step = run.next(&manager, &config, step, CreateEvent::Saved(Err(unavailable())));
    match &step {
        CreateStep::Abandon { guest, reason, .. } => {
            assert_eq!(guest.vm_name, POOLED);
            assert_eq!(*reason, HotDrainReason::ResetFailed);
        }
        other => panic!("the claim is given back: {other:?}"),
    }
    assert!(matches!(
        run.next(&manager, &config, step, CreateEvent::Done),
        CreateStep::Failed(ManagerError::Store(_))
    ));

    let (run, step) = claiming(&manager);
    assert!(matches!(
        run.next(&manager, &config, step, CreateEvent::Saved(Err(unavailable()))),
        CreateStep::Failed(ManagerError::Store(_))
    ));
}

#[test]
fn an_evicting_request_drains_its_pool_before_anything_is_counted() {
    let manager = AllocationManager::new(ManagerTuning::default());
    let config = pool_config();
    let run = run(HotRequest::Evict);
    let step = run.begin();
    assert!(matches!(step, CreateStep::EvictPool { reason: HotDrainReason::EvictRequested }));
    let step = run.next(&manager, &config, step, CreateEvent::Done);
    assert!(matches!(step, CreateStep::YieldPool));
    // It asks the pool for nothing of its own.
    let step = run.next(&manager, &config, step, CreateEvent::Done);
    assert!(matches!(step, CreateStep::Probe { context: None }));
    let step = run.next(
        &manager,
        &config,
        step,
        CreateEvent::Probed {
            machines: Err(WorkerError::new("no host".to_owned())),
            hot: Ok(Vec::new()),
        },
    );
    assert!(matches!(
        step,
        CreateStep::Failed(ManagerError::Busy { reason: BusyReason::ProbeFailed, holder: None })
    ));
}

#[test]
fn a_repeated_attempt_gets_the_allocation_it_has() {
    let mut manager = AllocationManager::new(ManagerTuning::default());
    let held = Allocation::new(
        uuid_text(fresh_uuid()),
        request(),
        "ci-project-42-1".to_owned(),
        "label".to_owned(),
        AllocationMode::Cold,
        size(),
        NOW,
    );
    manager.insert(held.clone());
    let step = run(HotRequest::Untouched).next(
        &manager,
        &config(),
        CreateStep::Probe { context: None },
        CreateEvent::Probed { machines: Ok(Vec::new()), hot: Ok(Vec::new()) },
    );
    match step {
        CreateStep::Existing(found) => assert_eq!(found, held),
        other => panic!("the attempt has an allocation: {other:?}"),
    }
}

#[test]
fn refused_names_fail_a_creation_that_was_admitted() {
    let manager = AllocationManager::new(ManagerTuning::default());
    let run = run(HotRequest::Untouched);
    let admitted = || {
        run.next(
            &manager,
            &config(),
            CreateStep::Probe { context: None },
            CreateEvent::Probed { machines: Ok(Vec::new()), hot: Ok(Vec::new()) },
        )
    };
    let refused = || Err("refused".to_owned());
    assert!(matches!(
        run.next(&manager, &config(), admitted(), named(refused(), Ok(()))),
        CreateStep::Failed(ManagerError::InvalidRunnerLabel(_))
    ));
    assert!(matches!(
        run.next(&manager, &config(), admitted(), named(Ok(()), refused())),
        CreateStep::Failed(ManagerError::InvalidVmName(_))
    ));
    assert!(matches!(
        run.next(&manager, &config(), admitted(), named(Ok(()), Ok(()))),
        CreateStep::SaveRecord { .. }
    ));
    // An answer nobody waits for changes nothing.
    assert!(matches!(
        run.next(&manager, &config(), CreateStep::YieldPool, CreateEvent::Saved(Ok(()))),
        CreateStep::YieldPool
    ));
}

fn warm_profile(name: &str) -> Profile {
    let mut warm = profile();
    warm.warm_template = Some(WarmName::new(name.to_owned(), true, true));
    warm
}

fn image(profile: &str, template: &str, state: WarmImageState) -> WarmImageRecord {
    WarmImageRecord {
        profile: profile.to_owned(),
        warm_template: WarmName::new(template.to_owned(), true, true),
        generation: 5,
        base_fingerprint: "aa01".to_owned(),
        produced_by: "producer".to_owned(),
        produced_at_unix: NOW,
        state,
        previous: None,
    }
}

fn stopped(name: &str) -> HostMachine {
    HostMachine {
        name: name.to_owned(),
        state: MachineState::Stopped,
        age_seconds: Some(10),
        size: None,
        ownership: MachineOwnership::Foreign,
    }
}

#[test]
fn a_warm_pass_settles_each_declaring_profile_in_turn() {
    let config = config_of(vec![
        ("a", warm_profile("a-warm")),
        ("bare", profile()),
        ("c", warm_profile("c-warm")),
    ]);
    let machines = vec![stopped("a-warm"), stopped("a-warm.staging")];
    let next = |step: WarmPassStep, event: WarmPassEvent| {
        next_warm_pass(&config, &machines, step, event)
    };
    let step = next(WarmPassStep::List, WarmPassEvent::Listed(Ok(())));
    assert_eq!(step, WarmPassStep::Load { place: 0 });
    let staged = image("a", "a-warm", WarmImageState::Staging);
    let step = next(step, WarmPassEvent::Loaded(Ok(Some(staged.clone()))));
    let step = next(step, WarmPassEvent::Available(Ok(WarmAvailability::Ready)));
    assert_eq!(
        step,
        WarmPassStep::Revert {
            place: 0,
            record: staged.clone(),
            staging: "a-warm.staging".to_owned(),
            is_staged: true,
            reversion: Reversion::Remove("a".to_owned()),
        }
    );
    let step = next(step, WarmPassEvent::Tried);
    assert!(matches!(step, WarmPassStep::Delete { place: 0, .. }));
    let step = next(step, WarmPassEvent::Tried);
    assert_eq!(step, WarmPassStep::Mark { place: 0, record: staged });
    // The profile that declares nothing is passed over.
    let step = next(step, WarmPassEvent::Tried);
    assert_eq!(step, WarmPassStep::Load { place: 2 });
    assert_eq!(next(step, WarmPassEvent::Loaded(Ok(None))), WarmPassStep::Done);
}

#[test]
fn a_warm_pass_is_given_up_where_a_record_cannot_be_read_or_written() {
    let config = config_of(vec![("a", warm_profile("a-warm"))]);
    let machines = vec![stopped("a-warm")];
    let next = |step: WarmPassStep, event: WarmPassEvent| {
        next_warm_pass(&config, &machines, step, event)
    };
    let no_host = || WorkerError::new("no host".to_owned());
    assert_eq!(
        next(WarmPassStep::List, WarmPassEvent::Listed(Err(no_host()))),
        WarmPassStep::Failed(ManagerError::Worker(no_host()))
    );
    assert_eq!(
        next(WarmPassStep::Load { place: 0 }, WarmPassEvent::Loaded(Err(unavailable()))),
        WarmPassStep::Failed(ManagerError::Store(unavailable()))
    );
    let asked = || {
        next(
            WarmPassStep::Load { place: 0 },
            WarmPassEvent::Loaded(Ok(Some(image("a", "a-warm", WarmImageState::Staging)))),
        )
    };
    let finalizing = next(asked(), WarmPassEvent::Available(Ok(WarmAvailability::Busy)));
    assert!(matches!(finalizing, WarmPassStep::Finalize { .. }));
    assert_eq!(
        next(finalizing, WarmPassEvent::Saved(Err(unavailable()))),
        WarmPassStep::Failed(ManagerError::Store(unavailable()))
    );
    // An availability that cannot be had only passes the profile over.
    assert_eq!(next(asked(), WarmPassEvent::Available(Err(no_host()))), WarmPassStep::Done);
    let gone = next(asked(), WarmPassEvent::Available(Ok(WarmAvailability::Absent)));
    assert!(matches!(gone, WarmPassStep::Restore { is_staged: false, .. }));
}

#[test]
fn a_pass_over_the_pool_counts_what_came_back() {
    let mut evicted = idle();
    evicted.state = HotState::Evicted;
    let mut pass = match HotPass::begin(Ok(vec![idle(), evicted, idle()])) {
        Ok(pass) => pass,
        Err(error) => panic!("begin: {error:?}"),
    };
    assert_eq!(pass.next(), Some(&idle()));
    let no_host = || WorkerError::new("no host".to_owned());
    assert_eq!(pass.listed(Err(no_host())), Err(ManagerError::Worker(no_host())));
    assert!(!pass.is_present());
    let machine = HostMachine {
        name: POOLED.to_owned(),
        state: MachineState::Running,
        age_seconds: None,
        size: None,
        ownership: MachineOwnership::Unknown,
    };
    assert_eq!(pass.listed(Ok(vec![machine])), Ok(()));
    assert!(pass.is_present());
    pass.reconciled(&AdoptStep::Adopted);
    pass.reconciled(&AdoptStep::Drop);
    pass.reconciled(&AdoptStep::Forget { reason: HotDrainReason::MachineGone });
    assert!(pass.next().is_none());
    assert_eq!((pass.adopted, pass.retired), (1, 1));
    assert!(matches!(HotPass::begin(Err(unavailable())), Err(ManagerError::Store(_))));
}

#[test]
fn a_bound_pass_drains_before_it_destroys() {
    let mut seen = vec![BoundPhase::Bound];
    while let Some(phase) = seen.last().copied() {
        if phase == BoundPhase::Done {
            break;
        }
        seen.push(next_bound_phase(phase));
    }
    assert_eq!(
        seen,
        vec![BoundPhase::Bound, BoundPhase::Finish, BoundPhase::Retry, BoundPhase::Done]
    );
}
