use flanforge_manager::domain::allocation::{
    Allocation, AllocationMode, AllocationRequest, AllocationState, CloneKind, CloneSource,
    GuestSize, RequestOptions,
};
use flanforge_manager::domain::hot::{
    HotConfig, HotGuest, HotLane, HotLanePolicy, HotRefusal, HotRequest, HotState, SimulatorReset,
};
use flanforge_manager::domain::image::WarmName;
use flanforge_manager::domain::profile::{Config, NamedProfile, Profile, RuntimeConfig};
use flanforge_manager::error::{AuthorizationError, BusyReason, ManagerError, StoreError};
use flanforge_manager::hot::claim::HotClaim;
use flanforge_manager::hot::model::{hot_context, HotContext};
use flanforge_manager::ident::{fresh_uuid, uuid_text};
use flanforge_manager::order::{ranked_order, Rank};
use flanforge_manager::recovery::allocations::{
    cleanup_only_profile, teardown_profile, Recovery, RecoveryEvent, RecoveryStep,
};
use flanforge_manager::resolve::{profile as find_profile, resolve_mode, resolve_size, vm_name};
use flanforge_manager::service::{
    fresh_runner_label, runner_label_text, AllocationManager, CreateAllocation,
};
use flanforge_manager::state::{prune_terminal_history, Entry};
use flanforge_manager::text::{decimal_text, has_prefix, is_text_before};
use flanforge_manager::tuning::{ManagerTuning, IN_MEMORY_ALLOCATION_LIMIT};
use flanforge_manager::warm::source::SourceSelection;
use flanforge_manager::worker::error::{bounded_text, WorkerError};

const NOW: u64 = 1_755_324_251;

const MAX_STORAGE_MB: u64 = 16_777_216;

const POOLED: &str = "ci-hot-project-0123456789ab";

fn size() -> GuestSize {
    GuestSize { cpu_count: 4, memory_mb: 8_192, storage_mb: 40_960 }
}

fn profile() -> Profile {
    Profile {
        repository: "owner/project".to_owned(),
        template: "flanforge-base".to_owned(),
        runner_label: "macos-tart-project".to_owned(),
        job_name: "build".to_owned(),
        allowed_workflows: vec!["build.yml".to_owned()],
        allowed_events: vec!["push".to_owned()],
        allowed_refs: vec!["refs/heads/main".to_owned()],
        allowed_ref_prefixes: Vec::new(),
        require_protected_ref: false,
        network: "softnet".to_owned(),
        cpu_count: 4,
        memory_mb: 8_192,
        storage_mb: 40_960,
        boot_timeout_seconds: 120,
        idle_timeout_seconds: 300,
        job_timeout_seconds: 3_600,
        cleanup_timeout_seconds: 60,
        warm_template: None,
        regeneration_workflow: None,
        reap: true,
        hot: None,
    }
}

fn config_of(profiles: Vec<(&str, Profile)>) -> Config {
    Config {
        runtime: RuntimeConfig {
            vm_prefix: "ci-".to_owned(),
            max_running_vms: 2,
            max_hot_vms: 1,
            host_cpu_count: None,
            host_memory_mb: None,
            host_storage_mb: None,
            min_storage_free_mb: None,
            poll_seconds: 1,
        },
        profiles: profiles
            .into_iter()
            .map(|(name, profile)| NamedProfile { name: name.to_owned(), profile })
            .collect(),
    }
}

fn config() -> Config {
    config_of(vec![("project", profile())])
}

fn hot_profile() -> Profile {
    let mut profile = profile();
    profile.hot = Some(HotConfig {
        enabled: true,
        lanes: HotLanePolicy { admits_protected: true, admits_unprotected: false },
        max_idle: 1,
        max_lifetime_seconds: 14_400,
        max_jobs: 20,
        idle_ttl_seconds: 900,
        reset_timeout_seconds: 120,
        simulator_reset: SimulatorReset { level: 1 },
    });
    profile
}

fn request() -> AllocationRequest {
    AllocationRequest {
        profile: "project".to_owned(),
        repository: "owner/project".to_owned(),
        run_id: 42,
        run_attempt: 1,
    }
}

fn new_id() -> String {
    uuid_text(fresh_uuid())
}

fn allocation_in_state(state: AllocationState, name: &str) -> Allocation {
    let mut allocation = Allocation::new(
        new_id(),
        request(),
        name.to_owned(),
        name.to_owned(),
        AllocationMode::Cold,
        size(),
        NOW,
    );
    allocation.state = state;
    allocation
}

fn entry(allocation: Allocation) -> Entry {
    Entry { allocation, is_supervised: true, is_terminalizing: false }
}

#[test]
fn terminal_history_is_bounded_without_evicting_active_work() {
    let mut entries = Vec::new();
    for index in 0..IN_MEMORY_ALLOCATION_LIMIT {
        let mut allocation =
            allocation_in_state(AllocationState::Completed, &format!("history-{index}"));
        allocation.updated_at_unix = index as u64;
        entries.push(entry(allocation));
    }
    // Oldest of them all, so only the terminal filter can save it.
    let mut active = allocation_in_state(AllocationState::Requested, "active");
    active.created_at_unix = 0;
    active.updated_at_unix = 0;
    let active_id = active.id.clone();
    entries.push(entry(active));

    prune_terminal_history(&mut entries, IN_MEMORY_ALLOCATION_LIMIT);

    assert_eq!(entries.len(), IN_MEMORY_ALLOCATION_LIMIT);
    assert!(entries.iter().any(|entry| entry.allocation.id == active_id));
    assert_eq!(
        entries.iter().filter(|entry| !entry.allocation.state.is_terminal()).count(),
        1
    );
    assert!(!entries.iter().any(|entry| entry.allocation.vm_name == "history-0"));
}

#[test]
fn pruning_drops_the_longest_unmoved_first_and_never_live_work() {
    let finished = |name: &str, updated: u64| {
        let mut allocation = allocation_in_state(AllocationState::Failed, name);
        allocation.updated_at_unix = updated;
        entry(allocation)
    };
    let mut entries = vec![finished("b", 20), finished("a", 10), finished("c", 30)];
    prune_terminal_history(&mut entries, 2);
    let names: Vec<&str> = entries.iter().map(|entry| entry.allocation.vm_name.as_str()).collect();
    assert_eq!(names, vec!["b", "c"]);

    let mut live: Vec<Entry> = (0..3)
        .map(|index| entry(allocation_in_state(AllocationState::Ready, &format!("live-{index}"))))
        .collect();
    prune_terminal_history(&mut live, 1);
    assert_eq!(live.len(), 3);
}

#[test]
fn an_inserted_allocation_makes_room_in_the_history() {
    let mut manager = AllocationManager::new(ManagerTuning {
        history_limit: 1,
        ..ManagerTuning::default()
    });
    manager.insert(allocation_in_state(AllocationState::Completed, "old"));
    let fresh = allocation_in_state(AllocationState::Requested, "new");
    manager.insert(fresh.clone());
    assert_eq!(manager.entries.len(), 1);
    assert_eq!(manager.get(&fresh.id), Ok(fresh));
    assert_eq!(ManagerTuning::default().history_limit, 1_000);
    assert_eq!(ManagerTuning::default().cleanup_retry_delay, 1_000_000_000);
    assert_eq!(ManagerTuning::fast_cleanup_retries().cleanup_retry_delay, 1_000_000);
}

#[test]
fn recovery_refuses_one_allocation_twice() {
    let mut manager = AllocationManager::new(ManagerTuning::default());
    let twice = allocation_in_state(AllocationState::Ready, "twice");
    assert_eq!(
        manager.recover(Ok(vec![twice.clone(), twice.clone()])).map(|_| ()),
        Err(ManagerError::DuplicateAllocation(twice.id))
    );
    let unread = || StoreError { message: "unavailable".to_owned() };
    assert_eq!(manager.recover(Err(unread())).map(|_| ()), Err(ManagerError::Store(unread())));
}

#[test]
fn recovery_counts_what_it_could_not_reconcile() {
    let mut manager = AllocationManager::new(ManagerTuning::default());
    let records = vec![
        allocation_in_state(AllocationState::Ready, "one"),
        allocation_in_state(AllocationState::Completed, "done"),
        allocation_in_state(AllocationState::Booting, "two"),
    ];
    let mut recovery = match manager.recover(Ok(records.clone())) {
        Ok(recovery) => recovery,
        Err(error) => panic!("recover: {error:?}"),
    };
    assert_eq!(manager.entries.len(), 3);
    assert!(!manager.is_supervised(&records[0].id));
    let turn = |recovery: &Recovery| recovery.allocation().map(|found| found.vm_name.clone());
    assert_eq!(turn(&recovery), Some("one".to_owned()));
    assert_eq!(recovery.step, RecoveryStep::Mark { place: 0 });
    // Neither an unwritten mark nor a teardown that fails stops the pass.
    recovery.next(RecoveryEvent::Marked(Err(ManagerError::ShuttingDown)));
    let requested = AllocationState::Failed;
    assert_eq!(recovery.step, RecoveryStep::TearDown { place: 0, requested });
    recovery.next(RecoveryEvent::TornDown(Err(ManagerError::ShuttingDown)));
    assert_eq!(turn(&recovery), Some("two".to_owned()));
    recovery.next(RecoveryEvent::Marked(Ok(())));
    recovery.next(RecoveryEvent::TornDown(Ok(requested)));
    assert_eq!(turn(&recovery), None);
    assert_eq!(recovery.unreconciled, 1);
    // The pool comes next, and then the images.
    assert_eq!(recovery.step, RecoveryStep::Pool);
    recovery.next(RecoveryEvent::Marked(Ok(())));
    assert_eq!(recovery.step, RecoveryStep::Pool);
    recovery.next(RecoveryEvent::Reconciled(Ok(())));
    assert_eq!(recovery.step, RecoveryStep::Images);
    recovery.next(RecoveryEvent::Reconciled(Err(ManagerError::ShuttingDown)));
    assert_eq!(recovery.step, RecoveryStep::Failed(ManagerError::ShuttingDown));
}

#[test]
fn a_record_whose_profile_is_gone_is_torn_down_on_a_stand_in() {
    let orphan = allocation_in_state(AllocationState::Ready, "orphan");
    let stand_in = cleanup_only_profile(&orphan);
    assert_eq!(stand_in.cleanup_timeout_seconds, 300);
    assert_eq!(stand_in.repository, "owner/project");
    assert_eq!(teardown_profile(&config_of(Vec::new()), &orphan), stand_in);
    assert_eq!(teardown_profile(&config(), &orphan), profile());
}

fn warm_profile() -> Profile {
    let mut warm = profile();
    warm.warm_template = Some(WarmName::new("project-warm".to_owned(), true, true));
    warm.regeneration_workflow = Some("regenerate.yml".to_owned());
    warm
}

/// The verified workflow claim decides the mode, never the request body.
#[test]
fn a_regeneration_workflow_produces_a_regenerate_allocation_that_asked_for_warm() {
    let asked = RequestOptions { warm: true, ..RequestOptions::default() };
    assert_eq!(
        resolve_mode(asked, &warm_profile(), "regenerate.yml"),
        AllocationMode::Regenerate
    );
    assert_eq!(resolve_mode(asked, &warm_profile(), "build.yml"), AllocationMode::Warm);
    assert_eq!(
        resolve_mode(RequestOptions::default(), &warm_profile(), "build.yml"),
        AllocationMode::Cold
    );
}

#[test]
fn a_request_above_its_profile_is_rejected_rather_than_clamped() {
    let exact = RequestOptions {
        cpu_count: Some(2),
        memory_mb: Some(8_192),
        ..RequestOptions::default()
    };
    assert_eq!(
        resolve_size(exact, &profile()),
        Ok(GuestSize { cpu_count: 2, memory_mb: 8_192, storage_mb: 40_960 })
    );
    assert_eq!(resolve_size(RequestOptions::default(), &profile()), Ok(size()));
    for above in [
        RequestOptions { cpu_count: Some(5), ..RequestOptions::default() },
        RequestOptions { memory_mb: Some(8_193), ..RequestOptions::default() },
    ] {
        assert_eq!(resolve_size(above, &profile()), Err(ManagerError::RequestExceedsProfile));
    }
}

#[test]
fn a_request_is_valid_and_names_a_profile_or_is_refused() {
    assert_eq!(AllocationManager::requested(&config(), &request(), true), Ok(profile()));
    assert_eq!(
        AllocationManager::requested(&config(), &request(), false),
        Err(ManagerError::InvalidRequest)
    );
    let mut unknown = request();
    unknown.profile = "nobody".to_owned();
    assert_eq!(
        find_profile(&config(), &unknown),
        Err(ManagerError::UnknownProfile("nobody".to_owned()))
    );
}

#[test]
fn an_unauthorized_caller_is_refused_before_its_size_is_judged() {
    let refused = AuthorizationError { message: "repository does not match".to_owned() };
    let above = RequestOptions { cpu_count: Some(200), ..RequestOptions::default() };
    assert!(matches!(
        AllocationManager::authorize(profile(), above, Err(refused), "build.yml", true),
        Err(ManagerError::Authorization(_))
    ));
    assert_eq!(
        AllocationManager::authorize(profile(), above, Ok(()), "build.yml", true).map(|_| ()),
        Err(ManagerError::RequestExceedsProfile)
    );
}

#[test]
fn names_and_labels_are_spelled_out_of_the_request() {
    assert_eq!(vm_name(&config(), &request(), Ok(())), Ok("ci-project-42-1".to_owned()));
    assert_eq!(
        vm_name(&config(), &request(), Err("too long".to_owned())),
        Err(ManagerError::InvalidVmName("too long".to_owned()))
    );
    assert_eq!(runner_label_text("label", "uuid"), "label-uuid");
    let label = fresh_runner_label("label");
    assert!(has_prefix(&label, "label-"));
    assert_eq!(label.len(), "label-".len() + 36);
    assert_ne!(label, fresh_runner_label("label"));
}

fn template() -> SourceSelection {
    SourceSelection {
        source: CloneSource {
            name: "flanforge-base".to_owned(),
            kind: CloneKind::Template,
            base_fingerprint: None,
            fallback_reason: None,
        },
        warm_generation: None,
    }
}

fn created(
    manager: &AllocationManager,
    config: &Config,
    profile: Profile,
    options: RequestOptions,
    context: Option<HotContext>,
    hot: Vec<HotGuest>,
    is_ref_protected: bool,
) -> CreateAllocation {
    let authorized =
        match AllocationManager::authorize(profile, options, Ok(()), "build.yml", is_ref_protected)
        {
            Ok(authorized) => authorized,
            Err(error) => panic!("authorize: {error:?}"),
        };
    let resolved =
        AllocationManager::resolved(authorized, template(), Some(81_920), MAX_STORAGE_MB);
    match manager.create(
        config,
        request(),
        options,
        &resolved,
        &context,
        &hot,
        new_id(),
        Ok("label".to_owned()),
        Ok("ci-project-42-1".to_owned()),
        false,
        NOW,
    ) {
        Ok(created) => created,
        Err(error) => panic!("create: {error:?}"),
    }
}

#[test]
fn a_created_allocation_records_its_source_and_the_disk_it_gets() {
    let manager = AllocationManager::new(ManagerTuning::default());
    let new = created(
        &manager,
        &config(),
        profile(),
        RequestOptions::default(),
        None,
        Vec::new(),
        true,
    );
    assert_eq!(new.claim, None);
    assert_eq!(new.allocation.state, AllocationState::Requested);
    assert_eq!(new.allocation.size.map(|size| size.storage_mb), Some(81_920));
    assert_eq!(new.allocation.source, Some(template().source));
    assert_eq!(new.allocation.hot_refusal, None);
}

fn retain() -> RequestOptions {
    RequestOptions {
        hot: HotRequest::Retain { age_seconds: None },
        ..RequestOptions::default()
    }
}

fn context(config: &Config) -> Option<HotContext> {
    hot_context(
        config,
        &"project".to_owned(),
        &hot_profile(),
        HotLane::Protected,
        None,
        true,
        None,
        None,
    )
}

#[test]
fn a_created_allocation_retains_or_reuses_and_says_which() {
    let config = config_of(vec![("project", hot_profile())]);
    let manager = AllocationManager::new(ManagerTuning::default());
    let kept = created(
        &manager,
        &config,
        hot_profile(),
        retain(),
        context(&config),
        Vec::new(),
        true,
    );
    assert_eq!(kept.claim, Some(HotClaim::Retain));
    assert_eq!(kept.allocation.hot_lane, Some(HotLane::Protected));
    assert!(kept.allocation.origin.hot_vm_name().is_none());

    let mut idle = HotGuest::new(
        POOLED.to_owned(),
        "project".to_owned(),
        HotLane::Protected,
        size(),
        template().source,
        None,
        None,
        NOW,
    );
    idle.state = HotState::Idle;
    let reused = created(
        &manager,
        &config,
        hot_profile(),
        retain(),
        context(&config),
        vec![idle],
        true,
    );
    assert_eq!(
        reused.allocation.origin.hot_vm_name().map(|name| name.as_str()),
        Some(POOLED)
    );
    assert!(AllocationManager::abandon_hot_claim(&reused.claim)
        .is_some_and(|guest| guest.is_claimed_for(&reused.allocation.id)));
    assert!(AllocationManager::abandon_hot_claim(&kept.claim).is_none());
}

#[test]
fn a_refused_preference_does_not_refuse_the_allocation() {
    let config = config();
    let manager = AllocationManager::new(ManagerTuning::default());
    let new =
        created(&manager, &config, profile(), retain(), None, Vec::new(), true);
    assert_eq!(new.allocation.hot_refusal, Some(HotRefusal::NotEnabled));
    assert_eq!(new.allocation.hot_lane, None);
    let unprotected =
        created(&manager, &config, hot_profile(), retain(), None, Vec::new(), false);
    assert_eq!(unprotected.allocation.hot_refusal, Some(HotRefusal::LaneNotAdmitted));
}

#[test]
fn a_refused_label_is_named_before_a_refused_name() {
    let manager = AllocationManager::new(ManagerTuning::default());
    let authorized = match AllocationManager::authorize(
        profile(),
        RequestOptions::default(),
        Ok(()),
        "build.yml",
        true,
    ) {
        Ok(authorized) => authorized,
        Err(error) => panic!("authorize: {error:?}"),
    };
    let resolved = AllocationManager::resolved(authorized, template(), None, MAX_STORAGE_MB);
    let create = |label: Result<String, String>, name: Result<String, String>| {
        manager
            .create(
                &config(),
                request(),
                RequestOptions::default(),
                &resolved,
                &None,
                &Vec::new(),
                new_id(),
                label,
                name,
                true,
                NOW,
            )
            .map(|new| new.allocation.source)
    };
    let refused = || Err("refused".to_owned());
    assert_eq!(
        create(refused(), refused()),
        Err(ManagerError::InvalidRunnerLabel("refused".to_owned()))
    );
    assert_eq!(
        create(Ok("label".to_owned()), refused()),
        Err(ManagerError::InvalidVmName("refused".to_owned()))
    );
    // A deferred source is left for the worker to report.
    assert_eq!(create(Ok("label".to_owned()), Ok("ci-x".to_owned())), Ok(None));
}

#[test]
fn a_closing_manager_admits_nothing() {
    let mut manager = AllocationManager::new(ManagerTuning::default());
    manager.begin_shutdown(0, 1);
    assert_eq!(
        manager
            .ensure_admitted(
                &config(),
                &request(),
                AllocationMode::Cold,
                size(),
                Ok(Vec::new()),
                Ok(Vec::new())
            )
            .map(|_| ()),
        Err(ManagerError::ShuttingDown)
    );
}

#[test]
fn an_unreadable_pool_refuses_only_where_a_pool_is_configured() {
    let manager = AllocationManager::new(ManagerTuning::default());
    let admitted = |config: &Config| {
        manager
            .ensure_admitted(
                config,
                &request(),
                AllocationMode::Cold,
                size(),
                Ok(Vec::new()),
                Err(StoreError { message: "unavailable".to_owned() }),
            )
            .map(|_| ())
    };
    let capped = |mut config: Config| {
        config.runtime.max_hot_vms = 0;
        config
    };
    let refused = Err(ManagerError::Busy { reason: BusyReason::ProbeFailed, holder: None });
    assert_eq!(admitted(&capped(config())), Ok(()));
    assert_eq!(admitted(&config()), refused);
    assert_eq!(admitted(&capped(config_of(vec![("project", hot_profile())]))), refused);
}

#[test]
fn errors_read_as_an_operator_needs_them() {
    assert_eq!(
        ManagerError::NotFound("id".to_owned()).message(),
        "allocation id was not found"
    );
    assert_eq!(
        ManagerError::Busy { reason: BusyReason::Slots, holder: None }.message(),
        "allocation capacity is busy"
    );
    for (error, text) in [
        (ManagerError::UnknownProfile("nobody".to_owned()), "unknown profile nobody"),
        (
            ManagerError::DuplicateAllocation("id".to_owned()),
            "duplicate allocation ID id in durable state",
        ),
        (ManagerError::InvalidVmName("x".to_owned()), "invalid generated VM name: x"),
        (ManagerError::InvalidRunnerLabel("x".to_owned()), "invalid generated runner label: x"),
        (ManagerError::RequestExceedsProfile, "request exceeds its profile ceiling"),
        (ManagerError::InvalidRequest, "allocation request is structurally invalid"),
        (ManagerError::ShuttingDown, "service is shutting down"),
        (ManagerError::InvalidRunnerId, "runner ID must be positive"),
        (ManagerError::Store(StoreError { message: "disk".to_owned() }), "disk"),
    ] {
        assert_eq!(error.message(), text);
    }
    assert_eq!(WorkerError::new("boom".to_owned()).message(), "boom");
    assert!(WorkerError::capacity("full".to_owned()).is_capacity());
    assert!(!WorkerError::new("boom".to_owned()).is_capacity());
    assert_eq!(bounded_text("abcdef".to_owned(), 4), "abcd");
    assert_eq!(WorkerError::new("x".repeat(600)).message().len(), 512);
}

#[test]
fn texts_and_ranks_are_ordered() {
    assert!(is_text_before("a", "b") && is_text_before("a", "ab") && !is_text_before("b", "ab"));
    assert!(!is_text_before("a", "a"));
    assert_eq!(decimal_text(0), "0");
    assert_eq!(decimal_text(u64::MAX), "18446744073709551615");
    let rank = |major: u64, text: &str, index: usize| Rank {
        major,
        minor: 0,
        text: text.to_owned(),
        index,
    };
    assert_eq!(ranked_order(vec![rank(2, "a", 0), rank(1, "b", 1), rank(1, "a", 2)]), vec![2, 1, 0]);
}
