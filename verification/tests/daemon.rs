use std::sync::Arc;

use flanforge_manager::config_reload::{ConfigError, ConfigHandle, RestartField};
use flanforge_manager::creation::{CreateEvent, CreateRun, CreateStep};
use flanforge_manager::domain::allocation::{
    Allocation, AllocationMode, AllocationRequest, AllocationState, CloneKind, CloneSource,
    GuestSize, LifecycleEdges, RequestOptions,
};
use flanforge_manager::domain::hot::HotRequest;
use flanforge_manager::domain::profile::{Config, NamedProfile, Profile, RuntimeConfig};
use flanforge_manager::error::{AuthorizationError, ManagerError, StoreError};
use flanforge_manager::event::{EventKind, Fact, Payload};
use flanforge_manager::ident::{fresh_uuid, uuid_text};
use flanforge_manager::lifecycle::{
    cleanup_failure, finish_worker, CleanupRun, CleanupStep, TerminalEvent, TerminalStep,
};
use flanforge_manager::operator::control::{AwaitStep, CancelStep};
use flanforge_manager::reaper::images::regenerating_profiles;
use flanforge_manager::reaper::plan::{reserved_image_names, ReapInputs};
use flanforge_manager::reaper::sweep::{SweepReport, SweepStep};
use flanforge_manager::recovery::allocations::{
    mark_interrupted, teardown_profile, RecoveryEvent, RecoveryStep,
};
use flanforge_manager::service::AllocationManager;
use flanforge_manager::shutdown::{LeakReason, ShutdownReport};
use flanforge_manager::state::{Change, Updated};
use flanforge_manager::teardown::{
    begin_worker_end, next_worker_end, worker_vanished, WorkerEndStep, WorkerTeardown,
};
use flanforge_manager::tuning::{ManagerTuning, IN_MEMORY_ALLOCATION_LIMIT};
use flanforge_manager::warm::source::SourceSelection;
use flanforge_manager::worker::error::WorkerError;
use flanforge_manager::worker::model::{HostMachine, MachineOwnership, MachineState};

const NOW: u64 = 1_755_324_251;

const SECOND: u128 = 1_000_000_000;

const DAY: u64 = 90_000;

const MAX_STORAGE_MB: u64 = 16_777_216;

/// Small enough to prove the working-set rules without a production-sized
/// window.
const TEST_HISTORY_LIMIT: usize = 8;

fn size() -> GuestSize {
    GuestSize { cpu_count: 4, memory_mb: 8_192, storage_mb: 40_960 }
}

fn profile() -> Profile {
    Profile {
        repository: "owner/project".to_owned(),
        template: "flanforge-base".to_owned(),
        runner_label: "macos-tart-project".to_owned(),
        job_name: "build".to_owned(),
        allowed_workflows: vec!["build.yml".to_owned()],
        allowed_events: vec!["push".to_owned()],
        allowed_refs: vec!["refs/heads/main".to_owned()],
        allowed_ref_prefixes: Vec::new(),
        require_protected_ref: false,
        network: "softnet".to_owned(),
        cpu_count: 4,
        memory_mb: 8_192,
        storage_mb: 40_960,
        boot_timeout_seconds: 120,
        idle_timeout_seconds: 300,
        job_timeout_seconds: 3_600,
        cleanup_timeout_seconds: 60,
        warm_template: None,
        regeneration_workflow: None,
        reap: true,
        hot: None,
    }
}

fn config_of(profiles: Vec<(&str, Profile)>) -> Config {
    Config {
        runtime: RuntimeConfig {
            vm_prefix: "ci-".to_owned(),
            max_running_vms: 2,
            max_hot_vms: 1,
            host_cpu_count: None,
            host_memory_mb: None,
            host_storage_mb: None,
            min_storage_free_mb: None,
            poll_seconds: 1,
        },
        profiles: profiles
            .into_iter()
            .map(|(name, profile)| NamedProfile { name: name.to_owned(), profile })
            .collect(),
    }
}

fn config() -> Config {
    config_of(vec![("project", profile())])
}

fn request() -> AllocationRequest {
    AllocationRequest {
        profile: "project".to_owned(),
        repository: "owner/project".to_owned(),
        run_id: 42,
        run_attempt: 1,
    }
}

/// Every live state may be cleaned, a cleaned one may end in every way, and the
/// boot runs forward.
fn edges() -> LifecycleEdges {
    let forward = [
        AllocationState::Requested,
        AllocationState::Preparing,
        AllocationState::Booting,
        AllocationState::Registering,
        AllocationState::WaitingForJob,
        AllocationState::Ready,
        AllocationState::Running,
    ];
    let mut edges = Vec::new();
    for (place, from) in forward.iter().enumerate() {
        edges.push((*from, AllocationState::Cleaning));
        if let Some(to) = forward.get(place + 1) {
            edges.push((*from, *to));
        }
    }
    for end in [AllocationState::Completed, AllocationState::Failed, AllocationState::Cancelled] {
        edges.push((AllocationState::Cleaning, end));
    }
    LifecycleEdges { edges, refusals: Vec::new() }
}

fn allocation_in_state(state: AllocationState, name: &str) -> Allocation {
    let mut allocation = Allocation::new(
        uuid_text(fresh_uuid()),
        request(),
        format!("ci-{name}"),
        name.to_owned(),
        AllocationMode::Cold,
        size(),
        NOW,
    );
    allocation.state = state;
    allocation
}

/// What a configuration says in the one field here that only a restart applies.
fn poll_field(seconds: u64) -> Vec<RestartField> {
    vec![RestartField {
        name: "runtime.poll_seconds".to_owned(),
        value: seconds.to_string(),
    }]
}

/// The writes a store refuses.
enum Reject {
    Nothing,
    /// The first record that says an allocation is being cleaned.
    FirstCleaning,
    /// Every record of one allocation.
    Allocation(String),
}

/// A daemon whose workers wait until they are cancelled, run to the end on one
/// thread.
struct Daemon {
    ledger: AllocationManager,
    handle: ConfigHandle,
    store: Vec<Allocation>,
    reject: Reject,
    machines: Vec<HostMachine>,
    cleanups: usize,
    cleanup_failures: usize,
    cancelled: Vec<String>,
    facts: Vec<Fact>,
}

impl Daemon {
    fn new(config: Config) -> Self {
        Self {
            ledger: AllocationManager::new(ManagerTuning::default()),
            handle: ConfigHandle::new(Arc::new(config), poll_field(1)),
            store: Vec::new(),
            reject: Reject::Nothing,
            machines: Vec::new(),
            cleanups: 0,
            cleanup_failures: 0,
            cancelled: Vec::new(),
            facts: Vec::new(),
        }
    }

    fn save(&mut self, record: &Allocation) -> Result<(), StoreError> {
        let is_rejected = match &self.reject {
            Reject::Nothing => false,
            Reject::FirstCleaning => record.state == AllocationState::Cleaning,
            Reject::Allocation(id) => *id == record.id,
        };
        if is_rejected {
            if matches!(self.reject, Reject::FirstCleaning) {
                self.reject = Reject::Nothing;
            }
            return Err(StoreError { message: "not synced".to_owned() });
        }
        self.store.retain(|held| held.id != record.id);
        self.store.push(record.clone());
        Ok(())
    }

    /// The newest records, and every older one that is not over.
    fn load_recent(&self, limit: usize) -> Vec<Allocation> {
        let mut newest = self.store.clone();
        newest.sort_by_key(|held| u64::MAX - held.updated_at_unix);
        newest
            .into_iter()
            .enumerate()
            .filter(|(place, held)| *place < limit || !held.state.is_terminal())
            .map(|(_, held)| held)
            .collect()
    }

    fn update(&mut self, id: &String, change: Change) -> Result<(), ManagerError> {
        let Updated { record, fact } = self.ledger.update(id, change, &edges(), NOW + 1)?;
        self.save(&record).map_err(ManagerError::Store)?;
        self.ledger.commit(record)?;
        self.facts.extend(fact);
        Ok(())
    }

    fn ensure_cleaning(&mut self, id: &String) -> Result<(), ManagerError> {
        match self.ledger.ensure_cleaning(id)? {
            Some(change) => self.update(id, change),
            None => Ok(()),
        }
    }

    fn cleanup_with_retries(
        &mut self,
        allocation: &Allocation,
        profile: &Profile,
    ) -> Result<(), WorkerError> {
        let allowance = profile.cleanup_timeout_seconds as u128 * SECOND;
        let mut run = CleanupRun::new(self.ledger.teardown_budget(allowance));
        loop {
            self.cleanups += 1;
            let outcome = if self.cleanup_failures > 0 {
                self.cleanup_failures -= 1;
                Err(WorkerError::new("injected cleanup failure".to_owned()))
            } else {
                Ok(())
            };
            match run.attempted(outcome) {
                CleanupStep::Succeeded => return Ok(()),
                CleanupStep::Pause => {}
                CleanupStep::Exhausted { error, is_leaked } => {
                    if is_leaked {
                        self.ledger.record_leak(allocation, LeakReason::CleanupFailed);
                    }
                    return Err(error);
                }
            }
        }
    }

    fn ensure_terminal(
        &mut self,
        fallback: &Allocation,
        profile: &Profile,
        requested: AllocationState,
    ) -> Result<AllocationState, ManagerError> {
        let id = &fallback.id;
        let mut step = TerminalStep::Clean;
        loop {
            let event = match &step {
                TerminalStep::Clean | TerminalStep::CleanAgain { .. } => {
                    TerminalEvent::Recorded(self.ensure_cleaning(id))
                }
                TerminalStep::Release { .. } => TerminalEvent::Released,
                TerminalStep::Cleanup { allocation } => {
                    TerminalEvent::CleanedUp(self.cleanup_with_retries(allocation, profile))
                }
                TerminalStep::RecordFailure { error } => {
                    TerminalEvent::Recorded(self.update(id, Change::Error(cleanup_failure(error))))
                }
                TerminalStep::Transition { terminal } => {
                    TerminalEvent::Recorded(self.update(id, Change::Transition(*terminal)))
                }
                TerminalStep::Done(state) => return Ok(*state),
                TerminalStep::Failed(_) => break,
            };
            step = self.ledger.ensure_terminal(step, event, fallback, requested);
        }
        match step {
            TerminalStep::Failed(error) => Err(error),
            other => panic!("a drive ended in {other:?}"),
        }
    }

    /// What follows the end of an allocation's worker.
    fn end_worker(&mut self, allocation: &Allocation, result: Result<(), WorkerError>) {
        let id = &allocation.id;
        let mut step = begin_worker_end(&result);
        while step != WorkerEndStep::Done {
            let outcome = match step {
                WorkerEndStep::Quarantine => {
                    self.ledger.ensure_warm_quarantined(id);
                    Ok(())
                }
                WorkerEndStep::RecordError => match &result {
                    Err(error) => self.update(id, Change::Error(error.message().clone())),
                    Ok(()) => panic!("a worker that succeeded has no error to record"),
                },
                WorkerEndStep::Finish => {
                    let requested = finish_worker(self.cancelled.contains(id), &result);
                    let profile = teardown_profile(&self.handle.current(), allocation);
                    self.ensure_terminal(allocation, &profile, requested).map(|_| ())
                }
                WorkerEndStep::Release => {
                    self.ledger.release_supervision(id);
                    Ok(())
                }
                WorkerEndStep::Done => Ok(()),
            };
            assert!(outcome.is_ok(), "{outcome:?}");
            step = next_worker_end(step, &outcome);
        }
    }

    /// Answers the allocation and whether it is a new one.
    fn create(
        &mut self,
        request: AllocationRequest,
        options: RequestOptions,
        permitted: Result<(), AuthorizationError>,
    ) -> Result<(Allocation, bool), ManagerError> {
        let config = self.handle.current();
        let profile = AllocationManager::requested(&config, &request, true)?;
        let authorized =
            AllocationManager::authorize(profile, options, permitted, "build.yml", true)?;
        let source = SourceSelection {
            source: CloneSource {
                name: authorized.profile.template.clone(),
                kind: CloneKind::Template,
                base_fingerprint: None,
                fallback_reason: None,
            },
            warm_generation: None,
        };
        let resolved = AllocationManager::resolved(authorized, source, None, MAX_STORAGE_MB);
        let run = CreateRun { request, options, resolved };
        let mut step = run.begin();
        loop {
            let event = match &step {
                CreateStep::EvictPool { .. }
                | CreateStep::YieldPool
                | CreateStep::Abandon { .. } => CreateEvent::Done,
                CreateStep::AskPool => CreateEvent::Asked(None),
                CreateStep::Probe { .. } => CreateEvent::Probed {
                    machines: Ok(self.machines.clone()),
                    hot: Ok(Vec::new()),
                },
                CreateStep::Name { .. } => CreateEvent::Named {
                    label: Ok(()),
                    name: Ok(()),
                    id: uuid_text(fresh_uuid()),
                    is_source_deferred: false,
                    now: NOW,
                },
                CreateStep::SaveClaim { .. } => CreateEvent::Saved(Ok(())),
                CreateStep::SaveRecord { new } => {
                    let record = new.allocation.clone();
                    CreateEvent::Saved(self.save(&record))
                }
                CreateStep::Existing(allocation) => return Ok((allocation.clone(), false)),
                CreateStep::Created(allocation) => {
                    self.ledger.insert(allocation.clone());
                    return Ok((allocation.clone(), true));
                }
                CreateStep::Failed(_) => break,
            };
            step = run.next(&self.ledger, &config, step, event);
        }
        match step {
            CreateStep::Failed(error) => Err(error),
            other => panic!("a creation ended in {other:?}"),
        }
    }

    /// A creation of the fixture's request under another run.
    fn create_run(&mut self, run_id: u64) -> Result<(Allocation, bool), ManagerError> {
        let mut asked = request();
        asked.run_id = run_id;
        self.create(asked, RequestOptions::default(), Ok(()))
    }

    fn created(&mut self) -> Allocation {
        match self.create(request(), RequestOptions::default(), Ok(())) {
            Ok((allocation, is_new)) => {
                assert!(is_new);
                allocation
            }
            Err(error) => panic!("create: {error:?}"),
        }
    }

    /// A cancel, and what the cancelled worker then does.
    fn cancel(&mut self, id: &String) -> Result<Allocation, ManagerError> {
        let found = self.ledger.get(id)?;
        let step = self.ledger.cancel_authorized(found, Ok(()))?;
        if step.is_cancelling() {
            self.cancelled.push(id.clone());
        }
        match step {
            CancelStep::Signalled(allocation) => {
                self.end_worker(&allocation, Ok(()));
                Ok(allocation)
            }
            CancelStep::Drive(allocation) => {
                let profile = teardown_profile(&self.handle.current(), &allocation);
                let driven =
                    self.ensure_terminal(&allocation, &profile, AllocationState::Cancelled);
                self.ledger.finish_cancel(id);
                driven?;
                self.ledger.get(id)
            }
            CancelStep::Answer(allocation) => Ok(allocation),
            CancelStep::Await => {
                let found = self.ledger.get(id)?;
                assert_eq!(
                    AllocationManager::await_terminal(found.state, true),
                    AwaitStep::Read
                );
                Ok(found)
            }
        }
    }

    fn shutdown(&mut self, grace: u128) -> ShutdownReport {
        let awaited = self.ledger.begin_shutdown(0, grace);
        for id in &awaited {
            self.cancelled.push(id.clone());
            match self.ledger.get(id) {
                Ok(allocation) => self.end_worker(&allocation, Ok(())),
                Err(error) => panic!("get: {error:?}"),
            }
        }
        let leaked = self.ledger.collect_leaks(&awaited);
        let report = ShutdownReport::new(leaked, grace, 0, SECOND);
        self.facts.extend(report.facts());
        report
    }

    fn recover(&mut self) {
        let records = self.load_recent(self.ledger.tuning.history_limit);
        let config = self.handle.current();
        let mut recovery = match self.ledger.recover(Ok(records)) {
            Ok(recovery) => recovery,
            Err(error) => panic!("recover: {error:?}"),
        };
        loop {
            let event = match &recovery.step {
                RecoveryStep::Mark { place } => RecoveryEvent::Marked(
                    self.update(&recovery.interrupted[*place].id, mark_interrupted()),
                ),
                RecoveryStep::TearDown { place, requested } => {
                    let allocation = &recovery.interrupted[*place];
                    let profile = teardown_profile(&config, allocation);
                    RecoveryEvent::TornDown(self.ensure_terminal(allocation, &profile, *requested))
                }
                RecoveryStep::Pool | RecoveryStep::Images => RecoveryEvent::Reconciled(Ok(())),
                RecoveryStep::Done => return,
                RecoveryStep::Failed(error) => panic!("recover: {error:?}"),
            };
            recovery.next(event);
        }
    }

    /// One deleting pass.
    fn sweep(&mut self) -> SweepReport {
        let config = self.handle.current();
        let nothing = Vec::new();
        let hot = Vec::new();
        let allocations = self.ledger.allocation_snapshot();
        let listed = self.machines.clone();
        let inputs = ReapInputs {
            config: &config,
            machines: &listed,
            allocations: &allocations,
            images: &nothing,
            hot: &hot,
        };
        let mut run = match self.ledger.sweep(
            false,
            &config,
            Ok(Vec::new()),
            Ok(Vec::new()),
            Ok(listed.clone()),
        ) {
            Ok(run) => run,
            Err(error) => panic!("sweep: {error:?}"),
        };
        loop {
            match run.next() {
                SweepStep::Reap { place } => {
                    let candidate = run.planned[place].clone();
                    let reserved = reserved_image_names(&config);
                    let request = self.ledger.reap(&candidate, true, &inputs, &reserved, 300);
                    let is_deleted = request.is_some();
                    if is_deleted {
                        self.machines.retain(|machine| machine.name != candidate.name);
                    }
                    run.reaped(&Ok(is_deleted));
                }
                SweepStep::PlanPrune => {
                    let regenerating = regenerating_profiles(&allocations);
                    run.plan_prune(&config, &regenerating);
                }
                SweepStep::RemoveRecord { .. } => run.record_removed(true),
                SweepStep::SweepImages => {
                    let report = run.report(Vec::new(), NOW);
                    self.facts.extend(report.facts(false));
                    return report;
                }
            }
        }
    }

    fn state(&self, id: &String) -> AllocationState {
        match self.ledger.get(id) {
            Ok(allocation) => allocation.state,
            Err(error) => panic!("get: {error:?}"),
        }
    }
}

/// Every transition is told, with the allocation and where it went.
#[test]
fn lifecycle_facts_land_in_the_event_sink() {
    let mut daemon = Daemon::new(config());
    let created = daemon.created();
    assert!(daemon.cancel(&created.id).is_ok());
    let told: Vec<(AllocationState, AllocationState)> = daemon
        .facts
        .iter()
        .filter(|fact| fact.kind == EventKind::AllocationStateChanged)
        .map(|fact| {
            assert_eq!(fact.allocation_id, Some(created.id.clone()));
            assert_eq!((&fact.vm_name, &fact.profile), (&None, &None));
            match fact.payload {
                Payload::Transition { from, to } => (from, to),
                ref other => panic!("a state change tells {other:?}"),
            }
        })
        .collect();
    assert_eq!(
        told,
        vec![
            (AllocationState::Requested, AllocationState::Cleaning),
            (AllocationState::Cleaning, AllocationState::Cancelled),
        ]
    );
    // A change that is no transition tells nothing.
    let other = daemon.create_run(43);
    let id = other.map(|(allocation, _)| allocation.id).unwrap_or_default();
    assert!(daemon.update(&id, Change::VmCreated).is_ok());
    assert_eq!(daemon.facts.len(), 2);
}

#[test]
fn creation_is_idempotent_and_cancellation_cleans() {
    let mut daemon = Daemon::new(config());
    let first = daemon.created();
    let second = match daemon.create(request(), RequestOptions::default(), Ok(())) {
        Ok(second) => second,
        Err(error) => panic!("idempotent create: {error:?}"),
    };
    assert!(!second.1);
    assert_eq!(first.id, second.0.id);

    assert!(daemon.cancel(&first.id).is_ok());
    assert_eq!(daemon.state(&first.id), AllocationState::Cancelled);
    assert_eq!(daemon.cleanups, 1);
}

fn assert_terminal_predecessor_is_not_replayed(state: AllocationState, is_recovered: bool) {
    let mut daemon = Daemon::new(config());
    let predecessor = allocation_in_state(state, "terminal-predecessor");
    assert!(daemon.save(&predecessor).is_ok());
    if is_recovered {
        daemon.recover();
    } else {
        assert!(daemon.ledger.ensure_entries_loaded(&vec![predecessor.clone()]).is_ok());
    }
    let created = daemon.created();
    assert_ne!(created.id, predecessor.id);
    assert!(daemon.shutdown(30 * SECOND).is_clean());
}

#[test]
fn completed_and_failed_predecessors_are_not_idempotent_matches() {
    assert_terminal_predecessor_is_not_replayed(AllocationState::Completed, false);
    assert_terminal_predecessor_is_not_replayed(AllocationState::Failed, false);
}

#[test]
fn recovered_terminal_predecessor_is_not_an_idempotent_match() {
    assert_terminal_predecessor_is_not_replayed(AllocationState::Failed, true);
}

#[test]
fn rejects_an_unauthorized_repository() {
    let mut daemon = Daemon::new(config());
    let refused = AuthorizationError { message: "owner/other".to_owned() };
    assert!(matches!(
        daemon.create(request(), RequestOptions::default(), Err(refused)),
        Err(ManagerError::Authorization(_))
    ));
    assert!(daemon.store.is_empty());
}

#[test]
fn shutdown_cancels_and_awaits_active_cleanup() {
    let mut daemon = Daemon::new(config());
    let allocation = daemon.created();
    assert!(daemon.shutdown(30 * SECOND).is_clean());
    assert_eq!(daemon.state(&allocation.id), AllocationState::Cancelled);
    assert_eq!(daemon.cleanups, 1);
    assert_eq!(
        daemon.create(request(), RequestOptions::default(), Ok(())),
        Err(ManagerError::ShuttingDown)
    );
}

#[test]
fn the_default_manager_uses_the_documented_history_bound_and_retry_pause() {
    let manager = AllocationManager::new(ManagerTuning::default());
    assert_eq!(IN_MEMORY_ALLOCATION_LIMIT, 1_000);
    assert_eq!(manager.tuning.history_limit, IN_MEMORY_ALLOCATION_LIMIT);
    assert_eq!(manager.tuning.cleanup_retry_delay, SECOND);
}

#[test]
fn recovery_keeps_active_work_inside_and_beyond_the_history_limit() {
    let mut daemon = Daemon::new(config());
    daemon.ledger = AllocationManager::new(ManagerTuning {
        history_limit: TEST_HISTORY_LIMIT,
        ..ManagerTuning::fast_cleanup_retries()
    });
    let mut aged_out = allocation_in_state(AllocationState::Running, "recovery-aged-out");
    aged_out.updated_at_unix = 1;
    assert!(daemon.save(&aged_out).is_ok());
    for index in 0..TEST_HISTORY_LIMIT {
        let mut old = allocation_in_state(AllocationState::Completed, &format!("old-{index}"));
        old.updated_at_unix = 100 + index as u64;
        assert!(daemon.save(&old).is_ok());
    }
    let active = allocation_in_state(AllocationState::Preparing, "recovery-active");
    assert!(daemon.save(&active).is_ok());

    daemon.recover();

    // The newest window, plus the aged-out record that was still owed cleanup.
    assert_eq!(daemon.ledger.entries.len(), TEST_HISTORY_LIMIT + 1);
    for allocation in [&active, &aged_out] {
        assert_eq!(daemon.state(&allocation.id), AllocationState::Failed);
    }
    assert_eq!(daemon.cleanups, 2);
    assert_eq!(daemon.store.len(), TEST_HISTORY_LIMIT + 2);
}

#[test]
fn exhausted_cleanup_still_terminalizes_and_frees_capacity() {
    let mut daemon = Daemon::new(config());
    daemon.cleanup_failures = usize::MAX;
    let first = daemon.created();
    assert!(daemon.cancel(&first.id).is_ok());

    let terminal = match daemon.ledger.get(&first.id) {
        Ok(terminal) => terminal,
        Err(error) => panic!("get: {error:?}"),
    };
    assert_eq!(terminal.state, AllocationState::Failed);
    assert_eq!(daemon.cleanups, 3);
    assert!(terminal.error.is_some_and(|error| error.contains("cleanup failed")));

    assert!(daemon.create_run(43).is_ok());
    // Cleanup always fails here, so the replacement cannot be torn down inside
    // the grace and the stop reports it rather than claiming to be clean.
    let report = daemon.shutdown(30 * SECOND);
    assert_eq!(report.leaked().len(), 1, "{:?}", report.leaked());
    // The leak is told, of the machine it leaves.
    let leak = &report.leaked()[0];
    assert_eq!(
        daemon.facts.last(),
        Some(&Fact {
            kind: EventKind::AllocationLeaked,
            allocation_id: Some(leak.id.clone()),
            vm_name: Some(leak.vm_name.clone()),
            profile: None,
            payload: Payload::Leak {
                state: leak.state,
                is_vm_created: false,
                runner_id: None,
            },
        })
    );
}

/// A second cancel that finds the first one driving waits for it: the clone is
/// cleaned up once.
#[test]
fn overlapping_cancels_run_one_cleanup() {
    let mut daemon = Daemon::new(config());
    let held = allocation_in_state(AllocationState::Running, "project-42-1");
    assert!(daemon.save(&held).is_ok());
    assert!(daemon.ledger.ensure_entries_loaded(&vec![held.clone()]).is_ok());
    let found = daemon.ledger.get(&held.id).unwrap_or_else(|error| panic!("get: {error:?}"));
    let driving = match daemon.ledger.cancel_authorized(found, Ok(())) {
        Ok(CancelStep::Drive(allocation)) => allocation,
        other => panic!("nobody listens to a loaded record: {other:?}"),
    };

    let found = daemon.ledger.get(&held.id).unwrap_or_else(|error| panic!("get: {error:?}"));
    assert_eq!(daemon.ledger.cancel_authorized(found, Ok(())), Ok(CancelStep::Await));
    assert_eq!(
        AllocationManager::await_terminal(daemon.state(&held.id), false),
        AwaitStep::Wait
    );

    let driven = daemon.ensure_terminal(&driving, &profile(), AllocationState::Cancelled);
    assert_eq!(driven, Ok(AllocationState::Cancelled));
    daemon.ledger.finish_cancel(&held.id);
    assert_eq!(
        AllocationManager::await_terminal(daemon.state(&held.id), false),
        AwaitStep::Read
    );
    assert_eq!(daemon.cleanups, 1);

    // A later cancel is answered with the end, and cleans nothing up.
    assert_eq!(
        daemon.cancel(&held.id).map(|found| found.state),
        Ok(AllocationState::Cancelled)
    );
    assert_eq!(daemon.cleanups, 1);
}

#[test]
fn cleanup_retries_terminalize_without_a_restart() {
    let mut daemon = Daemon::new(config());
    daemon.cleanup_failures = 2;
    let allocation = daemon.created();
    assert!(daemon.cancel(&allocation.id).is_ok());
    assert_eq!(daemon.state(&allocation.id), AllocationState::Cancelled);
    assert_eq!(daemon.cleanups, 3);
}

#[test]
fn a_panicking_worker_still_cleans_up_and_frees_capacity() {
    let mut daemon = Daemon::new(config());
    let first = daemon.created();
    // The worker never takes the claim, so the guard finds it.
    let mut guard = WorkerTeardown::new(first.clone());
    match guard.ensure_finished() {
        Some(owed) => daemon.end_worker(&owed, Err(worker_vanished())),
        None => panic!("the guard is owed a teardown"),
    }
    assert!(guard.ensure_finished().is_none());

    let terminal = match daemon.ledger.get(&first.id) {
        Ok(terminal) => terminal,
        Err(error) => panic!("get: {error:?}"),
    };
    assert_eq!(terminal.state, AllocationState::Failed);
    assert_eq!(daemon.cleanups, 1);
    assert!(terminal.error.is_some_and(|error| error.contains("without returning")));

    match daemon.create_run(43) {
        Ok((second, is_new)) => {
            assert!(is_new);
            daemon.end_worker(&second, Err(worker_vanished()));
        }
        Err(error) => panic!("create after the panic: {error:?}"),
    }
    assert!(daemon.shutdown(30 * SECOND).is_clean());
}

#[test]
fn a_transient_cleaning_write_failure_does_not_skip_cleanup() {
    let mut daemon = Daemon::new(config());
    let allocation = daemon.created();
    daemon.reject = Reject::FirstCleaning;
    assert!(daemon.cancel(&allocation.id).is_ok());
    assert!(matches!(daemon.reject, Reject::Nothing));
    assert_eq!(daemon.state(&allocation.id), AllocationState::Cancelled);
    assert_eq!(daemon.cleanups, 1);
}

#[test]
fn recovery_continues_after_a_record_cannot_be_persisted() {
    let mut daemon = Daemon::new(config());
    let rejected = allocation_in_state(AllocationState::Booting, "rejected-record");
    let mut recoverable = allocation_in_state(AllocationState::Preparing, "recoverable-record");
    recoverable.request.run_id = 43;
    for allocation in [&rejected, &recoverable] {
        assert!(daemon.save(allocation).is_ok());
    }
    daemon.reject = Reject::Allocation(rejected.id.clone());

    daemon.recover();

    assert_eq!(daemon.cleanups, 2);
    assert!(!daemon.state(&rejected.id).is_terminal());
    assert_eq!(daemon.state(&recoverable.id), AllocationState::Failed);

    assert!(matches!(daemon.cancel(&rejected.id), Err(ManagerError::Store(_))));
    assert_eq!(daemon.cleanups, 3);
    assert!(daemon.shutdown(SECOND / 10).is_clean());
}

#[test]
fn recovery_reconciles_every_record_when_one_profile_is_missing() {
    let mut daemon = Daemon::new(config());
    let mut orphan = allocation_in_state(AllocationState::Booting, "orphan-record");
    orphan.request.profile = "removed".to_owned();
    let active = allocation_in_state(AllocationState::Preparing, "valid-record");
    for allocation in [&orphan, &active] {
        assert!(daemon.save(allocation).is_ok());
    }

    daemon.recover();

    for allocation in [&active, &orphan] {
        assert_eq!(daemon.state(&allocation.id), AllocationState::Failed);
    }
    assert_eq!(daemon.cleanups, 2);
}

#[test]
fn an_invalid_edit_leaves_the_running_configuration_in_place() {
    let mut daemon = Daemon::new(config());
    let generation = daemon.handle.generation();
    let invalid = Arc::new(config_of(Vec::new()));
    let finding = Err(ConfigError { message: "no profile is configured".to_owned() });
    assert!(daemon.handle.apply(invalid, finding).is_err());
    assert_eq!(daemon.handle.generation(), generation);
    assert_eq!(daemon.handle.current().profiles.len(), 1);
    assert!(daemon.handle.restart_pending().is_empty());
}

#[test]
fn a_restart_only_field_warns_on_every_reload_and_does_not_apply() {
    let mut daemon = Daemon::new(config());
    let mut next = config();
    next.runtime.poll_seconds += 1;
    let next = Arc::new(next);
    assert_eq!(daemon.handle.apply(Arc::clone(&next), Ok(poll_field(2))), Ok(1));
    assert_eq!(daemon.handle.restart_pending(), vec!["runtime.poll_seconds".to_owned()]);
    assert_eq!(daemon.handle.apply(next, Ok(poll_field(2))), Ok(2));
    assert_eq!(daemon.handle.restart_pending(), vec!["runtime.poll_seconds".to_owned()]);
    assert_eq!(daemon.handle.startup().runtime.poll_seconds, 1);
}

#[test]
fn a_profile_edit_applies_to_the_next_request() {
    let mut daemon = Daemon::new(config());
    let first = daemon.created();
    assert_eq!(first.size, Some(size()));

    let mut smaller = profile();
    smaller.cpu_count = 2;
    let next = Arc::new(config_of(vec![("project", smaller)]));
    assert_eq!(daemon.handle.apply(next, Ok(poll_field(1))), Ok(1));

    // The allocation in flight keeps the policy it was authorized under.
    assert_eq!(daemon.ledger.get(&first.id).map(|held| held.size), Ok(Some(size())));
    assert!(daemon.cancel(&first.id).is_ok());

    match daemon.create_run(43) {
        Ok((second, _)) => assert_eq!(
            second.size,
            Some(GuestSize { cpu_count: 2, memory_mb: 8_192, storage_mb: 40_960 })
        ),
        Err(error) => panic!("create: {error:?}"),
    }
}

#[test]
fn a_request_above_its_profile_ceiling_is_rejected_not_clamped() {
    let mut daemon = Daemon::new(config());
    let options = RequestOptions {
        warm: false,
        hot: HotRequest::Untouched,
        cpu_count: Some(64),
        memory_mb: None,
    };
    assert_eq!(
        daemon.create(request(), options, Ok(())),
        Err(ManagerError::RequestExceedsProfile)
    );
}

/// A cleanup that exhausts itself leaves its clone running on the host's only
/// slot; the sweep after a restart gives it back, though the record is gone.
#[test]
fn an_orphan_left_by_exhausted_cleanup_is_collected_after_a_restart() {
    let one_slot = || {
        let mut config = config();
        config.runtime.max_running_vms = 1;
        config.runtime.poll_seconds = 0;
        config
    };
    let mut daemon = Daemon::new(one_slot());
    daemon.cleanup_failures = usize::MAX;
    daemon.machines = vec![HostMachine {
        name: "ci-project-41-1".to_owned(),
        state: MachineState::Running,
        age_seconds: Some(DAY),
        size: None,
        ownership: MachineOwnership::Unknown,
    }];
    let mut interrupted = allocation_in_state(AllocationState::Cleaning, "project-41-1");
    interrupted.vm_created = true;
    assert!(daemon.save(&interrupted).is_ok());

    daemon.recover();
    assert!(daemon.state(&interrupted.id).is_terminal());
    assert_eq!(daemon.machines.len(), 1, "cleanup exhausted, so the clone survives");
    assert!(
        matches!(
            daemon.create(request(), RequestOptions::default(), Ok(())),
            Err(ManagerError::Busy { .. })
        ),
        "a running orphan takes the host's only slot"
    );
    assert!(daemon.shutdown(5 * SECOND).is_clean());

    // The same host, a new process, and a record that has aged out.
    let mut restarted = Daemon::new(one_slot());
    restarted.cleanup_failures = usize::MAX;
    restarted.machines = daemon.machines;
    restarted.recover();
    let report = restarted.sweep();
    assert_eq!(report.deleted, vec!["ci-project-41-1".to_owned()]);
    assert_eq!(restarted.facts[0], Fact::deleted(&"ci-project-41-1".to_owned()));
    assert_eq!(restarted.facts[1].kind, EventKind::ReaperSweep);
    assert!(restarted.machines.is_empty());
    assert!(
        restarted.create(request(), RequestOptions::default(), Ok(())).is_ok(),
        "the reclaimed slot is admissible again"
    );
    // The same failing backend holds the reclaimed slot, so its teardown is a
    // reported leak rather than a clean stop.
    let report = restarted.shutdown(5 * SECOND);
    assert_eq!(report.leaked().len(), 1, "{:?}", report.leaked());
}
