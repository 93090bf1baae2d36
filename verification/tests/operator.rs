use std::sync::Arc;

use flanforge_manager::config_reload::{ConfigError, ConfigHandle, RestartField};
use flanforge_manager::domain::allocation::{
    Allocation, AllocationMode, AllocationRequest, AllocationState, CloneKind, CloneSource,
    EdgeRefusal, GuestSize, LifecycleEdges, StateTransitionError,
};
use flanforge_manager::domain::hot::{HotGuest, HotLane, HotState};
use flanforge_manager::domain::image::{WarmImageRecord, WarmImageState, WarmName};
use flanforge_manager::domain::profile::{Config, NamedProfile, Profile, RuntimeConfig};
use flanforge_manager::error::{AuthorizationError, BusyReason, ManagerError, StoreError};
use flanforge_manager::ident::{fresh_uuid, uuid_digits, uuid_text};
use flanforge_manager::lifecycle::{
    abandoned_cleanup, cleanup_failure, finish_worker, CleanupRun, CleanupStep, TerminalEvent,
    TerminalStep,
};
use flanforge_manager::names::NameSet;
use flanforge_manager::operator::control::{AwaitStep, CancelStep};
use flanforge_manager::operator::status::bounded_count;
use flanforge_manager::operator::token::{
    ensure_operator_token, is_token_match, operator_token, operator_token_path, read_token,
};
use flanforge_manager::recovery::allocations::RecoveryEvent;
use flanforge_manager::service::{Admission, AllocationManager};
use flanforge_manager::shutdown::{LeakReason, ShutdownReport};
use flanforge_manager::state::{Change, Entry};
use flanforge_manager::teardown::{
    begin_worker_end, is_image_suspect, next_worker_end, worker_vanished, WorkerEndStep,
    WorkerTeardown,
};
use flanforge_manager::tuning::ManagerTuning;
use flanforge_manager::worker::budget::CleanupBudget;
use flanforge_manager::worker::error::WorkerError;
use flanforge_manager::worker::model::{HostMachine, MachineOwnership, MachineState};

const NOW: u64 = 1_755_324_251;

const SECOND: u128 = 1_000_000_000;

fn size() -> GuestSize {
    GuestSize { cpu_count: 4, memory_mb: 8_192, storage_mb: 40_960 }
}

fn profile() -> Profile {
    Profile {
        repository: "owner/project".to_owned(),
        template: "flanforge-base".to_owned(),
        runner_label: "macos-tart-project".to_owned(),
        job_name: "build".to_owned(),
        allowed_workflows: vec!["build.yml".to_owned()],
        allowed_events: vec!["push".to_owned()],
        allowed_refs: vec!["refs/heads/main".to_owned()],
        allowed_ref_prefixes: Vec::new(),
        require_protected_ref: false,
        network: "softnet".to_owned(),
        cpu_count: 4,
        memory_mb: 8_192,
        storage_mb: 40_960,
        boot_timeout_seconds: 120,
        idle_timeout_seconds: 300,
        job_timeout_seconds: 3_600,
        cleanup_timeout_seconds: 60,
        warm_template: None,
        regeneration_workflow: None,
        reap: true,
        hot: None,
    }
}

fn config_of(profiles: Vec<(&str, Profile)>) -> Config {
    Config {
        runtime: RuntimeConfig {
            vm_prefix: "ci-".to_owned(),
            max_running_vms: 2,
            max_hot_vms: 1,
            host_cpu_count: None,
            host_memory_mb: None,
            host_storage_mb: None,
            min_storage_free_mb: None,
            poll_seconds: 1,
        },
        profiles: profiles
            .into_iter()
            .map(|(name, profile)| NamedProfile { name: name.to_owned(), profile })
            .collect(),
    }
}

fn config() -> Config {
    config_of(vec![("project", profile())])
}

fn budgeted() -> Config {
    let mut config = config();
    config.runtime.host_cpu_count = Some(4);
    config.runtime.host_memory_mb = Some(8_192);
    config
}

fn request(run_id: u64) -> AllocationRequest {
    AllocationRequest {
        profile: "project".to_owned(),
        repository: "owner/project".to_owned(),
        run_id,
        run_attempt: 1,
    }
}

fn allocation(name: &str, state: AllocationState) -> Allocation {
    let mut allocation = Allocation::new(
        uuid_text(fresh_uuid()),
        request(42),
        name.to_owned(),
        name.to_owned(),
        AllocationMode::Cold,
        size(),
        NOW,
    );
    allocation.state = state;
    allocation
}

/// Every live state may be cleaned, a cleaned one may end in every way, and the
/// boot runs forward.
fn edges() -> LifecycleEdges {
    let forward = [
        AllocationState::Requested,
        AllocationState::Preparing,
        AllocationState::Booting,
        AllocationState::Registering,
        AllocationState::WaitingForJob,
        AllocationState::Ready,
        AllocationState::Running,
    ];
    let mut edges = Vec::new();
    for (place, from) in forward.iter().enumerate() {
        edges.push((*from, AllocationState::Cleaning));
        if let Some(to) = forward.get(place + 1) {
            edges.push((*from, *to));
        }
    }
    for end in [AllocationState::Completed, AllocationState::Failed, AllocationState::Cancelled] {
        edges.push((AllocationState::Cleaning, end));
    }
    // What the lifecycle says of one edge it refuses.
    let refusals = vec![EdgeRefusal {
        from: AllocationState::Booting,
        to: AllocationState::Running,
        message: "an allocation cannot move from booting to running".to_owned(),
    }];
    LifecycleEdges { edges, refusals }
}

fn record(
    manager: &mut AllocationManager,
    id: &String,
    change: Change,
) -> Result<(), ManagerError> {
    let update = manager.update(id, change, &edges(), NOW + 1)?;
    manager.commit(update.record)
}

/// Drives one allocation to its end as the daemon would, with a cleanup that
/// always comes to `outcome`. Answers the last step and the teardowns run.
fn drive(
    manager: &mut AllocationManager,
    fallback: &Allocation,
    requested: AllocationState,
    outcome: Result<(), WorkerError>,
) -> (TerminalStep, usize) {
    let mut cleanups = 0;
    let mut step = TerminalStep::Clean;
    loop {
        let event = match &step {
            TerminalStep::Clean | TerminalStep::CleanAgain { .. } => {
                TerminalEvent::Recorded(match manager.ensure_cleaning(&fallback.id) {
                    Ok(Some(change)) => record(manager, &fallback.id, change),
                    Ok(None) => Ok(()),
                    Err(error) => Err(error),
                })
            }
            TerminalStep::Release { .. } => TerminalEvent::Released,
            TerminalStep::Cleanup { .. } => {
                cleanups += 1;
                TerminalEvent::CleanedUp(outcome.clone())
            }
            TerminalStep::RecordFailure { error } => {
                let change = Change::Error(cleanup_failure(error));
                TerminalEvent::Recorded(record(manager, &fallback.id, change))
            }
            TerminalStep::Transition { terminal } => TerminalEvent::Recorded(record(
                manager,
                &fallback.id,
                Change::Transition(*terminal),
            )),
            TerminalStep::Done(_) | TerminalStep::Failed(_) => return (step, cleanups),
        };
        step = manager.ensure_terminal(step, event, fallback, requested);
    }
}

fn admission(
    manager: &AllocationManager,
    run_id: u64,
) -> Result<Admission, ManagerError> {
    manager.ensure_admitted(
        &budgeted(),
        &request(run_id),
        AllocationMode::Cold,
        size(),
        Ok(Vec::new()),
        Ok(Vec::new()),
    )
}

#[test]
fn wire_counts_saturate_at_the_contract_bound() {
    assert_eq!(bounded_count(12), 12);
    assert_eq!(bounded_count(usize::MAX), 65_535);
}

#[test]
fn counts_are_exact_up_to_the_bound() {
    assert_eq!(bounded_count(0), 0);
    assert_eq!(bounded_count(65_535), 65_535);
    assert_eq!(bounded_count(65_536), 65_535);
}

#[test]
fn cancelling_a_waiting_for_job_allocation_reaches_terminal_and_frees_capacity() {
    let mut manager = AllocationManager::new(ManagerTuning::default());
    let stuck = allocation("ci-project-42-1", AllocationState::WaitingForJob);
    manager.insert(stuck.clone());
    assert!(manager.is_supervised(&stuck.id));
    assert!(matches!(
        admission(&manager, 43),
        Err(ManagerError::Busy { reason: BusyReason::Budget, .. })
    ));

    let listed = manager.list(NOW + 5);
    assert_eq!(listed.len(), 1);
    assert_eq!(listed[0].id, stuck.id);
    assert_eq!(listed[0].age_seconds, 5);

    // A worker is listening, so the cancel only signals it.
    match manager.cancel_by_id(&stuck.id) {
        Ok(step) => {
            assert!(step.is_cancelling());
            assert!(matches!(step, CancelStep::Signalled(_)));
        }
        Err(error) => panic!("cancel: {error:?}"),
    }
    let requested = finish_worker(true, &Err(WorkerError::new("cancelled".to_owned())));
    let (step, cleanups) = drive(&mut manager, &stuck, requested, Ok(()));
    assert_eq!(step, TerminalStep::Done(AllocationState::Cancelled));
    assert_eq!(cleanups, 1);
    assert_eq!(manager.get(&stuck.id).map(|found| found.state), Ok(AllocationState::Cancelled));
    assert!(
        matches!(admission(&manager, 43), Ok(Admission::Fits { .. })),
        "the freed slot admits the next request"
    );
}

#[test]
fn cancelling_an_unsupervised_recovered_allocation_reaches_terminal() {
    let mut manager = AllocationManager::new(ManagerTuning::default());
    let interrupted = allocation("ci-unsupervised", AllocationState::WaitingForJob);
    assert!(manager.ensure_entries_loaded(&vec![interrupted.clone()]).is_ok());
    assert!(!manager.is_supervised(&interrupted.id));

    let step = manager.cancel_by_id(&interrupted.id);
    assert_eq!(step, Ok(CancelStep::Drive(interrupted.clone())));
    let (step, _) = drive(&mut manager, &interrupted, AllocationState::Cancelled, Ok(()));
    manager.finish_cancel(&interrupted.id);
    assert_eq!(step, TerminalStep::Done(AllocationState::Cancelled));
}

#[test]
fn an_unknown_id_is_not_found() {
    let mut manager = AllocationManager::new(ManagerTuning::default());
    let id = uuid_text(fresh_uuid());
    assert_eq!(manager.cancel_by_id(&id), Err(ManagerError::NotFound(id.clone())));
    assert_eq!(manager.get(&id), Err(ManagerError::NotFound(id.clone())));
    assert_eq!(manager.ensure_cleaning(&id).is_err(), true);
    assert_eq!(
        manager.get_authorized(&config(), &id).map(|_| ()),
        Err(ManagerError::NotFound(id))
    );
}

#[test]
fn two_overlapping_authorized_cancels_clean_up_once() {
    let mut manager = AllocationManager::new(ManagerTuning::default());
    let interrupted = allocation("ci-unsupervised", AllocationState::WaitingForJob);
    assert!(manager.ensure_entries_loaded(&vec![interrupted.clone()]).is_ok());

    let refused = AuthorizationError { message: "repository does not match".to_owned() };
    assert!(matches!(
        manager.cancel_authorized(interrupted.clone(), Err(refused)),
        Err(ManagerError::Authorization(_))
    ));

    // The first cancel drives and the second one waits for its answer.
    let first = manager.cancel_authorized(interrupted.clone(), Ok(()));
    assert_eq!(first, Ok(CancelStep::Drive(interrupted.clone())));
    let second = manager.cancel_authorized(interrupted.clone(), Ok(()));
    assert_eq!(second, Ok(CancelStep::Await));

    let awaited = manager.begin_shutdown(0, 30 * SECOND);
    assert_eq!(awaited, vec![interrupted.id.clone()]);
    let (step, cleanups) = drive(&mut manager, &interrupted, AllocationState::Cancelled, Ok(()));
    manager.finish_cancel(&interrupted.id);
    assert_eq!(step, TerminalStep::Done(AllocationState::Cancelled));
    assert_eq!(cleanups, 1);
    let leaked = manager.collect_leaks(&awaited);
    assert!(ShutdownReport::new(leaked, 30 * SECOND, 0, SECOND).is_clean());

    let found = match manager.get(&interrupted.id) {
        Ok(found) => found,
        Err(error) => panic!("get: {error:?}"),
    };
    assert_eq!(found.error, None);
    let repeated = manager.cancel_authorized(found.clone(), Ok(()));
    assert_eq!(repeated, Ok(CancelStep::Answer(found)));
}

#[test]
fn cancelling_an_entry_whose_worker_gave_up_reaches_terminal_and_frees_capacity() {
    let mut manager = AllocationManager::new(ManagerTuning::default());
    let abandoned = allocation("ci-project-42-1", AllocationState::WaitingForJob);
    manager.insert(abandoned.clone());

    // A supervised entry is only signalled, and the worker still owns it.
    assert!(matches!(manager.cancel_by_id(&abandoned.id), Ok(CancelStep::Signalled(_))));
    manager.release_supervision(&abandoned.id);
    assert!(!manager.is_supervised(&abandoned.id));
    assert!(manager.get(&abandoned.id).is_ok_and(|found| !found.state.is_terminal()));

    assert!(matches!(manager.cancel_by_id(&abandoned.id), Ok(CancelStep::Drive(_))));
    let (step, _) = drive(&mut manager, &abandoned, AllocationState::Cancelled, Ok(()));
    assert_eq!(step, TerminalStep::Done(AllocationState::Cancelled));
    assert!(matches!(admission(&manager, 43), Ok(Admission::Fits { .. })));
}

#[test]
fn exhausted_cleanup_ends_failed_and_says_why() {
    let mut manager = AllocationManager::new(ManagerTuning::default());
    let failing = allocation("ci-project-42-1", AllocationState::Running);
    manager.insert(failing.clone());
    let outcome = Err(WorkerError::new("the guest is stuck".to_owned()));
    let (step, cleanups) =
        drive(&mut manager, &failing, AllocationState::Completed, outcome);
    assert_eq!(step, TerminalStep::Done(AllocationState::Failed));
    assert_eq!(cleanups, 1);
    assert_eq!(
        manager.get(&failing.id).map(|found| found.error),
        Ok(Some("cleanup failed: the guest is stuck".to_owned()))
    );
}

#[test]
fn teardown_runs_though_the_entry_is_gone() {
    let mut manager = AllocationManager::new(ManagerTuning::default());
    let gone = allocation("ci-project-42-1", AllocationState::Running);
    let (step, cleanups) = drive(&mut manager, &gone, AllocationState::Completed, Ok(()));
    assert_eq!(cleanups, 1);
    assert_eq!(step, TerminalStep::Failed(ManagerError::NotFound(gone.id)));
}

#[test]
fn a_finished_allocation_is_not_torn_down_again() {
    let mut manager = AllocationManager::new(ManagerTuning::default());
    let finished = allocation("ci-project-42-1", AllocationState::Completed);
    manager.insert(finished.clone());
    let (step, cleanups) = drive(&mut manager, &finished, AllocationState::Failed, Ok(()));
    assert_eq!(step, TerminalStep::Done(AllocationState::Completed));
    assert_eq!(cleanups, 0);
}

#[test]
fn cleanup_is_tried_three_times_and_once_under_a_stop() {
    let failure = || Err(WorkerError::new("stuck".to_owned()));
    let mut run = CleanupRun::new(CleanupBudget::allow(60 * SECOND));
    assert_eq!(run.attempted(failure()), CleanupStep::Pause);
    assert_eq!(run.attempted(failure()), CleanupStep::Pause);
    assert_eq!(
        run.attempted(failure()),
        CleanupStep::Exhausted { error: WorkerError::new("stuck".to_owned()), is_leaked: false }
    );

    let mut bounded = CleanupRun::new(CleanupBudget::allow(60 * SECOND).until(70 * SECOND));
    assert_eq!(
        bounded.attempted(Err(abandoned_cleanup())),
        CleanupStep::Exhausted { error: abandoned_cleanup(), is_leaked: true }
    );
    let mut lucky = CleanupRun::new(CleanupBudget::allow(60 * SECOND));
    assert_eq!(lucky.attempted(failure()), CleanupStep::Pause);
    assert_eq!(lucky.attempted(Ok(())), CleanupStep::Succeeded);
    assert_eq!(
        abandoned_cleanup().message(),
        "cleanup was abandoned when the shutdown grace expired"
    );
}

#[test]
fn the_worker_end_names_the_state_it_asks_for() {
    let failed = Err(WorkerError::new("boom".to_owned()));
    assert_eq!(finish_worker(false, &Ok(())), AllocationState::Completed);
    assert_eq!(finish_worker(false, &failed), AllocationState::Failed);
    assert_eq!(finish_worker(true, &Ok(())), AllocationState::Cancelled);
    assert_eq!(finish_worker(true, &failed), AllocationState::Cancelled);
}

#[test]
fn a_lost_worker_is_torn_down_exactly_once() {
    let mut guard = WorkerTeardown::new(7u32);
    assert_eq!(guard.ensure_finished(), Some(7));
    assert_eq!(guard.ensure_finished(), None);
    assert!(!is_image_suspect(&Err(WorkerError::capacity("full".to_owned()))));
    assert!(is_image_suspect(&Err(worker_vanished())));
    assert!(!is_image_suspect(&Ok(())));
}

/// The steps of a worker's end, each of which came to `outcome`.
fn worker_end(
    result: &Result<(), WorkerError>,
    outcome: &Result<(), ManagerError>,
) -> Vec<WorkerEndStep> {
    let mut steps = vec![begin_worker_end(result)];
    while let Some(step) = steps.last().copied() {
        if step == WorkerEndStep::Done {
            break;
        }
        steps.push(next_worker_end(step, outcome));
    }
    steps
}

/// A failing image is quarantined first, and supervision is given up last, even
/// where a step between them fails.
#[test]
fn supervision_is_released_after_everything_else() {
    let finish = [WorkerEndStep::Finish, WorkerEndStep::Release, WorkerEndStep::Done];
    for outcome in [Ok(()), Err(ManagerError::ShuttingDown)] {
        assert_eq!(worker_end(&Ok(()), &outcome), finish);
        let refused = Err(WorkerError::capacity("full".to_owned()));
        let steps = worker_end(&refused, &outcome);
        assert_eq!(steps[0], WorkerEndStep::RecordError);
        assert_eq!(steps[1..], finish);
        let steps = worker_end(&Err(worker_vanished()), &outcome);
        assert_eq!(steps[..2], [WorkerEndStep::Quarantine, WorkerEndStep::RecordError]);
        assert_eq!(steps[2..], finish);
    }
}

#[test]
fn a_wait_ends_with_the_allocation_or_with_its_channel() {
    assert_eq!(
        AllocationManager::await_terminal(AllocationState::Cleaning, false),
        AwaitStep::Wait
    );
    assert_eq!(
        AllocationManager::await_terminal(AllocationState::Cleaning, true),
        AwaitStep::Read
    );
    for end in [AllocationState::Completed, AllocationState::Failed, AllocationState::Cancelled] {
        assert_eq!(AllocationManager::await_terminal(end, false), AwaitStep::Read);
    }
}

#[test]
fn an_unpermitted_edge_is_refused_and_changes_nothing() {
    let mut manager = AllocationManager::new(ManagerTuning::default());
    let held = allocation("ci-project-42-1", AllocationState::Booting);
    manager.insert(held.clone());
    let refused = record(&mut manager, &held.id, Change::Transition(AllocationState::Running));
    let told = "an allocation cannot move from booting to running";
    assert_eq!(
        refused,
        Err(ManagerError::Transition(StateTransitionError {
            from: AllocationState::Booting,
            to: AllocationState::Running,
            message: Some(told.to_owned()),
        }))
    );
    assert_eq!(refused.map_err(|error| error.message()), Err(told.to_owned()));
    // An edge nothing is told of is refused all the same.
    assert_eq!(
        record(&mut manager, &held.id, Change::Transition(AllocationState::Completed)),
        Err(ManagerError::Transition(StateTransitionError {
            from: AllocationState::Booting,
            to: AllocationState::Completed,
            message: None,
        }))
    );
    assert_eq!(manager.get(&held.id), Ok(held.clone()));
    assert_eq!(
        record(&mut manager, &held.id, Change::RunnerId(0)),
        Err(ManagerError::InvalidRunnerId)
    );
    assert_eq!(
        manager.update(&"nobody".to_owned(), Change::RunnerId(-1), &edges(), NOW),
        Err(ManagerError::InvalidRunnerId)
    );
    assert_eq!(record(&mut manager, &held.id, Change::RunnerId(9)), Ok(()));
    assert_eq!(record(&mut manager, &held.id, Change::VmCreated), Ok(()));
    match manager.get(&held.id) {
        Ok(found) => {
            assert_eq!(found.runner_id, Some(9));
            assert!(found.vm_created);
            assert_eq!(found.updated_at_unix, NOW + 1);
        }
        Err(error) => panic!("get: {error:?}"),
    }
}

fn status_of(
    manager: &AllocationManager,
    config: Config,
    machines: Option<Vec<HostMachine>>,
    records: Result<Vec<WarmImageRecord>, StoreError>,
    hot: Result<Vec<HotGuest>, StoreError>,
) -> (bool, bool, usize, u32, u32, u32) {
    let handle = ConfigHandle::new(Arc::new(config), Vec::new());
    let retained = match &records {
        Ok(found) => found.iter().map(|_| None).collect(),
        Err(_) => Vec::new(),
    };
    let status = manager.status_snapshot(&handle, machines.as_ref(), &records, &retained, &hot);
    (
        status.is_warm_image_store_visible,
        status.capacity.is_host_visible,
        status.warm_images.len(),
        status.capacity.hot_running,
        status.capacity.foreign_running,
        status.capacity.active_allocations,
    )
}

fn unavailable() -> StoreError {
    StoreError { message: "unavailable".to_owned() }
}

#[test]
fn status_reports_when_warm_image_authority_is_unavailable() {
    let manager = AllocationManager::new(ManagerTuning::default());
    let status =
        status_of(&manager, config(), Some(Vec::new()), Err(unavailable()), Ok(Vec::new()));
    assert!(!status.0);
    assert_eq!(status.2, 0);
}

#[test]
fn status_reports_when_host_inventory_is_unavailable() {
    let manager = AllocationManager::new(ManagerTuning::default());
    let status = status_of(&manager, config(), None, Ok(Vec::new()), Ok(Vec::new()));
    assert!(!status.1);
    assert!(status.0);
}

/// The pool holds a slot continuously, and an operator must be able to see that
/// rather than read one active allocation against two slots.
#[test]
fn status_reports_the_slot_an_idle_hot_guest_holds() {
    let name = "ci-project-9-1";
    let mut guest = HotGuest::new(
        name.to_owned(),
        "project".to_owned(),
        HotLane::Protected,
        size(),
        CloneSource {
            name: "flanforge-base".to_owned(),
            kind: CloneKind::Template,
            base_fingerprint: None,
            fallback_reason: None,
        },
        None,
        None,
        NOW,
    );
    guest.state = HotState::Idle;
    let machines = vec![HostMachine {
        name: name.to_owned(),
        state: MachineState::Running,
        age_seconds: Some(60),
        size: None,
        ownership: MachineOwnership::Owned,
    }];
    let manager = AllocationManager::new(ManagerTuning::default());
    let capacity = manager.capacity_status(&config(), Some(&machines), &vec![guest.clone()]);
    assert_eq!(capacity.hot_running, 1, "the pool's slot is reported");
    assert_eq!(capacity.max_hot_vms, 1);
    assert_eq!(capacity.max_running_vms, 2);
    // Not foreign: classifying it that way is what the record exists to stop.
    assert_eq!(capacity.foreign_running, 0);
    assert_eq!(capacity.active_allocations, 0);

    let mut present = NameSet::new();
    present.insert(name.to_owned());
    let listed = AllocationManager::hot_list(&vec![guest], &present, NOW + 3);
    assert_eq!(listed.len(), 1);
    assert_eq!(listed[0].vm_name, name);
    assert_eq!(listed[0].state, HotState::Idle);
    assert!(listed[0].is_machine_present);
    assert_eq!(listed[0].age_seconds, 3);
}

#[test]
fn status_says_which_images_are_referenced_and_quarantined() {
    let mut manager = AllocationManager::new(ManagerTuning::default());
    let mut warm = profile();
    warm.warm_template = Some(WarmName::new("project-warm".to_owned(), true, true));
    let config = config_of(vec![("project", warm)]);
    let image = |template: &str| WarmImageRecord {
        profile: "project".to_owned(),
        warm_template: WarmName::new(template.to_owned(), true, true),
        generation: 3,
        base_fingerprint: "aa01".to_owned(),
        produced_by: "producer".to_owned(),
        produced_at_unix: NOW,
        state: WarmImageState::Promoted,
        previous: None,
    };
    assert!(manager.quarantine_warm("project"));
    assert!(!manager.quarantine_warm("project"));
    let statuses = manager.warm_image_status(
        &config,
        &vec![image("project-warm"), image("project-retired")],
        &vec![Some(2), None],
    );
    assert!(statuses[0].is_referenced && !statuses[1].is_referenced);
    assert!(statuses[0].is_quarantined);
    assert_eq!(statuses[0].retained_generations, Some(2));
    manager.record_warm_image(&image("project-warm"));
    assert!(!manager.is_warm_quarantined("project"));
}

#[test]
fn recovery_rebuilds_the_committed_total_from_durable_records() {
    let mut manager = AllocationManager::new(ManagerTuning::default());
    let interrupted = allocation("ci-interrupted", AllocationState::Ready);
    let mut recovery = match manager.recover(Ok(vec![interrupted.clone()])) {
        Ok(recovery) => recovery,
        Err(error) => panic!("recover: {error:?}"),
    };
    // The restart must charge the durable record before anything releases it.
    let capacity = manager.capacity_status(&budgeted(), Some(&Vec::new()), &Vec::new());
    assert_eq!(capacity.active_allocations, 1);
    assert_eq!(capacity.committed_cpu_count, 4);
    assert_eq!(capacity.committed_memory_mb, 8_192);
    assert!(matches!(admission(&manager, 43), Err(ManagerError::Busy { .. })));

    assert_eq!(recovery.allocation().map(|found| found.id.clone()), Some(interrupted.id.clone()));
    recovery.next(RecoveryEvent::Marked(Ok(())));
    let (step, _) = drive(&mut manager, &interrupted, AllocationState::Failed, Ok(()));
    assert_eq!(step, TerminalStep::Done(AllocationState::Failed));
    recovery.next(RecoveryEvent::TornDown(Ok(AllocationState::Failed)));
    assert!(recovery.allocation().is_none());
    let after = manager.capacity_status(&budgeted(), Some(&Vec::new()), &Vec::new());
    assert_eq!(after.active_allocations, 0);
    assert!(matches!(admission(&manager, 43), Ok(Admission::Fits { .. })));
}

#[test]
fn summaries_come_oldest_first() {
    let mut manager = AllocationManager::new(ManagerTuning::default());
    let mut young = allocation("ci-young", AllocationState::Ready);
    young.created_at_unix = NOW - 1;
    let mut old = allocation("ci-old", AllocationState::Ready);
    old.created_at_unix = NOW - 90;
    manager.entries.push(Entry { allocation: young, is_supervised: true, is_terminalizing: false });
    manager.entries.push(Entry { allocation: old, is_supervised: true, is_terminalizing: false });
    let listed = manager.list(NOW);
    assert_eq!(listed[0].vm_name, "ci-old");
    assert_eq!(listed[0].age_seconds, 90);
    assert_eq!(listed[1].vm_name, "ci-young");
}

#[test]
fn a_stop_reports_what_it_could_not_finish() {
    let mut manager = AllocationManager::new(ManagerTuning::default());
    let mut stuck = allocation("ci-project-42-1", AllocationState::Running);
    stuck.vm_created = true;
    stuck.runner_id = Some(11);
    manager.insert(stuck.clone());
    let awaited = manager.begin_shutdown(100 * SECOND, 8 * SECOND);
    assert!(manager.is_closing);
    // An eighth of the grace is kept back for the records.
    assert_eq!(manager.teardown_deadline, Some(107 * SECOND));
    assert_eq!(
        manager.teardown_budget(60 * SECOND).remaining(100 * SECOND),
        Some(7 * SECOND)
    );

    manager.record_leak(&stuck, LeakReason::CleanupFailed);
    let leaked = manager.collect_leaks(&awaited);
    assert_eq!(leaked.len(), 1, "one allocation is reported once");
    assert_eq!(leaked[0].reason, LeakReason::CleanupFailed);
    assert_eq!(leaked[0].runner_name(), Some(format!("flanforged-{}", stuck.id)));
    let report = ShutdownReport::new(leaked, 8 * SECOND, 100 * SECOND, 109 * SECOND);
    assert!(!report.is_clean());
    assert_eq!(report.spent(), 9 * SECOND);
    assert_eq!(report.grace(), 8 * SECOND);
    assert_eq!(
        LeakReason::CleanupFailed.as_str(),
        "cleanup did not complete within the shutdown grace"
    );
}

#[test]
fn unfinished_work_leaks_as_not_terminal() {
    let mut manager = AllocationManager::new(ManagerTuning::default());
    let stuck = allocation("ci-project-42-1", AllocationState::Running);
    manager.insert(stuck.clone());
    let awaited = manager.begin_shutdown(0, SECOND);
    let leaked = manager.collect_leaks(&awaited);
    assert_eq!(leaked.len(), 1);
    assert_eq!(leaked[0].reason, LeakReason::NotTerminal);
    assert_eq!(leaked[0].runner_name(), None);
}

#[test]
fn a_budget_never_outlives_its_deadline() {
    let open = CleanupBudget::allow(10 * SECOND);
    assert!(!open.is_bounded());
    assert_eq!(open.remaining(5 * SECOND), None);
    assert_eq!(open.limit(30 * SECOND, 0), 30 * SECOND);
    assert_eq!(open.timeout(0), 10 * SECOND);
    let bounded = open.until(20 * SECOND).at_least(15 * SECOND);
    assert_eq!(bounded.allowance(), 15 * SECOND);
    assert_eq!(bounded.remaining(18 * SECOND), Some(2 * SECOND));
    assert_eq!(bounded.limit(30 * SECOND, 18 * SECOND), 2 * SECOND);
    assert_eq!(bounded.timeout(18 * SECOND), 2 * SECOND);
    assert_eq!(bounded.timeout(25 * SECOND), 0);
}

#[test]
fn a_reload_counts_and_an_invalid_one_leaves_the_running_configuration() {
    let fields = |prefix: &str| {
        vec![
            RestartField { name: "state_dir".to_owned(), value: "/private/state".to_owned() },
            RestartField { name: "vm_prefix".to_owned(), value: prefix.to_owned() },
        ]
    };
    let mut handle = ConfigHandle::new(Arc::new(config()), fields("ci-"));
    assert!(handle.restart_pending().is_empty());
    assert_eq!(handle.generation(), 0);
    let refused = ConfigError { message: "invalid".to_owned() };
    assert!(handle.apply(Arc::new(config()), Err(refused)).is_err());
    assert_eq!(handle.generation(), 0);

    let mut next = config();
    next.runtime.max_running_vms = 9;
    assert_eq!(handle.apply(Arc::new(next), Ok(fields("vm-"))), Ok(1));
    assert_eq!(handle.current().runtime.max_running_vms, 9);
    assert_eq!(handle.startup().runtime.max_running_vms, 2);
    assert_eq!(handle.restart_pending(), vec!["vm_prefix".to_owned()]);
    // The field said what it says now once, but not at startup.
    assert_eq!(handle.apply(Arc::new(config()), Ok(fields("vm-"))), Ok(2));
    assert_eq!(handle.restart_pending(), vec!["vm_prefix".to_owned()]);
    assert_eq!(handle.apply(Arc::new(config()), Ok(fields("ci-"))), Ok(3));
    assert!(handle.restart_pending().is_empty());
}

#[test]
fn tokens_match_only_themselves() {
    assert!(is_token_match("secret", "secret"));
    assert!(!is_token_match("secret", "Secret"));
    assert!(!is_token_match("secret", "secrets"));
    assert!(!is_token_match("", ""));
    assert!(!is_token_match("secret", ""));
}

#[test]
fn a_token_file_is_read_without_the_space_around_it() {
    assert_eq!(read_token("  abc\n"), Some("abc".to_owned()));
    assert_eq!(read_token("a b"), Some("a b".to_owned()));
    assert_eq!(read_token(" \t\r\n"), None);
    assert_eq!(read_token(""), None);
}

/// Every character there is, trimmed exactly where `str::trim` trims it.
#[test]
fn white_space_is_what_the_standard_library_trims() {
    for point in 0..=0x10_ffff_u32 {
        if let Some(character) = char::from_u32(point) {
            let text = format!("{character}x{character}");
            let expected = if character.is_whitespace() { "x".to_owned() } else { text.clone() };
            assert_eq!(read_token(&text), Some(expected), "U+{point:04X}");
        }
    }
}

#[test]
fn a_token_is_kept_or_made_afresh() {
    assert_eq!(ensure_operator_token(Some("held".to_owned())), ("held".to_owned(), false));
    let (first, is_new) = ensure_operator_token(None);
    assert!(is_new);
    assert_eq!(first.len(), 64);
    assert!(first.chars().all(|digit| digit.is_ascii_hexdigit() && !digit.is_ascii_uppercase()));
    assert_ne!(first, ensure_operator_token(None).0);
    assert_eq!(operator_token_path("/private/state"), "/private/state/operator.token");
    assert_eq!(operator_token_path("/private/state/"), "/private/state/operator.token");
}

#[test]
fn identifiers_read_as_hyphenated_and_plain_digits() {
    let value: u128 = 0x0123_4567_89ab_cdef_0123_4567_89ab_cdef;
    assert_eq!(uuid_text(value), "01234567-89ab-cdef-0123-456789abcdef");
    assert_eq!(uuid_digits(value), "0123456789abcdef0123456789abcdef");
    assert_eq!(
        operator_token(value, 1),
        "0123456789abcdef0123456789abcdef00000000000000000000000000000001"
    );
    assert_ne!(fresh_uuid(), fresh_uuid());
    assert_ne!(uuid_text(1), uuid_text(2));
}
