use std::sync::Arc;

use flanforge_manager::config_reload::ConfigHandle;
use flanforge_manager::domain::allocation::{
    Allocation, AllocationMode, AllocationRequest, AllocationState, CloneKind, CloneSource,
    GuestSize,
};
use flanforge_manager::domain::hot::{HotGuest, HotLane, HotState};
use flanforge_manager::domain::image::{WarmImageRecord, WarmImageState, WarmName};
use flanforge_manager::domain::profile::{Config, NamedProfile, Profile, RuntimeConfig};
use flanforge_manager::error::{ManagerError, StoreError};
use flanforge_manager::event::{EventKind, Fact, Payload};
use flanforge_manager::ident::{fresh_uuid, uuid_text};
use flanforge_manager::names::NameSet;
use flanforge_manager::reaper::images::{plan_pruned_records, regenerating_profiles};
use flanforge_manager::reaper::plan::{
    plan_sweep, reserved_image_names, unaged_candidates, ReapAuthorization, ReapCandidate,
    ReapInputs,
};
use flanforge_manager::reaper::sweep::{
    cleanup_allowance, next_opening, open_sweep, SweepInertReason, SweepOpening, SweepReport,
    SweepRun, SweepStep,
};
use flanforge_manager::service::AllocationManager;
use flanforge_manager::tuning::ManagerTuning;
use flanforge_manager::worker::error::WorkerError;
use flanforge_manager::worker::model::{
    HostMachine, MachineOwnership, MachineState, RetiredImage,
};

/// The prefix every fixture configuration delegates to the daemon.
const PREFIX: &str = "ci-";

const DAY: u64 = 90_000;

const NOW: u64 = 1_755_324_251;

fn size() -> GuestSize {
    GuestSize { cpu_count: 4, memory_mb: 8_192, storage_mb: 40_960 }
}

fn profile() -> Profile {
    Profile {
        repository: "owner/project".to_owned(),
        template: "flanforge-base".to_owned(),
        runner_label: "macos-tart-project".to_owned(),
        job_name: "build".to_owned(),
        allowed_workflows: vec!["build.yml".to_owned()],
        allowed_events: vec!["push".to_owned()],
        allowed_refs: vec!["refs/heads/main".to_owned()],
        allowed_ref_prefixes: Vec::new(),
        require_protected_ref: false,
        network: "softnet".to_owned(),
        cpu_count: 4,
        memory_mb: 8_192,
        storage_mb: 40_960,
        boot_timeout_seconds: 120,
        idle_timeout_seconds: 300,
        job_timeout_seconds: 3_600,
        cleanup_timeout_seconds: 60,
        warm_template: None,
        regeneration_workflow: None,
        reap: true,
        hot: None,
    }
}

fn config_of(profiles: Vec<(&str, Profile)>) -> Config {
    Config {
        runtime: RuntimeConfig {
            vm_prefix: "ci-".to_owned(),
            max_running_vms: 2,
            max_hot_vms: 1,
            host_cpu_count: None,
            host_memory_mb: None,
            host_storage_mb: None,
            min_storage_free_mb: None,
            poll_seconds: 1,
        },
        profiles: profiles
            .into_iter()
            .map(|(name, profile)| NamedProfile { name: name.to_owned(), profile })
            .collect(),
    }
}

fn config() -> Config {
    config_of(vec![("project", profile())])
}

fn warm_profile() -> Profile {
    let mut warm = profile();
    warm.warm_template = Some(WarmName::new("project-warm".to_owned(), true, true));
    warm.regeneration_workflow = Some("build.yml".to_owned());
    warm
}

fn warm_config() -> Config {
    config_of(vec![("project", warm_profile())])
}

/// The fixture configuration with the record's profile removed entirely.
fn config_without_the_recorded_profile() -> Config {
    config_of(vec![("other", profile())])
}

fn machine(name: &str, age_seconds: u64) -> HostMachine {
    HostMachine {
        name: name.to_owned(),
        state: MachineState::Stopped,
        age_seconds: Some(age_seconds),
        size: None,
        // The name-addressed rule: the configured prefix is the only ownership
        // evidence a backend without per-VM metadata has.
        ownership: if name.starts_with(PREFIX) {
            MachineOwnership::Owned
        } else {
            MachineOwnership::Foreign
        },
    }
}

fn unaged(name: &str) -> HostMachine {
    HostMachine { age_seconds: None, ..machine(name, 0) }
}

fn allocation(vm_name: &str, state: AllocationState, mode: AllocationMode) -> Allocation {
    let mut allocation = Allocation::new(
        uuid_text(fresh_uuid()),
        AllocationRequest {
            profile: "project".to_owned(),
            repository: "owner/project".to_owned(),
            run_id: 42,
            run_attempt: 1,
        },
        vm_name.to_owned(),
        "macos-tart-project-sweep".to_owned(),
        mode,
        size(),
        NOW,
    );
    allocation.state = state;
    allocation.vm_created = true;
    allocation
}

fn record(warm_template: &str, generation: u64) -> WarmImageRecord {
    WarmImageRecord {
        profile: "project".to_owned(),
        warm_template: WarmName::new(warm_template.to_owned(), true, true),
        generation,
        base_fingerprint: "aa01".to_owned(),
        produced_by: uuid_text(fresh_uuid()),
        produced_at_unix: 1_755_324_251,
        state: WarmImageState::Promoted,
        previous: None,
    }
}

fn hot_guest(name: &str, state: HotState) -> HotGuest {
    let mut guest = HotGuest::new(
        name.to_owned(),
        "project".to_owned(),
        HotLane::Protected,
        size(),
        CloneSource {
            name: "flanforge-base".to_owned(),
            kind: CloneKind::Template,
            base_fingerprint: None,
            fallback_reason: None,
        },
        None,
        None,
        NOW,
    );
    guest.state = state;
    guest
}

fn planned(
    config: &Config,
    machines: Vec<HostMachine>,
    allocations: Vec<Allocation>,
    images: Vec<WarmImageRecord>,
    hot: Vec<HotGuest>,
) -> Vec<ReapCandidate> {
    plan_sweep(&ReapInputs {
        config,
        machines: &machines,
        allocations: &allocations,
        images: &images,
        hot: &hot,
    })
}

/// A run over these records and this listing, with no allocation and no pool.
fn begun(
    is_dry_run: bool,
    config: &Config,
    images: &Vec<WarmImageRecord>,
    machines: &Vec<HostMachine>,
) -> SweepRun {
    match SweepRun::begin(
        is_dry_run,
        config,
        &Vec::new(),
        Ok(images.clone()),
        Ok(Vec::new()),
        Ok(machines.clone()),
    ) {
        Ok(run) => run,
        Err(error) => panic!("begin: {error:?}"),
    }
}

/// One pass as the daemon runs it: each candidate is re-checked against `live`
/// before the backend is asked, and a backend deletes whatever it is asked to.
fn sweep(
    manager: &AllocationManager,
    is_dry_run: bool,
    config: &Config,
    live: &Config,
    machines: &Vec<HostMachine>,
    images: &Vec<WarmImageRecord>,
) -> (SweepReport, Vec<String>) {
    let allocations = manager.allocation_snapshot();
    let hot = Vec::new();
    let inputs = ReapInputs { config, machines, allocations: &allocations, images, hot: &hot };
    let mut run = match manager.sweep(
        is_dry_run,
        config,
        Ok(images.clone()),
        Ok(Vec::new()),
        Ok(machines.clone()),
    ) {
        Ok(run) => run,
        Err(error) => panic!("sweep: {error:?}"),
    };
    let mut deleted = Vec::new();
    loop {
        match run.next() {
            SweepStep::Reap { place } => {
                let candidate = run.planned[place].clone();
                let now = ReapInputs { config: live, ..inputs };
                let reserved = reserved_image_names(live);
                let is_deleted = match manager.reap(&candidate, true, &now, &reserved, 300) {
                    Some(request) => {
                        deleted.push(request.name.clone());
                        true
                    }
                    None => false,
                };
                run.reaped(&Ok(is_deleted));
            }
            SweepStep::PlanPrune => {
                let regenerating = regenerating_profiles(&allocations);
                run.plan_prune(live, &regenerating);
            }
            SweepStep::RemoveRecord { .. } => run.record_removed(true),
            SweepStep::SweepImages => {
                let request = run.image_sweep(live);
                let retired = vec![RetiredImage {
                    profile: "project".to_owned(),
                    generation: 1,
                    age_seconds: 7_200,
                    is_deleted: !request.is_dry_run,
                    reason: "fixture".to_owned(),
                }];
                return (run.report(retired, NOW), deleted);
            }
        }
    }
}

#[test]
fn plan_sweep_skips_referenced_images_active_allocations_and_non_prefix_names() {
    let config = warm_config();
    let machines = vec![
        machine("flanforge-base", DAY),
        machine("project-warm", DAY),
        machine("project-warm.previous", DAY),
        machine("someones-laptop", DAY),
        machine("ci-project-42-1", DAY),
    ];
    let allocations =
        vec![allocation("ci-project-42-1", AllocationState::Running, AllocationMode::Cold)];
    let planned =
        planned(&config, machines, allocations, vec![record("project-warm", 3)], Vec::new());
    assert!(planned.is_empty(), "{planned:?}");
}

/// The configured prefix is the ownership boundary, so a prefixed name no
/// record and no live allocation claims is the daemon's own orphan.
#[test]
fn plan_sweep_authorizes_a_prefixed_name_no_record_claims() {
    let planned = planned(
        &config(),
        vec![machine("ci-unknown-9-1", DAY)],
        Vec::new(),
        Vec::new(),
        Vec::new(),
    );
    assert_eq!(planned.len(), 1);
    assert_eq!(
        planned.first().map(|candidate| &candidate.authorization),
        Some(&ReapAuthorization::Prefix)
    );
}

/// The prefix authorizes nothing outside itself.
#[test]
fn a_non_prefixed_name_with_no_record_is_never_a_candidate() {
    let planned = planned(
        &config(),
        vec![
            machine("someones-laptop", DAY),
            machine("devboxvm", DAY),
            machine("flanforge-base", DAY),
        ],
        Vec::new(),
        Vec::new(),
        Vec::new(),
    );
    assert!(planned.is_empty(), "{planned:?}");
}

/// An active allocation still holds its prefixed name, whatever the prefix
/// would otherwise authorize.
#[test]
fn a_prefixed_name_an_active_allocation_holds_is_never_a_candidate() {
    for state in [
        AllocationState::Requested,
        AllocationState::Preparing,
        AllocationState::Booting,
        AllocationState::Registering,
        AllocationState::WaitingForJob,
        AllocationState::Ready,
        AllocationState::Running,
        AllocationState::Cleaning,
    ] {
        let planned = planned(
            &config(),
            vec![machine("ci-project-42-1", DAY)],
            vec![allocation("ci-project-42-1", state, AllocationMode::Cold)],
            Vec::new(),
            Vec::new(),
        );
        assert!(planned.is_empty(), "{state:?}: {planned:?}");
    }
}

#[test]
fn the_reaper_still_collects_an_orphan_while_a_non_terminal_allocation_exists() {
    let orphan = allocation("ci-project-41-1", AllocationState::Failed, AllocationMode::Cold);
    let active = allocation("ci-project-42-1", AllocationState::Booting, AllocationMode::Cold);
    let planned = planned(
        &config(),
        vec![machine("ci-project-41-1", DAY), machine("ci-project-42-1", DAY)],
        vec![orphan.clone(), active],
        Vec::new(),
        Vec::new(),
    );
    assert_eq!(planned.len(), 1);
    let candidate = planned.first().unwrap_or_else(|| unreachable!("candidate"));
    assert_eq!(candidate.name, "ci-project-41-1");
    assert_eq!(candidate.authorization, ReapAuthorization::Record(orphan.id));
}

#[test]
fn a_regeneration_in_flight_protects_all_three_of_its_names() {
    assert!(planned(
        &warm_config(),
        vec![machine("project-warm.staging", DAY)],
        vec![allocation("ci-project-42-1", AllocationState::Running, AllocationMode::Regenerate)],
        Vec::new(),
        Vec::new(),
    )
    .is_empty());
}

#[test]
fn a_leftover_candidate_image_is_collected_once_nothing_produces() {
    let planned = planned(
        &warm_config(),
        vec![machine("project-warm.staging", DAY)],
        Vec::new(),
        Vec::new(),
        Vec::new(),
    );
    assert_eq!(planned.len(), 1);
    assert_eq!(planned[0].authorization, ReapAuthorization::Staging("project".to_owned()));
}

#[test]
fn reap_false_preserves_images_but_not_an_orphaned_clone() {
    let mut kept = warm_profile();
    kept.reap = false;
    let config = config_of(vec![("project", kept)]);
    let orphan = allocation("ci-project-41-1", AllocationState::Completed, AllocationMode::Cold);
    let planned = planned(
        &config,
        vec![
            machine("project-warm.staging", DAY),
            machine("project-retired", DAY),
            machine("ci-project-41-1", DAY),
        ],
        vec![orphan],
        vec![record("project-retired", 2)],
        Vec::new(),
    );
    assert_eq!(
        planned.iter().map(|candidate| candidate.name.as_str()).collect::<Vec<_>>(),
        vec!["ci-project-41-1"]
    );
}

#[test]
fn an_image_a_repointed_profile_left_behind_is_collected() {
    let planned = planned(
        &warm_config(),
        vec![machine("project-retired", DAY), machine("project-fresh", 4_000)],
        Vec::new(),
        vec![record("project-retired", 2)],
        Vec::new(),
    );
    assert_eq!(planned.len(), 1);
    assert_eq!(
        planned.first().map(|candidate| &candidate.authorization),
        Some(&ReapAuthorization::Image("project".to_owned()))
    );
}

/// The minimum age is what keeps a clone being created right now out of the
/// sweep, so a name it cannot age is skipped even when the prefix owns it.
#[test]
fn a_candidate_below_the_age_floor_or_without_an_age_is_skipped() {
    assert!(planned(
        &config(),
        vec![machine("ci-project-41-1", 60), unaged("ci-project-40-1")],
        Vec::new(),
        Vec::new(),
        Vec::new(),
    )
    .is_empty());
}

#[test]
fn the_age_floors_are_an_hour_and_for_images_a_day() {
    let aged = |name: &str, age: u64, images: Vec<WarmImageRecord>| {
        planned(&warm_config(), vec![machine(name, age)], Vec::new(), images, Vec::new()).len()
    };
    assert_eq!(aged("ci-project-41-1", 3_599, Vec::new()), 0);
    assert_eq!(aged("ci-project-41-1", 3_600, Vec::new()), 1);
    assert_eq!(aged("project-retired", 86_399, vec![record("project-retired", 2)]), 0);
    assert_eq!(aged("project-retired", 86_400, vec![record("project-retired", 2)]), 1);
}

/// Skipping is only safe while it is visible, so a prefix-owned name the sweep
/// cannot age is named.
#[test]
fn a_prefix_owned_name_the_sweep_cannot_age_is_reported() {
    let config = config();
    let machines = vec![
        unaged("ci-project-40-1"),
        unaged("ci-project-42-1"),
        unaged("someones-laptop"),
        machine("ci-project-41-1", DAY),
    ];
    let held = vec![allocation("ci-project-42-1", AllocationState::Running, AllocationMode::Cold)];
    assert_eq!(
        unaged_candidates(&ReapInputs {
            config: &config,
            machines: &machines,
            allocations: &held,
            images: &Vec::new(),
            hot: &Vec::new(),
        }),
        vec!["ci-project-40-1".to_owned()]
    );
}

/// A pool machine belongs to its record, not to an allocation, so the prefix
/// authorization must not collect it however old it is.
#[test]
fn a_hot_machine_is_protected_by_its_record_until_the_record_is_terminal() {
    let config = config();
    let name = "ci-hot-project-0123456789ab";
    for state in [HotState::Provisioning, HotState::Idle, HotState::Draining] {
        let hot = vec![hot_guest(name, state)];
        let aged = vec![machine(name, DAY)];
        let ageless = vec![unaged(name)];
        let inputs = ReapInputs {
            config: &config,
            machines: &aged,
            allocations: &Vec::new(),
            images: &Vec::new(),
            hot: &hot,
        };
        assert!(plan_sweep(&inputs).is_empty(), "{state:?}");
        assert!(
            unaged_candidates(&ReapInputs { machines: &ageless, ..inputs }).is_empty(),
            "{state:?} was reported as an uncollectable orphan"
        );
    }

    let planned = planned(
        &config,
        vec![machine(name, DAY)],
        Vec::new(),
        Vec::new(),
        vec![hot_guest(name, HotState::Evicted)],
    );
    assert_eq!(
        planned.iter().map(|candidate| candidate.authorization.clone()).collect::<Vec<_>>(),
        vec![ReapAuthorization::Prefix],
        "an evicted record no longer names a machine"
    );
}

#[test]
fn a_dry_run_reports_without_deleting() {
    let mut manager = AllocationManager::new(ManagerTuning::default());
    let machines = vec![machine("ci-project-41-1", DAY)];
    let (report, deleted) =
        sweep(&manager, true, &config(), &config(), &machines, &Vec::new());
    assert_eq!(report.planned.len(), 1);
    assert!(report.deleted.is_empty());
    assert!(deleted.is_empty());
    // A dry run never replaces the record of the last deleting pass.
    manager.finish_sweep(report, true);
    assert_eq!(manager.last_sweep(), None);
}

#[test]
fn a_sweep_collects_an_orphan_with_no_record_and_leaves_a_foreign_name() {
    let mut manager = AllocationManager::new(ManagerTuning::default());
    let machines = vec![machine("ci-project-41-1", DAY), machine("someones-laptop", DAY)];
    let (report, deleted) =
        sweep(&manager, false, &config(), &config(), &machines, &Vec::new());
    assert_eq!(report.deleted, vec!["ci-project-41-1".to_owned()]);
    assert!(report.skipped.is_empty(), "{:?}", report.skipped);
    assert_eq!(deleted, vec!["ci-project-41-1".to_owned()]);
    assert_eq!(report.planned[0].authorization, ReapAuthorization::Prefix);
    manager.finish_sweep(report, false);
    assert_eq!(
        manager.last_sweep().map(|kept| kept.deleted.clone()),
        Some(vec!["ci-project-41-1".to_owned()])
    );
}

#[test]
fn a_sweep_deletes_a_recorded_orphan_and_a_prefix_only_name() {
    let mut manager = AllocationManager::new(ManagerTuning::default());
    let orphan = allocation("ci-project-41-1", AllocationState::Failed, AllocationMode::Cold);
    assert!(manager.recover(Ok(vec![orphan.clone()])).is_ok());
    let machines = vec![machine("ci-project-41-1", DAY), machine("ci-stranger-1-1", DAY)];
    let (report, deleted) =
        sweep(&manager, false, &config(), &config(), &machines, &Vec::new());
    let both = vec!["ci-project-41-1".to_owned(), "ci-stranger-1-1".to_owned()];
    assert_eq!(report.deleted, both);
    assert!(report.skipped.is_empty(), "{:?}", report.skipped);
    assert_eq!(deleted, both);
    // The record's own name is authorized by the record, not by the prefix.
    assert_eq!(
        report
            .planned
            .iter()
            .map(|candidate| candidate.authorization.clone())
            .collect::<Vec<_>>(),
        vec![ReapAuthorization::Record(orphan.id), ReapAuthorization::Prefix]
    );
}

#[test]
fn a_removed_profile_leaves_an_image_the_sweep_can_actually_delete() {
    let manager = AllocationManager::new(ManagerTuning::default());
    let config = config_without_the_recorded_profile();
    let stored = vec![record("project-retired", 2)];
    let (report, deleted) = sweep(
        &manager,
        false,
        &config,
        &config,
        &vec![machine("project-retired", DAY)],
        &stored,
    );
    assert_eq!(report.deleted, vec!["project-retired".to_owned()]);
    assert!(report.skipped.is_empty(), "{:?}", report.skipped);
    assert_eq!(deleted, vec!["project-retired".to_owned()]);

    // The image is gone from the host on the next pass, so the record follows.
    let (report, _) = sweep(&manager, false, &config, &config, &Vec::new(), &stored);
    assert_eq!(report.pruned_records, vec!["project".to_owned()]);
}

#[test]
fn a_referenced_record_is_never_pruned_or_reported() {
    let manager = AllocationManager::new(ManagerTuning::default());
    let config = warm_config();
    let stored = vec![record("project-warm", 3)];
    let (report, _) = sweep(&manager, false, &config, &config, &Vec::new(), &stored);
    assert!(report.pruned_records.is_empty(), "{:?}", report.pruned_records);
    let handle = ConfigHandle::new(Arc::new(config), Vec::new());
    let hot = Ok(Vec::new());
    let status =
        manager.status_snapshot(&handle, Some(&Vec::new()), &Ok(stored), &vec![None], &hot);
    assert!(status.warm_images.iter().any(|image| image.profile == "project"));
}

/// A deleting sweep tells every deletion and then its counts; a dry run tells
/// nothing.
#[test]
fn only_a_deleting_sweep_is_told() {
    let manager = AllocationManager::new(ManagerTuning::default());
    let config = config();
    let machines = vec![machine("ci-project-41-1", DAY), machine("ci-project-43-1", DAY)];
    let (report, deleted) = sweep(&manager, false, &config, &config, &machines, &Vec::new());
    assert_eq!(deleted.len(), 2);
    assert_eq!(
        report.facts(false),
        vec![
            Fact::deleted(&"ci-project-41-1".to_owned()),
            Fact::deleted(&"ci-project-43-1".to_owned()),
            Fact {
                kind: EventKind::ReaperSweep,
                allocation_id: None,
                vm_name: None,
                profile: None,
                payload: Payload::Sweep {
                    planned: 2,
                    deleted: 2,
                    skipped: 0,
                    unaged: 0,
                    pruned_records: 0,
                    retired_images: 1,
                },
            },
        ]
    );
    let named = Fact::deleted(&"ci-project-41-1".to_owned());
    assert_eq!(named.kind, EventKind::ReaperDeleted);
    assert_eq!(named.payload, Payload::Deletion { name: "ci-project-41-1".to_owned() });
    let (report, deleted) = sweep(&manager, true, &config, &config, &machines, &Vec::new());
    assert!(deleted.is_empty());
    assert_eq!(report.facts(true), Vec::new());
}

/// A deleting sweep gives the slots of machines past a bound back first.
#[test]
fn only_a_deleting_sweep_bounds_the_pool_first() {
    assert_eq!(open_sweep(true), SweepOpening::Read);
    assert_eq!(open_sweep(false), SweepOpening::Bound);
    assert_eq!(next_opening(SweepOpening::Bound), SweepOpening::Read);
    assert_eq!(next_opening(SweepOpening::Read), SweepOpening::Read);
}

/// A configuration claim made while the sweep runs is seen by the re-check,
/// which reads the current document rather than a pinned snapshot.
#[test]
fn a_name_claimed_by_a_reload_mid_sweep_is_left_alone() {
    let manager = AllocationManager::new(ManagerTuning::default());
    let config = config_without_the_recorded_profile();
    let mut claiming = profile();
    claiming.warm_template = Some(WarmName::new("project-claimed".to_owned(), true, true));
    let live = config_of(vec![("other", claiming)]);
    let mut claimed = record("project-claimed", 1);
    claimed.profile = "other".to_owned();
    let (report, deleted) = sweep(
        &manager,
        false,
        &config,
        &live,
        &vec![machine("project-retired", DAY), machine("project-claimed", DAY)],
        &vec![record("project-retired", 2), claimed],
    );
    assert_eq!(report.deleted, vec!["project-retired".to_owned()]);
    assert_eq!(report.skipped, vec!["project-claimed".to_owned()]);
    assert!(!deleted.contains(&"project-claimed".to_owned()), "{deleted:?}");
}

/// An inert pass says so, rather than reading as a clean host.
#[test]
fn a_pass_that_cannot_age_anything_reports_why_it_planned_nothing() {
    let manager = AllocationManager::new(ManagerTuning::default());
    let machines = vec![HostMachine {
        ownership: MachineOwnership::Unknown,
        ..unaged("ci-project-41-1")
    }];
    let (report, _) = sweep(&manager, false, &config(), &config(), &machines, &Vec::new());
    assert!(report.planned.is_empty());
    assert_eq!(report.inert_reason, Some(SweepInertReason::AgeUndeterminable));
    assert_eq!(report.finished_at_unix, NOW);
}

#[test]
fn a_dry_run_lists_retirement_candidates_and_deletes_nothing() {
    let manager = AllocationManager::new(ManagerTuning::default());
    let config = warm_config();
    let (report, _) = sweep(
        &manager,
        true,
        &config,
        &config,
        &Vec::new(),
        &vec![record("project-warm", 3)],
    );
    assert_eq!(report.retired_images.len(), 1);
    assert!(!report.retired_images[0].is_deleted);
    assert!(report.deleted.is_empty());
    assert!(report.pruned_records.is_empty());
}

/// The record is pruned and its image retired in one pass, and a dry run sees
/// the prune it would have applied.
#[test]
fn image_retirement_sees_the_prune_set_on_a_dry_run_and_a_real_run() {
    let config = config_without_the_recorded_profile();
    let images = vec![record("project-retired", 2)];
    let machines: Vec<HostMachine> = Vec::new();
    for is_dry_run in [true, false] {
        let mut run = begun(is_dry_run, &config, &images, &machines);
        assert_eq!(run.next(), SweepStep::PlanPrune);
        run.plan_prune(&config, &NameSet::new());
        if !is_dry_run {
            assert_eq!(run.next(), SweepStep::RemoveRecord { place: 0 });
            run.record_removed(true);
        }
        assert_eq!(run.next(), SweepStep::SweepImages);
        let request = run.image_sweep(&config);
        assert_eq!(request.is_dry_run, is_dry_run);
        assert!(!request.claimed.contains("project"));
        assert!(request.declared.is_empty());
        let report = run.report(Vec::new(), NOW);
        let pruned = if is_dry_run { Vec::new() } else { vec!["project".to_owned()] };
        assert_eq!(report.pruned_records, pruned);
    }
}

#[test]
fn a_declared_profile_is_reported_as_claimed_to_the_backend() {
    let config = warm_config();
    let images = vec![record("project-warm", 3)];
    let mut run = begun(false, &config, &images, &Vec::new());
    run.plan_prune(&config, &NameSet::new());
    let request = run.image_sweep(&config);
    assert!(request.claimed.contains("project"));
    assert_eq!(request.declared.len(), 1);
    assert_eq!(request.declared[0].profile, "project");
    assert_eq!(request.declared[0].warm_template, "project-warm");
}

#[test]
fn a_failed_deletion_is_skipped_and_every_candidate_is_accounted_for() {
    let config = config();
    let machines = vec![machine("ci-a-1-1", DAY), machine("ci-b-1-1", DAY), machine("ci-c-1-1", DAY)];
    let mut run = begun(false, &config, &Vec::new(), &machines);
    run.reaped(&Ok(true));
    run.reaped(&Err(ManagerError::Store(StoreError { message: "gone".to_owned() })));
    run.reaped(&Ok(false));
    assert_eq!(run.next(), SweepStep::PlanPrune);
    run.plan_prune(&config, &NameSet::new());
    let report = run.report(Vec::new(), NOW);
    assert_eq!(report.deleted, vec!["ci-a-1-1".to_owned()]);
    assert_eq!(report.skipped, vec!["ci-b-1-1".to_owned(), "ci-c-1-1".to_owned()]);
}

#[test]
fn a_regenerating_profile_keeps_its_record() {
    let regenerating = regenerating_profiles(&vec![
        allocation("ci-project-42-1", AllocationState::Running, AllocationMode::Regenerate),
        allocation("ci-other-42-1", AllocationState::Completed, AllocationMode::Regenerate),
    ]);
    assert!(regenerating.contains("project"));
    let plan = plan_pruned_records(
        &config_without_the_recorded_profile(),
        &vec![record("project-retired", 2)],
        &Vec::new(),
        &regenerating,
    );
    assert!(plan.prunable.is_empty());
    assert!(plan.claimed.contains("project"));
}

#[test]
fn a_teardown_is_allowed_what_its_profile_says() {
    let mut slow = profile();
    slow.cleanup_timeout_seconds = 900;
    let config = config_of(vec![("project", profile()), ("slow", slow)]);
    assert_eq!(cleanup_allowance(&config, config.find("project"), 300), 300);
    assert_eq!(cleanup_allowance(&config, config.find("project"), 10), 60);
    assert_eq!(cleanup_allowance(&config, None, 300), 900);
}

#[test]
fn a_listed_name_no_machine_can_have_is_skipped() {
    let config = config();
    let machines = vec![machine("ci-lost-1-1", 7_200)];
    let allocations = Vec::new();
    let images = Vec::new();
    let hot = Vec::new();
    let inputs = ReapInputs {
        config: &config,
        machines: &machines,
        allocations: &allocations,
        images: &images,
        hot: &hot,
    };
    let candidates = plan_sweep(&inputs);
    let reserved = reserved_image_names(&config);
    let manager = AllocationManager::new(ManagerTuning::default());
    assert!(manager.reap(&candidates[0], false, &inputs, &reserved, 300).is_none());
    let request = manager.reap(&candidates[0], true, &inputs, &reserved, 300).unwrap();
    assert_eq!(request.name.as_str(), "ci-lost-1-1");
}

/// An empty set of claims tells the backend that no profile claims anything, so
/// a pass that cannot read the records never comes to retirement at all.
#[test]
fn an_unreadable_record_authority_never_offers_a_retirement_candidate() {
    let mut manager = AllocationManager::new(ManagerTuning::default());
    let config = warm_config();
    let (report, _) = sweep(&manager, false, &config, &config, &Vec::new(), &Vec::new());
    manager.finish_sweep(report, false);

    let unavailable = || StoreError { message: "unavailable".to_owned() };
    let no_host = || WorkerError::new("no host".to_owned());
    let failed = manager.sweep(false, &config, Err(unavailable()), Ok(Vec::new()), Ok(Vec::new()));
    assert_eq!(failed.err(), Some(ManagerError::Store(unavailable())));
    let failed = manager.sweep(false, &config, Ok(Vec::new()), Err(unavailable()), Err(no_host()));
    assert_eq!(failed.err(), Some(ManagerError::Store(unavailable())));
    let failed = manager.sweep(true, &config, Ok(Vec::new()), Ok(Vec::new()), Err(no_host()));
    assert_eq!(failed.err(), Some(ManagerError::Worker(no_host())));
    // The report of the last pass stands.
    assert_eq!(manager.last_sweep().map(|kept| kept.finished_at_unix), Some(NOW));
    assert!(manager.sweep(false, &config, Ok(Vec::new()), Ok(Vec::new()), Ok(Vec::new())).is_ok());
}
