use flanforge_manager::admission::capacity::{
    active_allocations, committed_capacity, foreign_running, live_names, CommittedCapacity,
};
use flanforge_manager::admission::hot::hot_names;
use flanforge_manager::admission::probe::{MachineProbe, SECOND};
use flanforge_manager::admission::storage::{effective_size, floored};
use flanforge_manager::domain::allocation::{
    Allocation, AllocationMode, AllocationOrigin, AllocationRequest, AllocationState, CloneKind,
    CloneSource, GuestSize, RequestOptions,
};
use flanforge_manager::domain::hot::{HotGuest, HotLane, HotState};
use flanforge_manager::domain::profile::{Config, NamedProfile, Profile, RuntimeConfig};
use flanforge_manager::error::{BusyReason, ManagerError, StoreError};
use flanforge_manager::hot::select::is_pool_expandable;
use flanforge_manager::ident::{fresh_uuid, uuid_text};
use flanforge_manager::service::{Admission, AllocationManager};
use flanforge_manager::state::Entry;
use flanforge_manager::tuning::ManagerTuning;
use flanforge_manager::worker::error::WorkerError;
use flanforge_manager::worker::model::{HostMachine, MachineOwnership, MachineState};

const NOW: u64 = 1_755_324_251;

/// The largest disk a record carries in these fixtures.
const MAX_STORAGE_MB: u64 = 16_777_216;

const POOLED: &str = "ci-hot-project-0123456789ab";

fn size() -> GuestSize {
    GuestSize { cpu_count: 4, memory_mb: 8_192, storage_mb: 40_960 }
}

fn profile() -> Profile {
    Profile {
        repository: "owner/project".to_owned(),
        template: "flanforge-base".to_owned(),
        runner_label: "macos-tart-project".to_owned(),
        job_name: "build".to_owned(),
        allowed_workflows: vec!["build.yml".to_owned()],
        allowed_events: vec!["push".to_owned()],
        allowed_refs: vec!["refs/heads/main".to_owned()],
        allowed_ref_prefixes: Vec::new(),
        require_protected_ref: false,
        network: "softnet".to_owned(),
        cpu_count: 4,
        memory_mb: 8_192,
        storage_mb: 40_960,
        boot_timeout_seconds: 120,
        idle_timeout_seconds: 300,
        job_timeout_seconds: 3_600,
        cleanup_timeout_seconds: 60,
        warm_template: None,
        regeneration_workflow: None,
        reap: true,
        hot: None,
    }
}

fn config_of(profiles: Vec<(&str, Profile)>) -> Config {
    Config {
        runtime: RuntimeConfig {
            vm_prefix: "ci-".to_owned(),
            max_running_vms: 2,
            max_hot_vms: 1,
            host_cpu_count: None,
            host_memory_mb: None,
            host_storage_mb: None,
            min_storage_free_mb: None,
            poll_seconds: 1,
        },
        profiles: profiles
            .into_iter()
            .map(|(name, profile)| NamedProfile { name: name.to_owned(), profile })
            .collect(),
    }
}

fn config() -> Config {
    config_of(vec![("project", profile())])
}

fn budgeted(cpu_count: u8, memory_mb: u32) -> Config {
    let mut config = config();
    config.runtime.host_cpu_count = Some(cpu_count);
    config.runtime.host_memory_mb = Some(memory_mb);
    config
}

fn request() -> AllocationRequest {
    AllocationRequest {
        profile: "project".to_owned(),
        repository: "owner/project".to_owned(),
        run_id: 42,
        run_attempt: 1,
    }
}

fn new_id() -> String {
    uuid_text(fresh_uuid())
}

fn allocation(name: &str, size_of: Option<GuestSize>) -> Allocation {
    let mut allocation = Allocation::new(
        new_id(),
        request(),
        name.to_owned(),
        name.to_owned(),
        AllocationMode::Cold,
        size(),
        NOW,
    );
    allocation.state = AllocationState::Ready;
    allocation.size = size_of;
    allocation
}

fn entries(allocations: Vec<Allocation>) -> Vec<Entry> {
    allocations
        .into_iter()
        .map(|allocation| Entry { allocation, is_supervised: true, is_terminalizing: false })
        .collect()
}

fn running(name: &str) -> HostMachine {
    HostMachine {
        name: name.to_owned(),
        state: MachineState::Running,
        age_seconds: Some(10),
        size: None,
        ownership: MachineOwnership::Unknown,
    }
}

fn running_with(name: &str, ownership: MachineOwnership) -> HostMachine {
    HostMachine { ownership, ..running(name) }
}

fn hot_guest(name: &str) -> HotGuest {
    let mut guest = HotGuest::new(
        name.to_owned(),
        "project".to_owned(),
        HotLane::Protected,
        size(),
        CloneSource {
            name: "flanforge-base".to_owned(),
            kind: CloneKind::Template,
            base_fingerprint: None,
            fallback_reason: None,
        },
        None,
        None,
        NOW,
    );
    guest.state = HotState::Idle;
    guest
}

fn busy_reason(result: &Result<(), ManagerError>) -> Option<BusyReason> {
    match result {
        Err(ManagerError::Busy { reason, .. }) => Some(*reason),
        _ => None,
    }
}

fn capacity(
    held: &Vec<Entry>,
    config: &Config,
    machines: Vec<HostMachine>,
    hot: Vec<HotGuest>,
) -> Result<(), ManagerError> {
    AllocationManager::ensure_capacity(held, config, size(), &machines, &hot)
}

#[test]
fn two_fitting_requests_are_admitted_and_the_third_is_busy() {
    let config = budgeted(8, 16_384);
    assert!(
        capacity(&entries(Vec::new()), &config, Vec::new(), Vec::new()).is_ok(),
        "an empty host admits the first request"
    );
    let one = entries(vec![allocation("ci-one", Some(size()))]);
    assert!(capacity(&one, &config, Vec::new(), Vec::new()).is_ok());
    let two = entries(vec![
        allocation("ci-one", Some(size())),
        allocation("ci-two", Some(size())),
    ]);
    assert_eq!(
        busy_reason(&capacity(&two, &config, Vec::new(), Vec::new())),
        Some(BusyReason::Slots)
    );
}

#[test]
fn the_budget_binds_in_both_dimensions() {
    let held = entries(vec![allocation("ci-one", Some(size()))]);
    let by_cpu = budgeted(6, 65_536);
    assert_eq!(
        busy_reason(&capacity(&held, &by_cpu, Vec::new(), Vec::new())),
        Some(BusyReason::Budget)
    );
    let by_memory = budgeted(64, 12_288);
    assert_eq!(
        busy_reason(&capacity(&held, &by_memory, Vec::new(), Vec::new())),
        Some(BusyReason::Budget)
    );
}

#[test]
fn a_foreign_running_vm_consumes_a_slot() {
    let config = budgeted(64, 65_536);
    let held = entries(vec![allocation("ci-one", Some(size()))]);
    assert!(capacity(&held, &config, Vec::new(), Vec::new()).is_ok());
    assert_eq!(
        busy_reason(&capacity(&held, &config, vec![running("devboxvm")], Vec::new())),
        Some(BusyReason::Slots)
    );
    // Our own running clone is not counted twice.
    assert!(capacity(
        &held,
        &config,
        vec![running_with("ci-one", MachineOwnership::Owned)],
        Vec::new()
    )
    .is_ok());
}

/// A colliding name is allocation evidence only when metadata proves that the
/// machine belongs to this service instance.
#[test]
fn active_name_collisions_are_classified_by_machine_ownership() {
    let config = budgeted(64, 65_536);
    let held = entries(vec![allocation("ci-one", Some(size()))]);
    for ownership in [MachineOwnership::Foreign, MachineOwnership::Unknown] {
        assert_eq!(
            busy_reason(&capacity(
                &held,
                &config,
                vec![running_with("ci-one", ownership)],
                Vec::new()
            )),
            Some(BusyReason::Slots),
            "{ownership:?} collision was treated as owned"
        );
    }
    assert!(capacity(
        &held,
        &config,
        vec![running_with("ci-one", MachineOwnership::Owned)],
        Vec::new()
    )
    .is_ok());
}

/// A terminal record charges only a metadata-owned survivor. Foreign and
/// unknown collisions remain foreign and unknown size fails closed.
#[test]
fn terminal_name_collisions_are_classified_by_machine_ownership() {
    let mut terminal = allocation("ci-one", Some(size()));
    terminal.state = AllocationState::Completed;
    terminal.vm_created = true;
    let held = entries(vec![terminal]);
    let config = budgeted(64, 65_536);

    let mut owned = running_with("ci-one", MachineOwnership::Owned);
    owned.size = None;
    assert!(capacity(&held, &config, vec![owned], Vec::new()).is_ok());

    let mut foreign = running_with("ci-one", MachineOwnership::Foreign);
    foreign.size = Some(size());
    assert!(capacity(&held, &config, vec![foreign], Vec::new()).is_ok());

    for ownership in [MachineOwnership::Foreign, MachineOwnership::Unknown] {
        let unknown = running_with("ci-one", ownership);
        assert_eq!(
            busy_reason(&capacity(&held, &config, vec![unknown], Vec::new())),
            Some(BusyReason::Budget),
            "{ownership:?} unknown-size collision did not fail closed"
        );
    }
}

#[test]
fn an_unset_budget_serializes_exactly_as_before() {
    let config = config();
    assert!(capacity(&entries(Vec::new()), &config, Vec::new(), Vec::new()).is_ok());
    let held = entries(vec![allocation("ci-one", Some(size()))]);
    assert_eq!(
        busy_reason(&capacity(&held, &config, Vec::new(), Vec::new())),
        Some(BusyReason::Serialized)
    );
}

#[test]
fn a_pre_change_record_charges_its_profile_values() {
    let config = budgeted(6, 65_536);
    let held = entries(vec![allocation("ci-one", None)]);
    assert_eq!(
        busy_reason(&capacity(&held, &config, Vec::new(), Vec::new())),
        Some(BusyReason::Budget)
    );

    // A record whose own profile is gone still charges the largest profile
    // configured: a guest of unknown size is not a guest that costs nothing.
    let mut orphaned = config_of(vec![("other", profile())]);
    orphaned.runtime.host_cpu_count = Some(6);
    orphaned.runtime.host_memory_mb = Some(65_536);
    assert_eq!(
        busy_reason(&capacity(&held, &orphaned, Vec::new(), Vec::new())),
        Some(BusyReason::Budget)
    );
}

/// An unknown-size guest is charged the independent maximum of every resource,
/// not the lexicographic maximum of one profile tuple.
#[test]
fn an_unknown_guest_uses_component_wise_profile_maxima() {
    let mut cpu_heavy = profile();
    cpu_heavy.cpu_count = 16;
    cpu_heavy.memory_mb = 4_096;
    cpu_heavy.storage_mb = 20_000;
    let mut storage_heavy = profile();
    storage_heavy.cpu_count = 2;
    storage_heavy.memory_mb = 32_768;
    storage_heavy.storage_mb = 100_000;
    let config = config_of(vec![("cpu", cpu_heavy), ("storage", storage_heavy)]);
    let unknown = allocation("ci-unknown", None);

    assert_eq!(
        committed_capacity(&vec![&unknown], &config),
        CommittedCapacity {
            active: 1,
            cpu_count: 16,
            memory_mb: 32_768,
            storage_mb: 100_000,
        }
    );
}

/// A guest still running under a terminal record is capacity the host has
/// already spent, so the budget charges it as well as the slot.
#[test]
fn a_running_orphan_is_charged_against_the_budget() {
    let mut orphan = allocation("ci-orphan", Some(size()));
    orphan.state = AllocationState::Failed;
    orphan.vm_created = true;
    let held = entries(vec![orphan]);
    let machines = || vec![running_with("ci-orphan", MachineOwnership::Owned)];

    let tight = budgeted(6, 65_536);
    assert_eq!(
        busy_reason(&capacity(&held, &tight, machines(), Vec::new())),
        Some(BusyReason::Budget)
    );

    let roomy = budgeted(8, 65_536);
    assert!(capacity(&held, &roomy, machines(), Vec::new()).is_ok());

    // A machine no record claims with unknown size fails closed under a budget.
    assert_eq!(
        busy_reason(&capacity(
            &Vec::new(),
            &tight,
            vec![running("someones-laptop")],
            Vec::new()
        )),
        Some(BusyReason::Budget)
    );
}

#[test]
fn a_known_foreign_guest_is_charged_in_every_dimension() {
    let mut config = budgeted(8, 16_384);
    config.runtime.max_running_vms = 2;
    config.runtime.host_storage_mb = Some(100_000);
    let mut machine = running("developer-vm");
    machine.size = Some(GuestSize { cpu_count: 4, memory_mb: 8_192, storage_mb: 60_000 });
    assert_eq!(
        busy_reason(&capacity(&Vec::new(), &config, vec![machine], Vec::new())),
        Some(BusyReason::Budget)
    );
}

/// One profile's three image names are owned by one producer.
#[test]
fn a_second_regeneration_of_one_profile_is_refused() {
    let mut producing = allocation("ci-one", Some(size()));
    producing.mode = AllocationMode::Regenerate;
    let held = entries(vec![producing]);

    assert_eq!(
        busy_reason(&AllocationManager::ensure_sole_producer(
            &held,
            "project",
            AllocationMode::Regenerate,
        )),
        Some(BusyReason::Regenerating)
    );
    // The exclusion is scoped to production and to the profile.
    for consuming in [AllocationMode::Warm, AllocationMode::Cold] {
        assert!(AllocationManager::ensure_sole_producer(&held, "project", consuming).is_ok());
    }
    assert!(AllocationManager::ensure_sole_producer(
        &held,
        "other",
        AllocationMode::Regenerate
    )
    .is_ok());
}

#[test]
fn a_terminal_allocation_releases_its_capacity() {
    let config = budgeted(6, 65_536);
    let mut terminal = allocation("ci-one", Some(size()));
    terminal.state = AllocationState::Completed;
    let held = entries(vec![terminal]);
    assert!(capacity(&held, &config, Vec::new(), Vec::new()).is_ok());
}

fn ensure_admitted(
    manager: &AllocationManager,
    config: &Config,
    machines: Result<Vec<HostMachine>, WorkerError>,
    hot: Result<Vec<HotGuest>, StoreError>,
) -> Result<Admission, ManagerError> {
    manager.ensure_admitted(config, &request(), AllocationMode::Cold, size(), machines, hot)
}

#[test]
fn a_failed_listing_answers_busy() {
    let manager = AllocationManager::new(ManagerTuning::default());
    let result = ensure_admitted(
        &manager,
        &config(),
        Err(WorkerError::new("cannot list the host".to_owned())),
        Ok(Vec::new()),
    );
    assert!(matches!(
        result,
        Err(ManagerError::Busy { reason: BusyReason::ProbeFailed, holder: None })
    ));
}

/// The guest's disk is the larger of the profile's storage and the base's
/// virtual size, so a base larger than the profile that names it is what the
/// budget has to reserve.
#[test]
fn a_base_larger_than_the_profile_raises_the_charged_storage() {
    let size = size();
    for (base_mb, expected, reason) in [
        (20_480, size.storage_mb, "a base smaller than the profile"),
        (size.storage_mb, size.storage_mb, "an exactly-sized base"),
        (81_920, 81_920, "a base larger than the profile"),
        (u64::MAX, MAX_STORAGE_MB, "a raise clamped to what a record can carry"),
    ] {
        assert_eq!(floored(size, base_mb, MAX_STORAGE_MB).storage_mb, expected, "{reason}");
    }
    // Only storage moves; the request's own choices are untouched.
    assert_eq!(floored(size, 81_920, MAX_STORAGE_MB).cpu_count, size.cpu_count);
    assert_eq!(floored(size, 81_920, MAX_STORAGE_MB).memory_mb, size.memory_mb);
}

/// The size that is charged is the disk the guest actually gets.
#[test]
fn a_larger_base_is_recorded_rather_than_the_declared_size() {
    let mut config = budgeted(64, 65_536);
    config.runtime.host_storage_mb = Some(131_072);
    let charged = effective_size(size(), Some(81_920), MAX_STORAGE_MB);
    assert_eq!(charged.storage_mb, 81_920);
    assert!(AllocationManager::ensure_capacity(
        &Vec::new(),
        &config,
        charged,
        &Vec::new(),
        &Vec::new()
    )
    .is_ok());
    assert_eq!(effective_size(size(), None, MAX_STORAGE_MB), size());
}

/// A base the budget could never have fitted is refused, rather than admitted
/// against the declared size.
#[test]
fn a_base_that_does_not_fit_the_budget_answers_busy() {
    let mut config = budgeted(64, 65_536);
    config.runtime.host_storage_mb = Some(65_536);
    let charged = effective_size(size(), Some(81_920), MAX_STORAGE_MB);
    assert_eq!(
        busy_reason(&AllocationManager::ensure_capacity(
            &Vec::new(),
            &config,
            charged,
            &Vec::new(),
            &Vec::new()
        )),
        Some(BusyReason::Budget),
        "the declared 40 GiB fits this budget and the 80 GiB base does not"
    );
    assert!(capacity(&Vec::new(), &config, Vec::new(), Vec::new()).is_ok());
}

/// An idle hot guest is running and owned by no active allocation. The record
/// is what classifies it.
#[test]
fn an_idle_hot_machine_is_not_a_foreign_workload_of_unknown_size() {
    let config = budgeted(64, 65_536);
    let pooled = running_with(POOLED, MachineOwnership::Owned);
    assert!(pooled.size.is_none(), "the fixture must be unsized");
    assert!(config.runtime.host_cpu_count.is_some() && config.runtime.host_memory_mb.is_some());

    assert_eq!(
        busy_reason(&capacity(&entries(Vec::new()), &config, vec![pooled.clone()], Vec::new())),
        Some(BusyReason::Budget),
        "an unsized machine no record claims is still charged fail-closed"
    );
    assert!(capacity(
        &entries(Vec::new()),
        &config,
        vec![pooled],
        vec![hot_guest(POOLED)]
    )
    .is_ok());
}

/// The machine holds a slot and its recorded size whether or not anyone is on
/// it, so on a two-slot host it halves concurrency.
#[test]
fn an_idle_hot_machine_holds_one_slot_and_its_recorded_size() {
    let config = budgeted(64, 65_536);
    assert_eq!(config.runtime.max_running_vms, 2);
    let pooled = running_with(POOLED, MachineOwnership::Owned);

    let held = entries(vec![allocation("ci-one", Some(size()))]);
    assert_eq!(
        busy_reason(&capacity(
            &held,
            &config,
            vec![running_with("ci-one", MachineOwnership::Owned), pooled.clone()],
            vec![hot_guest(POOLED)],
        )),
        Some(BusyReason::Slots),
        "the pool machine takes the second of two slots"
    );

    // Four CPUs held by the pool plus four requested exceeds a four-CPU host.
    assert_eq!(
        busy_reason(&capacity(
            &entries(Vec::new()),
            &budgeted(4, 16_384),
            vec![pooled],
            vec![hot_guest(POOLED)],
        )),
        Some(BusyReason::Budget)
    );
}

/// A claimed machine is charged through the allocation holding it. Charging it
/// twice would refuse a host that is exactly full rather than merely full.
#[test]
fn a_claimed_hot_machine_is_charged_once_through_its_allocation() {
    let held = entries(vec![allocation(POOLED, Some(size()))]);
    let mut claimed = hot_guest(POOLED);
    assert!(claimed.ensure_claimed(&new_id(), NOW).is_ok());

    assert!(capacity(
        &held,
        &budgeted(8, 16_384),
        vec![running_with(POOLED, MachineOwnership::Owned)],
        vec![claimed],
    )
    .is_ok());
}

/// A record naming a machine this service cannot prove it owns classifies
/// nothing, so that machine stays on the fail-closed foreign path.
#[test]
fn a_hot_record_over_an_unowned_machine_classifies_nothing() {
    let config = budgeted(64, 65_536);
    for ownership in [MachineOwnership::Foreign, MachineOwnership::Unknown] {
        assert_eq!(
            busy_reason(&capacity(
                &entries(Vec::new()),
                &config,
                vec![running_with(POOLED, ownership)],
                vec![hot_guest(POOLED)],
            )),
            Some(BusyReason::Budget),
            "{ownership:?} was classified as a pool machine"
        );
    }
}

/// A machine mid-handover is charged from its record alone, and a machine an
/// allocation reuses is charged through that allocation only.
#[test]
fn a_handover_is_charged_from_its_record_and_a_reused_machine_only_once() {
    // Nothing on the host listing yet, and the slot is already the pool's.
    let mut handover = hot_guest(POOLED);
    handover.state = HotState::Provisioning;
    assert_eq!(
        busy_reason(&capacity(
            &entries(Vec::new()),
            &budgeted(4, 8_192),
            Vec::new(),
            vec![handover],
        )),
        Some(BusyReason::Budget),
        "a machine mid-handover went uncharged"
    );

    // The reusing allocation's own `vm_name` is a fresh name that never becomes
    // a machine; the machine it holds is the one its origin names.
    let mut reuser = allocation("ci-project-1-1", Some(size()));
    reuser.set_hot(
        Some(HotLane::Protected),
        AllocationOrigin::HotReuse {
            vm_name: POOLED.to_owned(),
            jobs_served: 1,
            booted_at_unix: 0,
        },
        None,
        None,
    );
    let mut claimed = hot_guest(POOLED);
    assert!(claimed.ensure_claimed(&reuser.id, NOW).is_ok());
    assert!(
        capacity(
            &entries(vec![reuser]),
            &budgeted(8, 16_384),
            vec![running_with(POOLED, MachineOwnership::Owned)],
            vec![claimed],
        )
        .is_ok(),
        "the reused machine was charged twice"
    );
}

#[test]
fn a_refused_request_names_the_first_live_holder() {
    let one = allocation("ci-one", Some(size()));
    let id = one.id.clone();
    let held = entries(vec![one, allocation("ci-two", Some(size()))]);
    match capacity(&held, &budgeted(64, 65_536), Vec::new(), Vec::new()) {
        Err(ManagerError::Busy { reason: BusyReason::Slots, holder }) => {
            assert_eq!(holder, Some(id));
        }
        other => panic!("expected a busy answer, got {other:?}"),
    }
}

#[test]
fn totals_saturate_rather_than_wrap() {
    let huge = GuestSize { cpu_count: 1, memory_mb: u32::MAX, storage_mb: u64::MAX };
    let one = allocation("ci-one", Some(huge));
    let two = allocation("ci-two", Some(huge));
    assert_eq!(
        committed_capacity(&vec![&one, &two], &config()),
        CommittedCapacity {
            active: 2,
            cpu_count: 2,
            memory_mb: u32::MAX,
            storage_mb: u64::MAX,
        }
    );
}

#[test]
fn an_exactly_full_host_admits_and_one_more_does_not() {
    assert!(capacity(&Vec::new(), &budgeted(4, 8_192), Vec::new(), Vec::new()).is_ok());
    assert_eq!(
        busy_reason(&capacity(&Vec::new(), &budgeted(3, 8_192), Vec::new(), Vec::new())),
        Some(BusyReason::Budget)
    );
    assert_eq!(
        busy_reason(&capacity(&Vec::new(), &budgeted(4, 8_191), Vec::new(), Vec::new())),
        Some(BusyReason::Budget)
    );
}

#[test]
fn a_repeated_request_is_answered_before_capacity_is_asked() {
    let mut manager = AllocationManager::new(ManagerTuning::default());
    let held = allocation("ci-project-42-1", Some(size()));
    let id = held.id.clone();
    manager.insert(held);
    // The host cannot even be listed, and the same attempt still gets its own
    // allocation back.
    match ensure_admitted(
        &manager,
        &config(),
        Err(WorkerError::new("cannot list the host".to_owned())),
        Ok(Vec::new()),
    ) {
        Ok(Admission::Existing(found)) => assert_eq!(found.id, id),
        _ => panic!("the attempt already has an allocation"),
    }
}

#[test]
fn the_probe_reuses_a_fresh_listing_and_warns_once_a_minute() {
    let mut probe = MachineProbe::default();
    assert!(probe.reusable(0, 5).is_none());
    let answered = probe.record(Ok(vec![running("devboxvm")]), 10 * SECOND);
    assert!(answered.listed.is_ok() && !answered.is_warned);
    assert_eq!(probe.reusable(12 * SECOND, 5).map(|machines| machines.len()), Some(1));
    assert!(probe.reusable(16 * SECOND, 5).is_none());

    let failed = |probe: &mut MachineProbe, now: u128| {
        probe.record(Err(WorkerError::new("no host".to_owned())), now).is_warned
    };
    assert!(failed(&mut probe, 20 * SECOND));
    assert!(!failed(&mut probe, 79 * SECOND));
    assert!(failed(&mut probe, 80 * SECOND));
}

#[test]
fn pool_machines_are_neither_foreign_nor_unnamed() {
    let held = entries(vec![allocation("ci-one", Some(size()))]);
    let active = active_allocations(&held);
    assert!(live_names(&active).contains("ci-one"));
    let machines = vec![
        running_with(POOLED, MachineOwnership::Owned),
        running_with("ci-one", MachineOwnership::Owned),
        running("devboxvm"),
    ];
    let names = hot_names(&vec![hot_guest(POOLED)], &machines);
    assert!(names.contains(POOLED));
    assert_eq!(foreign_running(&active, &machines, &names), 1);
    assert!(is_pool_expandable(&vec![hot_guest(POOLED)], 2, &Vec::new()));
}

#[test]
fn default_options_ask_for_nothing() {
    let options = RequestOptions::default();
    assert!(!options.warm && options.cpu_count.is_none() && options.memory_mb.is_none());
}
