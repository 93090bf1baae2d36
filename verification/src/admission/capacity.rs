use vstd::prelude::*;

use crate::admission::hot::{hot_capacity, hot_names, pool_usage, pooled_names};
use crate::domain::allocation::{Allocation, AllocationId, AllocationMode, AllocationState,
    GuestSize};
use crate::domain::hot::HotGuest;
use crate::domain::profile::{lemma_profile_index, profile_index, Config, NamedProfile};
use crate::error::{BusyReason, ManagerError};
use crate::names::NameSet;
use crate::service::AllocationManager;
use crate::state::Entry;
use crate::text::is_same_text;
use crate::worker::model::{HostMachine, MachineOwnership, MachineState};

verus! {

/// What a set of machines takes of the host, exactly.
pub struct Usage {
    pub slots: nat,
    pub cpu_count: nat,
    pub memory_mb: nat,
    pub storage_mb: nat,
}

impl Usage {
    pub open spec fn none() -> Usage {
        Usage { slots: 0, cpu_count: 0, memory_mb: 0, storage_mb: 0 }
    }

    /// One more machine, of this size.
    pub open spec fn and(self, size: GuestSize) -> Usage {
        Usage {
            slots: self.slots + 1,
            cpu_count: self.cpu_count + size.cpu_count as nat,
            memory_mb: self.memory_mb + size.memory_mb as nat,
            storage_mb: self.storage_mb + size.storage_mb as nat,
        }
    }

    /// One more slot, of no known size.
    pub open spec fn and_slot(self) -> Usage {
        Usage { slots: self.slots + 1, ..self }
    }
}

pub open spec fn at_most(value: nat, limit: int) -> int {
    if value <= limit {
        value as int
    } else {
        limit
    }
}

/// What the live entries already commit, folded fresh on every admission so
/// there is no counter to leak and no explicit release.
#[derive(Clone, Copy, Debug, PartialEq, Eq, Structural)]
pub struct CommittedCapacity {
    pub active: usize,
    pub cpu_count: u32,
    pub memory_mb: u32,
    pub storage_mb: u64,
}

impl CommittedCapacity {
    /// This is the usage, with each amount cut off at what its counter holds.
    pub open spec fn holds(self, usage: Usage) -> bool {
        &&& self.active == usage.slots
        &&& self.cpu_count == at_most(usage.cpu_count, u32::MAX as int)
        &&& self.memory_mb == at_most(usage.memory_mb, u32::MAX as int)
        &&& self.storage_mb == at_most(usage.storage_mb, u64::MAX as int)
    }
}

impl Default for CommittedCapacity {
    fn default() -> (capacity: CommittedCapacity)
        ensures
            capacity.holds(Usage::none()),
            capacity.active == 0,
    {
        CommittedCapacity { active: 0, cpu_count: 0, memory_mb: 0, storage_mb: 0 }
    }
}

/// The capacity with one more machine of this size.
pub fn plus_size(capacity: CommittedCapacity, size: GuestSize) -> (total: CommittedCapacity)
    requires
        capacity.active < usize::MAX,
    ensures
        total.active == capacity.active + 1,
        forall|usage: Usage| #[trigger] capacity.holds(usage) ==> total.holds(usage.and(size)),
{
    CommittedCapacity {
        active: capacity.active + 1,
        cpu_count: capacity.cpu_count.saturating_add(size.cpu_count as u32),
        memory_mb: capacity.memory_mb.saturating_add(size.memory_mb),
        storage_mb: capacity.storage_mb.saturating_add(size.storage_mb),
    }
}

/// The allocations still going, in entry order.
pub open spec fn live_allocations(entries: Seq<Entry>) -> Seq<Allocation>
    decreases entries.len(),
{
    if entries.len() == 0 {
        Seq::empty()
    } else {
        let rest = live_allocations(entries.drop_last());
        if entries.last().allocation.live() {
            rest.push(entries.last().allocation)
        } else {
            rest
        }
    }
}

pub fn active_allocations(entries: &Vec<Entry>) -> (active: Vec<&Allocation>)
    ensures
        active@.unref() == live_allocations(entries@),
        active@.len() <= entries@.len(),
{
    let mut active: Vec<&Allocation> = Vec::new();
    let mut i: usize = 0;
    while i < entries.len()
        invariant
            i <= entries@.len(),
            active@.unref() == live_allocations(entries@.take(i as int)),
            active@.len() <= i,
        decreases entries@.len() - i,
    {
        let entry: &Entry = &entries[i];
        proof {
            assert(entries@.take(i + 1).drop_last() =~= entries@.take(i as int));
            assert(entries@.take(i + 1).last() == *entry);
        }
        if !entry.allocation.state.is_terminal() {
            let ghost before: Seq<Allocation> = active@.unref();
            active.push(&entry.allocation);
            assert(active@.unref() =~= before.push(entry.allocation));
        }
        i = i + 1;
    }
    assert(entries@.take(entries@.len() as int) =~= entries@);
    active
}

/// The defensible floor for an unknown guest: in each dimension the most any
/// configured profile declares.
pub open spec fn largest_size(profiles: Seq<NamedProfile>) -> Option<GuestSize>
    decreases profiles.len(),
{
    if profiles.len() == 0 {
        None
    } else {
        let size = profiles.last().profile.declared_size();
        match largest_size(profiles.drop_last()) {
            None => Some(size),
            Some(largest) => Some(
                GuestSize {
                    cpu_count: if largest.cpu_count >= size.cpu_count {
                        largest.cpu_count
                    } else {
                        size.cpu_count
                    },
                    memory_mb: if largest.memory_mb >= size.memory_mb {
                        largest.memory_mb
                    } else {
                        size.memory_mb
                    },
                    storage_mb: if largest.storage_mb >= size.storage_mb {
                        largest.storage_mb
                    } else {
                        size.storage_mb
                    },
                },
            ),
        }
    }
}

pub fn largest_profile_size(config: &Config) -> (size: Option<GuestSize>)
    ensures
        size == largest_size(config.profiles@),
{
    let mut largest: Option<GuestSize> = None;
    let mut i: usize = 0;
    while i < config.profiles.len()
        invariant
            i <= config.profiles@.len(),
            largest == largest_size(config.profiles@.take(i as int)),
        decreases config.profiles@.len() - i,
    {
        let size: GuestSize = config.profiles[i].profile.size();
        proof {
            assert(config.profiles@.take(i + 1).drop_last() =~= config.profiles@.take(i as int));
            assert(config.profiles@.take(i + 1).last() == config.profiles@[i as int]);
        }
        largest = match largest {
            None => Some(size),
            Some(held) => Some(
                GuestSize {
                    cpu_count: if held.cpu_count >= size.cpu_count {
                        held.cpu_count
                    } else {
                        size.cpu_count
                    },
                    memory_mb: if held.memory_mb >= size.memory_mb {
                        held.memory_mb
                    } else {
                        size.memory_mb
                    },
                    storage_mb: if held.storage_mb >= size.storage_mb {
                        held.storage_mb
                    } else {
                        size.storage_mb
                    },
                },
            ),
        };
        i = i + 1;
    }
    assert(config.profiles@.take(config.profiles@.len() as int) =~= config.profiles@);
    largest
}

pub fn profile_size(config: &Config, name: &str) -> (size: Option<GuestSize>)
    ensures
        size == match config.named(name@) {
            Some(profile) => Some(profile.declared_size()),
            None => None::<GuestSize>,
        },
{
    match config.find(name) {
        Some(profile) => Some(profile.size()),
        None => None,
    }
}

/// What an allocation is charged: the size it recorded, or its profile's
/// current one, or the largest configured one.
pub open spec fn charged_size(allocation: Allocation, config: Config) -> Option<GuestSize> {
    if allocation.size is Some {
        allocation.size
    } else if config.named(allocation.request.profile@) is Some {
        Some(config.named(allocation.request.profile@).unwrap().declared_size())
    } else {
        largest_size(config.profiles@)
    }
}

/// What a list of allocations takes of the host.
pub open spec fn committed_usage(allocations: Seq<Allocation>, config: Config) -> Usage
    decreases allocations.len(),
{
    if allocations.len() == 0 {
        Usage::none()
    } else {
        let rest = committed_usage(allocations.drop_last(), config);
        match charged_size(allocations.last(), config) {
            Some(size) => rest.and(size),
            None => rest.and_slot(),
        }
    }
}

proof fn lemma_committed_usage_grows(allocations: Seq<Allocation>, config: Config, count: int)
    requires
        0 <= count <= allocations.len(),
    ensures
        committed_usage(allocations.take(count), config).cpu_count <= committed_usage(
            allocations,
            config,
        ).cpu_count,
    decreases allocations.len(),
{
    if count == allocations.len() {
        assert(allocations.take(count) =~= allocations);
    } else {
        lemma_committed_usage_grows(allocations.drop_last(), config, count);
        assert(allocations.drop_last().take(count) =~= allocations.take(count));
    }
}

pub proof fn lemma_committed_slots(allocations: Seq<Allocation>, config: Config)
    ensures
        committed_usage(allocations, config).slots == allocations.len(),
    decreases allocations.len(),
{
    if allocations.len() > 0 {
        lemma_committed_slots(allocations.drop_last(), config);
    }
}

/// A record written before per-request sizing charges its profile's current
/// values, and one whose profile is also gone charges the largest profile
/// configured: a guest of unknown size is not a guest that costs nothing.
pub fn committed_capacity(active: &Vec<&Allocation>, config: &Config) -> (capacity:
    CommittedCapacity)
    requires
        committed_usage(active@.unref(), *config).cpu_count <= u32::MAX,
    ensures
        capacity.holds(committed_usage(active@.unref(), *config)),
        capacity.active == active@.len(),
{
    let mut capacity: CommittedCapacity = CommittedCapacity::default();
    let mut i: usize = 0;
    while i < active.len()
        invariant
            i <= active@.len(),
            capacity.holds(committed_usage(active@.unref().take(i as int), *config)),
            capacity.active == i,
            committed_usage(active@.unref(), *config).cpu_count <= u32::MAX,
        decreases active@.len() - i,
    {
        let allocation: &Allocation = active[i];
        proof {
            assert(active@.unref().take(i + 1).drop_last() =~= active@.unref().take(i as int));
            assert(active@.unref().take(i + 1).last() == *allocation);
            lemma_committed_usage_grows(active@.unref(), *config, i + 1);
        }
        let size: Option<GuestSize> = match allocation.size {
            Some(size) => Some(size),
            None => match profile_size(config, allocation.request.profile.as_str()) {
                Some(size) => Some(size),
                None => largest_profile_size(config),
            },
        };
        match size {
            Some(size) => {
                capacity = CommittedCapacity {
                    active: capacity.active + 1,
                    cpu_count: capacity.cpu_count + size.cpu_count as u32,
                    memory_mb: capacity.memory_mb.saturating_add(size.memory_mb),
                    storage_mb: capacity.storage_mb.saturating_add(size.storage_mb),
                };
            },
            None => {
                capacity = CommittedCapacity { active: capacity.active + 1, ..capacity };
            },
        }
        i = i + 1;
    }
    assert(active@.unref().take(active@.len() as int) =~= active@.unref());
    capacity
}

/// Does one of these allocations own a machine of this name?
pub open spec fn is_live_name(active: Seq<Allocation>, name: Seq<char>) -> bool {
    exists|i: int| 0 <= i < active.len() && (#[trigger] active[i]).vm_name@ == name
}

/// A machine of ours that bears a live allocation's name.
pub open spec fn is_live_machine(machine: HostMachine, active: Seq<Allocation>) -> bool {
    machine.ownership is Owned && is_live_name(active, machine.name@)
}

/// A machine the host runs that neither an active allocation nor the pool has.
pub open spec fn is_stray(
    machine: HostMachine,
    active: Seq<Allocation>,
    pooled: Set<Seq<char>>,
) -> bool {
    machine.state is Running && !is_live_machine(machine, active) && !pooled.contains(machine.name@)
}

pub open spec fn stray_count(
    machines: Seq<HostMachine>,
    active: Seq<Allocation>,
    pooled: Set<Seq<char>>,
) -> nat
    decreases machines.len(),
{
    if machines.len() == 0 {
        0
    } else {
        let rest = stray_count(machines.drop_last(), active, pooled);
        if is_stray(machines.last(), active, pooled) {
            rest + 1
        } else {
            rest
        }
    }
}

/// A finished allocation whose guest was created under this name.
pub open spec fn is_remnant(entry: Entry, name: Seq<char>) -> bool {
    &&& entry.allocation.state.terminal()
    &&& entry.allocation.vm_created
    &&& entry.allocation.vm_name@ == name
}

/// The first finished allocation whose guest was created under this name.
pub open spec fn remnant(entries: Seq<Entry>, name: Seq<char>) -> Option<Allocation>
    decreases entries.len(),
{
    if entries.len() == 0 {
        None
    } else {
        match remnant(entries.drop_last(), name) {
            Some(allocation) => Some(allocation),
            None => if is_remnant(entries.last(), name) {
                Some(entries.last().allocation)
            } else {
                None
            },
        }
    }
}

/// A machine of ours that outlived the allocation it was created for.
pub open spec fn is_orphan(
    machine: HostMachine,
    entries: Seq<Entry>,
    active: Seq<Allocation>,
    pooled: Set<Seq<char>>,
) -> bool {
    &&& is_stray(machine, active, pooled)
    &&& machine.ownership is Owned
    &&& remnant(entries, machine.name@) is Some
}

/// The finished allocations whose guests still run, machine by machine.
pub open spec fn orphans(
    machines: Seq<HostMachine>,
    entries: Seq<Entry>,
    active: Seq<Allocation>,
    pooled: Set<Seq<char>>,
) -> Seq<Allocation>
    decreases machines.len(),
{
    if machines.len() == 0 {
        Seq::empty()
    } else {
        let rest = orphans(machines.drop_last(), entries, active, pooled);
        if is_orphan(machines.last(), entries, active, pooled) {
            rest.push(remnant(entries, machines.last().name@).unwrap())
        } else {
            rest
        }
    }
}

/// A running machine no record of ours accounts for.
pub open spec fn is_foreign(
    machine: HostMachine,
    entries: Seq<Entry>,
    active: Seq<Allocation>,
    pooled: Set<Seq<char>>,
) -> bool {
    is_stray(machine, active, pooled) && !is_orphan(machine, entries, active, pooled)
}

/// What the foreign machines of known size take of the host.
pub open spec fn foreign_usage(
    machines: Seq<HostMachine>,
    entries: Seq<Entry>,
    active: Seq<Allocation>,
    pooled: Set<Seq<char>>,
) -> Usage
    decreases machines.len(),
{
    if machines.len() == 0 {
        Usage::none()
    } else {
        let rest = foreign_usage(machines.drop_last(), entries, active, pooled);
        if is_foreign(machines.last(), entries, active, pooled) && machines.last().size is Some {
            rest.and(machines.last().size.unwrap())
        } else {
            rest
        }
    }
}

/// Is there a foreign machine whose size the host does not say?
pub open spec fn has_unknown_foreign(
    machines: Seq<HostMachine>,
    entries: Seq<Entry>,
    active: Seq<Allocation>,
    pooled: Set<Seq<char>>,
) -> bool {
    exists|i: int|
        0 <= i < machines.len() && (#[trigger] machines[i]).size is None && is_foreign(
            machines[i],
            entries,
            active,
            pooled,
        )
}

/// The names the active allocations cloned their guests under.
pub fn live_names(active: &Vec<&Allocation>) -> (names: NameSet)
    ensures
        names.wf(),
        forall|name: Seq<char>| #[trigger] names@.contains(name) <==> is_live_name(
            active@.unref(),
            name,
        ),
{
    let mut names: NameSet = NameSet::new();
    let mut i: usize = 0;
    let ghost all: Seq<Allocation> = active@.unref();
    while i < active.len()
        invariant
            all == active@.unref(),
            i <= active@.len(),
            names.wf(),
            forall|name: Seq<char>| #[trigger] names@.contains(name) <==> is_live_name(
                all.take(i as int),
                name,
            ),
        decreases active@.len() - i,
    {
        let allocation: &Allocation = active[i];
        let ghost before: Seq<Allocation> = all.take(i as int);
        let ghost after: Seq<Allocation> = all.take(i + 1);
        names.insert(allocation.vm_name.clone());
        proof {
            assert(after =~= before.push(*allocation));
            assert forall|name: Seq<char>| #[trigger] is_live_name(after, name) <==> (is_live_name(
                before,
                name,
            ) || allocation.vm_name@ == name) by {
                if is_live_name(before, name) {
                    let k: int = choose|k: int|
                        0 <= k < before.len() && (#[trigger] before[k]).vm_name@ == name;
                    assert(after[k] == before[k]);
                }
                if allocation.vm_name@ == name {
                    assert(after[before.len() as int] == *allocation);
                }
                if is_live_name(after, name) {
                    let k: int = choose|k: int|
                        0 <= k < after.len() && (#[trigger] after[k]).vm_name@ == name;
                    if k < before.len() {
                        assert(before[k] == after[k]);
                    }
                }
            }
        }
        i = i + 1;
    }
    assert(all.take(all.len() as int) =~= all);
    names
}

/// A colliding name is not evidence: only a machine the host reports as ours
/// is the one these names speak of.
fn is_owned_name(machine: &HostMachine, names: &NameSet) -> (is: bool)
    ensures
        is == (machine.ownership is Owned && names@.contains(machine.name@)),
{
    machine.ownership == MachineOwnership::Owned && names.contains(machine.name.as_str())
}

fn is_stray_machine(machine: &HostMachine, owned: &NameSet, hot_names: &NameSet) -> (is: bool)
    ensures
        is == (machine.state is Running && !(machine.ownership is Owned && owned@.contains(
            machine.name@,
        )) && !hot_names@.contains(machine.name@)),
{
    machine.state == MachineState::Running && !is_owned_name(machine, owned) && !hot_names.contains(
        machine.name.as_str(),
    )
}

/// Machines the host reports running that no live entry owns; a box someone
/// started by hand takes a slot exactly like one of ours.
pub fn foreign_running(
    active: &Vec<&Allocation>,
    machines: &Vec<HostMachine>,
    hot_names: &NameSet,
) -> (count: usize)
    ensures
        count == stray_count(machines@, active@.unref(), hot_names@),
        count <= machines@.len(),
{
    let owned: NameSet = live_names(active);
    let ghost live: Seq<Allocation> = active@.unref();
    let mut count: usize = 0;
    let mut i: usize = 0;
    while i < machines.len()
        invariant
            forall|name: Seq<char>| #[trigger] owned@.contains(name) <==> is_live_name(live, name),
            i <= machines@.len(),
            count <= i,
            count == stray_count(machines@.take(i as int), live, hot_names@),
        decreases machines@.len() - i,
    {
        let machine: &HostMachine = &machines[i];
        proof {
            assert(machines@.take(i + 1).drop_last() =~= machines@.take(i as int));
            assert(machines@.take(i + 1).last() == *machine);
        }
        if is_stray_machine(machine, &owned, hot_names) {
            count = count + 1;
        }
        i = i + 1;
    }
    assert(machines@.take(machines@.len() as int) =~= machines@);
    count
}

/// The first finished allocation whose guest was created under this name.
pub fn find_remnant<'a>(entries: &'a Vec<Entry>, name: &str) -> (found: Option<&'a Allocation>)
    ensures
        match found {
            Some(allocation) => remnant(entries@, name@) == Some(*allocation),
            None => remnant(entries@, name@) is None,
        },
{
    let mut found: Option<&'a Allocation> = None;
    let mut i: usize = 0;
    while i < entries.len()
        invariant
            i <= entries@.len(),
            match found {
                Some(allocation) => remnant(entries@.take(i as int), name@) == Some(*allocation),
                None => remnant(entries@.take(i as int), name@) is None,
            },
        decreases entries@.len() - i,
    {
        let entry: &'a Entry = &entries[i];
        proof {
            assert(entries@.take(i + 1).drop_last() =~= entries@.take(i as int));
            assert(entries@.take(i + 1).last() == *entry);
        }
        if found.is_none() && entry.allocation.state.is_terminal() && entry.allocation.vm_created
            && is_same_text(entry.allocation.vm_name.as_str(), name) {
            found = Some(&entry.allocation);
        }
        i = i + 1;
    }
    assert(entries@.take(entries@.len() as int) =~= entries@);
    found
}

/// A guest still running under a terminal record is memory the host has already
/// spent, so it is charged as well as counted. A machine no record claims stays
/// slot-only: a box someone started by hand is not the daemon's to size.
pub fn orphan_capacity(
    entries: &Vec<Entry>,
    active: &Vec<&Allocation>,
    machines: &Vec<HostMachine>,
    config: &Config,
    hot_names: &NameSet,
) -> (capacity: CommittedCapacity)
    requires
        committed_usage(
            orphans(machines@, entries@, active@.unref(), hot_names@),
            *config,
        ).cpu_count <= u32::MAX,
    ensures
        capacity.holds(
            committed_usage(orphans(machines@, entries@, active@.unref(), hot_names@), *config),
        ),
{
    let owned: NameSet = live_names(active);
    let ghost live: Seq<Allocation> = active@.unref();
    let mut held: Vec<&Allocation> = Vec::new();
    let mut i: usize = 0;
    while i < machines.len()
        invariant
            forall|name: Seq<char>| #[trigger] owned@.contains(name) <==> is_live_name(live, name),
            i <= machines@.len(),
            held@.unref() == orphans(machines@.take(i as int), entries@, live, hot_names@),
        decreases machines@.len() - i,
    {
        let machine: &HostMachine = &machines[i];
        proof {
            assert(machines@.take(i + 1).drop_last() =~= machines@.take(i as int));
            assert(machines@.take(i + 1).last() == *machine);
        }
        if is_stray_machine(machine, &owned, hot_names) && machine.ownership
            == MachineOwnership::Owned {
            if let Some(allocation) = find_remnant(entries, machine.name.as_str()) {
                let ghost before: Seq<Allocation> = held@.unref();
                held.push(allocation);
                assert(held@.unref() =~= before.push(*allocation));
            }
        }
        i = i + 1;
    }
    assert(machines@.take(machines@.len() as int) =~= machines@);
    committed_capacity(&held, config)
}

/// Charges known foreign workloads and marks unknown ones fail-closed. A
/// terminal allocation's surviving guest is charged by `orphan_capacity`.
pub fn foreign_capacity(
    entries: &Vec<Entry>,
    active: &Vec<&Allocation>,
    machines: &Vec<HostMachine>,
    hot_names: &NameSet,
) -> (charged: (CommittedCapacity, bool))
    ensures
        charged.0.holds(foreign_usage(machines@, entries@, active@.unref(), hot_names@)),
        charged.1 == has_unknown_foreign(machines@, entries@, active@.unref(), hot_names@),
{
    let owned: NameSet = live_names(active);
    let ghost live: Seq<Allocation> = active@.unref();
    let mut capacity: CommittedCapacity = CommittedCapacity::default();
    let mut unknown: bool = false;
    let mut i: usize = 0;
    while i < machines.len()
        invariant
            forall|name: Seq<char>| #[trigger] owned@.contains(name) <==> is_live_name(live, name),
            i <= machines@.len(),
            capacity.active <= i,
            capacity.holds(foreign_usage(machines@.take(i as int), entries@, live, hot_names@)),
            unknown == exists|k: int|
                0 <= k < i && (#[trigger] machines@[k]).size is None && is_foreign(
                    machines@[k],
                    entries@,
                    live,
                    hot_names@,
                ),
        decreases machines@.len() - i,
    {
        let machine: &HostMachine = &machines[i];
        proof {
            assert(machines@.take(i + 1).drop_last() =~= machines@.take(i as int));
            assert(machines@.take(i + 1).last() == *machine);
        }
        if is_stray_machine(machine, &owned, hot_names) && !(machine.ownership
            == MachineOwnership::Owned && find_remnant(entries, machine.name.as_str()).is_some()) {
            assert(is_foreign(machines@[i as int], entries@, live, hot_names@));
            match machine.size {
                Some(size) => {
                    capacity = plus_size(capacity, size);
                },
                None => {
                    assert(machines@[i as int].size is None);
                    unknown = true;
                },
            }
        }
        i = i + 1;
    }
    assert(machines@.take(machines@.len() as int) =~= machines@);
    (capacity, unknown)
}

pub fn busy(reason: BusyReason, holder: Option<AllocationId>) -> (error: ManagerError)
    ensures
        error == (ManagerError::Busy { reason, holder }),
{
    ManagerError::Busy { reason, holder }
}

/// Everything already on the host, as an admission sees it.
pub struct HostLoad {
    pub strays: nat,
    pub committed: Usage,
    pub pooled: Usage,
    pub orphaned: Usage,
    pub foreign: Usage,
    pub has_unknown_foreign: bool,
}

impl HostLoad {
    pub open spec fn of(
        entries: Seq<Entry>,
        config: Config,
        machines: Seq<HostMachine>,
        hot: Seq<HotGuest>,
    ) -> HostLoad {
        let active = live_allocations(entries);
        let pooled = pooled_names(hot, machines);
        HostLoad {
            strays: stray_count(machines, active, pooled),
            committed: committed_usage(active, config),
            pooled: pool_usage(hot, active, pooled),
            orphaned: committed_usage(orphans(machines, entries, active, pooled), config),
            foreign: foreign_usage(machines, entries, active, pooled),
            has_unknown_foreign: has_unknown_foreign(machines, entries, active, pooled),
        }
    }

    /// Machines that hold a slot.
    pub open spec fn slots(self) -> nat {
        self.strays + self.committed.slots + self.pooled.slots
    }

    pub open spec fn cpu_count(self) -> nat {
        self.committed.cpu_count + self.orphaned.cpu_count + self.foreign.cpu_count
            + self.pooled.cpu_count
    }

    pub open spec fn memory_mb(self) -> nat {
        self.committed.memory_mb + self.orphaned.memory_mb + self.foreign.memory_mb
            + self.pooled.memory_mb
    }

    pub open spec fn storage_mb(self) -> nat {
        self.committed.storage_mb + self.orphaned.storage_mb + self.foreign.storage_mb
            + self.pooled.storage_mb
    }

    /// The counters hold every sum of processors.
    pub open spec fn is_countable(self) -> bool {
        self.committed.cpu_count <= u32::MAX && self.orphaned.cpu_count <= u32::MAX
    }
}

/// Does an amount go over a limit, where amounts are counted up to `most`?
pub open spec fn exceeds(amount: int, limit: int, most: int) -> bool {
    amount > limit && limit < most
}

/// Why a request of this size is refused on this load, or `None` if it is not.
pub open spec fn refusal(config: Config, load: HostLoad, requested: GuestSize) -> Option<
    BusyReason,
> {
    let runtime = config.runtime;
    if load.slots() + 1 > runtime.max_running_vms {
        Some(BusyReason::Slots)
    } else if runtime.host_cpu_count is None || runtime.host_memory_mb is None {
        if load.committed.slots == 0 {
            None
        } else {
            Some(BusyReason::Serialized)
        }
    } else if load.has_unknown_foreign {
        Some(BusyReason::Budget)
    } else {
        let reserve = runtime.storage_reserve();
        if exceeds(
            load.cpu_count() + requested.cpu_count,
            runtime.host_cpu_count.unwrap() as int,
            u32::MAX as int,
        ) || exceeds(
            load.memory_mb() + requested.memory_mb,
            runtime.host_memory_mb.unwrap() as int,
            u32::MAX as int,
        ) || (runtime.host_storage_mb matches Some(host) && exceeds(
            load.storage_mb() + requested.storage_mb + reserve,
            host as int,
            u64::MAX as int,
        )) {
            Some(BusyReason::Budget)
        } else {
            None
        }
    }
}

/// The allocation a refusal names: the first one still going.
pub open spec fn first_holder(entries: Seq<Entry>) -> Option<AllocationId> {
    let active = live_allocations(entries);
    if active.len() == 0 {
        None
    } else {
        Some(active[0].id)
    }
}

/// An entry that is producing this profile's next image.
pub open spec fn is_producing(entry: Entry, profile: Seq<char>) -> bool {
    &&& entry.allocation.live()
    &&& entry.allocation.mode is Regenerate
    &&& entry.allocation.request.profile@ == profile
}

impl AllocationManager {
    /// One producer per profile: two regenerations compute the same next
    /// generation from the same record and would race on the image it names.
    pub fn ensure_sole_producer(
        entries: &Vec<Entry>,
        profile: &str,
        mode: AllocationMode,
    ) -> (sole: Result<(), ManagerError>)
        ensures
            sole is Ok <==> !(mode is Regenerate) || forall|i: int|
                0 <= i < entries@.len() ==> !is_producing(#[trigger] entries@[i], profile@),
            sole matches Err(error) ==> exists|i: int|
                0 <= i < entries@.len() && is_producing(#[trigger] entries@[i], profile@) && (
                forall|k: int| 0 <= k < i ==> !is_producing(#[trigger] entries@[k], profile@))
                    && error == (ManagerError::Busy {
                    reason: BusyReason::Regenerating,
                    holder: Some(entries@[i].allocation.id),
                }),
    {
        if mode != AllocationMode::Regenerate {
            return Ok(());
        }
        let mut i: usize = 0;
        while i < entries.len()
            invariant
                mode is Regenerate,
                i <= entries@.len(),
                forall|k: int| 0 <= k < i ==> !is_producing(#[trigger] entries@[k], profile@),
            decreases entries@.len() - i,
        {
            let allocation: &Allocation = &entries[i].allocation;
            if !allocation.state.is_terminal() && allocation.mode == AllocationMode::Regenerate
                && is_same_text(allocation.request.profile.as_str(), profile) {
                assert(is_producing(entries@[i as int], profile@));
                return Err(busy(BusyReason::Regenerating, Some(allocation.id.clone())));
            }
            i = i + 1;
        }
        Ok(())
    }

    /// Admits under the running-VM limit and the host budget, or names why not.
    /// A hot machine is neither foreign nor an orphan: it is classified from
    /// its record and charged as the slot and size it holds continuously.
    pub fn ensure_capacity(
        entries: &Vec<Entry>,
        config: &Config,
        requested: GuestSize,
        machines: &Vec<HostMachine>,
        hot: &Vec<HotGuest>,
    ) -> (admitted: Result<(), ManagerError>)
        requires
            HostLoad::of(entries@, *config, machines@, hot@).is_countable(),
        ensures
            admitted == match refusal(
                *config,
                HostLoad::of(entries@, *config, machines@, hot@),
                requested,
            ) {
                None => Ok::<(), ManagerError>(()),
                Some(reason) => Err::<(), ManagerError>(
                    ManagerError::Busy { reason, holder: first_holder(entries@) },
                ),
            },
    {
        let ghost load: HostLoad = HostLoad::of(entries@, *config, machines@, hot@);
        let active: Vec<&Allocation> = active_allocations(entries);
        let holder: Option<AllocationId> = if active.len() == 0 {
            None
        } else {
            Some(active[0].id.clone())
        };
        proof {
            lemma_committed_slots(active@.unref(), *config);
            assert(active@.len() > 0 ==> active@.unref()[0] == *active@[0]);
        }
        let pooled_set: NameSet = hot_names(hot, machines);
        let foreign: usize = foreign_running(&active, machines, &pooled_set);
        let committed: CommittedCapacity = committed_capacity(&active, config);
        let orphaned: CommittedCapacity = orphan_capacity(
            entries,
            &active,
            machines,
            config,
            &pooled_set,
        );
        let pooled: CommittedCapacity = hot_capacity(hot, &active, &pooled_set);
        let (charged, has_unknown_foreign_size): (CommittedCapacity, bool) = foreign_capacity(
            entries,
            &active,
            machines,
            &pooled_set,
        );
        let running: usize = foreign.saturating_add(committed.active).saturating_add(
            pooled.active,
        ).saturating_add(1);
        if running > config.runtime.max_running_vms as usize {
            return Err(busy(BusyReason::Slots, holder));
        }
        let (host_cpu_count, host_memory_mb): (u8, u32) = match (
            config.runtime.host_cpu_count,
            config.runtime.host_memory_mb,
        ) {
            (Some(cpu), Some(memory)) => (cpu, memory),
            _ => {
                // An unset budget keeps the serialized behaviour that predates it.
                return if committed.active == 0 {
                    Ok(())
                } else {
                    Err(busy(BusyReason::Serialized, holder))
                };
            },
        };
        if has_unknown_foreign_size {
            return Err(busy(BusyReason::Budget, holder));
        }
        let cpu_count: u32 = committed.cpu_count.saturating_add(
            orphaned.cpu_count,
        ).saturating_add(charged.cpu_count).saturating_add(pooled.cpu_count).saturating_add(
            requested.cpu_count as u32,
        );
        let memory_mb: u32 = committed.memory_mb.saturating_add(
            orphaned.memory_mb,
        ).saturating_add(charged.memory_mb).saturating_add(pooled.memory_mb).saturating_add(
            requested.memory_mb,
        );
        let storage_mb: u64 = committed.storage_mb.saturating_add(
            orphaned.storage_mb,
        ).saturating_add(charged.storage_mb).saturating_add(pooled.storage_mb).saturating_add(
            requested.storage_mb,
        );
        let storage_reserve: u64 = match config.runtime.min_storage_free_mb {
            Some(mb) => mb,
            None => 0,
        };
        let reserved_storage_mb: u64 = storage_mb.saturating_add(storage_reserve);
        let is_storage_full: bool = match config.runtime.host_storage_mb {
            Some(host) => reserved_storage_mb > host,
            None => false,
        };
        if cpu_count > host_cpu_count as u32 || memory_mb > host_memory_mb || is_storage_full {
            return Err(busy(BusyReason::Budget, holder));
        }
        Ok(())
    }
}

/// How many guests of the largest size a record can carry have their processors
/// counted without overflow.
pub const COUNTED_GUESTS: usize = 16_843_009;

proof fn lemma_usage_bound(allocations: Seq<Allocation>, config: Config)
    ensures
        committed_usage(allocations, config).cpu_count <= 255 * allocations.len(),
    decreases allocations.len(),
{
    if allocations.len() > 0 {
        lemma_usage_bound(allocations.drop_last(), config);
    }
}

proof fn lemma_live_bound(entries: Seq<Entry>)
    ensures
        live_allocations(entries).len() <= entries.len(),
    decreases entries.len(),
{
    if entries.len() > 0 {
        lemma_live_bound(entries.drop_last());
    }
}

proof fn lemma_orphan_bound(
    machines: Seq<HostMachine>,
    entries: Seq<Entry>,
    active: Seq<Allocation>,
    pooled: Set<Seq<char>>,
)
    ensures
        orphans(machines, entries, active, pooled).len() <= machines.len(),
    decreases machines.len(),
{
    if machines.len() > 0 {
        lemma_orphan_bound(machines.drop_last(), entries, active, pooled);
    }
}

/// The load of a host is countable as long as neither the entries nor the
/// machines are more than `COUNTED_GUESTS`, whatever their sizes are.
pub proof fn law_counted_guests_are_countable(
    entries: Seq<Entry>,
    config: Config,
    machines: Seq<HostMachine>,
    hot: Seq<HotGuest>,
)
    requires
        entries.len() <= COUNTED_GUESTS,
        machines.len() <= COUNTED_GUESTS,
    ensures
        HostLoad::of(entries, config, machines, hot).is_countable(),
        committed_usage(live_allocations(entries), config).cpu_count <= u32::MAX,
{
    let active = live_allocations(entries);
    let pooled = pooled_names(hot, machines);
    lemma_live_bound(entries);
    lemma_usage_bound(active, config);
    lemma_orphan_bound(machines, entries, active, pooled);
    lemma_usage_bound(orphans(machines, entries, active, pooled), config);
}

/// What is admitted fits: one more slot is free, and where the host has a
/// budget the request and everything already charged stay inside it, with the
/// storage that is kept free left over.
pub proof fn law_admitted_fits(config: Config, load: HostLoad, requested: GuestSize)
    requires
        refusal(config, load, requested) is None,
    ensures
        load.slots() + 1 <= config.runtime.max_running_vms,
        config.runtime.host_cpu_count matches Some(host_cpu) ==> (
        config.runtime.host_memory_mb matches Some(host_memory) ==> {
            &&& !load.has_unknown_foreign
            &&& load.cpu_count() + requested.cpu_count <= host_cpu
            &&& host_memory < u32::MAX ==> load.memory_mb() + requested.memory_mb <= host_memory
            &&& config.runtime.host_storage_mb matches Some(host) ==> host < u64::MAX
                ==> load.storage_mb() + requested.storage_mb
                + config.runtime.storage_reserve() <= host
        }),
        config.runtime.host_cpu_count is None || config.runtime.host_memory_mb is None
            ==> load.committed.slots == 0,
{
}

/// A finished allocation commits nothing: the active allocations are the same
/// with and without its entry, so reaching a terminal state is the release.
pub proof fn law_terminal_entry_commits_nothing(before: Seq<Entry>, entry: Entry, after: Seq<Entry>)
    requires
        entry.allocation.state.terminal(),
    ensures
        live_allocations(before + seq![entry] + after) == live_allocations(before + after),
    decreases after.len(),
{
    if after.len() == 0 {
        assert((before + seq![entry] + after).drop_last() =~= before);
        assert(before + after =~= before);
    } else {
        law_terminal_entry_commits_nothing(before, entry, after.drop_last());
        assert((before + seq![entry] + after).drop_last() =~= before + seq![entry]
            + after.drop_last());
        assert((before + after).drop_last() =~= before + after.drop_last());
    }
}

/// A pool machine is charged once: a machine the pool holds is never counted as
/// a stray, and its record is charged on its own account exactly while no
/// active allocation pays for it.
pub proof fn law_pool_machine_is_charged_once(
    guest: HotGuest,
    machine: HostMachine,
    active: Seq<Allocation>,
    hot: Seq<HotGuest>,
    machines: Seq<HostMachine>,
)
    requires
        hot.contains(guest),
        machines.contains(machine),
        guest.state.holding(),
        machine.running_owned(),
        machine.name@ == guest.vm_name@,
    ensures
        !is_stray(machine, active, pooled_names(hot, machines)),
        crate::admission::hot::is_pool_charged(guest, active, pooled_names(hot, machines))
            <==> !crate::admission::hot::is_named_by(active, guest.vm_name@),
{
    let i: int = choose|i: int| 0 <= i < hot.len() && hot[i] == guest;
    let k: int = choose|k: int| 0 <= k < machines.len() && machines[k] == machine;
    assert(hot[i].state.holding());
    assert(crate::admission::hot::is_recorded(hot, guest.vm_name@));
    assert(machines[k].running_owned());
    assert(crate::admission::hot::is_owned_running(machines, guest.vm_name@));
}

/// A record over a machine this service does not own leaves that machine a
/// stray: a colliding name is not evidence.
pub proof fn law_unowned_machine_stays_foreign(
    machine: HostMachine,
    active: Seq<Allocation>,
    hot: Seq<HotGuest>,
    machines: Seq<HostMachine>,
)
    requires
        machine.state is Running,
        !(machine.ownership is Owned),
        forall|i: int|
            0 <= i < machines.len() && (#[trigger] machines[i]).name@ == machine.name@ ==> !(
            machines[i].ownership is Owned),
    ensures
        is_stray(machine, active, pooled_names(hot, machines)),
{
}

/// The rule of admission, in the amounts themselves. What is charged is every
/// live allocation, every guest that outlived its own, every foreign machine and
/// everything the pool holds, in each of the three dimensions; the storage that
/// is kept free comes on top. A counter that is full at exactly the limit cannot
/// tell, so a host of that very size is left out.
pub proof fn law_admission_charges_everything(
    entries: Seq<Entry>,
    config: Config,
    machines: Seq<HostMachine>,
    hot: Seq<HotGuest>,
    requested: GuestSize,
)
    ensures
        ({
            let answer = refusal(config, HostLoad::of(entries, config, machines, hot), requested);
            let active = live_allocations(entries);
            let pooled = pooled_names(hot, machines);
            let committed = committed_usage(active, config);
            let orphaned = committed_usage(orphans(machines, entries, active, pooled), config);
            let foreign = foreign_usage(machines, entries, active, pooled);
            let pool = pool_usage(hot, active, pooled);
            let running = stray_count(machines, active, pooled) + active.len() + pool.slots;
            let cpu_count = committed.cpu_count + orphaned.cpu_count + foreign.cpu_count
                + pool.cpu_count + requested.cpu_count;
            let memory_mb = committed.memory_mb + orphaned.memory_mb + foreign.memory_mb
                + pool.memory_mb + requested.memory_mb;
            let storage_mb = committed.storage_mb + orphaned.storage_mb + foreign.storage_mb
                + pool.storage_mb + requested.storage_mb + match config.runtime.min_storage_free_mb {
                Some(mb) => mb as int,
                None => 0int,
            };
            let is_unsized = has_unknown_foreign(machines, entries, active, pooled);
            &&& answer == Some(BusyReason::Slots) <==> running >= config.runtime.max_running_vms
            &&& running < config.runtime.max_running_vms ==> match (
                config.runtime.host_cpu_count,
                config.runtime.host_memory_mb,
            ) {
                (Some(host_cpu), Some(host_memory)) => {
                    &&& answer is None || answer == Some(BusyReason::Budget)
                    &&& answer is None ==> {
                        &&& !is_unsized
                        &&& cpu_count <= host_cpu
                        &&& host_memory < u32::MAX ==> memory_mb <= host_memory
                        &&& config.runtime.host_storage_mb matches Some(host_storage) ==> (
                        host_storage < u64::MAX ==> storage_mb <= host_storage)
                    }
                    &&& answer is Some ==> {
                        ||| is_unsized
                        ||| cpu_count > host_cpu
                        ||| memory_mb > host_memory
                        ||| config.runtime.host_storage_mb matches Some(host_storage) && storage_mb
                            > host_storage
                    }
                },
                _ => answer == if active.len() == 0 {
                    None
                } else {
                    Some(BusyReason::Serialized)
                },
            }
        }),
{
    lemma_committed_slots(live_allocations(entries), config);
}

proof fn lemma_live_joined(before: Seq<Entry>, after: Seq<Entry>)
    ensures
        live_allocations(before + after) == live_allocations(before) + live_allocations(after),
    decreases after.len(),
{
    if after.len() == 0 {
        assert(before + after =~= before);
        assert(live_allocations(before) + live_allocations(after) =~= live_allocations(before));
    } else {
        lemma_live_joined(before, after.drop_last());
        assert((before + after).drop_last() =~= before + after.drop_last());
        assert(live_allocations(before + after) =~= live_allocations(before) + live_allocations(
            after,
        ));
    }
}

proof fn lemma_usage_of_one_more(
    before: Seq<Allocation>,
    allocation: Allocation,
    after: Seq<Allocation>,
    config: Config,
)
    ensures
        ({
            let with = committed_usage(before.push(allocation) + after, config);
            let without = committed_usage(before + after, config);
            match charged_size(allocation, config) {
                Some(size) => with == without.and(size),
                None => with == without.and_slot(),
            }
        }),
    decreases after.len(),
{
    if after.len() == 0 {
        assert(before.push(allocation) + after =~= before.push(allocation));
        assert(before.push(allocation).drop_last() =~= before);
        assert(before + after =~= before);
    } else {
        lemma_usage_of_one_more(before, allocation, after.drop_last(), config);
        assert((before.push(allocation) + after).drop_last() =~= before.push(allocation)
            + after.drop_last());
        assert((before + after).drop_last() =~= before + after.drop_last());
    }
}

/// The largest size takes in every profile and invents nothing: in each
/// dimension some profile declares it, and none declares more.
pub proof fn law_largest_size_covers_every_profile(profiles: Seq<NamedProfile>)
    ensures
        largest_size(profiles) is None <==> profiles.len() == 0,
        largest_size(profiles) matches Some(size) ==> {
            &&& forall|i: int|
                0 <= i < profiles.len() ==> {
                    &&& (#[trigger] profiles[i]).profile.cpu_count <= size.cpu_count
                    &&& profiles[i].profile.memory_mb <= size.memory_mb
                    &&& profiles[i].profile.storage_mb <= size.storage_mb
                }
            &&& exists|i: int|
                0 <= i < profiles.len() && (#[trigger] profiles[i]).profile.cpu_count
                    == size.cpu_count
            &&& exists|i: int|
                0 <= i < profiles.len() && (#[trigger] profiles[i]).profile.memory_mb
                    == size.memory_mb
            &&& exists|i: int|
                0 <= i < profiles.len() && (#[trigger] profiles[i]).profile.storage_mb
                    == size.storage_mb
        },
    decreases profiles.len(),
{
    if profiles.len() > 0 {
        let rest = profiles.drop_last();
        let last: int = profiles.len() - 1;
        law_largest_size_covers_every_profile(rest);
        assert(profiles[last] == profiles.last());
        assert forall|i: int| 0 <= i < rest.len() implies #[trigger] profiles[i] == rest[i] by {}
        if let Some(held) = largest_size(rest) {
            let c: int = choose|i: int|
                0 <= i < rest.len() && (#[trigger] rest[i]).profile.cpu_count == held.cpu_count;
            let m: int = choose|i: int|
                0 <= i < rest.len() && (#[trigger] rest[i]).profile.memory_mb == held.memory_mb;
            let d: int = choose|i: int|
                0 <= i < rest.len() && (#[trigger] rest[i]).profile.storage_mb == held.storage_mb;
            assert(profiles[c] == rest[c] && profiles[m] == rest[m] && profiles[d] == rest[d]);
            assert forall|i: int| 0 <= i < profiles.len() implies {
                let size = largest_size(profiles).unwrap();
                &&& (#[trigger] profiles[i]).profile.cpu_count <= size.cpu_count
                &&& profiles[i].profile.memory_mb <= size.memory_mb
                &&& profiles[i].profile.storage_mb <= size.storage_mb
            } by {
                if i < last {
                    assert(profiles[i] == rest[i]);
                }
            }
        }
    }
}

/// What a record costs: the size it was given; where it has none, what the first
/// profile of its name declares now; where that profile is gone, the largest of
/// the configuration. Only without any profile does it cost no more than a slot.
pub proof fn law_guest_of_unknown_size_is_not_free(allocation: Allocation, config: Config, k: int)
    ensures
        allocation.size is Some ==> charged_size(allocation, config) == allocation.size,
        allocation.size is None && 0 <= k < config.profiles@.len()
            && config.profiles@[k].name@ == allocation.request.profile@ && (forall|j: int|
            0 <= j < k ==> (#[trigger] config.profiles@[j]).name@ != allocation.request.profile@)
            ==> charged_size(allocation, config) == Some(
            GuestSize {
                cpu_count: config.profiles@[k].profile.cpu_count,
                memory_mb: config.profiles@[k].profile.memory_mb,
                storage_mb: config.profiles@[k].profile.storage_mb,
            },
        ),
        allocation.size is None && (forall|j: int|
            0 <= j < config.profiles@.len() ==> (#[trigger] config.profiles@[j]).name@
                != allocation.request.profile@) ==> charged_size(allocation, config)
            == largest_size(config.profiles@),
        charged_size(allocation, config) is None ==> config.profiles@.len() == 0,
{
    lemma_profile_index(config.profiles@, allocation.request.profile@);
    law_largest_size_covers_every_profile(config.profiles@);
    if let Some(index) = profile_index(config.profiles@, allocation.request.profile@) {
        if 0 <= k < index {
            assert(config.profiles@[k].name@ != allocation.request.profile@);
        }
    }
}

/// Every allocation that has not completed, failed or been cancelled is charged,
/// once and wherever it stands: one slot, and all of its size. One that is over
/// is charged nothing.
pub proof fn law_every_live_allocation_is_charged(
    before: Seq<Entry>,
    entry: Entry,
    after: Seq<Entry>,
    config: Config,
)
    ensures
        live_allocations(Seq::<Entry>::empty()).len() == 0,
        committed_usage(Seq::<Allocation>::empty(), config) == (Usage {
            slots: 0,
            cpu_count: 0,
            memory_mb: 0,
            storage_mb: 0,
        }),
        ({
            let with = committed_usage(live_allocations(before + seq![entry] + after), config);
            let without = committed_usage(live_allocations(before + after), config);
            match entry.allocation.state {
                AllocationState::Completed
                | AllocationState::Failed
                | AllocationState::Cancelled => with == without,
                _ => with.slots == without.slots + 1 && match charged_size(
                    entry.allocation,
                    config,
                ) {
                    Some(size) => {
                        &&& with.cpu_count == without.cpu_count + size.cpu_count
                        &&& with.memory_mb == without.memory_mb + size.memory_mb
                        &&& with.storage_mb == without.storage_mb + size.storage_mb
                    },
                    None => with == (Usage { slots: with.slots, ..without }),
                },
            }
        }),
{
    let held = live_allocations(before);
    let rest = live_allocations(after);
    lemma_live_joined(before, after);
    lemma_live_joined(before + seq![entry], after);
    lemma_live_joined(before, seq![entry]);
    assert(seq![entry].drop_last() =~= Seq::<Entry>::empty());
    assert(live_allocations(seq![entry].drop_last()) =~= Seq::<Allocation>::empty());
    if entry.allocation.live() {
        assert(live_allocations(seq![entry]) =~= seq![entry.allocation]);
        assert(held + seq![entry.allocation] =~= held.push(entry.allocation));
        lemma_usage_of_one_more(held, entry.allocation, rest, config);
    } else {
        assert(live_allocations(seq![entry]) =~= Seq::<Allocation>::empty());
        assert(held + Seq::<Allocation>::empty() =~= held);
    }
}

/// Every running machine that no live allocation owns by name and the pool does
/// not hold takes one slot, wherever the host lists it; no other machine does.
pub proof fn law_every_stray_machine_takes_a_slot(
    before: Seq<HostMachine>,
    machine: HostMachine,
    after: Seq<HostMachine>,
    active: Seq<Allocation>,
    pooled: Set<Seq<char>>,
)
    ensures
        stray_count(Seq::<HostMachine>::empty(), active, pooled) == 0,
        stray_count(before + seq![machine] + after, active, pooled) == stray_count(
            before + after,
            active,
            pooled,
        ) + if machine.state is Running && !pooled.contains(machine.name@) && (
        machine.ownership is Owned ==> forall|i: int|
            0 <= i < active.len() ==> (#[trigger] active[i]).vm_name@ != machine.name@) {
            1nat
        } else {
            0nat
        },
    decreases after.len(),
{
    let all = before + seq![machine] + after;
    if after.len() == 0 {
        assert(all.drop_last() =~= before);
        assert(before + after =~= before);
    } else {
        law_every_stray_machine_takes_a_slot(before, machine, after.drop_last(), active, pooled);
        assert(all.drop_last() =~= before + seq![machine] + after.drop_last());
        assert((before + after).drop_last() =~= before + after.drop_last());
    }
}

proof fn lemma_remnant(entries: Seq<Entry>, name: Seq<char>)
    ensures
        match remnant(entries, name) {
            Some(allocation) => exists|i: int|
                0 <= i < entries.len() && is_remnant(#[trigger] entries[i], name)
                    && entries[i].allocation == allocation && forall|k: int|
                    0 <= k < i ==> !is_remnant(#[trigger] entries[k], name),
            None => forall|i: int|
                0 <= i < entries.len() ==> !is_remnant(#[trigger] entries[i], name),
        },
    decreases entries.len(),
{
    if entries.len() > 0 {
        let rest = entries.drop_last();
        lemma_remnant(rest, name);
        assert forall|i: int| 0 <= i < rest.len() implies #[trigger] entries[i] == rest[i] by {}
        match remnant(rest, name) {
            Some(allocation) => {
                let i: int = choose|i: int|
                    0 <= i < rest.len() && is_remnant(#[trigger] rest[i], name)
                        && rest[i].allocation == allocation && forall|k: int|
                        0 <= k < i ==> !is_remnant(#[trigger] rest[k], name);
                assert(entries[i] == rest[i]);
                assert forall|k: int| 0 <= k < i implies !is_remnant(
                    #[trigger] entries[k],
                    name,
                ) by {
                    assert(!is_remnant(rest[k], name));
                }
            },
            None => {
                assert forall|k: int| 0 <= k < rest.len() implies !is_remnant(
                    #[trigger] entries[k],
                    name,
                ) by {
                    assert(!is_remnant(rest[k], name));
                }
                assert(entries[entries.len() - 1] == entries.last());
            },
        }
    }
}

/// A running machine of ours that neither a live allocation nor the pool has is
/// charged to the first finished allocation whose guest was created under its
/// name, at what that one's record costs.
pub proof fn law_outlived_guest_is_charged_to_its_record(
    before: Seq<HostMachine>,
    machine: HostMachine,
    after: Seq<HostMachine>,
    entries: Seq<Entry>,
    i: int,
    active: Seq<Allocation>,
    pooled: Set<Seq<char>>,
    config: Config,
)
    requires
        machine.state is Running,
        machine.ownership is Owned,
        !pooled.contains(machine.name@),
        forall|k: int| 0 <= k < active.len() ==> (#[trigger] active[k]).vm_name@ != machine.name@,
        0 <= i < entries.len(),
        entries[i].allocation.vm_created,
        entries[i].allocation.vm_name@ == machine.name@,
        entries[i].allocation.state is Completed || entries[i].allocation.state is Failed
            || entries[i].allocation.state is Cancelled,
        forall|k: int|
            0 <= k < i ==> (#[trigger] entries[k]).allocation.vm_name@ != machine.name@ || !(
            entries[k].allocation.vm_created && (entries[k].allocation.state is Completed
                || entries[k].allocation.state is Failed
                || entries[k].allocation.state is Cancelled)),
    ensures
        ({
            let with = committed_usage(
                orphans(before + seq![machine] + after, entries, active, pooled),
                config,
            );
            let without = committed_usage(
                orphans(before + after, entries, active, pooled),
                config,
            );
            charged_size(entries[i].allocation, config) matches Some(size) ==> {
                &&& with.cpu_count == without.cpu_count + size.cpu_count
                &&& with.memory_mb == without.memory_mb + size.memory_mb
                &&& with.storage_mb == without.storage_mb + size.storage_mb
            }
        }),
    decreases after.len(),
{
    let all = before + seq![machine] + after;
    let name = machine.name@;
    lemma_remnant(entries, name);
    assert(is_remnant(entries[i], name));
    if let Some(allocation) = remnant(entries, name) {
        let k: int = choose|k: int|
            0 <= k < entries.len() && is_remnant(#[trigger] entries[k], name)
                && entries[k].allocation == allocation && forall|j: int|
                0 <= j < k ==> !is_remnant(#[trigger] entries[j], name);
        assert(k == i);
    }
    if after.len() == 0 {
        assert(all.drop_last() =~= before);
        assert(before + after =~= before);
        let held = orphans(before, entries, active, pooled);
        assert(held.push(entries[i].allocation).drop_last() =~= held);
    } else {
        law_outlived_guest_is_charged_to_its_record(
            before,
            machine,
            after.drop_last(),
            entries,
            i,
            active,
            pooled,
            config,
        );
        assert(all.drop_last() =~= before + seq![machine] + after.drop_last());
        assert((before + after).drop_last() =~= before + after.drop_last());
        let with = orphans(all.drop_last(), entries, active, pooled);
        let without = orphans((before + after).drop_last(), entries, active, pooled);
        let last = after.last();
        assert(all.last() == last && (before + after).last() == last);
        if is_orphan(last, entries, active, pooled) {
            let found = remnant(entries, last.name@).unwrap();
            assert(with.push(found).drop_last() =~= with);
            assert(without.push(found).drop_last() =~= without);
        }
    }
}

/// A machine that does not run, that a live allocation of ours owns, that the
/// pool holds, that is not ours, or that no finished allocation created, is
/// charged to no finished allocation.
pub proof fn law_only_outlived_guests_are_charged_to_records(
    before: Seq<HostMachine>,
    machine: HostMachine,
    after: Seq<HostMachine>,
    entries: Seq<Entry>,
    active: Seq<Allocation>,
    pooled: Set<Seq<char>>,
)
    requires
        !(machine.state is Running) || !(machine.ownership is Owned) || pooled.contains(
            machine.name@,
        ) || (exists|k: int|
            0 <= k < active.len() && (#[trigger] active[k]).vm_name@ == machine.name@) || (forall|
            k: int,
        |
            0 <= k < entries.len() ==> !((#[trigger] entries[k]).allocation.vm_created
                && entries[k].allocation.vm_name@ == machine.name@ && (
            entries[k].allocation.state is Completed || entries[k].allocation.state is Failed
                || entries[k].allocation.state is Cancelled))),
    ensures
        orphans(before + seq![machine] + after, entries, active, pooled) == orphans(
            before + after,
            entries,
            active,
            pooled,
        ),
    decreases after.len(),
{
    let all = before + seq![machine] + after;
    lemma_remnant(entries, machine.name@);
    assert(!is_orphan(machine, entries, active, pooled));
    if after.len() == 0 {
        assert(all.drop_last() =~= before);
        assert(before + after =~= before);
    } else {
        law_only_outlived_guests_are_charged_to_records(
            before,
            machine,
            after.drop_last(),
            entries,
            active,
            pooled,
        );
        assert(all.drop_last() =~= before + seq![machine] + after.drop_last());
        assert((before + after).drop_last() =~= before + after.drop_last());
    }
}

/// A running machine that nothing of ours accounts for (no live allocation owns
/// it, the pool does not hold it, and it is not ours or no finished allocation
/// created it) is charged what the host says it takes, and closes a budgeted
/// host where the host does not say. No other machine is charged so.
pub proof fn law_foreign_machine_is_charged_or_closes_the_host(
    before: Seq<HostMachine>,
    machine: HostMachine,
    after: Seq<HostMachine>,
    entries: Seq<Entry>,
    active: Seq<Allocation>,
    pooled: Set<Seq<char>>,
)
    ensures
        ({
            let all = before + seq![machine] + after;
            let with = foreign_usage(all, entries, active, pooled);
            let without = foreign_usage(before + after, entries, active, pooled);
            let is_ours = machine.ownership is Owned && ((exists|k: int|
                0 <= k < active.len() && (#[trigger] active[k]).vm_name@ == machine.name@) || (
            exists|k: int|
                0 <= k < entries.len() && (#[trigger] entries[k]).allocation.vm_created
                    && entries[k].allocation.vm_name@ == machine.name@ && (
                entries[k].allocation.state is Completed || entries[k].allocation.state is Failed
                    || entries[k].allocation.state is Cancelled)));
            if machine.state is Running && !pooled.contains(machine.name@) && !is_ours {
                match machine.size {
                    Some(size) => {
                        &&& with.cpu_count == without.cpu_count + size.cpu_count
                        &&& with.memory_mb == without.memory_mb + size.memory_mb
                        &&& with.storage_mb == without.storage_mb + size.storage_mb
                    },
                    None => has_unknown_foreign(all, entries, active, pooled),
                }
            } else {
                with == without && (has_unknown_foreign(all, entries, active, pooled)
                    <==> has_unknown_foreign(before + after, entries, active, pooled))
            }
        }),
        foreign_usage(Seq::<HostMachine>::empty(), entries, active, pooled) == (Usage {
            slots: 0,
            cpu_count: 0,
            memory_mb: 0,
            storage_mb: 0,
        }),
        !has_unknown_foreign(Seq::<HostMachine>::empty(), entries, active, pooled),
    decreases after.len(),
{
    let all = before + seq![machine] + after;
    let rest = before + after;
    lemma_remnant(entries, machine.name@);
    assert(all[before.len() as int] == machine);
    assert forall|k: int| 0 <= k < before.len() implies #[trigger] all[k] == rest[k] by {}
    assert forall|k: int| before.len() < k < all.len() implies #[trigger] all[k] == rest[k - 1] by {
    }
    if has_unknown_foreign(rest, entries, active, pooled) {
        let k: int = choose|k: int|
            0 <= k < rest.len() && (#[trigger] rest[k]).size is None && is_foreign(
                rest[k],
                entries,
                active,
                pooled,
            );
        if k < before.len() {
            assert(all[k] == rest[k]);
        } else {
            assert(all[k + 1] == rest[k]);
        }
    }
    if !is_foreign(machine, entries, active, pooled) && has_unknown_foreign(
        all,
        entries,
        active,
        pooled,
    ) {
        let k: int = choose|k: int|
            0 <= k < all.len() && (#[trigger] all[k]).size is None && is_foreign(
                all[k],
                entries,
                active,
                pooled,
            );
        assert(k != before.len());
        if k < before.len() {
            assert(rest[k] == all[k]);
        } else {
            assert(rest[k - 1] == all[k]);
        }
    }
    if after.len() == 0 {
        assert(all.drop_last() =~= before);
        assert(rest =~= before);
    } else {
        law_foreign_machine_is_charged_or_closes_the_host(
            before,
            machine,
            after.drop_last(),
            entries,
            active,
            pooled,
        );
        assert(all.drop_last() =~= before + seq![machine] + after.drop_last());
        assert(rest.drop_last() =~= before + after.drop_last());
    }
}

/// A refusal names whoever has held on longest: the first allocation that is not
/// over, and nobody where every one is.
pub proof fn law_refusal_names_the_first_live_allocation(entries: Seq<Entry>)
    ensures
        match first_holder(entries) {
            Some(id) => exists|i: int|
                #![trigger entries[i]]
                0 <= i < entries.len() && entries[i].allocation.id == id && !(
                entries[i].allocation.state is Completed || entries[i].allocation.state is Failed
                    || entries[i].allocation.state is Cancelled) && forall|k: int|
                    0 <= k < i ==> (#[trigger] entries[k]).allocation.state is Completed
                        || entries[k].allocation.state is Failed
                        || entries[k].allocation.state is Cancelled,
            None => forall|i: int|
                0 <= i < entries.len() ==> (#[trigger] entries[i]).allocation.state is Completed
                    || entries[i].allocation.state is Failed
                    || entries[i].allocation.state is Cancelled,
        },
    decreases entries.len(),
{
    if entries.len() > 0 {
        let rest = entries.drop_last();
        law_refusal_names_the_first_live_allocation(rest);
        assert forall|i: int| 0 <= i < rest.len() implies #[trigger] entries[i] == rest[i] by {}
        let last: int = entries.len() - 1;
        assert(entries[last] == entries.last());
        if let Some(id) = first_holder(rest) {
            let i: int = choose|i: int|
                #![trigger rest[i]]
                0 <= i < rest.len() && rest[i].allocation.id == id && !(
                rest[i].allocation.state is Completed || rest[i].allocation.state is Failed
                    || rest[i].allocation.state is Cancelled) && forall|k: int|
                    0 <= k < i ==> (#[trigger] rest[k]).allocation.state is Completed
                        || rest[k].allocation.state is Failed
                        || rest[k].allocation.state is Cancelled;
            assert(entries[i] == rest[i]);
            assert forall|k: int| 0 <= k < i implies (
            #[trigger] entries[k]).allocation.state is Completed
                || entries[k].allocation.state is Failed
                || entries[k].allocation.state is Cancelled by {
                assert(entries[k] == rest[k]);
            }
        }
    }
}

/// A profile's image is being produced by every regeneration of it that did not
/// end, and by nothing else.
pub proof fn law_unfinished_regeneration_is_a_producer(entry: Entry, profile: Seq<char>)
    ensures
        is_producing(entry, profile) <==> entry.allocation.mode is Regenerate
            && entry.allocation.request.profile@ == profile && !(entry.allocation.state is Completed
            || entry.allocation.state is Failed || entry.allocation.state is Cancelled),
{
}

/// A counter that is full stays full, and below that it counts.
pub proof fn law_counter_stops_at_its_limit(value: nat, limit: int)
    requires
        0 <= limit,
    ensures
        at_most(value, limit) <= limit,
        at_most(value, limit) <= value,
        at_most(value, limit) == limit || at_most(value, limit) == value,
{
}

} // verus!
