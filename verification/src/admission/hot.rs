use vstd::prelude::*;

use crate::admission::capacity::{plus_size, CommittedCapacity, Usage};
use crate::domain::allocation::{Allocation, AllocationOrigin};
use crate::domain::hot::{HotGuest, HotState};
use crate::domain::profile::Config;
use crate::error::{BusyReason, ManagerError, StoreError};
use crate::names::NameSet;
use crate::worker::model::{HostMachine, MachineOwnership, MachineState};

verus! {

/// Does the host report a machine of this name running and owned?
pub open spec fn is_owned_running(machines: Seq<HostMachine>, name: Seq<char>) -> bool {
    exists|i: int|
        0 <= i < machines.len() && (#[trigger] machines[i]).running_owned() && machines[i].name@
            == name
}

/// Does a pool record still holding its machine bear this name?
pub open spec fn is_recorded(hot: Seq<HotGuest>, name: Seq<char>) -> bool {
    exists|i: int|
        0 <= i < hot.len() && (#[trigger] hot[i]).state.holding() && hot[i].vm_name@ == name
}

/// The names the pool actually holds: a live record whose machine the host
/// reports running and owned.
pub open spec fn pooled_names(hot: Seq<HotGuest>, machines: Seq<HostMachine>) -> Set<Seq<char>> {
    Set::new(|name: Seq<char>| is_recorded(hot, name) && is_owned_running(machines, name))
}

/// The names of the machines the host reports running and owned.
pub fn owned_running_names(machines: &Vec<HostMachine>) -> (names: NameSet)
    ensures
        names.wf(),
        forall|name: Seq<char>| #[trigger] names@.contains(name) <==> is_owned_running(
            machines@,
            name,
        ),
{
    let mut names: NameSet = NameSet::new();
    let mut i: usize = 0;
    while i < machines.len()
        invariant
            i <= machines@.len(),
            names.wf(),
            forall|name: Seq<char>| #[trigger] names@.contains(name) <==> is_owned_running(
                machines@.take(i as int),
                name,
            ),
        decreases machines@.len() - i,
    {
        let machine: &HostMachine = &machines[i];
        let ghost before: Seq<HostMachine> = machines@.take(i as int);
        let ghost after: Seq<HostMachine> = machines@.take(i + 1);
        proof {
            assert(after =~= before.push(*machine));
        }
        if machine.state == MachineState::Running && machine.ownership == MachineOwnership::Owned {
            names.insert(machine.name.clone());
        }
        proof {
            assert forall|name: Seq<char>| is_owned_running(after, name) <==> (is_owned_running(
                before,
                name,
            ) || (machine.running_owned() && machine.name@ == name)) by {
                if is_owned_running(before, name) {
                    let k: int = choose|k: int|
                        0 <= k < before.len() && (#[trigger] before[k]).running_owned()
                            && before[k].name@ == name;
                    assert(after[k] == before[k]);
                }
                if machine.running_owned() && machine.name@ == name {
                    assert(after[before.len() as int] == *machine);
                }
                if is_owned_running(after, name) {
                    let k: int = choose|k: int|
                        0 <= k < after.len() && (#[trigger] after[k]).running_owned()
                            && after[k].name@ == name;
                    if k < before.len() {
                        assert(before[k] == after[k]);
                    }
                }
            }
        }
        i = i + 1;
    }
    assert(machines@.take(machines@.len() as int) =~= machines@);
    names
}

/// The names the pool actually holds. Ownership is re-checked here: a colliding
/// name is not evidence, so a record naming a machine this service does not own
/// leaves that machine to the fail-closed foreign path.
pub fn hot_names(hot: &Vec<HotGuest>, machines: &Vec<HostMachine>) -> (names: NameSet)
    ensures
        names.wf(),
        names@ == pooled_names(hot@, machines@),
{
    let owned: NameSet = owned_running_names(machines);
    let mut names: NameSet = NameSet::new();
    let mut i: usize = 0;
    proof {
        assert(names@ =~= pooled_names(hot@.take(0), machines@));
    }
    while i < hot.len()
        invariant
            i <= hot@.len(),
            names.wf(),
            forall|name: Seq<char>| #[trigger] owned@.contains(name) <==> is_owned_running(
                machines@,
                name,
            ),
            names@ == pooled_names(hot@.take(i as int), machines@),
        decreases hot@.len() - i,
    {
        let guest: &HotGuest = &hot[i];
        let ghost before: Seq<HotGuest> = hot@.take(i as int);
        let ghost after: Seq<HotGuest> = hot@.take(i + 1);
        proof {
            lemma_recorded_push(before, *guest);
            assert(after =~= before.push(*guest));
        }
        if guest.state.is_holding_machine() && owned.contains(guest.vm_name.as_str()) {
            names.insert(guest.vm_name.clone());
        }
        proof {
            assert(names@ =~= pooled_names(after, machines@));
        }
        i = i + 1;
    }
    assert(hot@.take(hot@.len() as int) =~= hot@);
    names
}

pub proof fn lemma_recorded_push(hot: Seq<HotGuest>, guest: HotGuest)
    ensures
        forall|name: Seq<char>|
            #![trigger is_recorded(hot.push(guest), name)]
            is_recorded(hot.push(guest), name) <==> (is_recorded(hot, name) || (
            guest.state.holding() && guest.vm_name@ == name)),
{
    let after: Seq<HotGuest> = hot.push(guest);
    assert forall|name: Seq<char>|
        #![trigger is_recorded(hot.push(guest), name)]
        is_recorded(hot.push(guest), name) <==> (is_recorded(hot, name) || (guest.state.holding()
            && guest.vm_name@ == name)) by {
        if is_recorded(hot, name) {
            let k: int = choose|k: int|
                0 <= k < hot.len() && (#[trigger] hot[k]).state.holding() && hot[k].vm_name@
                    == name;
            assert(after[k] == hot[k]);
        }
        if guest.state.holding() && guest.vm_name@ == name {
            assert(after[hot.len() as int] == guest);
        }
        if is_recorded(after, name) {
            let k: int = choose|k: int|
                0 <= k < after.len() && (#[trigger] after[k]).state.holding() && after[k].vm_name@
                    == name;
            if k < hot.len() {
                assert(hot[k] == after[k]);
            }
        }
    }
}

/// Does the configuration keep a pool anywhere?
pub open spec fn hot_configured(config: Config) -> bool {
    config.runtime.max_hot_vms > 0 || exists|i: int|
        0 <= i < config.profiles@.len() && (#[trigger] config.profiles@[i]).profile.live_hot()
            is Some
}

pub fn is_hot_configured(config: &Config) -> (is: bool)
    ensures
        is == hot_configured(*config),
{
    if config.runtime.max_hot_vms > 0 {
        return true;
    }
    let mut i: usize = 0;
    while i < config.profiles.len()
        invariant
            i <= config.profiles@.len(),
            config.runtime.max_hot_vms == 0,
            forall|k: int|
                0 <= k < i ==> (#[trigger] config.profiles@[k]).profile.live_hot() is None,
        decreases config.profiles@.len() - i,
    {
        if config.profiles[i].profile.enabled_hot().is_some() {
            assert(config.profiles@[i as int].profile.live_hot() is Some);
            return true;
        }
        i = i + 1;
    }
    false
}

/// Turns an unreadable hot store into a refusal only when the live
/// configuration enables hot somewhere. Without a pool nobody turned on there
/// is nothing to misclassify, and admission proceeds on an empty pool.
pub fn hot_snapshot(loaded: Result<Vec<HotGuest>, StoreError>, config: &Config) -> (snapshot: Result<
    Vec<HotGuest>,
    ManagerError,
>)
    ensures
        match loaded {
            Ok(hot) => snapshot == Ok::<Vec<HotGuest>, ManagerError>(hot),
            Err(_) => if hot_configured(*config) {
                snapshot == Err::<Vec<HotGuest>, ManagerError>(
                    ManagerError::Busy { reason: BusyReason::ProbeFailed, holder: None },
                )
            } else {
                snapshot matches Ok(hot) && hot@.len() == 0
            },
        },
{
    match loaded {
        Ok(hot) => Ok(hot),
        Err(_) => if is_hot_configured(config) {
            Err(ManagerError::Busy { reason: BusyReason::ProbeFailed, holder: None })
        } else {
            Ok(Vec::new())
        },
    }
}

/// Does an active allocation already name this machine, as the guest it cloned
/// or as the pool machine it reused?
pub open spec fn is_named_by(active: Seq<Allocation>, name: Seq<char>) -> bool {
    exists|i: int|
        0 <= i < active.len() && ((#[trigger] active[i]).vm_name@ == name
            || active[i].origin.hot_name() == Some(name))
}

/// Is this pool record charged on its own account? A record whose machine the
/// host reports, or one mid-handover, unless an active allocation pays for it.
pub open spec fn is_pool_charged(
    guest: HotGuest,
    active: Seq<Allocation>,
    pooled: Set<Seq<char>>,
) -> bool {
    &&& guest.state.holding()
    &&& pooled.contains(guest.vm_name@) || guest.state is Provisioning
    &&& !is_named_by(active, guest.vm_name@)
}

/// What the pool holds or has reserved.
pub open spec fn pool_usage(
    hot: Seq<HotGuest>,
    active: Seq<Allocation>,
    pooled: Set<Seq<char>>,
) -> Usage
    decreases hot.len(),
{
    if hot.len() == 0 {
        Usage::none()
    } else {
        let rest = pool_usage(hot.drop_last(), active, pooled);
        if is_pool_charged(hot.last(), active, pooled) {
            rest.and(hot.last().size)
        } else {
            rest
        }
    }
}

/// The names the active allocations hold, cloned or reused.
fn active_names(active: &Vec<&Allocation>) -> (names: NameSet)
    ensures
        names.wf(),
        forall|name: Seq<char>| #[trigger] names@.contains(name) <==> is_named_by(active@.unref(), name),
{
    let mut names: NameSet = NameSet::new();
    let mut i: usize = 0;
    while i < active.len()
        invariant
            i <= active@.len(),
            names.wf(),
            forall|name: Seq<char>| #[trigger] names@.contains(name) <==> is_named_by(
                active@.unref().take(i as int),
                name,
            ),
        decreases active@.len() - i,
    {
        let allocation: &Allocation = active[i];
        let ghost before: Seq<Allocation> = active@.unref().take(i as int);
        let ghost after: Seq<Allocation> = active@.unref().take(i + 1);
        names.insert(allocation.vm_name.clone());
        if let Some(reused) = allocation.origin.hot_vm_name() {
            names.insert(reused.clone());
        }
        proof {
            assert(after =~= before.push(*allocation));
            assert forall|name: Seq<char>| #[trigger] is_named_by(after, name) <==> (is_named_by(
                before,
                name,
            ) || allocation.vm_name@ == name || allocation.origin.hot_name() == Some(name)) by {
                if is_named_by(before, name) {
                    let k: int = choose|k: int|
                        0 <= k < before.len() && ((#[trigger] before[k]).vm_name@ == name
                            || before[k].origin.hot_name() == Some(name));
                    assert(after[k] == before[k]);
                }
                if allocation.vm_name@ == name || allocation.origin.hot_name() == Some(name) {
                    assert(after[before.len() as int] == *allocation);
                }
                if is_named_by(after, name) {
                    let k: int = choose|k: int|
                        0 <= k < after.len() && ((#[trigger] after[k]).vm_name@ == name
                            || after[k].origin.hot_name() == Some(name));
                    if k < before.len() {
                        assert(before[k] == after[k]);
                    }
                }
            }
        }
        i = i + 1;
    }
    assert(active@.unref().take(active@.len() as int) =~= active@.unref());
    names
}

/// A slot and a size for every machine the pool holds or has reserved, so
/// nothing it claims goes uncharged.
///
/// A machine an active allocation already names is skipped, because that
/// allocation is charged for it. The size is the record's own, so a machine
/// retained under a superseded profile is charged what it actually costs.
pub fn hot_capacity(
    hot: &Vec<HotGuest>,
    active: &Vec<&Allocation>,
    hot_names: &NameSet,
) -> (capacity: CommittedCapacity)
    ensures
        capacity.holds(pool_usage(hot@, active@.unref(), hot_names@)),
        capacity.active <= hot@.len(),
{
    let claimed: NameSet = active_names(active);
    let mut capacity: CommittedCapacity = CommittedCapacity::default();
    let mut i: usize = 0;
    while i < hot.len()
        invariant
            i <= hot@.len(),
            forall|name: Seq<char>| #[trigger] claimed@.contains(name) <==> is_named_by(
                active@.unref(),
                name,
            ),
            capacity.holds(pool_usage(hot@.take(i as int), active@.unref(), hot_names@)),
            capacity.active <= i,
        decreases hot@.len() - i,
    {
        let guest: &HotGuest = &hot[i];
        proof {
            assert(hot@.take(i + 1).drop_last() =~= hot@.take(i as int));
            assert(hot@.take(i + 1).last() == *guest);
        }
        if guest.state.is_holding_machine() && (hot_names.contains(guest.vm_name.as_str())
            || guest.state == HotState::Provisioning) && !claimed.contains(
            guest.vm_name.as_str(),
        ) {
            capacity = plus_size(capacity, guest.size);
        }
        i = i + 1;
    }
    assert(hot@.take(hot@.len() as int) =~= hot@);
    capacity
}

/// The pool holds a name exactly where a record that is not evicted bears it and
/// the host reports a running machine of ours under it.
pub proof fn law_pool_holds_what_record_and_host_agree_on(
    hot: Seq<HotGuest>,
    machines: Seq<HostMachine>,
    name: Seq<char>,
)
    ensures
        pooled_names(hot, machines).contains(name) <==> {
            &&& exists|i: int|
                0 <= i < hot.len() && !((#[trigger] hot[i]).state is Evicted) && hot[i].vm_name@
                    == name
            &&& exists|k: int|
                0 <= k < machines.len() && (#[trigger] machines[k]).name@ == name
                    && machines[k].state is Running && machines[k].ownership is Owned
        },
{
    if exists|i: int|
        0 <= i < hot.len() && !((#[trigger] hot[i]).state is Evicted) && hot[i].vm_name@ == name {
        let i: int = choose|i: int|
            0 <= i < hot.len() && !((#[trigger] hot[i]).state is Evicted) && hot[i].vm_name@
                == name;
        assert(hot[i].state.holding());
    }
    if exists|k: int|
        0 <= k < machines.len() && (#[trigger] machines[k]).name@ == name
            && machines[k].state is Running && machines[k].ownership is Owned {
        let k: int = choose|k: int|
            0 <= k < machines.len() && (#[trigger] machines[k]).name@ == name
                && machines[k].state is Running && machines[k].ownership is Owned;
        assert(machines[k].running_owned());
    }
}

/// A pool record is charged one slot and its own size, wherever it stands, as
/// long as it is not evicted, its machine is there or on its way in, and no
/// active allocation has that machine already, cloned or reused; else nothing.
pub proof fn law_every_pool_machine_is_charged(
    before: Seq<HotGuest>,
    guest: HotGuest,
    after: Seq<HotGuest>,
    active: Seq<Allocation>,
    pooled: Set<Seq<char>>,
)
    ensures
        pool_usage(Seq::<HotGuest>::empty(), active, pooled) == (Usage {
            slots: 0,
            cpu_count: 0,
            memory_mb: 0,
            storage_mb: 0,
        }),
        ({
            let with = pool_usage(before + seq![guest] + after, active, pooled);
            let without = pool_usage(before + after, active, pooled);
            let is_taken = exists|k: int|
                0 <= k < active.len() && ((#[trigger] active[k]).vm_name@ == guest.vm_name@ || (
                active[k].origin matches AllocationOrigin::HotReuse { vm_name, .. } && vm_name@
                    == guest.vm_name@));
            if !(guest.state is Evicted) && (pooled.contains(guest.vm_name@)
                || guest.state is Provisioning) && !is_taken {
                &&& with.slots == without.slots + 1
                &&& with.cpu_count == without.cpu_count + guest.size.cpu_count
                &&& with.memory_mb == without.memory_mb + guest.size.memory_mb
                &&& with.storage_mb == without.storage_mb + guest.size.storage_mb
            } else {
                with == without
            }
        }),
    decreases after.len(),
{
    let all = before + seq![guest] + after;
    let name = guest.vm_name@;
    if is_named_by(active, name) {
        let k: int = choose|k: int|
            0 <= k < active.len() && ((#[trigger] active[k]).vm_name@ == name
                || active[k].origin.hot_name() == Some(name));
        assert(active[k].vm_name@ == name || (
        active[k].origin matches AllocationOrigin::HotReuse { vm_name, .. } && vm_name@ == name));
    }
    if exists|k: int|
        0 <= k < active.len() && ((#[trigger] active[k]).vm_name@ == name || (
        active[k].origin matches AllocationOrigin::HotReuse { vm_name, .. } && vm_name@ == name)) {
        let k: int = choose|k: int|
            0 <= k < active.len() && ((#[trigger] active[k]).vm_name@ == name || (
            active[k].origin matches AllocationOrigin::HotReuse { vm_name, .. } && vm_name@
                == name));
        assert(active[k].vm_name@ == name || active[k].origin.hot_name() == Some(name));
    }
    if after.len() == 0 {
        assert(all.drop_last() =~= before);
        assert(before + after =~= before);
    } else {
        law_every_pool_machine_is_charged(before, guest, after.drop_last(), active, pooled);
        assert(all.drop_last() =~= before + seq![guest] + after.drop_last());
        assert((before + after).drop_last() =~= before + after.drop_last());
    }
}

/// Without its records a pool is taken for empty only where nothing can be in
/// it: no machine may be held at all, and no profile's pool is switched on.
pub proof fn law_unreadable_pool_matters_only_where_one_is_kept(config: Config)
    ensures
        hot_configured(config) <==> config.runtime.max_hot_vms > 0 || exists|i: int|
            0 <= i < config.profiles@.len() && ((#[trigger] config.profiles@[i]).profile.hot
                matches Some(hot) && hot.enabled),
{
    if exists|i: int|
        0 <= i < config.profiles@.len() && ((#[trigger] config.profiles@[i]).profile.hot
            matches Some(hot) && hot.enabled) {
        let i: int = choose|i: int|
            0 <= i < config.profiles@.len() && ((#[trigger] config.profiles@[i]).profile.hot
                matches Some(hot) && hot.enabled);
        assert(config.profiles@[i].profile.live_hot() is Some);
    }
}

} // verus!
