use vstd::prelude::*;

use crate::admission::capacity::{
    active_allocations, is_live_name, live_allocations, live_names, refusal, HostLoad,
};
use crate::admission::hot::{hot_names, law_pool_holds_what_record_and_host_agree_on, pooled_names};
use crate::domain::allocation::{Allocation, AllocationOrigin, GuestSize};
use crate::domain::hot::{HotGuest, HotState};
use crate::domain::profile::Config;
use crate::hot::claim::{claimed_names, law_machine_is_taken_while_its_job_goes_on, live_hot_names};
use crate::hot::select::staleness;
use crate::names::NameSet;
use crate::order::{is_rank_before, lemma_rank_total, lemma_rank_transitive, rank_before, Rank};
use crate::service::AllocationManager;
use crate::state::Entry;
use crate::worker::model::HostMachine;

verus! {

/// May this machine give its slot up? Only an idle one that the host runs and
/// that no allocation still going holds or is tearing down.
pub open spec fn is_yieldable(
    guest: HotGuest,
    entries: Seq<Entry>,
    hot: Seq<HotGuest>,
    machines: Seq<HostMachine>,
) -> bool {
    &&& guest.state is Idle
    &&& pooled_names(hot, machines).contains(guest.vm_name@)
    &&& !claimed_names(entries).contains(guest.vm_name@)
    &&& !is_live_name(live_allocations(entries), guest.vm_name@)
}

/// The machine at `choice` may yield and is the stalest that may.
pub open spec fn is_yield_choice(
    entries: Seq<Entry>,
    hot: Seq<HotGuest>,
    machines: Seq<HostMachine>,
    choice: int,
) -> bool {
    &&& 0 <= choice < hot.len()
    &&& is_yieldable(hot[choice], entries, hot, machines)
    &&& forall|j: int|
        0 <= j < hot.len() && j != choice && is_yieldable(
            #[trigger] hot[j],
            entries,
            hot,
            machines,
        ) ==> rank_before(staleness(hot, choice), staleness(hot, j))
}

impl AllocationManager {
    /// The stalest idle machine, when and only when admission would refuse
    /// without freeing one. Folding capacity here rather than trusting a
    /// counter means the answer is the same one an allocation will get.
    ///
    /// Only an *idle* machine yields. A claimed one is running somebody's job,
    /// and evicting it would fail that job to admit this one.
    pub fn yieldable_hot(
        entries: &Vec<Entry>,
        config: &Config,
        requested: GuestSize,
        machines: &Vec<HostMachine>,
        hot: &Vec<HotGuest>,
    ) -> (found: Option<HotGuest>)
        requires
            HostLoad::of(entries@, *config, machines@, hot@).is_countable(),
        ensures
            refusal(*config, HostLoad::of(entries@, *config, machines@, hot@), requested) is None
                ==> found is None,
            refusal(*config, HostLoad::of(entries@, *config, machines@, hot@), requested) is Some
                ==> match found {
                Some(guest) => exists|choice: int|
                    is_yield_choice(entries@, hot@, machines@, choice) && guest
                        == #[trigger] hot@[choice],
                None => forall|j: int|
                    0 <= j < hot@.len() ==> !is_yieldable(
                        #[trigger] hot@[j],
                        entries@,
                        hot@,
                        machines@,
                    ),
            },
    {
        if AllocationManager::ensure_capacity(entries, config, requested, machines, hot).is_ok() {
            return None;
        }
        let claimed: NameSet = live_hot_names(entries);
        let names: NameSet = hot_names(hot, machines);
        let active: Vec<&Allocation> = active_allocations(entries);
        // A machine an active allocation still names is being torn down, not
        // idling; charging it as free would evict a guest mid-teardown.
        let busy: NameSet = live_names(&active);
        let mut best: Option<usize> = None;
        let mut i: usize = 0;
        while i < hot.len()
            invariant
                i <= hot@.len(),
                claimed@ == claimed_names(entries@),
                names@ == pooled_names(hot@, machines@),
                forall|name: Seq<char>| #[trigger] busy@.contains(name) <==> is_live_name(
                    live_allocations(entries@),
                    name,
                ),
                match best {
                    Some(index) => index < i && is_yieldable(
                        hot@[index as int],
                        entries@,
                        hot@,
                        machines@,
                    ) && forall|j: int|
                        0 <= j < i && j != index as int && is_yieldable(
                            #[trigger] hot@[j],
                            entries@,
                            hot@,
                            machines@,
                        ) ==> rank_before(staleness(hot@, index as int), staleness(hot@, j)),
                    None => forall|j: int|
                        0 <= j < i ==> !is_yieldable(
                            #[trigger] hot@[j],
                            entries@,
                            hot@,
                            machines@,
                        ),
                },
            decreases hot@.len() - i,
        {
            let guest: &HotGuest = &hot[i];
            if guest.state == HotState::Idle && names.contains(guest.vm_name.as_str())
                && !claimed.contains(guest.vm_name.as_str()) && !busy.contains(
                guest.vm_name.as_str(),
            ) {
                match best {
                    None => {
                        best = Some(i);
                    },
                    Some(index) => {
                        let held: Rank = Rank {
                            major: hot[index].updated_at_unix,
                            minor: 0,
                            text: hot[index].vm_name.clone(),
                            index,
                        };
                        let next: Rank = Rank {
                            major: guest.updated_at_unix,
                            minor: 0,
                            text: guest.vm_name.clone(),
                            index: i,
                        };
                        proof {
                            lemma_rank_total(held, next);
                            assert(held == staleness(hot@, index as int));
                            assert(next == staleness(hot@, i as int));
                            if rank_before(next, held) {
                                assert forall|j: int|
                                    0 <= j < i && is_yieldable(
                                        #[trigger] hot@[j],
                                        entries@,
                                        hot@,
                                        machines@,
                                    ) implies rank_before(next, staleness(hot@, j)) by {
                                    if j != index as int {
                                        lemma_rank_transitive(next, held, staleness(hot@, j));
                                    }
                                }
                            }
                        }
                        if is_rank_before(&next, &held) {
                            best = Some(i);
                        }
                    },
                }
            }
            i = i + 1;
        }
        match best {
            Some(index) => {
                assert(is_yield_choice(entries@, hot@, machines@, index as int));
                Some(hot[index].clone())
            },
            None => None,
        }
    }
}

/// The evictions one request may still ask of the pool. Bounded by what the
/// pool holds rather than by the configured cap: that cap can be lowered while
/// machines retained under the old one still hold their slots.
#[derive(Debug)]
pub struct HotYield {
    pub left: usize,
}

impl HotYield {
    /// One eviction for each record of the pool; a pool that cannot be read
    /// yields nothing.
    pub fn new(held: usize) -> (run: HotYield)
        ensures
            run.left == held,
    {
        HotYield { left: held }
    }

    /// The machine to evict next. Best effort by design: it goes on while
    /// capacity refuses and machines remain.
    pub fn next(&mut self, found: Option<HotGuest>) -> (evicted: Option<HotGuest>)
        ensures
            old(self).left == 0 || found is None ==> evicted is None && final(self).left == 0,
            old(self).left > 0 && found is Some ==> evicted == found && final(self).left == old(
                self).left - 1,
    {
        if self.left == 0 || found.is_none() {
            self.left = 0;
            return None;
        }
        self.left = self.left - 1;
        found
    }
}

/// A machine that yields is running nobody's job: it is idle, and no allocation
/// still going holds it or bears its name.
pub proof fn law_only_idle_machines_yield(
    entries: Seq<Entry>,
    hot: Seq<HotGuest>,
    machines: Seq<HostMachine>,
    choice: int,
    i: int,
)
    requires
        is_yield_choice(entries, hot, machines, choice),
        0 <= i < entries.len(),
        entries[i].allocation.live(),
    ensures
        hot[choice].state is Idle,
        entries[i].allocation.vm_name@ != hot[choice].vm_name@,
        entries[i].allocation.origin.hot_name() != Some(hot[choice].vm_name@),
{
    lemma_live_listed(entries, i);
    if entries[i].allocation.origin.hot_name() == Some(hot[choice].vm_name@) {
        assert(crate::hot::claim::is_claimed_name(entries, hot[choice].vm_name@));
    }
}

proof fn lemma_live_listed(entries: Seq<Entry>, i: int)
    requires
        0 <= i < entries.len(),
        entries[i].allocation.live(),
    ensures
        is_live_name(live_allocations(entries), entries[i].allocation.vm_name@),
    decreases entries.len(),
{
    let rest = live_allocations(entries.drop_last());
    let all = live_allocations(entries);
    if i == entries.len() - 1 {
        assert(all[rest.len() as int] == entries[i].allocation);
    } else {
        lemma_live_listed(entries.drop_last(), i);
        let name = entries[i].allocation.vm_name@;
        let k: int = choose|k: int| 0 <= k < rest.len() && (#[trigger] rest[k]).vm_name@ == name;
        assert(all[k] == rest[k]);
    }
}

/// Who yields is idle, runs on this host as a machine of ours, and has nobody
/// unfinished on it or under its name; and every such machine may.
pub proof fn law_idle_machine_of_nobody_yields(
    guest: HotGuest,
    entries: Seq<Entry>,
    hot: Seq<HotGuest>,
    machines: Seq<HostMachine>,
)
    ensures
        is_yieldable(guest, entries, hot, machines) ==> {
            &&& guest.state is Idle
            &&& exists|k: int|
                0 <= k < machines.len() && (#[trigger] machines[k]).name@ == guest.vm_name@
                    && machines[k].state is Running && machines[k].ownership is Owned
            &&& forall|i: int|
                0 <= i < entries.len() && !((#[trigger] entries[i]).allocation.state is Completed
                    || entries[i].allocation.state is Failed
                    || entries[i].allocation.state is Cancelled) ==> {
                    &&& entries[i].allocation.vm_name@ != guest.vm_name@
                    &&& entries[i].allocation.origin matches AllocationOrigin::HotReuse {
                        vm_name,
                        ..
                    } ==> vm_name@ != guest.vm_name@
                }
        },
        !is_yieldable(guest, entries, hot, machines) && guest.state is Idle && hot.contains(guest)
            && (exists|k: int|
            0 <= k < machines.len() && (#[trigger] machines[k]).name@ == guest.vm_name@
                && machines[k].state is Running && machines[k].ownership is Owned) ==> exists|
            i: int,
        |
            0 <= i < entries.len() && !((#[trigger] entries[i]).allocation.state is Completed
                || entries[i].allocation.state is Failed
                || entries[i].allocation.state is Cancelled) && (
            entries[i].allocation.vm_name@ == guest.vm_name@ || (
            entries[i].allocation.origin matches AllocationOrigin::HotReuse { vm_name, .. }
                && vm_name@ == guest.vm_name@)),
{
    let name = guest.vm_name@;
    law_pool_holds_what_record_and_host_agree_on(hot, machines, name);
    law_machine_is_taken_while_its_job_goes_on(entries, name);
    if is_yieldable(guest, entries, hot, machines) {
        assert forall|i: int|
            0 <= i < entries.len() && !((#[trigger] entries[i]).allocation.state is Completed
                || entries[i].allocation.state is Failed
                || entries[i].allocation.state is Cancelled) implies {
            &&& entries[i].allocation.vm_name@ != guest.vm_name@
            &&& entries[i].allocation.origin matches AllocationOrigin::HotReuse { vm_name, .. }
                ==> vm_name@ != guest.vm_name@
        } by {
            assert(entries[i].allocation.live());
            lemma_live_listed(entries, i);
        }
    } else if guest.state is Idle && hot.contains(guest) && (exists|k: int|
        0 <= k < machines.len() && (#[trigger] machines[k]).name@ == guest.vm_name@
            && machines[k].state is Running && machines[k].ownership is Owned) {
        let h: int = choose|h: int| 0 <= h < hot.len() && hot[h] == guest;
        assert(!(hot[h].state is Evicted) && hot[h].vm_name@ == name);
        if is_live_name(live_allocations(entries), name) {
            let k: int = choose|k: int|
                0 <= k < live_allocations(entries).len() && (
                #[trigger] live_allocations(entries)[k]).vm_name@ == name;
            let i = lemma_live_from(entries, k);
            assert(entries[i].allocation.vm_name@ == name);
        } else {
            assert(claimed_names(entries).contains(name));
        }
    }
}

proof fn lemma_live_from(entries: Seq<Entry>, k: int) -> (i: int)
    requires
        0 <= k < live_allocations(entries).len(),
    ensures
        0 <= i < entries.len(),
        entries[i].allocation == live_allocations(entries)[k],
        entries[i].allocation.live(),
    decreases entries.len(),
{
    if k < live_allocations(entries.drop_last()).len() {
        lemma_live_from(entries.drop_last(), k)
    } else {
        entries.len() - 1
    }
}

/// The stalest machine yields first: no machine that may yield has been unused for
/// longer than the one that does.
pub proof fn law_stalest_machine_yields_first(
    entries: Seq<Entry>,
    hot: Seq<HotGuest>,
    machines: Seq<HostMachine>,
    choice: int,
    j: int,
)
    requires
        is_yield_choice(entries, hot, machines, choice),
        0 <= j < hot.len(),
        is_yieldable(hot[j], entries, hot, machines),
    ensures
        hot[choice].updated_at_unix <= hot[j].updated_at_unix,
{
}

} // verus!
