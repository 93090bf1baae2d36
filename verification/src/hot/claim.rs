use vstd::prelude::*;

use crate::admission::hot::{is_recorded, lemma_recorded_push};
use crate::domain::allocation::{Allocation, AllocationId, AllocationOrigin, CloneSource,
    ProfileName, VmName};
use crate::domain::hot::{HotGuest, HotLane, HotState};
use crate::hot::model::HotContext;
use crate::hot::select::{claimable, held_count, is_choice, is_claimable, is_pool_expandable,
    law_choice_is_unique};
use crate::names::NameSet;
use crate::state::Entry;

verus! {

/// What admission decided about one `hot` request.
///
/// There is no third arm for "provision a machine": the pool is populated only
/// as the residue of a completed hot allocation, so a request that finds no
/// idle machine simply runs as an ordinary allocation whose teardown retains
/// the guest it already had.
#[derive(Debug, PartialEq, Eq)]
pub enum HotClaim {
    /// An idle pool machine, already moved to `Claimed` and ready to commit.
    Reused {
        guest: HotGuest,
        origin: AllocationOrigin,
        /// The source the reused machine was itself built from, copied onto
        /// the allocation so provenance reads whole rather than half from each
        /// record.
        source: CloneSource,
    },
    /// No machine to reuse; this allocation clones as usual and its guest is
    /// kept when the job ends.
    Retain,
}

/// Does an allocation still going hold this pool machine?
pub open spec fn is_claimed_name(entries: Seq<Entry>, name: Seq<char>) -> bool {
    exists|i: int|
        0 <= i < entries.len() && (#[trigger] entries[i]).allocation.live()
            && entries[i].allocation.origin.hot_name() == Some(name)
}

/// The pool machines that the allocations still going hold.
pub open spec fn claimed_names(entries: Seq<Entry>) -> Set<Seq<char>> {
    Set::new(|name: Seq<char>| is_claimed_name(entries, name))
}

/// Names every non-terminal entry claims through its origin. This is the
/// exclusion set that makes the claim safe, and it lives in the entries rather
/// than in the durable records because the entries are what one decision at a
/// time reads and writes.
pub fn live_hot_names(entries: &Vec<Entry>) -> (names: NameSet)
    ensures
        names.wf(),
        names@ == claimed_names(entries@),
{
    let mut names: NameSet = NameSet::new();
    let mut i: usize = 0;
    proof {
        assert(names@ =~= claimed_names(entries@.take(0)));
    }
    while i < entries.len()
        invariant
            i <= entries@.len(),
            names.wf(),
            names@ == claimed_names(entries@.take(i as int)),
        decreases entries@.len() - i,
    {
        let entry: &Entry = &entries[i];
        let ghost before: Seq<Entry> = entries@.take(i as int);
        let ghost after: Seq<Entry> = entries@.take(i + 1);
        if !entry.allocation.state.is_terminal() {
            if let Some(reused) = entry.allocation.origin.hot_vm_name() {
                names.insert(reused.clone());
            }
        }
        proof {
            assert(after =~= before.push(*entry));
            assert forall|name: Seq<char>| #[trigger] is_claimed_name(after, name) <==> (
            is_claimed_name(before, name) || (entry.allocation.live()
                && entry.allocation.origin.hot_name() == Some(name))) by {
                if is_claimed_name(before, name) {
                    let k: int = choose|k: int|
                        0 <= k < before.len() && (#[trigger] before[k]).allocation.live()
                            && before[k].allocation.origin.hot_name() == Some(name);
                    assert(after[k] == before[k]);
                }
                if entry.allocation.live() && entry.allocation.origin.hot_name() == Some(name) {
                    assert(after[before.len() as int] == *entry);
                }
                if is_claimed_name(after, name) {
                    let k: int = choose|k: int|
                        0 <= k < after.len() && (#[trigger] after[k]).allocation.live()
                            && after[k].allocation.origin.hot_name() == Some(name);
                    if k < before.len() {
                        assert(before[k] == after[k]);
                    }
                }
            }
            assert(names@ =~= claimed_names(after));
        }
        i = i + 1;
    }
    assert(entries@.take(entries@.len() as int) =~= entries@);
    names
}

/// Will this allocation hand a machine to the pool that has no record yet? The
/// machine it will leave behind is the pool machine it reused, when it reused
/// one, and its own guest otherwise.
pub open spec fn is_retention_in_flight(allocation: Allocation, hot: Seq<HotGuest>) -> bool {
    allocation.live() && allocation.hot_lane is Some && !is_recorded(hot, allocation.held_name())
}

/// The profiles of the allocations that will retain a machine but have not yet,
/// in entry order.
pub open spec fn in_flight(entries: Seq<Entry>, hot: Seq<HotGuest>) -> Seq<ProfileName>
    decreases entries.len(),
{
    if entries.len() == 0 {
        Seq::empty()
    } else {
        let rest = in_flight(entries.drop_last(), hot);
        if is_retention_in_flight(entries.last().allocation, hot) {
            rest.push(entries.last().allocation.request.profile)
        } else {
            rest
        }
    }
}

/// The names of the machines whose records still hold them.
fn recorded_names(hot: &Vec<HotGuest>) -> (names: NameSet)
    ensures
        names.wf(),
        forall|name: Seq<char>| #[trigger] names@.contains(name) <==> is_recorded(hot@, name),
{
    let mut names: NameSet = NameSet::new();
    let mut i: usize = 0;
    while i < hot.len()
        invariant
            i <= hot@.len(),
            names.wf(),
            forall|name: Seq<char>| #[trigger] names@.contains(name) <==> is_recorded(
                hot@.take(i as int),
                name,
            ),
        decreases hot@.len() - i,
    {
        let guest: &HotGuest = &hot[i];
        proof {
            assert(hot@.take(i + 1) =~= hot@.take(i as int).push(*guest));
            lemma_recorded_push(hot@.take(i as int), *guest);
        }
        if guest.state.is_holding_machine() {
            names.insert(guest.vm_name.clone());
        }
        i = i + 1;
    }
    assert(hot@.take(hot@.len() as int) =~= hot@);
    names
}

/// The profiles of the allocations that will retain a machine but have not yet,
/// so the cap counts them.
pub fn in_flight_retentions<'a>(entries: &'a Vec<Entry>, hot: &Vec<HotGuest>) -> (profiles: Vec<
    &'a ProfileName,
>)
    ensures
        profiles@.unref() == in_flight(entries@, hot@),
{
    let recorded: NameSet = recorded_names(hot);
    let mut profiles: Vec<&'a ProfileName> = Vec::new();
    let mut i: usize = 0;
    while i < entries.len()
        invariant
            i <= entries@.len(),
            forall|name: Seq<char>| #[trigger] recorded@.contains(name) <==> is_recorded(
                hot@,
                name,
            ),
            profiles@.unref() == in_flight(entries@.take(i as int), hot@),
        decreases entries@.len() - i,
    {
        let allocation: &'a Allocation = &entries[i].allocation;
        proof {
            assert(entries@.take(i + 1).drop_last() =~= entries@.take(i as int));
            assert(entries@.take(i + 1).last() == entries@[i as int]);
        }
        if !allocation.state.is_terminal() && allocation.hot_lane.is_some() {
            let held: &VmName = match allocation.origin.hot_vm_name() {
                Some(reused) => reused,
                None => &allocation.vm_name,
            };
            if !recorded.contains(held.as_str()) {
                let ghost before: Seq<ProfileName> = profiles@.unref();
                profiles.push(&allocation.request.profile);
                assert(profiles@.unref() =~= before.push(allocation.request.profile));
            }
        }
        i = i + 1;
    }
    assert(entries@.take(entries@.len() as int) =~= entries@);
    profiles
}

/// The record of a machine as the claim of this allocation leaves it. The
/// claiming run sets the machine's lifetime where it asks for one.
pub open spec fn claimed_record(
    guest: HotGuest,
    id: AllocationId,
    age_seconds: Option<u64>,
    now: u64,
) -> HotGuest {
    HotGuest {
        state: HotState::Claimed,
        claimed_by: Some(id),
        updated_at_unix: now,
        age_limit_seconds: if age_seconds is Some {
            age_seconds
        } else {
            guest.age_limit_seconds
        },
        ..guest
    }
}

/// The claim of one pool machine.
pub open spec fn reuse(guest: HotGuest, id: AllocationId, age_seconds: Option<u64>, now: u64) -> HotClaim {
    HotClaim::Reused {
        guest: claimed_record(guest, id, age_seconds, now),
        origin: AllocationOrigin::HotReuse {
            vm_name: guest.vm_name,
            jobs_served: guest.jobs_served,
            booted_at_unix: guest.booted_at_unix,
        },
        source: guest.source,
    }
}

/// Decides, while the entries stand still, whether this allocation reuses a
/// pool machine and whether its own guest is retained afterwards.
///
/// It reads the snapshot loaded before plus the names live entries already
/// claim. The exclusion set is built from the entries themselves, so two
/// requests folded one after the other cannot pick one machine: the first
/// inserts its entry, and the second sees it.
pub fn plan_hot_claim(
    entries: &Vec<Entry>,
    hot: &Vec<HotGuest>,
    context: &HotContext,
    id: &AllocationId,
    now: u64,
) -> (claim: Option<HotClaim>)
    ensures
        forall|choice: int|
            is_choice(
                hot@,
                context.name@,
                context.lane,
                claimed_names(entries@),
                context.policy_at(now),
                choice,
            ) ==> claim == Some(reuse(#[trigger] hot@[choice], *id, context.age_seconds, now)),
        (forall|j: int|
            0 <= j < hot@.len() ==> !is_claimable(
                #[trigger] hot@[j],
                context.name@,
                context.lane,
                claimed_names(entries@),
                context.policy_at(now),
            )) ==> claim == if held_count(hot@) + in_flight(entries@, hot@).len()
            < context.max_hot_vms {
            Some(HotClaim::Retain)
        } else {
            None::<HotClaim>
        },
        claim matches Some(HotClaim::Reused { .. }) ==> exists|choice: int|
            is_choice(
                hot@,
                context.name@,
                context.lane,
                claimed_names(entries@),
                context.policy_at(now),
                choice,
            ) && claim == Some(reuse(#[trigger] hot@[choice], *id, context.age_seconds, now)),
{
    let claimed: NameSet = live_hot_names(entries);
    let policy = context.policy(now);
    let found: Option<usize> = claimable(hot, context.name.as_str(), context.lane, &claimed, &policy);
    if let Some(index) = found {
        proof {
            assert forall|choice: int|
                is_choice(
                    hot@,
                    context.name@,
                    context.lane,
                    claimed_names(entries@),
                    context.policy_at(now),
                    choice,
                ) implies #[trigger] hot@[choice] == hot@[index as int] by {
                law_choice_is_unique(
                    hot@,
                    context.name@,
                    context.lane,
                    claimed_names(entries@),
                    policy,
                    choice,
                    index as int,
                );
            }
            assert(is_claimable(
                hot@[index as int],
                context.name@,
                context.lane,
                claimed_names(entries@),
                policy,
            ));
        }
        let mut guest: HotGuest = hot[index].clone();
        // Anything but `Idle` is refused, so the one shape that would put two
        // allocations on one machine cannot be built.
        if guest.ensure_claimed(id, now).is_err() {
            return None;
        }
        // The claiming run sets the machine's lifetime, so a longer request
        // extends a machine a shorter one retained. The ceiling still binds:
        // `drain_reason` takes the lower of this and the profile's.
        if context.age_seconds.is_some() {
            guest.age_limit_seconds = context.age_seconds;
        }
        let origin: AllocationOrigin = AllocationOrigin::HotReuse {
            vm_name: guest.vm_name.clone(),
            jobs_served: guest.jobs_served,
            booted_at_unix: guest.booted_at_unix,
        };
        let source: CloneSource = guest.source.clone();
        return Some(HotClaim::Reused { guest, origin, source });
    }
    // Retention is the only way a machine enters the pool, so the global cap
    // is checked here rather than at release: a request the pool has no room
    // for is refused now, while the answer can still be recorded.
    let waiting: Vec<&ProfileName> = in_flight_retentions(entries, hot);
    if is_pool_expandable(hot, context.max_hot_vms, &waiting) {
        Some(HotClaim::Retain)
    } else {
        None
    }
}

/// The record a retained allocation leaves behind, if it recorded what the
/// machine is: the job it just ran is the machine's first.
pub open spec fn retained(allocation: Allocation, lane: HotLane, now: u64) -> Option<HotGuest> {
    match (allocation.size, allocation.source) {
        (Some(size), Some(source)) => Some(
            HotGuest {
                jobs_served: 1,
                ..HotGuest::fresh(
                    allocation.vm_name,
                    allocation.request.profile,
                    lane,
                    size,
                    source,
                    allocation.warm_generation,
                    allocation.hot_age_seconds,
                    now,
                )
            },
        ),
        _ => None,
    }
}

/// The machine a retained allocation leaves behind, as a fresh pool record.
/// Written at release rather than before the clone: the machine already exists
/// and has already served the job that earned it.
pub fn retained_record(allocation: &Allocation, lane: HotLane, now: u64) -> (guest: Option<HotGuest>)
    ensures
        guest == retained(*allocation, lane, now),
{
    match (allocation.size, &allocation.source) {
        (Some(size), Some(source)) => {
            let mut guest: HotGuest = HotGuest::new(
                allocation.vm_name.clone(),
                allocation.request.profile.clone(),
                lane,
                size,
                source.clone(),
                allocation.warm_generation,
                allocation.hot_age_seconds,
                now,
            );
            guest.jobs_served = 1;
            Some(guest)
        },
        _ => None,
    }
}

/// Two claims never take one machine: once an entry still going holds a pool
/// machine, no later plan over those entries reuses it.
pub proof fn law_one_machine_one_claim(
    entries: Seq<Entry>,
    first: Entry,
    hot: Seq<HotGuest>,
    context: HotContext,
    now: u64,
    choice: int,
)
    requires
        entries.contains(first),
        first.allocation.live(),
        is_choice(
            hot,
            context.name@,
            context.lane,
            claimed_names(entries),
            context.policy_at(now),
            choice,
        ),
    ensures
        first.allocation.origin.hot_name() != Some(hot[choice].vm_name@),
{
    let i: int = choose|i: int| 0 <= i < entries.len() && entries[i] == first;
    if first.allocation.origin.hot_name() == Some(hot[choice].vm_name@) {
        assert(entries[i].allocation.live());
        assert(is_claimed_name(entries, hot[choice].vm_name@));
    }
}

/// A pool machine is taken exactly while an allocation that is not over runs on
/// it.
pub proof fn law_machine_is_taken_while_its_job_goes_on(entries: Seq<Entry>, name: Seq<char>)
    ensures
        claimed_names(entries).contains(name) <==> exists|i: int|
            0 <= i < entries.len() && !((#[trigger] entries[i]).allocation.state is Completed
                || entries[i].allocation.state is Failed
                || entries[i].allocation.state is Cancelled) && (
            entries[i].allocation.origin matches AllocationOrigin::HotReuse { vm_name, .. }
                && vm_name@ == name),
{
    if claimed_names(entries).contains(name) {
        let i: int = choose|i: int|
            0 <= i < entries.len() && (#[trigger] entries[i]).allocation.live()
                && entries[i].allocation.origin.hot_name() == Some(name);
        assert(!(entries[i].allocation.state is Completed || entries[i].allocation.state is Failed
            || entries[i].allocation.state is Cancelled));
    }
    if exists|i: int|
        0 <= i < entries.len() && !((#[trigger] entries[i]).allocation.state is Completed
            || entries[i].allocation.state is Failed || entries[i].allocation.state is Cancelled)
            && (entries[i].allocation.origin matches AllocationOrigin::HotReuse { vm_name, .. }
            && vm_name@ == name) {
        let i: int = choose|i: int|
            0 <= i < entries.len() && !((#[trigger] entries[i]).allocation.state is Completed
                || entries[i].allocation.state is Failed
                || entries[i].allocation.state is Cancelled) && (
            entries[i].allocation.origin matches AllocationOrigin::HotReuse { vm_name, .. }
                && vm_name@ == name);
        assert(entries[i].allocation.live());
        assert(entries[i].allocation.origin.hot_name() == Some(name));
    }
}

/// A machine that is on its way into the pool counts against the cap before it
/// has a record: every unfinished allocation that will keep its machine, wherever
/// it stands, unless a record that is not evicted names that machine already.
pub proof fn law_machine_on_its_way_counts(
    before: Seq<Entry>,
    entry: Entry,
    after: Seq<Entry>,
    hot: Seq<HotGuest>,
)
    ensures
        in_flight(Seq::<Entry>::empty(), hot).len() == 0,
        ({
            let allocation = entry.allocation;
            let name = match allocation.origin {
                AllocationOrigin::HotReuse { vm_name, .. } => vm_name@,
                AllocationOrigin::Cloned => allocation.vm_name@,
            };
            let is_known = exists|k: int|
                0 <= k < hot.len() && (#[trigger] hot[k]).vm_name@ == name && !(
                hot[k].state is Evicted);
            in_flight(before + seq![entry] + after, hot).len() == in_flight(
                before + after,
                hot,
            ).len() + if allocation.hot_lane is Some && !is_known && !(
            allocation.state is Completed || allocation.state is Failed
                || allocation.state is Cancelled) {
                1nat
            } else {
                0nat
            }
        }),
    decreases after.len(),
{
    let all = before + seq![entry] + after;
    let name = entry.allocation.held_name();
    if is_recorded(hot, name) {
        let k: int = choose|k: int|
            0 <= k < hot.len() && (#[trigger] hot[k]).state.holding() && hot[k].vm_name@ == name;
        assert(hot[k].vm_name@ == name && !(hot[k].state is Evicted));
    }
    if exists|k: int|
        0 <= k < hot.len() && (#[trigger] hot[k]).vm_name@ == name && !(hot[k].state is Evicted) {
        let k: int = choose|k: int|
            0 <= k < hot.len() && (#[trigger] hot[k]).vm_name@ == name && !(
            hot[k].state is Evicted);
        assert(hot[k].state.holding());
    }
    if after.len() == 0 {
        assert(all.drop_last() =~= before);
        assert(before + after =~= before);
    } else {
        law_machine_on_its_way_counts(before, entry, after.drop_last(), hot);
        assert(all.drop_last() =~= before + seq![entry] + after.drop_last());
        assert((before + after).drop_last() =~= before + after.drop_last());
    }
}

/// A claim takes the machine as it is: only its state, its claimant, the time and
/// a lifetime the claiming run asked for are new. The allocation is told the very
/// machine, the jobs it served and what it was built from.
pub proof fn law_claim_keeps_the_machine(
    guest: HotGuest,
    id: AllocationId,
    age_seconds: Option<u64>,
    now: u64,
)
    ensures
        reuse(guest, id, age_seconds, now) matches HotClaim::Reused {
            guest: claimed,
            origin,
            source,
        } && {
            &&& claimed.state == HotState::Claimed
            &&& claimed.claimed_by == Some(id)
            &&& claimed.updated_at_unix == now
            &&& age_seconds is Some ==> claimed.age_limit_seconds == age_seconds
            &&& age_seconds is None ==> claimed.age_limit_seconds == guest.age_limit_seconds
            &&& claimed.vm_name == guest.vm_name
            &&& claimed.profile == guest.profile
            &&& claimed.lane == guest.lane
            &&& claimed.size == guest.size
            &&& claimed.source == guest.source
            &&& claimed.warm_generation == guest.warm_generation
            &&& claimed.jobs_served == guest.jobs_served
            &&& claimed.booted_at_unix == guest.booted_at_unix
            &&& claimed.drain_reason == guest.drain_reason
            &&& source == guest.source
            &&& origin matches AllocationOrigin::HotReuse {
                vm_name,
                jobs_served,
                booted_at_unix,
            } && vm_name == guest.vm_name && jobs_served == guest.jobs_served && booted_at_unix
                == guest.booted_at_unix
        },
{
}

/// What is kept of a finished allocation is its own guest, of its profile, its
/// lane, its size and its source, with one job behind it and nobody's claim on
/// it; an allocation that never recorded what its machine is keeps nothing.
pub proof fn law_kept_machine_is_the_allocations(allocation: Allocation, lane: HotLane, now: u64)
    ensures
        retained(allocation, lane, now) is Some <==> allocation.size is Some
            && allocation.source is Some,
        retained(allocation, lane, now) matches Some(guest) ==> {
            &&& guest.vm_name == allocation.vm_name
            &&& guest.profile == allocation.request.profile
            &&& guest.lane == lane
            &&& Some(guest.size) == allocation.size
            &&& Some(guest.source) == allocation.source
            &&& guest.warm_generation == allocation.warm_generation
            &&& guest.age_limit_seconds == allocation.hot_age_seconds
            &&& guest.jobs_served == 1
            &&& guest.claimed_by is None
            &&& guest.drain_reason is None
            &&& guest.state == HotState::Provisioning
            &&& guest.booted_at_unix == now
            &&& guest.updated_at_unix == now
        },
{
}

} // verus!
