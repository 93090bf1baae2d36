use vstd::prelude::*;

use crate::domain::hot::{HotDrainReason, HotGuest};
use crate::domain::allocation::VmName;
use crate::domain::profile::{lemma_profile_index, profile_index, Config, NamedProfile, Profile};
use crate::error::{ManagerError, StoreError};
use crate::hot::bounds::{drain_step, ensure_hot_drained, lemma_push_holds, Drain, DrainStep};
use crate::names::NameSet;
use crate::service::AllocationManager;

verus! {

/// A change a machine already running cannot absorb: what it is sized to, what
/// it is attached to, what it was built from, and how it is kept.
pub open spec fn is_draining_change(profile: Profile, replacement: Profile) -> bool {
    ||| profile.cpu_count != replacement.cpu_count
    ||| profile.memory_mb != replacement.memory_mb
    ||| profile.storage_mb != replacement.storage_mb
    ||| profile.network@ != replacement.network@
    ||| profile.template@ != replacement.template@
    ||| profile.hot != replacement.hot
}

/// Does this change invalidate a machine already running?
pub fn is_hot_draining_change(profile: &Profile, replacement: &Profile) -> (is: bool)
    ensures
        is == is_draining_change(*profile, *replacement),
{
    let is_hot_changed: bool = match (profile.hot, replacement.hot) {
        (Some(held), Some(next)) => held != next,
        (None, None) => false,
        _ => true,
    };
    profile.cpu_count != replacement.cpu_count || profile.memory_mb != replacement.memory_mb
        || profile.storage_mb != replacement.storage_mb || profile.network != replacement.network
        || profile.template != replacement.template || is_hot_changed
}

/// Does this reload invalidate the machines of this profile? One that changed
/// in a way a running guest cannot absorb, and one that is simply gone.
pub open spec fn is_invalidated(entry: NamedProfile, next: Config) -> bool {
    match next.named(entry.name@) {
        Some(replacement) => is_draining_change(entry.profile, replacement),
        None => true,
    }
}

/// Is this the name of a profile whose machines a reload invalidated?
pub open spec fn is_drained_name(profiles: Seq<NamedProfile>, next: Config, name: Seq<char>) -> bool {
    exists|i: int|
        0 <= i < profiles.len() && (#[trigger] profiles[i]).name@ == name && is_invalidated(
            profiles[i],
            next,
        )
}

/// Profiles whose machines a reload invalidated.
pub fn drained_profiles(previous: &Config, next: &Config) -> (changed: NameSet)
    ensures
        changed.wf(),
        forall|name: Seq<char>| #[trigger] changed@.contains(name) <==> is_drained_name(
            previous.profiles@,
            *next,
            name,
        ),
{
    let ghost profiles: Seq<NamedProfile> = previous.profiles@;
    let mut changed: NameSet = NameSet::new();
    let mut i: usize = 0;
    while i < previous.profiles.len()
        invariant
            profiles == previous.profiles@,
            i <= profiles.len(),
            changed.wf(),
            forall|name: Seq<char>| #[trigger] changed@.contains(name) <==> is_drained_name(
                profiles.take(i as int),
                *next,
                name,
            ),
        decreases profiles.len() - i,
    {
        let entry: &NamedProfile = &previous.profiles[i];
        let ghost before: Seq<NamedProfile> = profiles.take(i as int);
        let ghost after: Seq<NamedProfile> = profiles.take(i + 1);
        let is_gone: bool = match next.find(entry.name.as_str()) {
            Some(replacement) => is_hot_draining_change(&entry.profile, replacement),
            None => true,
        };
        if is_gone {
            changed.insert(entry.name.clone());
        }
        proof {
            assert(after =~= before.push(*entry));
            assert forall|name: Seq<char>| #[trigger] is_drained_name(after, *next, name) <==> (
            is_drained_name(before, *next, name) || (entry.name@ == name && is_invalidated(
                *entry,
                *next,
            ))) by {
                if is_drained_name(before, *next, name) {
                    let k: int = choose|k: int|
                        0 <= k < before.len() && (#[trigger] before[k]).name@ == name
                            && is_invalidated(before[k], *next);
                    assert(after[k] == before[k]);
                }
                if entry.name@ == name && is_invalidated(*entry, *next) {
                    assert(after[before.len() as int] == *entry);
                }
                if is_drained_name(after, *next, name) {
                    let k: int = choose|k: int|
                        0 <= k < after.len() && (#[trigger] after[k]).name@ == name
                            && is_invalidated(after[k], *next);
                    if k < before.len() {
                        assert(before[k] == after[k]);
                    }
                }
            }
        }
        i = i + 1;
    }
    assert(profiles.take(profiles.len() as int) =~= profiles);
    changed
}

/// The machines of these profiles, in pool order, each to be drained for one
/// reason.
pub open spec fn of_profiles(
    guests: Seq<HotGuest>,
    profiles: Set<Seq<char>>,
    reason: HotDrainReason,
) -> Seq<Drain>
    decreases guests.len(),
{
    if guests.len() == 0 {
        Seq::empty()
    } else {
        let rest = of_profiles(guests.drop_last(), profiles, reason);
        if guests.last().state.holding() && profiles.contains(guests.last().profile@) {
            rest.push(Drain { place: (guests.len() - 1) as usize, reason })
        } else {
            rest
        }
    }
}

fn drains_of(guests: &Vec<HotGuest>, profiles: &NameSet, reason: HotDrainReason) -> (drains: Vec<
    Drain,
>)
    ensures
        drains@ == of_profiles(guests@, profiles@, reason),
{
    let mut drains: Vec<Drain> = Vec::new();
    let mut i: usize = 0;
    while i < guests.len()
        invariant
            i <= guests@.len(),
            drains@ == of_profiles(guests@.take(i as int), profiles@, reason),
        decreases guests@.len() - i,
    {
        let guest: &HotGuest = &guests[i];
        proof {
            assert(guests@.take(i + 1).drop_last() =~= guests@.take(i as int));
            assert(guests@.take(i + 1).last() == *guest);
        }
        if guest.state.is_holding_machine() && profiles.contains(guest.profile.as_str()) {
            drains.push(Drain { place: i, reason });
        }
        i = i + 1;
    }
    assert(guests@.take(guests@.len() as int) =~= guests@);
    drains
}

/// Drains every machine of every profile a reload invalidated. A running
/// machine cannot be resized under a claim, and a machine sized by a
/// superseded profile is not the machine the operator configured.
pub fn ensure_hot_reloaded(guests: &Vec<HotGuest>, changed: &NameSet) -> (drains: Vec<Drain>)
    ensures
        drains@ == of_profiles(guests@, changed@, HotDrainReason::ConfigReloaded),
{
    drains_of(guests, changed, HotDrainReason::ConfigReloaded)
}

/// Drains every machine this profile has retained, because a run asked to.
///
/// Profile-scoped and covering both lanes: a machine in the other lane is no
/// more wanted than one in this one. A machine still serving a job drains and
/// goes when that claim ends; only an unclaimed one goes now.
pub fn ensure_hot_evicted_for(guests: &Vec<HotGuest>, profile: &str, reason: HotDrainReason) -> (drains: Vec<
    Drain,
>)
    ensures
        drains@ == of_profiles(guests@, Set::empty().insert(profile@), reason),
{
    let mut profiles: NameSet = NameSet::new();
    profiles.insert(profile.to_owned());
    drains_of(guests, &profiles, reason)
}

/// What a reload does to the pool, in its order.
#[derive(Debug, PartialEq, Eq)]
pub enum ReloadStep {
    /// Read the pool's records.
    Load,
    /// Drain these machines of these records.
    Drain { guests: Vec<HotGuest>, drains: Vec<Drain> },
    /// Apply every bound under the new configuration.
    Bound,
    Done,
}

/// What a step came back with.
#[derive(Debug, PartialEq, Eq)]
pub enum ReloadEvent {
    Loaded(Result<Vec<HotGuest>, StoreError>),
    Done,
}

/// Where a reload begins. Where it changed no profile that has machines, no
/// record is read.
pub fn begin_reload(changed: &NameSet) -> (step: ReloadStep)
    ensures
        step == if changed.listed().len() == 0 {
            ReloadStep::Bound
        } else {
            ReloadStep::Load
        },
{
    if changed.len() == 0 {
        ReloadStep::Bound
    } else {
        ReloadStep::Load
    }
}

/// Is `next` what follows a step of a reload that changed these profiles? Records
/// that cannot be read drain nothing, and the bounds are applied all the same.
pub open spec fn is_reload_next(
    step: ReloadStep,
    event: ReloadEvent,
    changed: Set<Seq<char>>,
    next: ReloadStep,
) -> bool {
    match (step, event) {
        (ReloadStep::Load, ReloadEvent::Loaded(loaded)) => match loaded {
            Ok(guests) => next matches ReloadStep::Drain { guests: held, drains } && held == guests
                && drains@ == of_profiles(guests@, changed, HotDrainReason::ConfigReloaded),
            Err(_) => next is Bound,
        },
        (ReloadStep::Drain { .. }, ReloadEvent::Done) => next is Bound,
        (ReloadStep::Bound, ReloadEvent::Done) => next is Done,
        _ => next == step,
    }
}

/// What follows a step of a reload that changed these profiles.
pub fn next_reload(step: ReloadStep, event: ReloadEvent, changed: &NameSet) -> (next: ReloadStep)
    ensures
        is_reload_next(step, event, changed@, next),
{
    match (step, event) {
        (ReloadStep::Load, ReloadEvent::Loaded(loaded)) => match loaded {
            Ok(guests) => {
                let drains: Vec<Drain> = ensure_hot_reloaded(&guests, changed);
                ReloadStep::Drain { guests, drains }
            },
            Err(_) => ReloadStep::Bound,
        },
        (ReloadStep::Drain { .. }, ReloadEvent::Done) => ReloadStep::Bound,
        (ReloadStep::Bound, ReloadEvent::Done) => ReloadStep::Done,
        (other, _) => other,
    }
}

/// A reload drains what it invalidated before it applies the bounds, and it is
/// over only once they were applied.
pub proof fn law_reload_drains_before_it_bounds(
    step: ReloadStep,
    event: ReloadEvent,
    changed: Set<Seq<char>>,
    next: ReloadStep,
)
    requires
        is_reload_next(step, event, changed, next),
        next != step,
    ensures
        next is Drain ==> step is Load,
        next is Bound ==> step is Drain || (step is Load && (event matches ReloadEvent::Loaded(
            Err(_),
        ))),
        next is Done ==> step is Bound,
{
}

/// The record of a machine an operator named, or why there is none.
fn named_guest(loaded: Result<Option<HotGuest>, StoreError>, vm_name: &VmName) -> (guest: Result<
    HotGuest,
    ManagerError,
>)
    ensures
        guest == match loaded {
            Ok(Some(found)) => Ok::<HotGuest, ManagerError>(found),
            Ok(None) => Err(ManagerError::NotFound(*vm_name)),
            Err(error) => Err(ManagerError::Store(error)),
        },
{
    match loaded {
        Ok(Some(found)) => Ok(found),
        Ok(None) => Err(ManagerError::NotFound(vm_name.clone())),
        Err(error) => Err(ManagerError::Store(error)),
    }
}

impl AllocationManager {
    /// Drains one machine an operator named, waiting for its claim to end: what
    /// that comes to, once its record was read. Where no record names the machine
    /// the answer is `NotFound`.
    pub fn hot_drain(
        loaded: Result<Option<HotGuest>, StoreError>,
        vm_name: &VmName,
        now: u64,
    ) -> (step: Result<DrainStep, ManagerError>)
        ensures
            step == match loaded {
                Ok(Some(guest)) => Ok::<DrainStep, ManagerError>(
                    drain_step(guest, HotDrainReason::OperatorRequest, now),
                ),
                Ok(None) => Err(ManagerError::NotFound(*vm_name)),
                Err(error) => Err(ManagerError::Store(error)),
            },
    {
        match named_guest(loaded, vm_name) {
            Ok(guest) => Ok(ensure_hot_drained(&guest, HotDrainReason::OperatorRequest, now)),
            Err(error) => Err(error),
        }
    }

    /// Destroys one machine an operator named, claim or no claim: the machine
    /// and why, once its record was read. Where no record names the machine the
    /// answer is `NotFound`.
    pub fn hot_evict(loaded: Result<Option<HotGuest>, StoreError>, vm_name: &VmName) -> (evicted: Result<
        (HotGuest, HotDrainReason),
        ManagerError,
    >)
        ensures
            evicted == match loaded {
                Ok(Some(guest)) => Ok::<(HotGuest, HotDrainReason), ManagerError>(
                    (guest, HotDrainReason::OperatorRequest),
                ),
                Ok(None) => Err(ManagerError::NotFound(*vm_name)),
                Err(error) => Err(ManagerError::Store(error)),
            },
    {
        match named_guest(loaded, vm_name) {
            Ok(guest) => Ok((guest, HotDrainReason::OperatorRequest)),
            Err(error) => Err(error),
        }
    }
}

/// A configuration that does not change drains nothing.
pub proof fn law_unchanged_profile_keeps_its_machines(config: Config, name: Seq<char>)
    requires
        forall|i: int, j: int|
            0 <= i < j < config.profiles@.len() ==> (#[trigger] config.profiles@[i]).name@ != (
            #[trigger] config.profiles@[j]).name@,
    ensures
        !is_drained_name(config.profiles@, config, name),
{
    if is_drained_name(config.profiles@, config, name) {
        let i: int = choose|i: int|
            0 <= i < config.profiles@.len() && (#[trigger] config.profiles@[i]).name@ == name
                && is_invalidated(config.profiles@[i], config);
        crate::domain::profile::lemma_profile_index(config.profiles@, name);
        let found = crate::domain::profile::profile_index(config.profiles@, name);
        if found is Some && found.unwrap() != i {
            if found.unwrap() < i {
                assert(config.profiles@[found.unwrap()].name@ != config.profiles@[i].name@);
            } else {
                assert(config.profiles@[i].name@ != config.profiles@[found.unwrap()].name@);
            }
        }
    }
}

/// A reload leaves a machine alone exactly while what the machine is stays as it
/// was: its three sizes, its network, its template and its pool policy. A change
/// of any one of them cannot be made under a running guest.
pub proof fn law_machine_outlives_only_what_it_can_absorb(before: Profile, after: Profile)
    ensures
        before.cpu_count != after.cpu_count ==> is_draining_change(before, after),
        before.memory_mb != after.memory_mb ==> is_draining_change(before, after),
        before.storage_mb != after.storage_mb ==> is_draining_change(before, after),
        before.network@ != after.network@ ==> is_draining_change(before, after),
        before.template@ != after.template@ ==> is_draining_change(before, after),
        before.hot != after.hot ==> is_draining_change(before, after),
        before.cpu_count == after.cpu_count && before.memory_mb == after.memory_mb
            && before.storage_mb == after.storage_mb && before.network@ == after.network@
            && before.template@ == after.template@ && before.hot == after.hot
            ==> !is_draining_change(before, after),
{
}

/// A profile that is gone, or whose next form a running machine cannot absorb,
/// has its machines drained.
pub proof fn law_reload_names_what_it_invalidated(
    previous: Seq<NamedProfile>,
    next: Config,
    i: int,
    k: int,
)
    requires
        0 <= i < previous.len(),
        0 <= k <= next.profiles@.len(),
        forall|j: int|
            0 <= j < k && j < next.profiles@.len() ==> (#[trigger] next.profiles@[j]).name@
                != previous[i].name@,
        k < next.profiles@.len() ==> next.profiles@[k].name@ == previous[i].name@,
    ensures
        k == next.profiles@.len() ==> is_drained_name(previous, next, previous[i].name@),
        k < next.profiles@.len() && is_draining_change(
            previous[i].profile,
            next.profiles@[k].profile,
        ) ==> is_drained_name(previous, next, previous[i].name@),
        k < next.profiles@.len() && !is_draining_change(
            previous[i].profile,
            next.profiles@[k].profile,
        ) && (forall|j: int|
            0 <= j < previous.len() && j != i ==> (#[trigger] previous[j]).name@
                != previous[i].name@) ==> !is_drained_name(previous, next, previous[i].name@),
{
    lemma_profile_index(next.profiles@, previous[i].name@);
    if let Some(first) = profile_index(next.profiles@, previous[i].name@) {
        if first < k {
            assert(next.profiles@[first].name@ != previous[i].name@);
        }
        if k < first {
            assert(next.profiles@[k].name@ != previous[i].name@);
        }
    }
    if is_invalidated(previous[i], next) {
        assert(previous[i].name@ == previous[i].name@);
    }
}

proof fn lemma_of_profiles_places(
    guests: Seq<HotGuest>,
    profiles: Set<Seq<char>>,
    reason: HotDrainReason,
    wanted: Drain,
)
    requires
        guests.len() <= usize::MAX,
        of_profiles(guests, profiles, reason).contains(wanted),
    ensures
        wanted.place < guests.len(),
    decreases guests.len(),
{
    if guests.len() > 0 {
        let rest = of_profiles(guests.drop_last(), profiles, reason);
        lemma_push_holds(rest, Drain { place: (guests.len() - 1) as usize, reason }, wanted);
        if rest.contains(wanted) {
            lemma_of_profiles_places(guests.drop_last(), profiles, reason, wanted);
        }
    }
}

/// Every machine of a named profile is drained, in either lane and in every state
/// but evicted, for the reason that was given; no machine of another profile is.
pub proof fn law_every_machine_of_the_profile_drains(
    guests: Seq<HotGuest>,
    profiles: Set<Seq<char>>,
    reason: HotDrainReason,
    i: usize,
    told: HotDrainReason,
)
    requires
        guests.len() <= usize::MAX,
        i < guests.len(),
    ensures
        of_profiles(guests, profiles, reason).contains(Drain { place: i, reason: told }) <==> told
            == reason && profiles.contains(guests[i as int].profile@) && !(
        guests[i as int].state is Evicted),
    decreases guests.len(),
{
    let wanted = Drain { place: i, reason: told };
    let rest = of_profiles(guests.drop_last(), profiles, reason);
    lemma_push_holds(rest, Drain { place: (guests.len() - 1) as usize, reason }, wanted);
    if i < guests.len() - 1 {
        law_every_machine_of_the_profile_drains(guests.drop_last(), profiles, reason, i, told);
    } else if rest.contains(wanted) {
        lemma_of_profiles_places(guests.drop_last(), profiles, reason, wanted);
    }
}

} // verus!
