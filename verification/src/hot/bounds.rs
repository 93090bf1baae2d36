use vstd::prelude::*;

use crate::domain::hot::{HotConfig, HotDrainReason, HotGuest, HotLane, HotState};
use crate::domain::profile::{lemma_profile_index, profile_index, Config, NamedProfile};
use crate::hot::evict::{ensure_hot_eviction_pending, pending};
use crate::hot::select::{drain, drain_reason, surplus, surplus_idle, HotPolicy};
use crate::names::NameSet;

verus! {

/// One machine of a pool snapshot, by its place, and why it has to go.
#[derive(Clone, Copy, Debug, PartialEq, Eq, Structural)]
pub struct Drain {
    pub place: usize,
    pub reason: HotDrainReason,
}

/// What a profile resolves to right now, as far as one machine's bounds go.
#[derive(Debug, PartialEq, Eq)]
pub struct Resolved {
    pub fingerprint: Option<String>,
    pub warm_generation: Option<u64>,
}

/// The policy that keeps this machine, while some profile has one.
pub open spec fn keeping_policy(config: Config, guest: HotGuest) -> Option<HotConfig> {
    match config.named(guest.profile@) {
        Some(profile) => profile.live_hot(),
        None => None,
    }
}

/// The policy that keeps this machine, while some profile has one. A machine
/// without one is asked nothing about its base or its generation.
pub fn live_policy(config: &Config, guest: &HotGuest) -> (hot: Option<HotConfig>)
    ensures
        hot == keeping_policy(*config, *guest),
{
    match config.find(guest.profile.as_str()) {
        Some(profile) => profile.enabled_hot(),
        None => None,
    }
}

/// Why one machine of the pool has to go, by the bounds it lives under.
pub open spec fn bound(config: Config, guest: HotGuest, resolved: Resolved, now: u64) -> Option<
    HotDrainReason,
> {
    if guest.state is Evicted {
        None
    } else if config.runtime.max_hot_vms == 0 {
        Some(HotDrainReason::ConfigReloaded)
    } else {
        match keeping_policy(config, guest) {
            None => Some(HotDrainReason::ConfigReloaded),
            Some(hot) => drain(
                guest,
                HotPolicy {
                    hot,
                    fingerprint: resolved.fingerprint,
                    warm_generation: resolved.warm_generation,
                    now,
                },
            ),
        }
    }
}

pub fn bound_reason(config: &Config, guest: &HotGuest, resolved: &Resolved, now: u64) -> (reason: Option<
    HotDrainReason,
>)
    ensures
        reason == bound(*config, *guest, *resolved, now),
{
    if guest.state.is_terminal() {
        return None;
    }
    if config.runtime.max_hot_vms == 0 {
        // The documented global kill switch. It has to drain rather than
        // freeze: a pool left standing keeps its capacity charge.
        return Some(HotDrainReason::ConfigReloaded);
    }
    match live_policy(config, guest) {
        // Nothing live configures this machine any more.
        None => Some(HotDrainReason::ConfigReloaded),
        Some(hot) => {
            let policy: HotPolicy = HotPolicy {
                hot,
                fingerprint: resolved.fingerprint.clone(),
                warm_generation: resolved.warm_generation,
                now,
            };
            drain_reason(guest, &policy)
        },
    }
}

/// The machines a bound has caught, in pool order.
pub open spec fn bounded(
    config: Config,
    guests: Seq<HotGuest>,
    resolved: Seq<Resolved>,
    now: u64,
) -> Seq<Drain>
    decreases guests.len(),
{
    if guests.len() == 0 {
        Seq::empty()
    } else {
        let place = guests.len() - 1;
        let rest = bounded(config, guests.drop_last(), resolved, now);
        match bound(config, guests.last(), resolved[place], now) {
            Some(reason) => rest.push(Drain { place: place as usize, reason }),
            None => rest,
        }
    }
}

/// The same machines, each to be drained for holding a lane over its ceiling.
pub open spec fn retiring(places: Seq<usize>) -> Seq<Drain> {
    Seq::new(
        places.len(),
        |k: int| Drain { place: places[k], reason: HotDrainReason::MaxIdle },
    )
}

/// The idle machines that lanes hold beyond their ceilings, profile by profile.
pub open spec fn over_ceiling(profiles: Seq<NamedProfile>, guests: Seq<HotGuest>) -> Seq<Drain>
    decreases profiles.len(),
{
    if profiles.len() == 0 {
        Seq::empty()
    } else {
        let rest = over_ceiling(profiles.drop_last(), guests);
        let name = profiles.last().name@;
        match profiles.last().profile.live_hot() {
            Some(hot) => rest + retiring(
                surplus(guests, name, HotLane::Protected, hot.max_idle as int),
            ) + retiring(surplus(guests, name, HotLane::Unprotected, hot.max_idle as int)),
            None => rest,
        }
    }
}

/// Every machine one bound pass drains, in order.
pub open spec fn pass_drains(
    config: Config,
    guests: Seq<HotGuest>,
    resolved: Seq<Resolved>,
    now: u64,
) -> Seq<Drain> {
    if config.runtime.max_hot_vms == 0 {
        bounded(config, guests, resolved, now)
    } else {
        bounded(config, guests, resolved, now) + over_ceiling(config.profiles@, guests)
    }
}

fn push_retiring(drains: &mut Vec<Drain>, places: &Vec<usize>)
    ensures
        final(drains)@ == old(drains)@ + retiring(places@),
{
    let ghost before: Seq<Drain> = drains@;
    let mut k: usize = 0;
    assert(before + retiring(places@).take(0) =~= before);
    while k < places.len()
        invariant
            k <= places@.len(),
            drains@ == before + retiring(places@).take(k as int),
        decreases places@.len() - k,
    {
        drains.push(Drain { place: places[k], reason: HotDrainReason::MaxIdle });
        assert(before + retiring(places@).take(k + 1) =~= (before + retiring(places@).take(
            k as int,
        )).push(retiring(places@)[k as int]));
        k = k + 1;
    }
    assert(retiring(places@).take(places@.len() as int) =~= retiring(places@));
}

/// Applies every lifecycle bound to the whole pool: what it decides is what one
/// pass drains, in the order it does. Run after a release and on every deleting
/// sweep, so an idle machine gives its slot back without anyone asking.
///
/// `resolved` says for each machine what its profile resolves to now.
pub fn ensure_hot_bounded(
    config: &Config,
    guests: &Vec<HotGuest>,
    resolved: &Vec<Resolved>,
    now: u64,
) -> (drains: Vec<Drain>)
    requires
        resolved@.len() == guests@.len(),
    ensures
        drains@ == pass_drains(*config, guests@, resolved@, now),
{
    let mut drains: Vec<Drain> = Vec::new();
    let mut i: usize = 0;
    while i < guests.len()
        invariant
            resolved@.len() == guests@.len(),
            i <= guests@.len(),
            drains@ == bounded(*config, guests@.take(i as int), resolved@, now),
        decreases guests@.len() - i,
    {
        proof {
            assert(guests@.take(i + 1).drop_last() =~= guests@.take(i as int));
            assert(guests@.take(i + 1).last() == guests@[i as int]);
        }
        if let Some(reason) = bound_reason(config, &guests[i], &resolved[i], now) {
            drains.push(Drain { place: i, reason });
        }
        i = i + 1;
    }
    assert(guests@.take(guests@.len() as int) =~= guests@);
    if config.runtime.max_hot_vms == 0 {
        return drains;
    }
    let retired: Vec<Drain> = ensure_hot_surplus_retired(config, guests);
    let ghost caught: Seq<Drain> = drains@;
    let mut k: usize = 0;
    assert(caught + retired@.take(0) =~= caught);
    while k < retired.len()
        invariant
            k <= retired@.len(),
            drains@ == caught + retired@.take(k as int),
        decreases retired@.len() - k,
    {
        drains.push(retired[k]);
        assert(caught + retired@.take(k + 1) =~= (caught + retired@.take(k as int)).push(
            retired@[k as int],
        ));
        k = k + 1;
    }
    assert(retired@.take(retired@.len() as int) =~= retired@);
    drains
}

/// Retires idle machines a lane holds beyond `max_idle`. This is where the
/// per-lane ceiling binds, because a machine joins a lane at release.
pub fn ensure_hot_surplus_retired(config: &Config, guests: &Vec<HotGuest>) -> (drains: Vec<Drain>)
    ensures
        drains@ == over_ceiling(config.profiles@, guests@),
{
    let ghost profiles: Seq<NamedProfile> = config.profiles@;
    let mut drains: Vec<Drain> = Vec::new();
    let mut i: usize = 0;
    while i < config.profiles.len()
        invariant
            profiles == config.profiles@,
            i <= profiles.len(),
            drains@ == over_ceiling(profiles.take(i as int), guests@),
        decreases profiles.len() - i,
    {
        let entry: &NamedProfile = &config.profiles[i];
        proof {
            assert(profiles.take(i + 1).drop_last() =~= profiles.take(i as int));
            assert(profiles.take(i + 1).last() == *entry);
        }
        if let Some(hot) = entry.profile.enabled_hot() {
            let first: Vec<usize> = surplus_idle(
                guests,
                entry.name.as_str(),
                HotLane::Protected,
                &hot,
            );
            push_retiring(&mut drains, &first);
            let second: Vec<usize> = surplus_idle(
                guests,
                entry.name.as_str(),
                HotLane::Unprotected,
                &hot,
            );
            push_retiring(&mut drains, &second);
        }
        i = i + 1;
    }
    assert(profiles.take(profiles.len() as int) =~= profiles);
    drains
}

/// What a pass over the pool does, in its order.
#[derive(Clone, Copy, Debug, PartialEq, Eq, Structural)]
pub enum BoundPhase {
    /// Drain every machine past a bound, and then the idle ones a lane holds
    /// beyond its ceiling.
    Bound,
    /// Destroy the draining machines nobody holds.
    Finish,
    /// Try the evictions again that failed or found their machine busy.
    Retry,
    Done,
}

/// The phase after this one.
pub fn next_bound_phase(phase: BoundPhase) -> (next: BoundPhase)
    ensures
        next == match phase {
            BoundPhase::Bound => BoundPhase::Finish,
            BoundPhase::Finish => BoundPhase::Retry,
            BoundPhase::Retry => BoundPhase::Done,
            BoundPhase::Done => BoundPhase::Done,
        },
{
    match phase {
        BoundPhase::Bound => BoundPhase::Finish,
        BoundPhase::Finish => BoundPhase::Retry,
        BoundPhase::Retry => BoundPhase::Done,
        BoundPhase::Done => BoundPhase::Done,
    }
}

/// Why a draining machine is destroyed: the reason it was drained for.
pub open spec fn recorded_reason(guest: HotGuest) -> HotDrainReason {
    match guest.drain_reason {
        Some(reason) => reason,
        None => HotDrainReason::OperatorRequest,
    }
}

/// A draining machine nobody is using is a machine to destroy.
pub open spec fn is_drained(guest: HotGuest, claimed: Set<Seq<char>>) -> bool {
    guest.state is Draining && !claimed.contains(guest.vm_name@)
}

/// An eviction that failed, or a drain that found its machine busy.
pub open spec fn is_eviction_due(guest: HotGuest, claimed: Set<Seq<char>>) -> bool {
    &&& !(guest.state is Draining)
    &&& guest.claimed_by is None
    &&& !claimed.contains(guest.vm_name@)
    &&& guest.drain_reason is Some
}

pub open spec fn drained(guests: Seq<HotGuest>, claimed: Set<Seq<char>>) -> Seq<Drain>
    decreases guests.len(),
{
    if guests.len() == 0 {
        Seq::empty()
    } else {
        let rest = drained(guests.drop_last(), claimed);
        if is_drained(guests.last(), claimed) {
            rest.push(
                Drain {
                    place: (guests.len() - 1) as usize,
                    reason: recorded_reason(guests.last()),
                },
            )
        } else {
            rest
        }
    }
}

pub open spec fn evictions_due(guests: Seq<HotGuest>, claimed: Set<Seq<char>>) -> Seq<Drain>
    decreases guests.len(),
{
    if guests.len() == 0 {
        Seq::empty()
    } else {
        let rest = evictions_due(guests.drop_last(), claimed);
        if is_eviction_due(guests.last(), claimed) {
            rest.push(
                Drain {
                    place: (guests.len() - 1) as usize,
                    reason: recorded_reason(guests.last()),
                },
            )
        } else {
            rest
        }
    }
}

/// The draining machines that no allocation still going holds. This is the only
/// place a drain becomes an eviction, so `Draining` always means "waiting for a
/// claim to end" and never "forgotten".
pub fn ensure_hot_drains_finished(guests: &Vec<HotGuest>, claimed: &NameSet) -> (evicted: Vec<Drain>)
    ensures
        evicted@ == drained(guests@, claimed@),
{
    let mut evicted: Vec<Drain> = Vec::new();
    let mut i: usize = 0;
    while i < guests.len()
        invariant
            i <= guests@.len(),
            evicted@ == drained(guests@.take(i as int), claimed@),
        decreases guests@.len() - i,
    {
        let guest: &HotGuest = &guests[i];
        proof {
            assert(guests@.take(i + 1).drop_last() =~= guests@.take(i as int));
            assert(guests@.take(i + 1).last() == *guest);
        }
        if guest.state == HotState::Draining && !claimed.contains(guest.vm_name.as_str()) {
            let reason: HotDrainReason = match guest.drain_reason {
                Some(reason) => reason,
                None => HotDrainReason::OperatorRequest,
            };
            evicted.push(Drain { place: i, reason });
        }
        i = i + 1;
    }
    assert(guests@.take(guests@.len() as int) =~= guests@);
    evicted
}

/// Every eviction that has to be tried again. A record carries a `drain_reason`
/// only once something decided the machine had to go, so this cannot race a
/// retention still in flight — and without it a record whose state has no edge
/// to `Draining` would hold its slot until the daemon restarts.
pub fn ensure_hot_evictions_retried(guests: &Vec<HotGuest>, claimed: &NameSet) -> (evicted: Vec<
    Drain,
>)
    ensures
        evicted@ == evictions_due(guests@, claimed@),
{
    let mut evicted: Vec<Drain> = Vec::new();
    let mut i: usize = 0;
    while i < guests.len()
        invariant
            i <= guests@.len(),
            evicted@ == evictions_due(guests@.take(i as int), claimed@),
        decreases guests@.len() - i,
    {
        let guest: &HotGuest = &guests[i];
        proof {
            assert(guests@.take(i + 1).drop_last() =~= guests@.take(i as int));
            assert(guests@.take(i + 1).last() == *guest);
        }
        if guest.state != HotState::Draining && guest.claimed_by.is_none() && !claimed.contains(
            guest.vm_name.as_str(),
        ) {
            if let Some(reason) = guest.drain_reason {
                evicted.push(Drain { place: i, reason });
            }
        }
        i = i + 1;
    }
    assert(guests@.take(guests@.len() as int) =~= guests@);
    evicted
}

/// What draining one machine comes to.
#[derive(Debug, PartialEq, Eq)]
pub enum DrainStep {
    /// It is draining already.
    Nothing,
    /// It is in the middle of an operation: the record is stamped, where it is
    /// not yet, and the operation reads that when it ends.
    Stamp { stamped: Option<HotGuest> },
    /// The record is saved as draining; once that is durable, an unclaimed
    /// machine is destroyed at once and a claimed one when its claim ends.
    Save { draining: HotGuest, is_evicted: bool },
}

pub open spec fn drain_step(guest: HotGuest, reason: HotDrainReason, now: u64) -> DrainStep {
    if guest.state is Draining {
        DrainStep::Nothing
    } else if !guest.state.leads_to(HotState::Draining) {
        DrainStep::Stamp { stamped: pending(guest, reason) }
    } else {
        DrainStep::Save {
            draining: HotGuest {
                state: HotState::Draining,
                updated_at_unix: now,
                drain_reason: Some(reason),
                ..guest
            },
            is_evicted: guest.claimed_by is None,
        }
    }
}

/// Stops a machine taking new claims. A claimed machine keeps its job and is
/// destroyed when the claim ends; an unclaimed one is destroyed now.
pub fn ensure_hot_drained(guest: &HotGuest, reason: HotDrainReason, now: u64) -> (step: DrainStep)
    ensures
        step == drain_step(*guest, reason, now),
{
    if guest.state == HotState::Draining {
        return DrainStep::Nothing;
    }
    let mut draining: HotGuest = guest.clone();
    if draining.ensure_state(HotState::Draining, now).is_err() {
        // `Provisioning` and `Recycling` have no edge to `Draining`: both are
        // mid-operation. Stamping the reason is what that operation reads
        // before it joins the pool and what the next sweep retries on, so a
        // mid-operation record is never unreachable.
        return DrainStep::Stamp { stamped: ensure_hot_eviction_pending(guest, reason) };
    }
    draining.drain_reason = Some(reason);
    let is_evicted: bool = draining.claimed_by.is_none();
    DrainStep::Save { draining, is_evicted }
}

/// However a drain ends, the machine takes no claim any more: the record it
/// leaves is not idle, or says why the machine has to go.
pub proof fn law_drained_machine_is_never_claimable(guest: HotGuest, reason: HotDrainReason, now: u64)
    ensures
        match drain_step(guest, reason, now) {
            DrainStep::Nothing => guest.state is Draining,
            DrainStep::Stamp { stamped } => !(guest.state is Idle) && match stamped {
                Some(record) => record.drain_reason == Some(reason) && record.state == guest.state,
                None => guest.drain_reason == Some(reason),
            },
            DrainStep::Save { draining, is_evicted } => draining.state is Draining
                && draining.drain_reason == Some(reason) && draining.claimed_by == guest.claimed_by
                && is_evicted == (guest.claimed_by is None),
        },
{
}

/// A claimed machine is never destroyed by a drain: its job goes on.
pub proof fn law_drain_spares_a_claimed_machine(guest: HotGuest, reason: HotDrainReason, now: u64)
    requires
        guest.claimed_by is Some,
    ensures
        drain_step(guest, reason, now) matches DrainStep::Save { is_evicted, .. } ==> !is_evicted,
{
}

/// No pass destroys a machine that an allocation still going holds, whether the
/// machine is draining or an eviction of it is due again.
pub proof fn law_pass_spares_held_machines(guests: Seq<HotGuest>, claimed: Set<Seq<char>>, k: int)
    requires
        guests.len() <= usize::MAX,
    ensures
        0 <= k < drained(guests, claimed).len() ==> drained(guests, claimed)[k].place < guests.len()
            && !claimed.contains(guests[drained(guests, claimed)[k].place as int].vm_name@),
        0 <= k < evictions_due(guests, claimed).len() ==> evictions_due(guests, claimed)[k].place
            < guests.len() && !claimed.contains(
            guests[evictions_due(guests, claimed)[k].place as int].vm_name@,
        ) && guests[evictions_due(guests, claimed)[k].place as int].claimed_by is None,
    decreases guests.len(),
{
    if guests.len() > 0 {
        law_pass_spares_held_machines(guests.drop_last(), claimed, k);
    }
}

/// The kill switch drains the whole pool: with no machine allowed, every record
/// that still holds one is caught by a pass.
pub proof fn law_kill_switch_drains_everything(
    config: Config,
    guests: Seq<HotGuest>,
    resolved: Seq<Resolved>,
    now: u64,
    i: int,
)
    requires
        config.runtime.max_hot_vms == 0,
        guests.len() <= usize::MAX,
        0 <= i < guests.len(),
        guests[i].state.holding(),
    ensures
        pass_drains(config, guests, resolved, now).contains(
            Drain { place: i as usize, reason: HotDrainReason::ConfigReloaded },
        ),
    decreases guests.len(),
{
    let rest = bounded(config, guests.drop_last(), resolved, now);
    let all = bounded(config, guests, resolved, now);
    let wanted = Drain { place: i as usize, reason: HotDrainReason::ConfigReloaded };
    if i == guests.len() - 1 {
        assert(all[rest.len() as int] == wanted);
    } else {
        law_kill_switch_drains_everything(config, guests.drop_last(), resolved, now, i);
        let k: int = choose|k: int| 0 <= k < rest.len() && rest[k] == wanted;
        assert(all[k] == wanted);
    }
}

pub proof fn lemma_push_holds(drains: Seq<Drain>, more: Drain, wanted: Drain)
    ensures
        drains.push(more).contains(wanted) <==> drains.contains(wanted) || more == wanted,
{
    let all = drains.push(more);
    if drains.contains(wanted) {
        let k: int = choose|k: int| 0 <= k < drains.len() && drains[k] == wanted;
        assert(all[k] == wanted);
    }
    if more == wanted {
        assert(all[drains.len() as int] == wanted);
    }
    if all.contains(wanted) {
        let k: int = choose|k: int| 0 <= k < all.len() && all[k] == wanted;
        if k < drains.len() {
            assert(drains[k] == wanted);
        }
    }
}

proof fn lemma_joined_holds(left: Seq<Drain>, right: Seq<Drain>, wanted: Drain)
    ensures
        (left + right).contains(wanted) <==> left.contains(wanted) || right.contains(wanted),
{
    let all = left + right;
    if left.contains(wanted) {
        let k: int = choose|k: int| 0 <= k < left.len() && left[k] == wanted;
        assert(all[k] == wanted);
    }
    if right.contains(wanted) {
        let k: int = choose|k: int| 0 <= k < right.len() && right[k] == wanted;
        assert(all[left.len() + k] == wanted);
    }
    if all.contains(wanted) {
        let k: int = choose|k: int| 0 <= k < all.len() && all[k] == wanted;
        if k < left.len() {
            assert(left[k] == wanted);
        } else {
            assert(right[k - left.len()] == wanted);
        }
    }
}

/// A machine is kept by the first profile of its name, while that profile's pool
/// is switched on; without a keeper it has to go, and so has every machine where
/// none may be held. A kept one goes for the bounds of its keeper.
pub proof fn law_machine_without_a_keeper_goes(
    config: Config,
    guest: HotGuest,
    resolved: Resolved,
    now: u64,
    k: int,
)
    requires
        !(guest.state is Evicted),
        0 <= k <= config.profiles@.len(),
        forall|j: int|
            0 <= j < k && j < config.profiles@.len() ==> (#[trigger] config.profiles@[j]).name@
                != guest.profile@,
        k < config.profiles@.len() ==> config.profiles@[k].name@ == guest.profile@,
    ensures
        ({
            let answer = bound(config, guest, resolved, now);
            &&& config.runtime.max_hot_vms == 0 ==> answer == Some(HotDrainReason::ConfigReloaded)
            &&& k == config.profiles@.len() ==> answer == Some(HotDrainReason::ConfigReloaded)
            &&& k < config.profiles@.len() ==> match config.profiles@[k].profile.hot {
                None => answer == Some(HotDrainReason::ConfigReloaded),
                Some(hot) => if !hot.enabled {
                    answer == Some(HotDrainReason::ConfigReloaded)
                } else {
                    config.runtime.max_hot_vms > 0 ==> answer == drain(
                        guest,
                        HotPolicy {
                            hot,
                            fingerprint: resolved.fingerprint,
                            warm_generation: resolved.warm_generation,
                            now,
                        },
                    )
                },
            }
        }),
{
    lemma_profile_index(config.profiles@, guest.profile@);
    if let Some(first) = profile_index(config.profiles@, guest.profile@) {
        if first < k {
            assert(config.profiles@[first].name@ != guest.profile@);
        }
        if k < first {
            assert(config.profiles@[k].name@ != guest.profile@);
        }
    }
}

proof fn lemma_bounded_places(
    config: Config,
    guests: Seq<HotGuest>,
    resolved: Seq<Resolved>,
    now: u64,
    wanted: Drain,
)
    requires
        guests.len() <= usize::MAX,
        bounded(config, guests, resolved, now).contains(wanted),
    ensures
        wanted.place < guests.len(),
    decreases guests.len(),
{
    if guests.len() > 0 {
        let rest = bounded(config, guests.drop_last(), resolved, now);
        let place: int = guests.len() - 1;
        if let Some(reason) = bound(config, guests.last(), resolved[place], now) {
            lemma_push_holds(rest, Drain { place: place as usize, reason }, wanted);
        }
        if rest.contains(wanted) {
            lemma_bounded_places(config, guests.drop_last(), resolved, now, wanted);
        }
    }
}

/// A pass catches every machine that a bound has caught, for that reason, and no
/// other one.
pub proof fn law_pass_catches_every_machine_past_a_bound(
    config: Config,
    guests: Seq<HotGuest>,
    resolved: Seq<Resolved>,
    now: u64,
    i: usize,
    reason: HotDrainReason,
)
    requires
        guests.len() <= usize::MAX,
        i < guests.len(),
    ensures
        bounded(config, guests, resolved, now).contains(Drain { place: i, reason }) <==> bound(
            config,
            guests[i as int],
            resolved[i as int],
            now,
        ) == Some(reason),
        bound(config, guests[i as int], resolved[i as int], now) == Some(reason) ==> pass_drains(
            config,
            guests,
            resolved,
            now,
        ).contains(Drain { place: i, reason }),
    decreases guests.len(),
{
    let wanted = Drain { place: i, reason };
    let rest = bounded(config, guests.drop_last(), resolved, now);
    let place: int = guests.len() - 1;
    if let Some(found) = bound(config, guests.last(), resolved[place], now) {
        lemma_push_holds(rest, Drain { place: place as usize, reason: found }, wanted);
    }
    if i < place {
        law_pass_catches_every_machine_past_a_bound(
            config,
            guests.drop_last(),
            resolved,
            now,
            i,
            reason,
        );
    } else if rest.contains(wanted) {
        lemma_bounded_places(config, guests.drop_last(), resolved, now, wanted);
    }
    lemma_joined_holds(
        bounded(config, guests, resolved, now),
        over_ceiling(config.profiles@, guests),
        wanted,
    );
}

/// Each lane of each profile whose pool is switched on gives up its surplus, for
/// holding more idle machines than it may; nothing else is given up for that.
pub proof fn law_every_lane_gives_up_its_surplus(
    profiles: Seq<NamedProfile>,
    guests: Seq<HotGuest>,
    wanted: Drain,
)
    ensures
        over_ceiling(profiles, guests).contains(wanted) <==> wanted.reason
            == HotDrainReason::MaxIdle && exists|j: int|
            0 <= j < profiles.len() && ((#[trigger] profiles[j]).profile.hot matches Some(hot)
                && hot.enabled && (surplus(
                guests,
                profiles[j].name@,
                HotLane::Protected,
                hot.max_idle as int,
            ).contains(wanted.place) || surplus(
                guests,
                profiles[j].name@,
                HotLane::Unprotected,
                hot.max_idle as int,
            ).contains(wanted.place))),
    decreases profiles.len(),
{
    if profiles.len() > 0 {
        let rest = profiles.drop_last();
        let last: int = profiles.len() - 1;
        let held = over_ceiling(rest, guests);
        law_every_lane_gives_up_its_surplus(rest, guests, wanted);
        assert forall|j: int| 0 <= j < rest.len() implies #[trigger] profiles[j] == rest[j] by {}
        assert(profiles[last] == profiles.last());
        if let Some(hot) = profiles.last().profile.live_hot() {
            let name = profiles.last().name@;
            let first = surplus(guests, name, HotLane::Protected, hot.max_idle as int);
            let second = surplus(guests, name, HotLane::Unprotected, hot.max_idle as int);
            lemma_joined_holds(held + retiring(first), retiring(second), wanted);
            lemma_joined_holds(held, retiring(first), wanted);
            lemma_retiring_holds(first, wanted);
            lemma_retiring_holds(second, wanted);
        }
        if held.contains(wanted) {
            let j: int = choose|j: int|
                0 <= j < rest.len() && ((#[trigger] rest[j]).profile.hot matches Some(hot)
                    && hot.enabled && (surplus(
                    guests,
                    rest[j].name@,
                    HotLane::Protected,
                    hot.max_idle as int,
                ).contains(wanted.place) || surplus(
                    guests,
                    rest[j].name@,
                    HotLane::Unprotected,
                    hot.max_idle as int,
                ).contains(wanted.place)));
            assert(profiles[j] == rest[j]);
        }
        if over_ceiling(profiles, guests).contains(wanted) && !held.contains(wanted) {
            assert(profiles[last].profile.hot is Some);
        }
    }
}

proof fn lemma_retiring_holds(places: Seq<usize>, wanted: Drain)
    ensures
        retiring(places).contains(wanted) <==> wanted.reason == HotDrainReason::MaxIdle
            && places.contains(wanted.place),
{
    if retiring(places).contains(wanted) {
        let k: int = choose|k: int|
            0 <= k < retiring(places).len() && retiring(places)[k] == wanted;
        assert(places[k] == wanted.place);
    }
    if wanted.reason == HotDrainReason::MaxIdle && places.contains(wanted.place) {
        let k: int = choose|k: int| 0 <= k < places.len() && places[k] == wanted.place;
        assert(retiring(places)[k] == wanted);
    }
}

/// Nothing is forgotten: a draining machine is destroyed as soon as no unfinished
/// allocation runs on it, and an eviction that is still owed is tried again once
/// nobody claims the machine, for the reason the record gives. No other machine is
/// destroyed so.
pub proof fn law_owed_eviction_is_made(
    guests: Seq<HotGuest>,
    claimed: Set<Seq<char>>,
    i: usize,
    reason: HotDrainReason,
)
    requires
        guests.len() <= usize::MAX,
        i < guests.len(),
    ensures
        drained(guests, claimed).contains(Drain { place: i, reason }) <==> {
            &&& guests[i as int].state == HotState::Draining
            &&& !claimed.contains(guests[i as int].vm_name@)
            &&& guests[i as int].drain_reason == Some(reason) || (
            guests[i as int].drain_reason is None && reason == HotDrainReason::OperatorRequest)
        },
        evictions_due(guests, claimed).contains(Drain { place: i, reason }) <==> {
            &&& guests[i as int].state != HotState::Draining
            &&& !claimed.contains(guests[i as int].vm_name@)
            &&& guests[i as int].claimed_by is None
            &&& guests[i as int].drain_reason == Some(reason)
        },
    decreases guests.len(),
{
    let wanted = Drain { place: i, reason };
    let rest = guests.drop_last();
    let last = Drain {
        place: (guests.len() - 1) as usize,
        reason: recorded_reason(guests.last()),
    };
    lemma_push_holds(drained(rest, claimed), last, wanted);
    lemma_push_holds(evictions_due(rest, claimed), last, wanted);
    if i < guests.len() - 1 {
        law_owed_eviction_is_made(rest, claimed, i, reason);
    } else {
        if drained(rest, claimed).contains(wanted) {
            let k: int = choose|k: int|
                0 <= k < drained(rest, claimed).len() && drained(rest, claimed)[k] == wanted;
            law_pass_spares_held_machines(rest, claimed, k);
        }
        if evictions_due(rest, claimed).contains(wanted) {
            let k: int = choose|k: int|
                0 <= k < evictions_due(rest, claimed).len() && evictions_due(rest, claimed)[k]
                    == wanted;
            law_pass_spares_held_machines(rest, claimed, k);
        }
    }
}

/// What a drain does, by the state it finds. An idle machine and a claimed one
/// are recorded as draining, and only one that nobody claims is destroyed at
/// once; a machine in the middle of an operation keeps its state and is marked;
/// one that drains already is left alone.
pub proof fn law_drain_goes_by_the_state_it_finds(guest: HotGuest, reason: HotDrainReason, now: u64)
    ensures
        match guest.state {
            HotState::Idle | HotState::Claimed => drain_step(guest, reason, now) == (
            DrainStep::Save {
                draining: HotGuest {
                    state: HotState::Draining,
                    updated_at_unix: now,
                    drain_reason: Some(reason),
                    ..guest
                },
                is_evicted: guest.claimed_by is None,
            }),
            HotState::Draining => drain_step(guest, reason, now) == DrainStep::Nothing,
            _ => drain_step(guest, reason, now) matches DrainStep::Stamp { stamped } && (
            match stamped {
                Some(record) => guest.drain_reason != Some(reason) && record == (HotGuest {
                    drain_reason: Some(reason),
                    ..guest
                }),
                None => guest.drain_reason == Some(reason),
            }),
        },
{
}

/// A record whose machine is gone is bound by nothing.
pub proof fn law_evicted_record_is_left_alone(
    config: Config,
    guest: HotGuest,
    resolved: Resolved,
    now: u64,
)
    requires
        guest.state is Evicted,
    ensures
        bound(config, guest, resolved, now) is None,
{
}

} // verus!
