use vstd::prelude::*;

use crate::domain::allocation::{AllocationId, ProfileName, VmName};
use crate::domain::hot::{HotConfig, HotDrainReason, HotGuest, HotLane, HotState};
use crate::domain::image::{WarmImageRecord, WarmImageState};
use crate::domain::profile::{Config, Profile};
use crate::error::StoreError;
use crate::hot::select::{seconds_since, HotPolicy};
use crate::names::NameSet;
use crate::order::{orders, rank_before, ranked_order, Rank};
use crate::service::AllocationManager;

verus! {

/// Everything a claim decision needs, read before the decision so the decision
/// itself is pure. Assembled once per request.
#[derive(Debug)]
pub struct HotContext {
    pub hot: HotConfig,
    pub name: ProfileName,
    pub lane: HotLane,
    pub fingerprint: Option<String>,
    pub warm_generation: Option<u64>,
    pub max_hot_vms: u8,
    /// This run's own lifetime for the machine it claims or retains, already
    /// checked against the profile ceiling. `None` takes the ceiling.
    pub age_seconds: Option<u64>,
}

impl HotContext {
    pub open spec fn policy_at(&self, now: u64) -> HotPolicy {
        HotPolicy {
            hot: self.hot,
            fingerprint: self.fingerprint,
            warm_generation: self.warm_generation,
            now,
        }
    }

    pub fn policy(&self, now: u64) -> (policy: HotPolicy)
        ensures
            policy == self.policy_at(now),
    {
        HotPolicy {
            hot: self.hot,
            fingerprint: self.fingerprint.clone(),
            warm_generation: self.warm_generation,
            now,
        }
    }
}

/// The pool policy that admits a claim of this profile and lane, if one does.
pub open spec fn admitted_policy(
    config: Config,
    profile: Profile,
    lane: HotLane,
    supports_hot: bool,
) -> Option<HotConfig> {
    match profile.live_hot() {
        Some(hot) => if config.runtime.max_hot_vms > 0 && hot.lanes.admits(lane) && supports_hot {
            Some(hot)
        } else {
            None
        },
        None => None,
    }
}

/// The live configuration's pool policy for this profile and lane, or `None`
/// when nothing about it admits a hot claim.
///
/// This is where the capability gate lives. Configuration only warns, so
/// without this check a backend that cannot hold a machine open would be asked
/// to.
pub fn admitted_hot(config: &Config, profile: &Profile, lane: HotLane, supports_hot: bool) -> (hot: Option<
    HotConfig,
>)
    ensures
        hot == admitted_policy(*config, *profile, lane, supports_hot),
{
    match profile.enabled_hot() {
        Some(hot) => if config.runtime.max_hot_vms > 0 && hot.lanes.is_lane_admitted(lane)
            && supports_hot {
            Some(hot)
        } else {
            None
        },
        None => None,
    }
}

/// The context of a hot request whose policy admits it: the base and the warm
/// generation are the ones the profile resolves to at this moment.
pub fn hot_context(
    config: &Config,
    name: &ProfileName,
    profile: &Profile,
    lane: HotLane,
    age_seconds: Option<u64>,
    supports_hot: bool,
    fingerprint: Option<String>,
    warm_generation: Option<u64>,
) -> (context: Option<HotContext>)
    ensures
        context == match admitted_policy(*config, *profile, lane, supports_hot) {
            Some(hot) => Some(
                HotContext {
                    hot,
                    name: *name,
                    lane,
                    fingerprint,
                    warm_generation,
                    max_hot_vms: config.runtime.max_hot_vms,
                    age_seconds,
                },
            ),
            None => None::<HotContext>,
        },
{
    match admitted_hot(config, profile, lane, supports_hot) {
        Some(hot) => Some(
            HotContext {
                hot,
                name: name.clone(),
                lane,
                fingerprint,
                warm_generation,
                max_hot_vms: config.runtime.max_hot_vms,
                age_seconds,
            },
        ),
        None => None,
    }
}

/// The generation the profile currently promotes, so a machine built from a
/// superseded warm image drains instead of serving another job. A record that
/// cannot be read promotes nothing.
pub fn promoted_generation(loaded: &Result<Option<WarmImageRecord>, StoreError>) -> (generation: Option<
    u64,
>)
    ensures
        generation == match *loaded {
            Ok(Some(record)) => if record.state is Promoted {
                Some(record.generation)
            } else {
                None
            },
            _ => None::<u64>,
        },
{
    match loaded {
        Ok(Some(record)) => if record.state == WarmImageState::Promoted {
            Some(record.generation)
        } else {
            None
        },
        _ => None,
    }
}

/// One hot record as an operator sees it: a projection of the durable record,
/// not a second place state is kept.
#[derive(Debug, PartialEq, Eq)]
pub struct HotGuestStatus {
    pub vm_name: VmName,
    pub profile: ProfileName,
    pub lane: HotLane,
    pub state: HotState,
    pub age_seconds: u64,
    /// Seconds since the record last moved, which is how long an `Idle`
    /// machine has been giving nothing back.
    pub idle_seconds: u64,
    pub jobs_served: u32,
    pub claimed_by: Option<AllocationId>,
    pub drain_reason: Option<HotDrainReason>,
    /// False when the host does not report the machine as running and owned.
    pub is_machine_present: bool,
}

pub open spec fn status_of(guest: HotGuest, present: Set<Seq<char>>, now: u64) -> HotGuestStatus {
    HotGuestStatus {
        vm_name: guest.vm_name,
        profile: guest.profile,
        lane: guest.lane,
        state: guest.state,
        age_seconds: seconds_since(guest.booted_at_unix, now) as u64,
        idle_seconds: seconds_since(guest.updated_at_unix, now) as u64,
        jobs_served: guest.jobs_served,
        claimed_by: guest.claimed_by,
        drain_reason: guest.drain_reason,
        is_machine_present: present.contains(guest.vm_name@),
    }
}

/// The pool's machines ranked oldest first, by name where they are as old.
pub open spec fn age_ranks(guests: Seq<HotGuest>, now: u64) -> Seq<Rank> {
    Seq::new(
        guests.len(),
        |i: int|
            Rank {
                major: (u64::MAX - seconds_since(guests[i].booted_at_unix, now)) as u64,
                minor: 0,
                text: guests[i].vm_name,
                index: i as usize,
            },
    )
}

impl AllocationManager {
    /// Every hot record, projected for the operator surface, oldest first, so the
    /// machine closest to its bounds reads first. Reports only.
    pub fn hot_list(guests: &Vec<HotGuest>, present: &NameSet, now: u64) -> (statuses: Vec<
        HotGuestStatus,
    >)
        ensures
            exists|order: Seq<usize>| #[trigger]
                orders(order, age_ranks(guests@, now)) && statuses@.len() == order.len() && forall|
                    k: int,
                |
                    0 <= k < order.len() ==> #[trigger] statuses@[k] == status_of(
                        guests@[order[k] as int],
                        present@,
                        now,
                    ),
    {
        let mut ranks: Vec<Rank> = Vec::new();
        let mut i: usize = 0;
        while i < guests.len()
            invariant
                i <= guests@.len(),
                ranks@ == age_ranks(guests@, now).take(i as int),
            decreases guests@.len() - i,
        {
            let age: u64 = now.saturating_sub(guests[i].booted_at_unix);
            ranks.push(
                Rank {
                    major: u64::MAX - age,
                    minor: 0,
                    text: guests[i].vm_name.clone(),
                    index: i,
                },
            );
            assert(age_ranks(guests@, now).take(i + 1) =~= age_ranks(guests@, now).take(i as int).push(
                age_ranks(guests@, now)[i as int],
            ));
            i = i + 1;
        }
        assert(ranks@ =~= age_ranks(guests@, now));
        let order: Vec<usize> = ranked_order(ranks);
        let mut statuses: Vec<HotGuestStatus> = Vec::new();
        let mut k: usize = 0;
        while k < order.len()
            invariant
                k <= order@.len(),
                orders(order@, age_ranks(guests@, now)),
                statuses@.len() == k,
                forall|j: int|
                    0 <= j < k ==> #[trigger] statuses@[j] == status_of(
                        guests@[order@[j] as int],
                        present@,
                        now,
                    ),
            decreases order@.len() - k,
        {
            let guest: &HotGuest = &guests[order[k]];
            statuses.push(
                HotGuestStatus {
                    vm_name: guest.vm_name.clone(),
                    profile: guest.profile.clone(),
                    lane: guest.lane,
                    state: guest.state,
                    age_seconds: now.saturating_sub(guest.booted_at_unix),
                    idle_seconds: now.saturating_sub(guest.updated_at_unix),
                    jobs_served: guest.jobs_served,
                    claimed_by: guest.claimed_by.clone(),
                    drain_reason: guest.drain_reason,
                    is_machine_present: present.contains(guest.vm_name.as_str()),
                },
            );
            k = k + 1;
        }
        statuses
    }
}

/// The pool is asked only with every permission at once: the profile's pool is
/// switched on, it admits the lane of this run's own ref, the host may hold
/// machines at all, and the backend can. Each one missing refuses; none missing
/// does not. What is granted is the profile's own policy.
pub proof fn law_pool_is_asked_only_with_every_permission(
    config: Config,
    profile: Profile,
    lane: HotLane,
    supports_hot: bool,
)
    ensures
        admitted_policy(config, profile, lane, supports_hot) is Some <==> {
            &&& profile.hot is Some
            &&& profile.hot.unwrap().enabled
            &&& lane is Protected ==> profile.hot.unwrap().lanes.admits_protected
            &&& lane is Unprotected ==> profile.hot.unwrap().lanes.admits_unprotected
            &&& config.runtime.max_hot_vms > 0
            &&& supports_hot
        },
        admitted_policy(config, profile, lane, supports_hot) is Some ==> admitted_policy(
            config,
            profile,
            lane,
            supports_hot,
        ) == profile.hot,
{
}

/// A claim is judged by what its profile resolves to at that moment, under its
/// profile's own policy.
pub proof fn law_claim_is_judged_by_the_present(context: HotContext, now: u64)
    ensures
        context.policy_at(now).hot == context.hot,
        context.policy_at(now).fingerprint == context.fingerprint,
        context.policy_at(now).warm_generation == context.warm_generation,
        context.policy_at(now).now == now,
{
}

/// The pool's list shows each record as it is, with its age, its idle time and
/// whether the host has its machine; the oldest machine stands first.
pub proof fn law_pool_list_shows_the_records(
    guests: Seq<HotGuest>,
    present: Set<Seq<char>>,
    now: u64,
    order: Seq<usize>,
    a: int,
    b: int,
)
    requires
        orders(order, age_ranks(guests, now)),
        0 <= a < b < order.len(),
    ensures
        guests[order[a] as int].booted_at_unix <= guests[order[b] as int].booted_at_unix || (
        guests[order[a] as int].booted_at_unix >= now && guests[order[b] as int].booted_at_unix
            >= now),
        ({
            let guest = guests[order[a] as int];
            let shown = status_of(guest, present, now);
            &&& shown.vm_name == guest.vm_name
            &&& shown.profile == guest.profile
            &&& shown.lane == guest.lane
            &&& shown.state == guest.state
            &&& shown.jobs_served == guest.jobs_served
            &&& shown.claimed_by == guest.claimed_by
            &&& shown.drain_reason == guest.drain_reason
            &&& shown.is_machine_present == present.contains(guest.vm_name@)
            &&& now >= guest.booted_at_unix ==> guest.booted_at_unix + shown.age_seconds == now
            &&& now >= guest.updated_at_unix ==> guest.updated_at_unix + shown.idle_seconds == now
        }),
{
    let ranks = age_ranks(guests, now);
    assert(rank_before(ranks[order[a] as int], ranks[order[b] as int]));
}

} // verus!
