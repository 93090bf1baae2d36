use vstd::prelude::*;

use crate::domain::allocation::ProfileName;
use crate::domain::hot::{HotConfig, HotDrainReason, HotGuest, HotLane, HotState};
use crate::names::NameSet;
use crate::order::{
    is_distinct, lemma_rank_irreflexive, lemma_rank_total, rank_before, sorted, Rank,
};
use crate::text::{
    is_text_before, lemma_text_before_asymmetric, lemma_text_before_total,
    lemma_text_before_transitive, text_before,
};

verus! {

/// What a claim decision needs to know that the record itself cannot say: the
/// profile's live bounds, and what the profile currently resolves to. All of
/// it is read before the decision is taken.
pub struct HotPolicy {
    pub hot: HotConfig,
    /// The base the profile resolves to right now. `None` where the backend
    /// cannot fingerprint at all, which is not evidence of a mismatch.
    pub fingerprint: Option<String>,
    /// The warm generation the profile currently promotes, if any.
    pub warm_generation: Option<u64>,
    pub now: u64,
}

pub open spec fn seconds_since(then: u64, now: u64) -> int {
    if now >= then {
        now - then
    } else {
        0
    }
}

/// The lifetime a machine gets: what its run asked for, up to the ceiling.
pub open spec fn lifetime_limit(guest: HotGuest, hot: HotConfig) -> u64 {
    match guest.age_limit_seconds {
        Some(asked) => if asked <= hot.max_lifetime_seconds {
            asked
        } else {
            hot.max_lifetime_seconds
        },
        None => hot.max_lifetime_seconds,
    }
}

/// Only a base the machine was itself fingerprinted against can have changed.
pub open spec fn is_base_changed(guest: HotGuest, fingerprint: Option<String>) -> bool {
    &&& guest.source.base_fingerprint matches Some(recorded)
    &&& fingerprint matches Some(current)
    &&& recorded@ != current@
}

/// Why this machine may no longer take a claim, or `None` while it may.
pub open spec fn drain(guest: HotGuest, policy: HotPolicy) -> Option<HotDrainReason> {
    if guest.state is Evicted {
        None
    } else if seconds_since(guest.booted_at_unix, policy.now) >= lifetime_limit(guest, policy.hot) {
        Some(HotDrainReason::MaxLifetime)
    } else if guest.jobs_served >= policy.hot.max_jobs {
        Some(HotDrainReason::MaxJobs)
    } else if is_base_changed(guest, policy.fingerprint) || guest.warm_generation
        != policy.warm_generation {
        Some(HotDrainReason::StaleBase)
    } else if guest.state is Idle && seconds_since(guest.updated_at_unix, policy.now)
        >= policy.hot.idle_ttl_seconds {
        Some(HotDrainReason::IdleTtl)
    } else {
        None
    }
}

/// Why this machine may no longer take a claim, or `None` while it may.
///
/// Order matters only for the reason reported: every arm ends the same way.
/// The two arms on what the profile resolves to are correctness, not policy,
/// so they are checked whatever the table says.
pub fn drain_reason(guest: &HotGuest, policy: &HotPolicy) -> (reason: Option<HotDrainReason>)
    ensures
        reason == drain(*guest, *policy),
{
    if guest.state.is_terminal() {
        return None;
    }
    // The run that retained the machine set its lifetime; the profile's
    // `max_lifetime_seconds` is the ceiling on that, so the lower of the two
    // binds and a reload that lowers the ceiling shortens a machine already
    // running under the old one.
    let limit: u64 = match guest.age_limit_seconds {
        Some(asked) => if asked <= policy.hot.max_lifetime_seconds {
            asked
        } else {
            policy.hot.max_lifetime_seconds
        },
        None => policy.hot.max_lifetime_seconds,
    };
    if policy.now.saturating_sub(guest.booted_at_unix) >= limit {
        return Some(HotDrainReason::MaxLifetime);
    }
    if guest.jobs_served >= policy.hot.max_jobs {
        return Some(HotDrainReason::MaxJobs);
    }
    // Unknown is not evidence of a change: a machine only drains on a
    // fingerprint that actually moved.
    let is_moved: bool = match (&guest.source.base_fingerprint, &policy.fingerprint) {
        (Some(recorded), Some(current)) => *recorded != *current,
        _ => false,
    };
    if is_moved || guest.warm_generation != policy.warm_generation {
        return Some(HotDrainReason::StaleBase);
    }
    // The idle clock runs from the last state change, which is when the
    // machine became claimable; a claimed machine is not idling.
    if guest.state == HotState::Idle && policy.now.saturating_sub(guest.updated_at_unix)
        >= policy.hot.idle_ttl_seconds {
        return Some(HotDrainReason::IdleTtl);
    }
    None
}

/// May a claim of this profile and lane take this machine?
pub open spec fn is_claimable(
    guest: HotGuest,
    profile: Seq<char>,
    lane: HotLane,
    claimed: Set<Seq<char>>,
    policy: HotPolicy,
) -> bool {
    guest.serves(profile, lane) && !claimed.contains(guest.vm_name@) && drain(guest, policy) is None
}

/// The machine that has served more jobs is taken first; the name breaks ties.
pub open spec fn outranks(left: HotGuest, right: HotGuest) -> bool {
    left.jobs_served > right.jobs_served || (left.jobs_served == right.jobs_served && text_before(
        left.vm_name@,
        right.vm_name@,
    ))
}

/// The machine at `choice` is claimable and comes before every other one.
pub open spec fn is_choice(
    hot: Seq<HotGuest>,
    profile: Seq<char>,
    lane: HotLane,
    claimed: Set<Seq<char>>,
    policy: HotPolicy,
    choice: int,
) -> bool {
    &&& 0 <= choice < hot.len()
    &&& is_claimable(hot[choice], profile, lane, claimed, policy)
    &&& forall|j: int|
        0 <= j < hot.len() && j != choice && is_claimable(
            #[trigger] hot[j],
            profile,
            lane,
            claimed,
            policy,
        ) ==> outranks(hot[choice], hot[j]) || (!outranks(hot[j], hot[choice]) && j < choice)
}

proof fn lemma_outranks_step(best: HotGuest, next: HotGuest, other: HotGuest)
    requires
        !outranks(best, next),
        !outranks(other, best),
    ensures
        !outranks(other, next),
{
    lemma_text_before_total(best.vm_name@, next.vm_name@);
    lemma_text_before_total(best.vm_name@, other.vm_name@);
    if outranks(other, next) {
        if other.jobs_served == next.jobs_served && best.jobs_served == next.jobs_served {
            if text_before(next.vm_name@, best.vm_name@) {
                lemma_text_before_transitive(other.vm_name@, next.vm_name@, best.vm_name@);
            }
        }
    }
}

/// The place in the pool of the one machine a claim may take, or `None`.
///
/// The machine that has served most jobs wins, so wear concentrates and the
/// pool retires machines one at a time instead of all at once. The name breaks
/// ties, so the choice is deterministic.
pub fn claimable(
    hot: &Vec<HotGuest>,
    profile: &str,
    lane: HotLane,
    claimed: &NameSet,
    policy: &HotPolicy,
) -> (choice: Option<usize>)
    ensures
        match choice {
            Some(index) => is_choice(hot@, profile@, lane, claimed@, *policy, index as int),
            None => forall|j: int|
                0 <= j < hot@.len() ==> !is_claimable(
                    #[trigger] hot@[j],
                    profile@,
                    lane,
                    claimed@,
                    *policy,
                ),
        },
{
    let mut best: Option<usize> = None;
    let mut i: usize = 0;
    while i < hot.len()
        invariant
            i <= hot@.len(),
            match best {
                Some(index) => is_choice(
                    hot@.take(i as int),
                    profile@,
                    lane,
                    claimed@,
                    *policy,
                    index as int,
                ),
                None => forall|j: int|
                    0 <= j < i ==> !is_claimable(
                        #[trigger] hot@[j],
                        profile@,
                        lane,
                        claimed@,
                        *policy,
                    ),
            },
        decreases hot@.len() - i,
    {
        let guest: &HotGuest = &hot[i];
        let ghost before: Seq<HotGuest> = hot@.take(i as int);
        let ghost after: Seq<HotGuest> = hot@.take(i + 1);
        proof {
            assert forall|j: int| 0 <= j < i implies before[j] == hot@[j] && after[j]
                == hot@[j] by {}
            assert(after[i as int] == *guest);
        }
        if guest.is_serving(profile, lane) && !claimed.contains(guest.vm_name.as_str())
            && drain_reason(guest, policy).is_none() {
            match best {
                None => {
                    best = Some(i);
                },
                Some(index) => {
                    let held: &HotGuest = &hot[index];
                    let is_held_first: bool = held.jobs_served > guest.jobs_served || (
                    held.jobs_served == guest.jobs_served && is_text_before(
                        held.vm_name.as_str(),
                        guest.vm_name.as_str(),
                    ));
                    proof {
                        assert(*held == before[index as int]);
                        if outranks(*guest, *held) && outranks(*held, *guest) {
                            lemma_text_before_asymmetric(guest.vm_name@, held.vm_name@);
                        }
                        if !outranks(*held, *guest) {
                            assert forall|j: int|
                                0 <= j < i && is_claimable(
                                    #[trigger] after[j],
                                    profile@,
                                    lane,
                                    claimed@,
                                    *policy,
                                ) implies !outranks(after[j], *guest) by {
                                assert(after[j] == before[j]);
                                if j == index as int {
                                } else {
                                    if outranks(*held, before[j]) && outranks(before[j], *held) {
                                        lemma_text_before_asymmetric(
                                            held.vm_name@,
                                            before[j].vm_name@,
                                        );
                                    }
                                    lemma_outranks_step(*held, *guest, before[j]);
                                }
                            }
                        }
                    }
                    if !is_held_first {
                        best = Some(i);
                    }
                },
            }
        }
        proof {
            if let Some(index) = best {
                assert forall|j: int|
                    0 <= j < after.len() && j != index as int && is_claimable(
                        #[trigger] after[j],
                        profile@,
                        lane,
                        claimed@,
                        *policy,
                    ) implies outranks(after[index as int], after[j]) || (!outranks(
                    after[j],
                    after[index as int],
                ) && j < index as int) by {
                    if j < i {
                        assert(after[j] == before[j]);
                        assert(after[j] == hot@[j]);
                    }
                    if (index as int) < i {
                        assert(after[index as int] == before[index as int]);
                    }
                }
            }
        }
        i = i + 1;
    }
    assert(hot@.take(hot@.len() as int) =~= hot@);
    best
}

/// How many records still hold a machine.
pub open spec fn held_count(hot: Seq<HotGuest>) -> nat
    decreases hot.len(),
{
    if hot.len() == 0 {
        0
    } else {
        held_count(hot.drop_last()) + if hot.last().state.holding() {
            1nat
        } else {
            0nat
        }
    }
}

/// Whether the pool has room for one more machine, globally.
///
/// Only ever asked on behalf of an allocation that has already failed to find
/// an idle machine, to decide whether that allocation's own guest may be
/// retained when its job ends. `in_flight` names allocations that will retain a
/// machine but have not yet, which the record snapshot cannot show.
pub fn is_pool_expandable(hot: &Vec<HotGuest>, max_hot_vms: u8, in_flight: &Vec<&ProfileName>) -> (is:
    bool)
    ensures
        is == (held_count(hot@) + in_flight@.len() < max_hot_vms),
{
    let mut held: usize = 0;
    let mut i: usize = 0;
    while i < hot.len()
        invariant
            i <= hot@.len(),
            held <= i,
            held == held_count(hot@.take(i as int)),
        decreases hot@.len() - i,
    {
        proof {
            assert(hot@.take(i + 1).drop_last() =~= hot@.take(i as int));
            assert(hot@.take(i + 1).last() == hot@[i as int]);
        }
        if hot[i].state.is_holding_machine() {
            held = held + 1;
        }
        i = i + 1;
    }
    assert(hot@.take(hot@.len() as int) =~= hot@);
    held.saturating_add(in_flight.len()) < max_hot_vms as usize
}

/// What the pool's machines are ranked by for retirement: the stalest first.
pub open spec fn staleness(hot: Seq<HotGuest>, i: int) -> Rank {
    Rank {
        major: hot[i].updated_at_unix,
        minor: 0,
        text: hot[i].vm_name,
        index: i as usize,
    }
}

/// How many idle machines this lane holds.
pub open spec fn idle_count(hot: Seq<HotGuest>, profile: Seq<char>, lane: HotLane) -> nat
    decreases hot.len(),
{
    if hot.len() == 0 {
        0
    } else {
        idle_count(hot.drop_last(), profile, lane) + if hot.last().serves(profile, lane) {
            1nat
        } else {
            0nat
        }
    }
}

/// `picked` are the places of the idle machines a lane holds beyond what it
/// keeps, stalest first, and every idle machine left out is fresher.
pub open spec fn is_surplus(
    hot: Seq<HotGuest>,
    profile: Seq<char>,
    lane: HotLane,
    keep: int,
    picked: Seq<usize>,
) -> bool {
    let idle = idle_count(hot, profile, lane);
    &&& picked.len() == if idle > keep {
        idle - keep
    } else {
        0
    }
    &&& forall|k: int|
        0 <= k < picked.len() ==> (#[trigger] picked[k]) < hot.len() && hot[picked[k] as int].serves(
            profile,
            lane,
        )
    &&& forall|a: int, b: int|
        0 <= a < b < picked.len() ==> rank_before(
            staleness(hot, #[trigger] picked[a] as int),
            staleness(hot, #[trigger] picked[b] as int),
        )
    &&& forall|i: usize, k: int|
        i < hot.len() && hot[i as int].serves(profile, lane) && !(#[trigger] picked.contains(i)) && 0
            <= k < picked.len() ==> rank_before(
            staleness(hot, #[trigger] picked[k] as int),
            staleness(hot, i as int),
        )
}

/// Two lists of surplus machines are one list.
pub proof fn lemma_surplus_unique(
    hot: Seq<HotGuest>,
    profile: Seq<char>,
    lane: HotLane,
    keep: int,
    left: Seq<usize>,
    right: Seq<usize>,
)
    requires
        is_surplus(hot, profile, lane, keep, left),
        is_surplus(hot, profile, lane, keep, right),
    ensures
        left == right,
{
    assert forall|k: int| 0 <= k < left.len() implies left[k] == right[k] by {
        lemma_surplus_agrees(hot, profile, lane, keep, left, right, k);
    }
    assert(left =~= right);
}

proof fn lemma_surplus_agrees(
    hot: Seq<HotGuest>,
    profile: Seq<char>,
    lane: HotLane,
    keep: int,
    left: Seq<usize>,
    right: Seq<usize>,
    k: int,
)
    requires
        is_surplus(hot, profile, lane, keep, left),
        is_surplus(hot, profile, lane, keep, right),
        0 <= k < left.len(),
    ensures
        left[k] == right[k],
    decreases k,
{
    assert forall|i: int| 0 <= i < k implies left[i] == right[i] by {
        lemma_surplus_agrees(hot, profile, lane, keep, left, right, i);
    }
    if left[k] != right[k] {
        lemma_surplus_ahead(hot, profile, lane, keep, left, right, k);
        lemma_surplus_ahead(hot, profile, lane, keep, right, left, k);
        lemma_rank_total(staleness(hot, left[k] as int), staleness(hot, right[k] as int));
    }
}

proof fn lemma_surplus_ahead(
    hot: Seq<HotGuest>,
    profile: Seq<char>,
    lane: HotLane,
    keep: int,
    left: Seq<usize>,
    right: Seq<usize>,
    k: int,
)
    requires
        is_surplus(hot, profile, lane, keep, left),
        is_surplus(hot, profile, lane, keep, right),
        0 <= k < left.len(),
        forall|i: int| 0 <= i < k ==> left[i] == right[i],
        left[k] != right[k],
    ensures
        rank_before(staleness(hot, right[k] as int), staleness(hot, left[k] as int)),
{
    assert(left[k] < hot.len() && hot[left[k] as int].serves(profile, lane));
    if right.contains(left[k]) {
        let m: int = choose|m: int| 0 <= m < right.len() && right[m] == left[k];
        if m < k {
            assert(left[m] == left[k]);
            lemma_rank_irreflexive(staleness(hot, left[m] as int));
            assert(rank_before(staleness(hot, left[m] as int), staleness(hot, left[k] as int)));
        }
        assert(m > k);
    } else {
        assert(rank_before(staleness(hot, right[k] as int), staleness(hot, left[k] as int)));
    }
}

/// The places of the idle machines a lane holds beyond what it keeps, stalest
/// first.
pub open spec fn surplus(hot: Seq<HotGuest>, profile: Seq<char>, lane: HotLane, keep: int) -> Seq<
    usize,
> {
    choose|picked: Seq<usize>| is_surplus(hot, profile, lane, keep, picked)
}

/// The places of the idle machines this lane holds beyond `max_idle`,
/// oldest-updated first, so a release that overshoots retires the stalest
/// machine rather than the one just recycled.
pub fn surplus_idle(
    hot: &Vec<HotGuest>,
    profile: &str,
    lane: HotLane,
    hot_config: &HotConfig,
) -> (picked: Vec<usize>)
    ensures
        is_surplus(hot@, profile@, lane, hot_config.max_idle as int, picked@),
        picked@ == surplus(hot@, profile@, lane, hot_config.max_idle as int),
{
    let mut ranks: Vec<Rank> = Vec::new();
    let mut i: usize = 0;
    while i < hot.len()
        invariant
            i <= hot@.len(),
            ranks@.len() == idle_count(hot@.take(i as int), profile@, lane),
            forall|k: int|
                0 <= k < ranks@.len() ==> (#[trigger] ranks@[k]).index < i && hot@[ranks@[k].index as int].serves(
                    profile@,
                    lane,
                ) && ranks@[k] == staleness(hot@, ranks@[k].index as int),
            is_distinct(ranks@),
            forall|j: int|
                0 <= j < i && (#[trigger] hot@[j]).serves(profile@, lane) ==> ranks@.contains(
                    staleness(hot@, j),
                ),
        decreases hot@.len() - i,
    {
        let guest: &HotGuest = &hot[i];
        let ghost before: Seq<Rank> = ranks@;
        proof {
            assert(hot@.take(i + 1).drop_last() =~= hot@.take(i as int));
            assert(hot@.take(i + 1).last() == *guest);
        }
        if guest.is_serving(profile, lane) {
            ranks.push(
                Rank {
                    major: guest.updated_at_unix,
                    minor: 0,
                    text: guest.vm_name.clone(),
                    index: i,
                },
            );
            proof {
                assert(ranks@[before.len() as int] == staleness(hot@, i as int));
            }
        }
        proof {
            assert forall|j: int|
                0 <= j < i + 1 && (#[trigger] hot@[j]).serves(profile@, lane) implies ranks@.contains(
                staleness(hot@, j),
            ) by {
                if j < i {
                    assert(before.contains(staleness(hot@, j)));
                    let k: int = choose|k: int|
                        0 <= k < before.len() && before[k] == staleness(hot@, j);
                    assert(ranks@[k] == before[k]);
                }
            }
        }
        i = i + 1;
    }
    assert(hot@.take(hot@.len() as int) =~= hot@);
    let ghost built: Seq<Rank> = ranks@;
    let in_order: Vec<Rank> = sorted(ranks);
    proof {
        assert forall|k: int| 0 <= k < in_order@.len() implies (#[trigger] in_order@[k]).index
            < hot@.len() && hot@[in_order@[k].index as int].serves(profile@, lane) && in_order@[k]
            == staleness(hot@, in_order@[k].index as int) by {
            assert(built.contains(in_order@[k]));
            let b: int = choose|b: int| 0 <= b < built.len() && built[b] == in_order@[k];
            assert(built[b].index < hot@.len());
        }
    }
    let keep: usize = hot_config.max_idle as usize;
    let count: usize = if in_order.len() > keep {
        in_order.len() - keep
    } else {
        0
    };
    let mut picked: Vec<usize> = Vec::new();
    let mut k: usize = 0;
    while k < count
        invariant
            k <= count,
            count <= in_order@.len(),
            picked@.len() == k,
            forall|a: int| 0 <= a < k ==> #[trigger] picked@[a] == in_order@[a].index,
        decreases count - k,
    {
        picked.push(in_order[k].index);
        k = k + 1;
    }
    proof {
        assert forall|a: int, b: int| 0 <= a < b < picked@.len() implies rank_before(
            staleness(hot@, #[trigger] picked@[a] as int),
            staleness(hot@, #[trigger] picked@[b] as int),
        ) by {
            assert(in_order@[a].index == picked@[a]);
            assert(in_order@[b].index == picked@[b]);
        }
        assert forall|k: int| 0 <= k < picked@.len() implies (#[trigger] picked@[k]) < hot@.len()
            && hot@[picked@[k] as int].serves(profile@, lane) by {
            assert(in_order@[k].index == picked@[k]);
        }
        assert forall|i: usize, k: int|
            i < hot@.len() && hot@[i as int].serves(profile@, lane) && !(
            #[trigger] picked@.contains(i)) && 0 <= k < picked@.len() implies rank_before(
            staleness(hot@, #[trigger] picked@[k] as int),
            staleness(hot@, i as int),
        ) by {
            assert(hot@[i as int].serves(profile@, lane));
            assert(built.contains(staleness(hot@, i as int)));
            let b: int = choose|b: int|
                0 <= b < built.len() && built[b] == staleness(hot@, i as int);
            assert(in_order@.contains(built[b]));
            let p: int = choose|p: int| 0 <= p < in_order@.len() && in_order@[p] == built[b];
            if p < count {
                assert(picked@[p] == in_order@[p].index);
                assert(picked@.contains(i));
            }
            assert(in_order@[k].index == picked@[k]);
        }
        assert(is_surplus(hot@, profile@, lane, hot_config.max_idle as int, picked@));
        lemma_surplus_unique(
            hot@,
            profile@,
            lane,
            hot_config.max_idle as int,
            picked@,
            surplus(hot@, profile@, lane, hot_config.max_idle as int),
        );
    }
    picked
}

/// A machine with a reason to drain is never claimed, nor is one that another
/// live allocation holds, nor one of another profile or lane.
pub proof fn law_claim_stays_in_bounds(
    hot: Seq<HotGuest>,
    profile: Seq<char>,
    lane: HotLane,
    claimed: Set<Seq<char>>,
    policy: HotPolicy,
    choice: int,
)
    requires
        is_choice(hot, profile, lane, claimed, policy, choice),
    ensures
        drain(hot[choice], policy) is None,
        !claimed.contains(hot[choice].vm_name@),
        hot[choice].state is Idle,
        hot[choice].profile@ == profile,
        hot[choice].lane == lane,
{
}

/// The choice is one machine: two places that both are the choice are the same.
pub proof fn law_choice_is_unique(
    hot: Seq<HotGuest>,
    profile: Seq<char>,
    lane: HotLane,
    claimed: Set<Seq<char>>,
    policy: HotPolicy,
    a: int,
    b: int,
)
    requires
        is_choice(hot, profile, lane, claimed, policy, a),
        is_choice(hot, profile, lane, claimed, policy, b),
    ensures
        a == b,
{
    if a != b {
        assert(is_claimable(hot[a], profile, lane, claimed, policy));
        assert(is_claimable(hot[b], profile, lane, claimed, policy));
        if outranks(hot[a], hot[b]) && outranks(hot[b], hot[a]) {
            lemma_text_before_asymmetric(hot[a].vm_name@, hot[b].vm_name@);
        }
    }
}

/// Has this much time gone by since then? A limit of nothing is always reached.
pub open spec fn is_reached(then: u64, now: u64, limit: u64) -> bool {
    now >= then + limit || limit == 0
}

/// Every bound drains, and nothing else does. A machine that is evicted is
/// past all of them. Any other one goes once it has lived as long as its run
/// asked or its profile allows, has served its jobs, stands on a base that is
/// known to have moved or on another generation than the promoted one, or has
/// idled too long; while none of that holds, it stays. Of several reasons the
/// one that stands first here is told.
pub proof fn law_every_bound_drains(guest: HotGuest, policy: HotPolicy)
    ensures
        ({
            let reason = drain(guest, policy);
            let is_outlived = is_reached(
                guest.booted_at_unix,
                policy.now,
                policy.hot.max_lifetime_seconds,
            ) || (guest.age_limit_seconds matches Some(asked) && is_reached(
                guest.booted_at_unix,
                policy.now,
                asked,
            ));
            let is_spent = guest.jobs_served >= policy.hot.max_jobs;
            let is_moved = guest.source.base_fingerprint matches Some(recorded) && (
            policy.fingerprint matches Some(current) && recorded@ != current@);
            let is_stale = is_moved || guest.warm_generation != policy.warm_generation;
            let is_idled = guest.state is Idle && is_reached(
                guest.updated_at_unix,
                policy.now,
                policy.hot.idle_ttl_seconds,
            );
            &&& guest.state is Evicted ==> reason is None
            &&& !(guest.state is Evicted) ==> {
                &&& reason is Some <==> is_outlived || is_spent || is_stale || is_idled
                &&& reason == Some(HotDrainReason::MaxLifetime) <==> is_outlived
                &&& reason == Some(HotDrainReason::MaxJobs) <==> !is_outlived && is_spent
                &&& reason == Some(HotDrainReason::StaleBase) <==> !is_outlived && !is_spent
                    && is_stale
                &&& reason == Some(HotDrainReason::IdleTtl) <==> !is_outlived && !is_spent
                    && !is_stale && is_idled
            }
        }),
{
}

/// A machine on a superseded base is never handed out: whatever else is true of
/// it, its base and its generation are the ones its claimant resolved to, or are
/// not known to differ. Nor is one that is past its lifetime, its jobs or its
/// idle time, that is not idle, that serves another profile or lane, or that a
/// live allocation holds.
pub proof fn law_claimed_machine_is_sound(
    hot: Seq<HotGuest>,
    profile: Seq<char>,
    lane: HotLane,
    claimed: Set<Seq<char>>,
    policy: HotPolicy,
    choice: int,
)
    requires
        is_choice(hot, profile, lane, claimed, policy, choice),
    ensures
        0 <= choice < hot.len(),
        hot[choice].state is Idle,
        hot[choice].profile@ == profile,
        hot[choice].lane == lane,
        !claimed.contains(hot[choice].vm_name@),
        hot[choice].source.base_fingerprint matches Some(recorded) ==> (
        policy.fingerprint matches Some(current) ==> recorded@ == current@),
        hot[choice].warm_generation == policy.warm_generation,
        hot[choice].jobs_served < policy.hot.max_jobs,
        policy.now < hot[choice].booted_at_unix + policy.hot.max_lifetime_seconds,
        hot[choice].age_limit_seconds matches Some(asked) ==> policy.now
            < hot[choice].booted_at_unix + asked,
        policy.now < hot[choice].updated_at_unix + policy.hot.idle_ttl_seconds,
{
    law_every_bound_drains(hot[choice], policy);
}

/// A sound machine is never passed over: an idle one of this profile and lane
/// that nobody holds and no bound drains may be claimed, and no other may.
pub proof fn law_sound_machine_is_claimable(
    guest: HotGuest,
    profile: Seq<char>,
    lane: HotLane,
    claimed: Set<Seq<char>>,
    policy: HotPolicy,
)
    ensures
        is_claimable(guest, profile, lane, claimed, policy) <==> {
            &&& guest.state is Idle
            &&& guest.profile@ == profile
            &&& guest.lane == lane
            &&& !claimed.contains(guest.vm_name@)
            &&& !is_reached(guest.booted_at_unix, policy.now, policy.hot.max_lifetime_seconds)
            &&& guest.age_limit_seconds matches Some(asked) ==> !is_reached(
                guest.booted_at_unix,
                policy.now,
                asked,
            )
            &&& guest.jobs_served < policy.hot.max_jobs
            &&& guest.source.base_fingerprint matches Some(recorded) ==> (
            policy.fingerprint matches Some(current) ==> recorded@ == current@)
            &&& guest.warm_generation == policy.warm_generation
            &&& !is_reached(guest.updated_at_unix, policy.now, policy.hot.idle_ttl_seconds)
        },
{
    law_every_bound_drains(guest, policy);
}

/// Wear concentrates: no machine that may be claimed has served more jobs than
/// the one that is, and where one has served as many, its name does not come
/// earlier.
pub proof fn law_most_worn_machine_is_claimed_first(
    hot: Seq<HotGuest>,
    profile: Seq<char>,
    lane: HotLane,
    claimed: Set<Seq<char>>,
    policy: HotPolicy,
    choice: int,
    j: int,
)
    requires
        is_choice(hot, profile, lane, claimed, policy, choice),
        0 <= j < hot.len(),
        is_claimable(hot[j], profile, lane, claimed, policy),
    ensures
        hot[j].jobs_served <= hot[choice].jobs_served,
        hot[j].jobs_served == hot[choice].jobs_served ==> !text_before(
            hot[j].vm_name@,
            hot[choice].vm_name@,
        ),
{
    if j == choice {
        if text_before(hot[j].vm_name@, hot[j].vm_name@) {
            lemma_text_before_asymmetric(hot[j].vm_name@, hot[j].vm_name@);
        }
    } else if outranks(hot[choice], hot[j]) {
        if text_before(hot[j].vm_name@, hot[choice].vm_name@) && text_before(
            hot[choice].vm_name@,
            hot[j].vm_name@,
        ) {
            lemma_text_before_asymmetric(hot[j].vm_name@, hot[choice].vm_name@);
        }
    }
}

/// Every record that is not evicted counts against the cap, wherever it stands
/// and whatever its state; an evicted one does not.
pub proof fn law_every_held_machine_counts(
    before: Seq<HotGuest>,
    guest: HotGuest,
    after: Seq<HotGuest>,
)
    ensures
        held_count(Seq::<HotGuest>::empty()) == 0,
        held_count(before + seq![guest] + after) == held_count(before + after) + if guest.state
            is Evicted {
            0nat
        } else {
            1nat
        },
    decreases after.len(),
{
    let all = before + seq![guest] + after;
    if after.len() == 0 {
        assert(all.drop_last() =~= before);
        assert(before + after =~= before);
    } else {
        law_every_held_machine_counts(before, guest, after.drop_last());
        assert(all.drop_last() =~= before + seq![guest] + after.drop_last());
        assert((before + after).drop_last() =~= before + after.drop_last());
    }
}

/// Every idle machine of a profile and lane counts against that lane's ceiling,
/// wherever it stands; no other machine does.
pub proof fn law_every_idle_machine_counts(
    before: Seq<HotGuest>,
    guest: HotGuest,
    after: Seq<HotGuest>,
    profile: Seq<char>,
    lane: HotLane,
)
    ensures
        idle_count(Seq::<HotGuest>::empty(), profile, lane) == 0,
        idle_count(before + seq![guest] + after, profile, lane) == idle_count(
            before + after,
            profile,
            lane,
        ) + if guest.state is Idle && guest.profile@ == profile && guest.lane == lane {
            1nat
        } else {
            0nat
        },
    decreases after.len(),
{
    let all = before + seq![guest] + after;
    if after.len() == 0 {
        assert(all.drop_last() =~= before);
        assert(before + after =~= before);
    } else {
        law_every_idle_machine_counts(before, guest, after.drop_last(), profile, lane);
        assert(all.drop_last() =~= before + seq![guest] + after.drop_last());
        assert((before + after).drop_last() =~= before + after.drop_last());
    }
}

/// A lane gives up exactly what it holds beyond its ceiling: idle machines of
/// its own, each once, and none that was used more recently than one it keeps.
pub proof fn law_surplus_is_the_stalest(
    hot: Seq<HotGuest>,
    profile: Seq<char>,
    lane: HotLane,
    keep: int,
    picked: Seq<usize>,
    k: int,
    i: usize,
)
    requires
        is_surplus(hot, profile, lane, keep, picked),
        0 <= k < picked.len(),
        i < hot.len(),
        hot[i as int].state is Idle,
        hot[i as int].profile@ == profile,
        hot[i as int].lane == lane,
        !picked.contains(i),
    ensures
        picked.len() + keep == idle_count(hot, profile, lane),
        picked[k] < hot.len(),
        hot[picked[k] as int].state is Idle,
        hot[picked[k] as int].profile@ == profile,
        hot[picked[k] as int].lane == lane,
        hot[picked[k] as int].updated_at_unix <= hot[i as int].updated_at_unix,
        hot[picked[k] as int].updated_at_unix == hot[i as int].updated_at_unix ==> !text_before(
            hot[i as int].vm_name@,
            hot[picked[k] as int].vm_name@,
        ),
        forall|j: int|
            0 <= j < picked.len() && j != k ==> #[trigger] picked[j] != picked[k],
{
    let taken: int = picked[k] as int;
    assert(rank_before(staleness(hot, taken), staleness(hot, i as int)));
    if text_before(hot[i as int].vm_name@, hot[taken].vm_name@) && text_before(
        hot[taken].vm_name@,
        hot[i as int].vm_name@,
    ) {
        lemma_text_before_asymmetric(hot[i as int].vm_name@, hot[taken].vm_name@);
    }
    if hot[i as int].vm_name@ == hot[taken].vm_name@ && text_before(
        hot[i as int].vm_name@,
        hot[taken].vm_name@,
    ) {
        lemma_text_before_asymmetric(hot[i as int].vm_name@, hot[taken].vm_name@);
    }
    assert forall|j: int| 0 <= j < picked.len() && j != k implies #[trigger] picked[j]
        != picked[k] by {
        lemma_rank_irreflexive(staleness(hot, picked[k] as int));
        if j < k {
            assert(rank_before(
                staleness(hot, picked[j] as int),
                staleness(hot, picked[k] as int),
            ));
        } else {
            assert(rank_before(
                staleness(hot, picked[k] as int),
                staleness(hot, picked[j] as int),
            ));
        }
    }
}

} // verus!
