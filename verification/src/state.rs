use vstd::prelude::*;

use crate::domain::allocation::{Allocation, AllocationId, AllocationState, CloneSource,
    LifecycleEdges, RetentionOutcome};
use crate::error::ManagerError;
use crate::event::{fact_of, state_change, EventKind, Fact, Payload};
use crate::order::{in_order, is_distinct, is_ranked, is_reordering, rank_before, sorted, Rank};
use crate::service::AllocationManager;

verus! {

/// One resident allocation and who is driving it.
#[derive(Debug, PartialEq, Eq)]
pub struct Entry {
    pub allocation: Allocation,
    /// False for a recovered entry, and cleared when the worker task exits, so
    /// it answers "is a task listening?" rather than "who created this?".
    pub is_supervised: bool,
    /// Set while one caller is driving this entry to a terminal state, so a
    /// second cancel awaits it instead of running cleanup a second time.
    pub is_terminalizing: bool,
}

impl Clone for Entry {
    fn clone(&self) -> (copy: Entry)
        ensures
            copy == *self,
    {
        Entry {
            allocation: self.allocation.clone(),
            is_supervised: self.is_supervised,
            is_terminalizing: self.is_terminalizing,
        }
    }
}

/// No two entries are of one allocation.
pub open spec fn is_keyed(entries: Seq<Entry>) -> bool {
    forall|i: int, j: int|
        0 <= i < j < entries.len() ==> (#[trigger] entries[i]).allocation.id@ != (
        #[trigger] entries[j]).allocation.id@
}

/// Is there an entry of this allocation at `i`?
pub open spec fn is_entry_of(entries: Seq<Entry>, id: Seq<char>, i: int) -> bool {
    0 <= i < entries.len() && entries[i].allocation.id@ == id
}

/// Is there an entry of this allocation?
pub open spec fn is_resident(entries: Seq<Entry>, id: Seq<char>) -> bool {
    exists|i: int| #[trigger] is_entry_of(entries, id, i)
}

/// The entry of this allocation, where there is one.
pub open spec fn place_of(entries: Seq<Entry>, id: Seq<char>) -> int {
    choose|i: int| #[trigger] is_entry_of(entries, id, i)
}

/// The place of the entry of this allocation.
pub fn find_entry(entries: &Vec<Entry>, id: &AllocationId) -> (found: Option<usize>)
    requires
        is_keyed(entries@),
    ensures
        match found {
            Some(index) => is_resident(entries@, id@) && index == place_of(entries@, id@)
                && is_entry_of(entries@, id@, index as int),
            None => !is_resident(entries@, id@),
        },
{
    let mut i: usize = 0;
    while i < entries.len()
        invariant
            is_keyed(entries@),
            i <= entries@.len(),
            forall|k: int| 0 <= k < i ==> (#[trigger] entries@[k]).allocation.id@ != id@,
        decreases entries@.len() - i,
    {
        if entries[i].allocation.id == *id {
            proof {
                assert(is_entry_of(entries@, id@, i as int));
                let place: int = place_of(entries@, id@);
                assert(is_entry_of(entries@, id@, place));
                if place < i as int {
                    assert(entries@[place].allocation.id@ != id@);
                }
                if (i as int) < place {
                    assert(entries@[i as int].allocation.id@ != entries@[place].allocation.id@);
                }
            }
            return Some(i);
        }
        i = i + 1;
    }
    None
}

/// One change a driver makes to an allocation's record.
#[derive(Debug)]
pub enum Change {
    Transition(AllocationState),
    /// The opaque runner ID used for cleanup.
    RunnerId(i64),
    /// The backend created this allocation's guest.
    VmCreated,
    Source(CloneSource),
    CloneSource { source: CloneSource, warm_generation: Option<u64> },
    Retention(RetentionOutcome),
    Error(String),
}

/// The record with one change made, or why the change is refused.
pub open spec fn changed(
    allocation: Allocation,
    change: Change,
    edges: LifecycleEdges,
    now: u64,
) -> Result<Allocation, ManagerError> {
    let stamped = Allocation { updated_at_unix: now, ..allocation };
    match change {
        Change::Transition(state) => if edges.permits(allocation.state, state) {
            Ok(Allocation { state, ..stamped })
        } else {
            Err(
                ManagerError::Transition(edges.refused(allocation.state, state)),
            )
        },
        Change::RunnerId(runner_id) => if runner_id <= 0 {
            Err(ManagerError::InvalidRunnerId)
        } else {
            Ok(Allocation { runner_id: Some(runner_id), ..stamped })
        },
        Change::VmCreated => Ok(Allocation { vm_created: true, ..stamped }),
        Change::Source(source) => Ok(Allocation { source: Some(source), ..stamped }),
        Change::CloneSource { source, warm_generation } => Ok(
            Allocation { source: Some(source), warm_generation, ..stamped },
        ),
        Change::Retention(outcome) => Ok(Allocation { retention: Some(outcome), ..stamped }),
        Change::Error(message) => Ok(Allocation { error: Some(message), ..stamped }),
    }
}

/// Makes one change to a record.
pub fn apply_change(allocation: Allocation, change: Change, edges: &LifecycleEdges, now: u64) -> (result: Result<
    Allocation,
    ManagerError,
>)
    ensures
        result == changed(allocation, change, *edges, now),
{
    let mut record: Allocation = allocation;
    match change {
        Change::Transition(state) => {
            if !edges.is_permitted(record.state, state) {
                return Err(ManagerError::Transition(edges.refusal(record.state, state)));
            }
            record.state = state;
        },
        Change::RunnerId(runner_id) => {
            if runner_id <= 0 {
                return Err(ManagerError::InvalidRunnerId);
            }
            record.runner_id = Some(runner_id);
        },
        Change::VmCreated => {
            record.vm_created = true;
        },
        Change::Source(source) => {
            record.source = Some(source);
        },
        Change::CloneSource { source, warm_generation } => {
            record.source = Some(source);
            record.warm_generation = warm_generation;
        },
        Change::Retention(outcome) => {
            record.retention = Some(outcome);
        },
        Change::Error(message) => {
            record.error = Some(message);
        },
    }
    record.updated_at_unix = now;
    Ok(record)
}

/// What one permitted change comes to.
#[derive(Debug, PartialEq, Eq)]
pub struct Updated {
    /// The record the change leaves.
    pub record: Allocation,
    /// What is told once that record is durable.
    pub fact: Option<Fact>,
}

/// What a change of this record comes to, or why it is refused.
pub open spec fn updated(
    allocation: Allocation,
    change: Change,
    edges: LifecycleEdges,
    now: u64,
) -> Result<Updated, ManagerError> {
    match changed(allocation, change, edges, now) {
        Ok(record) => Ok(Updated { record, fact: fact_of(allocation, change) }),
        Err(error) => Err(error),
    }
}

impl AllocationManager {
    /// The resident record of this allocation.
    pub fn get(&self, id: &AllocationId) -> (found: Result<Allocation, ManagerError>)
        requires
            is_keyed(self.entries@),
        ensures
            found == if is_resident(self.entries@, id@) {
                Ok::<Allocation, ManagerError>(
                    self.entries@[place_of(self.entries@, id@)].allocation,
                )
            } else {
                Err(ManagerError::NotFound(*id))
            },
    {
        match find_entry(&self.entries, id) {
            Some(index) => Ok(self.entries[index].allocation.clone()),
            None => Err(ManagerError::NotFound(id.clone())),
        }
    }

    /// The record one change would leave, which is what has to be durable
    /// before the entry shows it, and the fact a transition leaves. A runner ID
    /// is judged before the allocation is looked up.
    pub fn update(&self, id: &AllocationId, change: Change, edges: &LifecycleEdges, now: u64) -> (update: Result<
        Updated,
        ManagerError,
    >)
        requires
            is_keyed(self.entries@),
        ensures
            update == if change is RunnerId && change->RunnerId_0 <= 0 {
                Err::<Updated, ManagerError>(ManagerError::InvalidRunnerId)
            } else if is_resident(self.entries@, id@) {
                updated(
                    self.entries@[place_of(self.entries@, id@)].allocation,
                    change,
                    *edges,
                    now,
                )
            } else {
                Err(ManagerError::NotFound(*id))
            },
    {
        if let Change::RunnerId(runner_id) = &change {
            if *runner_id <= 0 {
                return Err(ManagerError::InvalidRunnerId);
            }
        }
        match self.get(id) {
            Ok(allocation) => {
                let fact: Option<Fact> = state_change(&allocation, &change);
                match apply_change(allocation, change, edges, now) {
                    Ok(record) => Ok(Updated { record, fact }),
                    Err(error) => Err(error),
                }
            },
            Err(error) => Err(error),
        }
    }

    /// Shows a record that is durable now. An entry that left meanwhile is not
    /// brought back.
    pub fn commit(&mut self, record: Allocation) -> (committed: Result<(), ManagerError>)
        requires
            is_keyed(old(self).entries@),
        ensures
            old(self).wf() ==> final(self).wf(),
            is_keyed(final(self).entries@),
            is_resident(old(self).entries@, record.id@) ==> {
                let place = place_of(old(self).entries@, record.id@);
                &&& committed is Ok
                &&& final(self).entries@ == old(self).entries@.update(
                    place,
                    Entry { allocation: record, ..old(self).entries@[place] },
                )
            },
            !is_resident(old(self).entries@, record.id@) ==> committed == Err::<(), ManagerError>(
                ManagerError::NotFound(record.id),
            ) && final(self).entries@ == old(self).entries@,
            *final(self) == (AllocationManager { entries: final(self).entries, ..*old(self) }),
    {
        match find_entry(&self.entries, &record.id) {
            Some(index) => {
                let is_supervised: bool = self.entries[index].is_supervised;
                let is_terminalizing: bool = self.entries[index].is_terminalizing;
                self.entries.set(
                    index,
                    Entry { allocation: record, is_supervised, is_terminalizing },
                );
                Ok(())
            },
            None => Err(ManagerError::NotFound(record.id)),
        }
    }

    /// The change that brings an allocation to cleaning; none where it is there
    /// already or over.
    pub fn ensure_cleaning(&self, id: &AllocationId) -> (change: Result<Option<Change>, ManagerError>)
        requires
            is_keyed(self.entries@),
        ensures
            change == if !is_resident(self.entries@, id@) {
                Err::<Option<Change>, ManagerError>(ManagerError::NotFound(*id))
            } else {
                let state = self.entries@[place_of(self.entries@, id@)].allocation.state;
                if state is Cleaning || state.terminal() {
                    Ok(None)
                } else {
                    Ok(Some(Change::Transition(AllocationState::Cleaning)))
                }
            },
    {
        match find_entry(&self.entries, id) {
            Some(index) => {
                let state: AllocationState = self.entries[index].allocation.state;
                if state == AllocationState::Cleaning || state.is_terminal() {
                    Ok(None)
                } else {
                    Ok(Some(Change::Transition(AllocationState::Cleaning)))
                }
            },
            None => Err(ManagerError::NotFound(id.clone())),
        }
    }
}

/// Every permitted transition leaves its fact: it is of this allocation, from
/// the state the record had to the state the record it leaves has. A change that
/// is none leaves no fact and no other state.
pub proof fn law_transition_leaves_its_fact(
    allocation: Allocation,
    change: Change,
    edges: LifecycleEdges,
    now: u64,
)
    requires
        updated(allocation, change, edges, now) is Ok,
    ensures
        ({
            let update = updated(allocation, change, edges, now)->Ok_0;
            &&& update.record.id == allocation.id
            &&& update.record.request == allocation.request
            &&& change is Transition ==> (update.fact matches Some(fact) && fact.kind
                == EventKind::AllocationStateChanged && fact.allocation_id == Some(
                update.record.id,
            ) && fact.payload == Payload::Transition {
                from: allocation.state,
                to: update.record.state,
            }) && change == Change::Transition(update.record.state)
            &&& !(change is Transition) ==> update.fact is None && update.record.state
                == allocation.state
        }),
{
}

/// What the finished entries are ranked by: the one that moved longest ago
/// first, then the one created first, then by ID.
pub open spec fn history_ranks(entries: Seq<Entry>) -> Seq<Rank>
    decreases entries.len(),
{
    if entries.len() == 0 {
        Seq::empty()
    } else {
        let rest = history_ranks(entries.drop_last());
        let allocation = entries.last().allocation;
        if allocation.state.terminal() {
            rest.push(
                Rank {
                    major: allocation.updated_at_unix,
                    minor: allocation.created_at_unix,
                    text: allocation.id,
                    index: (entries.len() - 1) as usize,
                },
            )
        } else {
            rest
        }
    }
}

/// How many entries are over the limit.
pub open spec fn excess(entries: Seq<Entry>, limit: int) -> int {
    if entries.len() > limit {
        entries.len() - limit
    } else {
        0
    }
}

/// The finished entries that go: the oldest, as many as are over the limit.
pub open spec fn departing(entries: Seq<Entry>, limit: int) -> Seq<Rank> {
    let ranked = in_order(history_ranks(entries));
    if excess(entries, limit) < ranked.len() {
        ranked.take(excess(entries, limit))
    } else {
        ranked
    }
}

/// Is this place among the ranked ones?
pub open spec fn is_place(ranks: Seq<Rank>, place: int) -> bool {
    exists|k: int| 0 <= k < ranks.len() && (#[trigger] ranks[k]).index == place
}

/// The entries at the places not listed, in the order they had.
pub open spec fn without(entries: Seq<Entry>, ranks: Seq<Rank>) -> Seq<Entry>
    decreases entries.len(),
{
    if entries.len() == 0 {
        Seq::empty()
    } else {
        let rest = without(entries.drop_last(), ranks);
        if is_place(ranks, entries.len() - 1) {
            rest
        } else {
            rest.push(entries.last())
        }
    }
}

/// What a history of this limit keeps.
pub open spec fn pruned(entries: Seq<Entry>, limit: int) -> Seq<Entry> {
    without(entries, departing(entries, limit))
}

proof fn lemma_history_ranks(entries: Seq<Entry>)
    requires
        entries.len() <= usize::MAX,
    ensures
        is_distinct(history_ranks(entries)),
        forall|k: int|
            0 <= k < history_ranks(entries).len() ==> {
                let rank = #[trigger] history_ranks(entries)[k];
                &&& rank.index < entries.len()
                &&& entries[rank.index as int].allocation.state.terminal()
                &&& rank.major == entries[rank.index as int].allocation.updated_at_unix
                &&& rank.minor == entries[rank.index as int].allocation.created_at_unix
                &&& rank.text == entries[rank.index as int].allocation.id
            },
        history_ranks(entries).len() <= entries.len(),
    decreases entries.len(),
{
    if entries.len() > 0 {
        lemma_history_ranks(entries.drop_last());
        let rest = history_ranks(entries.drop_last());
        assert forall|k: int| 0 <= k < rest.len() implies entries.drop_last()[(
        #[trigger] rest[k]).index as int] == entries[rest[k].index as int] by {}
    }
}

fn terminal_ranks(entries: &Vec<Entry>) -> (ranks: Vec<Rank>)
    ensures
        ranks@ == history_ranks(entries@),
{
    let mut ranks: Vec<Rank> = Vec::new();
    let mut i: usize = 0;
    while i < entries.len()
        invariant
            i <= entries@.len(),
            ranks@ == history_ranks(entries@.take(i as int)),
        decreases entries@.len() - i,
    {
        let allocation: &Allocation = &entries[i].allocation;
        proof {
            assert(entries@.take(i + 1).drop_last() =~= entries@.take(i as int));
            assert(entries@.take(i + 1).last() == entries@[i as int]);
        }
        if allocation.state.is_terminal() {
            ranks.push(
                Rank {
                    major: allocation.updated_at_unix,
                    minor: allocation.created_at_unix,
                    text: allocation.id.clone(),
                    index: i,
                },
            );
        }
        i = i + 1;
    }
    assert(entries@.take(entries@.len() as int) =~= entries@);
    ranks
}

/// Drops the oldest finished entries while the history is over its limit. Work
/// that is not finished stays, however much of it there is.
pub fn prune_terminal_history(entries: &mut Vec<Entry>, limit: usize)
    ensures
        final(entries)@ == pruned(old(entries)@, limit as int),
{
    let ghost before: Seq<Entry> = entries@;
    let count: usize = if entries.len() > limit {
        entries.len() - limit
    } else {
        0
    };
    let ranks: Vec<Rank> = terminal_ranks(entries);
    proof {
        lemma_history_ranks(before);
    }
    let ranked: Vec<Rank> = sorted(ranks);
    let gone: usize = if count < ranked.len() {
        count
    } else {
        ranked.len()
    };
    let ghost leaving: Seq<Rank> = departing(before, limit as int);
    proof {
        assert(leaving =~= ranked@.take(gone as int));
    }
    let mut kept: Vec<Entry> = Vec::new();
    let mut i: usize = 0;
    while i < entries.len()
        invariant
            entries@ == before,
            i <= before.len(),
            gone <= ranked@.len(),
            leaving == ranked@.take(gone as int),
            kept@ == without(before.take(i as int), leaving),
        decreases before.len() - i,
    {
        proof {
            assert(before.take(i + 1).drop_last() =~= before.take(i as int));
            assert(before.take(i + 1).last() == before[i as int]);
        }
        let mut is_leaving: bool = false;
        let mut k: usize = 0;
        while k < gone
            invariant
                k <= gone,
                gone <= ranked@.len(),
                leaving == ranked@.take(gone as int),
                is_leaving == exists|j: int|
                    0 <= j < k && (#[trigger] leaving[j]).index == i,
            decreases gone - k,
        {
            if ranked[k].index == i {
                assert(leaving[k as int].index == i);
                is_leaving = true;
            }
            k = k + 1;
        }
        if !is_leaving {
            kept.push(entries[i].clone());
        }
        i = i + 1;
    }
    assert(before.take(before.len() as int) =~= before);
    *entries = kept;
}

proof fn lemma_without_member(entries: Seq<Entry>, ranks: Seq<Rank>, i: int)
    requires
        0 <= i < entries.len(),
        !is_place(ranks, i),
    ensures
        without(entries, ranks).contains(entries[i]),
    decreases entries.len(),
{
    let rest = without(entries.drop_last(), ranks);
    let all = without(entries, ranks);
    if i == entries.len() - 1 {
        assert(all[rest.len() as int] == entries[i]);
    } else {
        lemma_without_member(entries.drop_last(), ranks, i);
        let k: int = choose|k: int| 0 <= k < rest.len() && rest[k] == entries[i];
        assert(all[k] == entries[i]);
    }
}

/// What stays of a list was in it.
pub proof fn lemma_without_from(entries: Seq<Entry>, ranks: Seq<Rank>, k: int) -> (i: int)
    requires
        0 <= k < without(entries, ranks).len(),
    ensures
        k <= i < entries.len(),
        !is_place(ranks, i),
        entries[i] == without(entries, ranks)[k],
    decreases entries.len(),
{
    let rest = without(entries.drop_last(), ranks);
    lemma_without_len(entries.drop_last(), ranks);
    if k < rest.len() {
        lemma_without_from(entries.drop_last(), ranks, k)
    } else {
        entries.len() - 1
    }
}

/// A list gets no longer by losing entries.
pub proof fn lemma_without_len(entries: Seq<Entry>, ranks: Seq<Rank>)
    ensures
        without(entries, ranks).len() <= entries.len(),
    decreases entries.len(),
{
    if entries.len() > 0 {
        lemma_without_len(entries.drop_last(), ranks);
    }
}

/// What stays of a list keeps its order.
pub proof fn lemma_without_ascends(entries: Seq<Entry>, ranks: Seq<Rank>, a: int, b: int) -> (places: (int, int))
    requires
        0 <= a < b < without(entries, ranks).len(),
    ensures
        0 <= places.0 < places.1 < entries.len(),
        entries[places.0] == without(entries, ranks)[a],
        entries[places.1] == without(entries, ranks)[b],
    decreases entries.len(),
{
    let rest = without(entries.drop_last(), ranks);
    if b < rest.len() {
        lemma_without_ascends(entries.drop_last(), ranks, a, b)
    } else {
        let i = lemma_without_from(entries.drop_last(), ranks, a);
        (i, entries.len() - 1)
    }
}

/// The places that ranks name below a bound.
spec fn places_below(ranks: Seq<Rank>, bound: int) -> Set<int> {
    Set::new(|i: int| 0 <= i < bound && is_place(ranks, i))
}

proof fn lemma_without_exact_len(entries: Seq<Entry>, ranks: Seq<Rank>)
    ensures
        places_below(ranks, entries.len() as int).finite(),
        without(entries, ranks).len() + places_below(ranks, entries.len() as int).len()
            == entries.len(),
    decreases entries.len(),
{
    let n: int = entries.len() as int;
    if n == 0 {
        assert(places_below(ranks, 0) =~= Set::<int>::empty());
    } else {
        lemma_without_exact_len(entries.drop_last(), ranks);
        if is_place(ranks, n - 1) {
            assert(places_below(ranks, n) =~= places_below(ranks, n - 1).insert(n - 1));
        } else {
            assert(places_below(ranks, n) =~= places_below(ranks, n - 1));
        }
    }
}

proof fn lemma_places_count(ranks: Seq<Rank>, bound: int)
    requires
        is_distinct(ranks),
        forall|k: int| 0 <= k < ranks.len() ==> (#[trigger] ranks[k]).index < bound,
    ensures
        places_below(ranks, bound).finite(),
        places_below(ranks, bound).len() == ranks.len(),
    decreases ranks.len(),
{
    if ranks.len() == 0 {
        assert(places_below(ranks, bound) =~= Set::<int>::empty());
    } else {
        let rest = ranks.drop_last();
        assert forall|k: int| 0 <= k < rest.len() implies (#[trigger] rest[k]).index < bound by {
            assert(rest[k] == ranks[k]);
        }
        lemma_places_count(rest, bound);
        let last: int = ranks.last().index as int;
        assert forall|i: int| is_place(ranks, i) <==> (is_place(rest, i) || i == last) by {
            if is_place(rest, i) {
                let k: int = choose|k: int| 0 <= k < rest.len() && (#[trigger] rest[k]).index == i;
                assert(ranks[k].index == i);
            }
            if i == last {
                assert(ranks[ranks.len() - 1].index == i);
            }
            if is_place(ranks, i) && i != last {
                let k: int = choose|k: int| 0 <= k < ranks.len() && (#[trigger] ranks[k]).index == i;
                assert(rest[k].index == i);
            }
        }
        assert(!is_place(rest, last)) by {
            if is_place(rest, last) {
                let k: int = choose|k: int|
                    0 <= k < rest.len() && (#[trigger] rest[k]).index == last;
                assert(ranks[k].index != ranks[ranks.len() - 1].index);
            }
        }
        assert(places_below(ranks, bound) =~= places_below(rest, bound).insert(last));
    }
}

proof fn lemma_departing(entries: Seq<Entry>, limit: int)
    requires
        entries.len() <= usize::MAX,
        0 <= limit,
    ensures
        is_distinct(departing(entries, limit)),
        is_ranked(in_order(history_ranks(entries))),
        is_reordering(in_order(history_ranks(entries)), history_ranks(entries)),
        forall|k: int|
            0 <= k < departing(entries, limit).len() ==> {
                let rank = #[trigger] departing(entries, limit)[k];
                &&& rank.index < entries.len()
                &&& entries[rank.index as int].allocation.state.terminal()
            },
{
    lemma_history_ranks(entries);
    crate::order::lemma_order_exists(history_ranks(entries));
    let ranked = in_order(history_ranks(entries));
    let leaving = departing(entries, limit);
    assert forall|k: int| 0 <= k < leaving.len() implies {
        let rank = #[trigger] leaving[k];
        &&& rank.index < entries.len()
        &&& entries[rank.index as int].allocation.state.terminal()
    } by {
        assert(leaving[k] == ranked[k]);
        assert(history_ranks(entries).contains(ranked[k]));
    }
    crate::order::lemma_reordering_distinct(ranked, history_ranks(entries));
}

/// Pruning never drops work that is not finished.
pub proof fn law_pruning_keeps_live_work(entries: Seq<Entry>, limit: int, i: int)
    requires
        entries.len() <= usize::MAX,
        0 <= limit,
        0 <= i < entries.len(),
        entries[i].allocation.live(),
    ensures
        pruned(entries, limit).contains(entries[i]),
{
    lemma_departing(entries, limit);
    lemma_without_member(entries, departing(entries, limit), i);
}

/// Pruning drops as many finished entries as are over the limit, or all of
/// them where there are not that many; so a history with enough finished
/// entries ends at its limit exactly.
pub proof fn law_pruning_bounds_the_history(entries: Seq<Entry>, limit: int)
    requires
        entries.len() <= usize::MAX,
        0 <= limit,
    ensures
        pruned(entries, limit).len() == entries.len() - departing(entries, limit).len(),
        history_ranks(entries).len() >= excess(entries, limit) && entries.len() >= limit
            ==> pruned(entries, limit).len() == limit,
        entries.len() <= limit ==> pruned(entries, limit) == entries,
{
    lemma_departing(entries, limit);
    lemma_without_exact_len(entries, departing(entries, limit));
    lemma_places_count(departing(entries, limit), entries.len() as int);
    if entries.len() <= limit {
        assert(departing(entries, limit).len() == 0);
        lemma_without_nothing(entries, departing(entries, limit));
    }
}

proof fn lemma_without_nothing(entries: Seq<Entry>, ranks: Seq<Rank>)
    requires
        ranks.len() == 0,
    ensures
        without(entries, ranks) == entries,
    decreases entries.len(),
{
    if entries.len() > 0 {
        lemma_without_nothing(entries.drop_last(), ranks);
        assert(without(entries, ranks) =~= entries);
    } else {
        assert(without(entries, ranks) =~= entries);
    }
}

/// Pruning drops the oldest: a finished entry that goes ranks before every
/// finished entry that stays.
pub proof fn law_pruning_drops_the_oldest(entries: Seq<Entry>, limit: int, gone: int, kept: int)
    requires
        entries.len() <= usize::MAX,
        0 <= limit,
        0 <= gone < entries.len(),
        0 <= kept < entries.len(),
        entries[gone].allocation.state.terminal(),
        entries[kept].allocation.state.terminal(),
        is_place(departing(entries, limit), gone),
        !is_place(departing(entries, limit), kept),
    ensures
        entries[gone].allocation.updated_at_unix <= entries[kept].allocation.updated_at_unix,
        entries[gone].allocation.updated_at_unix == entries[kept].allocation.updated_at_unix
            ==> entries[gone].allocation.created_at_unix
            <= entries[kept].allocation.created_at_unix,
{
    lemma_departing(entries, limit);
    lemma_history_ranks(entries);
    lemma_history_lists(entries, kept);
    let ranks = history_ranks(entries);
    let ranked = in_order(ranks);
    let leaving = departing(entries, limit);
    let g: int = choose|g: int| 0 <= g < leaving.len() && (#[trigger] leaving[g]).index == gone;
    let r: int = choose|r: int| 0 <= r < ranks.len() && (#[trigger] ranks[r]).index == kept;
    assert(ranked.contains(ranks[r]));
    let k: int = choose|k: int| 0 <= k < ranked.len() && ranked[k] == ranks[r];
    if k < leaving.len() {
        assert(leaving[k].index == kept);
    }
    assert(leaving[g] == ranked[g]);
    assert(ranks.contains(ranked[g]));
    assert(rank_before(ranked[g], ranked[k]));
}

proof fn lemma_history_lists(entries: Seq<Entry>, i: int)
    requires
        entries.len() <= usize::MAX,
        0 <= i < entries.len(),
        entries[i].allocation.state.terminal(),
    ensures
        is_place(history_ranks(entries), i),
    decreases entries.len(),
{
    let rest = history_ranks(entries.drop_last());
    let all = history_ranks(entries);
    if i == entries.len() - 1 {
        assert(all[rest.len() as int].index == i);
    } else {
        lemma_history_lists(entries.drop_last(), i);
        let k: int = choose|k: int| 0 <= k < rest.len() && (#[trigger] rest[k]).index == i;
        assert(all[k].index == i);
    }
}

/// Pruning keeps the entries keyed: what it leaves is a sublist.
pub proof fn law_pruning_keeps_keys(entries: Seq<Entry>, limit: int)
    requires
        is_keyed(entries),
    ensures
        is_keyed(pruned(entries, limit)),
{
    let kept = pruned(entries, limit);
    assert forall|a: int, b: int| 0 <= a < b < kept.len() implies (
    #[trigger] kept[a]).allocation.id@ != (#[trigger] kept[b]).allocation.id@ by {
        let places = lemma_without_ascends(entries, departing(entries, limit), a, b);
    }
}

/// A change touches what it names and the time of the record, and nothing else. A
/// transition needs its edge, a runner ID has to be positive, and every other
/// change is always made.
pub proof fn law_change_touches_what_it_names(
    allocation: Allocation,
    change: Change,
    edges: LifecycleEdges,
    now: u64,
)
    ensures
        ({
            let result = changed(allocation, change, edges, now);
            let has_edge = |to: AllocationState|
                exists|i: int|
                    0 <= i < edges.edges@.len() && #[trigger] edges.edges@[i] == (
                        allocation.state,
                        to,
                    );
            &&& result is Ok <==> match change {
                Change::Transition(to) => has_edge(to),
                Change::RunnerId(id) => id > 0,
                _ => true,
            }
            &&& result matches Ok(record) ==> {
                &&& record.updated_at_unix == now
                &&& record.id == allocation.id
                &&& record.request == allocation.request
                &&& record.vm_name == allocation.vm_name
                &&& record.runner_label == allocation.runner_label
                &&& record.mode == allocation.mode
                &&& record.size == allocation.size
                &&& record.origin == allocation.origin
                &&& record.hot_lane == allocation.hot_lane
                &&& record.hot_refusal == allocation.hot_refusal
                &&& record.created_at_unix == allocation.created_at_unix
                &&& match change {
                    Change::Transition(to) => record.state == to,
                    _ => record.state == allocation.state,
                }
                &&& match change {
                    Change::RunnerId(id) => record.runner_id == Some(id),
                    _ => record.runner_id == allocation.runner_id,
                }
                &&& record.vm_created == (allocation.vm_created || change is VmCreated)
                &&& match change {
                    Change::Error(message) => record.error == Some(message),
                    _ => record.error == allocation.error,
                }
                &&& match change {
                    Change::Retention(outcome) => record.retention == Some(outcome),
                    _ => record.retention == allocation.retention,
                }
                &&& match change {
                    Change::Source(source) => record.source == Some(source)
                        && record.warm_generation == allocation.warm_generation,
                    Change::CloneSource { source, warm_generation } => record.source == Some(source)
                        && record.warm_generation == warm_generation,
                    _ => record.source == allocation.source && record.warm_generation
                        == allocation.warm_generation,
                }
            }
        }),
{
}

/// A history over its limit holds nothing but unfinished work: as long as anything
/// in it completed, failed or was cancelled, that makes room.
pub proof fn law_history_is_over_its_limit_only_with_live_work(
    entries: Seq<Entry>,
    limit: int,
    k: int,
)
    requires
        entries.len() <= usize::MAX,
        0 <= limit,
        pruned(entries, limit).len() > limit,
        0 <= k < pruned(entries, limit).len(),
    ensures
        !(pruned(entries, limit)[k].allocation.state is Completed || pruned(
            entries,
            limit,
        )[k].allocation.state is Failed || pruned(entries, limit)[k].allocation.state
            is Cancelled),
{
    law_pruning_bounds_the_history(entries, limit);
    lemma_departing(entries, limit);
    let leaving = departing(entries, limit);
    let ranked = in_order(history_ranks(entries));
    let i = lemma_without_from(entries, leaving, k);
    if entries[i].allocation.state.terminal() {
        lemma_history_lists(entries, i);
        let ranks = history_ranks(entries);
        let r: int = choose|r: int| 0 <= r < ranks.len() && (#[trigger] ranks[r]).index == i;
        assert(ranked.contains(ranks[r]));
        let m: int = choose|m: int| 0 <= m < ranked.len() && ranked[m] == ranks[r];
        assert(leaving == ranked);
        assert(leaving[m].index == i);
        assert(is_place(leaving, i));
    }
}

/// An entry is found by its own ID, and where no entry has the ID none is found.
pub proof fn law_entry_is_found_by_its_id(entries: Seq<Entry>, id: Seq<char>, i: int)
    requires
        is_keyed(entries),
    ensures
        0 <= i < entries.len() && entries[i].allocation.id@ == id ==> is_resident(entries, id)
            && place_of(entries, id) == i,
        is_resident(entries, id) ==> exists|k: int|
            0 <= k < entries.len() && (#[trigger] entries[k]).allocation.id@ == id,
{
    if 0 <= i < entries.len() && entries[i].allocation.id@ == id {
        assert(is_entry_of(entries, id, i));
        let k = place_of(entries, id);
        assert(is_entry_of(entries, id, k));
        assert(entries[k].allocation.id@ == entries[i].allocation.id@);
    }
    if is_resident(entries, id) {
        let k: int = choose|k: int| is_entry_of(entries, id, k);
        assert(entries[k].allocation.id@ == id);
    }
}

} // verus!
