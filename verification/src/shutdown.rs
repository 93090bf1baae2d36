use vstd::prelude::*;

use crate::domain::allocation::{Allocation, AllocationId, AllocationState, VmName};
use crate::event::{EventKind, Fact, Payload};
use crate::service::AllocationManager;
use crate::state::{find_entry, is_entry_of, is_keyed, is_resident, place_of, Entry};
use crate::text::joined;
use crate::worker::budget::CleanupBudget;

verus! {

/// Fraction of the grace held back from teardown, so the terminal record and
/// the report still land inside it.
pub const BOOKKEEPING_RESERVE: u128 = 8;

/// What the runtime puts before an allocation's ID to name its runner.
pub const RUNNER_PREFIX: &'static str = "flanforged-";

/// Why a shutdown could not finish tearing one allocation down.
#[derive(Clone, Copy, Debug, PartialEq, Eq, Structural)]
pub enum LeakReason {
    /// Teardown ran but did not complete inside the grace.
    CleanupFailed,
    /// The allocation never reached a terminal state before the grace expired.
    NotTerminal,
}

impl LeakReason {
    pub fn as_str(self) -> (text: &'static str)
        ensures
            text@ == match self {
                LeakReason::CleanupFailed => "cleanup did not complete within the shutdown grace"@,
                LeakReason::NotTerminal =>
                    "allocation did not reach a terminal state within the shutdown grace"@,
            },
    {
        match self {
            LeakReason::CleanupFailed => "cleanup did not complete within the shutdown grace",
            LeakReason::NotTerminal => {
                "allocation did not reach a terminal state within the shutdown grace"
            },
        }
    }
}

/// One allocation a shutdown left behind, carrying what an operator needs to
/// find the guest and the runner registration by hand.
#[derive(Debug, PartialEq, Eq)]
pub struct AllocationLeak {
    pub id: AllocationId,
    /// The state the allocation was left in.
    pub state: AllocationState,
    pub repository: String,
    pub vm_name: VmName,
    /// Only a created guest can still exist on the host.
    pub is_vm_created: bool,
    /// Present once the runtime registered the ephemeral runner.
    pub runner_id: Option<i64>,
    pub reason: LeakReason,
}

impl AllocationLeak {
    pub open spec fn of(allocation: Allocation, reason: LeakReason) -> AllocationLeak {
        AllocationLeak {
            id: allocation.id,
            state: allocation.state,
            repository: allocation.request.repository,
            vm_name: allocation.vm_name,
            is_vm_created: allocation.vm_created,
            runner_id: allocation.runner_id,
            reason,
        }
    }

    pub fn new(allocation: &Allocation, reason: LeakReason) -> (leak: AllocationLeak)
        ensures
            leak == AllocationLeak::of(*allocation, reason),
    {
        AllocationLeak {
            id: allocation.id.clone(),
            state: allocation.state,
            repository: allocation.request.repository.clone(),
            vm_name: allocation.vm_name.clone(),
            is_vm_created: allocation.vm_created,
            runner_id: allocation.runner_id,
            reason,
        }
    }

    /// That this allocation was left behind.
    pub open spec fn fact_left(&self) -> Fact {
        Fact {
            kind: EventKind::AllocationLeaked,
            allocation_id: Some(self.id),
            vm_name: Some(self.vm_name),
            profile: None,
            payload: Payload::Leak {
                state: self.state,
                is_vm_created: self.is_vm_created,
                runner_id: self.runner_id,
            },
        }
    }

    pub fn fact(&self) -> (fact: Fact)
        ensures
            fact == self.fact_left(),
    {
        Fact {
            kind: EventKind::AllocationLeaked,
            allocation_id: Some(self.id.clone()),
            vm_name: Some(self.vm_name.clone()),
            profile: None,
            payload: Payload::Leak {
                state: self.state,
                is_vm_created: self.is_vm_created,
                runner_id: self.runner_id,
            },
        }
    }

    /// The ephemeral runner name the runtime registers, once it registered one.
    pub fn runner_name(&self) -> (name: Option<String>)
        ensures
            name is Some <==> self.runner_id is Some,
            name matches Some(text) ==> text@ == RUNNER_PREFIX@ + self.id@,
    {
        if self.runner_id.is_some() {
            Some(joined(RUNNER_PREFIX, self.id.as_str()))
        } else {
            None
        }
    }
}

/// What one shutdown could not finish, and how much of the grace it spent
/// trying. Durations are in nanoseconds.
#[derive(Debug, PartialEq, Eq)]
pub struct ShutdownReport {
    pub leaked: Vec<AllocationLeak>,
    pub grace: u128,
    pub spent: u128,
}

impl ShutdownReport {
    pub fn new(leaked: Vec<AllocationLeak>, grace: u128, started: u128, now: u128) -> (report:
        ShutdownReport)
        ensures
            report.leaked == leaked,
            report.grace == grace,
            report.spent == if now >= started {
                now - started
            } else {
                0
            },
    {
        ShutdownReport { leaked, grace, spent: now.saturating_sub(started) }
    }

    /// Did every cancelled allocation tear down inside the grace?
    pub fn is_clean(&self) -> (is: bool)
        ensures
            is == (self.leaked@.len() == 0),
    {
        self.leaked.len() == 0
    }

    /// The facts a shutdown leaves: one for each allocation it left behind.
    pub open spec fn leaves(&self) -> Seq<Fact> {
        Seq::new(self.leaked@.len(), |i: int| self.leaked@[i].fact_left())
    }

    /// The facts a shutdown leaves.
    pub fn facts(&self) -> (facts: Vec<Fact>)
        ensures
            facts@ == self.leaves(),
    {
        let mut facts: Vec<Fact> = Vec::new();
        let mut i: usize = 0;
        while i < self.leaked.len()
            invariant
                i <= self.leaked@.len(),
                facts@ == self.leaves().take(i as int),
            decreases self.leaked@.len() - i,
        {
            facts.push(self.leaked[i].fact());
            assert(self.leaves().take(i + 1) =~= self.leaves().take(i as int).push(
                self.leaves()[i as int],
            ));
            i = i + 1;
        }
        assert(self.leaves().take(self.leaves().len() as int) =~= self.leaves());
        facts
    }

    pub fn leaked(&self) -> (leaked: &Vec<AllocationLeak>)
        ensures
            *leaked == self.leaked,
    {
        &self.leaked
    }

    pub fn grace(&self) -> (grace: u128)
        ensures
            grace == self.grace,
    {
        self.grace
    }

    /// How much of the grace the shutdown actually spent, so it is obvious
    /// whether a larger `shutdown_grace_seconds` would have helped.
    pub fn spent(&self) -> (spent: u128)
        ensures
            spent == self.spent,
    {
        self.spent
    }
}

/// Is this an entry a shutdown waits for? Somebody has to be driving it.
pub open spec fn is_awaited(entry: Entry) -> bool {
    entry.allocation.live() && (entry.is_supervised || entry.is_terminalizing)
}

/// The allocations a shutdown cancels and waits for, in entry order.
pub open spec fn awaited_ids(entries: Seq<Entry>) -> Seq<AllocationId>
    decreases entries.len(),
{
    if entries.len() == 0 {
        Seq::empty()
    } else {
        let rest = awaited_ids(entries.drop_last());
        if is_awaited(entries.last()) {
            rest.push(entries.last().allocation.id)
        } else {
            rest
        }
    }
}

/// When teardown has to be over: the grace less a bookkeeping reserve.
pub open spec fn deadline_of(started: u128, grace: u128) -> int {
    started + grace - grace / BOOKKEEPING_RESERVE
}

/// Is a leak of this allocation listed?
pub open spec fn is_leaked(leaked: Seq<AllocationLeak>, id: Seq<char>) -> bool {
    exists|i: int| 0 <= i < leaked.len() && (#[trigger] leaked[i]).id@ == id
}

fn is_leak_listed(leaked: &Vec<AllocationLeak>, id: &AllocationId) -> (is: bool)
    ensures
        is == is_leaked(leaked@, id@),
{
    let mut i: usize = 0;
    while i < leaked.len()
        invariant
            i <= leaked@.len(),
            forall|k: int| 0 <= k < i ==> (#[trigger] leaked@[k]).id@ != id@,
        decreases leaked@.len() - i,
    {
        if leaked[i].id == *id {
            assert(leaked@[i as int].id@ == id@);
            return true;
        }
        i = i + 1;
    }
    false
}

/// The leaks of a shutdown: those teardown reported, and every awaited
/// allocation that is still going and not reported yet.
pub open spec fn collected(
    leaked: Seq<AllocationLeak>,
    awaited: Seq<AllocationId>,
    entries: Seq<Entry>,
) -> Seq<AllocationLeak>
    decreases awaited.len(),
{
    if awaited.len() == 0 {
        leaked
    } else {
        let rest = collected(leaked, awaited.drop_last(), entries);
        let id = awaited.last()@;
        if !is_leaked(rest, id) && is_resident(entries, id) && entries[place_of(
            entries,
            id,
        )].allocation.live() {
            rest.push(
                AllocationLeak::of(
                    entries[place_of(entries, id)].allocation,
                    LeakReason::NotTerminal,
                ),
            )
        } else {
            rest
        }
    }
}

impl AllocationManager {
    /// Closes the manager to new work, starts the clock every teardown runs
    /// against, and names the allocations to cancel and wait for. A second
    /// shutdown leaves the first one's clock.
    pub fn begin_shutdown(&mut self, started: u128, grace: u128) -> (awaited: Vec<AllocationId>)
        requires
            started + grace <= u128::MAX,
        ensures
            old(self).wf() ==> final(self).wf(),
            awaited@ == awaited_ids(old(self).entries@),
            *final(self) == (AllocationManager {
                is_closing: true,
                teardown_deadline: if old(self).teardown_deadline is Some {
                    old(self).teardown_deadline
                } else {
                    Some(deadline_of(started, grace) as u128)
                },
                ..*old(self)
            }),
    {
        self.is_closing = true;
        if self.teardown_deadline.is_none() {
            self.teardown_deadline = Some(started + grace - grace / BOOKKEEPING_RESERVE);
        }
        let ghost entries: Seq<Entry> = self.entries@;
        let mut awaited: Vec<AllocationId> = Vec::new();
        let mut i: usize = 0;
        while i < self.entries.len()
            invariant
                entries == self.entries@,
                i <= entries.len(),
                awaited@ == awaited_ids(entries.take(i as int)),
            decreases entries.len() - i,
        {
            let entry: &Entry = &self.entries[i];
            proof {
                assert(entries.take(i + 1).drop_last() =~= entries.take(i as int));
                assert(entries.take(i + 1).last() == *entry);
            }
            if !entry.allocation.state.is_terminal() && (entry.is_supervised
                || entry.is_terminalizing) {
                awaited.push(entry.allocation.id.clone());
            }
            i = i + 1;
        }
        assert(entries.take(entries.len() as int) =~= entries);
        awaited
    }

    /// What is left over: teardown that failed inside the grace, plus anything
    /// still non-terminal once it expired. The manager's own list is handed
    /// out and starts empty again.
    pub fn collect_leaks(&mut self, awaited: &Vec<AllocationId>) -> (leaked: Vec<AllocationLeak>)
        requires
            is_keyed(old(self).entries@),
        ensures
            old(self).wf() ==> final(self).wf(),
            old(self).wf() ==> is_leak_keyed(leaked@),
            leaked@ == collected(old(self).leaked@, awaited@, old(self).entries@),
            final(self).leaked@ == Seq::<AllocationLeak>::empty(),
            *final(self) == (AllocationManager { leaked: final(self).leaked, ..*old(self) }),
    {
        let mut leaked: Vec<AllocationLeak> = Vec::new();
        std::mem::swap(&mut leaked, &mut self.leaked);
        let ghost reported: Seq<AllocationLeak> = leaked@;
        let mut i: usize = 0;
        while i < awaited.len()
            invariant
                is_keyed(self.entries@),
                i <= awaited@.len(),
                leaked@ == collected(reported, awaited@.take(i as int), self.entries@),
            decreases awaited@.len() - i,
        {
            let id: &AllocationId = &awaited[i];
            proof {
                assert(awaited@.take(i + 1).drop_last() =~= awaited@.take(i as int));
                assert(awaited@.take(i + 1).last() == *id);
            }
            if !is_leak_listed(&leaked, id) {
                if let Some(index) = find_entry(&self.entries, id) {
                    let allocation: &Allocation = &self.entries[index].allocation;
                    if !allocation.state.is_terminal() {
                        leaked.push(AllocationLeak::new(allocation, LeakReason::NotTerminal));
                    }
                }
            }
            i = i + 1;
        }
        assert(awaited@.take(awaited@.len() as int) =~= awaited@);
        proof {
            if is_leak_keyed(reported) {
                law_leaks_are_reported_once(reported, awaited@, self.entries@);
            }
        }
        leaked
    }

    /// Records teardown a shutdown could not complete, once per allocation. An
    /// ordinary teardown failure is recovery's business, not a leak the
    /// operator is told about while the daemon is still running.
    pub fn record_leak(&mut self, allocation: &Allocation, reason: LeakReason)
        ensures
            old(self).wf() ==> final(self).wf(),
            final(self).leaked@ == if is_leaked(old(self).leaked@, allocation.id@) {
                old(self).leaked@
            } else {
                old(self).leaked@.push(AllocationLeak::of(*allocation, reason))
            },
            *final(self) == (AllocationManager { leaked: final(self).leaked, ..*old(self) }),
    {
        if is_leak_listed(&self.leaked, &allocation.id) {
            return;
        }
        self.leaked.push(AllocationLeak::new(allocation, reason));
    }

    /// The budget of an allowance under the running shutdown, if there is one.
    pub open spec fn budget_of(&self, allowance: u128) -> CleanupBudget {
        CleanupBudget { allowance, deadline: self.teardown_deadline }
    }

    /// Puts one configured allowance under the running shutdown's deadline, if
    /// there is one. Every teardown budget in the daemon is minted here, so a
    /// stop caps a reaper deletion exactly as it caps an allocation's cleanup.
    pub fn teardown_budget(&self, allowance: u128) -> (budget: CleanupBudget)
        ensures
            budget == self.budget_of(allowance),
    {
        let budget: CleanupBudget = CleanupBudget::allow(allowance);
        match self.teardown_deadline {
            Some(deadline) => budget.until(deadline),
            None => budget,
        }
    }
}

/// No allocation leaks twice.
pub open spec fn is_leak_keyed(leaked: Seq<AllocationLeak>) -> bool {
    forall|i: int, j: int|
        0 <= i < j < leaked.len() ==> (#[trigger] leaked[i]).id@ != (#[trigger] leaked[j]).id@
}

/// A shutdown reports each allocation at most once, whether teardown reported
/// it, the wait did, or both.
pub proof fn law_leaks_are_reported_once(
    leaked: Seq<AllocationLeak>,
    awaited: Seq<AllocationId>,
    entries: Seq<Entry>,
)
    requires
        is_leak_keyed(leaked),
    ensures
        is_leak_keyed(collected(leaked, awaited, entries)),
    decreases awaited.len(),
{
    if awaited.len() > 0 {
        law_leaks_are_reported_once(leaked, awaited.drop_last(), entries);
        let rest = collected(leaked, awaited.drop_last(), entries);
        let id = awaited.last()@;
        let all = collected(leaked, awaited, entries);
        assert forall|i: int, j: int| 0 <= i < j < all.len() implies (#[trigger] all[i]).id@ != (
        #[trigger] all[j]).id@ by {
            if j == rest.len() {
                let place = place_of(entries, id);
                assert(is_entry_of(entries, id, place));
                assert(all[j].id@ == id);
                assert(rest[i].id@ != id);
            }
        }
    }
}

/// An awaited allocation that is still going when the grace is over is
/// reported, and one that ended is not unless its teardown said so.
pub proof fn law_unfinished_work_is_reported(
    leaked: Seq<AllocationLeak>,
    awaited: Seq<AllocationId>,
    entries: Seq<Entry>,
    k: int,
)
    requires
        0 <= k < awaited.len(),
        is_resident(entries, awaited[k]@),
    ensures
        entries[place_of(entries, awaited[k]@)].allocation.live() ==> is_leaked(
            collected(leaked, awaited, entries),
            awaited[k]@,
        ),
        !entries[place_of(entries, awaited[k]@)].allocation.live() && !is_leaked(leaked, awaited[k]@)
            ==> !is_leaked(collected(leaked, awaited, entries), awaited[k]@),
    decreases awaited.len(),
{
    let rest = collected(leaked, awaited.drop_last(), entries);
    let all = collected(leaked, awaited, entries);
    let id = awaited[k]@;
    let last = awaited.last()@;
    let place = place_of(entries, id);
    assert(is_entry_of(entries, id, place));
    if is_resident(entries, last) {
        assert(is_entry_of(entries, last, place_of(entries, last)));
    }
    if k < awaited.len() - 1 {
        law_unfinished_work_is_reported(leaked, awaited.drop_last(), entries, k);
        if is_leaked(rest, id) {
            let i: int = choose|i: int| 0 <= i < rest.len() && (#[trigger] rest[i]).id@ == id;
            assert(all[i] == rest[i]);
        }
        if is_leaked(all, id) && !is_leaked(rest, id) {
            let i: int = choose|i: int| 0 <= i < all.len() && (#[trigger] all[i]).id@ == id;
            if i < rest.len() {
                assert(rest[i].id@ == id);
            }
            assert(all[i].id@ == last);
        }
    } else {
        if entries[place].allocation.live() {
            if is_leaked(rest, id) {
                let i: int = choose|i: int| 0 <= i < rest.len() && (#[trigger] rest[i]).id@ == id;
                assert(all[i] == rest[i]);
            } else {
                assert(all[rest.len() as int].id@ == id);
            }
        } else if !is_leaked(leaked, id) {
            lemma_terminal_not_collected(leaked, awaited, entries, id);
        }
    }
}

proof fn lemma_terminal_not_collected(
    leaked: Seq<AllocationLeak>,
    awaited: Seq<AllocationId>,
    entries: Seq<Entry>,
    id: Seq<char>,
)
    requires
        is_resident(entries, id),
        !entries[place_of(entries, id)].allocation.live(),
        !is_leaked(leaked, id),
    ensures
        !is_leaked(collected(leaked, awaited, entries), id),
    decreases awaited.len(),
{
    if awaited.len() > 0 {
        lemma_terminal_not_collected(leaked, awaited.drop_last(), entries, id);
        let rest = collected(leaked, awaited.drop_last(), entries);
        let all = collected(leaked, awaited, entries);
        let last = awaited.last()@;
        if is_resident(entries, last) {
            assert(is_entry_of(entries, last, place_of(entries, last)));
        }
        if is_leaked(all, id) {
            let i: int = choose|i: int| 0 <= i < all.len() && (#[trigger] all[i]).id@ == id;
            if i < rest.len() {
                assert(rest[i].id@ == id);
            }
        }
    }
}

/// Teardown gets seven eighths of the grace or more, and is over before the
/// grace is.
pub proof fn law_deadline_leaves_a_reserve(started: u128, grace: u128)
    ensures
        started <= deadline_of(started, grace) <= started + grace,
        8 * (deadline_of(started, grace) - started) >= 7 * grace,
        grace >= 8 ==> deadline_of(started, grace) < started + grace,
{
}

/// A shutdown waits for exactly the unfinished work somebody drives, in its order:
/// a worker, or a cancel that was told to.
pub proof fn law_shutdown_waits_for_driven_work(
    before: Seq<Entry>,
    entry: Entry,
    after: Seq<Entry>,
)
    ensures
        awaited_ids(Seq::<Entry>::empty()).len() == 0,
        awaited_ids(before + seq![entry] + after) == awaited_ids(before) + (if (
        entry.is_supervised || entry.is_terminalizing) && !(entry.allocation.state is Completed
            || entry.allocation.state is Failed || entry.allocation.state is Cancelled) {
            seq![entry.allocation.id]
        } else {
            Seq::<AllocationId>::empty()
        }) + awaited_ids(after),
    decreases after.len(),
{
    let all = before + seq![entry] + after;
    let one = if is_awaited(entry) {
        seq![entry.allocation.id]
    } else {
        Seq::<AllocationId>::empty()
    };
    if after.len() == 0 {
        assert(all.drop_last() =~= before);
        assert(awaited_ids(all) =~= awaited_ids(before) + one + awaited_ids(after));
    } else {
        law_shutdown_waits_for_driven_work(before, entry, after.drop_last());
        assert(all.drop_last() =~= before + seq![entry] + after.drop_last());
        assert(awaited_ids(all) =~= awaited_ids(before) + one + awaited_ids(after));
    }
}

/// An eighth of the grace, rounded down, is kept for the bookkeeping.
pub proof fn law_reserve_is_an_eighth(started: u128, grace: u128)
    ensures
        ({
            let reserve = started + grace - deadline_of(started, grace);
            8 * reserve <= grace < 8 * reserve + 8
        }),
{
}

/// What is reported of a leak is what an operator needs to find it, taken from the
/// allocation as it was left.
pub proof fn law_leak_says_where_to_look(allocation: Allocation, reason: LeakReason)
    ensures
        ({
            let leak = AllocationLeak::of(allocation, reason);
            &&& leak.id == allocation.id
            &&& leak.state == allocation.state
            &&& leak.repository == allocation.request.repository
            &&& leak.vm_name == allocation.vm_name
            &&& leak.is_vm_created == allocation.vm_created
            &&& leak.runner_id == allocation.runner_id
            &&& leak.reason == reason
            &&& leak.fact_left().allocation_id == Some(allocation.id)
            &&& leak.fact_left().vm_name == Some(allocation.vm_name)
            &&& leak.fact_left().kind == EventKind::AllocationLeaked
            &&& leak.fact_left().payload == (Payload::Leak {
                state: allocation.state,
                is_vm_created: allocation.vm_created,
                runner_id: allocation.runner_id,
            })
        }),
{
}

/// What teardown reported stands first and unchanged in the report, and what is
/// added is unfinished work that was waited for, as never having ended.
pub proof fn law_report_adds_only_unfinished_work(
    leaked: Seq<AllocationLeak>,
    awaited: Seq<AllocationId>,
    entries: Seq<Entry>,
    k: int,
)
    requires
        0 <= k < collected(leaked, awaited, entries).len(),
    ensures
        collected(leaked, awaited, entries).len() >= leaked.len(),
        k < leaked.len() ==> collected(leaked, awaited, entries)[k] == leaked[k],
        k >= leaked.len() ==> {
            let leak = collected(leaked, awaited, entries)[k];
            &&& leak.reason == LeakReason::NotTerminal
            &&& !(leak.state is Completed || leak.state is Failed || leak.state is Cancelled)
            &&& exists|j: int| 0 <= j < awaited.len() && (#[trigger] awaited[j])@ == leak.id@
        },
    decreases awaited.len(),
{
    if awaited.len() > 0 {
        let rest = collected(leaked, awaited.drop_last(), entries);
        let id = awaited.last()@;
        assert(awaited[awaited.len() - 1] == awaited.last());
        if k < rest.len() {
            law_report_adds_only_unfinished_work(leaked, awaited.drop_last(), entries, k);
            if k >= leaked.len() {
                let j: int = choose|j: int|
                    0 <= j < awaited.drop_last().len() && (#[trigger] awaited.drop_last()[j])@
                        == rest[k].id@;
                assert(awaited[j]@ == rest[k].id@);
            }
        } else {
            let place = place_of(entries, id);
            assert(crate::state::is_entry_of(entries, id, place));
            if rest.len() > 0 {
                law_report_adds_only_unfinished_work(leaked, awaited.drop_last(), entries, 0);
            } else {
                lemma_collected_grows(leaked, awaited.drop_last(), entries);
            }
        }
    }
}

proof fn lemma_collected_grows(
    leaked: Seq<AllocationLeak>,
    awaited: Seq<AllocationId>,
    entries: Seq<Entry>,
)
    ensures
        collected(leaked, awaited, entries).len() >= leaked.len(),
    decreases awaited.len(),
{
    if awaited.len() > 0 {
        lemma_collected_grows(leaked, awaited.drop_last(), entries);
    }
}

} // verus!
