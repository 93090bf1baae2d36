use vstd::prelude::*;

use crate::domain::allocation::{Allocation, AllocationId, AllocationState, LifecycleEdges};
use crate::error::{AuthorizationError, ManagerError};
use crate::hot::select::seconds_since;
use crate::lifecycle::{terminal_next, TerminalEvent, TerminalStep};
use crate::operator::model::AllocationSummary;
use crate::order::{orders, rank_before, ranked_order, Rank};
use crate::service::AllocationManager;
use crate::state::{find_entry, is_entry_of, is_keyed, is_resident, place_of, updated, Change, Entry};

verus! {

pub open spec fn summary(allocation: Allocation, now: u64) -> AllocationSummary {
    AllocationSummary {
        id: allocation.id,
        profile: allocation.request.profile,
        repository: allocation.request.repository,
        run_id: allocation.request.run_id,
        run_attempt: allocation.request.run_attempt,
        state: allocation.state,
        age_seconds: seconds_since(allocation.created_at_unix, now) as u64,
        vm_name: allocation.vm_name,
        mode: allocation.mode,
        size: allocation.size,
        source: allocation.source,
    }
}

pub fn summarize(allocation: &Allocation, now: u64) -> (projected: AllocationSummary)
    ensures
        projected == summary(*allocation, now),
{
    AllocationSummary {
        id: allocation.id.clone(),
        profile: allocation.request.profile.clone(),
        repository: allocation.request.repository.clone(),
        run_id: allocation.request.run_id,
        run_attempt: allocation.request.run_attempt,
        state: allocation.state,
        age_seconds: now.saturating_sub(allocation.created_at_unix),
        vm_name: allocation.vm_name.clone(),
        mode: allocation.mode,
        size: allocation.size,
        source: allocation.source.clone(),
    }
}

/// The entries ranked oldest first, by ID where they are as old.
pub open spec fn seniority(entries: Seq<Entry>, now: u64) -> Seq<Rank> {
    Seq::new(
        entries.len(),
        |i: int|
            Rank {
                major: (u64::MAX - seconds_since(
                    entries[i].allocation.created_at_unix,
                    now,
                )) as u64,
                minor: 0,
                text: entries[i].allocation.id,
                index: i as usize,
            },
    )
}

/// What a cancellation of one allocation comes to.
#[derive(Debug, PartialEq, Eq)]
pub enum CancelStep {
    /// It is over already.
    Answer(Allocation),
    /// A worker is listening: the signal is the answer.
    Signalled(Allocation),
    /// Another cancel is driving it: wait for its answer rather than running a
    /// second cleanup against one clone.
    Await,
    /// Nobody is: drive it to its end from here.
    Drive(Allocation),
}

impl CancelStep {
    /// Is the allocation's token cancelled? Only one that is over keeps its.
    pub fn is_cancelling(&self) -> (is: bool)
        ensures
            is == !(self is Answer),
    {
        match self {
            CancelStep::Answer(_) => false,
            _ => true,
        }
    }
}

pub open spec fn cancel_step(entry: Entry) -> CancelStep {
    if entry.allocation.state.terminal() {
        CancelStep::Answer(entry.allocation)
    } else if entry.is_supervised {
        CancelStep::Signalled(entry.allocation)
    } else if entry.is_terminalizing {
        CancelStep::Await
    } else {
        CancelStep::Drive(entry.allocation)
    }
}

/// What a cancellation by ID answers, and the entries it leaves: one that is to
/// be driven is marked as being driven.
pub open spec fn cancelled(entries: Seq<Entry>, id: AllocationId) -> (
    Result<CancelStep, ManagerError>,
    Seq<Entry>,
) {
    if !is_resident(entries, id@) {
        (Err(ManagerError::NotFound(id)), entries)
    } else {
        let place = place_of(entries, id@);
        let step = cancel_step(entries[place]);
        (
            Ok(step),
            if step is Drive {
                entries.update(place, Entry { is_terminalizing: true, ..entries[place] })
            } else {
                entries
            },
        )
    }
}

/// What an authorized cancellation of an allocation as it was found answers, and
/// the entries it leaves.
pub open spec fn cancelled_as(
    entries: Seq<Entry>,
    allocation: Allocation,
    permitted: Result<(), AuthorizationError>,
) -> (Result<CancelStep, ManagerError>, Seq<Entry>) {
    match permitted {
        Err(error) => (Err(ManagerError::Authorization(error)), entries),
        Ok(()) => if allocation.state.terminal() {
            (Ok(CancelStep::Answer(allocation)), entries)
        } else {
            cancelled(entries, allocation.id)
        },
    }
}

/// The entries once nobody drives this allocation any more.
pub open spec fn undriven(entries: Seq<Entry>, id: Seq<char>) -> Seq<Entry> {
    if is_resident(entries, id) {
        let place = place_of(entries, id);
        entries.update(place, Entry { is_terminalizing: false, ..entries[place] })
    } else {
        entries
    }
}

/// What whoever waits for an allocation's end does next.
#[derive(Clone, Copy, Debug, PartialEq, Eq, Structural)]
pub enum AwaitStep {
    /// Wait for the next change of its record.
    Wait,
    /// Answer with the record as it is.
    Read,
}

/// A wait is over once the allocation is, and no later than nobody can change
/// its record any more.
pub open spec fn await_step(state: AllocationState, is_closed: bool) -> AwaitStep {
    if state.terminal() || is_closed {
        AwaitStep::Read
    } else {
        AwaitStep::Wait
    }
}

impl AllocationManager {
    /// What whoever waits for an allocation's end does, on the state it was last
    /// seen in.
    pub fn await_terminal(state: AllocationState, is_closed: bool) -> (step: AwaitStep)
        ensures
            step == await_step(state, is_closed),
    {
        if state.is_terminal() || is_closed {
            AwaitStep::Read
        } else {
            AwaitStep::Wait
        }
    }

    /// Every allocation the service knows, oldest first, because the one
    /// holding a slot is the one that has held it longest. Reports only;
    /// there is no policy decision on this path.
    pub fn list(&self, now: u64) -> (summaries: Vec<AllocationSummary>)
        ensures
            exists|order: Seq<usize>| #[trigger]
                orders(order, seniority(self.entries@, now)) && summaries@.len() == order.len()
                    && forall|k: int|
                    0 <= k < order.len() ==> #[trigger] summaries@[k] == summary(
                        self.entries@[order[k] as int].allocation,
                        now,
                    ),
    {
        let mut ranks: Vec<Rank> = Vec::new();
        let mut i: usize = 0;
        while i < self.entries.len()
            invariant
                i <= self.entries@.len(),
                ranks@ == seniority(self.entries@, now).take(i as int),
            decreases self.entries@.len() - i,
        {
            let allocation: &Allocation = &self.entries[i].allocation;
            let age: u64 = now.saturating_sub(allocation.created_at_unix);
            ranks.push(
                Rank { major: u64::MAX - age, minor: 0, text: allocation.id.clone(), index: i },
            );
            assert(seniority(self.entries@, now).take(i + 1) =~= seniority(
                self.entries@,
                now,
            ).take(i as int).push(seniority(self.entries@, now)[i as int]));
            i = i + 1;
        }
        assert(ranks@ =~= seniority(self.entries@, now));
        let order: Vec<usize> = ranked_order(ranks);
        let mut summaries: Vec<AllocationSummary> = Vec::new();
        let mut k: usize = 0;
        while k < order.len()
            invariant
                k <= order@.len(),
                orders(order@, seniority(self.entries@, now)),
                summaries@.len() == k,
                forall|j: int|
                    0 <= j < k ==> #[trigger] summaries@[j] == summary(
                        self.entries@[order@[j] as int].allocation,
                        now,
                    ),
            decreases order@.len() - k,
        {
            summaries.push(summarize(&self.entries[order[k]].allocation, now));
            k = k + 1;
        }
        summaries
    }

    /// Cancels by allocation ID alone: no profile, no claims, no request. An
    /// allocation that nobody drives is marked as being driven from here.
    pub fn cancel_by_id(&mut self, id: &AllocationId) -> (step: Result<CancelStep, ManagerError>)
        requires
            is_keyed(old(self).entries@),
        ensures
            old(self).wf() ==> final(self).wf(),
            is_keyed(final(self).entries@),
            *final(self) == (AllocationManager { entries: final(self).entries, ..*old(self) }),
            (step, final(self).entries@) == cancelled(old(self).entries@, *id),
    {
        let index: usize = match find_entry(&self.entries, id) {
            Some(index) => index,
            None => {
                return Err(ManagerError::NotFound(id.clone()));
            },
        };
        let entry: Entry = self.entries[index].clone();
        if entry.allocation.state.is_terminal() {
            return Ok(CancelStep::Answer(entry.allocation));
        }
        if entry.is_supervised {
            return Ok(CancelStep::Signalled(entry.allocation));
        }
        if entry.is_terminalizing {
            return Ok(CancelStep::Await);
        }
        let allocation: Allocation = entry.allocation.clone();
        self.entries.set(
            index,
            Entry {
                allocation: entry.allocation,
                is_supervised: entry.is_supervised,
                is_terminalizing: true,
            },
        );
        Ok(CancelStep::Drive(allocation))
    }

    /// Requests cancellation after the caller's claims were checked again;
    /// `permitted` is what they say of this allocation. One that is over is
    /// answered as it was found.
    pub fn cancel_authorized(
        &mut self,
        allocation: Allocation,
        permitted: Result<(), AuthorizationError>,
    ) -> (step: Result<CancelStep, ManagerError>)
        requires
            is_keyed(old(self).entries@),
        ensures
            old(self).wf() ==> final(self).wf(),
            is_keyed(final(self).entries@),
            *final(self) == (AllocationManager { entries: final(self).entries, ..*old(self) }),
            (step, final(self).entries@) == cancelled_as(
                old(self).entries@,
                allocation,
                permitted,
            ),
    {
        if let Err(error) = permitted {
            return Err(ManagerError::Authorization(error));
        }
        if allocation.state.is_terminal() {
            return Ok(CancelStep::Answer(allocation));
        }
        self.cancel_by_id(&allocation.id)
    }

    /// The drive is over, however it ended: the next cancel may drive again.
    pub fn finish_cancel(&mut self, id: &AllocationId)
        requires
            is_keyed(old(self).entries@),
        ensures
            old(self).wf() ==> final(self).wf(),
            is_keyed(final(self).entries@),
            *final(self) == (AllocationManager { entries: final(self).entries, ..*old(self) }),
            final(self).entries@ == undriven(old(self).entries@, id@),
    {
        if let Some(index) = find_entry(&self.entries, id) {
            let entry: Entry = self.entries[index].clone();
            self.entries.set(
                index,
                Entry {
                    allocation: entry.allocation,
                    is_supervised: entry.is_supervised,
                    is_terminalizing: false,
                },
            );
        }
    }
}

/// One cancel drives: once a cancel has been told to drive an allocation to its
/// end, another one waits until that drive is over.
pub proof fn law_one_cancel_drives(entry: Entry)
    requires
        cancel_step(entry) is Drive,
    ensures
        cancel_step(Entry { is_terminalizing: true, ..entry }) is Await,
        cancel_step(Entry { is_terminalizing: false, ..entry }) is Drive,
{
}

/// A finished allocation is only ever answered: no cancel signals it, waits for
/// it or drives it.
pub proof fn law_finished_allocation_is_answered(entry: Entry)
    requires
        entry.allocation.state.terminal(),
    ensures
        cancel_step(entry) == CancelStep::Answer(entry.allocation),
{
}

proof fn lemma_place(entries: Seq<Entry>, place: int)
    requires
        is_keyed(entries),
        0 <= place < entries.len(),
    ensures
        is_resident(entries, entries[place].allocation.id@),
        place_of(entries, entries[place].allocation.id@) == place,
{
    let id = entries[place].allocation.id@;
    assert(is_entry_of(entries, id, place));
    let found = place_of(entries, id);
    assert(is_entry_of(entries, id, found));
    if found < place {
        assert(entries[found].allocation.id@ != entries[place].allocation.id@);
    } else if place < found {
        assert(entries[place].allocation.id@ != entries[found].allocation.id@);
    }
}

proof fn lemma_update_keyed(entries: Seq<Entry>, place: int, entry: Entry)
    requires
        is_keyed(entries),
        0 <= place < entries.len(),
        entry.allocation.id@ == entries[place].allocation.id@,
    ensures
        is_keyed(entries.update(place, entry)),
{
    let all = entries.update(place, entry);
    assert forall|i: int, j: int| 0 <= i < j < all.len() implies (#[trigger] all[i]).allocation.id@
        != (#[trigger] all[j]).allocation.id@ by {
        assert(entries[i].allocation.id@ != entries[j].allocation.id@);
    }
}

/// The entries once the record of the allocation at this place was committed.
pub open spec fn with_record(entries: Seq<Entry>, place: int, record: Allocation) -> Seq<Entry> {
    entries.update(place, Entry { allocation: record, ..entries[place] })
}

/// The record of an allocation that is being cleaned.
pub open spec fn cleaning(allocation: Allocation, edges: LifecycleEdges, now: u64) -> Allocation {
    if allocation.state is Cleaning {
        allocation
    } else {
        updated(allocation, Change::Transition(AllocationState::Cleaning), edges, now)->Ok_0.record
    }
}

/// The record of a cleaned allocation that was cancelled.
pub open spec fn ended(allocation: Allocation, edges: LifecycleEdges, now: u64) -> Allocation {
    updated(allocation, Change::Transition(AllocationState::Cancelled), edges, now)->Ok_0.record
}

/// Overlapping cancels of an allocation that nobody supervises clean it up once.
/// One without leave changes nothing. Of two with leave, the first drives and the
/// second waits, however far the drive is; the drive tears down once and ends the
/// allocation as cancelled; both then read that record, without an error; and a
/// third is only answered with it.
pub proof fn law_overlapping_cancels_clean_up_once(
    entries: Seq<Entry>,
    place: int,
    refusal: AuthorizationError,
    edges: LifecycleEdges,
    cleaned_at: u64,
    ended_at: u64,
)
    requires
        is_keyed(entries),
        0 <= place < entries.len(),
        entries[place].allocation.live(),
        entries[place].allocation.error is None,
        !entries[place].is_supervised,
        !entries[place].is_terminalizing,
        entries[place].allocation.state is Cleaning || edges.permits(
            entries[place].allocation.state,
            AllocationState::Cleaning,
        ),
        edges.permits(AllocationState::Cleaning, AllocationState::Cancelled),
    ensures
        ({
            let found = entries[place].allocation;
            let leave = Ok::<(), AuthorizationError>(());
            let first = cancelled_as(entries, found, leave);
            let second = cancelled_as(first.1, found, leave);
            let in_cleaning = cleaning(found, edges, cleaned_at);
            let meanwhile = with_record(first.1, place, in_cleaning);
            let at_end = ended(in_cleaning, edges, ended_at);
            let after = with_record(meanwhile, place, at_end);
            let over = undriven(after, found.id@);
            let requested = AllocationState::Cancelled;
            let cleanup = TerminalStep::Cleanup { allocation: in_cleaning };
            let again = TerminalStep::CleanAgain { terminal: requested };
            let transition = TerminalStep::Transition { terminal: requested };
            &&& cancelled_as(entries, found, Err(refusal)) == (
                Err::<CancelStep, ManagerError>(ManagerError::Authorization(refusal)),
                entries,
            )
            &&& first.0 == Ok::<CancelStep, ManagerError>(CancelStep::Drive(found))
            &&& second == (Ok::<CancelStep, ManagerError>(CancelStep::Await), first.1)
            &&& cancelled_as(meanwhile, in_cleaning, leave) == (
                Ok::<CancelStep, ManagerError>(CancelStep::Await),
                meanwhile,
            )
            // The drive comes to its one cleanup, and from there to its end.
            &&& ({
                let next = terminal_next(
                    TerminalStep::Clean,
                    TerminalEvent::Recorded(Ok(())),
                    Ok(in_cleaning),
                    found,
                    requested,
                );
                next == cleanup || (next == (TerminalStep::Release { allocation: in_cleaning })
                    && terminal_next(
                    next,
                    TerminalEvent::Released,
                    Ok(in_cleaning),
                    found,
                    requested,
                ) == cleanup)
            })
            &&& terminal_next(
                cleanup,
                TerminalEvent::CleanedUp(Ok(())),
                Ok(in_cleaning),
                found,
                requested,
            ) == again
            &&& terminal_next(
                again,
                TerminalEvent::Recorded(Ok(())),
                Ok(in_cleaning),
                found,
                requested,
            ) == transition
            &&& terminal_next(
                transition,
                TerminalEvent::Recorded(Ok(())),
                Ok(at_end),
                found,
                requested,
            ) == TerminalStep::Done(requested)
            // Whoever waits reads the record the drive left.
            &&& await_step(found.state, false) is Wait
            &&& await_step(in_cleaning.state, false) is Wait
            &&& await_step(at_end.state, false) is Read
            &&& at_end.id == found.id
            &&& at_end.state is Cancelled
            &&& at_end.error is None
            &&& over[place].allocation == at_end
            &&& !over[place].is_terminalizing
            // A cancel after that is answered, before the drive is over and after.
            &&& cancelled(after, found.id) == (
                Ok::<CancelStep, ManagerError>(CancelStep::Answer(at_end)),
                after,
            )
            &&& cancelled_as(over, at_end, leave) == (
                Ok::<CancelStep, ManagerError>(CancelStep::Answer(at_end)),
                over,
            )
            &&& cancelled(over, found.id) == (
                Ok::<CancelStep, ManagerError>(CancelStep::Answer(at_end)),
                over,
            )
        }),
{
    let found = entries[place].allocation;
    lemma_place(entries, place);
    let driven = Entry { is_terminalizing: true, ..entries[place] };
    lemma_update_keyed(entries, place, driven);
    let first = entries.update(place, driven);
    lemma_place(first, place);
    let in_cleaning = cleaning(found, edges, cleaned_at);
    lemma_update_keyed(first, place, Entry { allocation: in_cleaning, ..first[place] });
    let meanwhile = with_record(first, place, in_cleaning);
    lemma_place(meanwhile, place);
    let at_end = ended(in_cleaning, edges, ended_at);
    lemma_update_keyed(meanwhile, place, Entry { allocation: at_end, ..meanwhile[place] });
    let after = with_record(meanwhile, place, at_end);
    lemma_place(after, place);
    lemma_update_keyed(after, place, Entry { is_terminalizing: false, ..after[place] });
    let over = undriven(after, found.id@);
    lemma_place(over, place);
}

/// What a cancel comes to, by who has the allocation: one that is over is only
/// answered; one a worker listens for is signalled; one another cancel drives is
/// waited for; and one that nobody drives is driven from here.
pub proof fn law_cancel_goes_by_who_drives(entry: Entry)
    ensures
        ({
            let step = cancel_step(entry);
            let is_over = entry.allocation.state is Completed || entry.allocation.state is Failed
                || entry.allocation.state is Cancelled;
            &&& step is Answer <==> is_over
            &&& step is Signalled <==> !is_over && entry.is_supervised
            &&& step is Await <==> !is_over && !entry.is_supervised && entry.is_terminalizing
            &&& step is Drive <==> !is_over && !entry.is_supervised && !entry.is_terminalizing
            &&& step matches CancelStep::Answer(found) ==> found == entry.allocation
            &&& step matches CancelStep::Signalled(found) ==> found == entry.allocation
            &&& step matches CancelStep::Drive(found) ==> found == entry.allocation
        }),
{
}

/// A wait ends with the allocation or with whoever could still change it.
pub proof fn law_wait_ends_with_the_allocation(state: AllocationState, is_closed: bool)
    ensures
        await_step(state, is_closed) is Read <==> is_closed || state is Completed || state is Failed
            || state is Cancelled,
{
}

/// The list shows the oldest allocation first: of two, the one that was created
/// earlier stands earlier, as far as their ages can be told apart.
pub proof fn law_oldest_allocation_is_listed_first(
    entries: Seq<Entry>,
    now: u64,
    order: Seq<usize>,
    a: int,
    b: int,
)
    requires
        orders(order, seniority(entries, now)),
        0 <= a < b < order.len(),
    ensures
        order.len() == entries.len(),
        entries[order[a] as int].allocation.created_at_unix
            <= entries[order[b] as int].allocation.created_at_unix || (
        entries[order[a] as int].allocation.created_at_unix >= now
            && entries[order[b] as int].allocation.created_at_unix >= now),
{
    let ranks = seniority(entries, now);
    assert(rank_before(ranks[order[a] as int], ranks[order[b] as int]));
}

/// A summary shows its allocation as it is, and how long ago it was created.
pub proof fn law_summary_shows_the_record(allocation: Allocation, now: u64)
    ensures
        ({
            let shown = summary(allocation, now);
            &&& shown.id == allocation.id
            &&& shown.profile == allocation.request.profile
            &&& shown.repository == allocation.request.repository
            &&& shown.run_id == allocation.request.run_id
            &&& shown.run_attempt == allocation.request.run_attempt
            &&& shown.state == allocation.state
            &&& shown.vm_name == allocation.vm_name
            &&& shown.mode == allocation.mode
            &&& shown.size == allocation.size
            &&& shown.source == allocation.source
            &&& now >= allocation.created_at_unix ==> allocation.created_at_unix
                + shown.age_seconds == now
            &&& now < allocation.created_at_unix ==> shown.age_seconds == 0
        }),
{
}

/// A cancel that is not permitted changes nothing and says so. A permitted one of an
/// allocation that is over answers it as it was found; any other goes by its entry.
pub proof fn law_refused_cancel_changes_nothing(
    entries: Seq<Entry>,
    allocation: Allocation,
    permitted: Result<(), AuthorizationError>,
)
    ensures
        ({
            let (answer, after) = cancelled_as(entries, allocation, permitted);
            let is_over = allocation.state is Completed || allocation.state is Failed
                || allocation.state is Cancelled;
            &&& permitted matches Err(error) ==> after == entries && answer == Err::<
                CancelStep,
                ManagerError,
            >(ManagerError::Authorization(error))
            &&& permitted is Ok && is_over ==> after == entries && answer == Ok::<
                CancelStep,
                ManagerError,
            >(CancelStep::Answer(allocation))
            &&& permitted is Ok && !is_over ==> (answer, after) == cancelled(
                entries,
                allocation.id,
            )
        }),
{
}

/// A cancel goes by the entry of its ID and touches no other: that one is marked as
/// being driven where the caller is to drive it. An ID without an entry is not
/// found. Once the drive is over the mark is gone, and again no other entry changes.
pub proof fn law_cancel_touches_its_own_entry(entries: Seq<Entry>, place: int, id: AllocationId)
    requires
        is_keyed(entries),
        0 <= place < entries.len(),
    ensures
        ({
            let own = entries[place];
            let (answer, after) = cancelled(entries, own.allocation.id);
            &&& answer == Ok::<CancelStep, ManagerError>(cancel_step(own))
            &&& after == if cancel_step(own) is Drive {
                entries.update(place, Entry { is_terminalizing: true, ..own })
            } else {
                entries
            }
            &&& undriven(entries, own.allocation.id@) == entries.update(
                place,
                Entry { is_terminalizing: false, ..own },
            )
        }),
        (forall|i: int| 0 <= i < entries.len() ==> (#[trigger] entries[i]).allocation.id@ != id@)
            ==> cancelled(entries, id) == (
            Err::<CancelStep, ManagerError>(ManagerError::NotFound(id)),
            entries,
        ) && undriven(entries, id@) == entries,
{
    lemma_place(entries, place);
    if is_resident(entries, id@) {
        let i: int = choose|i: int| is_entry_of(entries, id@, i);
        assert(entries[i].allocation.id@ == id@);
    }
}

} // verus!
