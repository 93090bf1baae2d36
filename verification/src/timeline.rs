use vstd::prelude::*;

use crate::creation::{law_repeated_attempt_gets_its_allocation, CreateEvent, CreateRun, CreateStep};
use crate::domain::allocation::{AllocationMode, AllocationRequest, AllocationState, GuestSize,
    LifecycleEdges};
use crate::domain::hot::HotGuest;
use crate::domain::profile::Config;
use crate::error::{ManagerError, StoreError};
use crate::hot::model::HotContext;
use crate::service::{admits, is_attempt_exclusive, is_predecessor, law_attempts_stay_exclusive,
    law_change_keeps_attempts_exclusive, Admission, AllocationManager};
use crate::state::{departing, is_entry_of, is_resident, lemma_without_from, pruned, updated,
    Change, Entry};
use crate::worker::error::WorkerError;
use crate::worker::model::HostMachine;

verus! {

/// One thing that happens to the entries of a running manager.
pub enum Move {
    /// An admitted request became an allocation and joined the others.
    Admitted {
        is_closing: bool,
        config: Config,
        request: AllocationRequest,
        mode: AllocationMode,
        size: GuestSize,
        machines: Result<Vec<HostMachine>, WorkerError>,
        hot: Result<Vec<HotGuest>, StoreError>,
        answer: Result<Admission, ManagerError>,
        entry: Entry,
        limit: usize,
    },
    /// A record was changed and committed.
    Changed { place: usize, change: Change, edges: LifecycleEdges, now: u64 },
    /// Who drives an allocation changed.
    Driven { place: usize, is_supervised: bool, is_terminalizing: bool },
}

/// Does no edge lead out of an end?
pub open spec fn are_ends_final(edges: LifecycleEdges) -> bool {
    forall|from: AllocationState, to: AllocationState| #[trigger]
        edges.permits(from, to) && from.terminal() ==> to.terminal()
}

/// Does this move lead from one list of entries to the other?
pub open spec fn is_move(before: Seq<Entry>, step: Move, after: Seq<Entry>) -> bool {
    match step {
        Move::Admitted {
            is_closing,
            config,
            request,
            mode,
            size,
            machines,
            hot,
            answer,
            entry,
            limit,
        } => {
            &&& admits(before, is_closing, config, request, mode, size, machines, hot, answer)
            &&& answer matches Ok(Admission::Fits { .. })
            &&& entry.allocation.request == request
            &&& !is_resident(before, entry.allocation.id@)
            &&& after == pruned(before.push(entry), limit as int)
        },
        Move::Changed { place, change, edges, now } => {
            &&& place < before.len()
            &&& are_ends_final(edges)
            &&& updated(before[place as int].allocation, change, edges, now) is Ok
            &&& after == before.update(
                place as int,
                Entry {
                    allocation: updated(
                        before[place as int].allocation,
                        change,
                        edges,
                        now,
                    )->Ok_0.record,
                    ..before[place as int]
                },
            )
        },
        Move::Driven { place, is_supervised, is_terminalizing } => {
            &&& place < before.len()
            &&& after == before.update(
                place as int,
                Entry {
                    allocation: before[place as int].allocation,
                    is_supervised,
                    is_terminalizing,
                },
            )
        },
    }
}

/// Are these the entries a manager went through, one move after the other?
pub open spec fn is_timeline(states: Seq<Seq<Entry>>, moves: Seq<Move>) -> bool {
    &&& states.len() == moves.len() + 1
    &&& forall|k: int|
        0 <= k < moves.len() ==> is_move(states[k], #[trigger] moves[k], states[k + 1])
}

/// One allocation still going per attempt is kept for as long as a manager runs:
/// where it begins with that (with nothing resident, say), it has it after every
/// move.
pub proof fn law_attempts_are_always_exclusive(
    states: Seq<Seq<Entry>>,
    moves: Seq<Move>,
    k: int,
)
    requires
        is_timeline(states, moves),
        is_attempt_exclusive(states[0]),
        0 <= k < states.len(),
    ensures
        is_attempt_exclusive(states[k]),
    decreases k,
{
    if k > 0 {
        law_attempts_are_always_exclusive(states, moves, k - 1);
        let before = states[k - 1];
        let step = moves[k - 1];
        assert(is_move(before, step, states[k]));
        match step {
            Move::Admitted {
                is_closing,
                config,
                request,
                mode,
                size,
                machines,
                hot,
                answer,
                entry,
                limit,
            } => {
                law_attempts_stay_exclusive(
                    before,
                    is_closing,
                    config,
                    request,
                    mode,
                    size,
                    machines,
                    hot,
                    answer,
                    entry,
                    limit as int,
                );
            },
            Move::Changed { place, change, edges, now } => {
                law_change_keeps_attempts_exclusive(before, place as int, change, edges, now);
            },
            Move::Driven { place, is_supervised, is_terminalizing } => {
                let after = states[k];
                assert forall|i: int, j: int|
                    0 <= i < j < after.len() && (#[trigger] after[i]).allocation.live() && (
                    #[trigger] after[j]).allocation.live() implies
                    !after[i].allocation.request.same_attempt(
                    &after[j].allocation.request,
                ) by {
                    assert(after[i].allocation == before[i].allocation);
                    assert(after[j].allocation == before[j].allocation);
                }
            },
        }
    }
}

/// Is every entry of this ID of this request?
pub open spec fn is_of_request(entries: Seq<Entry>, id: Seq<char>, request: AllocationRequest) -> bool {
    forall|i: int|
        0 <= i < entries.len() && (#[trigger] entries[i]).allocation.id@ == id
            ==> entries[i].allocation.request == request
}

/// Does this move bring in an allocation of this ID?
pub open spec fn brings_in(step: Move, id: Seq<char>) -> bool {
    step matches Move::Admitted { entry, .. } && entry.allocation.id@ == id
}

proof fn lemma_request_stays(
    states: Seq<Seq<Entry>>,
    moves: Seq<Move>,
    born: int,
    k: int,
    id: Seq<char>,
    request: AllocationRequest,
)
    requires
        is_timeline(states, moves),
        0 <= born < k < states.len(),
        moves[born] matches Move::Admitted { entry, request: asked, .. } && entry.allocation.id@
            == id && asked == request,
        forall|j: int| born < j < moves.len() ==> !brings_in(#[trigger] moves[j], id),
    ensures
        is_of_request(states[k], id, request),
    decreases k,
{
    let before = states[k - 1];
    let after = states[k];
    let step = moves[k - 1];
    assert(is_move(before, step, after));
    if k - 1 > born {
        lemma_request_stays(states, moves, born, k - 1, id, request);
        assert(!brings_in(moves[k - 1], id));
    } else {
        assert(!is_resident(before, id));
    }
    assert forall|i: int|
        0 <= i < after.len() && (#[trigger] after[i]).allocation.id@
            == id implies after[i].allocation.request == request by {
        match step {
            Move::Admitted { entry, limit, .. } => {
                let all = before.push(entry);
                let place = lemma_without_from(all, departing(all, limit as int), i);
                if place < before.len() {
                    assert(before[place] == after[i]);
                    if k - 1 == born {
                        assert(is_entry_of(before, id, place));
                    }
                }
            },
            Move::Changed { place, .. } => {
                assert(before[i].allocation.id@ == id);
            },
            Move::Driven { place, .. } => {
                assert(before[i].allocation == after[i].allocation);
            },
        }
    }
}

/// Creation is idempotent: once a request became an allocation, however much has
/// happened since, a request of the same attempt is answered with that allocation
/// while it is still going; nothing is named, saved or begun for it. No ID is
/// drawn twice.
pub proof fn law_second_request_gets_the_first_ones_allocation(
    states: Seq<Seq<Entry>>,
    moves: Seq<Move>,
    born: int,
    i: int,
    run: CreateRun,
    manager: AllocationManager,
    config: Config,
    context: Option<HotContext>,
    machines: Result<Vec<HostMachine>, WorkerError>,
    hot: Result<Vec<HotGuest>, StoreError>,
    next: CreateStep,
)
    requires
        is_timeline(states, moves),
        is_attempt_exclusive(states[0]),
        0 <= born < moves.len(),
        moves[born] is Admitted,
        moves[born]->Admitted_request.same_attempt(&run.request),
        forall|j: int|
            born < j < moves.len() ==> !brings_in(
                #[trigger] moves[j],
                moves[born]->Admitted_entry.allocation.id@,
            ),
        manager.entries@ == states.last(),
        !manager.is_closing,
        0 <= i < manager.entries@.len(),
        manager.entries@[i].allocation.id@ == moves[born]->Admitted_entry.allocation.id@,
        manager.entries@[i].allocation.live(),
        run.is_next(
            manager,
            config,
            CreateStep::Probe { context },
            CreateEvent::Probed { machines, hot },
            next,
        ),
    ensures
        next == CreateStep::Existing(manager.entries@[i].allocation),
        forall|event: CreateEvent, after: CreateStep| #[trigger]
            run.is_next(manager, config, next, event, after) ==> after == next,
{
    let last: int = states.len() - 1;
    let id = moves[born]->Admitted_entry.allocation.id@;
    let request = moves[born]->Admitted_request;
    law_attempts_are_always_exclusive(states, moves, last);
    lemma_request_stays(states, moves, born, last, id, request);
    assert(manager.entries@[i].allocation.request == request);
    assert(is_predecessor(manager.entries@[i], run.request));
    law_repeated_attempt_gets_its_allocation(
        run,
        manager,
        config,
        context,
        machines,
        hot,
        next,
        i,
    );
}

} // verus!
