use vstd::prelude::*;

use crate::domain::allocation::{Allocation, AllocationId, AllocationState};
use crate::domain::profile::{Config, Profile};
use crate::error::{ManagerError, StoreError};
use crate::resolve::profile as requested_profile;
use crate::service::AllocationManager;
use crate::state::{find_entry, is_entry_of, is_keyed, is_resident, Change, Entry};

verus! {

/// Cleanup budget applied when the record's configured profile is gone.
pub const FALLBACK_CLEANUP_TIMEOUT_SECONDS: u64 = 300;

/// The network mode every backend has.
pub const DEFAULT_NETWORK: &'static str = "default";

/// What an interrupted allocation's record says.
pub const INTERRUPTED_MESSAGE: &'static str = "daemon restarted during allocation";

/// The entry of a recovered allocation: no worker is listening to its token.
pub open spec fn recovered(allocation: Allocation) -> Entry {
    Entry { allocation, is_supervised: false, is_terminalizing: false }
}

/// The entries after as many records as have no double among them or before,
/// and the first that has one.
pub open spec fn loaded(entries: Seq<Entry>, allocations: Seq<Allocation>) -> (
    Seq<Entry>,
    Option<AllocationId>,
)
    decreases allocations.len(),
{
    if allocations.len() == 0 {
        (entries, None)
    } else {
        let before = loaded(entries, allocations.drop_last());
        if before.1 is Some {
            before
        } else if is_resident(before.0, allocations.last().id@) {
            (before.0, Some(allocations.last().id))
        } else {
            (before.0.push(recovered(allocations.last())), None)
        }
    }
}

/// The allocations a restart interrupted, in the order they were loaded.
pub open spec fn interrupted(allocations: Seq<Allocation>) -> Seq<Allocation>
    decreases allocations.len(),
{
    if allocations.len() == 0 {
        Seq::empty()
    } else {
        let rest = interrupted(allocations.drop_last());
        if allocations.last().live() {
            rest.push(allocations.last())
        } else {
            rest
        }
    }
}

/// The next thing a recovery does. The last two end it; a place is that of an
/// interrupted allocation.
#[derive(Debug, PartialEq, Eq)]
pub enum RecoveryStep {
    /// Record that the daemon restarted under this allocation.
    Mark { place: usize },
    /// Tear it down and drive it to this state, whatever the mark came to.
    TearDown { place: usize, requested: AllocationState },
    /// Reconcile the pool. What an allocation held has been given up by now.
    Pool,
    /// Reconcile the warm images.
    Images,
    Done,
    Failed(ManagerError),
}

/// What a step came back with.
#[derive(Debug, PartialEq, Eq)]
pub enum RecoveryEvent {
    /// The mark was written, or why it was not.
    Marked(Result<(), ManagerError>),
    /// The allocation reached its end, or why it did not.
    TornDown(Result<AllocationState, ManagerError>),
    /// The pool or the images were reconciled, or why they were not.
    Reconciled(Result<(), ManagerError>),
}

/// Where a recovery stands before the interrupted allocation at this place, of
/// so many.
pub open spec fn recovery_from(count: nat, place: int) -> RecoveryStep {
    if place < count {
        RecoveryStep::Mark { place: place as usize }
    } else {
        RecoveryStep::Pool
    }
}

/// What follows a step of a recovery over so many interrupted allocations. An
/// answer that is not the one a step waits for changes nothing.
pub open spec fn recovery_next(count: nat, step: RecoveryStep, event: RecoveryEvent) -> RecoveryStep {
    match (step, event) {
        (RecoveryStep::Mark { place }, RecoveryEvent::Marked(_)) => RecoveryStep::TearDown {
            place,
            requested: AllocationState::Failed,
        },
        (RecoveryStep::TearDown { place, .. }, RecoveryEvent::TornDown(_)) => recovery_from(
            count,
            place + 1,
        ),
        (RecoveryStep::Pool, RecoveryEvent::Reconciled(outcome)) => match outcome {
            Ok(()) => RecoveryStep::Images,
            Err(error) => RecoveryStep::Failed(error),
        },
        (RecoveryStep::Images, RecoveryEvent::Reconciled(outcome)) => match outcome {
            Ok(()) => RecoveryStep::Done,
            Err(error) => RecoveryStep::Failed(error),
        },
        _ => step,
    }
}

/// Is this the end of one allocation's turn that needs an operator?
pub open spec fn is_unreconciled(step: RecoveryStep, event: RecoveryEvent) -> bool {
    step is TearDown && (event matches RecoveryEvent::TornDown(Err(_)))
}

/// A recovery under way: the interrupted allocations, and how they fared.
#[derive(Debug)]
pub struct Recovery {
    pub interrupted: Vec<Allocation>,
    pub step: RecoveryStep,
    /// How many could not be reconciled and need an operator.
    pub unreconciled: usize,
}

impl Recovery {
    /// How many allocations had their turn.
    pub open spec fn handled(&self) -> int {
        match self.step {
            RecoveryStep::Mark { place } => place as int,
            RecoveryStep::TearDown { place, .. } => place as int,
            _ => self.interrupted@.len() as int,
        }
    }

    pub open spec fn wf(&self) -> bool {
        &&& self.unreconciled <= self.handled() <= self.interrupted@.len()
        &&& self.step is Mark || self.step is TearDown ==> self.handled() < self.interrupted@.len()
    }

    /// The interrupted allocation whose turn it is, while it is any one's.
    pub fn allocation(&self) -> (allocation: Option<&Allocation>)
        requires
            self.wf(),
        ensures
            match allocation {
                Some(found) => self.handled() < self.interrupted@.len() && *found
                    == self.interrupted@[self.handled()],
                None => self.handled() == self.interrupted@.len(),
            },
    {
        match &self.step {
            RecoveryStep::Mark { place } => Some(&self.interrupted[*place]),
            RecoveryStep::TearDown { place, .. } => Some(&self.interrupted[*place]),
            _ => None,
        }
    }

    /// Takes in what a step came back with. An allocation that could not be
    /// reconciled is counted, so startup still completes.
    pub fn next(&mut self, event: RecoveryEvent)
        requires
            old(self).wf(),
        ensures
            final(self).wf(),
            final(self).interrupted == old(self).interrupted,
            final(self).step == recovery_next(
                old(self).interrupted@.len(),
                old(self).step,
                event,
            ),
            final(self).unreconciled == old(self).unreconciled + if is_unreconciled(
                old(self).step,
                event,
            ) {
                1int
            } else {
                0int
            },
    {
        let count: usize = self.interrupted.len();
        match (&self.step, event) {
            (RecoveryStep::Mark { place }, RecoveryEvent::Marked(_)) => {
                let place: usize = *place;
                self.step =
                RecoveryStep::TearDown { place, requested: AllocationState::Failed };
            },
            (RecoveryStep::TearDown { place, .. }, RecoveryEvent::TornDown(outcome)) => {
                let place: usize = *place;
                assert(place < count);
                if outcome.is_err() {
                    self.unreconciled = self.unreconciled + 1;
                }
                self.step =
                if place + 1 < count {
                    RecoveryStep::Mark { place: place + 1 }
                } else {
                    RecoveryStep::Pool
                };
            },
            (RecoveryStep::Pool, RecoveryEvent::Reconciled(outcome)) => {
                self.step =
                match outcome {
                    Ok(()) => RecoveryStep::Images,
                    Err(error) => RecoveryStep::Failed(error),
                };
            },
            (RecoveryStep::Images, RecoveryEvent::Reconciled(outcome)) => {
                self.step =
                match outcome {
                    Ok(()) => RecoveryStep::Done,
                    Err(error) => RecoveryStep::Failed(error),
                };
            },
            _ => {},
        }
    }
}

/// The change that marks an interrupted allocation.
pub fn mark_interrupted() -> (change: Change)
    ensures
        change matches Change::Error(text) && text@ == INTERRUPTED_MESSAGE@,
{
    Change::Error(INTERRUPTED_MESSAGE.to_owned())
}

impl AllocationManager {
    /// Loads durable allocations: the recovery that cleans the interrupted ones,
    /// each in turn, and goes on to the pool and then to the warm images. Only
    /// what concerns the store as a whole is an error here.
    pub fn recover(&mut self, records: Result<Vec<Allocation>, StoreError>) -> (recovery: Result<
        Recovery,
        ManagerError,
    >)
        requires
            is_keyed(old(self).entries@),
        ensures
            is_keyed(final(self).entries@),
            old(self).wf() ==> final(self).wf(),
            *final(self) == (AllocationManager { entries: final(self).entries, ..*old(self) }),
            match records {
                Err(error) => recovery == Err::<Recovery, ManagerError>(ManagerError::Store(error))
                    && final(self).entries@ == old(self).entries@,
                Ok(allocations) => {
                    &&& final(self).entries@ == loaded(old(self).entries@, allocations@).0
                    &&& match loaded(old(self).entries@, allocations@).1 {
                        Some(id) => recovery == Err::<Recovery, ManagerError>(
                            ManagerError::DuplicateAllocation(id),
                        ),
                        None => recovery matches Ok(run) && run.wf() && run.interrupted@
                            == interrupted(allocations@) && run.step == recovery_from(
                            run.interrupted@.len(),
                            0,
                        ) && run.unreconciled == 0,
                    }
                },
            },
    {
        let allocations: Vec<Allocation> = match records {
            Ok(records) => records,
            Err(error) => return Err(ManagerError::Store(error)),
        };
        if let Err(error) = self.ensure_entries_loaded(&allocations) {
            return Err(error);
        }
        let mut waiting: Vec<Allocation> = Vec::new();
        let mut i: usize = 0;
        while i < allocations.len()
            invariant
                i <= allocations@.len(),
                waiting@ == interrupted(allocations@.take(i as int)),
            decreases allocations@.len() - i,
        {
            proof {
                assert(allocations@.take(i + 1).drop_last() =~= allocations@.take(i as int));
                assert(allocations@.take(i + 1).last() == allocations@[i as int]);
            }
            if !allocations[i].state.is_terminal() {
                waiting.push(allocations[i].clone());
            }
            i = i + 1;
        }
        assert(allocations@.take(allocations@.len() as int) =~= allocations@);
        let step: RecoveryStep = if waiting.len() > 0 {
            RecoveryStep::Mark { place: 0 }
        } else {
            RecoveryStep::Pool
        };
        Ok(Recovery { interrupted: waiting, step, unreconciled: 0 })
    }

    /// Rebuilds the in-memory entries from durable records, so the committed
    /// capacity is charged again before anything is reconciled. A record whose
    /// ID is there already is not taken, nor is anything after it.
    pub fn ensure_entries_loaded(&mut self, allocations: &Vec<Allocation>) -> (done: Result<
        (),
        ManagerError,
    >)
        requires
            is_keyed(old(self).entries@),
        ensures
            is_keyed(final(self).entries@),
            old(self).wf() ==> final(self).wf(),
            *final(self) == (AllocationManager { entries: final(self).entries, ..*old(self) }),
            final(self).entries@ == loaded(old(self).entries@, allocations@).0,
            done == match loaded(old(self).entries@, allocations@).1 {
                Some(id) => Err::<(), ManagerError>(ManagerError::DuplicateAllocation(id)),
                None => Ok(()),
            },
    {
        let ghost before: Seq<Entry> = self.entries@;
        let mut i: usize = 0;
        while i < allocations.len()
            invariant
                before == old(self).entries@,
                i <= allocations@.len(),
                is_keyed(self.entries@),
                *self == (AllocationManager { entries: self.entries, ..*old(self) }),
                loaded(before, allocations@.take(i as int)) == (self.entries@, None::<AllocationId>),
            decreases allocations@.len() - i,
        {
            let allocation: &Allocation = &allocations[i];
            proof {
                assert(allocations@.take(i + 1).drop_last() =~= allocations@.take(i as int));
                assert(allocations@.take(i + 1).last() == *allocation);
            }
            if find_entry(&self.entries, &allocation.id).is_some() {
                proof {
                    lemma_loading_stops(before, allocations@, i + 1);
                }
                return Err(ManagerError::DuplicateAllocation(allocation.id.clone()));
            }
            let ghost held: Seq<Entry> = self.entries@;
            self.entries.push(
                Entry {
                    allocation: allocation.clone(),
                    is_supervised: false,
                    is_terminalizing: false,
                },
            );
            proof {
                let all = self.entries@;
                assert(all == held.push(recovered(*allocation)));
                assert forall|a: int, b: int| 0 <= a < b < all.len() implies (
                #[trigger] all[a]).allocation.id@ != (#[trigger] all[b]).allocation.id@ by {
                    if b == held.len() {
                        assert(!is_entry_of(held, allocation.id@, a));
                    }
                }
            }
            i = i + 1;
        }
        assert(allocations@.take(allocations@.len() as int) =~= allocations@);
        Ok(())
    }
}

proof fn lemma_loading_stops(entries: Seq<Entry>, allocations: Seq<Allocation>, count: int)
    requires
        0 <= count <= allocations.len(),
        loaded(entries, allocations.take(count)).1 is Some,
    ensures
        loaded(entries, allocations) == loaded(entries, allocations.take(count)),
    decreases allocations.len(),
{
    if count == allocations.len() {
        assert(allocations.take(count) =~= allocations);
    } else {
        assert(allocations.drop_last().take(count) =~= allocations.take(count));
        lemma_loading_stops(entries, allocations.drop_last(), count);
    }
}

/// A profile that authorizes nothing and only says how long cleanup may take.
pub open spec fn is_cleanup_only(profile: Profile, allocation: Allocation) -> bool {
    &&& profile.repository == allocation.request.repository
    &&& profile.template == allocation.vm_name
    &&& profile.runner_label == allocation.runner_label
    &&& profile.job_name@ == Seq::<char>::empty()
    &&& profile.allowed_workflows@.len() == 0
    &&& profile.allowed_events@.len() == 0
    &&& profile.allowed_refs@.len() == 0
    &&& profile.allowed_ref_prefixes@.len() == 0
    &&& profile.require_protected_ref
    &&& profile.network@ == DEFAULT_NETWORK@
    &&& profile.cpu_count == 1
    &&& profile.memory_mb == 2_048
    &&& profile.storage_mb == 0
    &&& profile.boot_timeout_seconds == FALLBACK_CLEANUP_TIMEOUT_SECONDS
    &&& profile.idle_timeout_seconds == FALLBACK_CLEANUP_TIMEOUT_SECONDS
    &&& profile.job_timeout_seconds == FALLBACK_CLEANUP_TIMEOUT_SECONDS
    &&& profile.cleanup_timeout_seconds == FALLBACK_CLEANUP_TIMEOUT_SECONDS
    &&& profile.warm_template is None
    &&& profile.regeneration_workflow is None
    &&& !profile.reap
    &&& profile.hot is None
}

/// Cleanup-only profile for a record whose configured profile was removed.
/// Cleanup reads the timeout alone, and empty allowlists authorize nothing.
pub fn cleanup_only_profile(allocation: &Allocation) -> (profile: Profile)
    ensures
        is_cleanup_only(profile, *allocation),
{
    Profile {
        repository: allocation.request.repository.clone(),
        template: allocation.vm_name.clone(),
        runner_label: allocation.runner_label.clone(),
        job_name: String::new(),
        allowed_workflows: Vec::new(),
        allowed_events: Vec::new(),
        allowed_refs: Vec::new(),
        allowed_ref_prefixes: Vec::new(),
        require_protected_ref: true,
        network: DEFAULT_NETWORK.to_owned(),
        cpu_count: 1,
        memory_mb: 2_048,
        storage_mb: 0,
        boot_timeout_seconds: FALLBACK_CLEANUP_TIMEOUT_SECONDS,
        idle_timeout_seconds: FALLBACK_CLEANUP_TIMEOUT_SECONDS,
        job_timeout_seconds: FALLBACK_CLEANUP_TIMEOUT_SECONDS,
        cleanup_timeout_seconds: FALLBACK_CLEANUP_TIMEOUT_SECONDS,
        warm_template: None,
        regeneration_workflow: None,
        reap: false,
        hot: None,
    }
}

/// The profile a record is torn down under: its own while the configuration has
/// it, and otherwise one that only says how long cleanup may take.
pub fn teardown_profile(config: &Config, allocation: &Allocation) -> (profile: Profile)
    ensures
        match config.named(allocation.request.profile@) {
            Some(held) => profile.same_as(&held),
            None => is_cleanup_only(profile, *allocation),
        },
{
    match requested_profile(config, &allocation.request) {
        Ok(held) => held,
        Err(_) => cleanup_only_profile(allocation),
    }
}

/// An interrupted allocation is torn down whatever its mark came to, and driven
/// to `Failed`.
pub proof fn law_unwritten_mark_keeps_nothing_from_teardown(
    count: nat,
    place: usize,
    marked: Result<(), ManagerError>,
)
    ensures
        recovery_next(count, RecoveryStep::Mark { place }, RecoveryEvent::Marked(marked)) == (
        RecoveryStep::TearDown { place, requested: AllocationState::Failed }),
{
}

/// One allocation that cannot be reconciled stops nothing: after its turn comes
/// the next one's, and after the last one's the pool.
pub proof fn law_recovery_reaches_every_record(
    count: nat,
    place: usize,
    requested: AllocationState,
    ended: Result<AllocationState, ManagerError>,
)
    requires
        place < count <= usize::MAX,
    ensures
        ({
            let next = recovery_next(
                count,
                RecoveryStep::TearDown { place, requested },
                RecoveryEvent::TornDown(ended),
            );
            &&& place + 1 < count ==> next == (RecoveryStep::Mark { place: (place + 1) as usize })
            &&& place + 1 == count ==> next == RecoveryStep::Pool
        }),
{
}

/// The pool is reconciled after the last interrupted allocation, the warm images
/// after the pool, and a recovery is done only after both; only they can fail it.
pub proof fn law_recovery_goes_on_to_the_pool_and_the_images(
    count: nat,
    step: RecoveryStep,
    event: RecoveryEvent,
)
    requires
        step matches RecoveryStep::Mark { place } ==> place < count,
        step matches RecoveryStep::TearDown { place, .. } ==> place < count,
        count <= usize::MAX,
    ensures
        ({
            let next = recovery_next(count, step, event);
            next != step ==> {
                &&& next is Pool ==> (step matches RecoveryStep::TearDown { place, .. } && place + 1
                    == count)
                &&& next is Images ==> step is Pool && (event matches RecoveryEvent::Reconciled(
                    Ok(_),
                ))
                &&& next is Done ==> step is Images && (event matches RecoveryEvent::Reconciled(
                    Ok(_),
                ))
                &&& next matches RecoveryStep::Failed(error) ==> (step is Pool || step is Images)
                    && event == RecoveryEvent::Reconciled(Err(error))
            }
        }),
{
}

/// How far a recovery over so many interrupted allocations still is.
pub open spec fn recovery_left(count: nat, step: RecoveryStep) -> int {
    match step {
        RecoveryStep::Mark { place } => 2 * (count - place) + 2,
        RecoveryStep::TearDown { place, .. } => 2 * (count - place) + 1,
        RecoveryStep::Pool => 2,
        RecoveryStep::Images => 1,
        _ => 0,
    }
}

/// Every answer a step waits for brings a recovery nearer its end.
pub proof fn law_recovery_ends(count: nat, step: RecoveryStep, event: RecoveryEvent)
    requires
        step matches RecoveryStep::Mark { place } ==> place < count,
        step matches RecoveryStep::TearDown { place, .. } ==> place < count,
        count <= usize::MAX,
    ensures
        ({
            let next = recovery_next(count, step, event);
            next == step || 0 <= recovery_left(count, next) < recovery_left(count, step)
        }),
{
}

/// Recovery charges what was running: every record it loads becomes an entry,
/// and no entry it loads pretends that a worker drives it.
pub proof fn law_recovery_restores_every_record(
    entries: Seq<Entry>,
    allocations: Seq<Allocation>,
    i: int,
)
    requires
        loaded(entries, allocations).1 is None,
        0 <= i < allocations.len(),
    ensures
        loaded(entries, allocations).0.len() == entries.len() + allocations.len(),
        loaded(entries, allocations).0[entries.len() + i] == recovered(allocations[i]),
    decreases allocations.len(),
{
    if i == allocations.len() - 1 {
        if allocations.len() > 1 {
            law_recovery_restores_every_record(entries, allocations.drop_last(), 0);
        } else {
            assert(allocations.drop_last() =~= Seq::<Allocation>::empty());
            assert(loaded(entries, allocations.drop_last()) == (entries, None::<AllocationId>));
        }
    } else {
        law_recovery_restores_every_record(entries, allocations.drop_last(), i);
    }
}

proof fn lemma_interrupted_joined(before: Seq<Allocation>, after: Seq<Allocation>)
    ensures
        interrupted(before + after) == interrupted(before) + interrupted(after),
    decreases after.len(),
{
    if after.len() == 0 {
        assert(before + after =~= before);
        assert(interrupted(before) + interrupted(after) =~= interrupted(before));
    } else {
        lemma_interrupted_joined(before, after.drop_last());
        assert((before + after).drop_last() =~= before + after.drop_last());
        assert(interrupted(before + after) =~= interrupted(before) + interrupted(after));
    }
}

/// A restart interrupts every allocation that has not completed, failed or been
/// cancelled, whatever it was doing, and no other one: wherever such a record
/// stands among the loaded ones, it stands once and at the same place among
/// those that are torn down, between what came before it and what came after.
pub proof fn law_every_unfinished_record_is_recovered(
    before: Seq<Allocation>,
    allocation: Allocation,
    after: Seq<Allocation>,
)
    ensures
        interrupted(Seq::<Allocation>::empty()).len() == 0,
        interrupted(before + seq![allocation] + after) == interrupted(before) + (
        match allocation.state {
            AllocationState::Completed
            | AllocationState::Failed
            | AllocationState::Cancelled => Seq::<Allocation>::empty(),
            _ => seq![allocation],
        }) + interrupted(after),
{
    let one = seq![allocation];
    lemma_interrupted_joined(before + one, after);
    lemma_interrupted_joined(before, one);
    assert(one.drop_last() =~= Seq::<Allocation>::empty());
    assert(interrupted(one.drop_last()) =~= Seq::<Allocation>::empty());
    if allocation.live() {
        assert(interrupted(one) =~= one);
    } else {
        assert(interrupted(one) =~= Seq::<Allocation>::empty());
    }
}

/// No unfinished record is left behind by a restart, and no finished one is
/// touched: a loaded record is among the interrupted ones exactly while it is
/// not over.
pub proof fn law_interrupted_are_the_unfinished(allocations: Seq<Allocation>, i: int)
    requires
        0 <= i < allocations.len(),
    ensures
        interrupted(allocations).contains(allocations[i]) <==> !(
        allocations[i].state is Completed || allocations[i].state is Failed
            || allocations[i].state is Cancelled),
        forall|k: int|
            0 <= k < interrupted(allocations).len() ==> allocations.contains(
                #[trigger] interrupted(allocations)[k],
            ),
{
    let before = allocations.take(i);
    let after = allocations.skip(i + 1);
    assert(allocations =~= before + seq![allocations[i]] + after);
    law_every_unfinished_record_is_recovered(before, allocations[i], after);
    let all = interrupted(allocations);
    if allocations[i].live() {
        assert(all[interrupted(before).len() as int] == allocations[i]);
    } else {
        assert forall|k: int| 0 <= k < all.len() implies all[k] != allocations[i] by {
            lemma_interrupted_from(allocations, k);
        }
    }
    assert forall|k: int| 0 <= k < all.len() implies allocations.contains(
        #[trigger] interrupted(allocations)[k],
    ) by {
        lemma_interrupted_from(allocations, k);
    }
}

proof fn lemma_interrupted_from(allocations: Seq<Allocation>, k: int)
    requires
        0 <= k < interrupted(allocations).len(),
    ensures
        interrupted(allocations)[k].live(),
        allocations.contains(interrupted(allocations)[k]),
    decreases allocations.len(),
{
    let rest = interrupted(allocations.drop_last());
    if k < rest.len() {
        lemma_interrupted_from(allocations.drop_last(), k);
        let j: int = choose|j: int|
            0 <= j < allocations.drop_last().len() && allocations.drop_last()[j] == rest[k];
        assert(allocations[j] == rest[k]);
    } else {
        assert(allocations[allocations.len() - 1] == interrupted(allocations)[k]);
    }
}

/// A restart takes every record over or stops at the first that it already has:
/// an ID that is loaded twice is named, and nothing pretends to be driven.
pub proof fn law_loading_stops_at_a_double(entries: Seq<Entry>, allocations: Seq<Allocation>)
    ensures
        ({
            let (held, double) = loaded(entries, allocations);
            &&& held.len() >= entries.len()
            &&& forall|i: int| 0 <= i < entries.len() ==> #[trigger] held[i] == entries[i]
            &&& held.len() - entries.len() <= allocations.len()
            &&& forall|i: int|
                entries.len() <= i < held.len() ==> {
                    &&& (#[trigger] held[i]).allocation == allocations[i - entries.len()]
                    &&& !held[i].is_supervised
                    &&& !held[i].is_terminalizing
                }
            &&& double is None <==> held.len() == entries.len() + allocations.len()
            &&& double matches Some(id) ==> {
                &&& id == allocations[held.len() - entries.len()].id
                &&& exists|i: int|
                    0 <= i < held.len() && (#[trigger] held[i]).allocation.id@ == id@
            }
        }),
    decreases allocations.len(),
{
    if allocations.len() > 0 {
        law_loading_stops_at_a_double(entries, allocations.drop_last());
        let (held, double) = loaded(entries, allocations.drop_last());
        let id = allocations.last().id;
        if double is None && is_resident(held, id@) {
            let i: int = choose|i: int| is_entry_of(held, id@, i);
            assert(held[i].allocation.id@ == id@);
        }
    }
}

/// An allocation a restart interrupted is driven to failure, whether or not it could
/// be marked; one whose teardown failed needs an operator, and nothing else does.
pub proof fn law_interrupted_work_fails(
    count: nat,
    place: usize,
    marked: Result<(), ManagerError>,
    requested: AllocationState,
    torn: Result<AllocationState, ManagerError>,
    step: RecoveryStep,
    event: RecoveryEvent,
)
    ensures
        recovery_next(count, RecoveryStep::Mark { place }, RecoveryEvent::Marked(marked)) == (
        RecoveryStep::TearDown { place, requested: AllocationState::Failed }),
        is_unreconciled(
            RecoveryStep::TearDown { place, requested },
            RecoveryEvent::TornDown(torn),
        ) <==> torn is Err,
        !(step is TearDown) || !(event is TornDown) ==> !is_unreconciled(step, event),
{
}

/// A record whose ID an entry or an earlier record already has is never taken over.
pub proof fn law_double_record_is_refused(
    entries: Seq<Entry>,
    allocations: Seq<Allocation>,
    i: int,
    j: int,
)
    requires
        0 <= j < allocations.len(),
        0 <= i < entries.len() + j,
        i < entries.len() ==> entries[i].allocation.id@ == allocations[j].id@,
        i >= entries.len() ==> allocations[i - entries.len()].id@ == allocations[j].id@,
    ensures
        loaded(entries, allocations).1 is Some,
    decreases allocations.len(),
{
    let rest = allocations.drop_last();
    if j < rest.len() {
        assert(rest[j] == allocations[j]);
        if i >= entries.len() {
            assert(rest[i - entries.len()] == allocations[i - entries.len()]);
        }
        law_double_record_is_refused(entries, rest, i, j);
    } else {
        law_loading_stops_at_a_double(entries, rest);
        let before = loaded(entries, rest);
        if before.1 is None {
            if i >= entries.len() {
                assert(rest[i - entries.len()] == allocations[i - entries.len()]);
            }
            assert(before.0[i].allocation.id@ == allocations.last().id@);
            assert(is_entry_of(before.0, allocations.last().id@, i));
        }
    }
}

/// A record without a profile is cleaned up by its own names, and authorizes nothing
/// else: no workflow, no event, no ref, no image, no pool and no sweep.
pub proof fn law_cleanup_authorizes_nothing(profile: Profile, allocation: Allocation)
    requires
        is_cleanup_only(profile, allocation),
    ensures
        profile.repository == allocation.request.repository,
        profile.template == allocation.vm_name,
        profile.runner_label == allocation.runner_label,
        profile.job_name@.len() == 0,
        profile.allowed_workflows@.len() == 0,
        profile.allowed_events@.len() == 0,
        profile.allowed_refs@.len() == 0,
        profile.allowed_ref_prefixes@.len() == 0,
        profile.require_protected_ref,
        profile.warm_template is None,
        profile.regeneration_workflow is None,
        profile.hot is None,
        !profile.reap,
        profile.boot_timeout_seconds == profile.cleanup_timeout_seconds,
        profile.idle_timeout_seconds == profile.cleanup_timeout_seconds,
        profile.job_timeout_seconds == profile.cleanup_timeout_seconds,
        profile.cleanup_timeout_seconds == FALLBACK_CLEANUP_TIMEOUT_SECONDS,
{
}

} // verus!
