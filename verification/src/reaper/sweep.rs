use vstd::prelude::*;

use crate::admission::probe::SECOND;
use crate::domain::allocation::{Allocation, AllocationId, ProfileName};
use crate::domain::hot::HotGuest;
use crate::domain::image::WarmImageRecord;
use crate::domain::profile::{Config, Profile};
use crate::error::{ManagerError, StoreError};
use crate::event::{EventKind, Fact, Payload};
use crate::hot::evict::{law_eviction_gets_the_widest_allowance, no_less, widest_cleanup,
    widest_cleanup_seconds};
use crate::names::NameSet;
use crate::reaper::images::{declared, declared_images, is_claimed, plan_pruned_records, prunable,
    PrunePlan};
use crate::reaper::plan::{is_reserved, law_needed_machine_is_never_planned,
    law_planned_has_a_ground_in_the_inputs, plan_sweep, planned, unaged, unaged_candidates,
    ReapAuthorization, ReapCandidate, ReapInputs};
use crate::service::AllocationManager;
use crate::state::Entry;
use crate::text::is_same_text;
use crate::worker::error::WorkerError;
use crate::worker::model::{HostMachine, ImageSweep, ReapRequest, RetiredImage};

verus! {

/// Why a pass could plan nothing, so an empty report is not read as a clean
/// host when the daemon simply cannot tell.
#[derive(Clone, Copy, Debug, PartialEq, Eq, Structural)]
pub enum SweepInertReason {
    /// No machine age is determinable.
    AgeUndeterminable,
}

#[derive(Debug, PartialEq, Eq)]
pub struct SweepReport {
    pub planned: Vec<ReapCandidate>,
    pub deleted: Vec<String>,
    pub skipped: Vec<String>,
    /// Prefix-owned names dropped for want of a determinable age. The sweep
    /// cannot apply its age gate to them, so it never collects them.
    pub unaged: Vec<String>,
    /// Warm image records dropped because nothing they name survives.
    pub pruned_records: Vec<ProfileName>,
    /// Warm generations the backend considered for retirement. Populated on a
    /// dry run too, with `is_deleted` false.
    pub retired_images: Vec<RetiredImage>,
    pub inert_reason: Option<SweepInertReason>,
    pub finished_at_unix: u64,
}

impl SweepReport {
    /// That the sweep ended, with how many of each it reports.
    pub open spec fn end_fact(&self) -> Fact {
        Fact {
            kind: EventKind::ReaperSweep,
            allocation_id: None,
            vm_name: None,
            profile: None,
            payload: Payload::Sweep {
                planned: self.planned@.len() as usize,
                deleted: self.deleted@.len() as usize,
                skipped: self.skipped@.len() as usize,
                unaged: self.unaged@.len() as usize,
                pruned_records: self.pruned_records@.len() as usize,
                retired_images: self.retired_images@.len() as usize,
            },
        }
    }

    /// The facts a sweep leaves: each deletion, in the order they were made, and
    /// then its end. A dry run leaves none.
    pub open spec fn leaves(&self, is_dry_run: bool) -> Seq<Fact> {
        if is_dry_run {
            Seq::empty()
        } else {
            Seq::new(self.deleted@.len(), |i: int| Fact::deletion(self.deleted@[i])).push(
                self.end_fact(),
            )
        }
    }

    /// The facts a sweep leaves, to be told once its report stands.
    pub fn facts(&self, is_dry_run: bool) -> (facts: Vec<Fact>)
        ensures
            facts@ == self.leaves(is_dry_run),
    {
        let mut facts: Vec<Fact> = Vec::new();
        if is_dry_run {
            return facts;
        }
        let ghost deletions: Seq<Fact> = Seq::new(
            self.deleted@.len(),
            |i: int| Fact::deletion(self.deleted@[i]),
        );
        let mut i: usize = 0;
        while i < self.deleted.len()
            invariant
                i <= self.deleted@.len(),
                deletions == Seq::new(
                    self.deleted@.len(),
                    |i: int| Fact::deletion(self.deleted@[i]),
                ),
                facts@ == deletions.take(i as int),
            decreases self.deleted@.len() - i,
        {
            facts.push(Fact::deleted(&self.deleted[i]));
            assert(deletions.take(i + 1) =~= deletions.take(i as int).push(deletions[i as int]));
            i = i + 1;
        }
        assert(deletions.take(deletions.len() as int) =~= deletions);
        facts.push(
            Fact {
                kind: EventKind::ReaperSweep,
                allocation_id: None,
                vm_name: None,
                profile: None,
                payload: Payload::Sweep {
                    planned: self.planned.len(),
                    deleted: self.deleted.len(),
                    skipped: self.skipped.len(),
                    unaged: self.unaged.len(),
                    pruned_records: self.pruned_records.len(),
                    retired_images: self.retired_images.len(),
                },
            },
        );
        facts
    }
}

/// What a sweep does before anything of it is planned.
#[derive(Clone, Copy, Debug, PartialEq, Eq, Structural)]
pub enum SweepOpening {
    /// Apply the pool's bounds: a machine past one gives its slot back without
    /// an operator asking.
    Bound,
    /// Read the image records, the pool's records and the host listing.
    Read,
}

/// How a sweep opens. A dry run reports rather than acts, so it reads at once.
pub open spec fn opening(is_dry_run: bool) -> SweepOpening {
    if is_dry_run {
        SweepOpening::Read
    } else {
        SweepOpening::Bound
    }
}

/// How a sweep opens.
pub fn open_sweep(is_dry_run: bool) -> (first: SweepOpening)
    ensures
        first == opening(is_dry_run),
{
    if is_dry_run {
        SweepOpening::Read
    } else {
        SweepOpening::Bound
    }
}

/// What follows the bounds: the reading. They come to what they come to.
pub fn next_opening(step: SweepOpening) -> (next: SweepOpening)
    ensures
        next is Read,
{
    match step {
        SweepOpening::Bound => SweepOpening::Read,
        SweepOpening::Read => SweepOpening::Read,
    }
}

/// Can the backend date none of the machines it lists?
pub open spec fn is_inert(machines: Seq<HostMachine>) -> bool {
    machines.len() > 0 && forall|i: int|
        0 <= i < machines.len() ==> (#[trigger] machines[i]).age_seconds is None
}

/// A backend that can age nothing at all leaves the planner nothing to work
/// with, so the pass is inert rather than clean.
pub fn inert_reason(machines: &Vec<HostMachine>) -> (reason: Option<SweepInertReason>)
    ensures
        reason == if is_inert(machines@) {
            Some(SweepInertReason::AgeUndeterminable)
        } else {
            None::<SweepInertReason>
        },
{
    if machines.len() == 0 {
        return None;
    }
    let mut i: usize = 0;
    while i < machines.len()
        invariant
            i <= machines@.len(),
            forall|k: int| 0 <= k < i ==> (#[trigger] machines@[k]).age_seconds is None,
        decreases machines@.len() - i,
    {
        if machines[i].age_seconds.is_some() {
            assert(machines@[i as int].age_seconds is Some);
            return None;
        }
        i = i + 1;
    }
    Some(SweepInertReason::AgeUndeterminable)
}

/// The next thing a sweep does.
#[derive(Clone, Copy, Debug, PartialEq, Eq, Structural)]
pub enum SweepStep {
    /// Delete the candidate of this place, after planning it once more.
    Reap { place: usize },
    /// Plan which image records to drop.
    PlanPrune,
    /// Remove the image record of the prunable profile of this place.
    RemoveRecord { place: usize },
    /// Let the backend retire superseded generations, and finish.
    SweepImages,
}

/// A sweep under way: what it planned, and what came of it so far.
pub struct SweepRun {
    pub is_dry_run: bool,
    /// The image records the pass read.
    pub images: Vec<WarmImageRecord>,
    /// The host as the pass found it.
    pub machines: Vec<HostMachine>,
    pub planned: Vec<ReapCandidate>,
    pub unaged: Vec<String>,
    pub inert_reason: Option<SweepInertReason>,
    /// For each candidate handled so far, whether it was deleted.
    pub outcomes: Vec<bool>,
    pub prune: Option<PrunePlan>,
    /// For each prunable record handled so far, whether it was removed.
    pub removals: Vec<bool>,
}

/// The first of a pass's readings that failed, as the error the pass ends with.
pub open spec fn unread(
    images: Result<Vec<WarmImageRecord>, StoreError>,
    hot: Result<Vec<HotGuest>, StoreError>,
    machines: Result<Vec<HostMachine>, WorkerError>,
) -> Option<ManagerError> {
    match (images, hot, machines) {
        (Err(error), _, _) => Some(ManagerError::Store(error)),
        (Ok(_), Err(error), _) => Some(ManagerError::Store(error)),
        (Ok(_), Ok(_), Err(error)) => Some(ManagerError::Worker(error)),
        (Ok(_), Ok(_), Ok(_)) => None,
    }
}

/// What a run does next.
pub open spec fn sweep_next(run: SweepRun) -> SweepStep {
    if !run.is_dry_run && run.outcomes@.len() < run.planned@.len() {
        SweepStep::Reap { place: run.outcomes@.len() as usize }
    } else {
        match run.prune {
            None => SweepStep::PlanPrune,
            Some(plan) => if !run.is_dry_run && run.removals@.len() < plan.prunable@.len() {
                SweepStep::RemoveRecord { place: run.removals@.len() as usize }
            } else {
                SweepStep::SweepImages
            },
        }
    }
}

/// The candidates' names whose outcome is the one asked for.
pub open spec fn names_with(
    candidates: Seq<ReapCandidate>,
    outcomes: Seq<bool>,
    is_deleted: bool,
) -> Seq<String>
    decreases outcomes.len(),
{
    if outcomes.len() == 0 {
        Seq::empty()
    } else {
        let rest = names_with(candidates, outcomes.drop_last(), is_deleted);
        if outcomes.last() == is_deleted {
            rest.push(candidates[outcomes.len() - 1].name)
        } else {
            rest
        }
    }
}

/// The prunable profiles whose record was removed.
pub open spec fn removed_of(profiles: Seq<ProfileName>, removals: Seq<bool>) -> Seq<ProfileName>
    decreases removals.len(),
{
    if removals.len() == 0 {
        Seq::empty()
    } else {
        let rest = removed_of(profiles, removals.drop_last());
        if removals.last() {
            rest.push(profiles[removals.len() - 1])
        } else {
            rest
        }
    }
}

impl SweepRun {
    /// No more came of a run than it planned.
    pub open spec fn wf(&self) -> bool {
        &&& self.outcomes@.len() <= self.planned@.len()
        &&& self.prune matches Some(plan) ==> self.removals@.len() <= plan.prunable@.len()
        &&& self.prune is None ==> self.removals@.len() == 0
        &&& self.is_dry_run ==> self.outcomes@.len() == 0 && self.removals@.len() == 0
    }

    /// Is this a run that was just planned over these records and this listing?
    pub open spec fn is_begun(
        &self,
        is_dry_run: bool,
        config: Config,
        allocations: Seq<Allocation>,
        images: Seq<WarmImageRecord>,
        hot: Seq<HotGuest>,
        machines: Seq<HostMachine>,
    ) -> bool {
        &&& self.is_dry_run == is_dry_run
        &&& self.images@ == images
        &&& self.machines@ == machines
        &&& self.planned@ == planned(config, machines, allocations, images, hot)
        &&& self.unaged@ == unaged(config, machines, allocations, hot)
        &&& self.inert_reason == if is_inert(machines) {
            Some(SweepInertReason::AgeUndeterminable)
        } else {
            None::<SweepInertReason>
        }
        &&& self.outcomes@.len() == 0
        &&& self.prune is None
        &&& self.removals@.len() == 0
    }

    /// Plans a sweep of what was read: the image records, then the pool's, then
    /// the host listing. The first of them that could not be read ends the sweep,
    /// because an unreadable authority is not an empty one. A dry run plans
    /// exactly what a deleting one does.
    pub fn begin(
        is_dry_run: bool,
        config: &Config,
        allocations: &Vec<Allocation>,
        images: Result<Vec<WarmImageRecord>, StoreError>,
        hot: Result<Vec<HotGuest>, StoreError>,
        machines: Result<Vec<HostMachine>, WorkerError>,
    ) -> (begun: Result<SweepRun, ManagerError>)
        ensures
            match unread(images, hot, machines) {
                Some(error) => begun == Err::<SweepRun, ManagerError>(error),
                None => begun matches Ok(run) && run.wf() && run.is_begun(
                    is_dry_run,
                    *config,
                    allocations@,
                    images->Ok_0@,
                    hot->Ok_0@,
                    machines->Ok_0@,
                ),
            },
    {
        let images: Vec<WarmImageRecord> = match images {
            Ok(records) => records,
            Err(error) => return Err(ManagerError::Store(error)),
        };
        let hot: Vec<HotGuest> = match hot {
            Ok(guests) => guests,
            Err(error) => return Err(ManagerError::Store(error)),
        };
        let machines: Vec<HostMachine> = match machines {
            Ok(listed) => listed,
            Err(error) => return Err(ManagerError::Worker(error)),
        };
        let inputs: ReapInputs = ReapInputs {
            config,
            machines: &machines,
            allocations,
            images: &images,
            hot: &hot,
        };
        let planned: Vec<ReapCandidate> = plan_sweep(&inputs);
        let unaged: Vec<String> = unaged_candidates(&inputs);
        let inert_reason: Option<SweepInertReason> = inert_reason(&machines);
        Ok(
            SweepRun {
                is_dry_run,
                images,
                machines,
                planned,
                unaged,
                inert_reason,
                outcomes: Vec::new(),
                prune: None,
                removals: Vec::new(),
            },
        )
    }

    /// What a run does next.
    pub fn next(&self) -> (step: SweepStep)
        ensures
            step == sweep_next(*self),
    {
        if !self.is_dry_run && self.outcomes.len() < self.planned.len() {
            return SweepStep::Reap { place: self.outcomes.len() };
        }
        match &self.prune {
            None => SweepStep::PlanPrune,
            Some(plan) => if !self.is_dry_run && self.removals.len() < plan.prunable.len() {
                SweepStep::RemoveRecord { place: self.removals.len() }
            } else {
                SweepStep::SweepImages
            },
        }
    }

    /// Takes in what came of the candidate whose turn it was. A deletion that
    /// failed is one that was skipped.
    pub fn reaped(&mut self, outcome: &Result<bool, ManagerError>)
        requires
            old(self).wf(),
            sweep_next(*old(self)) is Reap,
        ensures
            final(self).wf(),
            *final(self) == (SweepRun { outcomes: final(self).outcomes, ..*old(self) }),
            final(self).outcomes@ == old(self).outcomes@.push(
                *outcome matches Ok(is_deleted) && is_deleted,
            ),
    {
        let is_deleted: bool = match outcome {
            Ok(is_deleted) => *is_deleted,
            Err(_) => false,
        };
        self.outcomes.push(is_deleted);
    }

    /// Plans which image records to drop, over the records and the listing the
    /// pass read and the configuration as it is now. A dry run has the plan too,
    /// and only does not apply it.
    pub fn plan_prune(&mut self, config: &Config, regenerating: &NameSet)
        requires
            old(self).wf(),
            sweep_next(*old(self)) is PlanPrune,
        ensures
            final(self).wf(),
            *final(self) == (SweepRun { prune: final(self).prune, ..*old(self) }),
            final(self).prune matches Some(plan) && plan.prunable@ == prunable(
                old(self).images@,
                *config,
                old(self).machines@,
                regenerating@,
            ) && plan.claimed.wf() && forall|profile: Seq<char>| #[trigger]
                plan.claimed@.contains(profile) <==> is_claimed(
                    old(self).images@,
                    *config,
                    old(self).machines@,
                    regenerating@,
                    profile,
                ),
    {
        self.prune = Some(plan_pruned_records(config, &self.images, &self.machines, regenerating));
    }

    /// Takes in whether the record whose turn it was is gone.
    pub fn record_removed(&mut self, is_removed: bool)
        requires
            old(self).wf(),
            sweep_next(*old(self)) is RemoveRecord,
        ensures
            final(self).wf(),
            *final(self) == (SweepRun { removals: final(self).removals, ..*old(self) }),
            final(self).removals@ == old(self).removals@.push(is_removed),
    {
        self.removals.push(is_removed);
    }

    fn names(&self, is_deleted: bool) -> (names: Vec<String>)
        requires
            self.wf(),
        ensures
            names@ == names_with(self.planned@, self.outcomes@, is_deleted),
    {
        let mut names: Vec<String> = Vec::new();
        let mut i: usize = 0;
        while i < self.outcomes.len()
            invariant
                self.wf(),
                i <= self.outcomes@.len(),
                names@ == names_with(self.planned@, self.outcomes@.take(i as int), is_deleted),
            decreases self.outcomes@.len() - i,
        {
            proof {
                assert(self.outcomes@.take(i + 1).drop_last() =~= self.outcomes@.take(i as int));
                assert(self.outcomes@.take(i + 1).last() == self.outcomes@[i as int]);
            }
            if self.outcomes[i] == is_deleted {
                names.push(self.planned[i].name.clone());
            }
            i = i + 1;
        }
        assert(self.outcomes@.take(self.outcomes@.len() as int) =~= self.outcomes@);
        names
    }

    fn removed(&self) -> (profiles: Vec<ProfileName>)
        requires
            self.wf(),
        ensures
            profiles@ == match self.prune {
                Some(plan) => removed_of(plan.prunable@, self.removals@),
                None => Seq::<ProfileName>::empty(),
            },
    {
        let mut profiles: Vec<ProfileName> = Vec::new();
        if let Some(plan) = &self.prune {
            let mut i: usize = 0;
            while i < self.removals.len()
                invariant
                    self.removals@.len() <= plan.prunable@.len(),
                    i <= self.removals@.len(),
                    profiles@ == removed_of(plan.prunable@, self.removals@.take(i as int)),
                decreases self.removals@.len() - i,
            {
                proof {
                    assert(self.removals@.take(i + 1).drop_last() =~= self.removals@.take(
                        i as int,
                    ));
                    assert(self.removals@.take(i + 1).last() == self.removals@[i as int]);
                }
                if self.removals[i] {
                    profiles.push(plan.prunable[i].clone());
                }
                i = i + 1;
            }
            assert(self.removals@.take(self.removals@.len() as int) =~= self.removals@);
        }
        profiles
    }

    /// The request that lets the backend retire superseded generations. It runs
    /// once the prune is decided, so a pointer whose profile stopped declaring
    /// a warm image is collected in the pass that drops its record.
    pub fn image_sweep(&self, config: &Config) -> (request: ImageSweep)
        ensures
            request.is_dry_run == self.is_dry_run,
            request.declared@ == declared(config.profiles@),
            request.claimed@ == match self.prune {
                Some(plan) => plan.claimed@,
                None => Set::<Seq<char>>::empty(),
            },
    {
        let claimed: NameSet = match &self.prune {
            Some(plan) => plan.claimed.copied(),
            None => NameSet::new(),
        };
        ImageSweep { is_dry_run: self.is_dry_run, declared: declared_images(config), claimed }
    }

    /// The report of a run that has nothing left to do.
    pub fn report(self, retired_images: Vec<RetiredImage>, now: u64) -> (report: SweepReport)
        requires
            self.wf(),
            sweep_next(self) is SweepImages,
        ensures
            report.planned == self.planned,
            report.deleted@ == names_with(self.planned@, self.outcomes@, true),
            report.skipped@ == names_with(self.planned@, self.outcomes@, false),
            report.unaged == self.unaged,
            report.pruned_records@ == removed_of(self.prune.unwrap().prunable@, self.removals@),
            report.retired_images == retired_images,
            report.inert_reason == self.inert_reason,
            report.finished_at_unix == now,
    {
        let deleted: Vec<String> = self.names(true);
        let skipped: Vec<String> = self.names(false);
        let pruned_records: Vec<ProfileName> = self.removed();
        SweepReport {
            planned: self.planned,
            deleted,
            skipped,
            unaged: self.unaged,
            pruned_records,
            retired_images,
            inert_reason: self.inert_reason,
            finished_at_unix: now,
        }
    }
}

/// The first allocation of this ID.
pub open spec fn allocation_of(allocations: Seq<Allocation>, id: Seq<char>) -> Option<Allocation>
    decreases allocations.len(),
{
    if allocations.len() == 0 {
        None
    } else {
        match allocation_of(allocations.drop_last(), id) {
            Some(found) => Some(found),
            None => if allocations.last().id@ == id {
                Some(allocations.last())
            } else {
                None
            },
        }
    }
}

fn find_allocation<'a>(allocations: &'a Vec<Allocation>, id: &AllocationId) -> (found: Option<
    &'a Allocation,
>)
    ensures
        match found {
            Some(allocation) => allocation_of(allocations@, id@) == Some(*allocation),
            None => allocation_of(allocations@, id@) is None,
        },
{
    let mut found: Option<&'a Allocation> = None;
    let mut i: usize = 0;
    while i < allocations.len()
        invariant
            i <= allocations@.len(),
            match found {
                Some(allocation) => allocation_of(allocations@.take(i as int), id@) == Some(
                    *allocation,
                ),
                None => allocation_of(allocations@.take(i as int), id@) is None,
            },
        decreases allocations@.len() - i,
    {
        let allocation: &'a Allocation = &allocations[i];
        proof {
            assert(allocations@.take(i + 1).drop_last() =~= allocations@.take(i as int));
            assert(allocations@.take(i + 1).last() == *allocation);
        }
        if found.is_none() && allocation.id == *id {
            found = Some(allocation);
        }
        i = i + 1;
    }
    assert(allocations@.take(allocations@.len() as int) =~= allocations@);
    found
}

/// The first image record of this profile.
pub open spec fn record_of(images: Seq<WarmImageRecord>, profile: Seq<char>) -> Option<
    WarmImageRecord,
>
    decreases images.len(),
{
    if images.len() == 0 {
        None
    } else {
        match record_of(images.drop_last(), profile) {
            Some(found) => Some(found),
            None => if images.last().profile@ == profile {
                Some(images.last())
            } else {
                None
            },
        }
    }
}

fn find_record<'a>(images: &'a Vec<WarmImageRecord>, profile: &str) -> (found: Option<
    &'a WarmImageRecord,
>)
    ensures
        match found {
            Some(record) => record_of(images@, profile@) == Some(*record),
            None => record_of(images@, profile@) is None,
        },
{
    let mut found: Option<&'a WarmImageRecord> = None;
    let mut i: usize = 0;
    while i < images.len()
        invariant
            i <= images@.len(),
            match found {
                Some(record) => record_of(images@.take(i as int), profile@) == Some(*record),
                None => record_of(images@.take(i as int), profile@) is None,
            },
        decreases images@.len() - i,
    {
        let record: &'a WarmImageRecord = &images[i];
        proof {
            assert(images@.take(i + 1).drop_last() =~= images@.take(i as int));
            assert(images@.take(i + 1).last() == *record);
        }
        if found.is_none() && is_same_text(record.profile.as_str(), profile) {
            found = Some(record);
        }
        i = i + 1;
    }
    assert(images@.take(images@.len() as int) =~= images@);
    found
}

/// Does a plan hold this candidate on the same ground?
pub open spec fn is_still_planned(fresh: Seq<ReapCandidate>, candidate: ReapCandidate) -> bool {
    exists|i: int|
        0 <= i < fresh.len() && (#[trigger] fresh[i]).name@ == candidate.name@
            && fresh[i].authorization.same_as(&candidate.authorization)
}

fn is_candidate_planned(fresh: &Vec<ReapCandidate>, candidate: &ReapCandidate) -> (is: bool)
    ensures
        is == is_still_planned(fresh@, *candidate),
{
    let mut i: usize = 0;
    while i < fresh.len()
        invariant
            i <= fresh@.len(),
            forall|k: int|
                0 <= k < i ==> !((#[trigger] fresh@[k]).name@ == candidate.name@
                    && fresh@[k].authorization.same_as(&candidate.authorization)),
        decreases fresh@.len() - i,
    {
        if fresh[i].name == candidate.name && fresh[i].authorization.is_same(
            &candidate.authorization,
        ) {
            assert(fresh@[i as int].name@ == candidate.name@);
            return true;
        }
        i = i + 1;
    }
    false
}

/// The profile a deletion is made for: the one its image is of, or the one the
/// finished allocation was of.
pub open spec fn reap_profile(
    authorization: ReapAuthorization,
    allocations: Seq<Allocation>,
    config: Config,
) -> Option<Profile> {
    match authorization {
        ReapAuthorization::Staging(profile) => config.named(profile@),
        ReapAuthorization::Image(profile) => config.named(profile@),
        ReapAuthorization::Record(id) => match allocation_of(allocations, id@) {
            Some(allocation) => config.named(allocation.request.profile@),
            None => None,
        },
        ReapAuthorization::Prefix => None,
    }
}

/// The image record a deletion rests on.
pub open spec fn reap_record(authorization: ReapAuthorization, images: Seq<WarmImageRecord>) -> Option<
    WarmImageRecord,
> {
    match authorization {
        ReapAuthorization::Staging(profile) => record_of(images, profile@),
        ReapAuthorization::Image(profile) => record_of(images, profile@),
        _ => None,
    }
}

/// The finished allocation a deletion rests on.
pub open spec fn reap_allocation(
    authorization: ReapAuthorization,
    allocations: Seq<Allocation>,
) -> Option<Allocation> {
    match authorization {
        ReapAuthorization::Record(id) => allocation_of(allocations, id@),
        _ => None,
    }
}

/// The seconds a deletion gets: its profile's own allowance, or else the widest
/// configured one, and never less than the backend's minimum.
pub open spec fn allowance_of(config: Config, profile: Option<Profile>, minimum_seconds: u64) -> u64 {
    no_less(
        match profile {
            Some(profile) => Some(profile.cleanup_timeout_seconds),
            None => widest_cleanup(config.profiles@),
        },
        minimum_seconds,
    )
}

/// The teardown allowance a deletion gets, in seconds. A guest one of the
/// daemon's profiles still names is torn down on that profile's allowance; an
/// orphan none names gets the widest configured one, because the shared minimum
/// cannot cover a stop, an undefine, and two volume deletes. A running shutdown
/// caps whatever this returns.
pub fn cleanup_allowance(config: &Config, profile: Option<&Profile>, minimum_seconds: u64) -> (seconds:
    u64)
    ensures
        seconds == allowance_of(
            *config,
            match profile {
                Some(profile) => Some(*profile),
                None => None::<Profile>,
            },
            minimum_seconds,
        ),
{
    let chosen: Option<u64> = match profile {
        Some(profile) => Some(profile.cleanup_timeout_seconds),
        None => widest_cleanup_seconds(config),
    };
    match chosen {
        Some(seconds) => if seconds >= minimum_seconds {
            seconds
        } else {
            minimum_seconds
        },
        None => minimum_seconds,
    }
}

/// The allocations of these entries, in their order.
pub open spec fn allocations_of(entries: Seq<Entry>) -> Seq<Allocation> {
    Seq::new(entries.len(), |i: int| entries[i].allocation)
}

impl AllocationManager {
    /// Every resident record.
    pub fn allocation_snapshot(&self) -> (allocations: Vec<Allocation>)
        ensures
            allocations@ == allocations_of(self.entries@),
    {
        let mut allocations: Vec<Allocation> = Vec::new();
        let mut i: usize = 0;
        while i < self.entries.len()
            invariant
                i <= self.entries@.len(),
                allocations@ == allocations_of(self.entries@).take(i as int),
            decreases self.entries@.len() - i,
        {
            allocations.push(self.entries[i].allocation.clone());
            assert(allocations_of(self.entries@).take(i + 1) =~= allocations_of(
                self.entries@,
            ).take(i as int).push(allocations_of(self.entries@)[i as int]));
            i = i + 1;
        }
        assert(allocations@ =~= allocations_of(self.entries@));
        allocations
    }

    /// Sweeps unreferenced clones and images: the run over what was read, or why
    /// there is none. The manager stands as it did either way, so a sweep that
    /// could not read leaves the report of the last one in place.
    pub fn sweep(
        &self,
        is_dry_run: bool,
        config: &Config,
        images: Result<Vec<WarmImageRecord>, StoreError>,
        hot: Result<Vec<HotGuest>, StoreError>,
        machines: Result<Vec<HostMachine>, WorkerError>,
    ) -> (begun: Result<SweepRun, ManagerError>)
        ensures
            match unread(images, hot, machines) {
                Some(error) => begun == Err::<SweepRun, ManagerError>(error),
                None => begun matches Ok(run) && run.wf() && run.is_begun(
                    is_dry_run,
                    *config,
                    allocations_of(self.entries@),
                    images->Ok_0@,
                    hot->Ok_0@,
                    machines->Ok_0@,
                ),
            },
    {
        SweepRun::begin(is_dry_run, config, &self.allocation_snapshot(), images, hot, machines)
    }

    /// The deletion of one candidate, after planning once more against a fresh
    /// snapshot, so a name claimed since the plan was computed is left alone:
    /// then there is none. Nor is there one for a listed name that no machine of
    /// the daemon can have. This narrows the window rather than closing it.
    pub fn reap<'a>(
        &self,
        candidate: &'a ReapCandidate,
        is_name_valid: bool,
        inputs: &ReapInputs<'a>,
        reserved: &'a NameSet,
        minimum_seconds: u64,
    ) -> (request: Option<ReapRequest<'a>>)
        requires
            forall|name: Seq<char>| #[trigger] reserved@.contains(name) <==> is_reserved(
                inputs.config.profiles@,
                name,
            ),
        ensures
            request is Some <==> is_name_valid && is_still_planned(
                planned(
                    *inputs.config,
                    inputs.machines@,
                    inputs.allocations@,
                    inputs.images@,
                    inputs.hot@,
                ),
                *candidate,
            ),
            request matches Some(deletion) ==> {
                let profile = reap_profile(
                    candidate.authorization,
                    inputs.allocations@,
                    *inputs.config,
                );
                &&& *deletion.name == candidate.name
                &&& *deletion.authorization == candidate.authorization
                &&& match deletion.profile {
                    Some(found) => profile == Some(*found),
                    None => profile is None,
                }
                &&& match deletion.record {
                    Some(found) => reap_record(candidate.authorization, inputs.images@) == Some(
                        *found,
                    ),
                    None => reap_record(candidate.authorization, inputs.images@) is None,
                }
                &&& match deletion.allocation {
                    Some(found) => reap_allocation(candidate.authorization, inputs.allocations@)
                        == Some(*found),
                    None => reap_allocation(candidate.authorization, inputs.allocations@) is None,
                }
                &&& *deletion.reserved == *reserved
                &&& deletion.budget == self.budget_of(
                    (allowance_of(*inputs.config, profile, minimum_seconds) * SECOND) as u128,
                )
            },
    {
        if !is_name_valid {
            return None;
        }
        let fresh: Vec<ReapCandidate> = plan_sweep(inputs);
        if !is_candidate_planned(&fresh, candidate) {
            return None;
        }
        let profile_name: Option<&'a ProfileName> = match &candidate.authorization {
            ReapAuthorization::Staging(profile) => Some(profile),
            ReapAuthorization::Image(profile) => Some(profile),
            _ => None,
        };
        let reaped: Option<&'a Allocation> = match &candidate.authorization {
            ReapAuthorization::Record(id) => find_allocation(inputs.allocations, id),
            _ => None,
        };
        let profile: Option<&'a Profile> = match reaped {
            Some(allocation) => inputs.config.find(allocation.request.profile.as_str()),
            None => match profile_name {
                Some(name) => inputs.config.find(name.as_str()),
                None => None,
            },
        };
        let record: Option<&'a WarmImageRecord> = match profile_name {
            Some(name) => find_record(inputs.images, name.as_str()),
            None => None,
        };
        let seconds: u64 = cleanup_allowance(inputs.config, profile, minimum_seconds);
        Some(
            ReapRequest {
                name: &candidate.name,
                authorization: &candidate.authorization,
                profile,
                record,
                allocation: reaped,
                reserved,
                budget: self.teardown_budget(seconds as u128 * SECOND),
            },
        )
    }
}

/// The pool's bounds open a sweep exactly where it deletes, so a dry run touches
/// no machine of the pool.
pub proof fn law_only_a_deleting_sweep_bounds_the_pool(is_dry_run: bool)
    ensures
        opening(is_dry_run) is Bound <==> !is_dry_run,
{
}

/// A dry run is no part of the history: whatever it reports, it leaves no fact,
/// and a deleting sweep leaves one for each deletion and one for its end.
pub proof fn law_only_a_deleting_sweep_is_told(report: SweepReport, is_dry_run: bool)
    ensures
        is_dry_run ==> report.leaves(is_dry_run).len() == 0,
        !is_dry_run ==> report.leaves(is_dry_run).len() == report.deleted@.len() + 1
            && report.leaves(is_dry_run).last() == report.end_fact(),
{
}

/// A dry run deletes nothing: it never comes to a deletion or to the removal of
/// a record, and its report lists none.
pub proof fn law_dry_run_deletes_nothing(run: SweepRun)
    requires
        run.wf(),
        run.is_dry_run,
    ensures
        !(sweep_next(run) is Reap),
        !(sweep_next(run) is RemoveRecord),
        names_with(run.planned@, run.outcomes@, true).len() == 0,
        names_with(run.planned@, run.outcomes@, false).len() == 0,
        run.prune matches Some(plan) ==> removed_of(plan.prunable@, run.removals@).len() == 0,
{
}

/// What a deleting run reports adds up: each candidate of a finished run was
/// deleted or skipped, and none was both.
pub proof fn law_every_candidate_is_accounted_for(candidates: Seq<ReapCandidate>, outcomes: Seq<bool>)
    ensures
        names_with(candidates, outcomes, true).len() + names_with(candidates, outcomes, false).len()
            == outcomes.len(),
    decreases outcomes.len(),
{
    if outcomes.len() > 0 {
        law_every_candidate_is_accounted_for(candidates, outcomes.drop_last());
    }
}

/// A name that something claimed since the plan was made is not deleted: what
/// the fresh snapshot protects, it does not plan again.
pub proof fn law_claimed_since_is_left_alone(
    config: Config,
    machines: Seq<HostMachine>,
    allocations: Seq<Allocation>,
    images: Seq<WarmImageRecord>,
    hot: Seq<HotGuest>,
    candidate: ReapCandidate,
)
    requires
        crate::reaper::plan::is_protected(config, allocations, hot, candidate.name@),
    ensures
        !is_still_planned(planned(config, machines, allocations, images, hot), candidate),
{
    let fresh = planned(config, machines, allocations, images, hot);
    if is_still_planned(fresh, candidate) {
        let i: int = choose|i: int|
            0 <= i < fresh.len() && (#[trigger] fresh[i]).name@ == candidate.name@
                && fresh[i].authorization.same_as(&candidate.authorization);
        crate::reaper::plan::law_protected_is_never_planned(
            config,
            machines,
            allocations,
            images,
            hot,
            i,
        );
    }
}

/// A sweep begins only where everything it goes by was read: one unreadable
/// record store or listing ends it, and an empty one does not.
pub proof fn law_unreadable_authority_ends_the_sweep(
    images: Result<Vec<WarmImageRecord>, StoreError>,
    hot: Result<Vec<HotGuest>, StoreError>,
    machines: Result<Vec<HostMachine>, WorkerError>,
)
    ensures
        unread(images, hot, machines) is Some <==> images is Err || hot is Err || machines is Err,
{
}

/// A deletion is made only where a fresh look still finds nobody who needs the
/// machine: no unfinished allocation, no pool record that is not evicted, no
/// profile's template, warm image or generation before it bears its name, and the
/// host lists it and dates it at an hour or more.
pub proof fn law_deletion_has_a_fresh_ground(
    config: Config,
    machines: Seq<HostMachine>,
    allocations: Seq<Allocation>,
    images: Seq<WarmImageRecord>,
    hot: Seq<HotGuest>,
    candidate: ReapCandidate,
)
    requires
        is_still_planned(planned(config, machines, allocations, images, hot), candidate),
    ensures
        forall|j: int|
            0 <= j < hot.len() && (#[trigger] hot[j]).vm_name@ == candidate.name@
                ==> hot[j].state is Evicted,
        forall|j: int|
            0 <= j < allocations.len() && (#[trigger] allocations[j]).vm_name@ == candidate.name@
                ==> allocations[j].state is Completed || allocations[j].state is Failed
                || allocations[j].state is Cancelled,
        forall|j: int|
            0 <= j < config.profiles@.len() ==> {
                &&& (#[trigger] config.profiles@[j]).profile.template@ != candidate.name@
                &&& config.profiles@[j].profile.warm_template matches Some(warm) ==> {
                    &&& warm.name@ != candidate.name@
                    &&& warm.previous matches Some(previous) ==> previous@ != candidate.name@
                }
            },
        exists|k: int|
            0 <= k < machines.len() && (#[trigger] machines[k]).name@ == candidate.name@ && (
            machines[k].age_seconds matches Some(age) && age >= 3_600),
{
    let fresh = planned(config, machines, allocations, images, hot);
    let i: int = choose|i: int|
        0 <= i < fresh.len() && (#[trigger] fresh[i]).name@ == candidate.name@
            && fresh[i].authorization.same_as(&candidate.authorization);
    law_needed_machine_is_never_planned(config, machines, allocations, images, hot, i);
    law_planned_has_a_ground_in_the_inputs(config, machines, allocations, images, hot, i);
    let k: int = choose|k: int|
        0 <= k < machines.len() && (#[trigger] machines[k]).name == fresh[i].name
            && machines[k].state == fresh[i].state && machines[k].age_seconds == Some(
            fresh[i].age_seconds,
        );
    assert(machines[k].name@ == candidate.name@);
}

/// A plan still holds a candidate exactly where it names the machine again and for
/// the same reason: of the same finished allocation, the same profile's candidate,
/// the same profile's image, or the prefix both times.
pub proof fn law_ground_must_be_the_same(fresh: Seq<ReapCandidate>, candidate: ReapCandidate, i: int)
    ensures
        0 <= i < fresh.len() && fresh[i].name@ == candidate.name@ && fresh[i].authorization
            == candidate.authorization ==> is_still_planned(fresh, candidate),
        is_still_planned(fresh, candidate) ==> exists|k: int|
            0 <= k < fresh.len() && (#[trigger] fresh[k]).name@ == candidate.name@ && match (
                fresh[k].authorization,
                candidate.authorization,
            ) {
                (ReapAuthorization::Record(a), ReapAuthorization::Record(b)) => a@ == b@,
                (ReapAuthorization::Staging(a), ReapAuthorization::Staging(b)) => a@ == b@,
                (ReapAuthorization::Image(a), ReapAuthorization::Image(b)) => a@ == b@,
                (ReapAuthorization::Prefix, ReapAuthorization::Prefix) => true,
                _ => false,
            },
{
    if is_still_planned(fresh, candidate) {
        let k: int = choose|k: int|
            0 <= k < fresh.len() && (#[trigger] fresh[k]).name@ == candidate.name@
                && fresh[k].authorization.same_as(&candidate.authorization);
        assert(fresh[k].name@ == candidate.name@);
    }
    if 0 <= i < fresh.len() && fresh[i].name@ == candidate.name@ && fresh[i].authorization
        == candidate.authorization {
        assert(fresh[i].authorization.same_as(&candidate.authorization));
    }
}

/// What a sweep does next, told by what it is: a deletion only while a deleting
/// sweep has candidates left, in their order; the records are planned once all of
/// them were handled; a record goes only while a deleting sweep has some left; the
/// images come last.
pub proof fn law_sweep_goes_in_order(run: SweepRun)
    requires
        run.wf(),
        run.planned@.len() <= usize::MAX,
        run.prune matches Some(plan) ==> plan.prunable@.len() <= usize::MAX,
    ensures
        sweep_next(run) matches SweepStep::Reap { place } ==> !run.is_dry_run && place
            == run.outcomes@.len() && place < run.planned@.len(),
        sweep_next(run) is PlanPrune <==> run.prune is None && (run.is_dry_run
            || run.outcomes@.len() == run.planned@.len()),
        sweep_next(run) matches SweepStep::RemoveRecord { place } ==> !run.is_dry_run
            && run.outcomes@.len() == run.planned@.len() && run.prune is Some && place
            == run.removals@.len() && place < run.prune.unwrap().prunable@.len(),
        sweep_next(run) is SweepImages ==> run.prune is Some && (run.is_dry_run || (
        run.outcomes@.len() == run.planned@.len() && run.removals@.len()
            == run.prune.unwrap().prunable@.len())),
{
}

/// Each candidate is reported under what came of it: its name is among the deleted
/// ones exactly where its deletion succeeded, and what is reported next never
/// changes what was reported before.
pub proof fn law_candidate_is_reported_as_it_fared(
    candidates: Seq<ReapCandidate>,
    outcomes: Seq<bool>,
    is_deleted: bool,
)
    requires
        outcomes.len() < candidates.len(),
    ensures
        names_with(candidates, Seq::<bool>::empty(), is_deleted).len() == 0,
        names_with(candidates, outcomes.push(is_deleted), is_deleted) == names_with(
            candidates,
            outcomes,
            is_deleted,
        ).push(candidates[outcomes.len() as int].name),
        names_with(candidates, outcomes.push(!is_deleted), is_deleted) == names_with(
            candidates,
            outcomes,
            is_deleted,
        ),
{
    assert(outcomes.push(is_deleted).drop_last() =~= outcomes);
    assert(outcomes.push(!is_deleted).drop_last() =~= outcomes);
}

/// A record is reported as dropped exactly where its removal succeeded.
pub proof fn law_record_is_reported_as_it_fared(profiles: Seq<ProfileName>, removals: Seq<bool>)
    requires
        removals.len() < profiles.len(),
    ensures
        removed_of(profiles, Seq::<bool>::empty()).len() == 0,
        removed_of(profiles, removals.push(true)) == removed_of(profiles, removals).push(
            profiles[removals.len() as int],
        ),
        removed_of(profiles, removals.push(false)) == removed_of(profiles, removals),
{
    assert(removals.push(true).drop_last() =~= removals);
    assert(removals.push(false).drop_last() =~= removals);
}

/// The allocation a deletion rests on is the first one of that ID, and the image
/// record the first one of that profile.
pub proof fn law_deletion_carries_its_own_evidence(
    allocations: Seq<Allocation>,
    id: Seq<char>,
    images: Seq<WarmImageRecord>,
    profile: Seq<char>,
)
    ensures
        allocation_of(allocations, id) matches Some(found) ==> found.id@ == id
            && allocations.contains(found),
        allocation_of(allocations, id) is None ==> forall|i: int|
            0 <= i < allocations.len() ==> (#[trigger] allocations[i]).id@ != id,
        record_of(images, profile) matches Some(found) ==> found.profile@ == profile
            && images.contains(found),
        record_of(images, profile) is None ==> forall|i: int|
            0 <= i < images.len() ==> (#[trigger] images[i]).profile@ != profile,
    decreases allocations.len() + images.len(),
{
    if allocations.len() > 0 {
        let rest = allocations.drop_last();
        law_deletion_carries_its_own_evidence(rest, id, images, profile);
        assert(allocations[allocations.len() - 1] == allocations.last());
        if let Some(found) = allocation_of(rest, id) {
            let k: int = choose|k: int| 0 <= k < rest.len() && rest[k] == found;
            assert(allocations[k] == found);
        } else {
            assert forall|i: int| 0 <= i < rest.len() implies (#[trigger] allocations[i]).id@
                != id by {
                assert(allocations[i] == rest[i]);
            }
        }
    }
    if images.len() > 0 {
        let rest = images.drop_last();
        law_deletion_carries_its_own_evidence(allocations, id, rest, profile);
        assert(images[images.len() - 1] == images.last());
        if let Some(found) = record_of(rest, profile) {
            let k: int = choose|k: int| 0 <= k < rest.len() && rest[k] == found;
            assert(images[k] == found);
        } else {
            assert forall|i: int| 0 <= i < rest.len() implies (#[trigger] images[i]).profile@
                != profile by {
                assert(images[i] == rest[i]);
            }
        }
    }
}

/// A deletion gets no less time than its profile's cleanup, or where it has no
/// profile than any profile's, and never less than the backend's minimum.
pub proof fn law_deletion_gets_time_enough(
    config: Config,
    profile: Option<Profile>,
    minimum_seconds: u64,
)
    ensures
        ({
            let seconds = allowance_of(config, profile, minimum_seconds);
            &&& seconds >= minimum_seconds
            &&& profile matches Some(held) ==> seconds >= held.cleanup_timeout_seconds && (seconds
                == held.cleanup_timeout_seconds || seconds == minimum_seconds)
            &&& profile is None ==> forall|i: int|
                0 <= i < config.profiles@.len() ==> (
                #[trigger] config.profiles@[i]).profile.cleanup_timeout_seconds <= seconds
        }),
{
    law_eviction_gets_the_widest_allowance(config.profiles@, minimum_seconds);
}

/// A sweep that cannot begin says what it could not read first: the image records,
/// then the pool's, then the host.
pub proof fn law_sweep_names_what_it_could_not_read(
    images: Result<Vec<WarmImageRecord>, StoreError>,
    hot: Result<Vec<HotGuest>, StoreError>,
    machines: Result<Vec<HostMachine>, WorkerError>,
)
    ensures
        images matches Err(error) ==> unread(images, hot, machines) == Some(
            ManagerError::Store(error),
        ),
        images is Ok ==> (hot matches Err(error) ==> unread(images, hot, machines) == Some(
            ManagerError::Store(error),
        )),
        images is Ok && hot is Ok ==> (machines matches Err(error) ==> unread(
            images,
            hot,
            machines,
        ) == Some(ManagerError::Worker(error))),
        images is Ok && hot is Ok && machines is Ok ==> unread(images, hot, machines) is None,
{
}

/// A sweep says that it is blind exactly where the host has machines and none of
/// them can be dated; and it is planned over what was read, with nothing done yet.
pub proof fn law_sweep_says_when_it_is_blind(
    run: SweepRun,
    is_dry_run: bool,
    config: Config,
    allocations: Seq<Allocation>,
    images: Seq<WarmImageRecord>,
    hot: Seq<HotGuest>,
    machines: Seq<HostMachine>,
)
    requires
        run.is_begun(is_dry_run, config, allocations, images, hot, machines),
    ensures
        machines.len() == 0 ==> run.inert_reason is None,
        machines.len() > 0 && (forall|i: int|
            0 <= i < machines.len() ==> (#[trigger] machines[i]).age_seconds is None)
            ==> run.inert_reason is Some,
        (exists|i: int| 0 <= i < machines.len() && (#[trigger] machines[i]).age_seconds is Some)
            ==> run.inert_reason is None,
        run.is_dry_run == is_dry_run,
        run.images@ == images,
        run.machines@ == machines,
        run.planned@ == planned(config, machines, allocations, images, hot),
        run.unaged@ == unaged(config, machines, allocations, hot),
        run.outcomes@.len() == 0,
        run.removals@.len() == 0,
        run.prune is None,
{
}

} // verus!
