use vstd::prelude::*;

use crate::domain::allocation::{Allocation, ProfileName};
use crate::domain::image::{WarmGeneration, WarmImageRecord, WarmImageState, WarmName};
use crate::domain::profile::{lemma_profile_index, profile_index, Config, Profile};
use crate::error::{ManagerError, StoreError};
use crate::service::AllocationManager;
use crate::worker::error::WorkerError;

verus! {

/// What retention may write, re-read from the current configuration and the
/// current image record.
#[derive(Debug, PartialEq, Eq)]
pub struct RetentionPlan {
    pub warm_template: WarmName,
    pub generation: u64,
    pub previous: Option<WarmGeneration>,
}

/// The next thing a retention asks. The last two end it.
#[derive(Debug, PartialEq, Eq)]
pub enum RetentionStep {
    /// Read the profile's warm image record.
    LoadRecord,
    /// List the host.
    List { record: Option<WarmImageRecord> },
    /// There is no record: ask whether an image sits under the name anyway.
    AskUnclaimed,
    /// What may be written, or nothing.
    Planned(Option<RetentionPlan>),
    Failed(ManagerError),
}

/// What a step came back with.
#[derive(Debug, PartialEq, Eq)]
pub enum RetentionEvent {
    Loaded(Result<Option<WarmImageRecord>, StoreError>),
    Listed(Result<(), WorkerError>),
    Unclaimed(Result<bool, WorkerError>),
}

/// Was the guest cloned from the profile's trusted base?
pub open spec fn is_from_template(allocation: Allocation, profile: Profile) -> bool {
    allocation.source matches Some(source) && source.name@ == profile.template@
}

/// The warm name a retention of this allocation would write, if one may be.
pub open spec fn retention_target(config: Config, allocation: Allocation, is_eligible: bool) -> Option<
    WarmName,
> {
    if !is_eligible {
        None
    } else {
        match config.named(allocation.request.profile@) {
            None => None,
            Some(profile) => if profile.regeneration_workflow is None || !is_from_template(
                allocation,
                profile,
            ) {
                None
            } else {
                profile.warm_template
            },
        }
    }
}

pub open spec fn generation_of(record: WarmImageRecord) -> WarmGeneration {
    WarmGeneration {
        generation: record.generation,
        base_fingerprint: record.base_fingerprint,
        produced_by: record.produced_by,
        produced_at_unix: record.produced_at_unix,
    }
}

/// The next generation of a warm image, with the one it supersedes.
pub open spec fn next_generation(warm: WarmName, record: Option<WarmImageRecord>) -> RetentionPlan {
    RetentionPlan {
        warm_template: warm,
        generation: match record {
            Some(held) => (held.generation + 1) as u64,
            None => 1,
        },
        previous: match record {
            Some(held) => Some(generation_of(held)),
            None => None,
        },
    }
}

/// What a retention does after a step came back. An answer that is not the one
/// a step waits for changes nothing.
pub open spec fn retention_next(step: RetentionStep, event: RetentionEvent, warm: WarmName) -> RetentionStep {
    match (step, event) {
        (RetentionStep::LoadRecord, RetentionEvent::Loaded(loaded)) => match loaded {
            Ok(record) => RetentionStep::List { record },
            Err(error) => RetentionStep::Failed(ManagerError::Store(error)),
        },
        (RetentionStep::List { record }, RetentionEvent::Listed(answer)) => match answer {
            Ok(()) => if record is None {
                RetentionStep::AskUnclaimed
            } else {
                RetentionStep::Planned(Some(next_generation(warm, record)))
            },
            Err(error) => RetentionStep::Failed(ManagerError::Worker(error)),
        },
        (RetentionStep::AskUnclaimed, RetentionEvent::Unclaimed(answer)) => match answer {
            Ok(true) => RetentionStep::Planned(None),
            Ok(false) => RetentionStep::Planned(Some(next_generation(warm, None))),
            Err(error) => RetentionStep::Failed(ManagerError::Worker(error)),
        },
        _ => step,
    }
}

/// Re-reads production authority at retention time: the profile must still
/// declare it, and the allocation must have cloned the trusted base. Lineage
/// stays one generation deep, because only a clone of that base may become the
/// next image. Returns the warm name to go on with.
pub fn retention_plan(config: &Config, allocation: &Allocation, is_eligible: bool) -> (target: Option<
    WarmName,
>)
    ensures
        target == retention_target(*config, *allocation, is_eligible),
{
    if !is_eligible {
        return None;
    }
    match config.find(allocation.request.profile.as_str()) {
        None => None,
        Some(profile) => {
            if profile.regeneration_workflow.is_none() {
                return None;
            }
            match &allocation.source {
                Some(source) => {
                    if source.name != profile.template {
                        return None;
                    }
                },
                None => {
                    return None;
                },
            }
            profile.warm_template.clone()
        },
    }
}

/// What a retention does after a step came back. A name that is an image the
/// daemon never claimed is not written over.
pub fn next_retention(step: RetentionStep, event: RetentionEvent, warm: &WarmName) -> (next:
    RetentionStep)
    requires
        step matches RetentionStep::List { record: Some(held) } ==> held.generation < u64::MAX,
    ensures
        next == retention_next(step, event, *warm),
{
    match (step, event) {
        (RetentionStep::LoadRecord, RetentionEvent::Loaded(loaded)) => match loaded {
            Ok(record) => RetentionStep::List { record },
            Err(error) => RetentionStep::Failed(ManagerError::Store(error)),
        },
        (RetentionStep::List { record }, RetentionEvent::Listed(answer)) => match answer {
            Ok(()) => match record {
                None => RetentionStep::AskUnclaimed,
                Some(held) => RetentionStep::Planned(
                    Some(
                        RetentionPlan {
                            warm_template: warm.clone(),
                            generation: held.generation + 1,
                            previous: Some(
                                WarmGeneration {
                                    generation: held.generation,
                                    base_fingerprint: held.base_fingerprint,
                                    produced_by: held.produced_by,
                                    produced_at_unix: held.produced_at_unix,
                                },
                            ),
                        },
                    ),
                ),
            },
            Err(error) => RetentionStep::Failed(ManagerError::Worker(error)),
        },
        (RetentionStep::AskUnclaimed, RetentionEvent::Unclaimed(answer)) => match answer {
            Ok(true) => RetentionStep::Planned(None),
            Ok(false) => RetentionStep::Planned(
                Some(RetentionPlan { warm_template: warm.clone(), generation: 1, previous: None }),
            ),
            Err(error) => RetentionStep::Failed(ManagerError::Worker(error)),
        },
        (other, _) => other,
    }
}

/// What becomes of a profile's warm record when a promotion is abandoned.
#[derive(Debug, PartialEq, Eq)]
pub enum Reversion {
    Save(WarmImageRecord),
    Remove(ProfileName),
}

pub open spec fn reverted(
    profile: ProfileName,
    warm_template: WarmName,
    previous: Option<WarmGeneration>,
) -> Reversion {
    match previous {
        Some(survivor) => Reversion::Save(
            WarmImageRecord {
                profile,
                warm_template,
                generation: survivor.generation,
                base_fingerprint: survivor.base_fingerprint,
                produced_by: survivor.produced_by,
                produced_at_unix: survivor.produced_at_unix,
                state: WarmImageState::Promoted,
                previous: None,
            },
        ),
        None => Reversion::Remove(profile),
    }
}

/// Rewrites a profile's warm record as the generation that survives an
/// abandoned promotion, or drops it when none does.
///
/// A record left describing a candidate that was never promoted costs every
/// later allocation a cold boot, so both the backend rollback and startup
/// recovery come through here.
pub fn ensure_warm_reverted(
    profile: &ProfileName,
    warm_template: &WarmName,
    previous: &Option<WarmGeneration>,
) -> (reversion: Reversion)
    ensures
        reversion == reverted(*profile, *warm_template, *previous),
{
    match previous {
        Some(survivor) => Reversion::Save(
            WarmImageRecord {
                profile: profile.clone(),
                warm_template: warm_template.clone(),
                generation: survivor.generation,
                base_fingerprint: survivor.base_fingerprint.clone(),
                produced_by: survivor.produced_by.clone(),
                produced_at_unix: survivor.produced_at_unix,
                state: WarmImageState::Promoted,
                previous: None,
            },
        ),
        None => Reversion::Remove(profile.clone()),
    }
}

impl AllocationManager {
    /// A record about to be written: a promotion lifts the quarantine of its
    /// profile.
    pub fn record_warm_image(&mut self, record: &WarmImageRecord)
        requires
            old(self).quarantined.wf(),
        ensures
            old(self).wf() ==> final(self).wf(),
            final(self).quarantined.wf(),
            final(self).quarantined@ == if record.state is Promoted {
                old(self).quarantined@.remove(record.profile@)
            } else {
                old(self).quarantined@
            },
            *final(self) == (AllocationManager {
                quarantined: final(self).quarantined,
                ..*old(self)
            }),
    {
        if record.state == WarmImageState::Promoted {
            self.quarantined.remove(record.profile.as_str());
        }
    }
}

/// Lineage stays one generation deep: what is retained was cloned from the
/// profile's template, and the plan remembers the generation it supersedes and
/// none before that.
pub proof fn law_lineage_is_one_generation_deep(
    config: Config,
    allocation: Allocation,
    is_eligible: bool,
    record: Option<WarmImageRecord>,
)
    requires
        retention_target(config, allocation, is_eligible) is Some,
        record matches Some(held) ==> held.generation < u64::MAX,
    ensures
        config.named(allocation.request.profile@) matches Some(profile) && is_from_template(
            allocation,
            profile,
        ) && profile.regeneration_workflow is Some,
        ({
            let warm = retention_target(config, allocation, is_eligible).unwrap();
            let plan = next_generation(warm, record);
            match record {
                Some(held) => plan.generation == held.generation + 1 && plan.previous == Some(
                    generation_of(held),
                ),
                None => plan.generation == 1 && plan.previous is None,
            }
        }),
{
}

/// Abandoning a promotion undoes it: reverting the record a plan led to gives
/// the generation the plan superseded, promoted again.
pub proof fn law_reverting_undoes_a_promotion(warm: WarmName, held: WarmImageRecord)
    requires
        held.generation < u64::MAX,
        held.state is Promoted,
        held.warm_template == warm,
    ensures
        reverted(held.profile, warm, next_generation(warm, Some(held)).previous)
            == Reversion::Save(WarmImageRecord { previous: None, ..held }),
        reverted(held.profile, warm, next_generation(warm, None).previous) == Reversion::Remove(
            held.profile,
        ),
{
}

/// An image is produced only with its authority: the guest is eligible, the first
/// profile of its name still names a regeneration workflow and a warm image, and
/// the guest was cloned from that profile's own template; then it always is.
pub proof fn law_image_is_produced_only_with_authority(
    config: Config,
    allocation: Allocation,
    is_eligible: bool,
    k: int,
)
    requires
        0 <= k <= config.profiles@.len(),
        forall|j: int|
            0 <= j < k && j < config.profiles@.len() ==> (#[trigger] config.profiles@[j]).name@
                != allocation.request.profile@,
        k < config.profiles@.len() ==> config.profiles@[k].name@ == allocation.request.profile@,
    ensures
        retention_target(config, allocation, is_eligible) is Some <==> {
            &&& is_eligible
            &&& k < config.profiles@.len()
            &&& config.profiles@[k].profile.regeneration_workflow is Some
            &&& config.profiles@[k].profile.warm_template is Some
            &&& allocation.source is Some
            &&& allocation.source.unwrap().name@ == config.profiles@[k].profile.template@
        },
        retention_target(config, allocation, is_eligible) is Some ==> retention_target(
            config,
            allocation,
            is_eligible,
        ) == config.profiles@[k].profile.warm_template,
{
    lemma_profile_index(config.profiles@, allocation.request.profile@);
    if let Some(first) = profile_index(config.profiles@, allocation.request.profile@) {
        if first < k {
            assert(config.profiles@[first].name@ != allocation.request.profile@);
        }
        if k < first {
            assert(config.profiles@[k].name@ != allocation.request.profile@);
        }
    }
}

/// An image nobody recorded is never written over: with a record the next
/// generation follows it; without one the name must be free; what cannot be read
/// plans nothing.
pub proof fn law_unrecorded_image_is_never_overwritten(
    record: WarmImageRecord,
    store: StoreError,
    worker: WorkerError,
    warm: WarmName,
)
    requires
        record.generation < u64::MAX,
    ensures
        retention_next(RetentionStep::AskUnclaimed, RetentionEvent::Unclaimed(Ok(true)), warm)
            == RetentionStep::Planned(None),
        retention_next(RetentionStep::AskUnclaimed, RetentionEvent::Unclaimed(Ok(false)), warm)
            == RetentionStep::Planned(
            Some(RetentionPlan { warm_template: warm, generation: 1, previous: None }),
        ),
        retention_next(
            RetentionStep::AskUnclaimed,
            RetentionEvent::Unclaimed(Err(worker)),
            warm,
        ) == RetentionStep::Failed(ManagerError::Worker(worker)),
        retention_next(
            RetentionStep::List { record: None },
            RetentionEvent::Listed(Ok(())),
            warm,
        ) == RetentionStep::AskUnclaimed,
        retention_next(
            RetentionStep::List { record: Some(record) },
            RetentionEvent::Listed(Ok(())),
            warm,
        ) == RetentionStep::Planned(
            Some(
                RetentionPlan {
                    warm_template: warm,
                    generation: (record.generation + 1) as u64,
                    previous: Some(
                        WarmGeneration {
                            generation: record.generation,
                            base_fingerprint: record.base_fingerprint,
                            produced_by: record.produced_by,
                            produced_at_unix: record.produced_at_unix,
                        },
                    ),
                },
            ),
        ),
        retention_next(
            RetentionStep::List { record: Some(record) },
            RetentionEvent::Listed(Err(worker)),
            warm,
        ) == RetentionStep::Failed(ManagerError::Worker(worker)),
        retention_next(RetentionStep::LoadRecord, RetentionEvent::Loaded(Err(store)), warm)
            == RetentionStep::Failed(ManagerError::Store(store)),
        retention_next(RetentionStep::LoadRecord, RetentionEvent::Loaded(Ok(Some(record))), warm)
            == (RetentionStep::List { record: Some(record) }),
        retention_next(RetentionStep::LoadRecord, RetentionEvent::Loaded(Ok(None)), warm) == (
        RetentionStep::List { record: None }),
{
}

/// What an abandoned promotion leaves is the generation before it, promoted and
/// with nothing before it, or no record where there was none.
pub proof fn law_abandoned_promotion_leaves_the_survivor(
    profile: ProfileName,
    warm: WarmName,
    previous: Option<WarmGeneration>,
)
    ensures
        match (previous, reverted(profile, warm, previous)) {
            (None, Reversion::Remove(name)) => name == profile,
            (Some(survivor), Reversion::Save(record)) => {
                &&& record.profile == profile
                &&& record.warm_template == warm
                &&& record.generation == survivor.generation
                &&& record.base_fingerprint == survivor.base_fingerprint
                &&& record.produced_by == survivor.produced_by
                &&& record.produced_at_unix == survivor.produced_at_unix
                &&& record.state == WarmImageState::Promoted
                &&& record.previous is None
            },
            _ => false,
        },
{
}

} // verus!
