use vstd::prelude::*;

use crate::domain::allocation::{RetentionOutcome, VmName};
use crate::domain::image::{WarmImageRecord, WarmImageState};
use crate::warm::retention::{ensure_warm_reverted, reverted, Reversion};
use crate::worker::error::WorkerError;
use crate::worker::model::WarmAvailability;

verus! {

/// How a retention that failed is recorded.
pub const RETENTION_FAILED: &'static str = "failed";

/// The phase of a retention in which the new image takes its name.
pub const PROMOTE_PHASE: &'static str = "promote";

/// Why an interrupted retention failed.
pub const INTERRUPTED_PROMOTION: &'static str = "the daemon restarted during promotion";

/// The candidate's name, where both names derived from the warm one are names.
pub open spec fn candidate_name(record: WarmImageRecord) -> Option<VmName> {
    if record.warm_template.previous is Some {
        record.warm_template.staging
    } else {
        None
    }
}

/// The candidate's name; a record whose derived names are no names is skipped.
pub fn staging_candidate(record: &WarmImageRecord) -> (name: Option<VmName>)
    ensures
        name == candidate_name(*record),
{
    if record.warm_template.previous.is_some() {
        record.warm_template.staging.clone()
    } else {
        None
    }
}

/// Is the recorded image there, whether or not it can be booted right now? An
/// answer that could not be had says nothing, and the record is skipped.
pub fn is_warm_present(answer: &Result<WarmAvailability, WorkerError>) -> (is: Option<bool>)
    ensures
        is == match *answer {
            Ok(WarmAvailability::Absent) => Some(false),
            Ok(_) => Some(true),
            Err(_) => None::<bool>,
        },
{
    match answer {
        Ok(availability) => Some(*availability != WarmAvailability::Absent),
        Err(_) => None,
    }
}

/// What becomes of a warm image record after a restart.
#[derive(Debug, PartialEq, Eq)]
pub enum RecordStep {
    Keep,
    /// The promotion finished but was never recorded.
    Finalize(WarmImageRecord),
    /// Nothing was retired yet: only the record moves back.
    Revert(Reversion),
    /// The image is gone: the surviving generation is restored under the name,
    /// and the record moves back whether or not that works.
    Restore(Reversion),
}

/// How one profile's warm image is reconciled.
#[derive(Debug, PartialEq, Eq)]
pub struct WarmRecovery {
    pub record: RecordStep,
    /// Is a candidate of an interrupted promotion deleted?
    pub is_candidate_deleted: bool,
    /// Is the producing allocation told that its promotion was interrupted?
    pub is_interrupted: bool,
}

pub open spec fn warm_recovery(record: WarmImageRecord, is_present: bool, is_staged: bool) -> WarmRecovery {
    let back = reverted(record.profile, record.warm_template, record.previous);
    WarmRecovery {
        record: if !is_present {
            RecordStep::Restore(back)
        } else if record.state is Promoted {
            RecordStep::Keep
        } else if is_staged {
            RecordStep::Revert(back)
        } else {
            RecordStep::Finalize(WarmImageRecord { state: WarmImageState::Promoted, ..record })
        },
        is_candidate_deleted: is_staged,
        is_interrupted: record.state is Staging,
    }
}

/// Reconciles one declaring profile's warm image against the backend.
/// Recovery never promotes a staged candidate: it cannot know whether that
/// candidate passed its backend's gates.
pub fn ensure_warm_consistent(record: &WarmImageRecord, is_present: bool, is_staged: bool) -> (recovery:
    WarmRecovery)
    ensures
        recovery == warm_recovery(*record, is_present, is_staged),
{
    let step: RecordStep = if !is_present {
        // Only reached with the live image unusable, so a restore overwrites
        // nothing; the record reverts either way, because a record outliving
        // its image costs a cold boot while the reverse is a silent stale one.
        RecordStep::Restore(
            ensure_warm_reverted(&record.profile, &record.warm_template, &record.previous),
        )
    } else if record.state == WarmImageState::Promoted {
        RecordStep::Keep
    } else if is_staged {
        // The candidate is still there, so retirement never ran and the live
        // image is the surviving generation: only the record moves.
        RecordStep::Revert(
            ensure_warm_reverted(&record.profile, &record.warm_template, &record.previous),
        )
    } else {
        let mut finalized: WarmImageRecord = record.clone();
        finalized.state = WarmImageState::Promoted;
        RecordStep::Finalize(finalized)
    };
    WarmRecovery {
        record: step,
        is_candidate_deleted: is_staged,
        is_interrupted: record.state == WarmImageState::Staging,
    }
}

/// What the producing allocation's history says about an interruption.
pub fn mark_retention_interrupted(record: &WarmImageRecord) -> (outcome: RetentionOutcome)
    ensures
        outcome.outcome@ == RETENTION_FAILED@,
        outcome.phase@ == PROMOTE_PHASE@,
        outcome.message@ == INTERRUPTED_PROMOTION@,
        outcome.generation == Some(record.generation),
{
    RetentionOutcome {
        outcome: RETENTION_FAILED.to_owned(),
        phase: PROMOTE_PHASE.to_owned(),
        message: INTERRUPTED_PROMOTION.to_owned(),
        generation: Some(record.generation),
    }
}

/// Recovery never promotes a staged candidate: a record becomes promoted only
/// where the image is under its name and the candidate is gone.
pub proof fn law_recovery_never_promotes_a_candidate(
    record: WarmImageRecord,
    is_present: bool,
    is_staged: bool,
)
    ensures
        warm_recovery(record, is_present, is_staged).record is Finalize ==> is_present && !is_staged
            && record.state is Staging,
        is_staged ==> warm_recovery(record, is_present, is_staged).is_candidate_deleted,
{
}

/// Recovery never restores over a live image.
pub proof fn law_recovery_never_restores_over_an_image(
    record: WarmImageRecord,
    is_present: bool,
    is_staged: bool,
)
    ensures
        warm_recovery(record, is_present, is_staged).record is Restore <==> !is_present,
{
}

/// Recovery settles a record: whatever it leaves is promoted or gone, and what
/// it leaves of an image that is there is that image's own generation.
pub proof fn law_recovery_settles_the_record(
    record: WarmImageRecord,
    is_present: bool,
    is_staged: bool,
)
    ensures
        match warm_recovery(record, is_present, is_staged).record {
            RecordStep::Keep => record.state is Promoted,
            RecordStep::Finalize(saved) => saved.state is Promoted && saved.generation
                == record.generation,
            RecordStep::Revert(Reversion::Save(saved)) => saved.state is Promoted && (
            record.previous matches Some(survivor) && saved.generation == survivor.generation),
            RecordStep::Restore(Reversion::Save(saved)) => saved.state is Promoted && (
            record.previous matches Some(survivor) && saved.generation == survivor.generation),
            _ => record.previous is None,
        },
{
}

/// How a warm image is settled after a restart, by what is there: a missing image
/// is restored from the generation before it, a promoted one is kept, a promotion
/// whose candidate is still there is taken back, and one whose candidate is gone is
/// finished. A candidate is always deleted, and an interruption is told exactly
/// where the record was mid-promotion.
pub proof fn law_restart_settles_the_image(record: WarmImageRecord, is_present: bool, is_staged: bool)
    ensures
        ({
            let recovery = warm_recovery(record, is_present, is_staged);
            &&& recovery.record is Restore <==> !is_present
            &&& recovery.record is Keep <==> is_present && record.state == WarmImageState::Promoted
            &&& recovery.record is Revert <==> is_present && is_staged && record.state
                == WarmImageState::Staging
            &&& recovery.record is Finalize <==> is_present && !is_staged && record.state
                == WarmImageState::Staging
            &&& recovery.record matches RecordStep::Finalize(saved) ==> saved == (WarmImageRecord {
                state: WarmImageState::Promoted,
                ..record
            })
            &&& recovery.is_candidate_deleted == is_staged
            &&& recovery.is_interrupted == (record.state == WarmImageState::Staging)
        }),
{
}

/// A record is looked at only where both names derived from its own are names.
pub proof fn law_candidate_needs_both_derived_names(record: WarmImageRecord)
    ensures
        candidate_name(record) is Some <==> record.warm_template.previous is Some
            && record.warm_template.staging is Some,
        candidate_name(record) is Some ==> candidate_name(record) == record.warm_template.staging,
{
}

} // verus!
