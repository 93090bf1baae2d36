use vstd::prelude::*;

use crate::domain::allocation::{
    Allocation, AllocationId, AllocationMode, AllocationState, CloneKind, CloneSource,
    FallbackReason,
};
use crate::domain::image::{WarmImageRecord, WarmImageState};
use crate::domain::profile::Profile;
use crate::error::StoreError;
use crate::service::AllocationManager;
use crate::state::{find_entry, is_keyed, is_resident, place_of};
use crate::worker::error::WorkerError;
use crate::worker::model::WarmAvailability;

verus! {

/// What an allocation clones, and which warm generation that is.
#[derive(Debug, PartialEq, Eq)]
pub struct SourceSelection {
    pub source: CloneSource,
    pub warm_generation: Option<u64>,
}

impl Clone for SourceSelection {
    fn clone(&self) -> (copy: SourceSelection)
        ensures
            copy == *self,
    {
        SourceSelection { source: self.source.clone(), warm_generation: self.warm_generation }
    }
}

impl std::ops::Deref for SourceSelection {
    type Target = CloneSource;

    fn deref(&self) -> (source: &CloneSource)
        ensures
            *source == self.source,
    {
        &self.source
    }
}

/// The cold template, and why a warm request got it.
pub open spec fn template_selection(
    profile: Profile,
    fingerprint: Option<String>,
    fallback_reason: Option<FallbackReason>,
) -> SourceSelection {
    SourceSelection {
        source: CloneSource {
            name: profile.template,
            kind: CloneKind::Template,
            base_fingerprint: fingerprint,
            fallback_reason,
        },
        warm_generation: None,
    }
}

/// The cold template as a clone source.
fn template_source(
    profile: &Profile,
    base_fingerprint: Option<String>,
    fallback_reason: Option<FallbackReason>,
) -> (source: CloneSource)
    ensures
        source == template_selection(*profile, base_fingerprint, fallback_reason).source,
{
    CloneSource {
        name: profile.template.clone(),
        kind: CloneKind::Template,
        base_fingerprint,
        fallback_reason,
    }
}

/// The next thing a source selection asks. The last ends it.
#[derive(Debug, PartialEq, Eq)]
pub enum SourceStep {
    /// List the host, from the cache admission takes too. One listing serves
    /// the whole selection.
    List,
    /// Read the profile's warm image record.
    LoadRecord,
    /// There is no record: ask whether an image sits under the name anyway.
    AskUnclaimed,
    /// Ask whether the recorded image is usable right now.
    AskAvailability { record: WarmImageRecord },
    Selected(SourceSelection),
}

/// What a step came back with.
#[derive(Debug, PartialEq, Eq)]
pub enum SourceEvent {
    /// The host was listed, or it could not be.
    Listed(bool),
    Loaded(Result<Option<WarmImageRecord>, StoreError>),
    Unclaimed(Result<bool, WorkerError>),
    Available(Result<WarmAvailability, WorkerError>),
}

/// A selection that fails toward the cold template.
pub open spec fn fallback(
    profile: Profile,
    fingerprint: Option<String>,
    reason: FallbackReason,
) -> SourceStep {
    SourceStep::Selected(template_selection(profile, fingerprint, Some(reason)))
}

fn fall_back(profile: &Profile, fingerprint: &Option<String>, reason: FallbackReason) -> (step:
    SourceStep)
    ensures
        step == fallback(*profile, *fingerprint, reason),
{
    SourceStep::Selected(
        SourceSelection {
            source: template_source(profile, fingerprint.clone(), Some(reason)),
            warm_generation: None,
        },
    )
}

/// Where a selection begins.
pub open spec fn source_start(
    profile: Profile,
    mode: AllocationMode,
    fingerprint: Option<String>,
    supports_warm: bool,
    is_quarantined: bool,
) -> SourceStep {
    if !(mode is Warm) {
        SourceStep::Selected(template_selection(profile, fingerprint, None))
    } else if profile.warm_template is None {
        fallback(profile, fingerprint, FallbackReason::NotDeclared)
    } else if !supports_warm {
        fallback(profile, fingerprint, FallbackReason::Unsupported)
    } else if is_quarantined {
        fallback(profile, fingerprint, FallbackReason::Quarantined)
    } else {
        SourceStep::List
    }
}

/// The recorded warm image as a selection, where the base it was produced from
/// is the one the template is now.
pub open spec fn warm_or_stale(
    profile: Profile,
    fingerprint: Option<String>,
    record: WarmImageRecord,
) -> SourceStep {
    match (profile.warm_template, fingerprint) {
        (Some(warm), Some(current)) => if record.base_fingerprint@ == current@ {
            SourceStep::Selected(
                SourceSelection {
                    source: CloneSource {
                        name: warm.name,
                        kind: CloneKind::Warm,
                        base_fingerprint: Some(record.base_fingerprint),
                        fallback_reason: None,
                    },
                    warm_generation: Some(record.generation),
                },
            )
        } else {
            fallback(profile, fingerprint, FallbackReason::StaleBase)
        },
        (None, _) => fallback(profile, fingerprint, FallbackReason::NotDeclared),
        _ => fallback(profile, fingerprint, FallbackReason::FingerprintUnavailable),
    }
}

/// The selection table; every arm names the reason it failed. An answer that is
/// not the one a step waits for changes nothing.
pub open spec fn source_next(
    step: SourceStep,
    event: SourceEvent,
    profile: Profile,
    fingerprint: Option<String>,
) -> SourceStep {
    match (step, event) {
        (SourceStep::List, SourceEvent::Listed(is_listed)) => if is_listed {
            SourceStep::LoadRecord
        } else {
            fallback(profile, fingerprint, FallbackReason::Absent)
        },
        (SourceStep::LoadRecord, SourceEvent::Loaded(loaded)) => match loaded {
            Ok(Some(record)) => match profile.warm_template {
                Some(warm) => if record.warm_template.name@ != warm.name@ {
                    fallback(profile, fingerprint, FallbackReason::Repointed)
                } else if !(record.state is Promoted) {
                    fallback(profile, fingerprint, FallbackReason::NotPromoted)
                } else {
                    SourceStep::AskAvailability { record }
                },
                None => fallback(profile, fingerprint, FallbackReason::NotDeclared),
            },
            _ => SourceStep::AskUnclaimed,
        },
        (SourceStep::AskUnclaimed, SourceEvent::Unclaimed(answer)) => match answer {
            Ok(true) => fallback(profile, fingerprint, FallbackReason::Unclaimed),
            Ok(false) => fallback(profile, fingerprint, FallbackReason::NoRecord),
            Err(_) => fallback(profile, fingerprint, FallbackReason::Absent),
        },
        (
            SourceStep::AskAvailability { record },
            SourceEvent::Available(answer),
        ) => match answer {
            Ok(WarmAvailability::Ready) => warm_or_stale(profile, fingerprint, record),
            Ok(WarmAvailability::Busy) => fallback(
                profile,
                fingerprint,
                FallbackReason::NotStopped,
            ),
            _ => fallback(profile, fingerprint, FallbackReason::Absent),
        },
        _ => step,
    }
}

impl AllocationManager {
    /// Resolves the clone source, failing toward the cold template and
    /// recording why: where that begins. `fingerprint` is the template's now.
    pub fn resolve_source(
        &self,
        name: &str,
        profile: &Profile,
        mode: AllocationMode,
        fingerprint: &Option<String>,
        supports_warm: bool,
    ) -> (step: SourceStep)
        ensures
            step == source_start(
                *profile,
                mode,
                *fingerprint,
                supports_warm,
                self.quarantined@.contains(name@),
            ),
    {
        if mode != AllocationMode::Warm {
            return SourceStep::Selected(
                SourceSelection {
                    source: template_source(profile, fingerprint.clone(), None),
                    warm_generation: None,
                },
            );
        }
        if profile.warm_template.is_none() {
            return fall_back(profile, fingerprint, FallbackReason::NotDeclared);
        }
        // Without this the configuration is the only warm gate, and lifting it
        // would leave production ungated on a backend that cannot produce.
        if !supports_warm {
            return fall_back(profile, fingerprint, FallbackReason::Unsupported);
        }
        if self.is_warm_quarantined(name) {
            return fall_back(profile, fingerprint, FallbackReason::Quarantined);
        }
        SourceStep::List
    }

    /// The selection table; every arm names the reason it failed.
    pub fn warm_source(
        step: SourceStep,
        event: SourceEvent,
        profile: &Profile,
        fingerprint: &Option<String>,
    ) -> (next: SourceStep)
        ensures
            next == source_next(step, event, *profile, *fingerprint),
    {
        match (step, event) {
            (SourceStep::List, SourceEvent::Listed(is_listed)) => if is_listed {
                SourceStep::LoadRecord
            } else {
                fall_back(profile, fingerprint, FallbackReason::Absent)
            },
            (SourceStep::LoadRecord, SourceEvent::Loaded(loaded)) => match loaded {
                Ok(Some(record)) => match &profile.warm_template {
                    Some(warm) => if record.warm_template.name != warm.name {
                        fall_back(profile, fingerprint, FallbackReason::Repointed)
                    } else if record.state != WarmImageState::Promoted {
                        // The two-phase record names the new generation before
                        // the image under the name is that generation, so only
                        // a finished promotion is usable.
                        fall_back(profile, fingerprint, FallbackReason::NotPromoted)
                    } else {
                        SourceStep::AskAvailability { record }
                    },
                    None => fall_back(profile, fingerprint, FallbackReason::NotDeclared),
                },
                _ => SourceStep::AskUnclaimed,
            },
            (SourceStep::AskUnclaimed, SourceEvent::Unclaimed(answer)) => {
                AllocationManager::missing_record(answer, profile, fingerprint)
            },
            (
                SourceStep::AskAvailability { record },
                SourceEvent::Available(answer),
            ) => match answer {
                Ok(WarmAvailability::Ready) => match (&profile.warm_template, fingerprint) {
                    (Some(warm), Some(current)) => if record.base_fingerprint == *current {
                        SourceStep::Selected(
                            SourceSelection {
                                source: CloneSource {
                                    name: warm.name.clone(),
                                    kind: CloneKind::Warm,
                                    base_fingerprint: Some(record.base_fingerprint),
                                    fallback_reason: None,
                                },
                                warm_generation: Some(record.generation),
                            },
                        )
                    } else {
                        fall_back(profile, fingerprint, FallbackReason::StaleBase)
                    },
                    (None, _) => fall_back(profile, fingerprint, FallbackReason::NotDeclared),
                    _ => fall_back(profile, fingerprint, FallbackReason::FingerprintUnavailable),
                },
                Ok(WarmAvailability::Busy) => fall_back(
                    profile,
                    fingerprint,
                    FallbackReason::NotStopped,
                ),
                _ => fall_back(profile, fingerprint, FallbackReason::Absent),
            },
            (other, _) => other,
        }
    }

    /// Distinguishes "an image sits under this name that was never recorded"
    /// from "nothing is there at all". Only a name-addressed backend can tell
    /// them apart; a pointer-addressed one answers no and reports `NoRecord`.
    fn missing_record(
        answer: Result<bool, WorkerError>,
        profile: &Profile,
        fingerprint: &Option<String>,
    ) -> (step: SourceStep)
        ensures
            step == source_next(
                SourceStep::AskUnclaimed,
                SourceEvent::Unclaimed(answer),
                *profile,
                *fingerprint,
            ),
    {
        match answer {
            Ok(true) => fall_back(profile, fingerprint, FallbackReason::Unclaimed),
            Ok(false) => fall_back(profile, fingerprint, FallbackReason::NoRecord),
            Err(_) => fall_back(profile, fingerprint, FallbackReason::Absent),
        }
    }

    /// Marks a profile's warm image unusable until the next promotion or a
    /// restart. Answers whether it was not marked yet.
    pub fn quarantine_warm(&mut self, profile: &str) -> (is_new: bool)
        requires
            old(self).quarantined.wf(),
        ensures
            old(self).wf() ==> final(self).wf(),
            final(self).quarantined.wf(),
            is_new == !old(self).quarantined@.contains(profile@),
            final(self).quarantined@ == old(self).quarantined@.insert(profile@),
            *final(self) == (AllocationManager {
                quarantined: final(self).quarantined,
                ..*old(self)
            }),
    {
        self.quarantined.insert(profile.to_owned())
    }

    pub fn is_warm_quarantined(&self, profile: &str) -> (is: bool)
        ensures
            is == self.quarantined@.contains(profile@),
    {
        self.quarantined.contains(profile)
    }

    /// A warm guest that never reached readiness is evidence about the image,
    /// so the next allocation boots cold instead of repeating it. Answers
    /// whether a profile was marked that was not yet.
    pub fn ensure_warm_quarantined(&mut self, id: &AllocationId) -> (is_new: bool)
        requires
            is_keyed(old(self).entries@),
            old(self).quarantined.wf(),
        ensures
            old(self).wf() ==> final(self).wf(),
            final(self).quarantined.wf(),
            final(self).quarantined@ == if is_resident(old(self).entries@, id@)
                && is_warm_evidence(
                old(self).entries@[place_of(old(self).entries@, id@)].allocation,
            ) {
                old(self).quarantined@.insert(
                    old(self).entries@[place_of(
                        old(self).entries@,
                        id@,
                    )].allocation.request.profile@,
                )
            } else {
                old(self).quarantined@
            },
            is_new == (final(self).quarantined@ != old(self).quarantined@),
            *final(self) == (AllocationManager {
                quarantined: final(self).quarantined,
                ..*old(self)
            }),
    {
        match find_entry(&self.entries, id) {
            Some(index) => {
                let allocation: &Allocation = &self.entries[index].allocation;
                let is_warm: bool = match &allocation.source {
                    Some(source) => source.kind == CloneKind::Warm,
                    None => false,
                };
                if is_warm && (allocation.state == AllocationState::Preparing || allocation.state
                    == AllocationState::Booting) {
                    let profile: String = allocation.request.profile.clone();
                    let is_new: bool = self.quarantine_warm(profile.as_str());
                    proof {
                        if !is_new {
                            assert(old(self).quarantined@.insert(profile@) =~= old(
                                self).quarantined@);
                        } else {
                            assert(final(self).quarantined@.contains(profile@));
                        }
                    }
                    is_new
                } else {
                    false
                }
            },
            None => false,
        }
    }
}

/// Does a failure of this allocation say something about its warm image?
pub open spec fn is_warm_evidence(allocation: Allocation) -> bool {
    &&& allocation.source matches Some(source) && source.kind is Warm
    &&& allocation.state is Preparing || allocation.state is Booting
}

/// A warm image is booted only when everything vouches for it: the profile
/// declares the name, the record is of that name and promoted, the backend
/// finds the image usable, and its base is the template's own.
pub proof fn law_warm_needs_every_witness(
    step: SourceStep,
    event: SourceEvent,
    profile: Profile,
    fingerprint: Option<String>,
)
    ensures
        ({
            let next = source_next(step, event, profile, fingerprint);
            &&& (next is Selected && next->Selected_0.source.kind is Warm && next != step) ==> {
                &&& step is AskAvailability
                &&& event == SourceEvent::Available(Ok(WarmAvailability::Ready))
                &&& profile.warm_template matches Some(warm) && next->Selected_0.source.name
                    == warm.name
                &&& fingerprint matches Some(current) && current@
                    == step->AskAvailability_record.base_fingerprint@
                &&& next->Selected_0.warm_generation == Some(
                    step->AskAvailability_record.generation,
                )
            }
            &&& (next is AskAvailability && next != step) ==> {
                &&& step is LoadRecord
                &&& next->AskAvailability_record.state is Promoted
                &&& profile.warm_template matches Some(warm)
                    && next->AskAvailability_record.warm_template.name@ == warm.name@
            }
        }),
{
}

/// Nothing but a warm request on a profile that declares a warm image, on a
/// backend that supports it, is asked about further; every other gets the
/// template at once, and only a refused warm request gets a reason with it.
pub proof fn law_selection_fails_toward_the_template(
    profile: Profile,
    mode: AllocationMode,
    fingerprint: Option<String>,
    supports_warm: bool,
    is_quarantined: bool,
)
    ensures
        ({
            let step = source_start(profile, mode, fingerprint, supports_warm, is_quarantined);
            match step {
                SourceStep::Selected(selection) => selection.source.kind is Template
                    && selection.source.name == profile.template && selection.warm_generation
                    is None && (selection.source.fallback_reason is Some <==> mode is Warm),
                _ => step is List && mode is Warm && profile.warm_template is Some && supports_warm
                    && !is_quarantined,
            }
        }),
{
}

/// A request that does not ask for the warm image boots the template, and one that
/// does is told the first thing that is missing: a declared name, a backend that
/// can, an image that is not quarantined.
pub proof fn law_warm_request_is_told_what_is_missing(
    profile: Profile,
    mode: AllocationMode,
    fingerprint: Option<String>,
    supports_warm: bool,
    is_quarantined: bool,
)
    ensures
        ({
            let first = source_start(profile, mode, fingerprint, supports_warm, is_quarantined);
            let told = match first {
                SourceStep::Selected(selection) => selection.source.fallback_reason,
                _ => None,
            };
            &&& first is List <==> mode is Warm && profile.warm_template is Some && supports_warm
                && !is_quarantined
            &&& told == Some(FallbackReason::NotDeclared) <==> mode is Warm
                && profile.warm_template is None
            &&& told == Some(FallbackReason::Unsupported) <==> mode is Warm
                && profile.warm_template is Some && !supports_warm
            &&& told == Some(FallbackReason::Quarantined) <==> mode is Warm
                && profile.warm_template is Some && supports_warm && is_quarantined
            &&& first matches SourceStep::Selected(selection) ==> selection.source.name
                == profile.template && selection.source.kind is Template
                && selection.source.base_fingerprint == fingerprint
        }),
{
}

/// Every doubt about the warm image falls back to the template, and says which: the
/// host or the answer cannot be had, no record claims the name, the record is of
/// another name or not promoted, the image is in use, or its base is not the
/// template's or not known.
pub proof fn law_every_doubt_falls_back(
    record: WarmImageRecord,
    event: SourceEvent,
    profile: Profile,
    fingerprint: Option<String>,
)
    requires
        profile.warm_template is Some,
    ensures
        ({
            let warm = profile.warm_template.unwrap();
            let template = |reason: FallbackReason|
                SourceStep::Selected(
                    SourceSelection {
                        source: CloneSource {
                            name: profile.template,
                            kind: CloneKind::Template,
                            base_fingerprint: fingerprint,
                            fallback_reason: Some(reason),
                        },
                        warm_generation: None,
                    },
                );
            let after = |step: SourceStep| source_next(step, event, profile, fingerprint);
            let asked = SourceStep::AskAvailability { record };
            &&& event == SourceEvent::Listed(false) ==> after(SourceStep::List) == template(
                FallbackReason::Absent,
            )
            &&& event == SourceEvent::Listed(true) ==> after(SourceStep::List)
                == SourceStep::LoadRecord
            &&& event == SourceEvent::Loaded(Ok(None)) ==> after(SourceStep::LoadRecord)
                == SourceStep::AskUnclaimed
            &&& event matches SourceEvent::Loaded(Err(_)) ==> after(SourceStep::LoadRecord)
                == SourceStep::AskUnclaimed
            &&& event == SourceEvent::Loaded(Ok(Some(record))) ==> after(SourceStep::LoadRecord)
                == if record.warm_template.name@ != warm.name@ {
                template(FallbackReason::Repointed)
            } else if record.state is Staging {
                template(FallbackReason::NotPromoted)
            } else {
                asked
            }
            &&& event == SourceEvent::Unclaimed(Ok(true)) ==> after(SourceStep::AskUnclaimed)
                == template(FallbackReason::Unclaimed)
            &&& event == SourceEvent::Unclaimed(Ok(false)) ==> after(SourceStep::AskUnclaimed)
                == template(FallbackReason::NoRecord)
            &&& event matches SourceEvent::Unclaimed(Err(_)) ==> after(SourceStep::AskUnclaimed)
                == template(FallbackReason::Absent)
            &&& event == SourceEvent::Available(Ok(WarmAvailability::Busy)) ==> after(asked)
                == template(FallbackReason::NotStopped)
            &&& event == SourceEvent::Available(Ok(WarmAvailability::Absent)) ==> after(asked)
                == template(FallbackReason::Absent)
            &&& event matches SourceEvent::Available(Err(_)) ==> after(asked) == template(
                FallbackReason::Absent,
            )
            &&& event == SourceEvent::Available(Ok(WarmAvailability::Ready)) ==> match fingerprint {
                None => after(asked) == template(FallbackReason::FingerprintUnavailable),
                Some(current) => if current@ != record.base_fingerprint@ {
                    after(asked) == template(FallbackReason::StaleBase)
                } else {
                    after(asked) == SourceStep::Selected(
                        SourceSelection {
                            source: CloneSource {
                                name: warm.name,
                                kind: CloneKind::Warm,
                                base_fingerprint: Some(record.base_fingerprint),
                                fallback_reason: None,
                            },
                            warm_generation: Some(record.generation),
                        },
                    )
                },
            }
        }),
{
}

/// Only a guest that was cloned from a warm image and had not got past its boot
/// speaks against that image.
pub proof fn law_only_a_warm_boot_speaks_against_its_image(allocation: Allocation)
    ensures
        is_warm_evidence(allocation) <==> allocation.source is Some && allocation.source.unwrap().kind
            == CloneKind::Warm && (allocation.state == AllocationState::Preparing
            || allocation.state == AllocationState::Booting),
{
}

} // verus!
