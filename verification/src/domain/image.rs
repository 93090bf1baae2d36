use vstd::prelude::*;

use crate::domain::allocation::{AllocationId, ProfileName, VmName};
use crate::text::joined;

verus! {

/// The suffix of the generation a promotion retired.
pub const PREVIOUS_SUFFIX: &'static str = ".previous";

/// The suffix of a candidate that is not promoted yet.
pub const STAGING_SUFFIX: &'static str = ".staging";

/// A warm image's name and the two names derived from it. A derived name that
/// would not be a valid machine name is absent.
#[derive(Debug, PartialEq, Eq)]
pub struct WarmName {
    pub name: VmName,
    pub previous: Option<VmName>,
    pub staging: Option<VmName>,
}

impl WarmName {
    /// A derived name that is present is the warm name and its suffix.
    pub open spec fn wf(&self) -> bool {
        &&& self.previous matches Some(previous) ==> previous@ == self.name@ + PREVIOUS_SUFFIX@
        &&& self.staging matches Some(staging) ==> staging@ == self.name@ + STAGING_SUFFIX@
    }

    /// Derives the two names; each is kept only where it is a valid one.
    pub fn new(name: VmName, is_previous_valid: bool, is_staging_valid: bool) -> (warm: WarmName)
        ensures
            warm.wf(),
            warm.name == name,
            warm.previous is Some == is_previous_valid,
            warm.staging is Some == is_staging_valid,
    {
        let previous: Option<VmName> = if is_previous_valid {
            Some(joined(name.as_str(), PREVIOUS_SUFFIX))
        } else {
            None
        };
        let staging: Option<VmName> = if is_staging_valid {
            Some(joined(name.as_str(), STAGING_SUFFIX))
        } else {
            None
        };
        WarmName { name, previous, staging }
    }
}

impl Clone for WarmName {
    fn clone(&self) -> (copy: WarmName)
        ensures
            copy == *self,
    {
        WarmName {
            name: self.name.clone(),
            previous: self.previous.clone(),
            staging: self.staging.clone(),
        }
    }
}

#[derive(Clone, Copy, Debug, PartialEq, Eq, Structural)]
pub enum WarmImageState {
    /// The record names a generation that the image is not yet.
    Staging,
    Promoted,
}

/// One superseded generation, as the record that replaced it remembers it.
#[derive(Debug, PartialEq, Eq)]
pub struct WarmGeneration {
    pub generation: u64,
    pub base_fingerprint: String,
    pub produced_by: AllocationId,
    pub produced_at_unix: u64,
}

impl Clone for WarmGeneration {
    fn clone(&self) -> (copy: WarmGeneration)
        ensures
            copy == *self,
    {
        WarmGeneration {
            generation: self.generation,
            base_fingerprint: self.base_fingerprint.clone(),
            produced_by: self.produced_by.clone(),
            produced_at_unix: self.produced_at_unix,
        }
    }
}

/// The durable record of one profile's warm image.
#[derive(Debug, PartialEq, Eq)]
pub struct WarmImageRecord {
    pub profile: ProfileName,
    pub warm_template: WarmName,
    pub generation: u64,
    pub base_fingerprint: String,
    pub produced_by: AllocationId,
    pub produced_at_unix: u64,
    pub state: WarmImageState,
    pub previous: Option<WarmGeneration>,
}

impl Clone for WarmImageRecord {
    fn clone(&self) -> (copy: WarmImageRecord)
        ensures
            copy == *self,
    {
        WarmImageRecord {
            profile: self.profile.clone(),
            warm_template: self.warm_template.clone(),
            generation: self.generation,
            base_fingerprint: self.base_fingerprint.clone(),
            produced_by: self.produced_by.clone(),
            produced_at_unix: self.produced_at_unix,
            state: self.state,
            previous: self.previous.clone(),
        }
    }
}

/// An image, the generation before it and its candidate are three names.
pub proof fn law_derived_names_are_their_own(warm: WarmName)
    requires
        warm.wf(),
    ensures
        warm.previous matches Some(previous) ==> previous@ != warm.name@ && warm.name@.is_prefix_of(
            previous@,
        ),
        warm.staging matches Some(staging) ==> staging@ != warm.name@ && warm.name@.is_prefix_of(
            staging@,
        ),
        warm.previous is Some && warm.staging is Some ==> warm.previous.unwrap()@
            != warm.staging.unwrap()@,
{
    reveal_strlit(".previous");
    reveal_strlit(".staging");
    assert(PREVIOUS_SUFFIX@.len() == 9);
    assert(STAGING_SUFFIX@.len() == 8);
}

} // verus!
