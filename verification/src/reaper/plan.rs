use vstd::prelude::*;

use crate::admission::hot::is_recorded;
use crate::domain::allocation::{Allocation, AllocationId, AllocationMode, ProfileName};
use crate::domain::hot::HotGuest;
use crate::domain::image::{WarmImageRecord, WarmName};
use crate::domain::profile::{lemma_profile_index, profile_index, Config, NamedProfile};
use crate::names::NameSet;
use crate::text::{has_prefix, is_same_text};
use crate::worker::model::{HostMachine, MachineState};

verus! {

/// Nothing younger than this is swept, so a clone being created right now is
/// never a candidate.
pub const MIN_AGE_SECONDS: u64 = 3_600;

/// An image needs a longer floor, so an in-progress configuration edit cannot
/// destroy the image a profile is being repointed at.
pub const IMAGE_AGE_SECONDS: u64 = 86_400;

/// What permits a deletion, logged with the action so any sweep greps back to
/// the record that authorized it.
#[derive(Debug, PartialEq, Eq)]
pub enum ReapAuthorization {
    Record(AllocationId),
    Staging(ProfileName),
    Image(ProfileName),
    /// The configured `runtime.vm_prefix`, which is the documented ownership
    /// boundary: a prefixed name no record and no live allocation claims is an
    /// orphan of the daemon's own making, and collectable.
    Prefix,
}

impl ReapAuthorization {
    /// Two authorizations rest on the same ground.
    pub open spec fn same_as(&self, other: &ReapAuthorization) -> bool {
        match (self, other) {
            (ReapAuthorization::Record(a), ReapAuthorization::Record(b)) => a@ == b@,
            (ReapAuthorization::Staging(a), ReapAuthorization::Staging(b)) => a@ == b@,
            (ReapAuthorization::Image(a), ReapAuthorization::Image(b)) => a@ == b@,
            (ReapAuthorization::Prefix, ReapAuthorization::Prefix) => true,
            _ => false,
        }
    }

    pub fn is_same(&self, other: &ReapAuthorization) -> (is: bool)
        ensures
            is == self.same_as(other),
    {
        match (self, other) {
            (ReapAuthorization::Record(a), ReapAuthorization::Record(b)) => *a == *b,
            (ReapAuthorization::Staging(a), ReapAuthorization::Staging(b)) => *a == *b,
            (ReapAuthorization::Image(a), ReapAuthorization::Image(b)) => *a == *b,
            (ReapAuthorization::Prefix, ReapAuthorization::Prefix) => true,
            _ => false,
        }
    }
}

impl Clone for ReapAuthorization {
    fn clone(&self) -> (copy: ReapAuthorization)
        ensures
            copy == *self,
    {
        match self {
            ReapAuthorization::Record(id) => ReapAuthorization::Record(id.clone()),
            ReapAuthorization::Staging(profile) => ReapAuthorization::Staging(profile.clone()),
            ReapAuthorization::Image(profile) => ReapAuthorization::Image(profile.clone()),
            ReapAuthorization::Prefix => ReapAuthorization::Prefix,
        }
    }
}

#[derive(Debug, PartialEq, Eq)]
pub struct ReapCandidate {
    pub name: String,
    pub state: MachineState,
    pub authorization: ReapAuthorization,
    pub age_seconds: u64,
}

impl Clone for ReapCandidate {
    fn clone(&self) -> (copy: ReapCandidate)
        ensures
            copy == *self,
    {
        ReapCandidate {
            name: self.name.clone(),
            state: self.state,
            authorization: self.authorization.clone(),
            age_seconds: self.age_seconds,
        }
    }
}

/// One snapshot of everything a sweep decides from.
pub struct ReapInputs<'a> {
    pub config: &'a Config,
    pub machines: &'a Vec<HostMachine>,
    pub allocations: &'a Vec<Allocation>,
    pub images: &'a Vec<WarmImageRecord>,
    pub hot: &'a Vec<HotGuest>,
}

/// Is this the warm name itself, or one of the two derived from it?
pub open spec fn is_derived(warm: WarmName, name: Seq<char>) -> bool {
    ||| warm.name@ == name
    ||| (warm.previous matches Some(previous) && previous@ == name)
    ||| (warm.staging matches Some(staging) && staging@ == name)
}

pub fn is_derived_name(warm: &WarmName, name: &str) -> (is: bool)
    ensures
        is == is_derived(*warm, name@),
{
    if is_same_text(warm.name.as_str(), name) {
        return true;
    }
    if let Some(previous) = &warm.previous {
        if is_same_text(previous.as_str(), name) {
            return true;
        }
    }
    if let Some(staging) = &warm.staging {
        if is_same_text(staging.as_str(), name) {
            return true;
        }
    }
    false
}

/// A name one profile reserves: its template, its warm image, and the
/// generation before that. The staging name is not among them, because an
/// abandoned candidate is exactly what the sweep collects.
pub open spec fn profile_reserves(entry: NamedProfile, name: Seq<char>) -> bool {
    ||| entry.profile.template@ == name
    ||| (entry.profile.warm_template matches Some(warm) && (warm.name@ == name || (
    warm.previous matches Some(previous) && previous@ == name)))
}

/// Every image name live configuration claims.
pub open spec fn is_reserved(profiles: Seq<NamedProfile>, name: Seq<char>) -> bool {
    exists|i: int| 0 <= i < profiles.len() && profile_reserves(#[trigger] profiles[i], name)
}

/// Every image name live configuration claims. A candidate may never be one of
/// these, whatever record names it.
pub fn reserved_image_names(config: &Config) -> (reserved: NameSet)
    ensures
        reserved.wf(),
        forall|name: Seq<char>| #[trigger] reserved@.contains(name) <==> is_reserved(
            config.profiles@,
            name,
        ),
{
    let mut reserved: NameSet = NameSet::new();
    let mut i: usize = 0;
    while i < config.profiles.len()
        invariant
            i <= config.profiles@.len(),
            reserved.wf(),
            forall|name: Seq<char>| #[trigger] reserved@.contains(name) <==> is_reserved(
                config.profiles@.take(i as int),
                name,
            ),
        decreases config.profiles@.len() - i,
    {
        let entry: &NamedProfile = &config.profiles[i];
        let ghost before: Seq<NamedProfile> = config.profiles@.take(i as int);
        let ghost after: Seq<NamedProfile> = config.profiles@.take(i + 1);
        reserved.insert(entry.profile.template.clone());
        if let Some(warm) = &entry.profile.warm_template {
            reserved.insert(warm.name.clone());
            if let Some(previous) = &warm.previous {
                reserved.insert(previous.clone());
            }
        }
        proof {
            assert(after =~= before.push(*entry));
            assert forall|name: Seq<char>| #[trigger] is_reserved(after, name) <==> (is_reserved(
                before,
                name,
            ) || profile_reserves(*entry, name)) by {
                if is_reserved(before, name) {
                    let k: int = choose|k: int|
                        0 <= k < before.len() && profile_reserves(#[trigger] before[k], name);
                    assert(after[k] == before[k]);
                }
                if profile_reserves(*entry, name) {
                    assert(after[before.len() as int] == *entry);
                }
                if is_reserved(after, name) {
                    let k: int = choose|k: int|
                        0 <= k < after.len() && profile_reserves(#[trigger] after[k], name);
                    if k < before.len() {
                        assert(before[k] == after[k]);
                    }
                }
            }
        }
        i = i + 1;
    }
    assert(config.profiles@.take(config.profiles@.len() as int) =~= config.profiles@);
    reserved
}

/// A name one allocation keeps: the machine it is bound to while it goes on,
/// and all three of its profile's image names while it regenerates.
pub open spec fn allocation_protects(
    allocation: Allocation,
    config: Config,
    name: Seq<char>,
) -> bool {
    &&& allocation.live()
    &&& {
        ||| allocation.vm_name@ == name
        ||| (allocation.mode is Regenerate && (config.named(
            allocation.request.profile@,
        ) matches Some(profile) && (profile.warm_template matches Some(warm) && is_derived(
            warm,
            name,
        ))))
    }
}

fn is_allocation_protecting(allocation: &Allocation, config: &Config, name: &str) -> (is: bool)
    ensures
        is == allocation_protects(*allocation, *config, name@),
{
    if allocation.state.is_terminal() {
        return false;
    }
    if is_same_text(allocation.vm_name.as_str(), name) {
        return true;
    }
    if allocation.mode != AllocationMode::Regenerate {
        return false;
    }
    match config.find(allocation.request.profile.as_str()) {
        Some(profile) => match &profile.warm_template {
            Some(warm) => is_derived_name(warm, name),
            None => false,
        },
        None => false,
    }
}

/// Names no sweep may consider: anything an active allocation is bound to,
/// every machine a live hot record claims, every configured template, and
/// every image a live profile still references.
pub open spec fn is_protected(
    config: Config,
    allocations: Seq<Allocation>,
    hot: Seq<HotGuest>,
    name: Seq<char>,
) -> bool {
    ||| exists|i: int|
        0 <= i < allocations.len() && allocation_protects(
            #[trigger] allocations[i],
            config,
            name,
        )
    ||| is_recorded(hot, name)
    ||| is_reserved(config.profiles@, name)
}

/// Is this name one that no sweep may consider?
pub fn is_protected_name(inputs: &ReapInputs, reserved: &NameSet, name: &str) -> (is: bool)
    requires
        forall|other: Seq<char>| #[trigger] reserved@.contains(other) <==> is_reserved(
            inputs.config.profiles@,
            other,
        ),
    ensures
        is == is_protected(*inputs.config, inputs.allocations@, inputs.hot@, name@),
{
    let mut i: usize = 0;
    while i < inputs.allocations.len()
        invariant
            i <= inputs.allocations@.len(),
            forall|k: int|
                0 <= k < i ==> !allocation_protects(
                    #[trigger] inputs.allocations@[k],
                    *inputs.config,
                    name@,
                ),
        decreases inputs.allocations@.len() - i,
    {
        if is_allocation_protecting(&inputs.allocations[i], inputs.config, name) {
            assert(allocation_protects(
                inputs.allocations@[i as int],
                *inputs.config,
                name@,
            ));
            return true;
        }
        i = i + 1;
    }
    let mut j: usize = 0;
    while j < inputs.hot.len()
        invariant
            j <= inputs.hot@.len(),
            forall|k: int|
                0 <= k < j ==> !((#[trigger] inputs.hot@[k]).state.holding()
                    && inputs.hot@[k].vm_name@ == name@),
        decreases inputs.hot@.len() - j,
    {
        let guest: &HotGuest = &inputs.hot[j];
        if guest.state.is_holding_machine() && is_same_text(guest.vm_name.as_str(), name) {
            assert(inputs.hot@[j as int].state.holding());
            assert(is_recorded(inputs.hot@, name@));
            return true;
        }
        j = j + 1;
    }
    assert(!is_recorded(inputs.hot@, name@));
    reserved.contains(name)
}

/// A finished allocation that proves the daemon created this clone.
pub open spec fn is_created_record(allocation: Allocation, name: Seq<char>) -> bool {
    allocation.state.terminal() && allocation.vm_created && allocation.vm_name@ == name
}

/// A terminal record that proves the daemon created the clone names the
/// deletion; without one the configured prefix does.
pub open spec fn record_authorization(
    allocations: Seq<Allocation>,
    name: Seq<char>,
) -> ReapAuthorization
    decreases allocations.len(),
{
    if allocations.len() == 0 {
        ReapAuthorization::Prefix
    } else {
        match record_authorization(allocations.drop_last(), name) {
            ReapAuthorization::Prefix => if is_created_record(allocations.last(), name) {
                ReapAuthorization::Record(allocations.last().id)
            } else {
                ReapAuthorization::Prefix
            },
            found => found,
        }
    }
}

/// A terminal record that proves the daemon created the clone names the
/// deletion; without one the configured prefix does, because a prefixed name
/// nothing claims is an orphan this daemon left behind.
fn clone_authorization(inputs: &ReapInputs, name: &str) -> (authorization: ReapAuthorization)
    ensures
        authorization == record_authorization(inputs.allocations@, name@),
{
    let mut i: usize = 0;
    while i < inputs.allocations.len()
        invariant
            i <= inputs.allocations@.len(),
            record_authorization(inputs.allocations@.take(i as int), name@)
                == ReapAuthorization::Prefix,
        decreases inputs.allocations@.len() - i,
    {
        let allocation: &Allocation = &inputs.allocations[i];
        proof {
            assert(inputs.allocations@.take(i + 1).drop_last() =~= inputs.allocations@.take(
                i as int,
            ));
            assert(inputs.allocations@.take(i + 1).last() == *allocation);
        }
        if allocation.state.is_terminal() && allocation.vm_created && is_same_text(
            allocation.vm_name.as_str(),
            name,
        ) {
            proof {
                lemma_record_authorization_stays(inputs.allocations@, name@, i + 1);
            }
            return ReapAuthorization::Record(allocation.id.clone());
        }
        i = i + 1;
    }
    assert(inputs.allocations@.take(inputs.allocations@.len() as int) =~= inputs.allocations@);
    ReapAuthorization::Prefix
}

proof fn lemma_record_authorization_stays(
    allocations: Seq<Allocation>,
    name: Seq<char>,
    count: int,
)
    requires
        0 <= count <= allocations.len(),
        !(record_authorization(allocations.take(count), name) is Prefix),
    ensures
        record_authorization(allocations, name) == record_authorization(
            allocations.take(count),
            name,
        ),
    decreases allocations.len(),
{
    if count == allocations.len() {
        assert(allocations.take(count) =~= allocations);
    } else {
        assert(allocations.drop_last().take(count) =~= allocations.take(count));
        lemma_record_authorization_stays(allocations.drop_last(), name, count);
    }
}

/// A profile that sweeps its own candidate of this name.
pub open spec fn profile_stages(entry: NamedProfile, name: Seq<char>) -> bool {
    entry.profile.reap && (entry.profile.warm_template matches Some(warm) && (
    warm.staging matches Some(staging) && staging@ == name))
}

/// The first profile that sweeps its own candidate of this name.
pub open spec fn staging_profile(profiles: Seq<NamedProfile>, name: Seq<char>) -> Option<
    ProfileName,
>
    decreases profiles.len(),
{
    if profiles.len() == 0 {
        None
    } else {
        match staging_profile(profiles.drop_last(), name) {
            Some(found) => Some(found),
            None => if profile_stages(profiles.last(), name) {
                Some(profiles.last().name)
            } else {
                None
            },
        }
    }
}

/// A profile that opted out keeps its images; a profile that is gone cannot.
pub open spec fn is_reapable(config: Config, profile: Seq<char>) -> bool {
    config.named(profile) matches Some(found) ==> found.reap
}

fn is_reapable_profile(config: &Config, profile: &str) -> (is: bool)
    ensures
        is == is_reapable(*config, profile@),
{
    match config.find(profile) {
        Some(found) => found.reap,
        None => true,
    }
}

/// The profile of the first sweepable image record that names this machine.
pub open spec fn image_profile(
    images: Seq<WarmImageRecord>,
    config: Config,
    name: Seq<char>,
) -> Option<ProfileName>
    decreases images.len(),
{
    if images.len() == 0 {
        None
    } else {
        match image_profile(images.drop_last(), config, name) {
            Some(found) => Some(found),
            None => if is_reapable(config, images.last().profile@) && is_derived(
                images.last().warm_template,
                name,
            ) {
                Some(images.last().profile)
            } else {
                None
            },
        }
    }
}

/// What authorizes a deletion outside the prefix: there the daemon owns only
/// the names its own records claim.
pub open spec fn image_ground(
    config: Config,
    images: Seq<WarmImageRecord>,
    name: Seq<char>,
    age_seconds: u64,
) -> Option<ReapAuthorization> {
    match staging_profile(config.profiles@, name) {
        Some(profile) => Some(ReapAuthorization::Staging(profile)),
        None => if age_seconds < IMAGE_AGE_SECONDS {
            None
        } else {
            match image_profile(images, config, name) {
                Some(profile) => Some(ReapAuthorization::Image(profile)),
                None => None,
            }
        },
    }
}

/// Outside the prefix the daemon owns only the names its own records claim.
fn image_authorization(inputs: &ReapInputs, name: &str, age_seconds: u64) -> (authorization: Option<
    ReapAuthorization,
>)
    ensures
        authorization == image_ground(*inputs.config, inputs.images@, name@, age_seconds),
{
    let ghost profiles: Seq<NamedProfile> = inputs.config.profiles@;
    let mut staging: Option<&ProfileName> = None;
    let mut i: usize = 0;
    while i < inputs.config.profiles.len()
        invariant
            profiles == inputs.config.profiles@,
            i <= profiles.len(),
            match staging {
                Some(found) => staging_profile(profiles.take(i as int), name@) == Some(*found),
                None => staging_profile(profiles.take(i as int), name@) is None,
            },
        decreases profiles.len() - i,
    {
        let entry: &NamedProfile = &inputs.config.profiles[i];
        proof {
            assert(profiles.take(i + 1).drop_last() =~= profiles.take(i as int));
            assert(profiles.take(i + 1).last() == *entry);
        }
        if staging.is_none() && entry.profile.reap {
            if let Some(warm) = &entry.profile.warm_template {
                if let Some(value) = &warm.staging {
                    if is_same_text(value.as_str(), name) {
                        staging = Some(&entry.name);
                    }
                }
            }
        }
        i = i + 1;
    }
    assert(profiles.take(profiles.len() as int) =~= profiles);
    if let Some(found) = staging {
        return Some(ReapAuthorization::Staging(found.clone()));
    }
    if age_seconds < IMAGE_AGE_SECONDS {
        return None;
    }
    let ghost images: Seq<WarmImageRecord> = inputs.images@;
    let mut image: Option<&ProfileName> = None;
    let mut j: usize = 0;
    while j < inputs.images.len()
        invariant
            images == inputs.images@,
            j <= images.len(),
            match image {
                Some(found) => image_profile(images.take(j as int), *inputs.config, name@) == Some(
                    *found,
                ),
                None => image_profile(images.take(j as int), *inputs.config, name@) is None,
            },
        decreases images.len() - j,
    {
        let record: &WarmImageRecord = &inputs.images[j];
        proof {
            assert(images.take(j + 1).drop_last() =~= images.take(j as int));
            assert(images.take(j + 1).last() == *record);
        }
        if image.is_none() && is_reapable_profile(inputs.config, record.profile.as_str())
            && is_derived_name(&record.warm_template, name) {
            image = Some(&record.profile);
        }
        j = j + 1;
    }
    assert(images.take(images.len() as int) =~= images);
    match image {
        Some(found) => Some(ReapAuthorization::Image(found.clone())),
        None => None,
    }
}

/// Why a machine of this name and age may be deleted, if it may be.
pub open spec fn ground(
    config: Config,
    allocations: Seq<Allocation>,
    images: Seq<WarmImageRecord>,
    name: Seq<char>,
    age_seconds: u64,
) -> Option<ReapAuthorization> {
    if age_seconds < MIN_AGE_SECONDS {
        None
    } else if config.runtime.vm_prefix@.is_prefix_of(name) {
        Some(record_authorization(allocations, name))
    } else {
        image_ground(config, images, name, age_seconds)
    }
}

/// One machine as a candidate, if it is one.
pub open spec fn candidate_of(
    config: Config,
    allocations: Seq<Allocation>,
    images: Seq<WarmImageRecord>,
    hot: Seq<HotGuest>,
    machine: HostMachine,
) -> Option<ReapCandidate> {
    if is_protected(config, allocations, hot, machine.name@) {
        None
    } else {
        match machine.age_seconds {
            None => None,
            Some(age_seconds) => match ground(
                config,
                allocations,
                images,
                machine.name@,
                age_seconds,
            ) {
                None => None,
                Some(authorization) => Some(
                    ReapCandidate {
                        name: machine.name,
                        state: machine.state,
                        authorization,
                        age_seconds,
                    },
                ),
            },
        }
    }
}

/// The candidates of a listing, machine by machine.
pub open spec fn planned(
    config: Config,
    machines: Seq<HostMachine>,
    allocations: Seq<Allocation>,
    images: Seq<WarmImageRecord>,
    hot: Seq<HotGuest>,
) -> Seq<ReapCandidate>
    decreases machines.len(),
{
    if machines.len() == 0 {
        Seq::empty()
    } else {
        let rest = planned(config, machines.drop_last(), allocations, images, hot);
        match candidate_of(config, allocations, images, hot, machines.last()) {
            Some(candidate) => rest.push(candidate),
            None => rest,
        }
    }
}

fn candidate(inputs: &ReapInputs, machine: &HostMachine, prefix: &str) -> (found: Option<
    ReapCandidate,
>)
    requires
        prefix@ == inputs.config.runtime.vm_prefix@,
        !is_protected(*inputs.config, inputs.allocations@, inputs.hot@, machine.name@),
    ensures
        found == candidate_of(
            *inputs.config,
            inputs.allocations@,
            inputs.images@,
            inputs.hot@,
            *machine,
        ),
{
    // No age, no candidacy: the minimum-age gate is what keeps an allocation
    // still being set up out of the sweep. `unaged_candidates` reports these.
    let age_seconds: u64 = match machine.age_seconds {
        Some(age) => age,
        None => {
            return None;
        },
    };
    if age_seconds < MIN_AGE_SECONDS {
        return None;
    }
    let authorization: Option<ReapAuthorization> = if has_prefix(machine.name.as_str(), prefix) {
        Some(clone_authorization(inputs, machine.name.as_str()))
    } else {
        image_authorization(inputs, machine.name.as_str(), age_seconds)
    };
    match authorization {
        Some(authorization) => Some(
            ReapCandidate {
                name: machine.name.clone(),
                state: machine.state,
                authorization,
                age_seconds,
            },
        ),
        None => None,
    }
}

/// Turns one snapshot into typed candidates. Deletes nothing.
pub fn plan_sweep(inputs: &ReapInputs) -> (candidates: Vec<ReapCandidate>)
    ensures
        candidates@ == planned(
            *inputs.config,
            inputs.machines@,
            inputs.allocations@,
            inputs.images@,
            inputs.hot@,
        ),
{
    let reserved: NameSet = reserved_image_names(inputs.config);
    let prefix: &str = inputs.config.runtime.vm_prefix.as_str();
    let ghost machines: Seq<HostMachine> = inputs.machines@;
    let mut candidates: Vec<ReapCandidate> = Vec::new();
    let mut i: usize = 0;
    while i < inputs.machines.len()
        invariant
            machines == inputs.machines@,
            prefix@ == inputs.config.runtime.vm_prefix@,
            forall|other: Seq<char>| #[trigger] reserved@.contains(other) <==> is_reserved(
                inputs.config.profiles@,
                other,
            ),
            i <= machines.len(),
            candidates@ == planned(
                *inputs.config,
                machines.take(i as int),
                inputs.allocations@,
                inputs.images@,
                inputs.hot@,
            ),
        decreases machines.len() - i,
    {
        let machine: &HostMachine = &inputs.machines[i];
        proof {
            assert(machines.take(i + 1).drop_last() =~= machines.take(i as int));
            assert(machines.take(i + 1).last() == *machine);
        }
        if !is_protected_name(inputs, &reserved, machine.name.as_str()) {
            if let Some(found) = candidate(inputs, machine, prefix) {
                candidates.push(found);
            }
        }
        i = i + 1;
    }
    assert(machines.take(machines.len() as int) =~= machines);
    candidates
}

/// A prefix-owned machine nothing protects and nothing can date.
pub open spec fn is_unaged(
    config: Config,
    allocations: Seq<Allocation>,
    hot: Seq<HotGuest>,
    machine: HostMachine,
) -> bool {
    &&& machine.age_seconds is None
    &&& config.runtime.vm_prefix@.is_prefix_of(machine.name@)
    &&& !is_protected(config, allocations, hot, machine.name@)
}

/// The names of such machines, machine by machine.
pub open spec fn unaged(
    config: Config,
    machines: Seq<HostMachine>,
    allocations: Seq<Allocation>,
    hot: Seq<HotGuest>,
) -> Seq<String>
    decreases machines.len(),
{
    if machines.len() == 0 {
        Seq::empty()
    } else {
        let rest = unaged(config, machines.drop_last(), allocations, hot);
        if is_unaged(config, allocations, hot, machines.last()) {
            rest.push(machines.last().name)
        } else {
            rest
        }
    }
}

/// Prefix-owned names the sweep had to drop because no age is determinable.
/// The age gate cannot be applied to them, so they are never swept; reporting
/// them keeps a VM the daemon can never collect visible rather than silent.
pub fn unaged_candidates(inputs: &ReapInputs) -> (names: Vec<String>)
    ensures
        names@ == unaged(*inputs.config, inputs.machines@, inputs.allocations@, inputs.hot@),
{
    let reserved: NameSet = reserved_image_names(inputs.config);
    let prefix: &str = inputs.config.runtime.vm_prefix.as_str();
    let ghost machines: Seq<HostMachine> = inputs.machines@;
    let mut names: Vec<String> = Vec::new();
    let mut i: usize = 0;
    while i < inputs.machines.len()
        invariant
            machines == inputs.machines@,
            prefix@ == inputs.config.runtime.vm_prefix@,
            forall|other: Seq<char>| #[trigger] reserved@.contains(other) <==> is_reserved(
                inputs.config.profiles@,
                other,
            ),
            i <= machines.len(),
            names@ == unaged(
                *inputs.config,
                machines.take(i as int),
                inputs.allocations@,
                inputs.hot@,
            ),
        decreases machines.len() - i,
    {
        let machine: &HostMachine = &inputs.machines[i];
        proof {
            assert(machines.take(i + 1).drop_last() =~= machines.take(i as int));
            assert(machines.take(i + 1).last() == *machine);
        }
        if machine.age_seconds.is_none() && has_prefix(machine.name.as_str(), prefix)
            && !is_protected_name(inputs, &reserved, machine.name.as_str()) {
            names.push(machine.name.clone());
        }
        i = i + 1;
    }
    assert(machines.take(machines.len() as int) =~= machines);
    names
}

/// Every candidate of a plan is a listed machine that is a candidate by itself.
pub proof fn lemma_planned_from(
    config: Config,
    machines: Seq<HostMachine>,
    allocations: Seq<Allocation>,
    images: Seq<WarmImageRecord>,
    hot: Seq<HotGuest>,
    i: int,
) -> (k: int)
    requires
        0 <= i < planned(config, machines, allocations, images, hot).len(),
    ensures
        0 <= k < machines.len(),
        candidate_of(config, allocations, images, hot, machines[k]) == Some(
            planned(config, machines, allocations, images, hot)[i],
        ),
    decreases machines.len(),
{
    let rest = planned(config, machines.drop_last(), allocations, images, hot);
    if i < rest.len() {
        lemma_planned_from(config, machines.drop_last(), allocations, images, hot, i)
    } else {
        machines.len() - 1
    }
}

/// A listed machine that is a candidate by itself is in the plan.
pub proof fn lemma_planned_holds(
    config: Config,
    machines: Seq<HostMachine>,
    allocations: Seq<Allocation>,
    images: Seq<WarmImageRecord>,
    hot: Seq<HotGuest>,
    k: int,
)
    requires
        0 <= k < machines.len(),
        candidate_of(config, allocations, images, hot, machines[k]) is Some,
    ensures
        planned(config, machines, allocations, images, hot).contains(
            candidate_of(config, allocations, images, hot, machines[k]).unwrap(),
        ),
    decreases machines.len(),
{
    let rest = planned(config, machines.drop_last(), allocations, images, hot);
    let all = planned(config, machines, allocations, images, hot);
    let wanted = candidate_of(config, allocations, images, hot, machines[k]).unwrap();
    if k == machines.len() - 1 {
        assert(all[rest.len() as int] == wanted);
    } else {
        lemma_planned_holds(config, machines.drop_last(), allocations, images, hot, k);
        let i: int = choose|i: int| 0 <= i < rest.len() && rest[i] == wanted;
        assert(all[i] == wanted);
    }
}

/// A sweep never plans a protected name: not the machine of an allocation that
/// is still going, not one a live pool record holds, not an image the
/// configuration reserves.
pub proof fn law_protected_is_never_planned(
    config: Config,
    machines: Seq<HostMachine>,
    allocations: Seq<Allocation>,
    images: Seq<WarmImageRecord>,
    hot: Seq<HotGuest>,
    i: int,
)
    requires
        0 <= i < planned(config, machines, allocations, images, hot).len(),
    ensures
        !is_protected(
            config,
            allocations,
            hot,
            planned(config, machines, allocations, images, hot)[i].name@,
        ),
{
    let k = lemma_planned_from(config, machines, allocations, images, hot, i);
}

/// A sweep plans nothing younger than the minimum age, and no image younger
/// than the image age.
pub proof fn law_planned_is_old_enough(
    config: Config,
    machines: Seq<HostMachine>,
    allocations: Seq<Allocation>,
    images: Seq<WarmImageRecord>,
    hot: Seq<HotGuest>,
    i: int,
)
    requires
        0 <= i < planned(config, machines, allocations, images, hot).len(),
    ensures
        planned(config, machines, allocations, images, hot)[i].age_seconds >= MIN_AGE_SECONDS,
        planned(config, machines, allocations, images, hot)[i].authorization is Image ==> planned(
            config,
            machines,
            allocations,
            images,
            hot,
        )[i].age_seconds >= IMAGE_AGE_SECONDS,
{
    let k = lemma_planned_from(config, machines, allocations, images, hot, i);
    lemma_record_authorization_kind(allocations, machines[k].name@);
}

proof fn lemma_record_authorization_kind(allocations: Seq<Allocation>, name: Seq<char>)
    ensures
        match record_authorization(allocations, name) {
            ReapAuthorization::Record(id) => exists|i: int|
                0 <= i < allocations.len() && is_created_record(#[trigger] allocations[i], name)
                    && allocations[i].id == id,
            ReapAuthorization::Prefix => forall|i: int|
                0 <= i < allocations.len() ==> !is_created_record(#[trigger] allocations[i], name),
            _ => false,
        },
    decreases allocations.len(),
{
    if allocations.len() > 0 {
        let rest = allocations.drop_last();
        lemma_record_authorization_kind(rest, name);
        match record_authorization(rest, name) {
            ReapAuthorization::Record(id) => {
                let i: int = choose|i: int|
                    0 <= i < rest.len() && is_created_record(#[trigger] rest[i], name)
                        && rest[i].id == id;
                assert(allocations[i] == rest[i]);
            },
            _ => {
                assert forall|i: int| 0 <= i < rest.len() implies !is_created_record(
                    #[trigger] allocations[i],
                    name,
                ) by {
                    assert(rest[i] == allocations[i]);
                }
                if is_created_record(allocations.last(), name) {
                    assert(is_created_record(allocations[allocations.len() - 1], name));
                }
            },
        }
    }
}

/// Inside the prefix a finished record that created the clone authorizes its
/// deletion, and where none does the prefix itself; outside the prefix nothing
/// but a staging name of a sweeping profile or a recorded image does.
pub proof fn law_authorization_has_its_ground(
    config: Config,
    machines: Seq<HostMachine>,
    allocations: Seq<Allocation>,
    images: Seq<WarmImageRecord>,
    hot: Seq<HotGuest>,
    i: int,
)
    requires
        0 <= i < planned(config, machines, allocations, images, hot).len(),
    ensures
        ({
            let candidate = planned(config, machines, allocations, images, hot)[i];
            let owned = config.runtime.vm_prefix@.is_prefix_of(candidate.name@);
            match candidate.authorization {
                ReapAuthorization::Record(id) => owned && exists|k: int|
                    0 <= k < allocations.len() && is_created_record(
                        #[trigger] allocations[k],
                        candidate.name@,
                    ) && allocations[k].id == id,
                ReapAuthorization::Prefix => owned && forall|k: int|
                    0 <= k < allocations.len() ==> !is_created_record(
                        #[trigger] allocations[k],
                        candidate.name@,
                    ),
                ReapAuthorization::Staging(profile) => !owned && exists|k: int|
                    0 <= k < config.profiles@.len() && profile_stages(
                        #[trigger] config.profiles@[k],
                        candidate.name@,
                    ) && config.profiles@[k].name == profile,
                ReapAuthorization::Image(profile) => !owned && exists|k: int|
                    0 <= k < images.len() && is_derived(
                        (#[trigger] images[k]).warm_template,
                        candidate.name@,
                    ) && images[k].profile == profile && is_reapable(config, profile@),
            }
        }),
{
    let k = lemma_planned_from(config, machines, allocations, images, hot, i);
    let name = machines[k].name@;
    lemma_record_authorization_kind(allocations, name);
    lemma_staging_profile(config.profiles@, name);
    lemma_image_profile(images, config, name);
}

proof fn lemma_staging_profile(profiles: Seq<NamedProfile>, name: Seq<char>)
    ensures
        staging_profile(profiles, name) matches Some(found) ==> exists|i: int|
            0 <= i < profiles.len() && profile_stages(#[trigger] profiles[i], name)
                && profiles[i].name == found,
    decreases profiles.len(),
{
    if profiles.len() > 0 {
        let rest = profiles.drop_last();
        lemma_staging_profile(rest, name);
        match staging_profile(rest, name) {
            Some(found) => {
                let i: int = choose|i: int|
                    0 <= i < rest.len() && profile_stages(#[trigger] rest[i], name)
                        && rest[i].name == found;
                assert(profiles[i] == rest[i]);
            },
            None => {
                if profile_stages(profiles.last(), name) {
                    assert(profile_stages(profiles[profiles.len() - 1], name));
                }
            },
        }
    }
}

proof fn lemma_image_profile(images: Seq<WarmImageRecord>, config: Config, name: Seq<char>)
    ensures
        image_profile(images, config, name) matches Some(found) ==> exists|i: int|
            0 <= i < images.len() && is_derived((#[trigger] images[i]).warm_template, name)
                && images[i].profile == found && is_reapable(config, found@),
    decreases images.len(),
{
    if images.len() > 0 {
        let rest = images.drop_last();
        lemma_image_profile(rest, config, name);
        match image_profile(rest, config, name) {
            Some(found) => {
                let i: int = choose|i: int|
                    0 <= i < rest.len() && is_derived((#[trigger] rest[i]).warm_template, name)
                        && rest[i].profile == found && is_reapable(config, found@);
                assert(images[i] == rest[i]);
            },
            None => {
                if is_derived(images.last().warm_template, name) {
                    assert(is_derived(images[images.len() - 1].warm_template, name));
                }
            },
        }
    }
}

/// A name reported as undatable is never planned by the same snapshot, as long
/// as the host lists a name once.
pub proof fn law_unaged_is_never_planned(
    config: Config,
    machines: Seq<HostMachine>,
    allocations: Seq<Allocation>,
    images: Seq<WarmImageRecord>,
    hot: Seq<HotGuest>,
    i: int,
    j: int,
)
    requires
        forall|a: int, b: int|
            0 <= a < b < machines.len() ==> (#[trigger] machines[a]).name@ != (
            #[trigger] machines[b]).name@,
        0 <= i < planned(config, machines, allocations, images, hot).len(),
        0 <= j < unaged(config, machines, allocations, hot).len(),
    ensures
        planned(config, machines, allocations, images, hot)[i].name@ != unaged(
            config,
            machines,
            allocations,
            hot,
        )[j]@,
{
    let a = lemma_planned_from(config, machines, allocations, images, hot, i);
    let b = lemma_unaged_from(config, machines, allocations, hot, j);
    assert(a != b);
}

proof fn lemma_unaged_from(
    config: Config,
    machines: Seq<HostMachine>,
    allocations: Seq<Allocation>,
    hot: Seq<HotGuest>,
    j: int,
) -> (k: int)
    requires
        0 <= j < unaged(config, machines, allocations, hot).len(),
    ensures
        0 <= k < machines.len(),
        is_unaged(config, allocations, hot, machines[k]),
        machines[k].name == unaged(config, machines, allocations, hot)[j],
    decreases machines.len(),
{
    let rest = unaged(config, machines.drop_last(), allocations, hot);
    if j < rest.len() {
        lemma_unaged_from(config, machines.drop_last(), allocations, hot, j)
    } else {
        machines.len() - 1
    }
}

/// A machine that something still needs is never planned, whatever its age, its
/// state and its name. Still needed is what an allocation that is not over is
/// bound to; what any pool record that is not evicted names, claimed or not; what
/// a profile boots from, its warm image and the generation before it; and, while
/// a profile regenerates, its candidate too.
pub proof fn law_needed_machine_is_never_planned(
    config: Config,
    machines: Seq<HostMachine>,
    allocations: Seq<Allocation>,
    images: Seq<WarmImageRecord>,
    hot: Seq<HotGuest>,
    i: int,
)
    requires
        0 <= i < planned(config, machines, allocations, images, hot).len(),
    ensures
        ({
            let name = planned(config, machines, allocations, images, hot)[i].name@;
            &&& forall|j: int|
                0 <= j < hot.len() && (#[trigger] hot[j]).vm_name@ == name
                    ==> hot[j].state is Evicted
            &&& forall|j: int|
                0 <= j < allocations.len() && (#[trigger] allocations[j]).vm_name@ == name
                    ==> allocations[j].state is Completed || allocations[j].state is Failed
                    || allocations[j].state is Cancelled
            &&& forall|j: int|
                0 <= j < config.profiles@.len() ==> {
                    &&& (#[trigger] config.profiles@[j]).profile.template@ != name
                    &&& config.profiles@[j].profile.warm_template matches Some(warm) ==> {
                        &&& warm.name@ != name
                        &&& warm.previous matches Some(previous) ==> previous@ != name
                    }
                }
            &&& forall|j: int, k: int|
                #![trigger allocations[j], config.profiles@[k]]
                0 <= j < allocations.len() && !(allocations[j].state is Completed
                    || allocations[j].state is Failed || allocations[j].state is Cancelled)
                    && allocations[j].mode is Regenerate && 0 <= k < config.profiles@.len()
                    && config.profiles@[k].name@ == allocations[j].request.profile@ && (forall|
                    m: int,
                |
                    0 <= m < k ==> (#[trigger] config.profiles@[m]).name@
                        != allocations[j].request.profile@) ==> (
                config.profiles@[k].profile.warm_template matches Some(warm) ==> (
                warm.staging matches Some(staging) ==> staging@ != name))
        }),
{
    let at = lemma_planned_from(config, machines, allocations, images, hot, i);
    let name = planned(config, machines, allocations, images, hot)[i].name@;
    assert(!is_protected(config, allocations, hot, name));
    assert forall|j: int| 0 <= j < hot.len() && (#[trigger] hot[j]).vm_name@ == name implies hot[j].state is Evicted by {
        if !(hot[j].state is Evicted) {
            assert(hot[j].state.holding());
            assert(is_recorded(hot, name));
        }
    }
    assert forall|j: int|
        0 <= j < allocations.len() && (#[trigger] allocations[j]).vm_name@
            == name implies allocations[j].state is Completed || allocations[j].state is Failed
        || allocations[j].state is Cancelled by {
        if allocations[j].live() {
            assert(allocation_protects(allocations[j], config, name));
        }
    }
    assert forall|j: int| 0 <= j < config.profiles@.len() implies {
        &&& (#[trigger] config.profiles@[j]).profile.template@ != name
        &&& config.profiles@[j].profile.warm_template matches Some(warm) ==> {
            &&& warm.name@ != name
            &&& warm.previous matches Some(previous) ==> previous@ != name
        }
    } by {
        assert(!profile_reserves(config.profiles@[j], name));
    }
    assert forall|j: int, k: int|
        #![trigger allocations[j], config.profiles@[k]]
        0 <= j < allocations.len() && !(allocations[j].state is Completed
            || allocations[j].state is Failed || allocations[j].state is Cancelled)
            && allocations[j].mode is Regenerate && 0 <= k < config.profiles@.len()
            && config.profiles@[k].name@ == allocations[j].request.profile@ && (forall|m: int|
            0 <= m < k ==> (#[trigger] config.profiles@[m]).name@
                != allocations[j].request.profile@) implies (
    config.profiles@[k].profile.warm_template matches Some(warm) ==> (
    warm.staging matches Some(staging) ==> staging@ != name)) by {
        lemma_profile_index(config.profiles@, allocations[j].request.profile@);
        if let Some(first) = profile_index(config.profiles@, allocations[j].request.profile@) {
            if first < k {
                assert(config.profiles@[first].name@ != allocations[j].request.profile@);
            }
            assert(first == k);
            assert(!allocation_protects(allocations[j], config, name));
        }
    }
}

/// An orphan of the daemon's own is always planned: a machine under the prefix
/// that is at least an hour old, and that no unfinished allocation, no pool
/// record that is not evicted and no profile needs, while nothing regenerates. A
/// finished allocation that created it authorizes the deletion, and where there
/// is none the prefix.
pub proof fn law_owned_orphan_is_planned(
    config: Config,
    machines: Seq<HostMachine>,
    allocations: Seq<Allocation>,
    images: Seq<WarmImageRecord>,
    hot: Seq<HotGuest>,
    k: int,
)
    requires
        0 <= k < machines.len(),
        config.runtime.vm_prefix@.is_prefix_of(machines[k].name@),
        machines[k].age_seconds matches Some(age) && age >= 3_600,
        forall|j: int|
            0 <= j < hot.len() && (#[trigger] hot[j]).vm_name@ == machines[k].name@
                ==> hot[j].state is Evicted,
        forall|j: int|
            0 <= j < allocations.len() && ((#[trigger] allocations[j]).vm_name@
                == machines[k].name@ || allocations[j].mode is Regenerate)
                ==> allocations[j].state is Completed || allocations[j].state is Failed
                || allocations[j].state is Cancelled,
        forall|j: int|
            0 <= j < config.profiles@.len() ==> (#[trigger] config.profiles@[j]).profile.template@
                != machines[k].name@ && (config.profiles@[j].profile.warm_template matches Some(
                warm,
            ) ==> warm.name@ != machines[k].name@ && (warm.previous matches Some(previous)
                ==> previous@ != machines[k].name@)),
    ensures
        exists|i: int|
            #![trigger planned(config, machines, allocations, images, hot)[i]]
            0 <= i < planned(config, machines, allocations, images, hot).len() && {
                let candidate = planned(config, machines, allocations, images, hot)[i];
                &&& candidate.name@ == machines[k].name@
                &&& candidate.state == machines[k].state
                &&& Some(candidate.age_seconds) == machines[k].age_seconds
                &&& match candidate.authorization {
                    ReapAuthorization::Prefix => forall|j: int|
                        0 <= j < allocations.len() ==> !(
                        (#[trigger] allocations[j]).vm_created && allocations[j].vm_name@
                            == machines[k].name@),
                    ReapAuthorization::Record(id) => exists|j: int|
                        0 <= j < allocations.len() && (#[trigger] allocations[j]).vm_created
                            && allocations[j].vm_name@ == machines[k].name@ && allocations[j].id
                            == id,
                    _ => false,
                }
            },
{
    let name = machines[k].name@;
    assert forall|j: int| 0 <= j < allocations.len() implies !allocation_protects(
        #[trigger] allocations[j],
        config,
        name,
    ) by {}
    assert(!is_recorded(hot, name));
    assert(!is_reserved(config.profiles@, name));
    assert(!is_protected(config, allocations, hot, name));
    lemma_record_authorization_kind(allocations, name);
    lemma_planned_holds(config, machines, allocations, images, hot, k);
    let all = planned(config, machines, allocations, images, hot);
    let wanted = candidate_of(config, allocations, images, hot, machines[k]).unwrap();
    let i: int = choose|i: int| 0 <= i < all.len() && all[i] == wanted;
    assert(all[i] == wanted);
    assert(wanted.authorization == record_authorization(allocations, name));
    match wanted.authorization {
        ReapAuthorization::Prefix => {
            assert forall|j: int| 0 <= j < allocations.len() implies !(
            (#[trigger] allocations[j]).vm_created && allocations[j].vm_name@ == name) by {
                assert(!is_created_record(allocations[j], name));
            }
        },
        ReapAuthorization::Record(id) => {
            let j: int = choose|j: int|
                0 <= j < allocations.len() && is_created_record(#[trigger] allocations[j], name)
                    && allocations[j].id == id;
            assert(allocations[j].vm_created && allocations[j].vm_name@ == name);
        },
        _ => {},
    }
}

/// What a plan holds is there, is old enough, and has a ground in the inputs
/// themselves: a listed machine at least an hour old; under the prefix a finished
/// allocation that created it, or nothing but the prefix; elsewhere a candidate
/// name of a profile that sweeps, or, after a day, a name of a recorded image
/// whose profile sweeps or is gone.
pub proof fn law_planned_has_a_ground_in_the_inputs(
    config: Config,
    machines: Seq<HostMachine>,
    allocations: Seq<Allocation>,
    images: Seq<WarmImageRecord>,
    hot: Seq<HotGuest>,
    i: int,
)
    requires
        0 <= i < planned(config, machines, allocations, images, hot).len(),
    ensures
        ({
            let candidate = planned(config, machines, allocations, images, hot)[i];
            let name = candidate.name@;
            let is_ours = config.runtime.vm_prefix@.is_prefix_of(name);
            &&& candidate.age_seconds >= 3_600
            &&& exists|k: int|
                0 <= k < machines.len() && (#[trigger] machines[k]).name == candidate.name
                    && machines[k].state == candidate.state && machines[k].age_seconds == Some(
                    candidate.age_seconds,
                )
            &&& match candidate.authorization {
                ReapAuthorization::Prefix => is_ours,
                ReapAuthorization::Record(id) => is_ours && exists|k: int|
                    0 <= k < allocations.len() && (#[trigger] allocations[k]).id == id
                        && allocations[k].vm_name@ == name && allocations[k].vm_created && (
                    allocations[k].state is Completed || allocations[k].state is Failed
                        || allocations[k].state is Cancelled),
                ReapAuthorization::Staging(profile) => !is_ours && exists|k: int|
                    0 <= k < config.profiles@.len() && (#[trigger] config.profiles@[k]).name
                        == profile && config.profiles@[k].profile.reap && (
                    config.profiles@[k].profile.warm_template matches Some(warm) && (
                    warm.staging matches Some(staging) && staging@ == name)),
                ReapAuthorization::Image(profile) => !is_ours && candidate.age_seconds >= 86_400
                    && (exists|k: int|
                    0 <= k < images.len() && (#[trigger] images[k]).profile == profile && (
                    images[k].warm_template.name@ == name || (
                    images[k].warm_template.previous matches Some(previous) && previous@ == name)
                        || (images[k].warm_template.staging matches Some(staging) && staging@
                        == name))) && (forall|k: int|
                    0 <= k < config.profiles@.len() && (#[trigger] config.profiles@[k]).name@
                        == profile@ && (forall|m: int|
                        0 <= m < k ==> (#[trigger] config.profiles@[m]).name@ != profile@)
                        ==> config.profiles@[k].profile.reap),
            }
        }),
{
    let at = lemma_planned_from(config, machines, allocations, images, hot, i);
    let candidate = planned(config, machines, allocations, images, hot)[i];
    let name = candidate.name@;
    assert(machines[at].name == candidate.name);
    law_authorization_has_its_ground(config, machines, allocations, images, hot, i);
    law_planned_is_old_enough(config, machines, allocations, images, hot, i);
    match candidate.authorization {
        ReapAuthorization::Record(id) => {
            let k: int = choose|k: int|
                0 <= k < allocations.len() && is_created_record(#[trigger] allocations[k], name)
                    && allocations[k].id == id;
            assert(allocations[k].id == id);
        },
        ReapAuthorization::Staging(profile) => {
            let k: int = choose|k: int|
                0 <= k < config.profiles@.len() && profile_stages(
                    #[trigger] config.profiles@[k],
                    name,
                ) && config.profiles@[k].name == profile;
            assert(config.profiles@[k].name == profile);
        },
        ReapAuthorization::Image(profile) => {
            let k: int = choose|k: int|
                0 <= k < images.len() && is_derived((#[trigger] images[k]).warm_template, name)
                    && images[k].profile == profile && is_reapable(config, profile@);
            assert(images[k].profile == profile);
            lemma_profile_index(config.profiles@, profile@);
            assert forall|k: int|
                0 <= k < config.profiles@.len() && (#[trigger] config.profiles@[k]).name@
                    == profile@ && (forall|m: int|
                    0 <= m < k ==> (#[trigger] config.profiles@[m]).name@ != profile@) implies config.profiles@[k].profile.reap by {
                if let Some(first) = profile_index(config.profiles@, profile@) {
                    if first < k {
                        assert(config.profiles@[first].name@ != profile@);
                    }
                }
            }
        },
        ReapAuthorization::Prefix => {},
    }
}

/// Outside the prefix an abandoned image is always planned: an hour-old candidate
/// of a profile that sweeps, and a day-old machine that bears any of the three
/// names of a recorded image whose profile is gone, unless something still needs
/// the name.
pub proof fn law_abandoned_image_is_planned(
    config: Config,
    machines: Seq<HostMachine>,
    allocations: Seq<Allocation>,
    images: Seq<WarmImageRecord>,
    hot: Seq<HotGuest>,
    k: int,
    j: int,
)
    requires
        0 <= k < machines.len(),
        !is_protected(config, allocations, hot, machines[k].name@),
        !config.runtime.vm_prefix@.is_prefix_of(machines[k].name@),
        machines[k].age_seconds is Some,
        ({
            ||| {
                &&& machines[k].age_seconds.unwrap() >= 3_600
                &&& 0 <= j < config.profiles@.len()
                &&& config.profiles@[j].profile.reap
                &&& config.profiles@[j].profile.warm_template matches Some(warm)
                &&& warm.staging matches Some(staging)
                &&& staging@ == machines[k].name@
            }
            ||| {
                &&& machines[k].age_seconds.unwrap() >= 86_400
                &&& 0 <= j < images.len()
                &&& forall|m: int|
                    0 <= m < config.profiles@.len() ==> (#[trigger] config.profiles@[m]).name@
                        != images[j].profile@
                &&& {
                    ||| images[j].warm_template.name@ == machines[k].name@
                    ||| (images[j].warm_template.previous matches Some(previous) && previous@
                        == machines[k].name@)
                    ||| (images[j].warm_template.staging matches Some(staging) && staging@
                        == machines[k].name@)
                }
            }
        }),
    ensures
        exists|i: int|
            #![trigger planned(config, machines, allocations, images, hot)[i]]
            0 <= i < planned(config, machines, allocations, images, hot).len() && planned(
                config,
                machines,
                allocations,
                images,
                hot,
            )[i].name@ == machines[k].name@,
{
    let name = machines[k].name@;
    if staging_profile(config.profiles@, name) is None {
        lemma_no_staging_profile(config.profiles@, name);
        if 0 <= j < config.profiles@.len() {
            assert(!profile_stages(config.profiles@[j], name));
        }
        lemma_profile_index(config.profiles@, images[j].profile@);
        if image_profile(images, config, name) is None {
            lemma_no_image_profile(images, config, name);
            assert(!(is_reapable(config, images[j].profile@) && is_derived(
                images[j].warm_template,
                name,
            )));
        }
    }
    lemma_planned_holds(config, machines, allocations, images, hot, k);
    let all = planned(config, machines, allocations, images, hot);
    let wanted = candidate_of(config, allocations, images, hot, machines[k]).unwrap();
    let i: int = choose|i: int| 0 <= i < all.len() && all[i] == wanted;
    assert(all[i].name@ == name);
}

proof fn lemma_no_staging_profile(profiles: Seq<NamedProfile>, name: Seq<char>)
    requires
        staging_profile(profiles, name) is None,
    ensures
        forall|i: int| 0 <= i < profiles.len() ==> !profile_stages(#[trigger] profiles[i], name),
    decreases profiles.len(),
{
    if profiles.len() > 0 {
        let rest = profiles.drop_last();
        lemma_no_staging_profile(rest, name);
        assert forall|i: int| 0 <= i < profiles.len() implies !profile_stages(
            #[trigger] profiles[i],
            name,
        ) by {
            if i < rest.len() {
                assert(profiles[i] == rest[i]);
            }
        }
    }
}

proof fn lemma_no_image_profile(images: Seq<WarmImageRecord>, config: Config, name: Seq<char>)
    requires
        image_profile(images, config, name) is None,
    ensures
        forall|i: int|
            0 <= i < images.len() ==> !(is_reapable(config, (#[trigger] images[i]).profile@)
                && is_derived(images[i].warm_template, name)),
    decreases images.len(),
{
    if images.len() > 0 {
        let rest = images.drop_last();
        lemma_no_image_profile(rest, config, name);
        assert forall|i: int| 0 <= i < images.len() implies !(is_reapable(
            config,
            (#[trigger] images[i]).profile@,
        ) && is_derived(images[i].warm_template, name)) by {
            if i < rest.len() {
                assert(images[i] == rest[i]);
            }
        }
    }
}

/// What is reported as undatable is ours by its prefix and has no age, and every
/// such machine is reported unless something needs its name.
pub proof fn law_undatable_machine_is_reported(
    config: Config,
    before: Seq<HostMachine>,
    machine: HostMachine,
    after: Seq<HostMachine>,
    allocations: Seq<Allocation>,
    hot: Seq<HotGuest>,
)
    ensures
        unaged(config, Seq::<HostMachine>::empty(), allocations, hot).len() == 0,
        unaged(config, before + seq![machine] + after, allocations, hot) == unaged(
            config,
            before,
            allocations,
            hot,
        ) + (if machine.age_seconds is None && config.runtime.vm_prefix@.is_prefix_of(
            machine.name@,
        ) && !is_protected(config, allocations, hot, machine.name@) {
            seq![machine.name]
        } else {
            Seq::<String>::empty()
        }) + unaged(config, after, allocations, hot),
    decreases after.len(),
{
    let all = before + seq![machine] + after;
    let empty = Seq::<HostMachine>::empty();
    if after.len() == 0 {
        assert(all.drop_last() =~= before);
        assert(unaged(config, after, allocations, hot) =~= Seq::<String>::empty());
        assert(unaged(config, all, allocations, hot) =~= unaged(config, before, allocations, hot)
            + (if is_unaged(config, allocations, hot, machine) {
            seq![machine.name]
        } else {
            Seq::<String>::empty()
        }) + unaged(config, after, allocations, hot));
    } else {
        law_undatable_machine_is_reported(
            config,
            before,
            machine,
            after.drop_last(),
            allocations,
            hot,
        );
        assert(all.drop_last() =~= before + seq![machine] + after.drop_last());
        assert(unaged(config, all, allocations, hot) =~= unaged(config, before, allocations, hot)
            + (if is_unaged(config, allocations, hot, machine) {
            seq![machine.name]
        } else {
            Seq::<String>::empty()
        }) + unaged(config, after, allocations, hot));
    }
}

/// A name that nothing needs is not kept from the sweep: what keeps one is an
/// unfinished allocation that bears it or regenerates, a pool record that is not
/// evicted, a template, a warm image or the generation before it.
pub proof fn law_only_needed_names_are_kept(
    config: Config,
    allocations: Seq<Allocation>,
    hot: Seq<HotGuest>,
    name: Seq<char>,
)
    ensures
        is_protected(config, allocations, hot, name) ==> {
            ||| exists|j: int|
                0 <= j < hot.len() && (#[trigger] hot[j]).vm_name@ == name && !(
                hot[j].state is Evicted)
            ||| exists|j: int|
                0 <= j < allocations.len() && !((#[trigger] allocations[j]).state is Completed
                    || allocations[j].state is Failed || allocations[j].state is Cancelled) && (
                allocations[j].vm_name@ == name || allocations[j].mode is Regenerate)
            ||| exists|j: int|
                0 <= j < config.profiles@.len() && ((
                #[trigger] config.profiles@[j]).profile.template@ == name || (
                config.profiles@[j].profile.warm_template matches Some(warm) && (warm.name@ == name
                    || (warm.previous matches Some(previous) && previous@ == name))))
        },
{
    if is_protected(config, allocations, hot, name) {
        if is_recorded(hot, name) {
            let j: int = choose|j: int|
                0 <= j < hot.len() && (#[trigger] hot[j]).state.holding() && hot[j].vm_name@
                    == name;
            assert(hot[j].vm_name@ == name && !(hot[j].state is Evicted));
        } else if is_reserved(config.profiles@, name) {
            let j: int = choose|j: int|
                0 <= j < config.profiles@.len() && profile_reserves(
                    #[trigger] config.profiles@[j],
                    name,
                );
            assert(config.profiles@[j].profile.template@ == name || (
            config.profiles@[j].profile.warm_template matches Some(warm) && (warm.name@ == name
                || (warm.previous matches Some(previous) && previous@ == name))));
        } else {
            let j: int = choose|j: int|
                0 <= j < allocations.len() && allocation_protects(
                    #[trigger] allocations[j],
                    config,
                    name,
                );
            assert(!(allocations[j].state is Completed || allocations[j].state is Failed
                || allocations[j].state is Cancelled));
        }
    }
}

/// A deletion is vouched for by the first record that ended and created a machine of
/// this name; where there is none, by the prefix alone.
pub proof fn law_first_finished_record_vouches(
    allocations: Seq<Allocation>,
    name: Seq<char>,
    i: int,
)
    requires
        0 <= i <= allocations.len(),
        forall|k: int|
            0 <= k < i ==> !(((#[trigger] allocations[k]).state is Completed
                || allocations[k].state is Failed || allocations[k].state is Cancelled)
                && allocations[k].vm_created && allocations[k].vm_name@ == name),
        i < allocations.len() ==> (allocations[i].state is Completed || allocations[i].state
            is Failed || allocations[i].state is Cancelled) && allocations[i].vm_created
            && allocations[i].vm_name@ == name,
    ensures
        i < allocations.len() ==> record_authorization(allocations, name)
            == ReapAuthorization::Record(allocations[i].id),
        i == allocations.len() ==> record_authorization(allocations, name)
            == ReapAuthorization::Prefix,
    decreases allocations.len(),
{
    if allocations.len() > 0 {
        let rest = allocations.drop_last();
        assert forall|k: int| 0 <= k < i && k < rest.len() implies !(((#[trigger] rest[k]).state
            is Completed || rest[k].state is Failed || rest[k].state is Cancelled)
            && rest[k].vm_created && rest[k].vm_name@ == name) by {
            assert(rest[k] == allocations[k]);
        }
        if i < rest.len() {
            assert(rest[i] == allocations[i]);
            law_first_finished_record_vouches(rest, name, i);
        } else {
            law_first_finished_record_vouches(rest, name, rest.len() as int);
        }
    }
}

} // verus!
