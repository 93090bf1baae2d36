use vstd::prelude::*;

use crate::domain::allocation::{Allocation, AllocationMode, ProfileName};
use crate::domain::image::WarmImageRecord;
use crate::domain::profile::{lemma_profile_index, profile_index, Config, NamedProfile};
use crate::names::NameSet;
use crate::reaper::plan::{is_derived, is_derived_name};
use crate::worker::model::{DeclaredImage, HostMachine};

verus! {

/// What one pass decided about the warm image records, before anything is
/// applied.
pub struct PrunePlan {
    pub prunable: Vec<ProfileName>,
    pub claimed: NameSet,
}

/// Does the record's profile still name the image the record is of?
pub open spec fn is_referenced(config: Config, record: WarmImageRecord) -> bool {
    config.named(record.profile@) matches Some(profile) && (
    profile.warm_template matches Some(warm) && warm.name@ == record.warm_template.name@)
}

pub fn is_image_referenced(config: &Config, record: &WarmImageRecord) -> (is: bool)
    ensures
        is == is_referenced(*config, *record),
{
    match config.find(record.profile.as_str()) {
        Some(profile) => match &profile.warm_template {
            Some(warm) => warm.name == record.warm_template.name,
            None => false,
        },
        None => false,
    }
}

/// Does the host list any image the record names?
pub open spec fn is_any_listed(record: WarmImageRecord, machines: Seq<HostMachine>) -> bool {
    exists|i: int|
        0 <= i < machines.len() && is_derived(record.warm_template, (#[trigger] machines[i]).name@)
}

fn is_present(record: &WarmImageRecord, machines: &Vec<HostMachine>) -> (is: bool)
    ensures
        is == is_any_listed(*record, machines@),
{
    let mut i: usize = 0;
    while i < machines.len()
        invariant
            i <= machines@.len(),
            forall|k: int|
                0 <= k < i ==> !is_derived(record.warm_template, (#[trigger] machines@[k]).name@),
        decreases machines@.len() - i,
    {
        if is_derived_name(&record.warm_template, machines[i].name.as_str()) {
            assert(is_derived(record.warm_template, machines@[i as int].name@));
            return true;
        }
        i = i + 1;
    }
    false
}

/// Is an allocation producing this profile's next image right now?
pub open spec fn is_regenerating(allocations: Seq<Allocation>, profile: Seq<char>) -> bool {
    exists|i: int|
        0 <= i < allocations.len() && (#[trigger] allocations[i]).live() && allocations[i].mode
            is Regenerate && allocations[i].request.profile@ == profile
}

/// The profiles whose next image is being produced.
pub fn regenerating_profiles(allocations: &Vec<Allocation>) -> (profiles: NameSet)
    ensures
        profiles.wf(),
        forall|name: Seq<char>| #[trigger] profiles@.contains(name) <==> is_regenerating(
            allocations@,
            name,
        ),
{
    let mut profiles: NameSet = NameSet::new();
    let mut i: usize = 0;
    while i < allocations.len()
        invariant
            i <= allocations@.len(),
            profiles.wf(),
            forall|name: Seq<char>| #[trigger] profiles@.contains(name) <==> is_regenerating(
                allocations@.take(i as int),
                name,
            ),
        decreases allocations@.len() - i,
    {
        let allocation: &Allocation = &allocations[i];
        let ghost before: Seq<Allocation> = allocations@.take(i as int);
        let ghost after: Seq<Allocation> = allocations@.take(i + 1);
        if !allocation.state.is_terminal() && allocation.mode == AllocationMode::Regenerate {
            profiles.insert(allocation.request.profile.clone());
        }
        proof {
            assert(after =~= before.push(*allocation));
            assert forall|name: Seq<char>| #[trigger] is_regenerating(after, name) <==> (
            is_regenerating(before, name) || (allocation.live() && allocation.mode is Regenerate
                && allocation.request.profile@ == name)) by {
                if is_regenerating(before, name) {
                    let k: int = choose|k: int|
                        0 <= k < before.len() && (#[trigger] before[k]).live() && before[k].mode
                            is Regenerate && before[k].request.profile@ == name;
                    assert(after[k] == before[k]);
                }
                if allocation.live() && allocation.mode is Regenerate
                    && allocation.request.profile@ == name {
                    assert(after[before.len() as int] == *allocation);
                }
                if is_regenerating(after, name) {
                    let k: int = choose|k: int|
                        0 <= k < after.len() && (#[trigger] after[k]).live() && after[k].mode
                            is Regenerate && after[k].request.profile@ == name;
                    if k < before.len() {
                        assert(before[k] == after[k]);
                    }
                }
            }
        }
        i = i + 1;
    }
    assert(allocations@.take(allocations@.len() as int) =~= allocations@);
    profiles
}

/// A record nothing needs any more: no live profile points at it, no image it
/// names survives, and no regeneration is mid-promotion on its profile.
pub open spec fn is_prunable(
    record: WarmImageRecord,
    config: Config,
    machines: Seq<HostMachine>,
    regenerating: Set<Seq<char>>,
) -> bool {
    &&& !is_referenced(config, record)
    &&& !is_any_listed(record, machines)
    &&& !regenerating.contains(record.profile@)
}

/// The profiles of the records a deleting pass drops, in record order.
pub open spec fn prunable(
    images: Seq<WarmImageRecord>,
    config: Config,
    machines: Seq<HostMachine>,
    regenerating: Set<Seq<char>>,
) -> Seq<ProfileName>
    decreases images.len(),
{
    if images.len() == 0 {
        Seq::empty()
    } else {
        let rest = prunable(images.drop_last(), config, machines, regenerating);
        if is_prunable(images.last(), config, machines, regenerating) {
            rest.push(images.last().profile)
        } else {
            rest
        }
    }
}

/// Does a record of this profile stay?
pub open spec fn is_claimed(
    images: Seq<WarmImageRecord>,
    config: Config,
    machines: Seq<HostMachine>,
    regenerating: Set<Seq<char>>,
    profile: Seq<char>,
) -> bool {
    exists|i: int|
        0 <= i < images.len() && (#[trigger] images[i]).profile@ == profile && !is_prunable(
            images[i],
            config,
            machines,
            regenerating,
        )
}

/// Which records a deleting pass would drop, and which profiles still hold one
/// afterwards. Computed once per pass, so a dry run considers exactly the
/// candidates a deleting one would.
pub fn plan_pruned_records(
    config: &Config,
    images: &Vec<WarmImageRecord>,
    machines: &Vec<HostMachine>,
    regenerating: &NameSet,
) -> (plan: PrunePlan)
    ensures
        plan.prunable@ == prunable(images@, *config, machines@, regenerating@),
        plan.claimed.wf(),
        forall|profile: Seq<char>| #[trigger] plan.claimed@.contains(profile) <==> is_claimed(
            images@,
            *config,
            machines@,
            regenerating@,
            profile,
        ),
{
    let mut dropped: Vec<ProfileName> = Vec::new();
    let mut claimed: NameSet = NameSet::new();
    let mut i: usize = 0;
    while i < images.len()
        invariant
            i <= images@.len(),
            dropped@ == prunable(images@.take(i as int), *config, machines@, regenerating@),
            claimed.wf(),
            forall|profile: Seq<char>| #[trigger] claimed@.contains(profile) <==> is_claimed(
                images@.take(i as int),
                *config,
                machines@,
                regenerating@,
                profile,
            ),
        decreases images@.len() - i,
    {
        let record: &WarmImageRecord = &images[i];
        let ghost before: Seq<WarmImageRecord> = images@.take(i as int);
        let ghost after: Seq<WarmImageRecord> = images@.take(i + 1);
        proof {
            assert(after.drop_last() =~= before);
            assert(after.last() == *record);
            assert(after =~= before.push(*record));
        }
        let is_dropped: bool = !is_image_referenced(config, record) && !is_present(record, machines)
            && !regenerating.contains(record.profile.as_str());
        if is_dropped {
            dropped.push(record.profile.clone());
        } else {
            claimed.insert(record.profile.clone());
        }
        proof {
            assert forall|profile: Seq<char>| #[trigger]
                is_claimed(after, *config, machines@, regenerating@, profile) <==> (is_claimed(
                before,
                *config,
                machines@,
                regenerating@,
                profile,
            ) || (!is_dropped && record.profile@ == profile)) by {
                if is_claimed(before, *config, machines@, regenerating@, profile) {
                    let k: int = choose|k: int|
                        0 <= k < before.len() && (#[trigger] before[k]).profile@ == profile
                            && !is_prunable(before[k], *config, machines@, regenerating@);
                    assert(after[k] == before[k]);
                }
                if !is_dropped && record.profile@ == profile {
                    assert(after[before.len() as int] == *record);
                }
                if is_claimed(after, *config, machines@, regenerating@, profile) {
                    let k: int = choose|k: int|
                        0 <= k < after.len() && (#[trigger] after[k]).profile@ == profile
                            && !is_prunable(after[k], *config, machines@, regenerating@);
                    if k < before.len() {
                        assert(before[k] == after[k]);
                    }
                }
            }
        }
        i = i + 1;
    }
    assert(images@.take(images@.len() as int) =~= images@);
    PrunePlan { prunable: dropped, claimed }
}

/// The warm names live configuration declares, profile by profile.
pub open spec fn declared(profiles: Seq<NamedProfile>) -> Seq<DeclaredImage>
    decreases profiles.len(),
{
    if profiles.len() == 0 {
        Seq::empty()
    } else {
        let rest = declared(profiles.drop_last());
        match profiles.last().profile.warm_template {
            Some(warm) => rest.push(
                DeclaredImage { profile: profiles.last().name, warm_template: warm.name },
            ),
            None => rest,
        }
    }
}

/// The warm names live configuration declares, which is what retirement of
/// superseded generations goes by.
pub fn declared_images(config: &Config) -> (images: Vec<DeclaredImage>)
    ensures
        images@ == declared(config.profiles@),
{
    let ghost profiles: Seq<NamedProfile> = config.profiles@;
    let mut images: Vec<DeclaredImage> = Vec::new();
    let mut i: usize = 0;
    while i < config.profiles.len()
        invariant
            profiles == config.profiles@,
            i <= profiles.len(),
            images@ == declared(profiles.take(i as int)),
        decreases profiles.len() - i,
    {
        let entry: &NamedProfile = &config.profiles[i];
        proof {
            assert(profiles.take(i + 1).drop_last() =~= profiles.take(i as int));
            assert(profiles.take(i + 1).last() == *entry);
        }
        if let Some(warm) = &entry.profile.warm_template {
            images.push(
                DeclaredImage {
                    profile: entry.name.clone(),
                    warm_template: warm.name.clone(),
                },
            );
        }
        i = i + 1;
    }
    assert(profiles.take(profiles.len() as int) =~= profiles);
    images
}

/// A record is dropped only once nothing it names survives and nobody needs it:
/// not while its profile points at it, and not while a regeneration runs.
pub proof fn law_needed_records_are_kept(
    images: Seq<WarmImageRecord>,
    config: Config,
    machines: Seq<HostMachine>,
    regenerating: Set<Seq<char>>,
    i: int,
)
    requires
        0 <= i < images.len(),
        is_referenced(config, images[i]) || is_any_listed(images[i], machines)
            || regenerating.contains(images[i].profile@),
    ensures
        is_claimed(images, config, machines, regenerating, images[i].profile@),
{
    assert(images[i].profile@ == images[i].profile@);
    assert(!is_prunable(images[i], config, machines, regenerating));
}

/// An image is referenced exactly while the first profile of its record's name
/// declares that very warm name.
pub proof fn law_image_is_referenced_by_its_own_profile(
    config: Config,
    record: WarmImageRecord,
    k: int,
)
    requires
        0 <= k <= config.profiles@.len(),
        forall|j: int|
            0 <= j < k && j < config.profiles@.len() ==> (#[trigger] config.profiles@[j]).name@
                != record.profile@,
        k < config.profiles@.len() ==> config.profiles@[k].name@ == record.profile@,
    ensures
        is_referenced(config, record) <==> k < config.profiles@.len() && (
        config.profiles@[k].profile.warm_template is Some
            && config.profiles@[k].profile.warm_template.unwrap().name@
            == record.warm_template.name@),
{
    lemma_profile_index(config.profiles@, record.profile@);
    if let Some(first) = profile_index(config.profiles@, record.profile@) {
        if first < k {
            assert(config.profiles@[first].name@ != record.profile@);
        }
        if k < first {
            assert(config.profiles@[k].name@ != record.profile@);
        }
    }
}

/// A profile regenerates exactly while an unfinished allocation of it does.
pub proof fn law_profile_regenerates_while_its_allocation_does(
    allocations: Seq<Allocation>,
    profile: Seq<char>,
)
    ensures
        is_regenerating(allocations, profile) <==> exists|i: int|
            0 <= i < allocations.len() && (#[trigger] allocations[i]).mode is Regenerate
                && allocations[i].request.profile@ == profile && !(
            allocations[i].state is Completed || allocations[i].state is Failed
                || allocations[i].state is Cancelled),
{
    if is_regenerating(allocations, profile) {
        let i: int = choose|i: int|
            0 <= i < allocations.len() && (#[trigger] allocations[i]).live()
                && allocations[i].mode is Regenerate && allocations[i].request.profile@ == profile;
        assert(allocations[i].mode is Regenerate);
    }
    if exists|i: int|
        0 <= i < allocations.len() && (#[trigger] allocations[i]).mode is Regenerate
            && allocations[i].request.profile@ == profile && !(allocations[i].state is Completed
            || allocations[i].state is Failed || allocations[i].state is Cancelled) {
        let i: int = choose|i: int|
            0 <= i < allocations.len() && (#[trigger] allocations[i]).mode is Regenerate
                && allocations[i].request.profile@ == profile && !(
            allocations[i].state is Completed || allocations[i].state is Failed
                || allocations[i].state is Cancelled);
        assert(allocations[i].live());
    }
}

/// A record is dropped exactly where nobody needs it: its profile does not point
/// at it, the host lists none of its three names, and its profile does not
/// regenerate. Wherever it stands, it is dropped once and in its place.
pub proof fn law_unneeded_record_is_dropped(
    before: Seq<WarmImageRecord>,
    record: WarmImageRecord,
    after: Seq<WarmImageRecord>,
    config: Config,
    machines: Seq<HostMachine>,
    regenerating: Set<Seq<char>>,
)
    ensures
        prunable(Seq::<WarmImageRecord>::empty(), config, machines, regenerating).len() == 0,
        prunable(before + seq![record] + after, config, machines, regenerating) == prunable(
            before,
            config,
            machines,
            regenerating,
        ) + (if !is_referenced(config, record) && !regenerating.contains(record.profile@) && (
        forall|i: int|
            0 <= i < machines.len() ==> {
                &&& (#[trigger] machines[i]).name@ != record.warm_template.name@
                &&& record.warm_template.previous matches Some(previous) ==> machines[i].name@
                    != previous@
                &&& record.warm_template.staging matches Some(staging) ==> machines[i].name@
                    != staging@
            }) {
            seq![record.profile]
        } else {
            Seq::<ProfileName>::empty()
        }) + prunable(after, config, machines, regenerating),
    decreases after.len(),
{
    let all = before + seq![record] + after;
    let one = if is_prunable(record, config, machines, regenerating) {
        seq![record.profile]
    } else {
        Seq::<ProfileName>::empty()
    };
    if is_any_listed(record, machines) {
        let i: int = choose|i: int|
            0 <= i < machines.len() && is_derived(
                record.warm_template,
                (#[trigger] machines[i]).name@,
            );
        assert(machines[i].name@ == record.warm_template.name@ || (
        record.warm_template.previous matches Some(previous) && machines[i].name@ == previous@)
            || (record.warm_template.staging matches Some(staging) && machines[i].name@
            == staging@));
    } else {
        assert forall|i: int| 0 <= i < machines.len() implies {
            &&& (#[trigger] machines[i]).name@ != record.warm_template.name@
            &&& record.warm_template.previous matches Some(previous) ==> machines[i].name@
                != previous@
            &&& record.warm_template.staging matches Some(staging) ==> machines[i].name@
                != staging@
        } by {
            assert(!is_derived(record.warm_template, machines[i].name@));
        }
    }
    if after.len() == 0 {
        assert(all.drop_last() =~= before);
        assert(prunable(all, config, machines, regenerating) =~= prunable(
            before,
            config,
            machines,
            regenerating,
        ) + one + prunable(after, config, machines, regenerating));
    } else {
        law_unneeded_record_is_dropped(
            before,
            record,
            after.drop_last(),
            config,
            machines,
            regenerating,
        );
        assert(all.drop_last() =~= before + seq![record] + after.drop_last());
        assert(prunable(all, config, machines, regenerating) =~= prunable(
            before,
            config,
            machines,
            regenerating,
        ) + one + prunable(after, config, machines, regenerating));
    }
}

/// Every warm name the configuration declares is told to the backend, with its
/// profile and in its place, and no other.
pub proof fn law_every_declared_image_is_told(
    before: Seq<NamedProfile>,
    entry: NamedProfile,
    after: Seq<NamedProfile>,
)
    ensures
        declared(Seq::<NamedProfile>::empty()).len() == 0,
        declared(before + seq![entry] + after) == declared(before) + (
        match entry.profile.warm_template {
            Some(warm) => seq![
                DeclaredImage { profile: entry.name, warm_template: warm.name },
            ],
            None => Seq::<DeclaredImage>::empty(),
        }) + declared(after),
    decreases after.len(),
{
    let all = before + seq![entry] + after;
    let one = match entry.profile.warm_template {
        Some(warm) => seq![DeclaredImage { profile: entry.name, warm_template: warm.name }],
        None => Seq::<DeclaredImage>::empty(),
    };
    if after.len() == 0 {
        assert(all.drop_last() =~= before);
        assert(declared(all) =~= declared(before) + one + declared(after));
    } else {
        law_every_declared_image_is_told(before, entry, after.drop_last());
        assert(all.drop_last() =~= before + seq![entry] + after.drop_last());
        assert(declared(all) =~= declared(before) + one + declared(after));
    }
}

} // verus!
