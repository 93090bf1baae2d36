use vstd::prelude::*;
use vstd::string::StringExecFns;

use crate::domain::allocation::{AllocationMode, AllocationRequest, GuestSize, RequestOptions,
    VmName};
use crate::domain::hot::HotRequest;
use crate::domain::profile::{Config, Profile};
use crate::error::ManagerError;
use crate::text::{decimal, decimal_text, is_same_text, law_numbers_are_told_apart};

verus! {

/// The requested profile, owned, because the configuration behind it can be
/// replaced.
pub fn profile(config: &Config, request: &AllocationRequest) -> (found: Result<
    Profile,
    ManagerError,
>)
    ensures
        match config.named(request.profile@) {
            Some(held) => found matches Ok(copy) && copy.same_as(&held),
            None => found == Err::<Profile, ManagerError>(
                ManagerError::UnknownProfile(request.profile),
            ),
        },
{
    match config.find(request.profile.as_str()) {
        Some(held) => Ok(held.clone()),
        None => Err(ManagerError::UnknownProfile(request.profile.clone())),
    }
}

/// The one machine name an allocation may ever own, as text.
pub open spec fn derived_vm_name(config: Config, request: AllocationRequest) -> Seq<char> {
    config.runtime.vm_prefix@ + request.profile@ + "-"@ + decimal(request.run_id as nat) + "-"@
        + decimal(request.run_attempt as nat)
}

/// The one machine name an allocation may ever own, derived from run identity.
pub fn vm_name_text(config: &Config, request: &AllocationRequest) -> (text: String)
    ensures
        text@ == derived_vm_name(*config, *request),
{
    let mut text: String = config.runtime.vm_prefix.clone();
    text.append(request.profile.as_str());
    text.append("-");
    let run_id: String = decimal_text(request.run_id);
    text.append(run_id.as_str());
    text.append("-");
    let run_attempt: String = decimal_text(request.run_attempt as u64);
    text.append(run_attempt.as_str());
    text
}

/// The derived machine name, where the rules for machine names take it; `taken`
/// says what they say of it.
pub fn vm_name(
    config: &Config,
    request: &AllocationRequest,
    taken: Result<(), String>,
) -> (name: Result<VmName, ManagerError>)
    ensures
        match taken {
            Ok(()) => name matches Ok(text) && text@ == derived_vm_name(*config, *request),
            Err(message) => name == Err::<VmName, ManagerError>(
                ManagerError::InvalidVmName(message),
            ),
        },
{
    match taken {
        Ok(()) => Ok(vm_name_text(config, request)),
        Err(message) => Err(ManagerError::InvalidVmName(message)),
    }
}

/// The size a request gets: what it asks for, where it asks, and its profile's
/// otherwise. A wish above the profile is not cut down; the request fails.
pub open spec fn requested_size(options: RequestOptions, profile: Profile) -> Option<GuestSize> {
    if (options.cpu_count matches Some(cpu_count) && cpu_count > profile.cpu_count) || (
    options.memory_mb matches Some(memory_mb) && memory_mb > profile.memory_mb) {
        None
    } else {
        Some(
            GuestSize {
                cpu_count: match options.cpu_count {
                    Some(cpu_count) => cpu_count,
                    None => profile.cpu_count,
                },
                memory_mb: match options.memory_mb {
                    Some(memory_mb) => memory_mb,
                    None => profile.memory_mb,
                },
                storage_mb: profile.storage_mb,
            },
        )
    }
}

/// The size a request gets. Both ceilings are rejections rather than clamps:
/// silently granting less than a workflow asked for is worse than refusing.
pub fn resolve_size(options: RequestOptions, profile: &Profile) -> (size: Result<
    GuestSize,
    ManagerError,
>)
    ensures
        size == match requested_size(options, *profile) {
            Some(size) => Ok::<GuestSize, ManagerError>(size),
            None => Err(ManagerError::RequestExceedsProfile),
        },
{
    let cpu_count: u8 = match options.cpu_count {
        Some(cpu_count) => cpu_count,
        None => profile.cpu_count,
    };
    let memory_mb: u32 = match options.memory_mb {
        Some(memory_mb) => memory_mb,
        None => profile.memory_mb,
    };
    if cpu_count > profile.cpu_count || memory_mb > profile.memory_mb {
        return Err(ManagerError::RequestExceedsProfile);
    }
    Ok(GuestSize { cpu_count, memory_mb, storage_mb: profile.storage_mb })
}

/// The lifetime a run asks for its machine; `None` takes the ceiling.
pub open spec fn requested_age(hot: HotRequest, profile: Profile) -> Result<Option<u64>, ()> {
    match (hot, profile.live_hot()) {
        (HotRequest::Retain { age_seconds: Some(age) }, Some(policy)) => if age
            > policy.max_lifetime_seconds {
            Err(())
        } else {
            Ok(Some(age))
        },
        _ => Ok(None),
    }
}

/// The lifetime a run asks for the machine it claims or retains. Above the
/// profile's ceiling is a rejection, never a shorter lifetime; a profile that
/// keeps no pool has nothing to hold it against.
pub fn resolve_hot_age(hot: HotRequest, profile: &Profile) -> (age: Result<
    Option<u64>,
    ManagerError,
>)
    ensures
        age == match requested_age(hot, *profile) {
            Ok(age) => Ok::<Option<u64>, ManagerError>(age),
            Err(_) => Err(ManagerError::RequestExceedsProfile),
        },
{
    match (hot, profile.enabled_hot()) {
        (HotRequest::Retain { age_seconds: Some(age) }, Some(policy)) => if age
            > policy.max_lifetime_seconds {
            Err(ManagerError::RequestExceedsProfile)
        } else {
            Ok(Some(age))
        },
        _ => Ok(None),
    }
}

/// What an allocation is for. The verified workflow decides that a run
/// regenerates, never the request.
pub open spec fn requested_mode(
    options: RequestOptions,
    profile: Profile,
    workflow_file: Seq<char>,
) -> AllocationMode {
    if profile.regeneration_workflow matches Some(workflow) && workflow@ == workflow_file {
        AllocationMode::Regenerate
    } else if options.warm {
        AllocationMode::Warm
    } else {
        AllocationMode::Cold
    }
}

pub fn resolve_mode(options: RequestOptions, profile: &Profile, workflow_file: &str) -> (mode:
    AllocationMode)
    ensures
        mode == requested_mode(options, *profile, workflow_file@),
{
    let is_regeneration: bool = match &profile.regeneration_workflow {
        Some(workflow) => is_same_text(workflow.as_str(), workflow_file),
        None => false,
    };
    if is_regeneration {
        AllocationMode::Regenerate
    } else if options.warm {
        AllocationMode::Warm
    } else {
        AllocationMode::Cold
    }
}

/// A granted size is inside the profile: nothing is clamped, and nothing above
/// the ceiling is granted.
pub proof fn law_granted_size_is_inside_the_profile(options: RequestOptions, profile: Profile)
    ensures
        requested_size(options, profile) matches Some(size) ==> {
            &&& size.cpu_count <= profile.cpu_count
            &&& size.memory_mb <= profile.memory_mb
            &&& size.storage_mb == profile.storage_mb
            &&& options.cpu_count matches Some(cpu_count) ==> size.cpu_count == cpu_count
            &&& options.memory_mb matches Some(memory_mb) ==> size.memory_mb == memory_mb
        },
{
}

/// What a request asks for is granted to the letter or refused: it is granted
/// exactly where neither wish is above the profile, a wish is what is granted,
/// and where there is none the profile's own is. Storage is never wished for.
pub proof fn law_wish_is_granted_or_refused(options: RequestOptions, profile: Profile)
    ensures
        requested_size(options, profile) is Some <==> {
            &&& options.cpu_count is None || options.cpu_count.unwrap() <= profile.cpu_count
            &&& options.memory_mb is None || options.memory_mb.unwrap() <= profile.memory_mb
        },
        requested_size(options, profile) matches Some(size) ==> {
            &&& options.cpu_count is None ==> size.cpu_count == profile.cpu_count
            &&& options.memory_mb is None ==> size.memory_mb == profile.memory_mb
            &&& options.cpu_count is Some ==> options.cpu_count == Some(size.cpu_count)
            &&& options.memory_mb is Some ==> options.memory_mb == Some(size.memory_mb)
            &&& size.storage_mb == profile.storage_mb
        },
{
}

/// A lifetime is granted as it was asked for or refused: refused exactly where a
/// run that retains asks a profile with a pool for more than its ceiling.
pub proof fn law_lifetime_is_granted_or_refused(hot: HotRequest, profile: Profile)
    ensures
        requested_age(hot, profile) is Err <==> {
            &&& profile.hot is Some
            &&& profile.hot.unwrap().enabled
            &&& hot matches HotRequest::Retain { age_seconds: Some(age) } && age
                > profile.hot.unwrap().max_lifetime_seconds
        },
        requested_age(hot, profile) matches Ok(Some(age)) ==> hot == (HotRequest::Retain {
            age_seconds: Some(age),
        }) && profile.hot is Some && age <= profile.hot.unwrap().max_lifetime_seconds,
        requested_age(hot, profile) == Ok::<Option<u64>, ()>(None) ==> {
            ||| !(hot is Retain)
            ||| hot == (HotRequest::Retain { age_seconds: None })
            ||| profile.hot is None
            ||| !profile.hot.unwrap().enabled
        },
{
}

/// A run regenerates exactly where its verified workflow is the one its profile
/// names for it; a request can ask for the warm image and for nothing else.
pub proof fn law_only_the_named_workflow_regenerates(
    options: RequestOptions,
    profile: Profile,
    workflow_file: Seq<char>,
)
    ensures
        requested_mode(options, profile, workflow_file) is Regenerate <==> (
        profile.regeneration_workflow is Some && profile.regeneration_workflow.unwrap()@
            == workflow_file),
        requested_mode(options, profile, workflow_file) is Warm ==> options.warm,
        requested_mode(options, profile, workflow_file) is Cold ==> !options.warm,
{
}

/// Two attempts of one profile never share a machine name, and every name is under
/// the daemon's own prefix.
pub proof fn law_attempts_have_names_of_their_own(
    config: Config,
    a: AllocationRequest,
    b: AllocationRequest,
)
    requires
        a.profile@ == b.profile@,
    ensures
        config.runtime.vm_prefix@.is_prefix_of(derived_vm_name(config, a)),
        derived_vm_name(config, a) == derived_vm_name(config, b) ==> a.run_id == b.run_id
            && a.run_attempt == b.run_attempt,
{
    reveal_strlit("-");
    let head = config.runtime.vm_prefix@ + a.profile@ + "-"@;
    let run_a = decimal(a.run_id as nat);
    let run_b = decimal(b.run_id as nat);
    let try_a = decimal(a.run_attempt as nat);
    let try_b = decimal(b.run_attempt as nat);
    let name_a = derived_vm_name(config, a);
    let name_b = derived_vm_name(config, b);
    law_numbers_are_told_apart(a.run_id as nat, b.run_id as nat);
    law_numbers_are_told_apart(b.run_id as nat, a.run_id as nat);
    law_numbers_are_told_apart(a.run_attempt as nat, b.run_attempt as nat);
    assert(name_a =~= head + run_a + "-"@ + try_a);
    assert(name_b =~= head + run_b + "-"@ + try_b);
    if name_a == name_b {
        let at_a: int = (head.len() + run_a.len()) as int;
        let at_b: int = (head.len() + run_b.len()) as int;
        assert(name_a[at_a] == '-');
        assert(name_b[at_b] == '-');
        if run_a.len() < run_b.len() {
            assert(name_b[at_a] == run_b[run_a.len() as int]);
        }
        if run_b.len() < run_a.len() {
            assert(name_a[at_b] == run_a[run_b.len() as int]);
        }
        assert(name_a.subrange(head.len() as int, at_a) =~= run_a);
        assert(name_b.subrange(head.len() as int, at_b) =~= run_b);
        assert(name_a.skip(at_a + 1) =~= try_a);
        assert(name_b.skip(at_b + 1) =~= try_b);
    }
}

} // verus!
