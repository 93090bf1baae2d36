use vstd::prelude::*;

use crate::domain::allocation::{GuestSize, ProfileName, VmName};
use crate::domain::hot::HotConfig;
use crate::domain::image::WarmName;
use crate::text::is_same_text;

verus! {

/// One profile of the configuration: what its guests are, who may ask for
/// them, and how their pool and their warm image are kept.
#[derive(Debug, PartialEq, Eq)]
pub struct Profile {
    pub repository: String,
    pub template: VmName,
    pub runner_label: String,
    pub job_name: String,
    pub allowed_workflows: Vec<String>,
    pub allowed_events: Vec<String>,
    pub allowed_refs: Vec<String>,
    pub allowed_ref_prefixes: Vec<String>,
    pub require_protected_ref: bool,
    /// The network mode, by the name the backend knows it under.
    pub network: String,
    pub cpu_count: u8,
    pub memory_mb: u32,
    pub storage_mb: u64,
    pub boot_timeout_seconds: u64,
    pub idle_timeout_seconds: u64,
    pub job_timeout_seconds: u64,
    pub cleanup_timeout_seconds: u64,
    pub warm_template: Option<WarmName>,
    pub regeneration_workflow: Option<String>,
    pub reap: bool,
    pub hot: Option<HotConfig>,
}

fn copied_texts(texts: &Vec<String>) -> (copy: Vec<String>)
    ensures
        copy@ == texts@,
{
    let mut copy: Vec<String> = Vec::new();
    let mut i: usize = 0;
    while i < texts.len()
        invariant
            i <= texts@.len(),
            copy@ == texts@.take(i as int),
        decreases texts@.len() - i,
    {
        copy.push(texts[i].clone());
        assert(texts@.take(i + 1) =~= texts@.take(i as int).push(texts@[i as int]));
        i = i + 1;
    }
    assert(copy@ =~= texts@);
    copy
}

impl Profile {
    /// Two profiles say the same, list by list.
    pub open spec fn same_as(&self, other: &Profile) -> bool {
        &&& self.allowed_workflows@ == other.allowed_workflows@
        &&& self.allowed_events@ == other.allowed_events@
        &&& self.allowed_refs@ == other.allowed_refs@
        &&& self.allowed_ref_prefixes@ == other.allowed_ref_prefixes@
        &&& *self == (Profile {
            allowed_workflows: self.allowed_workflows,
            allowed_events: self.allowed_events,
            allowed_refs: self.allowed_refs,
            allowed_ref_prefixes: self.allowed_ref_prefixes,
            ..*other
        })
    }

    /// The size a request that names none gets.
    pub open spec fn declared_size(&self) -> GuestSize {
        GuestSize {
            cpu_count: self.cpu_count,
            memory_mb: self.memory_mb,
            storage_mb: self.storage_mb,
        }
    }

    pub fn size(&self) -> (size: GuestSize)
        ensures
            size == self.declared_size(),
    {
        GuestSize {
            cpu_count: self.cpu_count,
            memory_mb: self.memory_mb,
            storage_mb: self.storage_mb,
        }
    }

    /// The pool policy, while it is switched on.
    pub open spec fn live_hot(&self) -> Option<HotConfig> {
        match self.hot {
            Some(hot) => if hot.enabled { Some(hot) } else { None },
            None => None,
        }
    }

    pub fn enabled_hot(&self) -> (hot: Option<HotConfig>)
        ensures
            hot == self.live_hot(),
    {
        match self.hot {
            Some(hot) => if hot.enabled { Some(hot) } else { None },
            None => None,
        }
    }
}

impl Clone for Profile {
    fn clone(&self) -> (copy: Profile)
        ensures
            copy.same_as(self),
    {
        Profile {
            repository: self.repository.clone(),
            template: self.template.clone(),
            runner_label: self.runner_label.clone(),
            job_name: self.job_name.clone(),
            allowed_workflows: copied_texts(&self.allowed_workflows),
            allowed_events: copied_texts(&self.allowed_events),
            allowed_refs: copied_texts(&self.allowed_refs),
            allowed_ref_prefixes: copied_texts(&self.allowed_ref_prefixes),
            require_protected_ref: self.require_protected_ref,
            network: self.network.clone(),
            cpu_count: self.cpu_count,
            memory_mb: self.memory_mb,
            storage_mb: self.storage_mb,
            boot_timeout_seconds: self.boot_timeout_seconds,
            idle_timeout_seconds: self.idle_timeout_seconds,
            job_timeout_seconds: self.job_timeout_seconds,
            cleanup_timeout_seconds: self.cleanup_timeout_seconds,
            warm_template: self.warm_template.clone(),
            regeneration_workflow: self.regeneration_workflow.clone(),
            reap: self.reap,
            hot: self.hot,
        }
    }
}

/// The host's limits and the names the daemon owns on it.
#[derive(Debug, PartialEq, Eq)]
pub struct RuntimeConfig {
    pub vm_prefix: String,
    pub max_running_vms: u8,
    pub max_hot_vms: u8,
    pub host_cpu_count: Option<u8>,
    pub host_memory_mb: Option<u32>,
    pub host_storage_mb: Option<u64>,
    /// Storage the backend keeps free, where it keeps any.
    pub min_storage_free_mb: Option<u64>,
    pub poll_seconds: u64,
}

impl RuntimeConfig {
    /// The storage that is kept free.
    pub open spec fn storage_reserve(self) -> int {
        match self.min_storage_free_mb {
            Some(mb) => mb as int,
            None => 0,
        }
    }
}

#[derive(Debug, PartialEq, Eq)]
pub struct NamedProfile {
    pub name: ProfileName,
    pub profile: Profile,
}

/// The running configuration; the profiles stand in the order of their names.
#[derive(Debug, PartialEq, Eq)]
pub struct Config {
    pub runtime: RuntimeConfig,
    pub profiles: Vec<NamedProfile>,
}

/// The first profile of this name.
pub open spec fn profile_index(profiles: Seq<NamedProfile>, name: Seq<char>) -> Option<int>
    decreases profiles.len(),
{
    if profiles.len() == 0 {
        None
    } else {
        match profile_index(profiles.drop_last(), name) {
            Some(index) => Some(index),
            None => if profiles.last().name@ == name {
                Some(profiles.len() - 1)
            } else {
                None
            },
        }
    }
}

pub proof fn lemma_profile_index(profiles: Seq<NamedProfile>, name: Seq<char>)
    ensures
        match profile_index(profiles, name) {
            Some(index) => 0 <= index < profiles.len() && profiles[index].name@ == name && forall|
                k: int,
            |
                0 <= k < index ==> (#[trigger] profiles[k]).name@ != name,
            None => forall|k: int|
                0 <= k < profiles.len() ==> (#[trigger] profiles[k]).name@ != name,
        },
    decreases profiles.len(),
{
    if profiles.len() > 0 {
        let rest: Seq<NamedProfile> = profiles.drop_last();
        lemma_profile_index(rest, name);
        assert forall|k: int| 0 <= k < rest.len() implies profiles[k] == rest[k] by {}
        match profile_index(rest, name) {
            Some(index) => {
                assert(profiles[index] == rest[index]);
                assert forall|k: int| 0 <= k < index implies (#[trigger] profiles[k]).name@
                    != name by {
                    assert(rest[k].name@ != name);
                }
            },
            None => {
                assert forall|k: int| 0 <= k < rest.len() implies (#[trigger] profiles[k]).name@
                    != name by {
                    assert(rest[k].name@ != name);
                }
            },
        }
    }
}

impl Config {
    /// The profile of this name, if the configuration has one.
    pub open spec fn named(&self, name: Seq<char>) -> Option<Profile> {
        match profile_index(self.profiles@, name) {
            Some(index) => Some(self.profiles@[index].profile),
            None => None,
        }
    }

    pub fn find(&self, name: &str) -> (found: Option<&Profile>)
        ensures
            match found {
                Some(profile) => self.named(name@) == Some(*profile),
                None => self.named(name@) is None,
            },
    {
        let mut i: usize = 0;
        while i < self.profiles.len()
            invariant
                i <= self.profiles@.len(),
                forall|k: int| 0 <= k < i ==> (#[trigger] self.profiles@[k]).name@ != name@,
            decreases self.profiles@.len() - i,
        {
            if is_same_text(self.profiles[i].name.as_str(), name) {
                proof {
                    lemma_profile_index(self.profiles@, name@);
                    assert(self.profiles@[i as int].name@ == name@);
                }
                return Some(&self.profiles[i].profile);
            }
            i = i + 1;
        }
        proof {
            lemma_profile_index(self.profiles@, name@);
        }
        None
    }
}

/// A profile has a pool exactly where its table is there and switched on, and then
/// the pool is run by that table.
pub proof fn law_pool_is_switched_on_by_its_table(profile: Profile)
    ensures
        profile.live_hot() is Some <==> profile.hot is Some && profile.hot.unwrap().enabled,
        profile.live_hot() is Some ==> profile.live_hot() == profile.hot,
{
}

} // verus!
