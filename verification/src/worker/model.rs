use vstd::prelude::*;

use crate::domain::allocation::{Allocation, GuestSize, ProfileName, VmName};
use crate::domain::hot::{HotGuest, SimulatorReset};
use crate::domain::image::WarmImageRecord;
use crate::domain::profile::Profile;
use crate::names::NameSet;
use crate::reaper::plan::ReapAuthorization;
use crate::worker::budget::CleanupBudget;

verus! {

#[derive(Clone, Copy, Debug, PartialEq, Eq, Structural)]
pub enum MachineState {
    Running,
    Stopped,
    Other,
}

#[derive(Clone, Copy, Debug, PartialEq, Eq, Structural)]
pub enum MachineOwnership {
    Owned,
    Foreign,
    Unknown,
}

/// One machine the host reports, whoever owns it.
#[derive(Debug, PartialEq, Eq)]
pub struct HostMachine {
    pub name: String,
    pub state: MachineState,
    /// Absent when the backend cannot tell.
    pub age_seconds: Option<u64>,
    /// Live resources when the backend can report all three dimensions.
    pub size: Option<GuestSize>,
    /// The strongest ownership evidence the backend has.
    pub ownership: MachineOwnership,
}

impl HostMachine {
    /// Does the host report this machine running and owned by this service?
    pub open spec fn running_owned(&self) -> bool {
        self.state is Running && self.ownership is Owned
    }
}

impl Clone for HostMachine {
    fn clone(&self) -> (copy: HostMachine)
        ensures
            copy == *self,
    {
        HostMachine {
            name: self.name.clone(),
            state: self.state,
            age_seconds: self.age_seconds,
            size: self.size,
            ownership: self.ownership,
        }
    }
}

/// Whether one profile's recorded warm image can be booted right now.
///
/// A name-addressed backend answers from its VM listing; a pointer-addressed
/// backend answers from its own durable pointer. Both fail toward a cold boot.
#[derive(Clone, Copy, Debug, PartialEq, Eq, Structural)]
pub enum WarmAvailability {
    Ready,
    /// Present but not in a state a clone or a boot may use.
    Busy,
    Absent,
}

/// One warm generation a sweep considered for retirement.
#[derive(Debug, PartialEq, Eq)]
pub struct RetiredImage {
    pub profile: ProfileName,
    pub generation: u64,
    pub age_seconds: u64,
    /// False on a dry run, and false when the reference proof refused.
    pub is_deleted: bool,
    pub reason: String,
}

/// A warm name that live configuration still declares.
#[derive(Debug, PartialEq, Eq)]
pub struct DeclaredImage {
    pub profile: ProfileName,
    pub warm_template: VmName,
}

/// What a sweep may act on, computed by the manager so a backend never has to
/// read configuration or records itself.
pub struct ImageSweep {
    pub is_dry_run: bool,
    /// Warm names live configuration still declares, by profile.
    pub declared: Vec<DeclaredImage>,
    /// Profiles a durable warm record still claims, after pruning.
    pub claimed: NameSet,
}

/// A deletion the reaper proposes, carrying the evidence the runtime re-checks.
pub struct ReapRequest<'a> {
    pub name: &'a VmName,
    pub authorization: &'a ReapAuthorization,
    /// The profile that declares the name, when one still does.
    pub profile: Option<&'a Profile>,
    /// The daemon's own record claiming the name, for a repointed image.
    pub record: Option<&'a WarmImageRecord>,
    /// The terminal allocation a `Record` authorization rests on. Tearing the
    /// guest down without it leaves the guest's runner registration behind.
    pub allocation: Option<&'a Allocation>,
    /// Every image name live configuration claims; none of them is deletable,
    /// whatever a record says, and whether or not its profile still exists.
    pub reserved: &'a NameSet,
    /// Teardown budget for a backend that has to stop, undefine, and delete
    /// volumes. A running shutdown caps it, as it caps every teardown.
    pub budget: CleanupBudget,
}

/// What the recycle gate is allowed to do and how long it has.
#[derive(Clone, Copy, Debug, PartialEq, Eq, Structural)]
pub struct HotReset {
    pub simulator_reset: SimulatorReset,
    pub budget: CleanupBudget,
}

/// One finished allocation's guest, handed to the pool instead of destroyed.
///
/// The pool never provisions: a machine enters it only as the residue of a
/// completed hot allocation, which is what this asks the backend to keep.
pub struct HotRetainRequest<'a> {
    /// The record now naming the machine, written before the handover so a
    /// machine the pool holds is never a machine with no record.
    pub guest: &'a HotGuest,
    /// The allocation whose job just ended, which is what the backend knows
    /// the running guest by.
    pub allocation: &'a Allocation,
    pub profile: &'a Profile,
    /// The recycle gate's settings, run as part of the handover so a retained
    /// machine and a recycled one enter the pool in the same state.
    pub reset: HotReset,
}

/// The same machines once more.
pub fn copied_machines(machines: &Vec<HostMachine>) -> (copy: Vec<HostMachine>)
    ensures
        copy@ == machines@,
{
    let mut copy: Vec<HostMachine> = Vec::new();
    let mut i: usize = 0;
    while i < machines.len()
        invariant
            i <= machines@.len(),
            copy@ == machines@.take(i as int),
        decreases machines@.len() - i,
    {
        copy.push(machines[i].clone());
        assert(machines@.take(i + 1) =~= machines@.take(i as int).push(machines@[i as int]));
        i = i + 1;
    }
    assert(copy@ =~= machines@);
    copy
}

/// A stopped machine and a machine of somebody else are no running machines of
/// this service; one that runs and is its own is.
pub proof fn law_running_owned_is_both(machine: HostMachine)
    ensures
        machine.state is Running && machine.ownership is Owned ==> machine.running_owned(),
        !(machine.state is Running) ==> !machine.running_owned(),
        !(machine.ownership is Owned) ==> !machine.running_owned(),
{
}

} // verus!
