use vstd::prelude::*;

use crate::domain::allocation::{AllocationId, AllocationMode, AllocationState, CloneSource,
    GuestSize, ProfileName, VmName};
use crate::domain::image::WarmImageState;
use crate::reaper::sweep::SweepReport;

verus! {

/// One allocation as the host sees it; a projection of the durable record, not
/// a second place state is kept.
#[derive(Debug, PartialEq, Eq)]
pub struct AllocationSummary {
    pub id: AllocationId,
    pub profile: ProfileName,
    pub repository: String,
    pub run_id: u64,
    pub run_attempt: u32,
    pub state: AllocationState,
    pub age_seconds: u64,
    pub vm_name: VmName,
    pub mode: AllocationMode,
    pub size: Option<GuestSize>,
    pub source: Option<CloneSource>,
}

/// What the host holds and may hold, as the next allocation will be measured.
#[derive(Clone, Copy, Debug, PartialEq, Eq, Structural)]
pub struct CapacityStatus {
    pub active_allocations: u32,
    pub foreign_running: u32,
    pub hot_running: u32,
    pub max_hot_vms: u8,
    pub max_running_vms: u8,
    pub committed_cpu_count: u32,
    pub committed_memory_mb: u32,
    pub committed_storage_mb: u64,
    pub host_cpu_count: Option<u8>,
    pub host_memory_mb: Option<u32>,
    pub host_storage_mb: Option<u64>,
    pub is_host_visible: bool,
}

#[derive(Debug, PartialEq, Eq)]
pub struct WarmImageStatus {
    pub profile: ProfileName,
    pub warm_template: VmName,
    pub generation: u64,
    pub state: WarmImageState,
    pub produced_at_unix: u64,
    /// False once the profile stopped naming this image.
    pub is_referenced: bool,
    /// Proven unusable this run; cleared by a restart or the next promotion.
    pub is_quarantined: bool,
    /// Superseded generations a backend still pins because a live or
    /// recoverable consumer may be reading them. `None` where the backend
    /// retains none at all.
    pub retained_generations: Option<u32>,
}

/// In-memory fields read blank after a restart, so each is labelled rather
/// than defaulted to something an operator would read as "never happened".
#[derive(Debug)]
pub struct OperatorStatus<'a> {
    pub capacity: CapacityStatus,
    /// Reload count since this process started, not since the file changed.
    pub config_generation: u64,
    pub restart_pending: Vec<String>,
    pub warm_images: Vec<WarmImageStatus>,
    /// False when warm-image authority could not be read.
    pub is_warm_image_store_visible: bool,
    /// None when no sweep has run *in this process*.
    pub last_sweep: Option<&'a SweepReport>,
}

} // verus!
