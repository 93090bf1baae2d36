use vstd::prelude::*;

use crate::admission::capacity::{
    active_allocations, at_most, committed_capacity, committed_usage, foreign_running,
    lemma_committed_slots, live_allocations, stray_count, CommittedCapacity,
};
use crate::admission::hot::{hot_capacity, hot_names, pool_usage, pooled_names};
use crate::config_reload::ConfigHandle;
use crate::domain::allocation::Allocation;
use crate::domain::hot::HotGuest;
use crate::domain::image::WarmImageRecord;
use crate::domain::profile::Config;
use crate::error::StoreError;
use crate::names::NameSet;
use crate::operator::model::{CapacityStatus, OperatorStatus, WarmImageStatus};
use crate::reaper::images::{is_image_referenced, is_referenced};
use crate::service::AllocationManager;
use crate::state::Entry;
use crate::worker::model::HostMachine;

verus! {

/// The most a count on the wire may say.
pub const COUNT_LIMIT: usize = 65_535;

/// A count, as far as the wire carries it.
pub open spec fn carried(count: nat) -> u32 {
    if count <= COUNT_LIMIT {
        count as u32
    } else {
        COUNT_LIMIT as u32
    }
}

pub fn bounded_count(value: usize) -> (count: u32)
    ensures
        count == carried(value as nat),
{
    if value <= COUNT_LIMIT {
        value as u32
    } else {
        COUNT_LIMIT as u32
    }
}

/// What the host holds and may hold. Without a listing no machine is foreign
/// and the pool holds only what is being handed over.
pub open spec fn capacity_of(
    config: Config,
    entries: Seq<Entry>,
    machines: Option<Seq<HostMachine>>,
    hot: Seq<HotGuest>,
) -> CapacityStatus {
    let listed = match machines {
        Some(listed) => listed,
        None => Seq::empty(),
    };
    let active = live_allocations(entries);
    let committed = committed_usage(active, config);
    let pooled = pooled_names(hot, listed);
    CapacityStatus {
        active_allocations: carried(committed.slots),
        foreign_running: carried(stray_count(listed, active, pooled)),
        hot_running: carried(pool_usage(hot, active, pooled).slots),
        max_hot_vms: config.runtime.max_hot_vms,
        max_running_vms: config.runtime.max_running_vms,
        committed_cpu_count: at_most(committed.cpu_count, u32::MAX as int) as u32,
        committed_memory_mb: at_most(committed.memory_mb, u32::MAX as int) as u32,
        committed_storage_mb: at_most(committed.storage_mb, u64::MAX as int) as u64,
        host_cpu_count: config.runtime.host_cpu_count,
        host_memory_mb: config.runtime.host_memory_mb,
        host_storage_mb: config.runtime.host_storage_mb,
        is_host_visible: machines is Some,
    }
}

/// One warm image as an operator sees it.
pub open spec fn image_status(
    record: WarmImageRecord,
    config: Config,
    quarantined: Set<Seq<char>>,
    retained: Option<u32>,
) -> WarmImageStatus {
    WarmImageStatus {
        profile: record.profile,
        warm_template: record.warm_template.name,
        generation: record.generation,
        state: record.state,
        produced_at_unix: record.produced_at_unix,
        is_referenced: is_referenced(config, record),
        is_quarantined: quarantined.contains(record.profile@),
        retained_generations: retained,
    }
}

impl AllocationManager {
    /// The same fold admission charges, so what an operator reads is what the
    /// next allocation will be measured against. A hot machine holds its slot
    /// idle or not.
    pub fn capacity_status(
        &self,
        config: &Config,
        machines: Option<&Vec<HostMachine>>,
        hot: &Vec<HotGuest>,
    ) -> (status: CapacityStatus)
        requires
            committed_usage(live_allocations(self.entries@), *config).cpu_count <= u32::MAX,
        ensures
            status == capacity_of(
                *config,
                self.entries@,
                match machines {
                    Some(listed) => Some(listed@),
                    None => None::<Seq<HostMachine>>,
                },
                hot@,
            ),
    {
        let nothing: Vec<HostMachine> = Vec::new();
        let listed: &Vec<HostMachine> = match machines {
            Some(listed) => listed,
            None => &nothing,
        };
        let names: NameSet = hot_names(hot, listed);
        let active: Vec<&Allocation> = active_allocations(&self.entries);
        let committed: CommittedCapacity = committed_capacity(&active, config);
        let pooled: CommittedCapacity = hot_capacity(hot, &active, &names);
        let foreign: usize = foreign_running(&active, listed, &names);
        proof {
            lemma_committed_slots(active@.unref(), *config);
            if machines is None {
                assert(listed@ =~= Seq::<HostMachine>::empty());
            }
        }
        CapacityStatus {
            active_allocations: bounded_count(committed.active),
            foreign_running: bounded_count(foreign),
            hot_running: bounded_count(pooled.active),
            max_hot_vms: config.runtime.max_hot_vms,
            max_running_vms: config.runtime.max_running_vms,
            committed_cpu_count: committed.cpu_count,
            committed_memory_mb: committed.memory_mb,
            committed_storage_mb: committed.storage_mb,
            host_cpu_count: config.runtime.host_cpu_count,
            host_memory_mb: config.runtime.host_memory_mb,
            host_storage_mb: config.runtime.host_storage_mb,
            is_host_visible: machines.is_some(),
        }
    }

    /// Every warm image record as an operator sees it; `retained` says for each
    /// how many superseded generations the backend still pins.
    pub fn warm_image_status(
        &self,
        config: &Config,
        records: &Vec<WarmImageRecord>,
        retained: &Vec<Option<u32>>,
    ) -> (statuses: Vec<WarmImageStatus>)
        requires
            retained@.len() == records@.len(),
        ensures
            statuses@.len() == records@.len(),
            forall|i: int|
                0 <= i < records@.len() ==> #[trigger] statuses@[i] == image_status(
                    records@[i],
                    *config,
                    self.quarantined@,
                    retained@[i],
                ),
    {
        let mut statuses: Vec<WarmImageStatus> = Vec::new();
        let mut i: usize = 0;
        while i < records.len()
            invariant
                retained@.len() == records@.len(),
                i <= records@.len(),
                statuses@.len() == i,
                forall|k: int|
                    0 <= k < i ==> #[trigger] statuses@[k] == image_status(
                        records@[k],
                        *config,
                        self.quarantined@,
                        retained@[k],
                    ),
            decreases records@.len() - i,
        {
            let record: &WarmImageRecord = &records[i];
            statuses.push(
                WarmImageStatus {
                    profile: record.profile.clone(),
                    warm_template: record.warm_template.name.clone(),
                    generation: record.generation,
                    state: record.state,
                    produced_at_unix: record.produced_at_unix,
                    is_referenced: is_image_referenced(config, record),
                    is_quarantined: self.quarantined.contains(record.profile.as_str()),
                    retained_generations: retained[i],
                },
            );
            i = i + 1;
        }
        statuses
    }

    /// What the host would answer with right now. Reports only: what could not
    /// be read is reported as not visible or as nothing, and never refuses.
    pub fn status_snapshot<'a>(
        &'a self,
        handle: &'a ConfigHandle,
        machines: Option<&Vec<HostMachine>>,
        records: &Result<Vec<WarmImageRecord>, StoreError>,
        retained: &Vec<Option<u32>>,
        hot: &Result<Vec<HotGuest>, StoreError>,
    ) -> (status: OperatorStatus<'a>)
        requires
            committed_usage(live_allocations(self.entries@), handle.in_force()).cpu_count
                <= u32::MAX,
            records matches Ok(found) ==> retained@.len() == found@.len(),
        ensures
            status.capacity == capacity_of(
                handle.in_force(),
                self.entries@,
                match machines {
                    Some(listed) => Some(listed@),
                    None => None::<Seq<HostMachine>>,
                },
                match *hot {
                    Ok(guests) => guests@,
                    Err(_) => Seq::<HotGuest>::empty(),
                },
            ),
            status.config_generation == handle.count(),
            status.restart_pending@ == handle.waiting(),
            status.is_warm_image_store_visible == (*records is Ok),
            records is Err ==> status.warm_images@.len() == 0,
            records matches Ok(found) ==> status.warm_images@.len() == found@.len() && forall|i: int|
                0 <= i < found@.len() ==> #[trigger] status.warm_images@[i] == image_status(
                    found@[i],
                    handle.in_force(),
                    self.quarantined@,
                    retained@[i],
                ),
            match status.last_sweep {
                Some(report) => self.last_sweep == Some(*report),
                None => self.last_sweep is None,
            },
    {
        let config = handle.current();
        let nothing: Vec<HotGuest> = Vec::new();
        let guests: &Vec<HotGuest> = match hot {
            Ok(found) => found,
            Err(_) => &nothing,
        };
        proof {
            if *hot is Err {
                assert(guests@ =~= Seq::<HotGuest>::empty());
            }
        }
        let capacity: CapacityStatus = self.capacity_status(&config, machines, guests);
        let warm_images: Vec<WarmImageStatus> = match records {
            Ok(found) => self.warm_image_status(&config, found, retained),
            Err(_) => Vec::new(),
        };
        OperatorStatus {
            capacity,
            config_generation: handle.generation(),
            restart_pending: handle.restart_pending(),
            warm_images,
            is_warm_image_store_visible: records.is_ok(),
            last_sweep: self.last_sweep(),
        }
    }
}

/// What an operator reads is what the next allocation is measured against: the
/// unfinished allocations and what they are charged, the strays and the pool, as
/// far as the counters carry them, and the limits of the configuration in force.
/// A host that was not listed is shown as not visible.
pub proof fn law_status_is_what_admission_charges(
    config: Config,
    entries: Seq<Entry>,
    machines: Seq<HostMachine>,
    hot: Seq<HotGuest>,
)
    ensures
        ({
            let shown = capacity_of(config, entries, Some(machines), hot);
            let active = live_allocations(entries);
            let pooled = pooled_names(hot, machines);
            let charged = committed_usage(active, config);
            &&& active.len() <= 65_535 ==> shown.active_allocations == active.len()
            &&& active.len() > 65_535 ==> shown.active_allocations == 65_535
            &&& stray_count(machines, active, pooled) <= 65_535 ==> shown.foreign_running
                == stray_count(machines, active, pooled)
            &&& pool_usage(hot, active, pooled).slots <= 65_535 ==> shown.hot_running
                == pool_usage(hot, active, pooled).slots
            &&& charged.cpu_count <= u32::MAX ==> shown.committed_cpu_count == charged.cpu_count
            &&& charged.memory_mb <= u32::MAX ==> shown.committed_memory_mb == charged.memory_mb
            &&& charged.storage_mb <= u64::MAX ==> shown.committed_storage_mb
                == charged.storage_mb
            &&& shown.max_hot_vms == config.runtime.max_hot_vms
            &&& shown.max_running_vms == config.runtime.max_running_vms
            &&& shown.host_cpu_count == config.runtime.host_cpu_count
            &&& shown.host_memory_mb == config.runtime.host_memory_mb
            &&& shown.host_storage_mb == config.runtime.host_storage_mb
            &&& shown.is_host_visible
        }),
        !capacity_of(config, entries, None, hot).is_host_visible,
        capacity_of(config, entries, None, hot).foreign_running == 0,
{
    lemma_committed_slots(live_allocations(entries), config);
}

/// An image is shown as its record has it, with whether its profile still points
/// at it and whether it was found unusable.
pub proof fn law_image_status_shows_the_record(
    record: WarmImageRecord,
    config: Config,
    quarantined: Set<Seq<char>>,
    retained: Option<u32>,
)
    ensures
        ({
            let shown = image_status(record, config, quarantined, retained);
            &&& shown.profile == record.profile
            &&& shown.warm_template == record.warm_template.name
            &&& shown.generation == record.generation
            &&& shown.state == record.state
            &&& shown.produced_at_unix == record.produced_at_unix
            &&& shown.is_referenced == is_referenced(config, record)
            &&& shown.is_quarantined == quarantined.contains(record.profile@)
            &&& shown.retained_generations == retained
        }),
{
}

} // verus!
