use vstd::prelude::*;

use crate::domain::allocation::GuestSize;

verus! {

/// A size whose storage is no smaller than the base it boots from, as far as
/// the validated ceiling lets a size be recorded at all.
pub open spec fn floored_size(size: GuestSize, base_mb: u64, ceiling_mb: u64) -> GuestSize {
    let floor = if base_mb <= ceiling_mb {
        base_mb
    } else {
        ceiling_mb
    };
    GuestSize {
        storage_mb: if size.storage_mb >= floor {
            size.storage_mb
        } else {
            floor
        },
        ..size
    }
}

/// Raises `storage_mb` to the base's virtual size, clamped to the validated
/// ceiling so the result is always a recordable size.
pub fn floored(size: GuestSize, base_mb: u64, ceiling_mb: u64) -> (effective: GuestSize)
    ensures
        effective == floored_size(size, base_mb, ceiling_mb),
{
    let floor: u64 = if base_mb <= ceiling_mb {
        base_mb
    } else {
        ceiling_mb
    };
    let storage_mb: u64 = if size.storage_mb >= floor {
        size.storage_mb
    } else {
        floor
    };
    GuestSize { storage_mb, ..size }
}

/// The sizing admission charges and the allocation records: the resolved
/// request, floored at the virtual size of the base the guest boots from. A
/// backend that cannot see the base leaves the declared size charged.
pub fn effective_size(size: GuestSize, base_mb: Option<u64>, ceiling_mb: u64) -> (effective:
    GuestSize)
    ensures
        effective == match base_mb {
            Some(mb) => floored_size(size, mb, ceiling_mb),
            None => size,
        },
{
    match base_mb {
        Some(mb) => floored(size, mb, ceiling_mb),
        None => size,
    }
}

/// A recordable size stays recordable, whatever base it is floored at, and an
/// ephemeral guest is charged no less than its declared storage.
pub proof fn law_floored_is_recordable(size: GuestSize, base_mb: u64, ceiling_mb: u64)
    requires
        size.storage_mb <= ceiling_mb,
    ensures
        floored_size(size, base_mb, ceiling_mb).storage_mb <= ceiling_mb,
        floored_size(size, base_mb, ceiling_mb).storage_mb >= size.storage_mb,
        base_mb <= ceiling_mb ==> floored_size(size, base_mb, ceiling_mb).storage_mb >= base_mb,
        floored_size(size, base_mb, ceiling_mb).cpu_count == size.cpu_count,
        floored_size(size, base_mb, ceiling_mb).memory_mb == size.memory_mb,
{
}

/// A guest is charged the larger of what it declares and what its base takes, as
/// far as a size may be recorded at all, and nothing beyond either.
pub proof fn law_guest_pays_for_its_base(size: GuestSize, base_mb: u64, ceiling_mb: u64)
    ensures
        ({
            let charged = floored_size(size, base_mb, ceiling_mb);
            &&& charged.storage_mb >= size.storage_mb
            &&& charged.storage_mb >= base_mb || charged.storage_mb >= ceiling_mb
            &&& charged.storage_mb == size.storage_mb || (charged.storage_mb <= base_mb
                && charged.storage_mb <= ceiling_mb)
            &&& charged.cpu_count == size.cpu_count
            &&& charged.memory_mb == size.memory_mb
        }),
{
}

} // verus!
