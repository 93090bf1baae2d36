use vstd::prelude::*;

verus! {

/// How much history stays resident.
pub const IN_MEMORY_ALLOCATION_LIMIT: usize = 1_000;

/// How long teardown waits between the cleanup attempts it retries.
pub const CLEANUP_RETRY_DELAY: u128 = 1_000_000_000;

/// A pause too short to notice.
pub const FAST_RETRY_DELAY: u128 = 1_000_000;

/// The knobs production always leaves at their defaults, injectable so a rule
/// can be shown without seeding a full history window or spending the wall
/// clock the rule costs in production. Durations are in nanoseconds.
#[derive(Clone, Copy, Debug, PartialEq, Eq, Structural)]
pub struct ManagerTuning {
    pub history_limit: usize,
    pub cleanup_retry_delay: u128,
}

impl Default for ManagerTuning {
    fn default() -> (tuning: ManagerTuning)
        ensures
            tuning == (ManagerTuning {
                history_limit: IN_MEMORY_ALLOCATION_LIMIT,
                cleanup_retry_delay: CLEANUP_RETRY_DELAY,
            }),
    {
        ManagerTuning {
            history_limit: IN_MEMORY_ALLOCATION_LIMIT,
            cleanup_retry_delay: CLEANUP_RETRY_DELAY,
        }
    }
}

impl ManagerTuning {
    /// The production retry count and ordering with a negligible pause between
    /// attempts.
    pub fn fast_cleanup_retries() -> (tuning: ManagerTuning)
        ensures
            tuning == (ManagerTuning {
                history_limit: IN_MEMORY_ALLOCATION_LIMIT,
                cleanup_retry_delay: FAST_RETRY_DELAY,
            }),
    {
        ManagerTuning { cleanup_retry_delay: FAST_RETRY_DELAY, ..ManagerTuning::default() }
    }
}

} // verus!
