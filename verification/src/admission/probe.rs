use vstd::prelude::*;

use crate::worker::error::WorkerError;
use crate::worker::model::{copied_machines, HostMachine};

verus! {

/// Clocks and durations are counted in nanoseconds.
pub const SECOND: u128 = 1_000_000_000;

/// How often a failing probe is allowed to warn, so a broken host listing does
/// not drown the log at request rate.
pub const WARNING_INTERVAL: u128 = 60_000_000_000;

/// How long ago an instant was; an instant that is still to come was just now.
pub open spec fn elapsed(since: u128, now: u128) -> int {
    if now >= since {
        now - since
    } else {
        0
    }
}

/// One host listing and when it was taken.
#[derive(Debug)]
pub struct Listing {
    pub taken_at: u128,
    pub machines: Vec<HostMachine>,
}

/// The host listing, cached for `runtime.poll_seconds`.
#[derive(Debug)]
pub struct MachineProbe {
    pub cached: Option<Listing>,
    pub warned_at: Option<u128>,
}

impl Default for MachineProbe {
    fn default() -> (probe: MachineProbe)
        ensures
            probe.cached is None,
            probe.warned_at is None,
    {
        MachineProbe { cached: None, warned_at: None }
    }
}

/// What one listing attempt came to.
#[derive(Debug)]
pub struct Probed {
    pub listed: Result<Vec<HostMachine>, WorkerError>,
    /// Is this failure one the log hears about?
    pub is_warned: bool,
}

impl MachineProbe {
    /// Is there a listing younger than one poll interval?
    pub open spec fn is_fresh(&self, now: u128, poll_seconds: u64) -> bool {
        self.cached matches Some(listing) && elapsed(listing.taken_at, now) < poll_seconds * SECOND
    }

    /// The cached listing while it is younger than one poll interval.
    pub fn reusable(&self, now: u128, poll_seconds: u64) -> (machines: Option<Vec<HostMachine>>)
        ensures
            machines is Some <==> self.is_fresh(now, poll_seconds),
            machines matches Some(listed) ==> listed@ == self.cached.unwrap().machines@,
    {
        match &self.cached {
            None => None,
            Some(listing) => {
                let age: u128 = now.saturating_sub(listing.taken_at);
                if age < poll_seconds as u128 * SECOND {
                    Some(copied_machines(&listing.machines))
                } else {
                    None
                }
            },
        }
    }

    /// May a failure at this moment be logged?
    pub open spec fn may_warn(&self, now: u128) -> bool {
        self.warned_at matches Some(at) ==> elapsed(at, now) >= WARNING_INTERVAL
    }

    /// Takes in what the host answered. A listing replaces the cached one; an
    /// error is the answer, because capacity that cannot be seen is capacity
    /// there is not, and the stale listing is never served in its place.
    pub fn record(&mut self, answer: Result<Vec<HostMachine>, WorkerError>, now: u128) -> (probed:
        Probed)
        ensures
            answer matches Ok(machines) ==> {
                &&& probed.listed matches Ok(listed) && listed@ == machines@
                &&& !probed.is_warned
                &&& final(self).cached matches Some(listing) && listing.taken_at == now
                    && listing.machines@ == machines@
                &&& final(self).warned_at == old(self).warned_at
            },
            answer matches Err(error) ==> {
                &&& probed.listed == Err::<Vec<HostMachine>, WorkerError>(error)
                &&& probed.is_warned == old(self).may_warn(now)
                &&& final(self).cached == old(self).cached
                &&& final(self).warned_at == (if old(self).may_warn(now) {
                    Some(now)
                } else {
                    old(self).warned_at
                })
            },
    {
        match answer {
            Ok(machines) => {
                let listed: Vec<HostMachine> = copied_machines(&machines);
                self.cached = Some(Listing { taken_at: now, machines });
                Probed { listed: Ok(listed), is_warned: false }
            },
            Err(error) => {
                let is_warned: bool = match self.warned_at {
                    None => true,
                    Some(at) => now.saturating_sub(at) >= WARNING_INTERVAL,
                };
                if is_warned {
                    self.warned_at = Some(now);
                }
                Probed { listed: Err(error), is_warned }
            },
        }
    }
}

/// A cached listing answers only while it is younger than one poll interval; one
/// taken in the future is taken to be new.
pub proof fn law_old_listing_is_never_served(probe: MachineProbe, now: u128, poll_seconds: u64)
    ensures
        probe.is_fresh(now, poll_seconds) <==> {
            &&& probe.cached is Some
            &&& now < probe.cached.unwrap().taken_at + poll_seconds * 1_000_000_000
            &&& poll_seconds > 0
        },
{
}

/// Two warnings of a failing probe are a minute apart or more.
pub proof fn law_warnings_keep_their_distance(probe: MachineProbe, now: u128)
    ensures
        probe.may_warn(now) <==> probe.warned_at is None || now >= probe.warned_at.unwrap()
            + 60_000_000_000,
{
}

} // verus!
