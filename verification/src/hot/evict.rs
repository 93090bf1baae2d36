use vstd::prelude::*;

use crate::domain::hot::{HotDrainReason, HotGuest};
use crate::domain::profile::{Config, NamedProfile};
use crate::error::StoreError;
use crate::event::Fact;

verus! {

/// The widest cleanup allowance any profile has.
pub open spec fn widest_cleanup(profiles: Seq<NamedProfile>) -> Option<u64>
    decreases profiles.len(),
{
    if profiles.len() == 0 {
        None
    } else {
        let seconds = profiles.last().profile.cleanup_timeout_seconds;
        match widest_cleanup(profiles.drop_last()) {
            Some(widest) => Some(
                if widest >= seconds {
                    widest
                } else {
                    seconds
                },
            ),
            None => Some(seconds),
        }
    }
}

pub fn widest_cleanup_seconds(config: &Config) -> (widest: Option<u64>)
    ensures
        widest == widest_cleanup(config.profiles@),
{
    let ghost profiles: Seq<NamedProfile> = config.profiles@;
    let mut widest: Option<u64> = None;
    let mut i: usize = 0;
    while i < config.profiles.len()
        invariant
            profiles == config.profiles@,
            i <= profiles.len(),
            widest == widest_cleanup(profiles.take(i as int)),
        decreases profiles.len() - i,
    {
        let seconds: u64 = config.profiles[i].profile.cleanup_timeout_seconds;
        proof {
            assert(profiles.take(i + 1).drop_last() =~= profiles.take(i as int));
            assert(profiles.take(i + 1).last() == profiles[i as int]);
        }
        widest = match widest {
            Some(held) => Some(
                if held >= seconds {
                    held
                } else {
                    seconds
                },
            ),
            None => Some(seconds),
        };
        i = i + 1;
    }
    assert(profiles.take(profiles.len() as int) =~= profiles);
    widest
}

/// A number of seconds, or the floor where that is more.
pub open spec fn no_less(seconds: Option<u64>, floor: u64) -> u64 {
    match seconds {
        Some(seconds) => if seconds >= floor {
            seconds
        } else {
            floor
        },
        None => floor,
    }
}

/// The widest configured teardown allowance, because destroying a pool machine
/// is the same work destroying an allocation's guest is and no profile is more
/// entitled to it than another. It is never less than the backend's minimum,
/// and a running shutdown caps it.
pub fn hot_eviction_seconds(config: &Config, minimum_seconds: u64) -> (seconds: u64)
    ensures
        seconds == no_less(widest_cleanup(config.profiles@), minimum_seconds),
{
    match widest_cleanup_seconds(config) {
        Some(seconds) => if seconds >= minimum_seconds {
            seconds
        } else {
            minimum_seconds
        },
        None => minimum_seconds,
    }
}

/// The record of a machine that has to go but cannot move to `Draining` yet,
/// or `None` where the record says so already.
pub open spec fn pending(guest: HotGuest, reason: HotDrainReason) -> Option<HotGuest> {
    if guest.drain_reason == Some(reason) {
        None
    } else {
        Some(HotGuest { drain_reason: Some(reason), ..guest })
    }
}

/// Marks a record that has to go but cannot move to `Draining` yet: an eviction
/// that failed, or a drain that landed on a mid-operation record. Only the
/// reason is stamped, because the state machine has no edge out of a
/// mid-operation state. The reason is what a bound pass retries on and what the
/// recycle gate reads before it lets a machine join the pool.
pub fn ensure_hot_eviction_pending(guest: &HotGuest, reason: HotDrainReason) -> (stamped: Option<
    HotGuest,
>)
    ensures
        stamped == pending(*guest, reason),
{
    if guest.drain_reason == Some(reason) {
        return None;
    }
    let mut stamped: HotGuest = guest.clone();
    stamped.drain_reason = Some(reason);
    Some(stamped)
}

/// What follows the backend's answer to an eviction.
#[derive(Debug, PartialEq, Eq)]
pub enum Eviction {
    /// The machine is gone: its record is removed and the eviction recorded.
    Retire,
    /// The machine may still be there: its record stays, marked for a retry.
    Keep { stamped: Option<HotGuest> },
}

/// Retires the record of a machine the backend destroyed, and keeps the record
/// of one it could not.
///
/// The record is removed only after the machine is gone. A record that outlives
/// a failed deletion keeps the name protected and the slot charged, which is
/// the safe direction to fail in.
pub fn ensure_hot_evicted(guest: &HotGuest, reason: HotDrainReason, is_destroyed: bool) -> (eviction:
    Eviction)
    ensures
        eviction == if is_destroyed {
            Eviction::Retire
        } else {
            Eviction::Keep { stamped: pending(*guest, reason) }
        },
{
    if is_destroyed {
        Eviction::Retire
    } else {
        Eviction::Keep { stamped: ensure_hot_eviction_pending(guest, reason) }
    }
}

/// The fact the end of an eviction leaves: only a machine that is gone is told.
pub open spec fn eviction_leaves(guest: HotGuest, reason: HotDrainReason, eviction: Eviction) -> Option<
    Fact,
> {
    match eviction {
        Eviction::Retire => Some(Fact::eviction(guest, reason)),
        Eviction::Keep { .. } => None,
    }
}

/// The fact the end of an eviction leaves, once the record was retired or that
/// was tried.
pub fn eviction_fact(guest: &HotGuest, reason: HotDrainReason, eviction: &Eviction) -> (fact: Option<
    Fact,
>)
    ensures
        fact == eviction_leaves(*guest, reason, *eviction),
{
    match eviction {
        Eviction::Retire => Some(Fact::evicted(guest, reason)),
        Eviction::Keep { .. } => None,
    }
}

/// The reason a record was stamped with while an operation was still running
/// over it, so the operation ends in an eviction rather than handing the
/// machine back to the pool. A record that is gone or unreadable says nothing.
pub fn hot_drain_pending(loaded: &Result<Option<HotGuest>, StoreError>) -> (reason: Option<
    HotDrainReason,
>)
    ensures
        reason == match *loaded {
            Ok(Some(guest)) => guest.drain_reason,
            _ => None::<HotDrainReason>,
        },
{
    match loaded {
        Ok(Some(guest)) => guest.drain_reason,
        _ => None,
    }
}

/// An eviction that fails leaves the record as it was but for the reason it has
/// to go, so the name stays protected, the slot stays charged and the next pass
/// finds it; the record goes only where the machine did.
pub proof fn law_record_outlives_its_machine(
    guest: HotGuest,
    reason: HotDrainReason,
    is_destroyed: bool,
    eviction: Eviction,
)
    requires
        eviction == if is_destroyed {
            Eviction::Retire
        } else {
            Eviction::Keep { stamped: pending(guest, reason) }
        },
    ensures
        eviction is Retire <==> is_destroyed,
        eviction matches Eviction::Keep { stamped } ==> {
            let kept = match stamped {
                Some(record) => record,
                None => guest,
            };
            kept == (HotGuest { drain_reason: Some(reason), ..guest })
        },
{
}

/// The allowance of an eviction is no less than any profile's and no less than
/// the backend's minimum, and it is one of them.
pub proof fn law_eviction_gets_the_widest_allowance(profiles: Seq<NamedProfile>, minimum: u64)
    ensures
        ({
            let seconds = no_less(widest_cleanup(profiles), minimum);
            &&& seconds >= minimum
            &&& forall|i: int|
                0 <= i < profiles.len() ==> (
                #[trigger] profiles[i]).profile.cleanup_timeout_seconds <= seconds
            &&& seconds == minimum || exists|i: int|
                0 <= i < profiles.len() && (
                #[trigger] profiles[i]).profile.cleanup_timeout_seconds == seconds
        }),
    decreases profiles.len(),
{
    lemma_widest_cleanup(profiles);
}

proof fn lemma_widest_cleanup(profiles: Seq<NamedProfile>)
    ensures
        widest_cleanup(profiles) is None <==> profiles.len() == 0,
        widest_cleanup(profiles) matches Some(widest) ==> {
            &&& forall|i: int|
                0 <= i < profiles.len() ==> (
                #[trigger] profiles[i]).profile.cleanup_timeout_seconds <= widest
            &&& exists|i: int|
                0 <= i < profiles.len() && (
                #[trigger] profiles[i]).profile.cleanup_timeout_seconds == widest
        },
    decreases profiles.len(),
{
    if profiles.len() > 0 {
        let rest = profiles.drop_last();
        lemma_widest_cleanup(rest);
        assert(profiles[profiles.len() - 1] == profiles.last());
        if let Some(widest) = widest_cleanup(rest) {
            let i: int = choose|i: int|
                0 <= i < rest.len() && (#[trigger] rest[i]).profile.cleanup_timeout_seconds
                    == widest;
            assert(profiles[i] == rest[i]);
            assert forall|k: int| 0 <= k < rest.len() implies (
            #[trigger] profiles[k]).profile.cleanup_timeout_seconds <= widest by {
                assert(profiles[k] == rest[k]);
            }
        }
    }
}

/// A stamp says why a machine has to go and changes nothing else; a record that
/// says so already is not written again.
pub proof fn law_stamp_says_why_and_nothing_else(guest: HotGuest, reason: HotDrainReason)
    ensures
        pending(guest, reason) is None <==> guest.drain_reason == Some(reason),
        pending(guest, reason) matches Some(stamped) ==> {
            &&& stamped.drain_reason == Some(reason)
            &&& stamped.state == guest.state
            &&& stamped.vm_name == guest.vm_name
            &&& stamped.profile == guest.profile
            &&& stamped.lane == guest.lane
            &&& stamped.size == guest.size
            &&& stamped.claimed_by == guest.claimed_by
            &&& stamped.jobs_served == guest.jobs_served
            &&& stamped.updated_at_unix == guest.updated_at_unix
            &&& stamped.booted_at_unix == guest.booted_at_unix
            &&& stamped == (HotGuest { drain_reason: Some(reason), ..guest })
        },
{
}

} // verus!
