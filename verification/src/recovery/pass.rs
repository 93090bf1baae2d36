use vstd::prelude::*;

use crate::domain::allocation::VmName;
use crate::domain::hot::HotGuest;
use crate::domain::image::{WarmImageRecord, WarmImageState};
use crate::domain::profile::{Config, NamedProfile};
use crate::error::{ManagerError, StoreError};
use crate::recovery::hot::AdoptStep;
use crate::recovery::warm::{candidate_name, ensure_warm_consistent, is_warm_present,
    staging_candidate, warm_recovery, RecordStep};
use crate::warm::retention::Reversion;
use crate::worker::contract::{find_listed, law_listing_finds_what_it_lists, listed};
use crate::worker::error::WorkerError;
use crate::worker::model::{HostMachine, WarmAvailability};

verus! {

/// The next thing a pass over the warm images does. The last two end it; a place
/// is that of a profile in the configuration.
#[derive(Debug, PartialEq, Eq)]
pub enum WarmPassStep {
    /// List the host. One listing serves the whole pass.
    List,
    /// Read the profile's warm image record.
    Load { place: usize },
    /// Ask whether the recorded image is usable.
    Ask { place: usize, record: WarmImageRecord, staging: VmName },
    /// Save the record as promoted; a pass that cannot is given up.
    Finalize { place: usize, record: WarmImageRecord, staging: VmName, finalized: WarmImageRecord },
    /// Move the record back to the surviving generation.
    Revert {
        place: usize,
        record: WarmImageRecord,
        staging: VmName,
        is_staged: bool,
        reversion: Reversion,
    },
    /// Restore the surviving generation under the name, then move the record
    /// back whether or not that worked.
    Restore {
        place: usize,
        record: WarmImageRecord,
        staging: VmName,
        is_staged: bool,
        reversion: Reversion,
    },
    /// Delete the candidate of an interrupted promotion.
    Delete { place: usize, record: WarmImageRecord, staging: VmName },
    /// Tell the producing allocation that its promotion was interrupted.
    Mark { place: usize, record: WarmImageRecord },
    Done,
    Failed(ManagerError),
}

/// What a step came back with.
#[derive(Debug, PartialEq, Eq)]
pub enum WarmPassEvent {
    Listed(Result<(), WorkerError>),
    Loaded(Result<Option<WarmImageRecord>, StoreError>),
    Available(Result<WarmAvailability, WorkerError>),
    Saved(Result<(), StoreError>),
    /// It was tried; how it went is logged and changes nothing.
    Tried,
}

/// Does the profile at this place declare a warm image?
pub open spec fn is_declaring(profiles: Seq<NamedProfile>, place: int) -> bool {
    0 <= place < profiles.len() && profiles[place].profile.warm_template is Some
}

/// Is this where a pass goes on from `from`: at the next profile that declares a
/// warm image, or at its end?
pub open spec fn is_resumed(profiles: Seq<NamedProfile>, from: int, next: WarmPassStep) -> bool {
    match next {
        WarmPassStep::Load { place } => from <= place && is_declaring(profiles, place as int)
            && forall|k: int| from <= k < place ==> !#[trigger] is_declaring(profiles, k),
        WarmPassStep::Done => forall|k: int|
            from <= k < profiles.len() ==> !#[trigger] is_declaring(profiles, k),
        _ => false,
    }
}

/// Is this what is left to do of one profile once its record is settled?
pub open spec fn is_tail(
    profiles: Seq<NamedProfile>,
    place: usize,
    record: WarmImageRecord,
    staging: VmName,
    is_staged: bool,
    next: WarmPassStep,
) -> bool {
    if is_staged {
        next == (WarmPassStep::Delete { place, record, staging })
    } else if record.state is Staging {
        next == (WarmPassStep::Mark { place, record })
    } else {
        is_resumed(profiles, place + 1, next)
    }
}

/// Is `next` what follows a step that came back with this event? An answer that
/// is not the one a step waits for changes nothing.
pub open spec fn is_warm_pass_next(
    profiles: Seq<NamedProfile>,
    machines: Seq<HostMachine>,
    step: WarmPassStep,
    event: WarmPassEvent,
    next: WarmPassStep,
) -> bool {
    match (step, event) {
        (WarmPassStep::List, WarmPassEvent::Listed(answer)) => match answer {
            Ok(()) => is_resumed(profiles, 0, next),
            Err(error) => next == WarmPassStep::Failed(ManagerError::Worker(error)),
        },
        (WarmPassStep::Load { place }, WarmPassEvent::Loaded(found)) => match found {
            Ok(Some(record)) => match candidate_name(record) {
                Some(staging) => next == (WarmPassStep::Ask { place, record, staging }),
                None => is_resumed(profiles, place + 1, next),
            },
            Ok(None) => is_resumed(profiles, place + 1, next),
            Err(error) => next == WarmPassStep::Failed(ManagerError::Store(error)),
        },
        (WarmPassStep::Ask { place, record, staging }, WarmPassEvent::Available(answer)) => {
            match answer {
                Err(_) => is_resumed(profiles, place + 1, next),
                Ok(availability) => {
                    let is_staged = listed(machines, staging@) is Some;
                    match warm_recovery(record, !(availability is Absent), is_staged).record {
                        RecordStep::Keep => is_tail(
                            profiles,
                            place,
                            record,
                            staging,
                            is_staged,
                            next,
                        ),
                        RecordStep::Finalize(finalized) => next == (WarmPassStep::Finalize {
                            place,
                            record,
                            staging,
                            finalized,
                        }),
                        RecordStep::Revert(reversion) => next == (WarmPassStep::Revert {
                            place,
                            record,
                            staging,
                            is_staged,
                            reversion,
                        }),
                        RecordStep::Restore(reversion) => next == (WarmPassStep::Restore {
                            place,
                            record,
                            staging,
                            is_staged,
                            reversion,
                        }),
                    }
                },
            }
        },
        (
            WarmPassStep::Finalize { place, record, staging, .. },
            WarmPassEvent::Saved(answer),
        ) => match answer {
            Ok(()) => is_tail(profiles, place, record, staging, false, next),
            Err(error) => next == WarmPassStep::Failed(ManagerError::Store(error)),
        },
        (
            WarmPassStep::Revert { place, record, staging, is_staged, .. },
            WarmPassEvent::Tried,
        ) => is_tail(profiles, place, record, staging, is_staged, next),
        (
            WarmPassStep::Restore { place, record, staging, is_staged, .. },
            WarmPassEvent::Tried,
        ) => is_tail(profiles, place, record, staging, is_staged, next),
        (WarmPassStep::Delete { place, record, .. }, WarmPassEvent::Tried) => {
            if record.state is Staging {
                next == (WarmPassStep::Mark { place, record })
            } else {
                is_resumed(profiles, place + 1, next)
            }
        },
        (WarmPassStep::Mark { place, .. }, WarmPassEvent::Tried) => is_resumed(
            profiles,
            place + 1,
            next,
        ),
        _ => next == step,
    }
}

/// The place of the profile a step is about.
pub open spec fn place_in(step: WarmPassStep) -> int {
    match step {
        WarmPassStep::Load { place } => place as int,
        WarmPassStep::Ask { place, .. } => place as int,
        WarmPassStep::Finalize { place, .. } => place as int,
        WarmPassStep::Revert { place, .. } => place as int,
        WarmPassStep::Restore { place, .. } => place as int,
        WarmPassStep::Delete { place, .. } => place as int,
        WarmPassStep::Mark { place, .. } => place as int,
        _ => -1,
    }
}

/// The profile a step is about is one of the configuration.
pub open spec fn is_placed_step(profiles: Seq<NamedProfile>, step: WarmPassStep) -> bool {
    place_in(step) < profiles.len()
}

fn resumed(config: &Config, from: usize) -> (next: WarmPassStep)
    requires
        from <= config.profiles@.len(),
    ensures
        is_resumed(config.profiles@, from as int, next),
{
    let mut place: usize = from;
    while place < config.profiles.len()
        invariant
            from <= place <= config.profiles@.len(),
            forall|k: int| from <= k < place ==> !#[trigger] is_declaring(config.profiles@, k),
        decreases config.profiles@.len() - place,
    {
        if config.profiles[place].profile.warm_template.is_some() {
            assert(is_declaring(config.profiles@, place as int));
            return WarmPassStep::Load { place };
        }
        place = place + 1;
    }
    WarmPassStep::Done
}

fn after(config: &Config, place: usize) -> (next: WarmPassStep)
    requires
        place < config.profiles@.len(),
    ensures
        is_resumed(config.profiles@, place + 1, next),
{
    let count: usize = config.profiles.len();
    assert(place < count);
    resumed(config, place + 1)
}

fn tail(
    config: &Config,
    place: usize,
    record: WarmImageRecord,
    staging: VmName,
    is_staged: bool,
) -> (next: WarmPassStep)
    requires
        place < config.profiles@.len(),
    ensures
        is_tail(config.profiles@, place, record, staging, is_staged, next),
{
    if is_staged {
        WarmPassStep::Delete { place, record, staging }
    } else if record.state == WarmImageState::Staging {
        WarmPassStep::Mark { place, record }
    } else {
        after(config, place)
    }
}

/// What follows a step of the pass over the warm images, which begins with
/// `List`. A profile whose record is absent, unusable or unanswered is passed
/// over; a store that cannot be read, or a promotion that cannot be recorded,
/// ends the pass.
pub fn next_warm_pass(
    config: &Config,
    machines: &Vec<HostMachine>,
    step: WarmPassStep,
    event: WarmPassEvent,
) -> (next: WarmPassStep)
    requires
        is_placed_step(config.profiles@, step),
    ensures
        is_warm_pass_next(config.profiles@, machines@, step, event, next),
        is_placed_step(config.profiles@, next),
{
    match (step, event) {
        (WarmPassStep::List, WarmPassEvent::Listed(answer)) => match answer {
            Ok(()) => resumed(config, 0),
            Err(error) => WarmPassStep::Failed(ManagerError::Worker(error)),
        },
        (WarmPassStep::Load { place }, WarmPassEvent::Loaded(found)) => match found {
            Ok(Some(record)) => match staging_candidate(&record) {
                Some(staging) => WarmPassStep::Ask { place, record, staging },
                None => after(config, place),
            },
            Ok(None) => after(config, place),
            Err(error) => WarmPassStep::Failed(ManagerError::Store(error)),
        },
        (WarmPassStep::Ask { place, record, staging }, WarmPassEvent::Available(answer)) => {
            match is_warm_present(&answer) {
                None => after(config, place),
                Some(is_present) => {
                    let is_staged: bool = find_listed(machines, staging.as_str()).is_some();
                    match ensure_warm_consistent(&record, is_present, is_staged).record {
                        RecordStep::Keep => tail(config, place, record, staging, is_staged),
                        RecordStep::Finalize(finalized) => WarmPassStep::Finalize {
                            place,
                            record,
                            staging,
                            finalized,
                        },
                        RecordStep::Revert(reversion) => WarmPassStep::Revert {
                            place,
                            record,
                            staging,
                            is_staged,
                            reversion,
                        },
                        RecordStep::Restore(reversion) => WarmPassStep::Restore {
                            place,
                            record,
                            staging,
                            is_staged,
                            reversion,
                        },
                    }
                },
            }
        },
        (
            WarmPassStep::Finalize { place, record, staging, .. },
            WarmPassEvent::Saved(answer),
        ) => match answer {
            Ok(()) => tail(config, place, record, staging, false),
            Err(error) => WarmPassStep::Failed(ManagerError::Store(error)),
        },
        (
            WarmPassStep::Revert { place, record, staging, is_staged, .. },
            WarmPassEvent::Tried,
        ) => tail(config, place, record, staging, is_staged),
        (
            WarmPassStep::Restore { place, record, staging, is_staged, .. },
            WarmPassEvent::Tried,
        ) => tail(config, place, record, staging, is_staged),
        (WarmPassStep::Delete { place, record, .. }, WarmPassEvent::Tried) => {
            if record.state == WarmImageState::Staging {
                WarmPassStep::Mark { place, record }
            } else {
                after(config, place)
            }
        },
        (WarmPassStep::Mark { place, .. }, WarmPassEvent::Tried) => after(config, place),
        (other, _) => other,
    }
}

/// How far a pass still is from its end: the profiles it has yet to leave, and
/// what it has yet to do for the one it is at.
pub open spec fn warm_pass_left(profiles: Seq<NamedProfile>, step: WarmPassStep) -> (int, int) {
    let left = profiles.len() - place_in(step);
    match step {
        WarmPassStep::List => (profiles.len() as int + 1, 0),
        WarmPassStep::Load { .. } => (left, 4),
        WarmPassStep::Ask { .. } => (left, 3),
        WarmPassStep::Finalize { .. } => (left, 2),
        WarmPassStep::Revert { .. } => (left, 2),
        WarmPassStep::Restore { .. } => (left, 2),
        WarmPassStep::Delete { .. } => (left, 1),
        WarmPassStep::Mark { .. } => (left, 0),
        _ => (0, 0),
    }
}

/// Every answer a step waits for brings the pass nearer its end, and it never
/// comes back to a profile it has left.
pub proof fn law_warm_pass_ends(
    profiles: Seq<NamedProfile>,
    machines: Seq<HostMachine>,
    step: WarmPassStep,
    event: WarmPassEvent,
    next: WarmPassStep,
)
    requires
        is_warm_pass_next(profiles, machines, step, event, next),
        is_placed_step(profiles, step),
    ensures
        next == step || ({
            let before = warm_pass_left(profiles, step);
            let after = warm_pass_left(profiles, next);
            after.0 < before.0 || (after.0 == before.0 && after.1 < before.1)
        }),
{
}

/// A host that cannot be listed is a host nothing is done to: the pass ends
/// before it reads, saves, restores or deletes anything.
pub proof fn law_unlisted_host_is_left_alone(
    profiles: Seq<NamedProfile>,
    machines: Seq<HostMachine>,
    error: WorkerError,
    next: WarmPassStep,
)
    requires
        is_warm_pass_next(
            profiles,
            machines,
            WarmPassStep::List,
            WarmPassEvent::Listed(Err::<(), WorkerError>(error)),
            next,
        ),
    ensures
        next == WarmPassStep::Failed(ManagerError::Worker(error)),
{
}

/// A candidate the host lists is deleted before the pass leaves its profile,
/// whatever becomes of the record; only an image whose availability cannot be
/// had is passed over.
pub proof fn law_pass_leaves_no_candidate_behind(
    profiles: Seq<NamedProfile>,
    machines: Seq<HostMachine>,
    step: WarmPassStep,
    event: WarmPassEvent,
    next: WarmPassStep,
)
    requires
        is_warm_pass_next(profiles, machines, step, event, next),
        next != step,
        step is Ask || step is Revert || step is Restore,
        step matches WarmPassStep::Ask { staging, .. } ==> listed(machines, staging@) is Some,
        step matches WarmPassStep::Revert { is_staged, .. } ==> is_staged,
        step matches WarmPassStep::Restore { is_staged, .. } ==> is_staged,
        !(event matches WarmPassEvent::Available(Err(_))),
    ensures
        step is Ask ==> (next is Delete || (next matches WarmPassStep::Revert { is_staged, .. }
            && is_staged) || (next matches WarmPassStep::Restore { is_staged, .. } && is_staged)),
        !(step is Ask) ==> next is Delete,
{
}

/// A pass over the pool's records after a restart, and how they fared.
#[derive(Debug)]
pub struct HotPass {
    pub guests: Vec<HotGuest>,
    /// The host, once it was listed.
    pub machines: Vec<HostMachine>,
    /// How many were handled.
    pub handled: usize,
    /// How many of those came back to the pool.
    pub adopted: usize,
    /// How many did not.
    pub retired: usize,
}

impl HotPass {
    pub open spec fn wf(&self) -> bool {
        &&& self.handled <= self.guests@.len()
        &&& self.adopted + self.retired <= self.handled
    }

    /// The pass over these records. Where there is none, the host is not even
    /// listed.
    pub fn begin(loaded: Result<Vec<HotGuest>, StoreError>) -> (pass: Result<HotPass, ManagerError>)
        ensures
            match loaded {
                Ok(guests) => pass matches Ok(run) && run.wf() && run.guests == guests
                    && run.machines@.len() == 0 && run.handled == 0 && run.adopted == 0
                    && run.retired == 0,
                Err(error) => pass == Err::<HotPass, ManagerError>(ManagerError::Store(error)),
            },
    {
        match loaded {
            Ok(guests) => Ok(
                HotPass { guests, machines: Vec::new(), handled: 0, adopted: 0, retired: 0 },
            ),
            Err(error) => Err(ManagerError::Store(error)),
        }
    }

    /// Takes in the host listing. Without one the pass is given up: a machine
    /// that cannot be seen is not one that is gone.
    pub fn listed(&mut self, answer: Result<Vec<HostMachine>, WorkerError>) -> (taken: Result<
        (),
        ManagerError,
    >)
        requires
            old(self).wf(),
        ensures
            final(self).wf(),
            match answer {
                Ok(machines) => taken is Ok && *final(self) == (HotPass {
                    machines,
                    ..*old(self)
                }),
                Err(error) => taken == Err::<(), ManagerError>(ManagerError::Worker(error))
                    && *final(self) == *old(self),
            },
    {
        match answer {
            Ok(machines) => {
                self.machines = machines;
                Ok(())
            },
            Err(error) => Err(ManagerError::Worker(error)),
        }
    }

    /// Does the host still list the machine whose turn it is?
    pub fn is_present(&self) -> (is: bool)
        requires
            self.wf(),
            self.handled < self.guests@.len(),
        ensures
            is == (listed(self.machines@, self.guests@[self.handled as int].vm_name@) is Some),
    {
        find_listed(&self.machines, self.guests[self.handled].vm_name.as_str()).is_some()
    }

    /// The record whose turn it is.
    pub fn next(&self) -> (guest: Option<&HotGuest>)
        requires
            self.wf(),
        ensures
            match guest {
                Some(found) => self.handled < self.guests@.len() && *found
                    == self.guests@[self.handled as int],
                None => self.handled == self.guests@.len(),
            },
    {
        if self.handled < self.guests.len() {
            Some(&self.guests[self.handled])
        } else {
            None
        }
    }

    /// Takes in how the reconciliation of the record whose turn it was ended. A
    /// record that named no machine any more counts as neither.
    pub fn reconciled(&mut self, end: &AdoptStep)
        requires
            old(self).wf(),
            old(self).handled < old(self).guests@.len(),
        ensures
            final(self).wf(),
            final(self).guests == old(self).guests,
            final(self).machines == old(self).machines,
            final(self).handled == old(self).handled + 1,
            final(self).adopted == old(self).adopted + if *end is Adopted {
                1int
            } else {
                0int
            },
            final(self).retired == old(self).retired + if *end is Adopted || *end is Drop {
                0int
            } else {
                1int
            },
    {
        let count: usize = self.guests.len();
        assert(self.handled < count);
        match end {
            AdoptStep::Adopted => {
                self.adopted = self.adopted + 1;
            },
            AdoptStep::Drop => {},
            _ => {
                self.retired = self.retired + 1;
            },
        }
        self.handled = self.handled + 1;
    }
}

/// No profile with a warm image is passed over in silence: the pass goes on at the
/// next profile that declares one, and ends only where none is left.
pub proof fn law_pass_visits_every_declared_image(
    profiles: Seq<NamedProfile>,
    from: int,
    next: WarmPassStep,
    k: int,
)
    requires
        is_resumed(profiles, from, next),
        0 <= from <= k < profiles.len(),
        profiles[k].profile.warm_template is Some,
    ensures
        next matches WarmPassStep::Load { place } && from <= place <= k
            && profiles[place as int].profile.warm_template is Some,
{
    assert(is_declaring(profiles, k));
}

/// What a pass does about one image once the backend answered, by what is there: a
/// missing one is restored, a finished promotion is recorded, and one that was cut
/// short with its candidate still there is taken back; an image that is promoted
/// and in order is left alone.
pub proof fn law_pass_acts_on_what_is_there(
    profiles: Seq<NamedProfile>,
    machines: Seq<HostMachine>,
    place: usize,
    record: WarmImageRecord,
    staging: VmName,
    availability: WarmAvailability,
    next: WarmPassStep,
)
    requires
        is_warm_pass_next(
            profiles,
            machines,
            WarmPassStep::Ask { place, record, staging },
            WarmPassEvent::Available(Ok(availability)),
            next,
        ),
    ensures
        ({
            let is_staged = exists|i: int|
                0 <= i < machines.len() && (#[trigger] machines[i]).name@ == staging@;
            &&& availability is Absent ==> next is Restore
            &&& !(availability is Absent) && record.state is Staging && is_staged ==> next is Revert
            &&& !(availability is Absent) && record.state is Staging && !is_staged ==> (
            next matches WarmPassStep::Finalize { finalized, .. } && finalized == (WarmImageRecord {
                state: WarmImageState::Promoted,
                ..record
            }))
            &&& !(availability is Absent) && record.state is Promoted && is_staged
                ==> next is Delete
            &&& !(availability is Absent) && record.state is Promoted && !is_staged
                ==> next is Load || next is Done
        }),
{
    law_listing_finds_what_it_lists(machines, staging@);
    if listed(machines, staging@) is Some {
        let i: int = choose|i: int|
            0 <= i < machines.len() && (#[trigger] machines[i]).name@ == staging@;
        assert(machines[i].name@ == staging@);
    }
}

/// Whoever was producing an image is told that its promotion was interrupted, once
/// what was left of it is settled; nobody is told of an image that was promoted.
pub proof fn law_interrupted_promotion_is_told(
    profiles: Seq<NamedProfile>,
    machines: Seq<HostMachine>,
    step: WarmPassStep,
    event: WarmPassEvent,
    next: WarmPassStep,
    place: usize,
    record: WarmImageRecord,
)
    requires
        is_warm_pass_next(profiles, machines, step, event, next),
        ({
            ||| event is Tried && (step matches WarmPassStep::Delete { place: at, record: of, .. }
                && at == place && of == record)
            ||| event is Tried && (step matches WarmPassStep::Revert {
                place: at,
                record: of,
                is_staged,
                ..
            } && at == place && of == record && !is_staged)
            ||| event is Tried && (step matches WarmPassStep::Restore {
                place: at,
                record: of,
                is_staged,
                ..
            } && at == place && of == record && !is_staged)
            ||| event == WarmPassEvent::Saved(Ok(())) && (step matches WarmPassStep::Finalize {
                place: at,
                record: of,
                ..
            } && at == place && of == record)
        }),
    ensures
        record.state is Staging <==> next == (WarmPassStep::Mark { place, record }),
        !(record.state is Staging) ==> next is Load || next is Done,
{
}

} // verus!
