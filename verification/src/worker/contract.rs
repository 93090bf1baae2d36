use vstd::prelude::*;

use crate::domain::image::WarmImageRecord;
use crate::text::is_same_text;
use crate::worker::model::{HostMachine, MachineState, WarmAvailability};

verus! {

/// The first listed machine of this name.
pub open spec fn listed(listing: Seq<HostMachine>, name: Seq<char>) -> Option<HostMachine>
    decreases listing.len(),
{
    if listing.len() == 0 {
        None
    } else {
        match listed(listing.drop_last(), name) {
            Some(machine) => Some(machine),
            None => if listing.last().name@ == name {
                Some(listing.last())
            } else {
                None
            },
        }
    }
}

pub fn find_listed<'a>(listing: &'a Vec<HostMachine>, name: &str) -> (found: Option<&'a HostMachine>)
    ensures
        match found {
            Some(machine) => listed(listing@, name@) == Some(*machine),
            None => listed(listing@, name@) is None,
        },
{
    let mut found: Option<&'a HostMachine> = None;
    let mut i: usize = 0;
    while i < listing.len()
        invariant
            i <= listing@.len(),
            match found {
                Some(machine) => listed(listing@.take(i as int), name@) == Some(*machine),
                None => listed(listing@.take(i as int), name@) is None,
            },
        decreases listing@.len() - i,
    {
        let machine: &'a HostMachine = &listing[i];
        proof {
            assert(listing@.take(i + 1).drop_last() =~= listing@.take(i as int));
            assert(listing@.take(i + 1).last() == *machine);
        }
        if found.is_none() && is_same_text(machine.name.as_str(), name) {
            found = Some(machine);
        }
        i = i + 1;
    }
    assert(listing@.take(listing@.len() as int) =~= listing@);
    found
}

/// The name-addressed answer to whether a recorded warm image is usable: look
/// the recorded warm name up in the listing the manager already has. A
/// pointer-addressed backend answers from its own durable state instead.
pub fn warm_availability(record: &WarmImageRecord, listing: &Vec<HostMachine>) -> (availability:
    WarmAvailability)
    ensures
        availability == match listed(listing@, record.warm_template.name@) {
            Some(machine) => if machine.state is Stopped {
                WarmAvailability::Ready
            } else {
                WarmAvailability::Busy
            },
            None => WarmAvailability::Absent,
        },
{
    match find_listed(listing, record.warm_template.name.as_str()) {
        Some(machine) => if machine.state == MachineState::Stopped {
            WarmAvailability::Ready
        } else {
            WarmAvailability::Busy
        },
        None => WarmAvailability::Absent,
    }
}

/// The name-addressed answer to whether an image already sits under a declared
/// name.
pub fn is_unclaimed_image(name: &str, listing: &Vec<HostMachine>) -> (is: bool)
    ensures
        is == (listed(listing@, name@) is Some),
{
    find_listed(listing, name).is_some()
}

/// A listing answers for a name with the first machine it lists under it, and with
/// none exactly where it lists none.
pub proof fn law_listing_finds_what_it_lists(listing: Seq<HostMachine>, name: Seq<char>)
    ensures
        listed(listing, name) is Some <==> exists|i: int|
            0 <= i < listing.len() && (#[trigger] listing[i]).name@ == name,
        listed(listing, name) matches Some(machine) ==> machine.name@ == name && listing.contains(
            machine,
        ),
    decreases listing.len(),
{
    if listing.len() > 0 {
        let rest = listing.drop_last();
        law_listing_finds_what_it_lists(rest, name);
        assert(listing[listing.len() - 1] == listing.last());
        if let Some(machine) = listed(rest, name) {
            let k: int = choose|k: int| 0 <= k < rest.len() && rest[k] == machine;
            assert(listing[k] == machine);
        } else if exists|i: int|
            0 <= i < listing.len() && (#[trigger] listing[i]).name@ == name {
            let i: int = choose|i: int|
                0 <= i < listing.len() && (#[trigger] listing[i]).name@ == name;
            if i < rest.len() {
                assert(rest[i].name@ == name);
            }
        }
    }
}

} // verus!
