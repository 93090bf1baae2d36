use std::sync::Arc;
use vstd::prelude::*;

use crate::domain::profile::Config;
use crate::text::is_same_text;

verus! {

/// Why a replacement document is refused.
#[derive(Debug, PartialEq, Eq)]
pub struct ConfigError {
    pub message: String,
}

/// A field that only a restart applies, and what a configuration says in it.
#[derive(Clone, Debug, PartialEq, Eq)]
pub struct RestartField {
    pub name: String,
    pub value: String,
}

impl RestartField {
    /// Is this the same field with the same value?
    pub open spec fn same_as(&self, other: &RestartField) -> bool {
        self.name@ == other.name@ && self.value@ == other.value@
    }
}

/// Does a configuration with these fields still say this?
pub open spec fn is_kept(field: RestartField, fields: Seq<RestartField>) -> bool {
    exists|i: int| 0 <= i < fields.len() && field.same_as(&(#[trigger] fields[i]))
}

fn is_field_kept(field: &RestartField, fields: &Vec<RestartField>) -> (is: bool)
    ensures
        is == is_kept(*field, fields@),
{
    let mut i: usize = 0;
    while i < fields.len()
        invariant
            i <= fields@.len(),
            forall|k: int| 0 <= k < i ==> !field.same_as(&(#[trigger] fields@[k])),
        decreases fields@.len() - i,
    {
        if is_same_text(field.name.as_str(), fields[i].name.as_str()) && is_same_text(
            field.value.as_str(),
            fields[i].value.as_str(),
        ) {
            assert(field.same_as(&fields@[i as int]));
            return true;
        }
        i = i + 1;
    }
    false
}

/// The names of the fields in which a configuration differs from the one at
/// startup, in the order startup lists them.
pub open spec fn differing(startup: Seq<RestartField>, fields: Seq<RestartField>) -> Seq<String>
    decreases startup.len(),
{
    if startup.len() == 0 {
        Seq::empty()
    } else {
        let rest = differing(startup.drop_last(), fields);
        if is_kept(startup.last(), fields) {
            rest
        } else {
            rest.push(startup.last().name)
        }
    }
}

/// The names of the restart-only fields in which a configuration differs from
/// the one at startup.
pub fn restart_only_differences(startup: &Vec<RestartField>, fields: &Vec<RestartField>) -> (names:
    Vec<String>)
    ensures
        names@ == differing(startup@, fields@),
{
    let mut names: Vec<String> = Vec::new();
    let mut i: usize = 0;
    while i < startup.len()
        invariant
            i <= startup@.len(),
            names@ == differing(startup@.take(i as int), fields@),
        decreases startup@.len() - i,
    {
        proof {
            assert(startup@.take(i + 1).drop_last() =~= startup@.take(i as int));
            assert(startup@.take(i + 1).last() == startup@[i as int]);
        }
        if !is_field_kept(&startup[i], fields) {
            names.push(startup[i].name.clone());
        }
        i = i + 1;
    }
    assert(startup@.take(startup@.len() as int) =~= startup@);
    names
}

/// The running configuration, replaceable by a validated reload.
#[derive(Debug)]
pub struct ConfigHandle {
    startup: Arc<Config>,
    startup_fields: Vec<RestartField>,
    running: Arc<Config>,
    running_fields: Vec<RestartField>,
    reloads: u64,
}

impl ConfigHandle {
    /// The configuration in force when the daemon started.
    pub closed spec fn at_startup(&self) -> Config {
        *self.startup
    }

    /// What that configuration says in the fields that only a restart applies.
    pub closed spec fn fields_at_startup(&self) -> Seq<RestartField> {
        self.startup_fields@
    }

    /// The configuration in force now.
    pub closed spec fn in_force(&self) -> Config {
        *self.running
    }

    /// What the configuration in force says in the fields that only a restart
    /// applies.
    pub closed spec fn fields_in_force(&self) -> Seq<RestartField> {
        self.running_fields@
    }

    /// How often a reload took.
    pub closed spec fn count(&self) -> u64 {
        self.reloads
    }

    /// The fields of the configuration in force that wait for a restart.
    pub open spec fn waiting(&self) -> Seq<String> {
        differing(self.fields_at_startup(), self.fields_in_force())
    }

    /// `fields` is what the configuration says in every field that only a
    /// restart applies.
    pub fn new(config: Arc<Config>, fields: Vec<RestartField>) -> (handle: ConfigHandle)
        ensures
            handle.at_startup() == *config,
            handle.fields_at_startup() == fields@,
            handle.in_force() == *config,
            handle.fields_in_force() == fields@,
            handle.count() == 0,
            handle.waiting() == Seq::<String>::empty(),
    {
        let mut running_fields: Vec<RestartField> = Vec::new();
        let mut i: usize = 0;
        while i < fields.len()
            invariant
                i <= fields@.len(),
                running_fields@ == fields@.take(i as int),
            decreases fields@.len() - i,
        {
            running_fields.push(
                RestartField { name: fields[i].name.clone(), value: fields[i].value.clone() },
            );
            assert(fields@.take(i + 1) =~= fields@.take(i as int).push(fields@[i as int]));
            i = i + 1;
        }
        assert(fields@.take(fields@.len() as int) =~= fields@);
        proof {
            law_unchanged_field_needs_no_restart(fields@);
        }
        ConfigHandle {
            startup: Arc::clone(&config),
            startup_fields: fields,
            running: config,
            running_fields,
            reloads: 0,
        }
    }

    pub fn current(&self) -> (config: Arc<Config>)
        ensures
            *config == self.in_force(),
    {
        Arc::clone(&self.running)
    }

    /// The configuration the restart-only fields are held against.
    pub fn startup(&self) -> (config: Arc<Config>)
        ensures
            *config == self.at_startup(),
    {
        Arc::clone(&self.startup)
    }

    pub fn generation(&self) -> (generation: u64)
        ensures
            generation == self.count(),
    {
        self.reloads
    }

    /// Restart-only fields that differ from the configuration in force at
    /// startup, so the warning repeats while the change is still pending.
    pub fn restart_pending(&self) -> (fields: Vec<String>)
        ensures
            fields@ == self.waiting(),
    {
        restart_only_differences(&self.startup_fields, &self.running_fields)
    }

    /// Swaps in a replacement; the running configuration is untouched on any
    /// failure. `found` is what the replacement says in the fields that only a
    /// restart applies, where it is valid, and otherwise why it is not.
    pub fn apply(&mut self, next: Arc<Config>, found: Result<Vec<RestartField>, ConfigError>) -> (applied: Result<
        u64,
        ConfigError,
    >)
        requires
            old(self).count() < u64::MAX,
        ensures
            found matches Ok(fields) ==> {
                &&& applied == Ok::<u64, ConfigError>((old(self).count() + 1) as u64)
                &&& final(self).in_force() == *next
                &&& final(self).fields_in_force() == fields@
                &&& final(self).count() == old(self).count() + 1
                &&& final(self).waiting() == differing(old(self).fields_at_startup(), fields@)
            },
            found matches Err(error) ==> {
                &&& applied == Err::<u64, ConfigError>(error)
                &&& *final(self) == *old(self)
            },
            final(self).at_startup() == old(self).at_startup(),
            final(self).fields_at_startup() == old(self).fields_at_startup(),
    {
        match found {
            Ok(fields) => {
                self.running = next;
                self.running_fields = fields;
                self.reloads = self.reloads + 1;
                Ok(self.reloads)
            },
            Err(error) => Err(error),
        }
    }
}

/// A restart-only change is listed as long as it stands, however often the
/// configuration is reloaded: what is listed is every field that no longer says
/// what it said at startup, and no other.
pub proof fn law_restart_only_change_stays_listed(
    startup: Seq<RestartField>,
    fields: Seq<RestartField>,
    name: String,
)
    ensures
        differing(startup, fields).contains(name) <==> exists|i: int|
            0 <= i < startup.len() && (#[trigger] startup[i]).name == name && !is_kept(
                startup[i],
                fields,
            ),
    decreases startup.len(),
{
    if startup.len() > 0 {
        let rest = startup.drop_last();
        let before = differing(rest, fields);
        let all = differing(startup, fields);
        law_restart_only_change_stays_listed(rest, fields, name);
        if all.contains(name) {
            let k: int = choose|k: int| 0 <= k < all.len() && all[k] == name;
            if k < before.len() {
                assert(before[k] == name);
                let i: int = choose|i: int|
                    0 <= i < rest.len() && (#[trigger] rest[i]).name == name && !is_kept(
                        rest[i],
                        fields,
                    );
                assert(startup[i].name == name);
            } else {
                assert(startup[startup.len() - 1].name == name);
            }
        }
        if exists|i: int|
            0 <= i < startup.len() && (#[trigger] startup[i]).name == name && !is_kept(
                startup[i],
                fields,
            ) {
            let i: int = choose|i: int|
                0 <= i < startup.len() && (#[trigger] startup[i]).name == name && !is_kept(
                    startup[i],
                    fields,
                );
            if i < rest.len() {
                assert(rest[i].name == name);
                let k: int = choose|k: int| 0 <= k < before.len() && before[k] == name;
                assert(all[k] == name);
            } else {
                assert(all[before.len() as int] == name);
            }
        }
    }
}

/// A configuration that says what the one at startup said waits for no restart.
pub proof fn law_unchanged_field_needs_no_restart(startup: Seq<RestartField>)
    ensures
        differing(startup, startup) == Seq::<String>::empty(),
{
    if differing(startup, startup).len() > 0 {
        let name = differing(startup, startup)[0];
        assert(differing(startup, startup).contains(name));
        law_restart_only_change_stays_listed(startup, startup, name);
        let i: int = choose|i: int|
            0 <= i < startup.len() && (#[trigger] startup[i]).name == name && !is_kept(
                startup[i],
                startup,
            );
        assert(startup[i].same_as(&startup[i]));
    }
    assert(differing(startup, startup) =~= Seq::<String>::empty());
}

/// A field waits for a restart exactly where no field of the same name says the
/// same any more.
pub proof fn law_field_waits_while_it_differs(
    startup: Seq<RestartField>,
    fields: Seq<RestartField>,
    i: int,
)
    requires
        0 <= i < startup.len(),
    ensures
        (forall|k: int|
            0 <= k < fields.len() ==> (#[trigger] fields[k]).name@ != startup[i].name@
                || fields[k].value@ != startup[i].value@) ==> differing(startup, fields).contains(
            startup[i].name,
        ),
        differing(startup, fields).len() == 0 ==> exists|k: int|
            0 <= k < fields.len() && (#[trigger] fields[k]).name@ == startup[i].name@
                && fields[k].value@ == startup[i].value@,
{
    law_restart_only_change_stays_listed(startup, fields, startup[i].name);
    if is_kept(startup[i], fields) {
        let k: int = choose|k: int|
            0 <= k < fields.len() && startup[i].same_as(&(#[trigger] fields[k]));
        assert(fields[k].name@ == startup[i].name@ && fields[k].value@ == startup[i].value@);
    } else {
        assert(startup[i].name == startup[i].name);
    }
}

} // verus!
