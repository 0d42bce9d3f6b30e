//! Following the saved machines while the supervisor runs.
//!
//! The catalog is read again at intervals. A reading that fails leaves the
//! endpoints as they are and is remembered until one succeeds.

use vstd::prelude::*;

use crate::client::federation::{
    self, Command, Endpoint, EndpointSpec, MachineId, Supervisor,
};
use crate::client::federation_laws;
use crate::duration::Duration;
use crate::machines::{self, same_machines, Machine};

verus! {

/// What the first look at the catalog gave.
#[derive(Debug)]
pub enum Opening {
    Listed(Vec<Machine>),
    /// The catalog cannot be read, and why; it is tried again.
    Unreadable(String),
    /// No path for the catalog is known, and why.
    Unlocated(String),
}

/// What a later look at the catalog gave.
#[derive(Debug)]
pub enum Reading {
    Listed(Vec<Machine>),
    Unreadable(String),
    /// The task that reads did not finish, and why.
    ReaderFailed(String),
}

/// The machines that the supervisor was last given, and what is wrong with the
/// catalog.
#[derive(Debug)]
pub struct CatalogWatch {
    pub known: Vec<Machine>,
    pub error: Option<String>,
    /// The catalog has a path, so it is read again.
    pub polls: bool,
}

pub open spec fn words(text: Option<String>) -> Option<Seq<char>> {
    match text {
        Some(text) => Some(text@),
        None => None,
    }
}

/// The time from one reading to the next.
pub fn poll_interval() -> (r: Duration)
    ensures
        r@ == 1_000_000_000,
{
    Duration::from_secs(1)
}

impl CatalogWatch {
    /// An unreadable catalog starts as an empty one.
    pub fn open(opening: Opening) -> (r: Self)
        ensures
            match opening {
                Opening::Listed(machines) => r.known@ == machines@ && r.error is None && r.polls,
                Opening::Unreadable(error) => r.known@ == Seq::<Machine>::empty() && words(r.error)
                    == Some(error@) && r.polls,
                Opening::Unlocated(error) => r.known@ == Seq::<Machine>::empty() && words(r.error)
                    == Some(error@) && !r.polls,
            },
    {
        match opening {
            Opening::Listed(machines) => CatalogWatch { known: machines, error: None, polls: true },
            Opening::Unreadable(error) => CatalogWatch {
                known: Vec::new(),
                error: Some(error),
                polls: true,
            },
            Opening::Unlocated(error) => CatalogWatch {
                known: Vec::new(),
                error: Some(error),
                polls: false,
            },
        }
    }

    /// What a reading leads to: `next` is the watch afterwards, `after` the entries,
    /// `later` the counter of worker numbers, and `commands` what the workers must
    /// do.
    pub open spec fn observed(
        self,
        reading: Reading,
        before: Seq<Endpoint>,
        counter: u64,
        next: Self,
        after: Seq<Endpoint>,
        later: u64,
        commands: Seq<Command>,
    ) -> bool {
        let idle = after == before && commands == Seq::<Command>::empty() && later == counter
            && next.known == self.known;
        match reading {
            Reading::Unreadable(error) => idle && words(next.error) == Some(error@),
            Reading::ReaderFailed(error) => idle && words(next.error) == Some(
                "machine catalog reader failed: "@ + error@,
            ),
            Reading::Listed(machines) => {
                let specs = federation::desired(machines@);
                if machines::profiles(machines@) == machines::profiles(self.known@) {
                    idle && next.error is None
                } else if federation::distinct(machines@) {
                    &&& next.known@ == machines@
                    &&& next.error is None
                    &&& federation::entries_reconciled(before, specs, counter, after)
                    &&& commands == federation::farewells(before, specs, before.len() as int)
                        + federation::handovers(before, specs, counter, specs.len() as int)
                    &&& later == counter + federation::restarts(
                        before,
                        specs,
                        specs.len() as int,
                    )
                } else {
                    &&& idle
                    &&& exists|id: u128|
                        federation::first_repeated(machines@, id) && words(next.error) == Some(
                            #[trigger] federation::SupervisorError::DuplicateMachine(
                                id,
                            ).wording(),
                        )
                }
            },
        }
    }

    /// Hands a reading to the supervisor where it brings something new. The
    /// result is what the workers must do.
    pub fn observe(
        &mut self,
        reading: Reading,
        supervisor: &mut Supervisor,
        counter: &mut u64,
    ) -> (r: Vec<Command>)
        requires
            old(supervisor).wf(),
            reading matches Reading::Listed(machines) ==> federation::has_room(
                old(supervisor).state().entries(),
                machines@,
                *old(counter),
            ),
        ensures
            final(supervisor).wf(),
            final(supervisor).settings() == old(supervisor).settings(),
            final(supervisor).state().chosen() == old(supervisor).state().chosen(),
            final(self).polls == old(self).polls,
            old(self).observed(
                reading,
                old(supervisor).state().entries(),
                *old(counter),
                *final(self),
                final(supervisor).state().entries(),
                *final(counter),
                r@,
            ),
    {
        match reading {
            Reading::Listed(machines) => {
                self.error = None;
                if same_machines(&machines, &self.known) {
                    return Vec::new();
                }
                match supervisor.reconcile(&machines, counter) {
                    Ok(commands) => {
                        self.known = machines;
                        commands
                    },
                    Err(error) => {
                        self.error = Some(error.text());
                        Vec::new()
                    },
                }
            },
            Reading::Unreadable(error) => {
                self.error = Some(error);
                Vec::new()
            },
            Reading::ReaderFailed(error) => {
                self.error = Some(
                    "machine catalog reader failed: ".to_owned().concat(error.as_str()),
                );
                Vec::new()
            },
        }
    }
}

/// A reading that fails changes nothing but the error, which says why. One that
/// lists what is known clears the error and changes nothing else. One that lists
/// something new, without a repeated identity, is remembered, clears the error, and
/// the registry then holds the local machine and exactly those listed. A repeated
/// identity is an error that names it, and changes nothing else.
pub proof fn law_a_reading_is_followed_or_remembered_as_an_error(
    watch: CatalogWatch,
    reading: Reading,
    before: Seq<Endpoint>,
    counter: u64,
    next: CatalogWatch,
    after: Seq<Endpoint>,
    later: u64,
    commands: Seq<Command>,
)
    requires
        watch.observed(reading, before, counter, next, after, later, commands),
    ensures
        !(reading is Listed) ==> next.error is Some && next.known@ == watch.known@ && after == before
            && commands.len() == 0 && later == counter,
        reading matches Reading::Unreadable(why) ==> (next.error matches Some(error) && error@
            == why@),
        reading matches Reading::ReaderFailed(why) ==> (next.error matches Some(error)
            && error@.len() > why@.len() && error@.skip(error@.len() - why@.len()) == why@),
        reading matches Reading::Listed(machines) ==> {
            let known = machines::profiles(machines@) == machines::profiles(watch.known@);
            let distinct = forall|i: int, j: int|
                0 <= i < j < machines@.len() ==> (#[trigger] machines@[i]).id != (
                #[trigger] machines@[j]).id;
            &&& known ==> next.error is None && next.known@ == watch.known@ && after == before
                && commands.len() == 0 && later == counter
            &&& !known && distinct ==> {
                &&& next.error is None
                &&& next.known@ == machines@
                &&& later >= counter
                &&& after.len() == machines@.len() + 1
                &&& federation::lookup(after, MachineId::Local) is Some
                &&& forall|k: int|
                    0 <= k < machines@.len() ==> (federation::lookup(
                        after,
                        MachineId::Ssh((#[trigger] machines@[k]).id),
                    ) matches Some(entry) && entry.spec == EndpointSpec::Ssh(machines@[k]))
            }
            &&& !known && !distinct ==> {
                &&& next.error is Some
                &&& next.known@ == watch.known@
                &&& after == before
                &&& commands.len() == 0
                &&& later == counter
            }
        },
{
    match reading {
        Reading::Listed(machines) => {
            if machines::profiles(machines@) != machines::profiles(watch.known@)
                && federation::distinct(machines@) {
                federation_laws::law_the_registry_mirrors_the_catalog(
                    before,
                    machines@,
                    counter,
                    after,
                );
            }
        },
        Reading::ReaderFailed(why) => {
            reveal_strlit("machine catalog reader failed: ");
            let error = words(next.error)->0;
            assert(error.skip(error.len() - why@.len()) =~= why@);
        },
        _ => {},
    }
}

} // verus!
