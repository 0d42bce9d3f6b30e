//! What holds of endpoint supervision as a whole.

use vstd::prelude::*;

use crate::client::federation::{
    self, Command, Config, ConfigFault, Endpoint, EndpointSpec, Event, EventKind, Failure,
    FailureKind, Generation, InitialMetadata, MachineId, Metadata, Registry, Snapshot, Status,
    Update,
};
use crate::duration::MAX_NANOS;
use crate::machines::Machine;
use crate::protocol::{
    ClientAlertSnapshot, ClientPresenceSnapshot, ExtensionCatalog, ResourceSnapshot,
};

verus! {

// ---------------------------------------------------------------------------
// Events

/// An event of a replaced worker, of a disabled machine, or, unless it begins a
/// later connection, of any connection but the current one is rejected.
pub proof fn law_stale_events_are_rejected(
    endpoint: Endpoint,
    generation: Generation,
    kind: EventKind,
)
    requires
        endpoint.status == Status::Disabled || generation.supervisor
            != endpoint.generation.supervisor || generation.connection
            < endpoint.generation.connection || (kind is Attempt && generation.connection
            == endpoint.generation.connection) || (!(kind is Attempt) && generation
            != endpoint.generation),
    ensures
        endpoint.after(generation, kind) is None,
{
}

/// An accepted event never moves an endpoint to another worker or back to an
/// earlier connection, and only an attempt moves it to a later one.
pub proof fn law_connections_only_advance(
    endpoint: Endpoint,
    generation: Generation,
    kind: EventKind,
)
    requires
        endpoint.after(generation, kind) is Some,
    ensures
        ({
            let after = endpoint.after(generation, kind)->0;
            &&& after.spec == endpoint.spec
            &&& after.generation == generation
            &&& after.generation.supervisor == endpoint.generation.supervisor
            &&& after.generation.connection >= endpoint.generation.connection
            &&& after.generation.connection > endpoint.generation.connection <==> kind is Attempt
        }),
{
}

/// A failed connection is closed: whatever it still reports is rejected.
pub proof fn law_a_failed_connection_is_closed(
    endpoint: Endpoint,
    generation: Generation,
    failure: Failure,
    later: Generation,
    kind: EventKind,
)
    requires
        endpoint.after(generation, EventKind::Failed(failure)) is Some,
        later.connection <= generation.connection,
    ensures
        endpoint.after(generation, EventKind::Failed(failure))->0.after(later, kind) is None,
{
}

/// Once a connection has failed, only the attempt of a later one is accepted,
/// and no event at all where the failure does not retry.
pub proof fn law_only_a_new_attempt_follows_a_failure(
    endpoint: Endpoint,
    generation: Generation,
    failure: Failure,
    later: Generation,
    kind: EventKind,
)
    requires
        endpoint.after(generation, EventKind::Failed(failure)) is Some,
    ensures
        ({
            let failed = endpoint.after(generation, EventKind::Failed(failure))->0;
            failed.after(later, kind) is Some <==> failure.kind == FailureKind::Transient
                && kind is Attempt && later.supervisor == generation.supervisor
                && later.connection > generation.connection
        }),
{
}

/// What a machine knows after each of these events was applied or rejected.
pub open spec fn heard(endpoint: Endpoint, events: Seq<(Generation, EventKind)>) -> Endpoint
    decreases events.len(),
{
    if events.len() == 0 {
        endpoint
    } else {
        let before = heard(endpoint, events.drop_last());
        match before.after(events.last().0, events.last().1) {
            Some(after) => after,
            None => before,
        }
    }
}

/// An endpoint that asks for attention stays as it is, whatever is reported: it
/// needs an explicit restart.
pub proof fn law_attention_outlasts_every_event(
    endpoint: Endpoint,
    events: Seq<(Generation, EventKind)>,
)
    requires
        endpoint.coherent(),
        endpoint.status == Status::Attention,
    ensures
        heard(endpoint, events) == endpoint,
    decreases events.len(),
{
    if events.len() > 0 {
        law_attention_outlasts_every_event(endpoint, events.drop_last());
    }
}

/// A disabled endpoint stays as it is, whatever is reported.
pub proof fn law_disabled_outlasts_every_event(
    endpoint: Endpoint,
    events: Seq<(Generation, EventKind)>,
)
    requires
        endpoint.status == Status::Disabled,
    ensures
        heard(endpoint, events) == endpoint,
    decreases events.len(),
{
    if events.len() > 0 {
        law_disabled_outlasts_every_event(endpoint, events.drop_last());
    }
}

/// However many events arrive, the entry stays coherent, its profile and worker
/// stay, and its connection number never falls.
pub proof fn law_events_keep_an_entry_coherent(
    endpoint: Endpoint,
    events: Seq<(Generation, EventKind)>,
)
    requires
        endpoint.coherent(),
    ensures
        heard(endpoint, events).coherent(),
        heard(endpoint, events).spec == endpoint.spec,
        heard(endpoint, events).generation.supervisor == endpoint.generation.supervisor,
        heard(endpoint, events).generation.connection >= endpoint.generation.connection,
    decreases events.len(),
{
    if events.len() > 0 {
        law_events_keep_an_entry_coherent(endpoint, events.drop_last());
        let before = heard(endpoint, events.drop_last());
        before.lemma_after_coherent(events.last().0, events.last().1);
    }
}

/// An event concerns the entry of its own machine, whichever machine is selected,
/// and is rejected where that machine is not known.
pub proof fn law_an_event_concerns_its_own_machine(registry: Registry, event: Event)
    ensures
        registry.lookup(event.id) matches Some(endpoint) ==> registry.after(event)
            == endpoint.after(event.generation, event.kind),
        registry.lookup(event.id) is None ==> registry.after(event) is None,
{
}

/// The selected machine can be used exactly while it is known and ready; no other
/// takes its place.
pub proof fn law_only_the_selected_machine_is_used(registry: Registry)
    ensures
        registry.usable() is Some <==> (registry.lookup(registry.chosen()) matches Some(endpoint)
            && endpoint.status == Status::Ready),
        registry.usable() is Some ==> registry.usable() == registry.lookup(registry.chosen())
            && (registry.usable()->0).spec.key() == registry.chosen(),
{
}

/// Every known machine can be selected, disabled or not, ready or not; an unknown
/// one cannot, and leaves the selection as it is.
pub proof fn law_every_known_machine_can_be_selected(registry: Registry, i: int, id: MachineId)
    ensures
        0 <= i < registry.entries().len() ==> registry.selecting(registry.entries()[i].spec.key())
            == (true, registry.entries()[i].spec.key()),
        (forall|k: int|
            0 <= k < registry.entries().len() ==> (#[trigger] registry.entries()[k]).spec.key()
                != id) ==> registry.selecting(id) == (false, registry.chosen()),
{
    if 0 <= i < registry.entries().len() {
        let key = registry.entries()[i].spec.key();
        assert(registry.lookup(key) is Some);
    }
}

// ---------------------------------------------------------------------------
// Metadata

/// A failure keeps what was known, as stale: nothing of it counts as current.
pub proof fn law_a_failure_keeps_stale_metadata(
    endpoint: Endpoint,
    generation: Generation,
    failure: Failure,
)
    requires
        endpoint.after(generation, EventKind::Failed(failure)) is Some,
    ensures
        ({
            let failed = endpoint.after(generation, EventKind::Failed(failure))->0;
            &&& failed.metadata == endpoint.metadata
            &&& failed.negotiation == endpoint.negotiation
            &&& failed.failure == Some(failure)
            &&& failed.status != Status::Ready
            &&& failed.metadata.resources matches Some(snapshot) ==> !failed.holds_current(snapshot)
            &&& failed.metadata.presence matches Some(snapshot) ==> !failed.holds_current(snapshot)
            &&& failed.metadata.alerts matches Some(snapshot) ==> !failed.holds_current(snapshot)
            &&& failed.metadata.catalog matches Some(snapshot) ==> !failed.holds_current(snapshot)
        }),
{
}

/// A new connection's snapshots are taken whatever revisions an earlier
/// connection had reached, and count as current.
pub proof fn law_a_new_connection_resets_revisions(
    endpoint: Endpoint,
    generation: Generation,
    initial: InitialMetadata,
)
    requires
        endpoint.after(generation, EventKind::Connected(initial)) is Some,
    ensures
        ({
            let ready = endpoint.after(generation, EventKind::Connected(initial))->0;
            &&& ready.metadata.resources matches Some(snapshot) && snapshot.value
                == initial.resources && ready.holds_current(snapshot)
            &&& (ready.metadata.presence matches Some(snapshot) && snapshot.value
                == initial.presence && ready.holds_current(snapshot))
            &&& initial.alerts matches Some(alerts) ==> (
            ready.metadata.alerts matches Some(snapshot) && snapshot.value == alerts
                && ready.holds_current(snapshot))
            &&& initial.catalog matches Some(catalog) ==> (
            ready.metadata.catalog matches Some(snapshot) && snapshot.value == catalog
                && ready.holds_current(snapshot))
        }),
{
}

/// An optional stream that a new connection lacks keeps what an earlier one gave,
/// and that stays stale; the first update of the stream is taken, whatever its
/// revision.
pub proof fn law_missing_streams_remain_stale(
    endpoint: Endpoint,
    generation: Generation,
    initial: InitialMetadata,
)
    requires
        endpoint.coherent(),
        endpoint.after(generation, EventKind::Connected(initial)) is Some,
    ensures
        ({
            let ready = endpoint.after(generation, EventKind::Connected(initial))->0;
            &&& initial.alerts is None ==> {
                &&& ready.metadata.alerts == endpoint.metadata.alerts
                &&& ready.metadata.alerts matches Some(snapshot) ==> !ready.holds_current(snapshot)
                &&& forall|value: crate::protocol::ClientAlertSnapshot| #[trigger]
                    ready.after(generation, EventKind::Update(Update::Alerts(value))) is Some
            }
            &&& initial.catalog is None ==> {
                &&& ready.metadata.catalog == endpoint.metadata.catalog
                &&& ready.metadata.catalog matches Some(snapshot) ==> !ready.holds_current(snapshot)
                &&& forall|value: crate::protocol::ExtensionCatalog| #[trigger]
                    ready.after(generation, EventKind::Update(Update::Catalog(value))) is Some
            }
        }),
{
}

/// The revision of the stream that an update belongs to, where the current
/// connection has given one.
pub open spec fn reached(metadata: Metadata, update: Update, generation: Generation) -> Option<
    u64,
> {
    match update {
        Update::Resources(_) => match metadata.resources {
            Some(snapshot) if snapshot.generation == generation => Some(snapshot.value.revision),
            _ => None,
        },
        Update::Presence(_) => match metadata.presence {
            Some(snapshot) if snapshot.generation == generation => Some(snapshot.value.revision),
            _ => None,
        },
        Update::Alerts(_) => match metadata.alerts {
            Some(snapshot) if snapshot.generation == generation => Some(snapshot.value.revision),
            _ => None,
        },
        Update::Catalog(_) => match metadata.catalog {
            Some(snapshot) if snapshot.generation == generation => Some(snapshot.value.generation),
            _ => None,
        },
        Update::Healthy => None,
    }
}

pub open spec fn offered(update: Update) -> Option<u64> {
    match update {
        Update::Resources(value) => Some(value.revision),
        Update::Presence(value) => Some(value.revision),
        Update::Alerts(value) => Some(value.revision),
        Update::Catalog(value) => Some(value.generation),
        Update::Healthy => None,
    }
}

pub open spec fn same_stream(a: Update, b: Update) -> bool {
    match (a, b) {
        (Update::Resources(_), Update::Resources(_)) => true,
        (Update::Presence(_), Update::Presence(_)) => true,
        (Update::Alerts(_), Update::Alerts(_)) => true,
        (Update::Catalog(_), Update::Catalog(_)) => true,
        _ => false,
    }
}

/// Within a connection each stream's revision only grows: an accepted update is
/// later than what it replaces, and once taken neither it nor an earlier one is
/// taken again. A health response never changes the registry.
pub proof fn law_revisions_only_grow(
    endpoint: Endpoint,
    generation: Generation,
    update: Update,
    again: Update,
)
    ensures
        endpoint.after(generation, EventKind::Update(Update::Healthy)) is None,
        endpoint.after(generation, EventKind::Update(update)) matches Some(after) ==> {
            &&& reached(endpoint.metadata, update, generation) matches Some(before) ==> before
                < offered(update)->0
            &&& reached(after.metadata, update, generation) == offered(update)
            &&& same_stream(again, update) && offered(again)->0 <= offered(update)->0
                ==> after.after(generation, EventKind::Update(again)) is None
        },
{
}

/// Of a ready machine a later snapshot is always taken, however much later it is:
/// where the current connection has given none of the stream, or one of a smaller
/// revision. The registry then holds exactly what was offered, as current, and
/// nothing else changes. Otherwise it is rejected.
pub proof fn law_a_later_snapshot_is_always_taken(
    endpoint: Endpoint,
    update: Update,
    resources: ResourceSnapshot,
    presence: ClientPresenceSnapshot,
    alerts: ClientAlertSnapshot,
    catalog: ExtensionCatalog,
)
    requires
        endpoint.status == Status::Ready,
        endpoint.accepting_events,
    ensures
        ({
            let now = endpoint.generation;
            let held = endpoint.metadata;
            let after = endpoint.after(now, EventKind::Update(Update::Resources(resources)));
            &&& after is Some <==> !(held.resources matches Some(old) && old.generation == now
                && old.value.revision >= resources.revision)
            &&& after matches Some(after) ==> {
                &&& after.metadata.resources matches Some(taken) && taken.value == resources
                    && taken.generation == now && after.holds_current(taken)
                &&& after == (Endpoint {
                    metadata: Metadata { resources: after.metadata.resources, ..held },
                    ..endpoint
                })
            }
        }),
        ({
            let now = endpoint.generation;
            let held = endpoint.metadata;
            let after = endpoint.after(now, EventKind::Update(Update::Presence(presence)));
            &&& after is Some <==> !(held.presence matches Some(old) && old.generation == now
                && old.value.revision >= presence.revision)
            &&& after matches Some(after) ==> {
                &&& after.metadata.presence matches Some(taken) && taken.value == presence
                    && taken.generation == now && after.holds_current(taken)
                &&& after == (Endpoint {
                    metadata: Metadata { presence: after.metadata.presence, ..held },
                    ..endpoint
                })
            }
        }),
        ({
            let now = endpoint.generation;
            let held = endpoint.metadata;
            let after = endpoint.after(now, EventKind::Update(Update::Alerts(alerts)));
            &&& after is Some <==> !(held.alerts matches Some(old) && old.generation == now
                && old.value.revision >= alerts.revision)
            &&& after matches Some(after) ==> {
                &&& after.metadata.alerts matches Some(taken) && taken.value == alerts
                    && taken.generation == now && after.holds_current(taken)
                &&& after == (Endpoint {
                    metadata: Metadata { alerts: after.metadata.alerts, ..held },
                    ..endpoint
                })
            }
        }),
        ({
            let now = endpoint.generation;
            let held = endpoint.metadata;
            let after = endpoint.after(now, EventKind::Update(Update::Catalog(catalog)));
            &&& after is Some <==> !(held.catalog matches Some(old) && old.generation == now
                && old.value.generation >= catalog.generation)
            &&& after matches Some(after) ==> {
                &&& after.metadata.catalog matches Some(taken) && taken.value == catalog
                    && taken.generation == now && after.holds_current(taken)
                &&& after == (Endpoint {
                    metadata: Metadata { catalog: after.metadata.catalog, ..held },
                    ..endpoint
                })
            }
        }),
{
}

/// A snapshot is replaced exactly when it comes from another connection or has a
/// smaller revision, so of two that one connection offers in any order the later
/// one is held in the end.
pub proof fn law_the_later_of_two_snapshots_is_held(
    slot: Option<Snapshot<ResourceSnapshot>>,
    a: ResourceSnapshot,
    b: ResourceSnapshot,
    generation: Generation,
)
    requires
        slot matches Some(held) ==> held.generation != generation,
    ensures
        federation::gives_way(slot, a, generation),
        federation::gives_way(federation::taken(a, generation), b, generation) <==> a.revision
            < b.revision,
        a.revision != b.revision ==> federation::gives_way(
            federation::taken(a, generation),
            b,
            generation,
        ) != federation::gives_way(federation::taken(b, generation), a, generation),
{
}

/// What is accepted of a machine that awaits a connection: the attempt of a later
/// connection of its worker always, and then the success or the failure of exactly
/// that connection. An attempt changes nothing that is known; a success makes the
/// machine ready and clears the failure; a failure is remembered, and asks for
/// attention unless it is transient.
pub proof fn law_a_connection_runs_from_attempt_to_outcome(
    endpoint: Endpoint,
    connection: u64,
    initial: InitialMetadata,
    failure: Failure,
)
    requires
        endpoint.status == Status::Connecting || endpoint.status == Status::Reconnecting,
    ensures
        ({
            let generation = Generation { connection, ..endpoint.generation };
            let begun = endpoint.after(generation, EventKind::Attempt);
            &&& begun is Some <==> connection > endpoint.generation.connection
            &&& begun matches Some(begun) ==> {
                &&& begun == (Endpoint { generation, accepting_events: true, ..endpoint })
                &&& begun.after(generation, EventKind::Connected(initial)) matches Some(ready) && {
                    &&& ready.status == Status::Ready
                    &&& ready.failure is None
                    &&& ready.accepting_events
                    &&& ready.spec == endpoint.spec
                    &&& ready.generation == generation
                    &&& (ready.negotiation matches Some(negotiation) && negotiation.value
                        == initial.negotiation && negotiation.generation == generation)
                }
                &&& (begun.after(generation, EventKind::Failed(failure)) matches Some(failed) && {
                    &&& failed.status == (if failure.kind == FailureKind::Transient {
                        Status::Reconnecting
                    } else {
                        Status::Attention
                    })
                    &&& failed.failure == Some(failure)
                    &&& failed.generation == generation
                    &&& failed.metadata == endpoint.metadata
                    &&& failed.negotiation == endpoint.negotiation
                    &&& failed.spec == endpoint.spec
                })
            }
        }),
{
}

/// A ready connection that still may report can always fail, and neither succeeds
/// again nor is followed by another attempt before it does.
pub proof fn law_a_ready_connection_can_only_fail(
    endpoint: Endpoint,
    generation: Generation,
    initial: InitialMetadata,
    failure: Failure,
)
    requires
        endpoint.status == Status::Ready,
        endpoint.accepting_events,
    ensures
        endpoint.after(generation, EventKind::Attempt) is None,
        endpoint.after(generation, EventKind::Connected(initial)) is None,
        endpoint.after(generation, EventKind::Failed(failure)) is Some <==> generation
            == endpoint.generation,
{
}

/// A snapshot counts as current exactly while its own connection is ready.
pub proof fn law_only_the_ready_connection_is_current<T>(
    endpoint: Endpoint,
    snapshot: Snapshot<T>,
)
    ensures
        endpoint.holds_current(snapshot) <==> endpoint.status == Status::Ready
            && snapshot.generation.supervisor == endpoint.generation.supervisor
            && snapshot.generation.connection == endpoint.generation.connection,
{
}

// ---------------------------------------------------------------------------
// Reconciliation

/// A machine that keeps its target and its enabled flag keeps its worker, its
/// connection and everything known of it; a new label alone changes nothing
/// else.
pub proof fn law_a_rename_keeps_the_connection(
    known: Endpoint,
    spec: EndpointSpec,
    supervisor: u64,
)
    requires
        known.spec.targets_as(spec),
        known.spec.is_enabled() == spec.is_enabled(),
    ensures
        !federation::needs_restart(Some(known), spec),
        federation::reconciled(Some(known), spec, supervisor) == (Endpoint { spec, ..known }),
{
}

/// A changed target forgets what the previous host reported and refuses every
/// event of its worker, but keeps the connection number as a watermark.
pub proof fn law_a_new_target_starts_afresh(
    known: Endpoint,
    spec: EndpointSpec,
    supervisor: u64,
    generation: Generation,
    kind: EventKind,
)
    requires
        !known.spec.targets_as(spec),
        known.generation.supervisor < supervisor,
    ensures
        ({
            let after = federation::reconciled(Some(known), spec, supervisor);
            &&& after.metadata == Metadata::nothing()
            &&& after.negotiation is None
            &&& after.failure is None
            &&& after.generation.supervisor == supervisor
            &&& after.generation.connection == known.generation.connection
            &&& after.status == (if spec.is_enabled() {
                Status::Connecting
            } else {
                Status::Disabled
            })
            &&& generation.supervisor == known.generation.supervisor ==> after.after(
                generation,
                kind,
            ) is None
        }),
{
}

/// Every worker number in use was handed out before `counter`.
pub open spec fn issued(entries: Seq<Endpoint>, counter: u64) -> bool {
    forall|i: int|
        0 <= i < entries.len() ==> (#[trigger] entries[i]).generation.supervisor < counter
}

/// Reconciliation hands out numbers that no entry had, each once and in order,
/// and an entry that keeps its worker keeps its number.
pub proof fn law_worker_numbers_are_never_reused(
    old: Seq<Endpoint>,
    specs: Seq<EndpointSpec>,
    counter: u64,
    after: Seq<Endpoint>,
)
    requires
        issued(old, counter),
        federation::entries_reconciled(old, specs, counter, after),
        counter + federation::restarts(old, specs, specs.len() as int) <= u64::MAX,
    ensures
        issued(
            after,
            (counter + federation::restarts(old, specs, specs.len() as int)) as u64,
        ),
        forall|k: int|
            0 <= k < after.len() ==> {
                let known = federation::lookup(old, specs[k].key());
                if federation::needs_restart(known, specs[k]) {
                    (#[trigger] after[k]).generation.supervisor >= counter
                } else {
                    known matches Some(entry) && after[k].generation == entry.generation
                }
            },
        forall|j: int, k: int|
            0 <= j < k < after.len() && (#[trigger] after[j]).generation.supervisor >= counter
                && (#[trigger] after[k]).generation.supervisor >= counter
                ==> after[j].generation.supervisor < after[k].generation.supervisor,
{
    let total = federation::restarts(old, specs, specs.len() as int);
    assert forall|k: int| 0 <= k < after.len() implies {
        let known = federation::lookup(old, specs[k].key());
        &&& federation::needs_restart(known, specs[k]) ==> (
        #[trigger] after[k]).generation.supervisor == counter + federation::restarts(old, specs, k)
            && federation::restarts(old, specs, k) < total
        &&& !federation::needs_restart(known, specs[k]) ==> (known matches Some(entry)
            && after[k].generation == entry.generation && entry.generation.supervisor < counter)
    } by {
        let known = federation::lookup(old, specs[k].key());
        lemma_restarts_grow(old, specs, k, specs.len() as int);
        lemma_restarts_grow(old, specs, k + 1, specs.len() as int);
        assert(after[k] == after[k]);
        if known is Some {
            let i = choose|i: int|
                0 <= i < old.len() && (#[trigger] old[i]).spec.key() == specs[k].key();
            assert(known == Some(old[i]));
        }
    }
    assert forall|j: int, k: int|
        0 <= j < k < after.len() && (#[trigger] after[j]).generation.supervisor >= counter && (
        #[trigger] after[k]).generation.supervisor
            >= counter implies after[j].generation.supervisor
        < after[k].generation.supervisor by {
        lemma_restarts_grow(old, specs, j + 1, k);
    }
}

/// Where reconciliation or a restart replaces a worker, also one of a machine
/// that was removed and added again, nothing that an earlier worker still
/// reports is accepted.
pub proof fn law_replaced_workers_are_ignored(
    known: Option<Endpoint>,
    spec: EndpointSpec,
    supervisor: u64,
    generation: Generation,
    kind: EventKind,
)
    requires
        generation.supervisor < supervisor,
    ensures
        federation::needs_restart(known, spec) ==> federation::reconciled(
            known,
            spec,
            supervisor,
        ).after(generation, kind) is None,
        known matches Some(endpoint) ==> endpoint.replaced(supervisor).after(
            generation,
            kind,
        ) is None,
{
}

/// A restart clears the failure, keeps what was known as stale, and accepts the
/// new worker's first attempt; later connections follow on the old number.
pub proof fn law_a_restart_reopens_an_endpoint(
    endpoint: Endpoint,
    supervisor: u64,
    connection: u64,
)
    requires
        endpoint.spec.is_enabled(),
        connection > endpoint.generation.connection,
    ensures
        ({
            let restarted = endpoint.replaced(supervisor);
            &&& restarted.failure is None
            &&& restarted.metadata == endpoint.metadata
            &&& restarted.status != Status::Ready
            &&& restarted.generation.connection == endpoint.generation.connection
            &&& restarted.after(
                Generation { supervisor, connection },
                EventKind::Attempt,
            ) is Some
        }),
{
}

proof fn lemma_restarts_grow(old: Seq<Endpoint>, specs: Seq<EndpointSpec>, n: int, m: int)
    requires
        0 <= n <= m,
    ensures
        federation::restarts(old, specs, n) <= federation::restarts(old, specs, m),
    decreases m - n,
{
    if n < m {
        lemma_restarts_grow(old, specs, n, m - 1);
    }
}

/// After reconciliation the registry holds the local machine and exactly the
/// saved ones, each under its present profile.
pub proof fn law_the_registry_mirrors_the_catalog(
    old: Seq<Endpoint>,
    machines: Seq<Machine>,
    counter: u64,
    after: Seq<Endpoint>,
)
    requires
        federation::distinct(machines),
        federation::entries_reconciled(old, federation::desired(machines), counter, after),
    ensures
        federation::sorted(after),
        after.len() == machines.len() + 1,
        federation::lookup(after, MachineId::Local) matches Some(entry) && entry.spec
            == EndpointSpec::Local,
        forall|k: int|
            0 <= k < machines.len() ==> (federation::lookup(
                after,
                MachineId::Ssh((#[trigger] machines[k]).id),
            ) matches Some(entry) && entry.spec == EndpointSpec::Ssh(machines[k])),
        forall|id: MachineId| #[trigger]
            federation::lookup(after, id) is Some ==> id == MachineId::Local || exists|k: int|
                0 <= k < machines.len() && id == MachineId::Ssh((#[trigger] machines[k]).id),
{
    let specs = federation::desired(machines);
    federation::lemma_desired(machines);
    lemma_reconciled_specs(old, specs, counter, after);
    assert(federation::wanted(specs, MachineId::Local));
    let i = choose|i: int| 0 <= i < specs.len() && (#[trigger] specs[i]).key() == MachineId::Local;
    assert(after[i].spec == specs[i]);
    federation::lemma_lookup(after, i);
    assert forall|k: int| 0 <= k < machines.len() implies (federation::lookup(
        after,
        MachineId::Ssh((#[trigger] machines[k]).id),
    ) matches Some(entry) && entry.spec == EndpointSpec::Ssh(machines[k])) by {
        lemma_desired_lists(machines, k);
        let m = choose|m: int| 0 <= m < specs.len() && specs[m] == EndpointSpec::Ssh(machines[k]);
        assert(after[m].spec == specs[m]);
        federation::lemma_lookup(after, m);
    }
    assert forall|id: MachineId| #[trigger] federation::lookup(after, id) is Some implies id
        == MachineId::Local || exists|k: int|
        0 <= k < machines.len() && id == MachineId::Ssh((#[trigger] machines[k]).id) by {
        let m = choose|m: int| 0 <= m < after.len() && (#[trigger] after[m]).spec.key() == id;
        assert(after[m].spec == specs[m]);
        assert(specs[m].key() == id);
        assert(federation::wanted(specs, id));
    }
}

proof fn lemma_reconciled_specs(
    old: Seq<Endpoint>,
    specs: Seq<EndpointSpec>,
    counter: u64,
    after: Seq<Endpoint>,
)
    requires
        federation::specs_sorted(specs),
        federation::entries_reconciled(old, specs, counter, after),
    ensures
        forall|k: int| 0 <= k < after.len() ==> (#[trigger] after[k]).spec == specs[k],
        federation::sorted(after),
{
    assert forall|k: int| 0 <= k < after.len() implies (#[trigger] after[k]).spec == specs[k] by {
    }
    assert forall|i: int, j: int| 0 <= i < j < after.len() implies federation::precedes(
        (#[trigger] after[i]).spec.key(),
        (#[trigger] after[j]).spec.key(),
    ) by {
        assert(federation::precedes(specs[i].key(), specs[j].key()));
    }
}

proof fn lemma_placed_lists(specs: Seq<EndpointSpec>, spec: EndpointSpec)
    ensures
        federation::placed(specs, spec).contains(spec),
        forall|i: int|
            0 <= i < specs.len() ==> federation::placed(specs, spec).contains(#[trigger] specs[i]),
    decreases specs.len(),
{
    let after = federation::placed(specs, spec);
    if specs.len() == 0 || !federation::precedes(spec.key(), specs.last().key()) {
        assert(after[specs.len() as int] == spec);
        assert forall|i: int| 0 <= i < specs.len() implies after.contains(#[trigger] specs[i]) by {
            assert(after[i] == specs[i]);
        }
    } else {
        let rest = specs.drop_last();
        lemma_placed_lists(rest, spec);
        let inner = federation::placed(rest, spec);
        assert forall|x: EndpointSpec| inner.contains(x) implies #[trigger] after.contains(x) by {
            let k = choose|k: int| 0 <= k < inner.len() && inner[k] == x;
            assert(after[k] == x);
        }
        assert forall|i: int| 0 <= i < specs.len() implies after.contains(#[trigger] specs[i]) by {
            if i < rest.len() {
                assert(rest[i] == specs[i]);
            } else {
                assert(after[inner.len() as int] == specs[i]);
            }
        }
    }
}

proof fn lemma_desired_lists(machines: Seq<Machine>, k: int)
    requires
        0 <= k < machines.len(),
    ensures
        federation::desired(machines).contains(EndpointSpec::Ssh(machines[k])),
    decreases machines.len(),
{
    let rest = machines.drop_last();
    lemma_placed_lists(federation::desired(rest), EndpointSpec::Ssh(machines.last()));
    if k < rest.len() {
        lemma_desired_lists(rest, k);
        assert(rest[k] == machines[k]);
        let inner = federation::desired(rest);
        let i = choose|i: int| 0 <= i < inner.len() && inner[i] == EndpointSpec::Ssh(machines[k]);
        assert(federation::desired(machines).contains(inner[i]));
    }
}

/// Reconciling once more with the same machines changes nothing and asks nothing
/// of the workers.
pub proof fn law_reconciling_twice_changes_once(
    old: Seq<Endpoint>,
    machines: Seq<Machine>,
    counter: u64,
    after: Seq<Endpoint>,
    later: u64,
    again: Seq<Endpoint>,
)
    requires
        federation::distinct(machines),
        federation::entries_reconciled(old, federation::desired(machines), counter, after),
        federation::entries_reconciled(after, federation::desired(machines), later, again),
    ensures
        again == after,
        federation::has_room(after, machines, later),
        federation::restarts(
            after,
            federation::desired(machines),
            federation::desired(machines).len() as int,
        ) == 0,
        federation::farewells(after, federation::desired(machines), after.len() as int)
            + federation::handovers(
            after,
            federation::desired(machines),
            later,
            federation::desired(machines).len() as int,
        ) == Seq::<Command>::empty(),
{
    let specs = federation::desired(machines);
    federation::lemma_desired(machines);
    lemma_reconciled_specs(old, specs, counter, after);
    lemma_nothing_to_do(after, specs, later, specs.len() as int);
    assert forall|k: int| 0 <= k < after.len() implies again[k] == after[k] by {
        federation::lemma_lookup(after, k);
        assert(again[k] == again[k]);
        assert(after[k].spec == specs[k]);
    }
    assert(again =~= after);
}

proof fn lemma_nothing_to_do(
    entries: Seq<Endpoint>,
    specs: Seq<EndpointSpec>,
    counter: u64,
    n: int,
)
    requires
        federation::sorted(entries),
        entries.len() == specs.len(),
        forall|k: int| 0 <= k < entries.len() ==> (#[trigger] entries[k]).spec == specs[k],
        0 <= n <= specs.len(),
    ensures
        federation::restarts(entries, specs, n) == 0,
        federation::farewells(entries, specs, n) == Seq::<Command>::empty(),
        federation::handovers(entries, specs, counter, n) == Seq::<Command>::empty(),
    decreases n,
{
    if n > 0 {
        lemma_nothing_to_do(entries, specs, counter, n - 1);
        federation::lemma_lookup(entries, n - 1);
        assert(entries[n - 1].spec == specs[n - 1]);
        assert(specs[n - 1].key() == entries[n - 1].spec.key());
        assert(federation::wanted(specs, entries[n - 1].spec.key()));
        assert(federation::farewells(entries, specs, n) =~= Seq::<Command>::empty());
        assert(federation::handovers(entries, specs, counter, n) =~= Seq::<Command>::empty());
    }
}

/// A command concerns this machine's worker.
pub open spec fn concerns(command: Command, id: MachineId) -> bool {
    match command {
        Command::Abort(stopped) => stopped == id,
        Command::Spawn { spec, .. } => spec.key() == id,
    }
}

/// A saved machine that was known before with the same target and the same
/// enabled flag only takes its new label: its generation, status, negotiation,
/// metadata and failure stay, and no worker is started or stopped for it.
pub proof fn law_an_unchanged_machine_keeps_everything(
    old: Seq<Endpoint>,
    machines: Seq<Machine>,
    counter: u64,
    after: Seq<Endpoint>,
    k: int,
)
    requires
        federation::distinct(machines),
        federation::entries_reconciled(old, federation::desired(machines), counter, after),
        0 <= k < machines.len(),
        federation::lookup(old, MachineId::Ssh(machines[k].id)) matches Some(known)
            && known.spec.targets_as(EndpointSpec::Ssh(machines[k])) && known.spec.is_enabled()
            == machines[k].enabled,
    ensures
        ({
            let id = MachineId::Ssh(machines[k].id);
            let specs = federation::desired(machines);
            let known = federation::lookup(old, id)->0;
            let commands = federation::farewells(old, specs, old.len() as int)
                + federation::handovers(old, specs, counter, specs.len() as int);
            &&& federation::lookup(after, id) == Some(
                Endpoint { spec: EndpointSpec::Ssh(machines[k]), ..known },
            )
            &&& forall|c: int|
                0 <= c < commands.len() ==> !concerns(#[trigger] commands[c], id)
        }),
{
    let id = MachineId::Ssh(machines[k].id);
    let spec = EndpointSpec::Ssh(machines[k]);
    let specs = federation::desired(machines);
    federation::lemma_desired(machines);
    lemma_reconciled_specs(old, specs, counter, after);
    lemma_desired_lists(machines, k);
    let m = choose|m: int| 0 <= m < specs.len() && specs[m] == spec;
    assert(after[m].spec == specs[m]);
    federation::lemma_lookup(after, m);
    assert(specs[m].key() == id);
    assert(federation::wanted(specs, id));
    lemma_farewells_spare(old, specs, old.len() as int, id);
    lemma_handovers_spare(old, specs, counter, specs.len() as int, m);
}

/// No worker of a wanted machine is dismissed.
proof fn lemma_farewells_spare(
    old: Seq<Endpoint>,
    specs: Seq<EndpointSpec>,
    n: int,
    id: MachineId,
)
    requires
        federation::wanted(specs, id),
        0 <= n <= old.len(),
    ensures
        forall|c: int|
            0 <= c < federation::farewells(old, specs, n).len() ==> !concerns(
                #[trigger] federation::farewells(old, specs, n)[c],
                id,
            ),
    decreases n,
{
    if n > 0 {
        lemma_farewells_spare(old, specs, n - 1, id);
        let before = federation::farewells(old, specs, n - 1);
        let now = federation::farewells(old, specs, n);
        assert forall|c: int| 0 <= c < now.len() implies !concerns(#[trigger] now[c], id) by {
            if c < before.len() {
                assert(now[c] == before[c]);
            }
        }
    }
}

/// No worker of a machine that needs no restart is replaced.
proof fn lemma_handovers_spare(
    old: Seq<Endpoint>,
    specs: Seq<EndpointSpec>,
    counter: u64,
    n: int,
    m: int,
)
    requires
        federation::specs_sorted(specs),
        0 <= n <= specs.len(),
        0 <= m < specs.len(),
        !federation::needs_restart(federation::lookup(old, specs[m].key()), specs[m]),
    ensures
        forall|c: int|
            0 <= c < federation::handovers(old, specs, counter, n).len() ==> !concerns(
                #[trigger] federation::handovers(old, specs, counter, n)[c],
                specs[m].key(),
            ),
    decreases n,
{
    if n > 0 {
        lemma_handovers_spare(old, specs, counter, n - 1, m);
        let before = federation::handovers(old, specs, counter, n - 1);
        let now = federation::handovers(old, specs, counter, n);
        if m < n - 1 {
            assert(federation::precedes(specs[m].key(), specs[n - 1].key()));
        } else if m > n - 1 {
            assert(federation::precedes(specs[n - 1].key(), specs[m].key()));
        }
        assert forall|c: int| 0 <= c < now.len() implies !concerns(
            #[trigger] now[c],
            specs[m].key(),
        ) by {
            if c < before.len() {
                assert(now[c] == before[c]);
            }
        }
    }
}

/// A machine that appears for the first time starts without any history, connecting
/// where it is enabled and disabled where it is not. A known one whose enabled flag
/// alone changed keeps what was known of it, as stale; one that is enabled again
/// reconnects where its resources are known, and connects where they are not.
pub proof fn law_a_machine_appears_and_is_switched(
    known: Endpoint,
    spec: EndpointSpec,
    supervisor: u64,
)
    ensures
        ({
            let new = federation::reconciled(None, spec, supervisor);
            &&& new.spec == spec
            &&& new.generation == (Generation { supervisor, connection: 0 })
            &&& new.status == (if spec.is_enabled() {
                Status::Connecting
            } else {
                Status::Disabled
            })
            &&& new.metadata == Metadata::nothing()
            &&& new.negotiation is None
            &&& new.failure is None
            &&& !new.accepting_events
        }),
        known.spec.targets_as(spec) && known.spec.is_enabled() != spec.is_enabled() ==> {
            let after = federation::reconciled(Some(known), spec, supervisor);
            &&& after.spec == spec
            &&& after.generation == (Generation { supervisor, ..known.generation })
            &&& after.metadata == known.metadata
            &&& after.negotiation == known.negotiation
            &&& after.failure is None
            &&& !after.accepting_events
            &&& after.status == (if !spec.is_enabled() {
                Status::Disabled
            } else if known.metadata.resources is Some {
                Status::Reconnecting
            } else {
                Status::Connecting
            })
        },
        federation::needs_restart(None, spec),
        federation::needs_restart(Some(known), spec) <==> !known.spec.targets_as(spec)
            || known.spec.is_enabled() != spec.is_enabled(),
{
}

/// Two profiles reach the same endpoint exactly when both are the local machine or
/// their targets are the same text; a saved machine is enabled as its profile says,
/// the local one always, and each goes by its own identity.
pub proof fn law_a_profile_decides_by_target_flag_and_identity(a: Machine, b: Machine)
    ensures
        EndpointSpec::Ssh(a).targets_as(EndpointSpec::Ssh(b)) <==> a.target@ == b.target@,
        EndpointSpec::Local.targets_as(EndpointSpec::Local),
        !EndpointSpec::Local.targets_as(EndpointSpec::Ssh(a)),
        !EndpointSpec::Ssh(a).targets_as(EndpointSpec::Local),
        EndpointSpec::Ssh(a).is_enabled() == a.enabled,
        EndpointSpec::Local.is_enabled(),
        EndpointSpec::Ssh(a).key() == EndpointSpec::Ssh(b).key() <==> a.id == b.id,
        EndpointSpec::Ssh(a).key() != EndpointSpec::Local.key(),
{
}

/// Machines are listed in one order: of two different ones exactly one comes
/// first, the local one before all saved ones, and those by their identities.
pub proof fn law_machines_stand_in_one_order(a: MachineId, b: MachineId, c: MachineId)
    ensures
        a == b ==> !federation::precedes(a, b),
        a != b ==> federation::precedes(a, b) != federation::precedes(b, a),
        federation::precedes(a, b) && federation::precedes(b, c) ==> federation::precedes(a, c),
        a != MachineId::Local ==> federation::precedes(MachineId::Local, a),
        forall|x: u128, y: u128|
            x < y ==> #[trigger] federation::precedes(MachineId::Ssh(x), MachineId::Ssh(y)),
{
}

/// A configuration is sound exactly when events can be queued, the initial wait is
/// positive and no longer than the greatest, and every deadline is positive; of
/// several rules that it breaks the first in this order is named.
pub proof fn law_a_sound_configuration_has_positive_ordered_spans(config: Config)
    ensures
        ({
            let queued = config.event_capacity > 0;
            let ordered = 0 < config.retry_initial@ <= config.retry_max@;
            let timely = config.connect_timeout@ > 0 && config.health_interval@ > 0
                && config.health_timeout@ > 0;
            &&& config.fault() is None <==> queued && ordered && timely
            &&& config.fault() == Some(ConfigFault::EventCapacity) <==> !queued
            &&& config.fault() == Some(ConfigFault::RetryBounds) <==> queued && !ordered
            &&& config.fault() == Some(ConfigFault::Deadlines) <==> queued && ordered && !timely
        }),
{
}

/// A worker runs for a known machine exactly when its profile is enabled. A restart
/// keeps the profile, the connection number and all that is known, and waits for
/// the new worker's first attempt.
pub proof fn law_a_restart_keeps_what_is_known(endpoint: Endpoint, supervisor: u64)
    ensures
        federation::has_worker(Some(endpoint)) <==> endpoint.spec.is_enabled(),
        !federation::has_worker(None),
        endpoint.replaced(supervisor) == (Endpoint {
            spec: endpoint.spec,
            generation: Generation { supervisor, connection: endpoint.generation.connection },
            status: endpoint.replaced(supervisor).status,
            negotiation: endpoint.negotiation,
            metadata: endpoint.metadata,
            failure: None,
            accepting_events: false,
        }),
        endpoint.replaced(supervisor).status == Status::Disabled <==> !endpoint.spec.is_enabled(),
        endpoint.spec.is_enabled() ==> (endpoint.replaced(supervisor).status
            == Status::Reconnecting <==> endpoint.metadata.resources is Some),
        endpoint.spec.is_enabled() ==> (endpoint.replaced(supervisor).status == Status::Connecting
            <==> endpoint.metadata.resources is None),
{
}

/// A repeated identity is one that two machines have, and the first one is only one.
pub proof fn law_the_first_repeated_identity_is_one(machines: Seq<Machine>, a: u128, b: u128)
    requires
        federation::first_repeated(machines, a),
        federation::first_repeated(machines, b),
    ensures
        a == b,
        exists|i: int, j: int|
            0 <= i < j < machines.len() && (#[trigger] machines[i]).id == a && (
            #[trigger] machines[j]).id == a,
{
    let x = choose|x: int|
        0 <= x < machines.len() && (#[trigger] machines[x]).id == a && federation::distinct(
            machines.take(x),
        ) && exists|i: int| 0 <= i < x && (#[trigger] machines[i]).id == a;
    let y = choose|y: int|
        0 <= y < machines.len() && (#[trigger] machines[y]).id == b && federation::distinct(
            machines.take(y),
        ) && exists|i: int| 0 <= i < y && (#[trigger] machines[i]).id == b;
    let i = choose|i: int| 0 <= i < x && (#[trigger] machines[i]).id == a;
    let j = choose|j: int| 0 <= j < y && (#[trigger] machines[j]).id == b;
    assert(machines[i].id == a && machines[x].id == a);
    if x < y {
        let before = machines.take(y);
        assert(before[i].id == before[x].id);
    } else if y < x {
        let before = machines.take(x);
        assert(before[j].id == before[y].id);
    }
}

// ---------------------------------------------------------------------------
// Workers

/// The workers that the entries speak of: one for each enabled machine, under
/// the number of its entry.
pub open spec fn staff(entries: Seq<Endpoint>) -> Map<MachineId, u64> {
    Map::new(
        |id: MachineId| federation::has_worker(federation::lookup(entries, id)),
        |id: MachineId| federation::lookup(entries, id)->0.generation.supervisor,
    )
}

/// The workers after these commands.
pub open spec fn obeyed(workers: Map<MachineId, u64>, commands: Seq<Command>) -> Map<
    MachineId,
    u64,
>
    decreases commands.len(),
{
    if commands.len() == 0 {
        workers
    } else {
        let before = obeyed(workers, commands.drop_last());
        match commands.last() {
            Command::Abort(id) => before.remove(id),
            Command::Spawn { spec, supervisor } => before.insert(spec.key(), supervisor),
        }
    }
}

/// No command stops a worker that is not running or starts one that is.
pub open spec fn orderly(workers: Map<MachineId, u64>, commands: Seq<Command>) -> bool
    decreases commands.len(),
{
    commands.len() == 0 || {
        let before = obeyed(workers, commands.drop_last());
        &&& orderly(workers, commands.drop_last())
        &&& match commands.last() {
            Command::Abort(id) => before.dom().contains(id),
            Command::Spawn { spec, supervisor } => !before.dom().contains(spec.key()),
        }
    }
}

proof fn lemma_obeyed_in_turn(
    workers: Map<MachineId, u64>,
    first: Seq<Command>,
    second: Seq<Command>,
)
    ensures
        obeyed(workers, first + second) == obeyed(obeyed(workers, first), second),
        orderly(workers, first + second) <==> orderly(workers, first) && orderly(
            obeyed(workers, first),
            second,
        ),
    decreases second.len(),
{
    if second.len() == 0 {
        assert(first + second =~= first);
    } else {
        assert((first + second).drop_last() =~= first + second.drop_last());
        lemma_obeyed_in_turn(workers, first, second.drop_last());
    }
}

/// Two lists of workers agree on a machine.
spec fn agree(a: Map<MachineId, u64>, b: Map<MachineId, u64>, id: MachineId) -> bool {
    a.dom().contains(id) == b.dom().contains(id) && (a.dom().contains(id) ==> a[id] == b[id])
}

proof fn lemma_farewells_obeyed(old: Seq<Endpoint>, specs: Seq<EndpointSpec>, n: int)
    requires
        federation::sorted(old),
        0 <= n <= old.len(),
    ensures
        orderly(staff(old), federation::farewells(old, specs, n)),
        forall|id: MachineId|
            #![trigger agree(obeyed(staff(old), federation::farewells(old, specs, n)), staff(old), id)]
            (federation::wanted(specs, id) || forall|i: int|
                0 <= i < n ==> (#[trigger] old[i]).spec.key() != id) ==> agree(
                obeyed(staff(old), federation::farewells(old, specs, n)),
                staff(old),
                id,
            ),
        forall|i: int|
            0 <= i < n && !federation::wanted(specs, (#[trigger] old[i]).spec.key()) ==> !obeyed(
                staff(old),
                federation::farewells(old, specs, n),
            ).dom().contains(old[i].spec.key()),
    decreases n,
{
    if n > 0 {
        lemma_farewells_obeyed(old, specs, n - 1);
        let entry = old[n - 1];
        let before = federation::farewells(old, specs, n - 1);
        let now = federation::farewells(old, specs, n);
        federation::lemma_lookup(old, n - 1);
        assert forall|i: int| 0 <= i < n - 1 implies (#[trigger] old[i]).spec.key()
            != entry.spec.key() by {
            assert(federation::precedes(old[i].spec.key(), old[n - 1].spec.key()));
        }
        assert(agree(obeyed(staff(old), before), staff(old), entry.spec.key()));
        if entry.spec.is_enabled() && !federation::wanted(specs, entry.spec.key()) {
            assert(now.drop_last() =~= before);
            assert(now.last() == Command::Abort(entry.spec.key()));
        } else {
            assert(now =~= before);
        }
        assert forall|id: MachineId|
            #![trigger agree(obeyed(staff(old), now), staff(old), id)]
            (federation::wanted(specs, id) || forall|i: int|
                0 <= i < n ==> (#[trigger] old[i]).spec.key() != id) implies agree(
            obeyed(staff(old), now),
            staff(old),
            id,
        ) by {
            assert(agree(obeyed(staff(old), before), staff(old), id));
            if !federation::wanted(specs, id) {
                assert(old[n - 1].spec.key() != id);
            }
        }
    }
}

proof fn lemma_handovers_obeyed(
    old: Seq<Endpoint>,
    specs: Seq<EndpointSpec>,
    counter: u64,
    after: Seq<Endpoint>,
    workers: Map<MachineId, u64>,
    n: int,
)
    requires
        federation::sorted(old),
        federation::specs_sorted(specs),
        federation::entries_reconciled(old, specs, counter, after),
        federation::sorted(after),
        forall|id: MachineId|
            #![trigger agree(workers, staff(old), id)]
            federation::wanted(specs, id) ==> agree(workers, staff(old), id),
        0 <= n <= specs.len(),
    ensures
        ({
            let commands = federation::handovers(old, specs, counter, n);
            &&& orderly(workers, commands)
            &&& forall|k: int|
                0 <= k < n ==> agree(
                    obeyed(workers, commands),
                    staff(after),
                    (#[trigger] specs[k]).key(),
                )
            &&& forall|id: MachineId|
                #![trigger agree(obeyed(workers, commands), workers, id)]
                (forall|k: int| 0 <= k < n ==> (#[trigger] specs[k]).key() != id) ==> agree(
                    obeyed(workers, commands),
                    workers,
                    id,
                )
        }),
    decreases n,
{
    if n > 0 {
        lemma_handovers_obeyed(old, specs, counter, after, workers, n - 1);
        let spec = specs[n - 1];
        let id = spec.key();
        let known = federation::lookup(old, id);
        let number = (counter + federation::restarts(old, specs, n - 1)) as u64;
        let before = federation::handovers(old, specs, counter, n - 1);
        let step = if federation::needs_restart(known, spec) {
            federation::handover(known, spec, number)
        } else {
            seq![]
        };
        let now = federation::handovers(old, specs, counter, n);
        assert(now == before + step);
        lemma_obeyed_in_turn(workers, before, step);
        let middle = obeyed(workers, before);
        assert(federation::wanted(specs, id));
        assert forall|k: int| 0 <= k < n - 1 implies (#[trigger] specs[k]).key() != id by {
            assert(federation::precedes(specs[k].key(), specs[n - 1].key()));
        }
        assert(agree(middle, workers, id));
        assert(agree(workers, staff(old), id));
        assert(after[n - 1] == federation::reconciled(known, spec, number));
        assert(after[n - 1].spec == spec);
        federation::lemma_lookup(after, n - 1);
        lemma_step_obeyed(middle, known, spec, number);
        assert forall|k: int| 0 <= k < n implies agree(
            obeyed(workers, now),
            staff(after),
            (#[trigger] specs[k]).key(),
        ) by {
            if k < n - 1 {
                assert(specs[k].key() != id);
            }
        }
        assert forall|other: MachineId|
            #![trigger agree(obeyed(workers, now), workers, other)]
            (forall|k: int| 0 <= k < n ==> (#[trigger] specs[k]).key() != other) implies agree(
            obeyed(workers, now),
            workers,
            other,
        ) by {
            assert(specs[n - 1].key() != other);
            assert(agree(middle, workers, other));
        }
    }
}

proof fn lemma_step_obeyed(
    workers: Map<MachineId, u64>,
    known: Option<Endpoint>,
    spec: EndpointSpec,
    supervisor: u64,
)
    requires
        workers.dom().contains(spec.key()) == federation::has_worker(known),
        federation::has_worker(known) ==> workers[spec.key()] == known->0.generation.supervisor,
    ensures
        ({
            let step = if federation::needs_restart(known, spec) {
                federation::handover(known, spec, supervisor)
            } else {
                seq![]
            };
            let after = federation::reconciled(known, spec, supervisor);
            let now = obeyed(workers, step);
            &&& orderly(workers, step)
            &&& now.dom().contains(spec.key()) == spec.is_enabled()
            &&& spec.is_enabled() ==> now[spec.key()] == after.generation.supervisor
            &&& forall|id: MachineId|
                id != spec.key() ==> now.dom().contains(id) == workers.dom().contains(id)
            &&& forall|id: MachineId| id != spec.key() ==> now[id] == workers[id]
        }),
{
    reveal_with_fuel(obeyed, 3);
    reveal_with_fuel(orderly, 3);
    let step = federation::handover(known, spec, supervisor);
    let stop: Seq<Command> = if federation::has_worker(known) {
        seq![Command::Abort(spec.key())]
    } else {
        seq![]
    };
    let start: Seq<Command> = if spec.is_enabled() {
        seq![Command::Spawn { spec, supervisor }]
    } else {
        seq![]
    };
    assert(step == stop + start);
    lemma_obeyed_in_turn(workers, stop, start);
}

/// Carrying out the commands of a reconciliation in order leaves exactly one
/// worker for each enabled machine of the new registry, under that machine's
/// present number, and none for any other; no command stops a worker that is not
/// running or starts a second one.
pub proof fn law_each_enabled_machine_has_one_worker(
    old: Seq<Endpoint>,
    machines: Seq<Machine>,
    counter: u64,
    after: Seq<Endpoint>,
)
    requires
        federation::sorted(old),
        federation::distinct(machines),
        federation::entries_reconciled(old, federation::desired(machines), counter, after),
    ensures
        ({
            let specs = federation::desired(machines);
            let commands = federation::farewells(old, specs, old.len() as int)
                + federation::handovers(old, specs, counter, specs.len() as int);
            &&& orderly(staff(old), commands)
            &&& obeyed(staff(old), commands) == staff(after)
        }),
{
    let specs = federation::desired(machines);
    federation::lemma_desired(machines);
    lemma_reconciled_specs(old, specs, counter, after);
    let goodbye = federation::farewells(old, specs, old.len() as int);
    let rest = federation::handovers(old, specs, counter, specs.len() as int);
    lemma_farewells_obeyed(old, specs, old.len() as int);
    let middle = obeyed(staff(old), goodbye);
    lemma_handovers_obeyed(old, specs, counter, after, middle, specs.len() as int);
    lemma_obeyed_in_turn(staff(old), goodbye, rest);
    let end = obeyed(middle, rest);
    assert forall|id: MachineId| #[trigger] agree(end, staff(after), id) by {
        if federation::wanted(specs, id) {
            let k = choose|k: int| 0 <= k < specs.len() && (#[trigger] specs[k]).key() == id;
            assert(agree(end, staff(after), specs[k].key()));
        } else {
            assert(agree(end, middle, id));
            if exists|i: int| 0 <= i < old.len() && (#[trigger] old[i]).spec.key() == id {
                let i = choose|i: int| 0 <= i < old.len() && (#[trigger] old[i]).spec.key() == id;
                assert(!middle.dom().contains(old[i].spec.key()));
            } else {
                assert(agree(middle, staff(old), id));
            }
            assert(federation::lookup(after, id) is None) by {
                if federation::lookup(after, id) is Some {
                    let m = choose|m: int|
                        0 <= m < after.len() && (#[trigger] after[m]).spec.key() == id;
                    assert(specs[m].key() == id);
                }
            }
        }
    }
    assert forall|id: MachineId| end.dom().contains(id) == staff(after).dom().contains(id) by {
        assert(agree(end, staff(after), id));
    }
    assert forall|id: MachineId| end.dom().contains(id) implies end[id] == staff(after)[id] by {
        assert(agree(end, staff(after), id));
    }
    assert(end =~= staff(after));
}

/// Carrying out the commands of a restart replaces that machine's worker by one
/// under its new number, and no other.
pub proof fn law_a_restart_replaces_one_worker(entries: Seq<Endpoint>, i: int, supervisor: u64)
    requires
        federation::sorted(entries),
        0 <= i < entries.len(),
        entries[i].spec.is_enabled(),
    ensures
        ({
            let id = entries[i].spec.key();
            let commands = seq![
                Command::Abort(id),
                Command::Spawn { spec: entries[i].spec, supervisor },
            ];
            &&& federation::relaunch(entries[i], supervisor) == commands
            &&& orderly(staff(entries), commands)
            &&& obeyed(staff(entries), commands) == staff(
                entries.update(i, entries[i].replaced(supervisor)),
            )
        }),
{
    let id = entries[i].spec.key();
    let spawn = Command::Spawn { spec: entries[i].spec, supervisor };
    let commands = seq![Command::Abort(id), spawn];
    let after = entries.update(i, entries[i].replaced(supervisor));
    federation::lemma_lookup(entries, i);
    federation::lemma_entry_replaced(entries, i, entries[i].replaced(supervisor));
    reveal_with_fuel(obeyed, 3);
    reveal_with_fuel(orderly, 3);
    assert(commands.drop_last() =~= seq![Command::Abort(id)]);
    assert(commands.drop_last().drop_last() =~= Seq::<Command>::empty());
    let end = obeyed(staff(entries), commands);
    assert(end == staff(entries).remove(id).insert(id, supervisor));
    assert forall|other: MachineId| end.dom().contains(other) == staff(after).dom().contains(
        other,
    ) by {
        if other != id {
            assert(federation::lookup(after, other) == federation::lookup(entries, other));
        }
    }
    assert forall|other: MachineId| end.dom().contains(other) implies end[other] == staff(
        after,
    )[other] by {
        if other != id {
            assert(federation::lookup(after, other) == federation::lookup(entries, other));
        }
    }
    assert(end =~= staff(after));
}

/// Every worker that a reconciliation starts is started for a machine of the new
/// registry, under that machine's present profile and number.
pub proof fn law_workers_start_under_the_present_profile(
    old: Seq<Endpoint>,
    machines: Seq<Machine>,
    counter: u64,
    after: Seq<Endpoint>,
    c: int,
)
    requires
        federation::distinct(machines),
        federation::entries_reconciled(old, federation::desired(machines), counter, after),
    ensures
        ({
            let specs = federation::desired(machines);
            let commands = federation::farewells(old, specs, old.len() as int)
                + federation::handovers(old, specs, counter, specs.len() as int);
            0 <= c < commands.len() ==> (commands[c] matches Command::Spawn { spec, supervisor }
                ==> (federation::lookup(after, spec.key()) matches Some(entry) && entry.spec == spec
                && entry.generation.supervisor == supervisor && spec.is_enabled()))
        }),
{
    let specs = federation::desired(machines);
    federation::lemma_desired(machines);
    lemma_reconciled_specs(old, specs, counter, after);
    let goodbye = federation::farewells(old, specs, old.len() as int);
    let rest = federation::handovers(old, specs, counter, specs.len() as int);
    let commands = goodbye + rest;
    if 0 <= c < commands.len() {
        if c < goodbye.len() {
            lemma_farewells_stop(old, specs, old.len() as int, c);
        } else {
            lemma_handovers_start(old, specs, counter, after, specs.len() as int, c - goodbye.len());
        }
    }
}

proof fn lemma_farewells_stop(old: Seq<Endpoint>, specs: Seq<EndpointSpec>, n: int, c: int)
    requires
        0 <= n <= old.len(),
        0 <= c < federation::farewells(old, specs, n).len(),
    ensures
        federation::farewells(old, specs, n)[c] is Abort,
    decreases n,
{
    if n > 0 {
        let before = federation::farewells(old, specs, n - 1);
        if c < before.len() {
            lemma_farewells_stop(old, specs, n - 1, c);
        }
    }
}

proof fn lemma_handovers_start(
    old: Seq<Endpoint>,
    specs: Seq<EndpointSpec>,
    counter: u64,
    after: Seq<Endpoint>,
    n: int,
    c: int,
)
    requires
        federation::sorted(after),
        federation::entries_reconciled(old, specs, counter, after),
        forall|k: int| 0 <= k < after.len() ==> (#[trigger] after[k]).spec == specs[k],
        0 <= n <= specs.len(),
        0 <= c < federation::handovers(old, specs, counter, n).len(),
    ensures
        federation::handovers(old, specs, counter, n)[c] matches Command::Spawn { spec, supervisor }
            ==> (federation::lookup(after, spec.key()) matches Some(entry) && entry.spec == spec
            && entry.generation.supervisor == supervisor && spec.is_enabled()),
    decreases n,
{
    if n > 0 {
        let before = federation::handovers(old, specs, counter, n - 1);
        if c < before.len() {
            lemma_handovers_start(old, specs, counter, after, n - 1, c);
        } else {
            assert(after[n - 1].spec == specs[n - 1]);
            federation::lemma_lookup(after, n - 1);
        }
    }
}

/// No event starts, stops or renumbers a worker.
pub proof fn law_events_leave_the_workers_alone(
    entries: Seq<Endpoint>,
    i: int,
    generation: Generation,
    kind: EventKind,
)
    requires
        federation::sorted(entries),
        0 <= i < entries.len(),
        entries[i].after(generation, kind) is Some,
    ensures
        staff(entries.update(i, entries[i].after(generation, kind)->0)) == staff(entries),
{
    let next = entries[i].after(generation, kind)->0;
    let after = entries.update(i, next);
    law_connections_only_advance(entries[i], generation, kind);
    federation::lemma_lookup(entries, i);
    federation::lemma_entry_replaced(entries, i, next);
    assert forall|id: MachineId| staff(after).dom().contains(id) == staff(entries).dom().contains(
        id,
    ) by {
        if id != next.spec.key() {
            assert(federation::lookup(after, id) == federation::lookup(entries, id));
        }
    }
    assert forall|id: MachineId| staff(after).dom().contains(id) implies staff(after)[id] == staff(
        entries,
    )[id] by {
        if id != next.spec.key() {
            assert(federation::lookup(after, id) == federation::lookup(entries, id));
        }
    }
    assert(staff(after) =~= staff(entries));
}

// ---------------------------------------------------------------------------
// Backoff

/// Waits start at the initial one, never exceed the greatest one, never shrink
/// from one failure to the next, and double until they are capped.
pub proof fn law_backoff_is_bounded(config: Config, failures: nat)
    requires
        config.fault() is None,
    ensures
        config.delay(0) == config.retry_initial@,
        config.retry_initial@ <= config.delay(failures) <= config.retry_max@,
        config.delay(failures) <= config.delay(failures + 1),
        config.delay(failures + 1) == (if 2 * config.delay(failures) <= config.retry_max@ {
            2 * config.delay(failures)
        } else {
            config.retry_max@
        }),
    decreases failures,
{
    vstd::arithmetic::power2::lemma2_to64();
    assert(config.retry_initial@ * vstd::arithmetic::power2::pow2(0) == config.retry_initial@);
    config.lemma_delay_step(failures);
    if failures > 0 {
        law_backoff_is_bounded(config, (failures - 1) as nat);
    }
}

/// However small the initial wait, enough failures reach the greatest one.
pub proof fn law_backoff_reaches_its_cap(config: Config, failures: nat)
    requires
        config.fault() is None,
        config.retry_max@ <= MAX_NANOS,
        failures >= 96,
    ensures
        config.delay(failures) == config.retry_max@,
{
    vstd::arithmetic::power2::lemma2_to64();
    vstd::arithmetic::power2::lemma_pow2_adds(64, 32);
    if failures > 96 {
        vstd::arithmetic::power2::lemma_pow2_strictly_increases(96, failures);
    }
    let initial = config.retry_initial@;
    let power = vstd::arithmetic::power2::pow2(failures);
    assert(initial * power >= power) by (nonlinear_arith)
        requires
            initial >= 1,
            power >= 0,
    ;
}

} // verus!
