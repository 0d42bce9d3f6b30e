//! Transport-independent, metadata-only endpoint supervision.
//!
//! The registry holds what is known of each machine. It changes by events that
//! workers report and by reconciliation with the saved machines. Connecting,
//! reading, health checks and retry waits run in one independent task per
//! enabled machine, which the caller starts and stops as commanded.
//!
//! Screen frames and terminal input cannot enter the metadata registry: no
//! event carries them.

use vstd::prelude::*;

use crate::duration::Duration;
use crate::identity::{self, write_id};
use crate::machines::Machine;
use crate::protocol::{
    Capabilities, ClientAlertSnapshot, ClientPresenceSnapshot, ExtensionCatalog, ResourceSnapshot,
    Revised,
};
use crate::text::same_text;

verus! {

#[derive(Clone, Copy, Debug, PartialEq, Eq, Hash, PartialOrd, Ord, Structural)]
pub enum MachineId {
    Local,
    Ssh(u128),
}

/// The order in which machines are listed: the local one first, then the saved
/// ones by identity.
pub open spec fn precedes(a: MachineId, b: MachineId) -> bool {
    match (a, b) {
        (MachineId::Local, MachineId::Ssh(_)) => true,
        (MachineId::Ssh(x), MachineId::Ssh(y)) => x < y,
        _ => false,
    }
}

fn comes_before(a: MachineId, b: MachineId) -> (r: bool)
    ensures
        r == precedes(a, b),
{
    match (a, b) {
        (MachineId::Local, MachineId::Ssh(_)) => true,
        (MachineId::Ssh(x), MachineId::Ssh(y)) => x < y,
        _ => false,
    }
}

#[derive(Debug, PartialEq, Eq)]
pub enum EndpointSpec {
    Local,
    Ssh(Machine),
}

impl Clone for EndpointSpec {
    fn clone(&self) -> (r: Self)
        ensures
            r == *self,
    {
        match self {
            EndpointSpec::Local => EndpointSpec::Local,
            EndpointSpec::Ssh(machine) => EndpointSpec::Ssh(machine.clone()),
        }
    }
}

impl EndpointSpec {
    pub open spec fn key(self) -> MachineId {
        match self {
            EndpointSpec::Local => MachineId::Local,
            EndpointSpec::Ssh(machine) => MachineId::Ssh(machine.id),
        }
    }

    pub open spec fn is_enabled(self) -> bool {
        match self {
            EndpointSpec::Local => true,
            EndpointSpec::Ssh(machine) => machine.enabled,
        }
    }

    pub open spec fn targets_as(self, other: Self) -> bool {
        match (self, other) {
            (EndpointSpec::Local, EndpointSpec::Local) => true,
            (EndpointSpec::Ssh(a), EndpointSpec::Ssh(b)) => a.target@ == b.target@,
            _ => false,
        }
    }

    pub fn id(&self) -> (r: MachineId)
        ensures
            r == self.key(),
    {
        match self {
            EndpointSpec::Local => MachineId::Local,
            EndpointSpec::Ssh(machine) => MachineId::Ssh(machine.id),
        }
    }

    pub fn enabled(&self) -> (r: bool)
        ensures
            r == self.is_enabled(),
    {
        match self {
            EndpointSpec::Local => true,
            EndpointSpec::Ssh(machine) => machine.enabled,
        }
    }

    pub fn same_target(&self, other: &Self) -> (r: bool)
        ensures
            r == self.targets_as(*other),
    {
        match (self, other) {
            (EndpointSpec::Local, EndpointSpec::Local) => true,
            (EndpointSpec::Ssh(a), EndpointSpec::Ssh(b)) => same_text(
                a.target.as_str(),
                b.target.as_str(),
            ),
            _ => false,
        }
    }
}

/// Both numbers come from counters that only grow, so neither is used twice,
/// including after removal and re-addition of a machine or replacement of the
/// entire supervisor. Connection zero means that a worker has not started its
/// first attempt yet.
#[derive(Clone, Copy, Debug, PartialEq, Eq, Structural)]
pub struct Generation {
    pub supervisor: u64,
    pub connection: u64,
}

impl Default for Generation {
    fn default() -> (r: Self)
        ensures
            r == (Generation { supervisor: 0, connection: 0 }),
    {
        Generation { supervisor: 0, connection: 0 }
    }
}

/// Takes the next number of a counter.
pub fn allocate(counter: &mut u64) -> (r: u64)
    requires
        *old(counter) < u64::MAX,
    ensures
        r == *old(counter),
        *final(counter) == *old(counter) + 1,
{
    let number: u64 = *counter;
    *counter = number + 1;
    number
}

#[derive(Clone, Copy, Debug, PartialEq, Eq, Structural)]
pub enum Status {
    Connecting,
    Ready,
    Reconnecting,
    Attention,
    Disabled,
}

#[derive(Clone, Copy, Debug, PartialEq, Eq, Structural)]
pub enum FailureKind {
    Transient,
    HostKey,
    Authentication,
    Installation,
    Compatibility,
}

/// Only transient failures retry automatically. Other failures require an
/// explicit `restart` after the user has repaired the endpoint interactively.
#[derive(Debug, PartialEq, Eq)]
pub struct Failure {
    pub kind: FailureKind,
    pub message: String,
}

impl Clone for Failure {
    fn clone(&self) -> (r: Self)
        ensures
            r == *self,
    {
        Failure { kind: self.kind, message: self.message.clone() }
    }
}

impl Failure {
    /// A transient failure with this message.
    pub open spec fn is_transient(self, message: Seq<char>) -> bool {
        self.kind == FailureKind::Transient && self.message@ == message
    }

    pub fn transient(message: &str) -> (r: Self)
        ensures
            r.is_transient(message@),
    {
        Failure { kind: FailureKind::Transient, message: message.to_owned() }
    }
}

#[derive(Debug, PartialEq, Eq)]
pub enum Negotiation {
    Local { protocol_version: u16 },
    Ssh { protocol_generation: u16, server_version: String, capabilities: Capabilities },
}

impl Clone for Negotiation {
    fn clone(&self) -> (r: Self)
        ensures
            r == *self,
    {
        match self {
            Negotiation::Local { protocol_version } => Negotiation::Local {
                protocol_version: *protocol_version,
            },
            Negotiation::Ssh { protocol_generation, server_version, capabilities } => {
                Negotiation::Ssh {
                    protocol_generation: *protocol_generation,
                    server_version: server_version.clone(),
                    capabilities: *capabilities,
                }
            },
        }
    }
}

/// Full initial resource and presence snapshots are required before becoming
/// Ready. Optional streams stay absent when the peer did not negotiate them.
#[derive(Debug)]
pub struct InitialMetadata {
    pub negotiation: Negotiation,
    pub resources: ResourceSnapshot,
    pub presence: ClientPresenceSnapshot,
    pub alerts: Option<ClientAlertSnapshot>,
    pub catalog: Option<ExtensionCatalog>,
}

#[derive(Debug, PartialEq, Eq)]
pub enum Update {
    Resources(ResourceSnapshot),
    Presence(ClientPresenceSnapshot),
    Alerts(ClientAlertSnapshot),
    Catalog(ExtensionCatalog),
    /// A response to the most recent application-level ping, not just traffic.
    Healthy,
}

// ---------------------------------------------------------------------------
// Configuration

#[derive(Clone, Copy, Debug)]
pub struct Config {
    pub retry_initial: Duration,
    pub retry_max: Duration,
    pub connect_timeout: Duration,
    pub health_interval: Duration,
    pub health_timeout: Duration,
    pub event_capacity: usize,
}

#[derive(Clone, Copy, Debug, PartialEq, Eq, Structural)]
pub enum ConfigFault {
    EventCapacity,
    RetryBounds,
    Deadlines,
}

impl ConfigFault {
    pub open spec fn wording(self) -> Seq<char> {
        match self {
            ConfigFault::EventCapacity => "event capacity must be positive"@,
            ConfigFault::RetryBounds => "retry bounds must be positive and ordered"@,
            ConfigFault::Deadlines => "connection and health deadlines must be positive"@,
        }
    }

    pub fn text(&self) -> (r: &'static str)
        ensures
            r@ == self.wording(),
    {
        match self {
            ConfigFault::EventCapacity => "event capacity must be positive",
            ConfigFault::RetryBounds => "retry bounds must be positive and ordered",
            ConfigFault::Deadlines => "connection and health deadlines must be positive",
        }
    }
}

impl Default for Config {
    fn default() -> (r: Self)
        ensures
            r.retry_initial@ == 1_000_000_000,
            r.retry_max@ == 30_000_000_000,
            r.connect_timeout@ == 15_000_000_000,
            r.health_interval@ == 15_000_000_000,
            r.health_timeout@ == 5_000_000_000,
            r.event_capacity == 128,
    {
        Config {
            retry_initial: Duration::from_secs(1),
            retry_max: Duration::from_secs(30),
            connect_timeout: Duration::from_secs(15),
            health_interval: Duration::from_secs(15),
            health_timeout: Duration::from_secs(5),
            event_capacity: 128,
        }
    }
}

impl Config {
    /// The first rule that the configuration breaks, if any.
    pub open spec fn fault(self) -> Option<ConfigFault> {
        if self.event_capacity == 0 {
            Some(ConfigFault::EventCapacity)
        } else if self.retry_initial@ == 0 || self.retry_initial@ > self.retry_max@ {
            Some(ConfigFault::RetryBounds)
        } else if self.connect_timeout@ == 0 || self.health_interval@ == 0 || self.health_timeout@
            == 0 {
            Some(ConfigFault::Deadlines)
        } else {
            None
        }
    }

    pub fn validate(&self) -> (r: Result<(), ConfigFault>)
        ensures
            match r {
                Ok(()) => self.fault() is None,
                Err(fault) => self.fault() == Some(fault),
            },
    {
        if self.event_capacity == 0 {
            return Err(ConfigFault::EventCapacity);
        }
        if self.retry_initial.is_zero() || !self.retry_initial.at_most(&self.retry_max) {
            return Err(ConfigFault::RetryBounds);
        }
        if self.connect_timeout.is_zero() || self.health_interval.is_zero()
            || self.health_timeout.is_zero() {
            return Err(ConfigFault::Deadlines);
        }
        Ok(())
    }

    /// The wait after a failure that `failures` others preceded: the initial
    /// wait, doubled for each of them, and capped at the greatest wait.
    pub open spec fn delay(self, failures: nat) -> nat {
        let doubled = self.retry_initial@ * vstd::arithmetic::power2::pow2(failures);
        if failures == 0 || doubled <= self.retry_max@ {
            doubled
        } else {
            self.retry_max@
        }
    }

    pub proof fn lemma_delay_step(self, n: nat)
        ensures
            self.delay(n + 1) == (if 2 * self.delay(n) <= self.retry_max@ {
                2 * self.delay(n)
            } else {
                self.retry_max@
            }),
    {
        let initial = self.retry_initial@;
        vstd::arithmetic::power2::lemma_pow2_unfold(n + 1);
        vstd::arithmetic::power2::lemma2_to64();
        let power = vstd::arithmetic::power2::pow2(n);
        assert(initial * (2 * power) == 2 * (initial * power)) by (nonlinear_arith);
    }

    /// Once the greatest wait is reached after a failure, it stays.
    pub proof fn lemma_delay_capped(self, n: nat, m: nat)
        requires
            0 < n <= m,
            self.delay(n) == self.retry_max@,
        ensures
            self.delay(m) == self.retry_max@,
        decreases m,
    {
        if n < m {
            self.lemma_delay_capped(n, (m - 1) as nat);
            self.lemma_delay_step((m - 1) as nat);
        }
    }

    pub fn retry_delay(&self, failures: u32) -> (r: Duration)
        ensures
            r@ == self.delay(failures as nat),
    {
        let cap: u128 = self.retry_max.as_nanos();
        let mut delay = self.retry_initial;
        let mut n: u32 = 0;
        proof {
            vstd::arithmetic::power2::lemma2_to64();
            assert(self.retry_initial@ * 1 == self.retry_initial@);
        }
        while n < failures
            invariant
                n <= failures,
                cap == self.retry_max@,
                cap <= crate::duration::MAX_NANOS,
                delay@ == self.delay(n as nat),
            decreases failures - n,
        {
            proof {
                self.lemma_delay_step(n as nat);
            }
            delay = delay.saturating_double().shorter_of(self.retry_max);
            n += 1;
            if delay.as_nanos() == cap {
                proof {
                    self.lemma_delay_capped(n as nat, failures as nat);
                }
                return delay;
            }
        }
        delay
    }
}

// ---------------------------------------------------------------------------
// Endpoints

/// Provenance is retained with each snapshot. A new connection can be Ready
/// while a previously supported optional stream is still stale.
#[derive(Debug)]
pub struct Snapshot<T> {
    pub generation: Generation,
    pub value: T,
}

impl<T: Clone> Clone for Snapshot<T> {
    fn clone(&self) -> (r: Self)
        ensures
            r.generation == self.generation,
            cloned(self.value, r.value),
    {
        Snapshot { generation: self.generation, value: self.value.clone() }
    }
}

#[derive(Debug)]
pub struct Metadata {
    pub resources: Option<Snapshot<ResourceSnapshot>>,
    pub presence: Option<Snapshot<ClientPresenceSnapshot>>,
    pub alerts: Option<Snapshot<ClientAlertSnapshot>>,
    pub catalog: Option<Snapshot<ExtensionCatalog>>,
}

impl Clone for Metadata {
    fn clone(&self) -> (r: Self)
        ensures
            r == *self,
    {
        Metadata {
            resources: self.resources.clone(),
            presence: self.presence.clone(),
            alerts: self.alerts.clone(),
            catalog: self.catalog.clone(),
        }
    }
}

impl Metadata {
    pub open spec fn nothing() -> Self {
        Metadata { resources: None, presence: None, alerts: None, catalog: None }
    }
}

impl Default for Metadata {
    fn default() -> (r: Self)
        ensures
            r == Metadata::nothing(),
    {
        Metadata { resources: None, presence: None, alerts: None, catalog: None }
    }
}

#[derive(Debug)]
pub struct Endpoint {
    pub spec: EndpointSpec,
    pub generation: Generation,
    pub status: Status,
    pub negotiation: Option<Snapshot<Negotiation>>,
    pub metadata: Metadata,
    pub failure: Option<Failure>,
    /// The current connection may still report: it has begun and not failed.
    pub accepting_events: bool,
}

impl Clone for Endpoint {
    fn clone(&self) -> (r: Self)
        ensures
            r == *self,
    {
        Endpoint {
            spec: self.spec.clone(),
            generation: self.generation,
            status: self.status,
            negotiation: self.negotiation.clone(),
            metadata: self.metadata.clone(),
            failure: self.failure.clone(),
            accepting_events: self.accepting_events,
        }
    }
}

#[derive(Debug)]
pub enum EventKind {
    Attempt,
    Connected(InitialMetadata),
    Update(Update),
    Failed(Failure),
}

#[derive(Debug)]
pub struct Event {
    pub id: MachineId,
    pub generation: Generation,
    pub kind: EventKind,
}

pub open spec fn taken<T>(value: T, generation: Generation) -> Option<Snapshot<T>> {
    Some(Snapshot { generation, value })
}

fn replace<T>(slot: &mut Option<Snapshot<T>>, value: T, generation: Generation)
    ensures
        *final(slot) == taken(value, generation),
{
    *slot = Some(Snapshot { generation, value });
}

/// A snapshot gives way to one of another connection, and to a later one of its
/// own.
pub open spec fn gives_way<T: Revised>(
    slot: Option<Snapshot<T>>,
    value: T,
    generation: Generation,
) -> bool {
    match slot {
        Some(current) => current.generation != generation || current.value.revision_of()
            < value.revision_of(),
        None => true,
    }
}

pub fn accept<T: Revised>(
    slot: &mut Option<Snapshot<T>>,
    value: T,
    generation: Generation,
) -> (r: bool)
    ensures
        r == gives_way(*old(slot), value, generation),
        *final(slot) == (if r {
            taken(value, generation)
        } else {
            *old(slot)
        }),
{
    let stale: bool = match slot.as_ref() {
        Some(current) => current.generation == generation && current.value.revision()
            >= value.revision(),
        None => false,
    };
    if stale {
        return false;
    }
    replace(slot, value, generation);
    true
}

pub open spec fn awaits_connection(status: Status) -> bool {
    status == Status::Connecting || status == Status::Reconnecting
}

impl Metadata {
    /// The metadata after a complete update, or `None` where it is no news.
    pub open spec fn updated(self, update: Update, generation: Generation) -> Option<Self> {
        match update {
            Update::Resources(value) => if gives_way(self.resources, value, generation) {
                Some(Metadata { resources: taken(value, generation), ..self })
            } else {
                None
            },
            Update::Presence(value) => if gives_way(self.presence, value, generation) {
                Some(Metadata { presence: taken(value, generation), ..self })
            } else {
                None
            },
            Update::Alerts(value) => if gives_way(self.alerts, value, generation) {
                Some(Metadata { alerts: taken(value, generation), ..self })
            } else {
                None
            },
            Update::Catalog(value) => if gives_way(self.catalog, value, generation) {
                Some(Metadata { catalog: taken(value, generation), ..self })
            } else {
                None
            },
            Update::Healthy => None,
        }
    }

    /// The metadata of a new connection: optional streams that it lacks keep
    /// what an earlier connection gave.
    pub open spec fn restarted(self, initial: InitialMetadata, generation: Generation) -> Self {
        Metadata {
            resources: taken(initial.resources, generation),
            presence: taken(initial.presence, generation),
            alerts: match initial.alerts {
                Some(alerts) => taken(alerts, generation),
                None => self.alerts,
            },
            catalog: match initial.catalog {
                Some(catalog) => taken(catalog, generation),
                None => self.catalog,
            },
        }
    }
}

impl Endpoint {
    /// The endpoint after an event of its machine, or `None` where the event is
    /// rejected. Only an attempt of a later connection advances the generation;
    /// every other event must belong to the current connection.
    pub open spec fn after(self, generation: Generation, kind: EventKind) -> Option<Self> {
        if self.status == Status::Disabled || self.generation.supervisor != generation.supervisor {
            None
        } else if kind is Attempt {
            if generation.connection > self.generation.connection && awaits_connection(
                self.status,
            ) {
                Some(Endpoint { generation, accepting_events: true, ..self })
            } else {
                None
            }
        } else if generation != self.generation || !self.accepting_events {
            None
        } else {
            match kind {
                EventKind::Attempt => None,
                EventKind::Connected(initial) => if awaits_connection(self.status) {
                    Some(
                        Endpoint {
                            status: Status::Ready,
                            failure: None,
                            negotiation: taken(initial.negotiation, generation),
                            metadata: self.metadata.restarted(initial, generation),
                            ..self
                        },
                    )
                } else {
                    None
                },
                EventKind::Update(update) => if self.status == Status::Ready {
                    match self.metadata.updated(update, generation) {
                        Some(metadata) => Some(Endpoint { metadata, ..self }),
                        None => None,
                    }
                } else {
                    None
                },
                EventKind::Failed(failure) => if self.status != Status::Attention {
                    Some(
                        Endpoint {
                            status: if failure.kind == FailureKind::Transient {
                                Status::Reconnecting
                            } else {
                                Status::Attention
                            },
                            accepting_events: false,
                            failure: Some(failure),
                            ..self
                        },
                    )
                } else {
                    None
                },
            }
        }
    }

    /// Applies an event; `false` where the event is rejected.
    pub fn receive(&mut self, generation: Generation, kind: EventKind) -> (r: bool)
        ensures
            match old(self).after(generation, kind) {
                Some(endpoint) => r && *final(self) == endpoint,
                None => !r && *final(self) == *old(self),
            },
    {
        if self.status == Status::Disabled || self.generation.supervisor != generation.supervisor {
            return false;
        }
        match kind {
            EventKind::Attempt => {
                if generation.connection <= self.generation.connection || !(self.status
                    == Status::Connecting || self.status == Status::Reconnecting) {
                    return false;
                }
                self.generation = generation;
                self.accepting_events = true;
                true
            },
            EventKind::Connected(initial) => {
                if generation != self.generation || !self.accepting_events {
                    return false;
                }
                if !(self.status == Status::Connecting || self.status == Status::Reconnecting) {
                    return false;
                }
                self.status = Status::Ready;
                self.failure = None;
                self.negotiation = Some(Snapshot { generation, value: initial.negotiation });
                replace(&mut self.metadata.resources, initial.resources, generation);
                replace(&mut self.metadata.presence, initial.presence, generation);
                if let Some(alerts) = initial.alerts {
                    replace(&mut self.metadata.alerts, alerts, generation);
                }
                if let Some(catalog) = initial.catalog {
                    replace(&mut self.metadata.catalog, catalog, generation);
                }
                true
            },
            EventKind::Update(update) => {
                if generation != self.generation || !self.accepting_events {
                    return false;
                }
                if self.status != Status::Ready {
                    return false;
                }
                match update {
                    Update::Resources(value) => accept(
                        &mut self.metadata.resources,
                        value,
                        generation,
                    ),
                    Update::Presence(value) => accept(
                        &mut self.metadata.presence,
                        value,
                        generation,
                    ),
                    Update::Alerts(value) => accept(&mut self.metadata.alerts, value, generation),
                    Update::Catalog(value) => accept(&mut self.metadata.catalog, value, generation),
                    Update::Healthy => false,
                }
            },
            EventKind::Failed(failure) => {
                if generation != self.generation || !self.accepting_events {
                    return false;
                }
                if self.status == Status::Attention {
                    return false;
                }
                self.status = if failure.kind == FailureKind::Transient {
                    Status::Reconnecting
                } else {
                    Status::Attention
                };
                self.accepting_events = false;
                self.failure = Some(failure);
                true
            },
        }
    }

    /// The snapshot comes from the connection that is ready now.
    pub open spec fn holds_current<T>(self, snapshot: Snapshot<T>) -> bool {
        self.status == Status::Ready && snapshot.generation == self.generation
    }

    pub fn is_current<T>(&self, snapshot: &Snapshot<T>) -> (r: bool)
        ensures
            r == self.holds_current(*snapshot),
    {
        self.status == Status::Ready && snapshot.generation == self.generation
    }

    pub fn is_stale(&self) -> (r: bool)
        ensures
            r == (self.status != Status::Ready),
    {
        self.status != Status::Ready
    }
}

// ---------------------------------------------------------------------------
// The registry

pub open spec fn sorted(entries: Seq<Endpoint>) -> bool {
    forall|i: int, j: int|
        0 <= i < j < entries.len() ==> precedes(
            (#[trigger] entries[i]).spec.key(),
            (#[trigger] entries[j]).spec.key(),
        )
}

/// The entry of a machine.
pub open spec fn lookup(entries: Seq<Endpoint>, id: MachineId) -> Option<Endpoint> {
    if exists|i: int| 0 <= i < entries.len() && (#[trigger] entries[i]).spec.key() == id {
        Some(
            entries[choose|i: int|
                0 <= i < entries.len() && (#[trigger] entries[i]).spec.key() == id],
        )
    } else {
        None
    }
}

pub proof fn lemma_lookup(entries: Seq<Endpoint>, i: int)
    requires
        sorted(entries),
        0 <= i < entries.len(),
    ensures
        lookup(entries, entries[i].spec.key()) == Some(entries[i]),
{
    let id = entries[i].spec.key();
    let k = choose|k: int| 0 <= k < entries.len() && (#[trigger] entries[k]).spec.key() == id;
    assert(entries[k].spec.key() == id);
    if k < i {
        assert(precedes(entries[k].spec.key(), entries[i].spec.key()));
    } else if i < k {
        assert(precedes(entries[i].spec.key(), entries[k].spec.key()));
    }
}

/// A snapshot of a connection up to the current one, or, where `earlier`, of one
/// before it.
pub open spec fn dated<T>(slot: Option<Snapshot<T>>, current: Generation, earlier: bool) -> bool {
    slot matches Some(snapshot) ==> snapshot.generation.connection <= current.connection && (earlier
        ==> snapshot.generation.connection < current.connection)
}

/// The current connection gave this snapshot.
pub open spec fn fresh<T>(slot: Option<Snapshot<T>>, current: Generation) -> bool {
    slot matches Some(snapshot) && snapshot.generation == current
}

impl Endpoint {
    /// What holds of every entry at all times. It is disabled exactly when its
    /// profile is; it is ready only with a negotiation and full resource and
    /// presence snapshots of the current connection; it asks for attention only
    /// with a failure that does not retry; a failure is kept only until the next
    /// success; and no snapshot is dated after the current connection, nor of it
    /// before it is ready.
    pub open spec fn coherent(self) -> bool {
        let pending = self.accepting_events && awaits_connection(self.status);
        &&& self.status == Status::Disabled <==> !self.spec.is_enabled()
        &&& self.status == Status::Ready ==> {
            &&& self.accepting_events
            &&& self.failure is None
            &&& fresh(self.negotiation, self.generation)
            &&& fresh(self.metadata.resources, self.generation)
            &&& fresh(self.metadata.presence, self.generation)
        }
        &&& self.status == Status::Attention ==> !self.accepting_events && (
        self.failure matches Some(failure) && failure.kind != FailureKind::Transient)
        &&& self.failure is Some ==> self.status == Status::Reconnecting || self.status
            == Status::Attention
        &&& dated(self.negotiation, self.generation, pending)
        &&& dated(self.metadata.resources, self.generation, pending)
        &&& dated(self.metadata.presence, self.generation, pending)
        &&& dated(self.metadata.alerts, self.generation, pending)
        &&& dated(self.metadata.catalog, self.generation, pending)
    }

    /// Every accepted event keeps an entry coherent.
    pub proof fn lemma_after_coherent(self, generation: Generation, kind: EventKind)
        requires
            self.coherent(),
        ensures
            self.after(generation, kind) matches Some(endpoint) ==> endpoint.coherent()
                && endpoint.spec == self.spec,
    {
    }
}

pub open spec fn consistent(entries: Seq<Endpoint>) -> bool {
    forall|i: int| 0 <= i < entries.len() ==> (#[trigger] entries[i]).coherent()
}

/// Read-only machine-scoped state; active identity is independent of membership.
/// Removing the active machine leaves its ID selected and `active_ready` empty.
/// Only `select_active` can change the active ID, never reconnect/reconciliation.
#[derive(Debug)]
pub struct Registry {
    endpoints: Vec<Endpoint>,
    active: MachineId,
}

impl Clone for Registry {
    /// The same entries and the same active machine.
    fn clone(&self) -> (r: Self)
        ensures
            r.entries() == self.entries(),
            r.chosen() == self.chosen(),
    {
        let endpoints = self.endpoints.clone();
        proof {
            assert(endpoints@ =~= self.endpoints@);
        }
        Registry { endpoints, active: self.active }
    }
}

impl Registry {
    /// The entries, in the order of the machines.
    pub closed spec fn entries(self) -> Seq<Endpoint> {
        self.endpoints@
    }

    pub closed spec fn chosen(self) -> MachineId {
        self.active
    }

    /// At most one entry per machine, the local machine always among them.
    pub open spec fn wf(self) -> bool {
        &&& sorted(self.entries())
        &&& consistent(self.entries())
        &&& self.lookup(MachineId::Local) is Some
    }

    pub open spec fn lookup(self, id: MachineId) -> Option<Endpoint> {
        lookup(self.entries(), id)
    }

    /// The active machine's entry while its connection is ready.
    pub open spec fn usable(self) -> Option<Endpoint> {
        match self.lookup(self.chosen()) {
            Some(endpoint) => if endpoint.status == Status::Ready {
                Some(endpoint)
            } else {
                None
            },
            None => None,
        }
    }

    /// Whether a machine can be selected, and which is selected once that was tried.
    pub open spec fn selecting(self, id: MachineId) -> (bool, MachineId) {
        if self.lookup(id) is Some {
            (true, id)
        } else {
            (false, self.chosen())
        }
    }

    fn position(&self, id: MachineId) -> (r: Option<usize>)
        ensures
            match r {
                Some(i) => i < self.entries().len() && self.entries()[i as int].spec.key() == id,
                None => self.lookup(id) is None,
            },
    {
        let mut i: usize = 0;
        while i < self.endpoints.len()
            invariant
                i <= self.endpoints.len(),
                forall|k: int|
                    0 <= k < i ==> (#[trigger] self.endpoints@[k]).spec.key() != id,
            decreases self.endpoints.len() - i,
        {
            if self.endpoints[i].spec.id() == id {
                return Some(i);
            }
            i += 1;
        }
        None
    }

    pub fn get(&self, id: MachineId) -> (r: Option<&Endpoint>)
        requires
            self.wf(),
        ensures
            match r {
                Some(endpoint) => self.lookup(id) == Some(*endpoint),
                None => self.lookup(id) is None,
            },
    {
        match self.position(id) {
            Some(i) => {
                proof {
                    lemma_lookup(self.entries(), i as int);
                }
                Some(&self.endpoints[i])
            },
            None => None,
        }
    }

    /// Every entry with its machine, in order.
    pub fn iter(&self) -> (r: Vec<(MachineId, &Endpoint)>)
        ensures
            r@.len() == self.entries().len(),
            forall|i: int|
                0 <= i < r@.len() ==> *(#[trigger] r@[i]).1 == self.entries()[i] && r@[i].0
                    == self.entries()[i].spec.key(),
    {
        let mut out: Vec<(MachineId, &Endpoint)> = Vec::new();
        let mut i: usize = 0;
        while i < self.endpoints.len()
            invariant
                i <= self.endpoints.len(),
                out@.len() == i,
                forall|k: int|
                    0 <= k < i ==> *(#[trigger] out@[k]).1 == self.entries()[k] && out@[k].0
                        == self.entries()[k].spec.key(),
            decreases self.endpoints.len() - i,
        {
            out.push((self.endpoints[i].spec.id(), &self.endpoints[i]));
            i += 1;
        }
        out
    }

    pub fn active(&self) -> (r: MachineId)
        ensures
            r == self.chosen(),
    {
        self.active
    }

    /// The active machine's entry while its connection is ready.
    pub fn active_ready(&self) -> (r: Option<&Endpoint>)
        requires
            self.wf(),
        ensures
            match r {
                Some(endpoint) => self.lookup(self.chosen()) == Some(*endpoint) && endpoint.status
                    == Status::Ready,
                None => self.lookup(self.chosen()) matches Some(endpoint) ==> endpoint.status
                    != Status::Ready,
            },
            match r {
                Some(endpoint) => self.usable() == Some(*endpoint),
                None => self.usable() is None,
            },
    {
        match self.get(self.active) {
            Some(endpoint) => if endpoint.is_stale() {
                None
            } else {
                Some(endpoint)
            },
            None => None,
        }
    }

    /// The registry's entries after an event, or `None` where it is rejected.
    pub open spec fn after(self, event: Event) -> Option<Endpoint> {
        match self.lookup(event.id) {
            Some(endpoint) => endpoint.after(event.generation, event.kind),
            None => None,
        }
    }

    /// Applies an event to the entry of its machine. A rejected event changes
    /// nothing, and no event changes another entry or the active machine.
    pub fn apply(&mut self, event: Event) -> (r: bool)
        requires
            old(self).wf(),
        ensures
            final(self).wf(),
            r == (old(self).after(event) is Some),
            !r ==> final(self).entries() == old(self).entries(),
            r ==> final(self).lookup(event.id) == old(self).after(event),
            forall|id: MachineId|
                id != event.id ==> #[trigger] final(self).lookup(id) == old(self).lookup(id),
            final(self).chosen() == old(self).chosen(),
            final(self).entries().len() == old(self).entries().len(),
    {
        match self.position(event.id) {
            None => false,
            Some(i) => {
                let ghost before = *self;
                proof {
                    lemma_lookup(self.entries(), i as int);
                }
                proof {
                    self.entries()[i as int].lemma_after_coherent(event.generation, event.kind);
                }
                let accepted: bool = self.endpoints[i].receive(event.generation, event.kind);
                proof {
                    if accepted {
                        assert(self.entries() =~= before.entries().update(
                            i as int,
                            self.entries()[i as int],
                        ));
                        lemma_entry_replaced(
                            before.entries(),
                            i as int,
                            self.entries()[i as int],
                        );
                    } else {
                        assert(self.entries() =~= before.entries());
                    }
                }
                accepted
            },
        }
    }
}

/// Replacing an entry by another of the same machine changes what is looked up of
/// that machine alone.
pub proof fn lemma_entry_replaced(entries: Seq<Endpoint>, i: int, entry: Endpoint)
    requires
        sorted(entries),
        0 <= i < entries.len(),
        entry.spec.key() == entries[i].spec.key(),
    ensures
        sorted(entries.update(i, entry)),
        lookup(entries.update(i, entry), entry.spec.key()) == Some(entry),
        forall|id: MachineId|
            id != entry.spec.key() ==> #[trigger] lookup(entries.update(i, entry), id) == lookup(
                entries,
                id,
            ),
{
    let after = entries.update(i, entry);
    assert(sorted(after));
    lemma_lookup(after, i);
    assert forall|id: MachineId| id != entry.spec.key() implies #[trigger] lookup(after, id)
        == lookup(entries, id) by {
        if exists|k: int| 0 <= k < entries.len() && (#[trigger] entries[k]).spec.key() == id {
            let k = choose|k: int|
                0 <= k < entries.len() && (#[trigger] entries[k]).spec.key() == id;
            assert(k != i);
            assert(after[k].spec.key() == id);
            lemma_lookup(entries, k);
            lemma_lookup(after, k);
        } else {
            assert forall|k: int| 0 <= k < after.len() implies (#[trigger] after[k]).spec.key()
                != id by {
                assert(entries[k].spec.key() != id);
            }
        }
    }
}

// ---------------------------------------------------------------------------
// The supervisor

/// What the caller must do to the workers. A worker runs for every enabled
/// endpoint, under the supervisor number that it was started with.
#[derive(Debug, PartialEq, Eq)]
pub enum Command {
    Abort(MachineId),
    Spawn { spec: EndpointSpec, supervisor: u64 },
}

/// No two specs are of one machine, and they stand in the order of machines.
pub open spec fn specs_sorted(specs: Seq<EndpointSpec>) -> bool {
    forall|i: int, j: int|
        0 <= i < j < specs.len() ==> precedes(
            (#[trigger] specs[i]).key(),
            (#[trigger] specs[j]).key(),
        )
}

/// `spec` at its place in an ordered list that lacks its machine.
pub open spec fn placed(specs: Seq<EndpointSpec>, spec: EndpointSpec) -> Seq<EndpointSpec>
    decreases specs.len(),
{
    if specs.len() == 0 || !precedes(spec.key(), specs.last().key()) {
        specs.push(spec)
    } else {
        placed(specs.drop_last(), spec).push(specs.last())
    }
}

/// The local machine and every saved one, in order.
pub open spec fn desired(machines: Seq<Machine>) -> Seq<EndpointSpec>
    decreases machines.len(),
{
    if machines.len() == 0 {
        seq![EndpointSpec::Local]
    } else {
        placed(desired(machines.drop_last()), EndpointSpec::Ssh(machines.last()))
    }
}

/// No two machines have one identity.
pub open spec fn distinct(machines: Seq<Machine>) -> bool {
    forall|i: int, j: int|
        0 <= i < j < machines.len() ==> (#[trigger] machines[i]).id != (#[trigger] machines[j]).id
}

/// `id` is the identity of the first machine that repeats an earlier one's.
pub open spec fn first_repeated(machines: Seq<Machine>, id: u128) -> bool {
    exists|j: int|
        0 <= j < machines.len() && (#[trigger] machines[j]).id == id && distinct(machines.take(j))
            && exists|i: int| 0 <= i < j && (#[trigger] machines[i]).id == id
}

/// A machine without history.
pub open spec fn newcomer(spec: EndpointSpec) -> Endpoint {
    Endpoint {
        spec,
        generation: Generation { supervisor: 0, connection: 0 },
        status: Status::Connecting,
        negotiation: None,
        metadata: Metadata::nothing(),
        failure: None,
        accepting_events: false,
    }
}

/// A known machine under its present profile. A stable profile ID must not make
/// the previous host's metadata look authoritative for a replacement target.
pub open spec fn refreshed(old: Endpoint, spec: EndpointSpec) -> Endpoint {
    if old.spec.targets_as(spec) {
        Endpoint { spec, ..old }
    } else {
        Endpoint { spec, negotiation: None, metadata: Metadata::nothing(), ..old }
    }
}

/// Labels are presentation only; a changed target or enabled flag replaces the
/// worker, and so does a first appearance.
pub open spec fn needs_restart(old: Option<Endpoint>, spec: EndpointSpec) -> bool {
    match old {
        Some(endpoint) => endpoint.spec.is_enabled() != spec.is_enabled()
            || !endpoint.spec.targets_as(spec),
        None => true,
    }
}

impl Endpoint {
    /// The endpoint under a new worker. The connection number stays as a
    /// watermark: the worker's connections have higher ones.
    pub open spec fn replaced(self, supervisor: u64) -> Self {
        Endpoint {
            generation: Generation { supervisor, ..self.generation },
            failure: None,
            accepting_events: false,
            status: if !self.spec.is_enabled() {
                Status::Disabled
            } else if self.metadata.resources is Some {
                Status::Reconnecting
            } else {
                Status::Connecting
            },
            ..self
        }
    }

    fn replace_worker(&mut self, supervisor: u64)
        ensures
            *final(self) == old(self).replaced(supervisor),
    {
        self.generation.supervisor = supervisor;
        self.failure = None;
        self.accepting_events = false;
        if !self.spec.enabled() {
            self.status = Status::Disabled;
            return;
        }
        self.status = if self.metadata.resources.is_some() {
            Status::Reconnecting
        } else {
            Status::Connecting
        };
    }
}

/// The entry for `spec` after reconciliation, under the worker number
/// `supervisor` where its worker is replaced.
pub open spec fn reconciled(old: Option<Endpoint>, spec: EndpointSpec, supervisor: u64) -> Endpoint {
    let endpoint = match old {
        Some(endpoint) => refreshed(endpoint, spec),
        None => newcomer(spec),
    };
    if needs_restart(old, spec) {
        endpoint.replaced(supervisor)
    } else {
        endpoint
    }
}

/// How many of the first `n` specs need their worker replaced.
pub open spec fn restarts(old: Seq<Endpoint>, specs: Seq<EndpointSpec>, n: int) -> nat
    decreases n,
{
    if n <= 0 {
        0
    } else {
        restarts(old, specs, n - 1) + if needs_restart(
            lookup(old, specs[n - 1].key()),
            specs[n - 1],
        ) {
            1nat
        } else {
            0nat
        }
    }
}

/// The counter still has a number for every worker that is replaced. One for each
/// machine is always enough.
pub open spec fn has_room(old: Seq<Endpoint>, machines: Seq<Machine>, counter: u64) -> bool {
    let specs = desired(machines);
    ||| counter + machines.len() < u64::MAX
    ||| distinct(machines) ==> counter + restarts(old, specs, specs.len() as int) <= u64::MAX
}

/// `after` holds exactly the desired machines, each reconciled with its old
/// entry; worker numbers are handed out in order, from `counter` on.
pub open spec fn entries_reconciled(
    old: Seq<Endpoint>,
    specs: Seq<EndpointSpec>,
    counter: u64,
    after: Seq<Endpoint>,
) -> bool {
    &&& after.len() == specs.len()
    &&& forall|k: int|
        0 <= k < specs.len() ==> #[trigger] after[k] == reconciled(
            lookup(old, specs[k].key()),
            specs[k],
            (counter + restarts(old, specs, k)) as u64,
        )
}

/// A worker runs for this entry.
pub open spec fn has_worker(entry: Option<Endpoint>) -> bool {
    entry matches Some(endpoint) && endpoint.spec.is_enabled()
}

pub open spec fn wanted(specs: Seq<EndpointSpec>, id: MachineId) -> bool {
    exists|i: int| 0 <= i < specs.len() && (#[trigger] specs[i]).key() == id
}

/// The workers of machines that are no longer wanted, among the first `n`
/// entries.
pub open spec fn farewells(
    old: Seq<Endpoint>,
    specs: Seq<EndpointSpec>,
    n: int,
) -> Seq<Command>
    decreases n,
{
    if n <= 0 {
        seq![]
    } else {
        let entry = old[n - 1];
        farewells(old, specs, n - 1) + if entry.spec.is_enabled() && !wanted(
            specs,
            entry.spec.key(),
        ) {
            seq![Command::Abort(entry.spec.key())]
        } else {
            seq![]
        }
    }
}

/// Stops the worker of an entry, where one runs, and starts one for an enabled
/// spec.
pub open spec fn handover(old: Option<Endpoint>, spec: EndpointSpec, supervisor: u64) -> Seq<Command> {
    (if has_worker(old) {
        seq![Command::Abort(spec.key())]
    } else {
        seq![]
    }) + (if spec.is_enabled() {
        seq![Command::Spawn { spec, supervisor }]
    } else {
        seq![]
    })
}

/// Stops an entry's worker and starts another for the same profile.
pub open spec fn relaunch(endpoint: Endpoint, supervisor: u64) -> Seq<Command> {
    seq![
        Command::Abort(endpoint.spec.key()),
        Command::Spawn { spec: endpoint.spec, supervisor },
    ]
}

/// What the first `n` specs ask of the workers.
pub open spec fn handovers(
    old: Seq<Endpoint>,
    specs: Seq<EndpointSpec>,
    counter: u64,
    n: int,
) -> Seq<Command>
    decreases n,
{
    if n <= 0 {
        seq![]
    } else {
        let spec = specs[n - 1];
        let entry = lookup(old, spec.key());
        handovers(old, specs, counter, n - 1) + if needs_restart(entry, spec) {
            handover(entry, spec, (counter + restarts(old, specs, n - 1)) as u64)
        } else {
            seq![]
        }
    }
}

proof fn lemma_placed(specs: Seq<EndpointSpec>, spec: EndpointSpec, i: int)
    requires
        0 <= i <= specs.len(),
        i == 0 || !precedes(spec.key(), specs[i - 1].key()),
        forall|k: int| i <= k < specs.len() ==> precedes(spec.key(), (#[trigger] specs[k]).key()),
    ensures
        placed(specs, spec) == specs.insert(i, spec),
    decreases specs.len(),
{
    if i == specs.len() {
        assert(specs.insert(i, spec) =~= specs.push(spec));
    } else {
        assert(precedes(spec.key(), specs.last().key()));
        lemma_placed(specs.drop_last(), spec, i);
        assert(specs.insert(i, spec) =~= specs.drop_last().insert(i, spec).push(specs.last()));
    }
}

/// The place of a machine that is not in the list yet.
spec fn place_of(specs: Seq<EndpointSpec>, spec: EndpointSpec, i: int) -> bool {
    &&& 0 <= i <= specs.len()
    &&& i == 0 || !precedes(spec.key(), specs[i - 1].key())
    &&& forall|k: int| i <= k < specs.len() ==> precedes(spec.key(), (#[trigger] specs[k]).key())
}

proof fn lemma_place_exists(specs: Seq<EndpointSpec>, spec: EndpointSpec) -> (i: int)
    requires
        specs_sorted(specs),
    ensures
        place_of(specs, spec, i),
    decreases specs.len(),
{
    if specs.len() == 0 || !precedes(spec.key(), specs.last().key()) {
        specs.len() as int
    } else {
        let i = lemma_place_exists(specs.drop_last(), spec);
        assert forall|k: int| i <= k < specs.len() implies precedes(
            spec.key(),
            (#[trigger] specs[k]).key(),
        ) by {
            if k < specs.len() - 1 {
                assert(specs.drop_last()[k] == specs[k]);
            }
        }
        i
    }
}

proof fn lemma_placed_sorted(specs: Seq<EndpointSpec>, spec: EndpointSpec)
    requires
        specs_sorted(specs),
        !wanted(specs, spec.key()),
    ensures
        specs_sorted(placed(specs, spec)),
        placed(specs, spec).len() == specs.len() + 1,
        forall|id: MachineId| #[trigger]
            wanted(placed(specs, spec), id) <==> wanted(specs, id) || id == spec.key(),
{
    let i = lemma_place_exists(specs, spec);
    lemma_placed(specs, spec, i);
    let after = specs.insert(i, spec);
    assert forall|a: int, b: int| 0 <= a < b < after.len() implies precedes(
        (#[trigger] after[a]).key(),
        (#[trigger] after[b]).key(),
    ) by {
        let x = if a < i { a } else { a - 1 };
        let y = if b < i { b } else { b - 1 };
        if a == i {
            assert(after[b] == specs[y]);
        } else if b == i {
            assert(after[a] == specs[a]);
            assert(specs[i - 1].key() != spec.key());
            if a < i - 1 {
                assert(precedes(specs[a].key(), specs[i - 1].key()));
            }
        } else {
            assert(after[a] == specs[x]);
            assert(after[b] == specs[y]);
        }
    }
    assert forall|id: MachineId| #[trigger] wanted(after, id) <==> wanted(specs, id) || id
        == spec.key() by {
        if wanted(specs, id) {
            let k = choose|k: int| 0 <= k < specs.len() && (#[trigger] specs[k]).key() == id;
            assert(after[if k < i {
                k
            } else {
                k + 1
            }] == specs[k]);
        }
        if id == spec.key() {
            assert(after[i].key() == id);
        }
        if wanted(after, id) {
            let k = choose|k: int| 0 <= k < after.len() && (#[trigger] after[k]).key() == id;
            if k != i {
                assert(after[k] == specs[if k < i {
                    k
                } else {
                    k - 1
                }]);
            }
        }
    }
}

/// The desired machines are ordered, and they are the local one and each saved
/// one.
pub proof fn lemma_desired(machines: Seq<Machine>)
    requires
        distinct(machines),
    ensures
        specs_sorted(desired(machines)),
        desired(machines).len() == machines.len() + 1,
        forall|id: MachineId| #[trigger]
            wanted(desired(machines), id) <==> id == MachineId::Local || exists|k: int|
                0 <= k < machines.len() && id == MachineId::Ssh((#[trigger] machines[k]).id),
    decreases machines.len(),
{
    if machines.len() == 0 {
        assert(desired(machines)[0].key() == MachineId::Local);
    } else {
        let rest = machines.drop_last();
        assert(distinct(rest));
        lemma_desired(rest);
        let last = EndpointSpec::Ssh(machines.last());
        assert(!wanted(desired(rest), last.key())) by {
            if wanted(desired(rest), last.key()) {
                let k = choose|k: int|
                    0 <= k < rest.len() && last.key() == MachineId::Ssh((#[trigger] rest[k]).id);
                assert(machines[k].id != machines[machines.len() - 1].id);
            }
        }
        lemma_placed_sorted(desired(rest), last);
        assert forall|id: MachineId| #[trigger] wanted(desired(machines), id) <==> id
            == MachineId::Local || exists|k: int|
            0 <= k < machines.len() && id == MachineId::Ssh((#[trigger] machines[k]).id) by {
            if exists|k: int| 0 <= k < rest.len() && id == MachineId::Ssh((#[trigger] rest[k]).id) {
                let k = choose|k: int|
                    0 <= k < rest.len() && id == MachineId::Ssh((#[trigger] rest[k]).id);
                assert(machines[k] == rest[k]);
            }
            if exists|k: int|
                0 <= k < machines.len() && id == MachineId::Ssh((#[trigger] machines[k]).id) {
                let k = choose|k: int|
                    0 <= k < machines.len() && id == MachineId::Ssh((#[trigger] machines[k]).id);
                if k < rest.len() {
                    assert(rest[k] == machines[k]);
                } else {
                    assert(id == last.key());
                }
            }
            if id == last.key() {
                assert(machines[machines.len() - 1] == machines.last());
            }
        }
    }
}

fn place(specs: &mut Vec<EndpointSpec>, spec: EndpointSpec)
    requires
        specs_sorted(old(specs)@),
    ensures
        final(specs)@ == placed(old(specs)@, spec),
{
    let id = spec.id();
    let mut i: usize = specs.len();
    while i > 0 && comes_before(id, specs[i - 1].id())
        invariant
            specs@ == old(specs)@,
            id == spec.key(),
            i <= specs.len(),
            forall|k: int|
                i <= k < specs.len() ==> precedes(spec.key(), (#[trigger] specs@[k]).key()),
        decreases i,
    {
        i -= 1;
    }
    proof {
        lemma_placed(specs@, spec, i as int);
    }
    specs.insert(i, spec);
}

fn lists(specs: &Vec<EndpointSpec>, id: MachineId) -> (r: bool)
    ensures
        r == wanted(specs@, id),
{
    let mut i: usize = 0;
    while i < specs.len()
        invariant
            i <= specs.len(),
            forall|k: int| 0 <= k < i ==> (#[trigger] specs@[k]).key() != id,
        decreases specs.len() - i,
    {
        if specs[i].id() == id {
            proof {
                assert(specs@[i as int].key() == id);
            }
            return true;
        }
        i += 1;
    }
    false
}

/// The desired machines, or the first identity that occurs twice.
fn desired_specs(machines: &Vec<Machine>) -> (r: Result<Vec<EndpointSpec>, u128>)
    ensures
        match r {
            Ok(specs) => distinct(machines@) && specs@ == desired(machines@),
            Err(id) => first_repeated(machines@, id),
        },
{
    let mut specs: Vec<EndpointSpec> = Vec::new();
    specs.push(EndpointSpec::Local);
    let mut i: usize = 0;
    proof {
        assert(specs@ =~= desired(machines@.take(0)));
    }
    while i < machines.len()
        invariant
            i <= machines.len(),
            distinct(machines@.take(i as int)),
            specs@ == desired(machines@.take(i as int)),
        decreases machines.len() - i,
    {
        let ghost seen = machines@.take(i as int);
        proof {
            lemma_desired(seen);
        }
        let spec = EndpointSpec::Ssh(machines[i].clone());
        if lists(&specs, spec.id()) {
            proof {
                let k = choose|k: int|
                    0 <= k < seen.len() && spec.key() == MachineId::Ssh((#[trigger] seen[k]).id);
                assert(machines@[k].id == machines@[i as int].id);
            }
            return Err(machines[i].id);
        }
        place(&mut specs, spec);
        proof {
            let next = machines@.take(i + 1);
            assert(next.drop_last() =~= seen);
            assert(distinct(next)) by {
                assert forall|a: int, b: int| 0 <= a < b < next.len() implies (
                #[trigger] next[a]).id != (#[trigger] next[b]).id by {
                    if b == i {
                        assert(seen[a].id == next[a].id);
                        if next[a].id == next[b].id {
                            assert(spec.key() == MachineId::Ssh(seen[a].id));
                            assert(wanted(desired(seen), spec.key()));
                        }
                    } else {
                        assert(seen[a].id != seen[b].id);
                    }
                }
            }
        }
        i += 1;
    }
    proof {
        assert(machines@.take(machines@.len() as int) =~= machines@);
    }
    Ok(specs)
}

proof fn lemma_repeated_not_distinct(machines: Seq<Machine>, id: u128)
    requires
        first_repeated(machines, id),
    ensures
        !distinct(machines),
{
    let j = choose|j: int|
        0 <= j < machines.len() && (#[trigger] machines[j]).id == id && distinct(machines.take(j))
            && exists|i: int| 0 <= i < j && (#[trigger] machines[i]).id == id;
    let i = choose|i: int| 0 <= i < j && (#[trigger] machines[i]).id == id;
    assert(machines[i].id == machines[j].id);
}

/// Where nothing was known, every spec gets a worker number.
proof fn lemma_all_restart(specs: Seq<EndpointSpec>, n: int)
    requires
        0 <= n <= specs.len(),
    ensures
        restarts(seq![], specs, n) == n,
    decreases n,
{
    if n > 0 {
        lemma_all_restart(specs, n - 1);
        assert(lookup(seq![], specs[n - 1].key()) is None);
    }
}

proof fn lemma_restarts_bound(old: Seq<Endpoint>, specs: Seq<EndpointSpec>, n: int, m: int)
    requires
        0 <= n <= m,
    ensures
        restarts(old, specs, n) <= restarts(old, specs, m) <= restarts(old, specs, n) + (m - n),
    decreases m - n,
{
    if n < m {
        lemma_restarts_bound(old, specs, n, m - 1);
    }
}

/// Taking one entry out of an ordered list leaves the others where they are
/// looked up.
proof fn lemma_entry_removed(entries: Seq<Endpoint>, i: int)
    requires
        sorted(entries),
        0 <= i < entries.len(),
    ensures
        sorted(entries.remove(i)),
        forall|id: MachineId|
            id != entries[i].spec.key() ==> #[trigger] lookup(entries.remove(i), id) == lookup(
                entries,
                id,
            ),
{
    let after = entries.remove(i);
    assert forall|a: int, b: int| 0 <= a < b < after.len() implies precedes(
        (#[trigger] after[a]).spec.key(),
        (#[trigger] after[b]).spec.key(),
    ) by {
        let x = if a < i { a } else { a + 1 };
        let y = if b < i { b } else { b + 1 };
        assert(after[a] == entries[x]);
        assert(after[b] == entries[y]);
    }
    assert forall|id: MachineId| id != entries[i].spec.key() implies #[trigger] lookup(after, id)
        == lookup(entries, id) by {
        if exists|k: int| 0 <= k < entries.len() && (#[trigger] entries[k]).spec.key() == id {
            let k = choose|k: int|
                0 <= k < entries.len() && (#[trigger] entries[k]).spec.key() == id;
            let m = if k < i { k } else { k - 1 };
            assert(after[m] == entries[k]);
            lemma_lookup(entries, k);
            lemma_lookup(after, m);
        } else {
            assert forall|m: int| 0 <= m < after.len() implies (#[trigger] after[m]).spec.key()
                != id by {
                let k = if m < i { m } else { m + 1 };
                assert(after[m] == entries[k]);
            }
        }
    }
}

/// Takes the entry of a machine out of an ordered list.
fn withdraw(entries: &mut Vec<Endpoint>, id: MachineId) -> (r: Option<Endpoint>)
    requires
        sorted(old(entries)@),
    ensures
        sorted(final(entries)@),
        r == lookup(old(entries)@, id),
        forall|other: MachineId|
            other != id ==> #[trigger] lookup(final(entries)@, other) == lookup(
                old(entries)@,
                other,
            ),
{
    let mut i: usize = 0;
    while i < entries.len()
        invariant
            entries@ == old(entries)@,
            sorted(entries@),
            i <= entries.len(),
            forall|k: int| 0 <= k < i ==> (#[trigger] entries@[k]).spec.key() != id,
        decreases entries.len() - i,
    {
        if entries[i].spec.id() == id {
            proof {
                lemma_lookup(entries@, i as int);
                lemma_entry_removed(entries@, i as int);
            }
            return Some(entries.remove(i));
        }
        i += 1;
    }
    None
}

/// Stops the workers of machines that are no longer wanted.
fn dismiss(entries: &Vec<Endpoint>, specs: &Vec<EndpointSpec>) -> (r: Vec<Command>)
    ensures
        r@ == farewells(entries@, specs@, entries@.len() as int),
{
    let mut commands: Vec<Command> = Vec::new();
    let mut i: usize = 0;
    while i < entries.len()
        invariant
            i <= entries.len(),
            commands@ == farewells(entries@, specs@, i as int),
        decreases entries.len() - i,
    {
        let id = entries[i].spec.id();
        if entries[i].spec.enabled() && !lists(specs, id) {
            commands.push(Command::Abort(id));
        }
        proof {
            assert(commands@ =~= farewells(entries@, specs@, i + 1));
        }
        i += 1;
    }
    commands
}

/// Reconciles one machine: its entry, and what the workers must do.
fn reconcile_one(
    known: Option<Endpoint>,
    spec: EndpointSpec,
    counter: &mut u64,
    commands: &mut Vec<Command>,
) -> (r: Endpoint)
    requires
        needs_restart(known, spec) ==> *old(counter) < u64::MAX,
    ensures
        r == reconciled(known, spec, *old(counter)),
        *final(counter) == *old(counter) + (if needs_restart(known, spec) {
            1int
        } else {
            0int
        }),
        final(commands)@ == old(commands)@ + (if needs_restart(known, spec) {
            handover(known, spec, *old(counter))
        } else {
            seq![]
        }),
{
    let running: bool = match known.as_ref() {
        Some(endpoint) => endpoint.spec.enabled(),
        None => false,
    };
    let (mut endpoint, restart): (Endpoint, bool) = match known {
        Some(endpoint) => {
            let same_target: bool = endpoint.spec.same_target(&spec);
            let restart: bool = endpoint.spec.enabled() != spec.enabled() || !same_target;
            let mut endpoint = endpoint;
            endpoint.spec = spec;
            if !same_target {
                endpoint.negotiation = None;
                endpoint.metadata = Metadata::default();
            }
            (endpoint, restart)
        },
        None => (
            Endpoint {
                spec,
                generation: Generation::default(),
                status: Status::Connecting,
                negotiation: None,
                metadata: Metadata::default(),
                failure: None,
                accepting_events: false,
            },
            true,
        ),
    };
    let ghost before = commands@;
    if restart {
        let supervisor: u64 = allocate(counter);
        endpoint.replace_worker(supervisor);
        if running {
            commands.push(Command::Abort(endpoint.spec.id()));
        }
        if endpoint.spec.enabled() {
            commands.push(Command::Spawn { spec: endpoint.spec.clone(), supervisor });
        }
        proof {
            assert(commands@ =~= before + handover(known, spec, *old(counter)));
        }
    } else {
        proof {
            assert(before + Seq::<Command>::empty() =~= before);
        }
    }
    endpoint
}

#[derive(Clone, Copy, Debug, PartialEq, Eq, Structural)]
pub enum SupervisorError {
    Config(ConfigFault),
    DuplicateMachine(u128),
}

impl SupervisorError {
    pub open spec fn wording(self) -> Seq<char> {
        match self {
            SupervisorError::Config(fault) => fault.wording(),
            SupervisorError::DuplicateMachine(id) => "duplicate saved machine UUID "@
                + identity::written_id(id),
        }
    }

    /// The error in words.
    pub fn text(&self) -> (r: String)
        ensures
            r@ == self.wording(),
    {
        match self {
            SupervisorError::Config(fault) => fault.text().to_owned(),
            SupervisorError::DuplicateMachine(id) =>
                "duplicate saved machine UUID ".to_owned().concat(write_id(*id).as_str()),
        }
    }
}

/// Reconciled entries are ordered as the specs are, and consistent.
proof fn lemma_reconciled_wf(
    old: Seq<Endpoint>,
    specs: Seq<EndpointSpec>,
    counter: u64,
    after: Seq<Endpoint>,
)
    requires
        sorted(old),
        consistent(old),
        specs_sorted(specs),
        wanted(specs, MachineId::Local),
        entries_reconciled(old, specs, counter, after),
    ensures
        sorted(after),
        consistent(after),
        lookup(after, MachineId::Local) is Some,
{
    assert forall|k: int| 0 <= k < after.len() implies (#[trigger] after[k]).spec == specs[k]
        && after[k].coherent() by {
        let known = lookup(old, specs[k].key());
        if known is Some {
            let i = choose|i: int|
                0 <= i < old.len() && (#[trigger] old[i]).spec.key() == specs[k].key();
            assert(known == Some(old[i]));
        }
    }
    assert forall|i: int, j: int| 0 <= i < j < after.len() implies precedes(
        (#[trigger] after[i]).spec.key(),
        (#[trigger] after[j]).spec.key(),
    ) by {
        assert(precedes(specs[i].key(), specs[j].key()));
    }
    let i = choose|i: int| 0 <= i < specs.len() && (#[trigger] specs[i]).key() == MachineId::Local;
    assert(after[i].spec.key() == MachineId::Local);
}

#[derive(Debug)]
pub struct Supervisor {
    registry: Registry,
    config: Config,
}

impl Supervisor {
    pub closed spec fn state(self) -> Registry {
        self.registry
    }

    pub closed spec fn settings(self) -> Config {
        self.config
    }

    pub open spec fn wf(self) -> bool {
        self.state().wf()
    }

    pub fn registry(&self) -> (r: &Registry)
        ensures
            *r == self.state(),
    {
        &self.registry
    }

    pub fn config(&self) -> (r: Config)
        ensures
            r == self.settings(),
    {
        self.config
    }

    /// Starts the local machine plus every enabled saved machine. Disabled saved
    /// profiles remain visible but never get a worker.
    pub fn new(machines: &Vec<Machine>, config: Config, counter: &mut u64) -> (r: Result<
        (Self, Vec<Command>),
        SupervisorError,
    >)
        requires
            config.fault() is None ==> has_room(seq![], machines@, *old(counter)),
        ensures
            match r {
                Ok((supervisor, commands)) => {
                    &&& config.fault() is None
                    &&& distinct(machines@)
                    &&& supervisor.wf()
                    &&& supervisor.settings() == config
                    &&& supervisor.state().chosen() == MachineId::Local
                    &&& entries_reconciled(
                        seq![],
                        desired(machines@),
                        *old(counter),
                        supervisor.state().entries(),
                    )
                    &&& commands@ == handovers(
                        seq![],
                        desired(machines@),
                        *old(counter),
                        desired(machines@).len() as int,
                    )
                    &&& *final(counter) == *old(counter) + desired(machines@).len()
                },
                Err(error) => *final(counter) == *old(counter) && match config.fault() {
                    Some(fault) => error == SupervisorError::Config(fault),
                    None => error matches SupervisorError::DuplicateMachine(id) && first_repeated(
                        machines@,
                        id,
                    ),
                },
            },
            r is Ok <==> config.fault() is None && distinct(machines@),
    {
        match config.validate() {
            Err(fault) => Err(SupervisorError::Config(fault)),
            Ok(()) => {
                let mut supervisor = Supervisor {
                    registry: Registry { endpoints: Vec::new(), active: MachineId::Local },
                    config,
                };
                let outcome = supervisor.reconcile_entries(machines, counter);
                match outcome {
                    Err(id) => {
                        proof {
                            lemma_repeated_not_distinct(machines@, id);
                        }
                        Err(SupervisorError::DuplicateMachine(id))
                    },
                    Ok(commands) => {
                        proof {
                            lemma_all_restart(desired(machines@), desired(machines@).len() as int);
                            assert(farewells(seq![], desired(machines@), 0)
                                + handovers(
                                seq![],
                                desired(machines@),
                                *old(counter),
                                desired(machines@).len() as int,
                            ) =~= handovers(
                                seq![],
                                desired(machines@),
                                *old(counter),
                                desired(machines@).len() as int,
                            ));
                        }
                        Ok((supervisor, commands))
                    },
                }
            },
        }
    }

    /// Brings the entries in line with the saved machines. An identity that
    /// occurs twice rejects the whole list before anything changes.
    fn reconcile_entries(&mut self, machines: &Vec<Machine>, counter: &mut u64) -> (r: Result<
        Vec<Command>,
        u128,
    >)
        requires
            sorted(old(self).state().entries()),
            consistent(old(self).state().entries()),
            has_room(old(self).state().entries(), machines@, *old(counter)),
        ensures
            final(self).settings() == old(self).settings(),
            final(self).state().chosen() == old(self).state().chosen(),
            match r {
                Ok(commands) => {
                    let entries = old(self).state().entries();
                    let specs = desired(machines@);
                    &&& distinct(machines@)
                    &&& final(self).wf()
                    &&& entries_reconciled(
                        entries,
                        specs,
                        *old(counter),
                        final(self).state().entries(),
                    )
                    &&& commands@ == farewells(entries, specs, entries.len() as int) + handovers(
                        entries,
                        specs,
                        *old(counter),
                        specs.len() as int,
                    )
                    &&& *final(counter) == *old(counter) + restarts(
                        entries,
                        specs,
                        specs.len() as int,
                    )
                },
                Err(id) => {
                    &&& first_repeated(machines@, id)
                    &&& final(self).state().entries() == old(self).state().entries()
                    &&& *final(counter) == *old(counter)
                },
            },
    {
        let specs = match desired_specs(machines) {
            Ok(specs) => specs,
            Err(id) => {
                return Err(id);
            },
        };
        proof {
            lemma_desired(machines@);
        }
        let mut known: Vec<Endpoint> = Vec::new();
        std::mem::swap(&mut known, &mut self.registry.endpoints);
        let ghost entries = known@;
        let ghost start = *counter;
        proof {
            lemma_restarts_bound(entries, specs@, 0, specs@.len() as int);
        }
        let mut commands = dismiss(&known, &specs);
        let ghost goodbye = commands@;
        let mut next: Vec<Endpoint> = Vec::new();
        let mut k: usize = 0;
        proof {
            assert(goodbye + handovers(entries, specs@, start, 0) =~= goodbye);
        }
        while k < specs.len()
            invariant
                k <= specs.len(),
                specs@ == desired(machines@),
                specs@.len() == machines@.len() + 1,
                specs_sorted(specs@),
                sorted(known@),
                consistent(entries),
                sorted(entries),
                start + restarts(entries, specs@, specs@.len() as int) <= u64::MAX,
                *counter == start + restarts(entries, specs@, k as int),
                next@.len() == k,
                forall|j: int|
                    0 <= j < k ==> #[trigger] next@[j] == reconciled(
                        lookup(entries, specs@[j].key()),
                        specs@[j],
                        (start + restarts(entries, specs@, j)) as u64,
                    ),
                forall|j: int|
                    k <= j < specs@.len() ==> lookup(known@, (#[trigger] specs@[j]).key())
                        == lookup(entries, specs@[j].key()),
                commands@ == goodbye + handovers(entries, specs@, start, k as int),
            decreases specs.len() - k,
        {
            proof {
                lemma_restarts_bound(entries, specs@, k as int, specs@.len() as int);
                lemma_restarts_bound(entries, specs@, k + 1, specs@.len() as int);
                assert(specs@[k as int].key() == specs@[k as int].key());
            }
            let spec = specs[k].clone();
            let found = withdraw(&mut known, spec.id());
            let endpoint = reconcile_one(found, spec, counter, &mut commands);
            proof {
                assert(commands@ =~= goodbye + handovers(entries, specs@, start, k + 1));
                assert forall|j: int| k + 1 <= j < specs@.len() implies lookup(
                    known@,
                    (#[trigger] specs@[j]).key(),
                ) == lookup(entries, specs@[j].key()) by {
                    assert(precedes(specs@[k as int].key(), specs@[j].key()));
                }
            }
            next.push(endpoint);
            k += 1;
        }
        self.registry.endpoints = next;
        proof {
            lemma_reconciled_wf(entries, specs@, start, self.registry.entries());
        }
        Ok(commands)
    }

    /// Applies a complete, already validated saved-machine catalog. Duplicate
    /// identities reject the entire reconciliation before changing anything.
    /// Labels are presentation only; changing a target or enabled flag replaces
    /// the worker.
    pub fn reconcile(&mut self, machines: &Vec<Machine>, counter: &mut u64) -> (r: Result<
        Vec<Command>,
        SupervisorError,
    >)
        requires
            old(self).wf(),
            has_room(old(self).state().entries(), machines@, *old(counter)),
        ensures
            final(self).wf(),
            final(self).settings() == old(self).settings(),
            final(self).state().chosen() == old(self).state().chosen(),
            match r {
                Ok(commands) => {
                    let entries = old(self).state().entries();
                    let specs = desired(machines@);
                    &&& entries_reconciled(
                        entries,
                        specs,
                        *old(counter),
                        final(self).state().entries(),
                    )
                    &&& commands@ == farewells(entries, specs, entries.len() as int) + handovers(
                        entries,
                        specs,
                        *old(counter),
                        specs.len() as int,
                    )
                    &&& *final(counter) == *old(counter) + restarts(
                        entries,
                        specs,
                        specs.len() as int,
                    )
                },
                Err(error) => {
                    &&& (error matches SupervisorError::DuplicateMachine(id) && first_repeated(
                        machines@,
                        id,
                    ))
                    &&& final(self).state().entries() == old(self).state().entries()
                    &&& *final(counter) == *old(counter)
                },
            },
            r is Ok <==> distinct(machines@),
    {
        match self.reconcile_entries(machines, counter) {
            Ok(commands) => Ok(commands),
            Err(id) => {
                proof {
                    lemma_repeated_not_distinct(machines@, id);
                }
                Err(SupervisorError::DuplicateMachine(id))
            },
        }
    }

    /// Explicitly retries an Attention endpoint, or reconnects a live one. An
    /// unknown or disabled machine is left alone.
    pub fn restart(&mut self, id: MachineId, counter: &mut u64) -> (r: Option<Vec<Command>>)
        requires
            old(self).wf(),
            has_worker(old(self).state().lookup(id)) ==> *old(counter) < u64::MAX,
        ensures
            final(self).wf(),
            final(self).settings() == old(self).settings(),
            final(self).state().chosen() == old(self).state().chosen(),
            forall|other: MachineId|
                other != id ==> #[trigger] final(self).state().lookup(other) == old(
                    self,
                ).state().lookup(other),
            r is Some <==> has_worker(old(self).state().lookup(id)),
            match r {
                Some(commands) => {
                    let endpoint = old(self).state().lookup(id)->0;
                    &&& final(self).state().lookup(id) == Some(endpoint.replaced(*old(counter)))
                    &&& commands@ == seq![
                        Command::Abort(id),
                        Command::Spawn { spec: endpoint.spec, supervisor: *old(counter) },
                    ]
                    &&& commands@ == relaunch(endpoint, *old(counter))
                    &&& *final(counter) == *old(counter) + 1
                },
                None => final(self).state().entries() == old(self).state().entries()
                    && *final(counter) == *old(counter),
            },
    {
        match self.registry.position(id) {
            None => None,
            Some(i) => {
                let ghost before = self.registry.entries();
                proof {
                    lemma_lookup(before, i as int);
                }
                if !self.registry.endpoints[i].spec.enabled() {
                    return None;
                }
                let supervisor: u64 = allocate(counter);
                self.registry.endpoints[i].replace_worker(supervisor);
                proof {
                    let after = self.registry.entries();
                    assert(after =~= before.update(i as int, after[i as int]));
                    lemma_entry_replaced(before, i as int, after[i as int]);
                }
                let mut commands: Vec<Command> = Vec::new();
                commands.push(Command::Abort(id));
                commands.push(
                    Command::Spawn { spec: self.registry.endpoints[i].spec.clone(), supervisor },
                );
                proof {
                    assert(commands@ =~= seq![
                        Command::Abort(id),
                        Command::Spawn { spec: before[i as int].spec, supervisor },
                    ]);
                }
                Some(commands)
            },
        }
    }

    /// May explicitly select a disabled or unavailable saved profile. Returns
    /// false for an unknown identity; it never silently falls back to Local.
    pub fn select_active(&mut self, id: MachineId) -> (r: bool)
        requires
            old(self).wf(),
        ensures
            final(self).wf(),
            r == (old(self).state().lookup(id) is Some),
            (r, final(self).state().chosen()) == old(self).state().selecting(id),
            final(self).state().entries() == old(self).state().entries(),
            final(self).settings() == old(self).settings(),
            final(self).state().chosen() == (if r {
                id
            } else {
                old(self).state().chosen()
            }),
    {
        match self.registry.position(id) {
            Some(i) => {
                proof {
                    lemma_lookup(self.registry.entries(), i as int);
                }
                self.registry.active = id;
                true
            },
            None => false,
        }
    }

    /// Applies a worker's event; the machine affected, where it was accepted.
    /// Rejected stale events never produce a notification.
    pub fn receive(&mut self, event: Event) -> (r: Option<MachineId>)
        requires
            old(self).wf(),
        ensures
            final(self).wf(),
            r == (if old(self).state().after(event) is Some {
                Some(event.id)
            } else {
                None
            }),
            r is None ==> final(self).state().entries() == old(self).state().entries(),
            r is Some ==> final(self).state().lookup(event.id) == old(self).state().after(event),
            forall|id: MachineId|
                id != event.id ==> #[trigger] final(self).state().lookup(id) == old(
                    self,
                ).state().lookup(id),
            final(self).state().chosen() == old(self).state().chosen(),
            final(self).settings() == old(self).settings(),
    {
        let id = event.id;
        if self.registry.apply(event) {
            Some(id)
        } else {
            None
        }
    }
}

} // verus!
