//! Endpoint supervision: the registry, the supervisor and the workers together.

use std::collections::BTreeMap;

use fut::client::federation::{
    accept, allocate, Command, Config, ConfigFault, EndpointSpec, Event, EventKind, Failure,
    FailureKind, Generation, InitialMetadata, MachineId, Negotiation, Snapshot, Status, Supervisor,
    SupervisorError, Update,
};
use fut::client::service::{poll_interval, CatalogWatch, Opening, Reading};
use fut::client::worker::{Action, Cause, Report, Signal, Worker};
use fut::duration::Duration;
use fut::machines::Machine;
use fut::protocol::{
    Capabilities, ClientAlertSnapshot, ClientPresenceSnapshot, ExtensionCatalog, ResourceSnapshot,
};

/// Carries out what the supervisor and its workers ask for, without waiting.
struct Harness {
    supervisor: Supervisor,
    supervisors: u64,
    connections: u64,
    workers: BTreeMap<MachineId, Worker>,
    waiting: BTreeMap<MachineId, Action>,
}

impl Harness {
    fn new(machines: &[Machine]) -> Self {
        let mut supervisors = 1;
        let (supervisor, commands) =
            Supervisor::new(&machines.to_vec(), config(), &mut supervisors).unwrap();
        let mut harness = Harness {
            supervisor,
            supervisors,
            connections: 1,
            workers: BTreeMap::new(),
            waiting: BTreeMap::new(),
        };
        harness.obey(commands);
        harness
    }

    fn obey(&mut self, commands: Vec<Command>) {
        for command in commands {
            match command {
                Command::Abort(id) => {
                    assert!(self.workers.remove(&id).is_some());
                    self.waiting.remove(&id);
                }
                Command::Spawn { spec, supervisor } => {
                    let id = spec.id();
                    let (worker, action) =
                        Worker::new(spec, supervisor, self.supervisor.config());
                    assert!(self.workers.insert(id, worker).is_none());
                    self.drive(id, action);
                }
            }
        }
    }

    fn drive(&mut self, id: MachineId, first: Action) {
        let mut action = first;
        loop {
            let signal = match action {
                Action::Allocate => Signal::Begin(allocate(&mut self.connections)),
                Action::Send { generation, report } => {
                    self.supervisor.receive(report.event(id, generation));
                    Signal::Sent
                }
                Action::Close => Signal::Closed,
                waiting => {
                    self.waiting.insert(id, waiting);
                    return;
                }
            };
            action = self.workers.get_mut(&id).unwrap().step(signal).unwrap();
        }
    }

    fn signal(&mut self, id: MachineId, signal: Signal) {
        let action = self.workers.get_mut(&id).unwrap().step(signal).unwrap();
        self.drive(id, action);
    }

    fn reconcile(&mut self, machines: &[Machine]) -> Result<(), SupervisorError> {
        let commands = self
            .supervisor
            .reconcile(&machines.to_vec(), &mut self.supervisors)?;
        self.obey(commands);
        Ok(())
    }

    fn restart(&mut self, id: MachineId) -> bool {
        match self.supervisor.restart(id, &mut self.supervisors) {
            Some(commands) => {
                self.obey(commands);
                true
            }
            None => false,
        }
    }

    fn status(&self, id: MachineId) -> Status {
        self.supervisor.registry().get(id).unwrap().status
    }

    fn generation(&self, id: MachineId) -> Generation {
        self.supervisor.registry().get(id).unwrap().generation
    }

    fn revision(&self, id: MachineId) -> u64 {
        let endpoint = self.supervisor.registry().get(id).unwrap();
        endpoint.metadata.resources.as_ref().unwrap().value.revision
    }

    fn apply(&mut self, id: MachineId, generation: Generation, kind: EventKind) -> bool {
        self.supervisor
            .receive(Event { id, generation, kind })
            .is_some()
    }

    fn connects(&self, id: MachineId) -> bool {
        matches!(self.waiting.get(&id), Some(Action::Connect { .. }))
    }

    fn ready(&mut self, id: MachineId, revision: u64) {
        assert!(self.connects(id));
        self.signal(id, Signal::Connected(initial(revision)));
        assert_eq!(self.status(id), Status::Ready);
    }
}

fn initial(revision: u64) -> InitialMetadata {
    InitialMetadata {
        negotiation: Negotiation::Local { protocol_version: 22 },
        resources: resources(revision),
        presence: presence(revision),
        alerts: Some(alerts(revision)),
        catalog: Some(catalog(revision)),
    }
}

fn resources(revision: u64) -> ResourceSnapshot {
    ResourceSnapshot { revision, sessions: String::new() }
}

fn presence(revision: u64) -> ClientPresenceSnapshot {
    ClientPresenceSnapshot { revision, sessions: String::new() }
}

fn alerts(revision: u64) -> ClientAlertSnapshot {
    ClientAlertSnapshot { revision, terminals: String::new() }
}

fn catalog(generation: u64) -> ExtensionCatalog {
    ExtensionCatalog {
        generation,
        fingerprint: format!("catalog-{generation}"),
        extensions: String::new(),
        config: String::new(),
    }
}

fn machine(n: u128) -> Machine {
    Machine {
        id: n,
        label: format!("machine-{n}"),
        target: format!("host-{n}"),
        enabled: true,
    }
}

fn config() -> Config {
    Config {
        retry_initial: Duration::from_secs(1),
        retry_max: Duration::from_secs(8),
        connect_timeout: Duration::from_secs(101),
        health_interval: Duration::from_secs(103),
        health_timeout: Duration::from_secs(107),
        event_capacity: 16,
    }
}

#[test]
fn partial_startup_and_stalled_endpoint_do_not_block_other_machines() {
    let remote = machine(1);
    let mut disabled = machine(2);
    disabled.enabled = false;
    let remote_id = MachineId::Ssh(remote.id);
    let disabled_id = MachineId::Ssh(disabled.id);
    let mut harness = Harness::new(&[remote, disabled]);
    assert!(harness.connects(remote_id));
    harness.ready(MachineId::Local, 40);
    assert!(!harness.workers.contains_key(&disabled_id));
    assert_eq!(harness.supervisor.registry().iter().len(), 3);
    assert_eq!(harness.status(remote_id), Status::Connecting);
    assert_eq!(harness.status(disabled_id), Status::Disabled);
    harness.signal(
        MachineId::Local,
        Signal::Received(Update::Resources(resources(41))),
    );
    let active = harness.supervisor.registry().active_ready().unwrap();
    assert_eq!(active.metadata.resources.as_ref().unwrap().value.revision, 41);
    harness.ready(remote_id, 3);
    assert_eq!(harness.revision(remote_id), 3);
    assert_eq!(harness.supervisor.registry().active(), MachineId::Local);
}

#[test]
fn eof_retains_stale_metadata_and_reconnect_resets_all_revisions() {
    let mut harness = Harness::new(&[]);
    let id = MachineId::Local;
    harness.ready(id, 90);
    let old = harness.generation(id);
    harness.signal(id, Signal::EndOfStream);
    assert_eq!(harness.status(id), Status::Reconnecting);
    let endpoint = harness.supervisor.registry().get(id).unwrap();
    assert!(endpoint.is_stale());
    assert!(!endpoint.is_current(endpoint.metadata.resources.as_ref().unwrap()));
    assert!(harness.supervisor.registry().active_ready().is_none());
    assert_eq!(harness.revision(id), 90);
    // Even an event tagged with the just-disconnected connection is closed.
    assert!(!harness.apply(id, old, EventKind::Connected(initial(100))));
    assert!(!harness.apply(
        id,
        old,
        EventKind::Update(Update::Resources(resources(100)))
    ));
    assert!(matches!(harness.waiting[&id], Action::Sleep(span) if span == config().retry_initial));
    harness.signal(id, Signal::Waited);
    harness.ready(id, 0);
    let endpoint = harness.supervisor.registry().get(id).unwrap();
    let new = endpoint.generation;
    assert_eq!(old.supervisor, new.supervisor);
    assert!(new.connection > old.connection);
    assert_eq!(endpoint.metadata.resources.as_ref().unwrap().value.revision, 0);
    assert_eq!(endpoint.metadata.presence.as_ref().unwrap().value.revision, 0);
    assert_eq!(endpoint.metadata.alerts.as_ref().unwrap().value.revision, 0);
    assert_eq!(endpoint.metadata.catalog.as_ref().unwrap().value.generation, 0);
    assert!(endpoint.is_current(endpoint.metadata.resources.as_ref().unwrap()));
    assert!(!harness.apply(
        id,
        old,
        EventKind::Failed(Failure::transient("late EOF"))
    ));
    assert!(!harness.apply(id, old, EventKind::Attempt));
    assert!(!harness.apply(id, old, EventKind::Update(Update::Catalog(catalog(100)))));
    for update in [
        Update::Resources(resources(1)),
        Update::Presence(presence(1)),
        Update::Alerts(alerts(1)),
        Update::Catalog(catalog(1)),
    ] {
        assert!(harness.apply(id, new, EventKind::Update(update)));
    }
    for update in [
        Update::Resources(resources(0)),
        Update::Presence(presence(0)),
        Update::Alerts(alerts(0)),
        Update::Catalog(catalog(0)),
        Update::Resources(resources(1)),
        Update::Healthy,
    ] {
        assert!(!harness.apply(id, new, EventKind::Update(update)));
    }
    assert_eq!(harness.supervisor.registry().active(), id);
}

#[test]
fn missing_optional_snapshots_remain_explicitly_stale_after_reconnect() {
    let mut harness = Harness::new(&[]);
    let id = MachineId::Local;
    harness.ready(id, 90);
    assert!(harness.restart(id));
    let mut metadata = initial(0);
    metadata.alerts = None;
    metadata.catalog = None;
    assert!(harness.connects(id));
    harness.signal(id, Signal::Connected(metadata));
    assert_eq!(harness.status(id), Status::Ready);
    let endpoint = harness.supervisor.registry().get(id).unwrap();
    assert!(endpoint.is_current(endpoint.metadata.resources.as_ref().unwrap()));
    assert!(!endpoint.is_current(endpoint.metadata.alerts.as_ref().unwrap()));
    assert!(!endpoint.is_current(endpoint.metadata.catalog.as_ref().unwrap()));
    let generation = endpoint.generation;
    assert!(harness.apply(
        id,
        generation,
        EventKind::Update(Update::Alerts(alerts(0)))
    ));
    assert!(harness.apply(
        id,
        generation,
        EventKind::Update(Update::Catalog(catalog(0)))
    ));
    let endpoint = harness.supervisor.registry().get(id).unwrap();
    assert!(endpoint.is_current(endpoint.metadata.alerts.as_ref().unwrap()));
    assert!(endpoint.is_current(endpoint.metadata.catalog.as_ref().unwrap()));
}

#[test]
fn catalog_reconciles_identity_rename_target_disable_remove_and_readd() {
    let mut machine = machine(1);
    let id = MachineId::Ssh(machine.id);
    let mut harness = Harness::new(std::slice::from_ref(&machine));
    harness.ready(MachineId::Local, 7);
    harness.ready(id, 7);
    assert!(harness.supervisor.select_active(id));
    let old = harness.generation(id);
    machine.label = "renamed".into();
    harness.reconcile(std::slice::from_ref(&machine)).unwrap();
    assert_eq!(harness.generation(id), old);
    assert_eq!(
        harness.supervisor.registry().get(id).unwrap().spec,
        EndpointSpec::Ssh(machine.clone())
    );
    assert!(!harness.connects(id));
    machine.target = "other-target".into();
    harness.reconcile(std::slice::from_ref(&machine)).unwrap();
    let new = harness.generation(id);
    assert!(new.supervisor > old.supervisor);
    assert!(harness.supervisor.registry().active_ready().is_none());
    let endpoint = harness.supervisor.registry().get(id).unwrap();
    assert!(endpoint.metadata.resources.is_none());
    assert_eq!(harness.supervisor.registry().active(), id);
    assert!(!harness.apply(
        id,
        old,
        EventKind::Update(Update::Resources(resources(100)))
    ));
    assert!(
        matches!(&harness.waiting[&id], Action::Connect { spec, .. } if *spec == EndpointSpec::Ssh(machine.clone()))
    );
    harness.ready(id, 0);
    assert!(harness.generation(id).connection > old.connection);
    let before_disable = harness.generation(id);
    machine.enabled = false;
    harness.reconcile(std::slice::from_ref(&machine)).unwrap();
    assert_eq!(harness.status(id), Status::Disabled);
    assert!(!harness.restart(id));
    assert!(!harness.apply(id, before_disable, EventKind::Connected(initial(100))));
    assert_eq!(harness.supervisor.registry().active(), id);
    harness.reconcile(&[]).unwrap();
    assert!(harness.supervisor.registry().get(id).is_none());
    assert_eq!(harness.supervisor.registry().active(), id);
    assert!(harness.supervisor.registry().active_ready().is_none());
    assert!(!harness.apply(id, before_disable, EventKind::Attempt));
    machine.enabled = true;
    harness.reconcile(std::slice::from_ref(&machine)).unwrap();
    assert_eq!(harness.supervisor.registry().active(), id);
    let endpoint = harness.supervisor.registry().get(id).unwrap();
    assert!(endpoint.metadata.resources.is_none());
    harness.ready(id, 0);
    assert!(harness.generation(id).supervisor > before_disable.supervisor);
    assert!(harness.supervisor.registry().active_ready().is_some());
    assert!(!harness.supervisor.select_active(MachineId::Ssh(999)));
    assert_eq!(harness.supervisor.registry().active(), id);
    assert!(harness.supervisor.select_active(MachineId::Local));
}

#[test]
fn duplicate_catalog_is_rejected_atomically_and_disable_cancels_connect() {
    let machine = machine(1);
    let id = MachineId::Ssh(machine.id);
    let mut harness = Harness::new(std::slice::from_ref(&machine));
    let before = harness.generation(id);
    let mut duplicate = machine.clone();
    duplicate.target = "changed".into();
    let error = harness
        .reconcile(&[machine.clone(), duplicate])
        .unwrap_err();
    assert_eq!(error, SupervisorError::DuplicateMachine(1));
    assert_eq!(
        error.text(),
        "duplicate saved machine UUID 00000000-0000-0000-0000-000000000001"
    );
    assert_eq!(harness.generation(id), before);
    assert_eq!(
        harness.supervisor.registry().get(id).unwrap().spec,
        EndpointSpec::Ssh(machine.clone())
    );
    assert!(harness.connects(id));
    let mut disabled = machine;
    disabled.enabled = false;
    harness.reconcile(&[disabled]).unwrap();
    assert!(!harness.workers.contains_key(&id));
    assert_eq!(harness.status(id), Status::Disabled);
    assert!(!harness.apply(id, before, EventKind::Failed(Failure::transient("late"))));
}

#[test]
fn connect_timeout_and_immediate_eof_backoff_are_capped() {
    let mut harness = Harness::new(&[]);
    let id = MachineId::Local;
    assert!(
        matches!(harness.waiting[&id], Action::Connect { within, .. } if within == config().connect_timeout)
    );
    harness.signal(id, Signal::TimedOut);
    assert_eq!(harness.status(id), Status::Reconnecting);
    let endpoint = harness.supervisor.registry().get(id).unwrap();
    assert_eq!(
        endpoint.failure.as_ref().unwrap().message,
        "endpoint connection timed out"
    );
    let mut previous = harness.generation(id).connection;
    for seconds in [1, 2, 4, 8, 8] {
        assert!(
            matches!(harness.waiting[&id], Action::Sleep(span) if span == Duration::from_secs(seconds))
        );
        harness.signal(id, Signal::Waited);
        harness.ready(id, 0);
        let generation = harness.generation(id).connection;
        assert!(generation > previous);
        previous = generation;
        harness.signal(id, Signal::EndOfStream);
        assert_eq!(harness.status(id), Status::Reconnecting);
    }
}

#[test]
fn attention_failures_require_explicit_restart_and_preserve_active_identity() {
    let mut harness = Harness::new(&[]);
    let id = MachineId::Local;
    for kind in [
        FailureKind::HostKey,
        FailureKind::Authentication,
        FailureKind::Installation,
        FailureKind::Compatibility,
    ] {
        assert!(harness.connects(id));
        harness.signal(
            id,
            Signal::ConnectFailed(Failure { kind, message: "repair interactively".into() }),
        );
        assert_eq!(harness.status(id), Status::Attention);
        let endpoint = harness.supervisor.registry().get(id).unwrap();
        assert_eq!(endpoint.failure.as_ref().unwrap().kind, kind);
        assert!(endpoint.is_stale());
        assert!(matches!(harness.waiting[&id], Action::Stop));
        assert_eq!(harness.supervisor.registry().active(), MachineId::Local);
        assert!(harness.restart(id));
    }
}

#[test]
fn health_deadline_survives_metadata_traffic_and_pong_resets_backoff() {
    let mut harness = Harness::new(&[]);
    let id = MachineId::Local;
    harness.signal(id, Signal::ConnectFailed(Failure::transient("offline")));
    assert_eq!(harness.status(id), Status::Reconnecting);
    harness.signal(id, Signal::Waited);
    harness.ready(id, 0);
    assert!(
        matches!(harness.waiting[&id], Action::Read { timer: Some(span) } if span == config().health_interval)
    );
    harness.signal(id, Signal::TimerFired);
    assert!(
        matches!(harness.waiting[&id], Action::Ping { within } if within == config().health_timeout)
    );
    harness.signal(id, Signal::Pinged);
    assert!(
        matches!(harness.waiting[&id], Action::Read { timer: Some(span) } if span == config().health_timeout)
    );
    harness.signal(id, Signal::Received(Update::Healthy));
    assert!(
        matches!(harness.waiting[&id], Action::Read { timer: Some(span) } if span == config().health_interval)
    );
    harness.signal(id, Signal::TimerFired);
    harness.signal(id, Signal::Pinged);
    harness.signal(id, Signal::Received(Update::Resources(resources(1))));
    assert!(matches!(harness.waiting[&id], Action::Read { timer: None }));
    assert_eq!(harness.revision(id), 1);
    harness.signal(id, Signal::TimerFired);
    assert_eq!(harness.status(id), Status::Reconnecting);
    let endpoint = harness.supervisor.registry().get(id).unwrap();
    assert!(endpoint
        .failure
        .as_ref()
        .unwrap()
        .message
        .contains("health"));
    // The response to the first probe has reset the backoff.
    assert!(matches!(harness.waiting[&id], Action::Sleep(span) if span == config().retry_initial));
    harness.signal(id, Signal::Waited);
    assert!(harness.connects(id));
}

#[test]
fn remote_without_health_still_receives_metadata_and_eof() {
    let machine = machine(1);
    let id = MachineId::Ssh(machine.id);
    let mut harness = Harness::new(&[machine]);
    let mut metadata = initial(0);
    metadata.negotiation = Negotiation::Ssh {
        protocol_generation: 1,
        server_version: "test".into(),
        capabilities: Capabilities::default(),
    };
    harness.signal(id, Signal::Connected(metadata));
    assert_eq!(harness.status(id), Status::Ready);
    harness.signal(id, Signal::Received(Update::Catalog(catalog(1))));
    let endpoint = harness.supervisor.registry().get(id).unwrap();
    assert_eq!(endpoint.metadata.catalog.as_ref().unwrap().value.generation, 1);
    assert!(matches!(harness.waiting[&id], Action::Read { timer: None }));
    harness.signal(id, Signal::EndOfStream);
    assert_eq!(harness.status(id), Status::Reconnecting);
    let endpoint = harness.supervisor.registry().get(id).unwrap();
    assert_eq!(
        endpoint.failure.as_ref().unwrap().message,
        "endpoint disconnected (EOF)"
    );
    assert_eq!(harness.status(MachineId::Local), Status::Connecting);
}

#[test]
fn backoff_and_configuration_are_bounded() {
    let settings = config();
    settings.validate().unwrap();
    assert_eq!(settings.retry_delay(u32::MAX), settings.retry_max);
    let tiny = Config { retry_initial: Duration::from_nanos(1), ..settings.clone() };
    assert_eq!(tiny.retry_delay(u32::MAX), tiny.retry_max);
    assert!(Config { event_capacity: 0, ..settings.clone() }.validate().is_err());
    assert!(Config { retry_initial: Duration::zero(), ..settings.clone() }.validate().is_err());
    assert!(Config { retry_max: Duration::from_nanos(1), ..settings.clone() }.validate().is_err());
    assert!(Config { health_timeout: Duration::zero(), ..settings }.validate().is_err());
}

#[test]
fn each_configuration_fault_is_named() {
    let fault = |config: Config| config.validate().unwrap_err();
    assert_eq!(
        fault(Config { event_capacity: 0, ..config() }),
        ConfigFault::EventCapacity
    );
    assert_eq!(
        fault(Config { retry_initial: Duration::from_secs(9), ..config() }),
        ConfigFault::RetryBounds
    );
    assert_eq!(
        fault(Config { connect_timeout: Duration::zero(), ..config() }),
        ConfigFault::Deadlines
    );
    assert_eq!(
        ConfigFault::EventCapacity.text(),
        "event capacity must be positive"
    );
    assert_eq!(
        ConfigFault::RetryBounds.text(),
        "retry bounds must be positive and ordered"
    );
    assert_eq!(
        ConfigFault::Deadlines.text(),
        "connection and health deadlines must be positive"
    );
    let mut counter = 1;
    let broken = Config { event_capacity: 0, ..config() };
    let refused = Supervisor::new(&vec![machine(1), machine(1)], broken, &mut counter);
    assert_eq!(
        refused.unwrap_err(),
        SupervisorError::Config(ConfigFault::EventCapacity)
    );
    let refused = Supervisor::new(&vec![machine(1), machine(1)], config(), &mut counter);
    assert_eq!(refused.unwrap_err(), SupervisorError::DuplicateMachine(1));
    assert_eq!(counter, 1);
}

#[test]
fn the_default_configuration_waits_one_second_up_to_thirty() {
    let settings = Config::default();
    settings.validate().unwrap();
    let waits: Vec<u128> = (0..7).map(|n| settings.retry_delay(n).as_nanos()).collect();
    let second = 1_000_000_000;
    assert_eq!(
        waits,
        [second, 2 * second, 4 * second, 8 * second, 16 * second, 30 * second, 30 * second]
    );
    assert_eq!(settings.connect_timeout, Duration::from_secs(15));
    assert_eq!(settings.health_interval, Duration::from_secs(15));
    assert_eq!(settings.health_timeout, Duration::from_secs(5));
    assert_eq!(settings.event_capacity, 128);
}

#[test]
fn a_smallest_wait_reaches_the_greatest_span() {
    let settings = Config {
        retry_initial: Duration::from_nanos(1),
        retry_max: Duration::from_secs(u64::MAX),
        ..config()
    };
    assert_eq!(settings.retry_delay(93).as_nanos(), 1 << 93);
    assert_eq!(settings.retry_delay(96), settings.retry_max);
}

#[test]
fn machines_are_listed_local_first_and_then_by_identity() {
    let harness = Harness::new(&[machine(3), machine(1), machine(2)]);
    let ids: Vec<MachineId> = harness
        .supervisor
        .registry()
        .iter()
        .into_iter()
        .map(|(id, _)| id)
        .collect();
    assert_eq!(
        ids,
        [MachineId::Local, MachineId::Ssh(1), MachineId::Ssh(2), MachineId::Ssh(3)]
    );
    let numbers: Vec<u64> = ids.iter().map(|id| harness.generation(*id).supervisor).collect();
    assert_eq!(numbers, [1, 2, 3, 4]);
}

#[test]
fn reconciling_twice_asks_nothing_the_second_time() {
    let mut counter = 10;
    let machines = vec![machine(1), machine(2)];
    let (mut supervisor, commands) = Supervisor::new(&machines, config(), &mut counter).unwrap();
    assert_eq!(commands.len(), 3);
    assert_eq!(counter, 13);
    assert!(supervisor.reconcile(&machines, &mut counter).unwrap().is_empty());
    assert_eq!(counter, 13);
    let commands = supervisor.reconcile(&vec![machine(2)], &mut counter).unwrap();
    assert_eq!(commands, [Command::Abort(MachineId::Ssh(1))]);
    let mut moved = machine(2);
    moved.target = "elsewhere".into();
    let commands = supervisor.reconcile(&vec![moved.clone()], &mut counter).unwrap();
    assert_eq!(
        commands,
        [
            Command::Abort(MachineId::Ssh(2)),
            Command::Spawn { spec: EndpointSpec::Ssh(moved), supervisor: 13 },
        ]
    );
    assert_eq!(counter, 14);
}

#[test]
fn an_unchanged_machine_takes_no_worker_number() {
    let mut counter = u64::MAX - 3;
    let machines = vec![machine(1), machine(2)];
    let (mut supervisor, _) = Supervisor::new(&machines, config(), &mut counter).unwrap();
    assert_eq!(counter, u64::MAX);
    let before = supervisor.registry().get(MachineId::Ssh(1)).unwrap().generation;
    let mut renamed = machine(1);
    renamed.label = "renamed".into();
    let machines = vec![renamed.clone(), machine(2)];
    assert!(supervisor.reconcile(&machines, &mut counter).unwrap().is_empty());
    assert!(supervisor.reconcile(&machines, &mut counter).unwrap().is_empty());
    assert_eq!(counter, u64::MAX);
    let endpoint = supervisor.registry().get(MachineId::Ssh(1)).unwrap();
    assert_eq!(endpoint.generation, before);
    assert_eq!(endpoint.spec, EndpointSpec::Ssh(renamed));
}

#[test]
fn a_snapshot_gives_way_to_a_later_one_or_another_connection() {
    let first = Generation { supervisor: 1, connection: 1 };
    let second = Generation { supervisor: 1, connection: 2 };
    let mut slot: Option<Snapshot<ResourceSnapshot>> = None;
    assert!(accept(&mut slot, resources(5), first));
    assert!(!accept(&mut slot, resources(5), first));
    assert!(!accept(&mut slot, resources(4), first));
    assert!(accept(&mut slot, resources(6), first));
    assert!(accept(&mut slot, resources(0), second));
    let held = slot.unwrap();
    assert_eq!(held.generation, second);
    assert_eq!(held.value.revision, 0);
}

#[test]
fn a_lost_transport_is_released_before_the_failure_is_reported() {
    let (mut worker, action) = Worker::new(EndpointSpec::Local, 7, config());
    assert!(matches!(action, Action::Allocate));
    let action = worker.step(Signal::Begin(4)).unwrap();
    assert!(matches!(
        action,
        Action::Send {
            generation: Generation { supervisor: 7, connection: 4 },
            report: Report::Attempt
        }
    ));
    worker.step(Signal::Sent).unwrap();
    worker.step(Signal::Connected(initial(1))).unwrap();
    worker.step(Signal::Sent).unwrap();
    worker.step(Signal::TimerFired).unwrap();
    assert!(matches!(worker.step(Signal::TimedOut), Some(Action::Close)));
    assert!(worker.step(Signal::Sent).is_none());
    let action = worker.step(Signal::Closed).unwrap();
    assert!(matches!(
        action,
        Action::Send { report: Report::Failed(Cause::PingTimeout), .. }
    ));
    assert!(matches!(worker.step(Signal::Sent), Some(Action::Sleep(_))));
    assert_eq!(Cause::PingTimeout.failure().message, "endpoint ping timed out");
}

#[test]
fn a_worker_ends_when_nobody_listens_or_the_failure_does_not_retry() {
    let (mut worker, _) = Worker::new(EndpointSpec::Local, 1, config());
    worker.step(Signal::Begin(1)).unwrap();
    assert!(matches!(worker.step(Signal::Unsendable), Some(Action::Stop)));
    assert!(worker.step(Signal::Waited).is_none());
    let (mut worker, _) = Worker::new(EndpointSpec::Local, 1, config());
    worker.step(Signal::Begin(1)).unwrap();
    worker.step(Signal::Sent).unwrap();
    let failure = Failure { kind: FailureKind::HostKey, message: "changed".into() };
    worker.step(Signal::ConnectFailed(failure)).unwrap();
    assert!(matches!(worker.step(Signal::Sent), Some(Action::Stop)));
}

#[test]
fn a_failing_catalog_leaves_the_endpoints_alone_until_it_is_read_again() {
    let mut watch = CatalogWatch::open(Opening::Listed(vec![machine(1)]));
    let mut counter = 1;
    let (mut supervisor, _) = Supervisor::new(&watch.known, config(), &mut counter).unwrap();
    let mut observe = |watch: &mut CatalogWatch, reading: Reading| {
        watch.observe(reading, &mut supervisor, &mut counter)
    };
    assert!(observe(&mut watch, Reading::Unreadable("denied".into())).is_empty());
    assert_eq!(watch.error.as_deref(), Some("denied"));
    assert!(observe(&mut watch, Reading::ReaderFailed("panicked".into())).is_empty());
    assert_eq!(
        watch.error.as_deref(),
        Some("machine catalog reader failed: panicked")
    );
    assert!(observe(&mut watch, Reading::Listed(vec![machine(1)])).is_empty());
    assert_eq!(watch.error, None);
    let repeated = vec![machine(2), machine(2)];
    assert!(observe(&mut watch, Reading::Listed(repeated)).is_empty());
    assert_eq!(
        watch.error.as_deref(),
        Some("duplicate saved machine UUID 00000000-0000-0000-0000-000000000002")
    );
    assert_eq!(watch.known, [machine(1)]);
    assert_eq!(observe(&mut watch, Reading::Listed(vec![machine(2)])).len(), 2);
    assert_eq!(watch.known, [machine(2)]);
    assert_eq!(watch.error, None);
    assert_eq!(supervisor.registry().iter().len(), 2);
}

#[test]
fn an_unreadable_catalog_starts_empty_and_an_unlocated_one_is_not_read_again() {
    let unreadable = CatalogWatch::open(Opening::Unreadable("denied".into()));
    assert!(unreadable.known.is_empty());
    assert_eq!(unreadable.error.as_deref(), Some("denied"));
    assert!(unreadable.polls);
    let unlocated = CatalogWatch::open(Opening::Unlocated("no home".into()));
    assert!(unlocated.known.is_empty());
    assert_eq!(unlocated.error.as_deref(), Some("no home"));
    assert!(!unlocated.polls);
    assert_eq!(poll_interval(), Duration::from_secs(1));
}

#[test]
fn a_whole_run_backs_off_from_answer_to_answer_and_ends_for_good() {
    let (mut worker, _) = Worker::new(EndpointSpec::Local, 7, config());
    let mut counter = 5;
    let mut numbers = Vec::new();
    let mut waits = Vec::new();
    // The first three attempts time out and the next two connect. A handshake
    // resets nothing; the answer to a probe does.
    for attempt in 0..6 {
        match worker.step(Signal::Begin(allocate(&mut counter))) {
            Some(Action::Send { generation, report: Report::Attempt }) => {
                numbers.push(generation.connection)
            }
            action => panic!("{action:?}"),
        }
        assert!(matches!(worker.step(Signal::Sent), Some(Action::Connect { .. })));
        if attempt == 5 {
            let failure = Failure { kind: FailureKind::Authentication, message: "no".into() };
            worker.step(Signal::ConnectFailed(failure)).unwrap();
            break;
        }
        if attempt < 3 {
            worker.step(Signal::TimedOut).unwrap();
        } else {
            worker.step(Signal::Connected(initial(1))).unwrap();
            worker.step(Signal::Sent).unwrap();
            if attempt == 4 {
                worker.step(Signal::TimerFired).unwrap();
                worker.step(Signal::Pinged).unwrap();
                worker.step(Signal::Received(Update::Healthy)).unwrap();
            }
            worker.step(Signal::EndOfStream).unwrap();
            worker.step(Signal::Closed).unwrap();
        }
        match worker.step(Signal::Sent) {
            Some(Action::Sleep(span)) => waits.push(span),
            action => panic!("{action:?}"),
        }
        assert!(matches!(worker.step(Signal::Waited), Some(Action::Allocate)));
    }
    assert_eq!(numbers, [5, 6, 7, 8, 9, 10]);
    let seconds = [1, 2, 4, 8, 1].map(Duration::from_secs);
    assert_eq!(waits, seconds);
    assert!(matches!(worker.step(Signal::Sent), Some(Action::Stop)));
    assert!(worker.step(Signal::Begin(11)).is_none());
}

#[test]
fn a_published_registry_holds_what_the_supervisor_knows() {
    let mut harness = Harness::new(&[machine(1)]);
    let id = MachineId::Ssh(1);
    harness.ready(id, 3);
    assert!(harness.supervisor.select_active(id));
    let published = harness.supervisor.registry().clone();
    harness.signal(id, Signal::EndOfStream);
    assert_ne!(harness.status(id), Status::Ready);
    let endpoint = published.get(id).unwrap();
    assert_eq!(endpoint.status, Status::Ready);
    assert_eq!(endpoint.generation, harness.generation(id));
    assert_eq!(endpoint.metadata.resources.as_ref().unwrap().value, resources(3));
    assert_eq!(published.active(), id);
    assert_eq!(published.iter().len(), 2);
}
