//! One machine's connection worker, as a state machine.
//!
//! The worker decides what happens next; the caller carries it out and reports
//! back. Each action is answered by one of the signals that its documentation
//! names.

use vstd::prelude::*;

use crate::client::federation::{
    Config, EndpointSpec, Event, EventKind, Failure, FailureKind, Generation, InitialMetadata,
    MachineId, Update,
};
use crate::duration::Duration;

verus! {

/// Why a connection ended.
#[derive(Debug)]
pub enum Cause {
    /// The transport says so.
    Reported(Failure),
    ConnectTimeout,
    Disconnected,
    HealthTimeout,
    PingTimeout,
}

impl Cause {
    pub open spec fn kind(self) -> FailureKind {
        match self {
            Cause::Reported(failure) => failure.kind,
            _ => FailureKind::Transient,
        }
    }

    pub open spec fn message(self) -> Seq<char> {
        match self {
            Cause::Reported(failure) => failure.message@,
            Cause::ConnectTimeout => "endpoint connection timed out"@,
            Cause::Disconnected => "endpoint disconnected (EOF)"@,
            Cause::HealthTimeout => "endpoint health check timed out"@,
            Cause::PingTimeout => "endpoint ping timed out"@,
        }
    }

    /// The cause as a failure of the endpoint.
    pub fn failure(self) -> (r: Failure)
        ensures
            r.kind == self.kind(),
            r.message@ == self.message(),
            self matches Cause::Reported(failure) ==> r == failure,
    {
        match self {
            Cause::Reported(failure) => failure,
            Cause::ConnectTimeout => Failure::transient("endpoint connection timed out"),
            Cause::Disconnected => Failure::transient("endpoint disconnected (EOF)"),
            Cause::HealthTimeout => Failure::transient("endpoint health check timed out"),
            Cause::PingTimeout => Failure::transient("endpoint ping timed out"),
        }
    }

    fn retries(&self) -> (r: bool)
        ensures
            r == (self.kind() == FailureKind::Transient),
    {
        match self {
            Cause::Reported(failure) => failure.kind == FailureKind::Transient,
            _ => true,
        }
    }
}

/// What the worker tells the registry.
#[derive(Debug)]
pub enum Report {
    Attempt,
    Connected(InitialMetadata),
    Update(Update),
    Failed(Cause),
}

impl Report {
    /// `event` is this report of this machine and connection.
    pub open spec fn becomes(self, id: MachineId, generation: Generation, event: Event) -> bool {
        &&& event.id == id
        &&& event.generation == generation
        &&& match self {
            Report::Attempt => event.kind is Attempt,
            Report::Connected(initial) => event.kind == EventKind::Connected(initial),
            Report::Update(update) => event.kind == EventKind::Update(update),
            Report::Failed(cause) => event.kind matches EventKind::Failed(failure) && failure.kind
                == cause.kind() && failure.message@ == cause.message(),
        }
    }

    /// The report as an event of this machine and connection.
    pub fn event(self, id: MachineId, generation: Generation) -> (r: Event)
        ensures
            self.becomes(id, generation, r),
    {
        let kind = match self {
            Report::Attempt => EventKind::Attempt,
            Report::Connected(initial) => EventKind::Connected(initial),
            Report::Update(update) => EventKind::Update(update),
            Report::Failed(cause) => EventKind::Failed(cause.failure()),
        };
        Event { id, generation, kind }
    }
}

/// What the caller does next.
#[derive(Debug)]
pub enum Action {
    /// Take the next connection number: `Begin`.
    Allocate,
    /// Send a report to the registry: `Sent` or `Unsendable`.
    Send { generation: Generation, report: Report },
    /// Connect: `Connected`, `ConnectFailed`, or `TimedOut` after this long.
    Connect { spec: EndpointSpec, within: Duration },
    /// Wait for the next update, and for the timer, which is set anew where a
    /// span is given: `Received`, `EndOfStream`, `ReadFailed` or `TimerFired`.
    Read { timer: Option<Duration> },
    /// Start a probe: `Pinged`, `PingFailed`, or `TimedOut` after this long.
    Ping { within: Duration },
    /// Release the transport: `Closed`.
    Close,
    /// Wait: `Waited`.
    Sleep(Duration),
    /// Release the transport, if any, and end.
    Stop,
}

/// What came of the last action.
#[derive(Debug)]
pub enum Signal {
    Begin(u64),
    Sent,
    Unsendable,
    Connected(InitialMetadata),
    ConnectFailed(Failure),
    TimedOut,
    Received(Update),
    EndOfStream,
    ReadFailed(Failure),
    TimerFired,
    Pinged,
    PingFailed(Failure),
    Closed,
    Waited,
}

#[derive(Debug)]
pub enum Phase {
    Starting,
    Announcing,
    Connecting,
    Welcoming,
    Reading { awaiting_pong: bool },
    Forwarding { awaiting_pong: bool },
    Pinging,
    Closing(Cause),
    Reporting { retry: bool },
    Waiting,
    Stopped,
}

#[derive(Debug)]
pub struct Worker {
    pub spec: EndpointSpec,
    pub config: Config,
    pub generation: Generation,
    /// How many failures in a row went before, without a health response.
    pub failures: u32,
    pub phase: Phase,
}

impl Worker {
    pub open spec fn in_phase(self, phase: Phase) -> Self {
        Worker { phase, ..self }
    }

    pub open spec fn sends(self, report: Report) -> Action {
        Action::Send { generation: self.generation, report }
    }

    /// The connection is lost: its transport is released before anyone is told.
    pub open spec fn loses(self, cause: Cause) -> (Self, Action) {
        (self.in_phase(Phase::Closing(cause)), Action::Close)
    }

    pub open spec fn reports(self, cause: Cause) -> (Self, Action) {
        (
            self.in_phase(Phase::Reporting { retry: cause.kind() == FailureKind::Transient }),
            self.sends(Report::Failed(cause)),
        )
    }

    pub open spec fn stops(self) -> (Self, Action) {
        (self.in_phase(Phase::Stopped), Action::Stop)
    }

    /// The worker and its action after a signal, or `None` where the signal does
    /// not answer the last action.
    pub open spec fn next(self, signal: Signal) -> Option<(Self, Action)> {
        match (self.phase, signal) {
            (Phase::Starting, Signal::Begin(connection)) => {
                let begun = Worker {
                    generation: Generation { connection, ..self.generation },
                    phase: Phase::Announcing,
                    ..self
                };
                Some((begun, begun.sends(Report::Attempt)))
            },
            (Phase::Announcing, Signal::Sent) => Some(
                (
                    self.in_phase(Phase::Connecting),
                    Action::Connect { spec: self.spec, within: self.config.connect_timeout },
                ),
            ),
            (Phase::Connecting, Signal::Connected(initial)) => Some(
                (self.in_phase(Phase::Welcoming), self.sends(Report::Connected(initial))),
            ),
            (Phase::Connecting, Signal::ConnectFailed(failure)) => Some(
                self.reports(Cause::Reported(failure)),
            ),
            (Phase::Connecting, Signal::TimedOut) => Some(self.reports(Cause::ConnectTimeout)),
            (Phase::Welcoming, Signal::Sent) => Some(
                (
                    self.in_phase(Phase::Reading { awaiting_pong: false }),
                    Action::Read { timer: Some(self.config.health_interval) },
                ),
            ),
            (Phase::Reading { awaiting_pong }, Signal::Received(update)) => match update {
                // A completed handshake alone must not reset backoff: otherwise
                // immediate-EOF peers can cause retry storms.
                Update::Healthy => if awaiting_pong {
                    Some(
                        (
                            Worker {
                                failures: 0,
                                phase: Phase::Reading { awaiting_pong: false },
                                ..self
                            },
                            Action::Read { timer: Some(self.config.health_interval) },
                        ),
                    )
                } else {
                    Some((self, Action::Read { timer: None }))
                },
                update => Some(
                    (
                        self.in_phase(Phase::Forwarding { awaiting_pong }),
                        self.sends(Report::Update(update)),
                    ),
                ),
            },
            (Phase::Reading { awaiting_pong: _ }, Signal::EndOfStream) => Some(
                self.loses(Cause::Disconnected),
            ),
            (Phase::Reading { awaiting_pong: _ }, Signal::ReadFailed(failure)) => Some(
                self.loses(Cause::Reported(failure)),
            ),
            (Phase::Reading { awaiting_pong }, Signal::TimerFired) => if awaiting_pong {
                Some(self.loses(Cause::HealthTimeout))
            } else {
                Some(
                    (
                        self.in_phase(Phase::Pinging),
                        Action::Ping { within: self.config.health_timeout },
                    ),
                )
            },
            (Phase::Forwarding { awaiting_pong }, Signal::Sent) => Some(
                (
                    self.in_phase(Phase::Reading { awaiting_pong }),
                    Action::Read { timer: None },
                ),
            ),
            (Phase::Pinging, Signal::Pinged) => Some(
                (
                    self.in_phase(Phase::Reading { awaiting_pong: true }),
                    Action::Read { timer: Some(self.config.health_timeout) },
                ),
            ),
            (Phase::Pinging, Signal::PingFailed(failure)) => Some(
                self.loses(Cause::Reported(failure)),
            ),
            (Phase::Pinging, Signal::TimedOut) => Some(self.loses(Cause::PingTimeout)),
            (Phase::Closing(cause), Signal::Closed) => Some(self.reports(cause)),
            (Phase::Reporting { retry }, Signal::Sent) => if retry {
                Some(
                    (
                        self.in_phase(Phase::Waiting),
                        Action::Sleep(Duration::of(self.config.delay(self.failures as nat))),
                    ),
                )
            } else {
                Some(self.stops())
            },
            (Phase::Waiting, Signal::Waited) => Some(
                (
                    Worker {
                        failures: if self.failures < u32::MAX {
                            (self.failures + 1) as u32
                        } else {
                            u32::MAX
                        },
                        phase: Phase::Starting,
                        ..self
                    },
                    Action::Allocate,
                ),
            ),
            (Phase::Announcing, Signal::Unsendable) => Some(self.stops()),
            (Phase::Welcoming, Signal::Unsendable) => Some(self.stops()),
            (Phase::Forwarding { awaiting_pong: _ }, Signal::Unsendable) => Some(self.stops()),
            (Phase::Reporting { retry: _ }, Signal::Unsendable) => Some(self.stops()),
            _ => None,
        }
    }

    /// A worker that asks for its first connection number.
    pub fn new(spec: EndpointSpec, supervisor: u64, config: Config) -> (r: (Self, Action))
        ensures
            r.0 == (Worker {
                spec,
                config,
                generation: Generation { supervisor, connection: 0 },
                failures: 0,
                phase: Phase::Starting,
            }),
            r.1 is Allocate,
    {
        (
            Worker {
                spec,
                config,
                generation: Generation { supervisor, connection: 0 },
                failures: 0,
                phase: Phase::Starting,
            },
            Action::Allocate,
        )
    }

    /// Takes the answer to the last action. A signal that does not answer it
    /// changes nothing and gives no action.
    pub fn step(&mut self, signal: Signal) -> (r: Option<Action>)
        ensures
            match old(self).next(signal) {
                Some((worker, action)) => *final(self) == worker && r == Some(action),
                None => *final(self) == *old(self) && r is None,
            },
    {
        let mut phase = Phase::Stopped;
        std::mem::swap(&mut phase, &mut self.phase);
        match (phase, signal) {
            (Phase::Starting, Signal::Begin(connection)) => {
                self.generation.connection = connection;
                self.phase = Phase::Announcing;
                self.send(Report::Attempt)
            },
            (Phase::Announcing, Signal::Sent) => {
                self.phase = Phase::Connecting;
                Some(
                    Action::Connect {
                        spec: self.spec.clone(),
                        within: self.config.connect_timeout,
                    },
                )
            },
            (Phase::Connecting, Signal::Connected(initial)) => {
                self.phase = Phase::Welcoming;
                self.send(Report::Connected(initial))
            },
            (Phase::Connecting, Signal::ConnectFailed(failure)) => self.report(
                Cause::Reported(failure),
            ),
            (Phase::Connecting, Signal::TimedOut) => self.report(Cause::ConnectTimeout),
            (Phase::Welcoming, Signal::Sent) => {
                self.phase = Phase::Reading { awaiting_pong: false };
                Some(Action::Read { timer: Some(self.config.health_interval) })
            },
            (Phase::Reading { awaiting_pong }, Signal::Received(update)) => match update {
                Update::Healthy => {
                    self.phase = Phase::Reading { awaiting_pong: false };
                    if awaiting_pong {
                        self.failures = 0;
                        Some(Action::Read { timer: Some(self.config.health_interval) })
                    } else {
                        Some(Action::Read { timer: None })
                    }
                },
                update => {
                    self.phase = Phase::Forwarding { awaiting_pong };
                    self.send(Report::Update(update))
                },
            },
            (Phase::Reading { awaiting_pong: _ }, Signal::EndOfStream) => self.lose(
                Cause::Disconnected,
            ),
            (Phase::Reading { awaiting_pong: _ }, Signal::ReadFailed(failure)) => self.lose(
                Cause::Reported(failure),
            ),
            (Phase::Reading { awaiting_pong }, Signal::TimerFired) => {
                if awaiting_pong {
                    self.lose(Cause::HealthTimeout)
                } else {
                    self.phase = Phase::Pinging;
                    Some(Action::Ping { within: self.config.health_timeout })
                }
            },
            (Phase::Forwarding { awaiting_pong }, Signal::Sent) => {
                self.phase = Phase::Reading { awaiting_pong };
                Some(Action::Read { timer: None })
            },
            (Phase::Pinging, Signal::Pinged) => {
                self.phase = Phase::Reading { awaiting_pong: true };
                Some(Action::Read { timer: Some(self.config.health_timeout) })
            },
            (Phase::Pinging, Signal::PingFailed(failure)) => self.lose(Cause::Reported(failure)),
            (Phase::Pinging, Signal::TimedOut) => self.lose(Cause::PingTimeout),
            (Phase::Closing(cause), Signal::Closed) => self.report(cause),
            (Phase::Reporting { retry }, Signal::Sent) => {
                if retry {
                    let delay = self.config.retry_delay(self.failures);
                    proof {
                        delay.lemma_determined();
                    }
                    self.phase = Phase::Waiting;
                    Some(Action::Sleep(delay))
                } else {
                    self.stop()
                }
            },
            (Phase::Waiting, Signal::Waited) => {
                self.failures = self.failures.saturating_add(1);
                self.phase = Phase::Starting;
                Some(Action::Allocate)
            },
            (Phase::Announcing, Signal::Unsendable) => self.stop(),
            (Phase::Welcoming, Signal::Unsendable) => self.stop(),
            (Phase::Forwarding { awaiting_pong: _ }, Signal::Unsendable) => self.stop(),
            (Phase::Reporting { retry: _ }, Signal::Unsendable) => self.stop(),
            (phase, _) => {
                self.phase = phase;
                None
            },
        }
    }

    fn send(&self, report: Report) -> (r: Option<Action>)
        ensures
            r == Some(self.sends(report)),
    {
        Some(Action::Send { generation: self.generation, report })
    }

    fn lose(&mut self, cause: Cause) -> (r: Option<Action>)
        ensures
            (*final(self), r) == (old(self).loses(cause).0, Some(old(self).loses(cause).1)),
    {
        self.phase = Phase::Closing(cause);
        Some(Action::Close)
    }

    fn report(&mut self, cause: Cause) -> (r: Option<Action>)
        ensures
            (*final(self), r) == (old(self).reports(cause).0, Some(old(self).reports(cause).1)),
    {
        self.phase = Phase::Reporting { retry: cause.retries() };
        self.send(Report::Failed(cause))
    }

    fn stop(&mut self) -> (r: Option<Action>)
        ensures
            (*final(self), r) == (old(self).stops().0, Some(old(self).stops().1)),
    {
        self.phase = Phase::Stopped;
        Some(Action::Stop)
    }
}

} // verus!
