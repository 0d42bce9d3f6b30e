//! What holds of a connection worker as a whole.

use vstd::prelude::*;

use crate::client::federation::{
    self, Config, Endpoint, EndpointSpec, Event, EventKind, FailureKind, Generation,
    InitialMetadata, MachineId, Status, Update,
};
use crate::client::federation_laws;
use crate::client::worker::{Action, Cause, Phase, Report, Signal, Worker};
use crate::duration::Duration;

verus! {

/// A worker in this phase has a transport to release.
pub open spec fn holds_transport(phase: Phase) -> bool {
    phase is Welcoming || phase is Reading || phase is Forwarding || phase is Pinging
        || phase is Closing
}

/// A transport is gained only by connecting and given up only by closing or
/// stopping, so it is released before its failure is reported and before the
/// worker tries again.
pub proof fn law_the_transport_is_released_first(worker: Worker, signal: Signal)
    requires
        worker.next(signal) is Some,
    ensures
        ({
            let (after, action) = worker.next(signal)->0;
            &&& !holds_transport(worker.phase) && holds_transport(after.phase)
                ==> signal is Connected
            &&& holds_transport(worker.phase) && !holds_transport(after.phase) ==> signal is Closed
                || action is Stop
            &&& (action matches Action::Send { report: Report::Failed(_), .. })
                ==> !holds_transport(after.phase)
            &&& action is Sleep || action is Allocate || action is Connect ==> !holds_transport(
                after.phase,
            )
        }),
{
}

/// Once a failure is delivered the worker waits and tries again where the failure
/// is transient, and ends where it is not.
pub proof fn law_only_transient_failures_retry(worker: Worker, cause: Cause)
    ensures
        ({
            let (reporting, action) = worker.reports(cause);
            &&& action == (Action::Send {
                generation: worker.generation,
                report: Report::Failed(cause),
            })
            &&& reporting.next(Signal::Sent) is Some
            &&& (reporting.next(Signal::Sent)->0).1 is Sleep <==> cause.kind()
                == FailureKind::Transient
            &&& (reporting.next(Signal::Sent)->0).1 is Stop <==> cause.kind()
                != FailureKind::Transient
        }),
{
}

/// Only the response to a pending probe resets the count of failures; every
/// other step keeps it, but for the one more after a wait.
pub proof fn law_only_an_awaited_response_resets_backoff(worker: Worker, signal: Signal)
    requires
        worker.next(signal) is Some,
    ensures
        ({
            let after = (worker.next(signal)->0).0;
            if worker.phase == (Phase::Reading { awaiting_pong: true }) && signal
                == Signal::Received(Update::Healthy) {
                after.failures == 0
            } else if signal is Waited {
                after.failures == (if worker.failures < u32::MAX {
                    worker.failures + 1
                } else {
                    u32::MAX as int
                })
            } else {
                after.failures == worker.failures
            }
        }),
{
}

/// Metadata that arrives while a probe is pending neither answers the probe nor
/// moves its deadline, and the deadline then ends the connection.
pub proof fn law_traffic_does_not_extend_the_deadline(worker: Worker, update: Update)
    requires
        worker.phase == (Phase::Reading { awaiting_pong: true }),
        !(update is Healthy),
    ensures
        ({
            let (forwarding, action) = worker.next(Signal::Received(update))->0;
            let (reading, wait) = forwarding.next(Signal::Sent)->0;
            &&& worker.next(Signal::Received(update)) is Some
            &&& action == worker.sends(Report::Update(update))
            &&& forwarding.next(Signal::Sent) is Some
            &&& reading == worker
            &&& wait == (Action::Read { timer: None })
            &&& reading.next(Signal::TimerFired) == Some(worker.loses(Cause::HealthTimeout))
        }),
{
}

/// The machine, the configuration and the worker number never change; the
/// connection number changes only at the start of an attempt.
pub proof fn law_a_worker_keeps_its_identity(worker: Worker, signal: Signal)
    requires
        worker.next(signal) is Some,
    ensures
        ({
            let (after, action) = worker.next(signal)->0;
            &&& after.spec == worker.spec
            &&& after.config == worker.config
            &&& after.generation.supervisor == worker.generation.supervisor
            &&& after.generation.connection == (match signal {
                Signal::Begin(connection) => connection,
                _ => worker.generation.connection,
            })
            &&& action matches Action::Send { generation, .. } ==> generation == after.generation
        }),
{
}

/// A stopped worker answers nothing.
pub proof fn law_a_stopped_worker_stays_stopped(worker: Worker, signal: Signal)
    requires
        worker.phase is Stopped,
    ensures
        worker.next(signal) is None,
{
}

/// The registry's entry has taken everything that the worker has sent.
pub open spec fn in_step(worker: Worker, endpoint: Endpoint) -> bool {
    &&& endpoint.generation.supervisor == worker.generation.supervisor
    &&& match worker.phase {
        Phase::Starting | Phase::Waiting => federation::awaits_connection(endpoint.status),
        Phase::Announcing | Phase::Connecting => federation::awaits_connection(endpoint.status)
            && endpoint.accepting_events && endpoint.generation == worker.generation,
        Phase::Welcoming | Phase::Reading { .. } | Phase::Forwarding { .. } | Phase::Pinging
        | Phase::Closing(_) => endpoint.status == Status::Ready && endpoint.accepting_events
            && endpoint.generation == worker.generation,
        Phase::Reporting { retry } => endpoint.status == (if retry {
            Status::Reconnecting
        } else {
            Status::Attention
        }),
        Phase::Stopped => true,
    }
}

/// `kind` is the event that a report becomes.
pub open spec fn conveys(kind: EventKind, report: Report) -> bool {
    match report {
        Report::Attempt => kind is Attempt,
        Report::Connected(initial) => kind == EventKind::Connected(initial),
        Report::Update(update) => kind == EventKind::Update(update),
        Report::Failed(cause) => kind matches EventKind::Failed(failure) && failure.kind
            == cause.kind(),
    }
}

/// The registry accepts every attempt, success and failure of the worker that it
/// currently knows, in the order sent, provided that each connection number is
/// higher than the last; an update it may find outdated. So the entry keeps in
/// step with the worker.
pub proof fn law_the_registry_keeps_in_step(
    worker: Worker,
    endpoint: Endpoint,
    signal: Signal,
    kind: EventKind,
)
    requires
        in_step(worker, endpoint),
        worker.next(signal) is Some,
        signal matches Signal::Begin(connection) ==> connection > endpoint.generation.connection,
        (worker.next(signal)->0).1 matches Action::Send { report, .. } ==> conveys(kind, report),
    ensures
        ({
            let (after, action) = worker.next(signal)->0;
            match action {
                Action::Send { generation, report } => match endpoint.after(generation, kind) {
                    Some(next) => in_step(after, next),
                    None => report is Update && in_step(after, endpoint),
                },
                _ => in_step(after, endpoint),
            }
        }),
{
}

/// A replaced endpoint and the worker started for it are in step.
pub proof fn law_a_new_worker_is_in_step(endpoint: Endpoint, supervisor: u64, worker: Worker)
    requires
        endpoint.spec.is_enabled(),
        worker.phase is Starting,
        worker.generation == (Generation { supervisor, connection: 0 }),
    ensures
        in_step(worker, endpoint.replaced(supervisor)),
{
}

/// A worker that survives a reconciliation stays in step with the entry under its
/// new profile.
pub proof fn law_a_surviving_worker_stays_in_step(
    worker: Worker,
    known: Endpoint,
    spec: EndpointSpec,
    supervisor: u64,
)
    requires
        in_step(worker, known),
        !federation::needs_restart(Some(known), spec),
    ensures
        in_step(worker, federation::reconciled(Some(known), spec, supervisor)),
{
}

// ---------------------------------------------------------------------------
// Whole runs

/// The worker after the first `k` signals, and what it then asks for.
pub open spec fn reached(first: Worker, signals: Seq<Signal>, k: nat) -> (Worker, Action)
    decreases k,
{
    if k == 0 {
        (first, Action::Allocate)
    } else {
        reached(first, signals, (k - 1) as nat).0.next(signals[k - 1])->0
    }
}

pub open spec fn worker_at(first: Worker, signals: Seq<Signal>, k: nat) -> Worker {
    reached(first, signals, k).0
}

pub open spec fn action_at(first: Worker, signals: Seq<Signal>, k: nat) -> Action {
    reached(first, signals, k).1
}

/// The signals run a new worker: each answers the action before it.
pub open spec fn is_run(first: Worker, signals: Seq<Signal>) -> bool {
    &&& first.phase is Starting
    &&& first.failures == 0
    &&& forall|k: nat|
        k < signals.len() ==> (#[trigger] worker_at(first, signals, k)).next(
            signals[k as int],
        ) is Some
}

/// The connection numbers come from one counter that only grows.
pub open spec fn rising(signals: Seq<Signal>) -> bool {
    forall|i: int, j: int|
        0 <= i < j < signals.len() ==> match (#[trigger] signals[i], #[trigger] signals[j]) {
            (Signal::Begin(earlier), Signal::Begin(later)) => earlier < later,
            _ => true,
        }
}

/// The action after `k` signals announces an attempt of this generation.
pub open spec fn announces(
    first: Worker,
    signals: Seq<Signal>,
    k: nat,
    generation: Generation,
) -> bool {
    action_at(first, signals, k) == (Action::Send { generation, report: Report::Attempt })
}

/// The action after `k` signals reports that the current connection failed, and
/// why.
pub open spec fn reports_failure(
    first: Worker,
    signals: Seq<Signal>,
    k: nat,
    cause: Cause,
) -> bool {
    action_at(first, signals, k) == worker_at(first, signals, k).sends(Report::Failed(cause))
}

pub open spec fn fails(action: Action) -> bool {
    action matches Action::Send { report: Report::Failed(_), .. }
}

/// The last of the first `k` signals answered a pending probe.
pub open spec fn answers_probe(first: Worker, signals: Seq<Signal>, k: nat) -> bool {
    &&& k > 0
    &&& worker_at(first, signals, (k - 1) as nat).phase == (Phase::Reading { awaiting_pong: true })
    &&& signals[k - 1] == Signal::Received(Update::Healthy)
}

/// How many failures were reported before the action after `k` signals, since the
/// start or since a probe was last answered.
pub open spec fn failures_before(first: Worker, signals: Seq<Signal>, k: nat) -> nat
    decreases k,
{
    if k == 0 {
        0
    } else {
        let last = (k - 1) as nat;
        if fails(action_at(first, signals, last)) {
            failures_before(first, signals, last) + 1
        } else if answers_probe(first, signals, last) {
            0
        } else {
            failures_before(first, signals, last)
        }
    }
}

/// Why the worker's attempt or connection ends with this signal, if it does.
pub open spec fn ending(worker: Worker, signal: Signal) -> Option<Cause> {
    match (worker.phase, signal) {
        (Phase::Connecting, Signal::ConnectFailed(failure)) => Some(Cause::Reported(failure)),
        (Phase::Connecting, Signal::TimedOut) => Some(Cause::ConnectTimeout),
        (Phase::Reading { .. }, Signal::ReadFailed(failure)) => Some(Cause::Reported(failure)),
        (Phase::Reading { .. }, Signal::EndOfStream) => Some(Cause::Disconnected),
        (Phase::Reading { awaiting_pong: true }, Signal::TimerFired) => Some(
            Cause::HealthTimeout,
        ),
        (Phase::Pinging, Signal::PingFailed(failure)) => Some(Cause::Reported(failure)),
        (Phase::Pinging, Signal::TimedOut) => Some(Cause::PingTimeout),
        _ => None,
    }
}

/// The signal after the first `k` ends the attempt or the connection.
pub open spec fn ends(first: Worker, signals: Seq<Signal>, k: nat, cause: Cause) -> bool {
    ending(worker_at(first, signals, k), signals[k as int]) == Some(cause)
}

/// A failure of a connection attempt is reported next; one of a connection, once
/// its transport has been released.
pub open spec fn reported_next(
    first: Worker,
    signals: Seq<Signal>,
    k: nat,
    cause: Cause,
) -> bool {
    if worker_at(first, signals, k).phase is Connecting {
        reports_failure(first, signals, k + 1, cause)
    } else {
        &&& action_at(first, signals, k + 1) is Close
        &&& k + 1 < signals.len() ==> reports_failure(first, signals, k + 2, cause)
    }
}

/// What the action after `k` signals reports did end the attempt or the
/// connection.
pub open spec fn has_ended(first: Worker, signals: Seq<Signal>, k: nat, cause: Cause) -> bool {
    ||| k >= 1 && ends(first, signals, (k - 1) as nat, cause)
    ||| k >= 2 && ends(first, signals, (k - 2) as nat, cause)
}

/// What follows the action after `k` signals is a wait, then another attempt.
pub open spec fn retries_next(first: Worker, signals: Seq<Signal>, k: nat) -> bool {
    &&& action_at(first, signals, k + 1) is Sleep
    &&& k + 1 < signals.len() ==> action_at(first, signals, k + 2) is Allocate
    &&& k + 2 < signals.len() ==> announces(
        first,
        signals,
        k + 3,
        worker_at(first, signals, k + 3).generation,
    )
}

/// The action after `k` signals is to wait this long.
pub open spec fn sleeps(first: Worker, signals: Seq<Signal>, k: nat, span: Duration) -> bool {
    action_at(first, signals, k) == Action::Sleep(span)
}

pub open spec fn capped(n: nat) -> nat {
    if n <= u32::MAX {
        n
    } else {
        u32::MAX as nat
    }
}

/// The worker's count agrees with `n` failures reported so far. A failure that is
/// still waited for is not counted yet.
pub open spec fn counts(worker: Worker, n: nat) -> bool {
    match worker.phase {
        Phase::Stopped => true,
        Phase::Reporting { .. } | Phase::Waiting => n > 0 && worker.failures == capped(
            (n - 1) as nat,
        ),
        _ => worker.failures == capped(n),
    }
}

/// A step of a run: where its action, its phase and its generation come from.
proof fn lemma_step(first: Worker, signals: Seq<Signal>, k: nat)
    requires
        is_run(first, signals),
        0 < k <= signals.len(),
    ensures
        ({
            let before = worker_at(first, signals, (k - 1) as nat);
            let (after, action) = reached(first, signals, k);
            let signal = signals[k - 1];
            &&& before.next(signal) == Some((after, action))
            &&& after.config == before.config
            &&& action matches Action::Send { generation, .. } ==> generation == after.generation
            &&& (action matches Action::Send { report: Report::Attempt, .. }) <==> (
            signal matches Signal::Begin(_))
            &&& signal matches Signal::Begin(connection) ==> after.generation.connection
                == connection
            &&& action is Connect ==> before.phase is Announcing && after.generation
                == before.generation
            &&& after.phase is Announcing ==> action == after.sends(Report::Attempt)
            &&& after.phase is Reporting <==> fails(action)
            &&& after.phase matches Phase::Reporting { retry } ==> (action matches Action::Send {
                report: Report::Failed(cause),
                ..
            } && retry == (cause.kind() == FailureKind::Transient))
        }),
{
    let before = worker_at(first, signals, (k - 1) as nat);
    assert(before.next(signals[k - 1]) is Some);
}

/// The worker's count and configuration throughout a run.
proof fn lemma_counts(first: Worker, signals: Seq<Signal>, k: nat)
    requires
        is_run(first, signals),
        k <= signals.len(),
    ensures
        worker_at(first, signals, k).config == first.config,
        counts(worker_at(first, signals, k), failures_before(first, signals, k + 1)),
    decreases k,
{
    if k == 0 {
        assert(failures_before(first, signals, 0) == 0);
        assert(!fails(action_at(first, signals, 0)));
        assert(failures_before(first, signals, 1) == 0);
    } else {
        let last = (k - 1) as nat;
        lemma_counts(first, signals, last);
        lemma_step(first, signals, k);
        let before = worker_at(first, signals, last);
        let after = worker_at(first, signals, k);
        law_only_an_awaited_response_resets_backoff(before, signals[k - 1]);
        assert(failures_before(first, signals, k) == failures_before(first, signals, last + 1));
    }
}

/// Beyond the greatest count that a worker keeps, one more failure changes no
/// wait.
proof fn lemma_capped_delay(config: Config, n: nat)
    requires
        config.fault() is None,
    ensures
        config.delay(capped(n)) == config.delay(n),
        config.delay(n) <= u128::MAX,
{
    federation_laws::law_backoff_is_bounded(config, n);
    config.retry_max.lemma_bounded();
    if n > u32::MAX {
        lemma_long_delay(config, n);
        lemma_long_delay(config, u32::MAX as nat);
    }
}

proof fn lemma_long_delay(config: Config, n: nat)
    requires
        config.fault() is None,
        n > 128,
    ensures
        config.delay(n) == config.retry_max@,
{
    config.retry_max.lemma_bounded();
    vstd::arithmetic::power2::lemma2_to64();
    vstd::arithmetic::power2::lemma_pow2_adds(64, 64);
    vstd::arithmetic::power2::lemma_pow2_strictly_increases(128, n);
    let initial = config.retry_initial@;
    let power = vstd::arithmetic::power2::pow2(n);
    assert(initial * power >= power) by (nonlinear_arith)
        requires
            initial >= 1,
            power >= 0,
    ;
}

/// The worker number throughout a run.
proof fn lemma_supervisor(first: Worker, signals: Seq<Signal>, k: nat)
    requires
        is_run(first, signals),
        k <= signals.len(),
    ensures
        worker_at(first, signals, k).generation.supervisor == first.generation.supervisor,
    decreases k,
{
    if k > 0 {
        lemma_supervisor(first, signals, (k - 1) as nat);
        lemma_step(first, signals, k);
        law_a_worker_keeps_its_identity(
            worker_at(first, signals, (k - 1) as nat),
            signals[k - 1],
        );
    }
}

proof fn lemma_attempts_rise(
    first: Worker,
    signals: Seq<Signal>,
    i: nat,
    j: nat,
    earlier: Generation,
    later: Generation,
)
    requires
        is_run(first, signals),
        rising(signals),
        i < j <= signals.len(),
        announces(first, signals, i, earlier),
        announces(first, signals, j, later),
    ensures
        earlier.connection < later.connection,
        earlier.supervisor == later.supervisor,
{
    assert(i > 0);
    lemma_step(first, signals, i);
    lemma_step(first, signals, j);
    lemma_supervisor(first, signals, i);
    lemma_supervisor(first, signals, j);
    assert(signals[i - 1] is Begin && signals[j - 1] is Begin);
}

proof fn lemma_announced(first: Worker, signals: Seq<Signal>, k: nat)
    requires
        is_run(first, signals),
        k <= signals.len(),
        action_at(first, signals, k) is Connect,
    ensures
        k > 0,
        announces(first, signals, (k - 1) as nat, worker_at(first, signals, k).generation),
{
    lemma_step(first, signals, k);
    assert(k > 1);
    lemma_step(first, signals, (k - 1) as nat);
}

proof fn lemma_reported(first: Worker, signals: Seq<Signal>, k: nat, cause: Cause)
    requires
        is_run(first, signals),
        k < signals.len(),
        ends(first, signals, k, cause),
    ensures
        reported_next(first, signals, k, cause),
{
    lemma_step(first, signals, k + 1);
    if k + 1 < signals.len() {
        lemma_step(first, signals, k + 2);
    }
}

proof fn lemma_ended_before(first: Worker, signals: Seq<Signal>, k: nat, cause: Cause)
    requires
        is_run(first, signals),
        k <= signals.len(),
        reports_failure(first, signals, k, cause),
    ensures
        has_ended(first, signals, k, cause),
{
    assert(k > 0);
    lemma_step(first, signals, k);
    let before = worker_at(first, signals, (k - 1) as nat);
    if before.phase is Closing {
        assert(k > 1);
        lemma_step(first, signals, (k - 1) as nat);
    }
}

proof fn lemma_retried(first: Worker, signals: Seq<Signal>, k: nat, cause: Cause)
    requires
        is_run(first, signals),
        k < signals.len(),
        reports_failure(first, signals, k, cause),
        cause.kind() == FailureKind::Transient,
        signals[k as int] is Sent,
    ensures
        retries_next(first, signals, k),
{
    assert(k > 0);
    lemma_step(first, signals, k);
    lemma_step(first, signals, k + 1);
    if k + 1 < signals.len() {
        lemma_step(first, signals, k + 2);
    }
    if k + 2 < signals.len() {
        lemma_step(first, signals, k + 3);
    }
}

proof fn lemma_waits(first: Worker, signals: Seq<Signal>, k: nat, span: Duration)
    requires
        is_run(first, signals),
        first.config.fault() is None,
        k <= signals.len(),
        sleeps(first, signals, k, span),
    ensures
        k > 0,
        fails(action_at(first, signals, (k - 1) as nat)),
        span@ == first.config.delay(failures_before(first, signals, (k - 1) as nat)),
{
    let last = (k - 1) as nat;
    lemma_step(first, signals, k);
    assert(worker_at(first, signals, last).phase is Reporting);
    lemma_step(first, signals, last);
    lemma_counts(first, signals, last);
    assert(failures_before(first, signals, k) == failures_before(first, signals, last) + 1);
    lemma_capped_delay(first.config, failures_before(first, signals, last));
    Duration::lemma_of(first.config.delay(failures_before(first, signals, last)));
}

proof fn lemma_ended(first: Worker, signals: Seq<Signal>, k: nat, cause: Cause)
    requires
        is_run(first, signals),
        k <= signals.len(),
        reports_failure(first, signals, k, cause),
        cause.kind() != FailureKind::Transient,
    ensures
        signals.len() <= k + 1,
        k < signals.len() ==> action_at(first, signals, k + 1) is Stop,
{
    assert(k > 0);
    lemma_step(first, signals, k);
    if k < signals.len() {
        lemma_step(first, signals, k + 1);
    }
    if k + 1 < signals.len() {
        lemma_step(first, signals, k + 2);
    }
}

/// A whole run of a worker. Every attempt is announced before it connects, under
/// a larger connection number than all before it. Whatever ends an attempt or a
/// connection is reported as it is, and nothing else is. After a transient failure
/// has been delivered the worker waits and starts the next attempt; the wait is
/// that of the failures before this one since the start or since a probe was last
/// answered, so that a handshake alone resets nothing. After any other failure
/// only the end follows.
pub proof fn law_a_run_backs_off_and_ends_as_its_failures_say(
    first: Worker,
    signals: Seq<Signal>,
)
    requires
        is_run(first, signals),
        rising(signals),
        first.config.fault() is None,
    ensures
        forall|i: nat, j: nat, earlier: Generation, later: Generation|
            i < j <= signals.len() && #[trigger] announces(first, signals, i, earlier)
                && #[trigger] announces(first, signals, j, later) ==> earlier.connection
                < later.connection && earlier.supervisor == later.supervisor,
        forall|k: nat|
            k <= signals.len() && #[trigger] action_at(first, signals, k) is Connect ==> k > 0
                && announces(
                first,
                signals,
                (k - 1) as nat,
                worker_at(first, signals, k).generation,
            ),
        forall|k: nat, cause: Cause|
            k < signals.len() && #[trigger] ends(first, signals, k, cause) ==> reported_next(
                first,
                signals,
                k,
                cause,
            ),
        forall|k: nat, cause: Cause|
            k <= signals.len() && #[trigger] reports_failure(first, signals, k, cause)
                ==> has_ended(first, signals, k, cause),
        forall|k: nat, cause: Cause|
            k < signals.len() && #[trigger] reports_failure(first, signals, k, cause)
                && cause.kind() == FailureKind::Transient && signals[k as int] is Sent
                ==> retries_next(first, signals, k),
        forall|k: nat, span: Duration|
            #![trigger sleeps(first, signals, k, span)]
            k <= signals.len() && sleeps(first, signals, k, span) ==> {
                &&& k > 0
                &&& fails(action_at(first, signals, (k - 1) as nat))
                &&& span@ == first.config.delay(failures_before(first, signals, (k - 1) as nat))
            },
        forall|k: nat, cause: Cause|
            k <= signals.len() && #[trigger] reports_failure(first, signals, k, cause)
                && cause.kind() != FailureKind::Transient ==> {
                &&& signals.len() <= k + 1
                &&& k < signals.len() ==> action_at(first, signals, k + 1) is Stop
            },
{
    assert forall|i: nat, j: nat, earlier: Generation, later: Generation|
        i < j <= signals.len() && #[trigger] announces(first, signals, i, earlier)
            && #[trigger] announces(first, signals, j, later) implies earlier.connection
        < later.connection && earlier.supervisor == later.supervisor by {
        lemma_attempts_rise(first, signals, i, j, earlier, later);
    }
    assert forall|k: nat|
        k <= signals.len() && #[trigger] action_at(first, signals, k) is Connect implies k > 0
        && announces(
        first,
        signals,
        (k - 1) as nat,
        worker_at(first, signals, k).generation,
    ) by {
        lemma_announced(first, signals, k);
    }
    assert forall|k: nat, cause: Cause|
        k < signals.len() && #[trigger] ends(first, signals, k, cause) implies reported_next(
        first,
        signals,
        k,
        cause,
    ) by {
        lemma_reported(first, signals, k, cause);
    }
    assert forall|k: nat, cause: Cause|
        k <= signals.len() && #[trigger] reports_failure(
            first,
            signals,
            k,
            cause,
        ) implies has_ended(first, signals, k, cause) by {
        lemma_ended_before(first, signals, k, cause);
    }
    assert forall|k: nat, cause: Cause|
        k < signals.len() && #[trigger] reports_failure(first, signals, k, cause) && cause.kind()
            == FailureKind::Transient && signals[k as int] is Sent implies retries_next(
        first,
        signals,
        k,
    ) by {
        lemma_retried(first, signals, k, cause);
    }
    assert forall|k: nat, span: Duration|
        #![trigger sleeps(first, signals, k, span)]
        k <= signals.len() && sleeps(first, signals, k, span) implies {
        &&& k > 0
        &&& fails(action_at(first, signals, (k - 1) as nat))
        &&& span@ == first.config.delay(failures_before(first, signals, (k - 1) as nat))
    } by {
        lemma_waits(first, signals, k, span);
    }
    assert forall|k: nat, cause: Cause|
        k <= signals.len() && #[trigger] reports_failure(first, signals, k, cause) && cause.kind()
            != FailureKind::Transient implies {
        &&& signals.len() <= k + 1
        &&& k < signals.len() ==> action_at(first, signals, k + 1) is Stop
    } by {
        lemma_ended(first, signals, k, cause);
    }
}

// ---------------------------------------------------------------------------
// Single steps

/// Every wait has its own span of the configuration: the connection deadline for
/// connecting to exactly this machine, the health interval from one answer to the
/// next probe, and the health deadline for the probe and again for its answer.
/// Anything else that is read leaves the running timer alone.
pub proof fn law_each_wait_has_its_own_span(worker: Worker, signal: Signal)
    requires
        worker.next(signal) is Some,
    ensures
        ({
            let (after, action) = worker.next(signal)->0;
            &&& action matches Action::Connect { spec, within } ==> spec == worker.spec && within
                == worker.config.connect_timeout
            &&& action matches Action::Ping { within } ==> within == worker.config.health_timeout
                && signal is TimerFired
            &&& action matches Action::Read { timer } ==> timer == (if signal is Pinged {
                Some(worker.config.health_timeout)
            } else if worker.phase is Welcoming || worker.phase == (Phase::Reading {
                awaiting_pong: true,
            }) {
                Some(worker.config.health_interval)
            } else {
                None
            })
        }),
{
}

/// Which signals answer the worker in each phase; every one of them is taken.
pub proof fn law_each_phase_takes_its_own_answers(worker: Worker, signal: Signal)
    ensures
        worker.next(signal) is Some <==> match worker.phase {
            Phase::Starting => signal is Begin,
            Phase::Announcing => signal is Sent || signal is Unsendable,
            Phase::Connecting => signal is Connected || signal is ConnectFailed
                || signal is TimedOut,
            Phase::Welcoming => signal is Sent || signal is Unsendable,
            Phase::Reading { .. } => signal is Received || signal is EndOfStream
                || signal is ReadFailed || signal is TimerFired,
            Phase::Forwarding { .. } => signal is Sent || signal is Unsendable,
            Phase::Pinging => signal is Pinged || signal is PingFailed || signal is TimedOut,
            Phase::Closing(_) => signal is Closed,
            Phase::Reporting { .. } => signal is Sent || signal is Unsendable,
            Phase::Waiting => signal is Waited,
            Phase::Stopped => false,
        },
{
}

/// What a connection brings is passed on as it is: the initial metadata and every
/// update but a health response, which is kept. While a probe is pending its answer
/// starts the next interval; without one it changes nothing.
pub proof fn law_metadata_is_passed_on_as_it_is(
    worker: Worker,
    initial: InitialMetadata,
    update: Update,
    awaiting_pong: bool,
)
    ensures
        worker.phase is Connecting ==> (worker.next(Signal::Connected(initial)) matches Some((
            after,
            action,
        )) && after.phase is Welcoming && action == (Action::Send {
            generation: worker.generation,
            report: Report::Connected(initial),
        })),
        worker.phase == (Phase::Reading { awaiting_pong }) && !(update is Healthy) ==> (
        worker.next(Signal::Received(update)) matches Some((after, action)) && after.phase == (
        Phase::Forwarding { awaiting_pong }) && action == (Action::Send {
            generation: worker.generation,
            report: Report::Update(update),
        })),
        worker.phase == (Phase::Forwarding { awaiting_pong }) ==> (
        worker.next(Signal::Sent) matches Some((after, _)) && after.phase == (Phase::Reading {
            awaiting_pong,
        })),
        worker.phase == (Phase::Reading { awaiting_pong }) ==> (
        worker.next(Signal::Received(Update::Healthy)) matches Some((after, _)) && after.phase == (
        Phase::Reading { awaiting_pong: false })),
{
}

/// A connection is probed whenever its interval ends, and given up exactly when a
/// probe cannot be sent in time, is not answered in time, or the stream ends or
/// fails.
pub proof fn law_a_silent_connection_is_probed_then_given_up(worker: Worker, signal: Signal)
    requires
        worker.next(signal) is Some,
    ensures
        ({
            let (after, action) = worker.next(signal)->0;
            &&& action is Ping <==> worker.phase == (Phase::Reading { awaiting_pong: false })
                && signal is TimerFired
            &&& after.phase is Closing <==> signal is EndOfStream || signal is ReadFailed
                || signal is PingFailed || (worker.phase is Pinging && signal is TimedOut) || (
            worker.phase == (Phase::Reading { awaiting_pong: true }) && signal is TimerFired)
            &&& after.phase is Closing <==> action is Close
            &&& after.phase matches Phase::Closing(cause) ==> cause == (match signal {
                Signal::EndOfStream => Cause::Disconnected,
                Signal::ReadFailed(failure) => Cause::Reported(failure),
                Signal::PingFailed(failure) => Cause::Reported(failure),
                Signal::TimerFired => Cause::HealthTimeout,
                _ => Cause::PingTimeout,
            })
        }),
{
}

/// A worker stops exactly when nobody takes its report, or once a failure that does
/// not retry has been taken.
pub proof fn law_a_worker_stops_only_unheard_or_for_good(worker: Worker, signal: Signal)
    requires
        worker.next(signal) is Some,
    ensures
        ({
            let (after, action) = worker.next(signal)->0;
            &&& action is Stop <==> signal is Unsendable || (worker.phase == (Phase::Reporting {
                retry: false,
            }) && signal is Sent)
            &&& after.phase is Stopped <==> action is Stop
        }),
{
}

/// Every deadline that passes, and a stream that ends, is transient; a failure that
/// the transport reports keeps its kind and its words.
pub proof fn law_deadlines_and_ends_are_transient(cause: Cause)
    ensures
        cause matches Cause::Reported(failure) ==> cause.kind() == failure.kind && cause.message()
            == failure.message@,
        !(cause is Reported) ==> cause.kind() == FailureKind::Transient,
{
}

/// A report reaches the registry as what it is: of the same machine and connection,
/// with the same metadata, and with a failure of the same kind and words.
pub proof fn law_a_report_becomes_its_own_event(
    report: Report,
    id: MachineId,
    generation: Generation,
    event: Event,
)
    requires
        report.becomes(id, generation, event),
    ensures
        event.id == id,
        event.generation == generation,
        conveys(event.kind, report),
        report is Attempt <==> event.kind is Attempt,
        event.kind matches EventKind::Connected(initial) ==> report == Report::Connected(initial),
        event.kind matches EventKind::Update(update) ==> report == Report::Update(update),
        event.kind matches EventKind::Failed(failure) ==> (report matches Report::Failed(cause) && (
        cause matches Cause::Reported(told) ==> failure.kind == told.kind && failure.message@
            == told.message@) && (!(cause is Reported) ==> failure.kind == FailureKind::Transient)),
{
}

} // verus!
