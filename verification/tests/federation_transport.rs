//! Control connections: failures, probes and the initial exchange.

use fut::client::federation::{
    EndpointSpec, Failure, FailureKind, InitialMetadata, Negotiation, Update,
};
use fut::client::federation_transport::{
    bridge_failure, classify_ssh_failure, compatibility, conclude, diagnostic_timeout, failure,
    initial_timeout, message_failure, route, socket_timed_out, transient, transport_failure,
    Conclusion, Exchange, Initialization, IoErrorKind, MetadataMessage, Next, Probe, Received,
    RemoteWelcome, Request, Route, SetupAction, SetupIds, SetupSignal, SystemConnection,
    MAX_INITIAL_RESPONSES,
};
use fut::duration::Duration;
use fut::machines::Machine;
use fut::protocol::{
    Capabilities, ClientAlertSnapshot, ClientMode, ClientPresenceSnapshot, EndpointError, Envelope,
    ExtensionCatalog, ResourceSnapshot,
};
use futures_util::StreamExt;
use tokio::io::AsyncWriteExt;
use tokio::net::UnixStream;
use tokio_util::codec::{Framed, LengthDelimitedCodec};

const PROTOCOL_VERSION: u16 = 22;

fn catalog(generation: u64) -> ExtensionCatalog {
    ExtensionCatalog {
        generation,
        fingerprint: String::new(),
        extensions: String::new(),
        config: String::new(),
    }
}

fn snapshot(revision: u64) -> ResourceSnapshot {
    ResourceSnapshot { revision, sessions: String::new() }
}

fn presence(revision: u64) -> ClientPresenceSnapshot {
    ClientPresenceSnapshot { revision, sessions: String::new() }
}

fn alerts(revision: u64) -> ClientAlertSnapshot {
    ClientAlertSnapshot { revision, terminals: String::new() }
}

fn resources(revision: u64) -> MetadataMessage {
    MetadataMessage::Resources { snapshot: snapshot(revision), presence: presence(revision) }
}

fn reply(request_id: Option<u128>, message: MetadataMessage) -> Received {
    Received::Reply(Envelope { request_id, message })
}

fn local() -> SystemConnection {
    SystemConnection::new(false, PROTOCOL_VERSION)
}

fn welcome(server_version: &str) -> MetadataMessage {
    MetadataMessage::Welcome {
        version: PROTOCOL_VERSION,
        server_version: server_version.into(),
        selected: false,
        extension_catalog: catalog(7),
    }
}

fn client_version() -> String {
    "0.22.0".into()
}

fn ids() -> SetupIds {
    SetupIds { hello: 1, resources: 2, alerts: 3 }
}

/// Brings an exchange on a local connection to where metadata is awaited.
fn collecting(connection: &mut SystemConnection) -> Initialization {
    let (mut setup, _) = Initialization::begin(connection, 9, client_version(), ids());
    setup.step(connection, SetupSignal::Sent).unwrap();
    setup
        .step(connection, SetupSignal::Received(reply(None, welcome("0.22.0"))))
        .unwrap();
    setup.step(connection, SetupSignal::Sent).unwrap();
    setup.step(connection, SetupSignal::Sent).unwrap();
    setup
}

#[test]
fn ssh_diagnostics_only_stop_retries_for_actionable_failures() {
    for (diagnostic, expected) in [
        ("Host key verification failed.", FailureKind::HostKey),
        (
            "WARNING: REMOTE HOST IDENTIFICATION HAS CHANGED!",
            FailureKind::HostKey,
        ),
        (
            "No ED25519 host key is known and you have requested strict checking.",
            FailureKind::HostKey,
        ),
        (
            "user@host: Permission denied (publickey).",
            FailureKind::Authentication,
        ),
        (
            "Received disconnect: Too many authentication failures",
            FailureKind::Authentication,
        ),
        (
            "bash: line 1: fut: command not found",
            FailureKind::Installation,
        ),
        ("zsh: command not found: fut", FailureKind::Installation),
        ("sh: fut: Permission denied", FailureKind::Installation),
        (
            "error: unrecognized subcommand '__stdio-bridge'",
            FailureKind::Installation,
        ),
        (
            "connect bridge to /tmp/fut/daemon.sock: No such file or directory",
            FailureKind::Transient,
        ),
        (
            "connect bridge to /tmp/fut/daemon.sock: Permission denied",
            FailureKind::Transient,
        ),
        (
            "ssh: connect to host work port 22: Connection refused",
            FailureKind::Transient,
        ),
        (
            "ssh: Could not resolve hostname work",
            FailureKind::Transient,
        ),
        ("Connection timed out", FailureKind::Transient),
        ("", FailureKind::Transient),
    ] {
        assert_eq!(
            classify_ssh_failure(transient("EOF"), diagnostic).kind,
            expected,
            "{diagnostic}"
        );
    }
    let typed = compatibility(&EndpointError::UnsupportedCodec.text());
    assert_eq!(
        classify_ssh_failure(typed.clone(), "Permission denied (publickey)."),
        typed
    );
    assert!(
        !classify_ssh_failure(transient("EOF"), "\x1bpermission denied (publickey).\n")
            .message
            .chars()
            .any(char::is_control)
    );
}

#[test]
fn every_actionable_pattern_is_recognized() {
    for (diagnostic, expected) in [
        ("Host key has changed", FailureKind::HostKey),
        ("no matching host key type found", FailureKind::HostKey),
        ("Authentication failed", FailureKind::Authentication),
        ("No supported authentication methods", FailureKind::Authentication),
        ("sign_and_send_pubkey: signing failed", FailureKind::Authentication),
        ("Load key \"id\": bad", FailureKind::Authentication),
        ("UNPROTECTED PRIVATE KEY FILE", FailureKind::Authentication),
        ("fut: no such file or directory", FailureKind::Installation),
        ("fut: cannot execute", FailureKind::Installation),
        ("fut: exec format error", FailureKind::Installation),
        ("unknown argument __stdio-bridge", FailureKind::Installation),
        ("unexpected __stdio-bridge", FailureKind::Installation),
        ("invalid subcommand __stdio-bridge", FailureKind::Installation),
        ("error while loading shared libraries: x", FailureKind::Installation),
        ("dyld: Library not loaded", FailureKind::Installation),
        ("fut\nnot found", FailureKind::Transient),
        ("fut: connect: not found", FailureKind::Transient),
    ] {
        let classified = classify_ssh_failure(transient("EOF"), diagnostic);
        assert_eq!(classified.kind, expected, "{diagnostic}");
    }
    let classified = classify_ssh_failure(transient("EOF"), "  first\r\nsecond \n");
    assert_eq!(classified.message, "EOF: firstsecond");
    let blank = classify_ssh_failure(transient("EOF"), " \t\n");
    assert_eq!(blank, transient("EOF"));
}

#[test]
fn protocol_failures_need_attention_but_io_failures_retry() {
    assert_eq!(
        message_failure(MetadataMessage::EndpointError {
            error: EndpointError::MethodNotNegotiated,
        })
        .kind,
        FailureKind::Compatibility
    );
    assert_eq!(
        message_failure(MetadataMessage::IncompatibleProtocol { client: 1, server: 2 }).kind,
        FailureKind::Compatibility
    );
    for kind in [
        IoErrorKind::BrokenPipe,
        IoErrorKind::UnexpectedEof,
        IoErrorKind::ConnectionReset,
        IoErrorKind::TimedOut,
        IoErrorKind::NotFound,
        IoErrorKind::Other,
    ] {
        assert_eq!(transport_failure(kind, "broken").kind, FailureKind::Transient);
    }
    assert_eq!(
        transport_failure(IoErrorKind::InvalidData, "oversized frame").kind,
        FailureKind::Compatibility
    );
}

#[test]
fn failures_say_what_went_wrong() {
    let said = |message| message_failure(message).message;
    assert_eq!(
        said(MetadataMessage::IncompatibleProtocol { client: 21, server: 7 }),
        "incompatible local protocol: client 21, server 7"
    );
    assert_eq!(
        said(MetadataMessage::Error { code: "busy".into(), message: "try\x07 later".into() }),
        "daemon error (busy): try later"
    );
    assert_eq!(said(MetadataMessage::Detached), "endpoint detached");
    assert_eq!(
        message_failure(MetadataMessage::Detached).kind,
        FailureKind::Transient
    );
    assert_eq!(
        said(MetadataMessage::Unexpected),
        "unexpected message on metadata control connection"
    );
    assert_eq!(
        said(MetadataMessage::EndpointError {
            error: EndpointError::IncompatibleGeneration { client: 2, server: 1 }
        }),
        "incompatible remote protocol generation: client 2, server 1"
    );
    let long = failure(FailureKind::HostKey, &"\x1bé".repeat(2000));
    assert_eq!(long.kind, FailureKind::HostKey);
    assert_eq!(long.message, "é".repeat(1024));
    assert_eq!(socket_timed_out().message, "local socket connection timed out");
    assert_eq!(initial_timeout(), Duration::from_secs(10));
    assert_eq!(diagnostic_timeout(), Duration::from_millis(250));
}

#[test]
fn only_proper_destinations_are_handed_to_ssh() {
    assert_eq!(route(&EndpointSpec::Local), Ok(Route::LocalSocket));
    let mut machine = Machine {
        id: 1,
        label: "work".into(),
        target: "user@host".into(),
        enabled: true,
    };
    assert_eq!(
        route(&EndpointSpec::Ssh(machine.clone())),
        Ok(Route::SshBridge("user@host".into()))
    );
    machine.target = "-oProxyCommand=evil".into();
    assert_eq!(
        route(&EndpointSpec::Ssh(machine)).unwrap_err().kind,
        FailureKind::Compatibility
    );
    let missing = bridge_failure(Some(IoErrorKind::NotFound), "No such file");
    assert_eq!(missing.kind, FailureKind::Installation);
    assert_eq!(missing.message, "OpenSSH executable is unavailable");
    let other = bridge_failure(Some(IoErrorKind::Other), "out of processes");
    assert_eq!(other, transient("out of processes"));
    assert_eq!(bridge_failure(None, "odd"), transient("odd"));
}

#[test]
fn ping_requires_current_id_and_pong_and_is_consumed_once() {
    let mut connection = local();
    let (first, _) = connection.ping().unwrap();
    let (current, request) = connection.ping().unwrap();
    assert_eq!(request, Request::Ping);
    assert_ne!(first, current);
    let pong = MetadataMessage::Pong { daemon_pid: 1 };
    assert!(matches!(connection.received(reply(Some(first), pong)), Next::Receive));
    let pong = MetadataMessage::Pong { daemon_pid: 1 };
    assert!(matches!(connection.received(reply(None, pong)), Next::Receive));
    // Even the correct ID on a different reply kind is not a pong.
    assert!(matches!(
        connection.received(reply(Some(current), resources(1))),
        Next::Yield(Update::Resources(_))
    ));
    assert!(matches!(connection.next(), Next::Yield(Update::Presence(_))));
    assert!(matches!(connection.next(), Next::Receive));
    let pong = MetadataMessage::Pong { daemon_pid: 1 };
    assert!(matches!(
        connection.received(reply(Some(current), pong)),
        Next::Yield(Update::Healthy)
    ));
    let pong = MetadataMessage::Pong { daemon_pid: 1 };
    assert!(matches!(connection.received(reply(Some(current), pong)), Next::Receive));
    assert!(matches!(connection.received(Received::EndOfStream), Next::End));
}

#[test]
fn metadata_probe_requires_correlated_resources_and_keeps_both_snapshots() {
    let mut connection = local();
    connection.capabilities = Some(Capabilities::default());
    let (probe, request) = connection.ping().unwrap();
    assert_eq!(request, Request::ListResources);
    assert!(matches!(
        connection.received(reply(Some(probe.wrapping_add(1)), resources(1))),
        Next::Yield(Update::Resources(_))
    ));
    assert!(matches!(connection.next(), Next::Yield(Update::Presence(_))));
    let changed = MetadataMessage::ResourcesChanged { snapshot: snapshot(2) };
    assert!(matches!(
        connection.received(reply(Some(probe), changed)),
        Next::Yield(Update::Resources(_))
    ));
    assert!(matches!(connection.next(), Next::Receive));
    assert!(
        matches!(connection.received(reply(Some(probe), resources(3))), Next::Yield(Update::Resources(snapshot)) if snapshot.revision == 3)
    );
    assert!(
        matches!(connection.next(), Next::Yield(Update::Presence(snapshot)) if snapshot.revision == 3)
    );
    assert!(matches!(connection.next(), Next::Yield(Update::Healthy)));
}

#[test]
fn a_new_probe_withdraws_a_queued_response() {
    let mut connection = local();
    assert_eq!(connection.probe_with(5), Request::Ping);
    let pong = MetadataMessage::Pong { daemon_pid: 1 };
    connection
        .accept(Envelope { request_id: Some(5), message: pong })
        .unwrap();
    connection
        .accept(Envelope { request_id: None, message: resources(1) })
        .unwrap();
    assert_eq!(connection.probe, None);
    connection.probe_with(6);
    assert_eq!(connection.probe, Some(Probe::Ping(6)));
    assert!(matches!(connection.next(), Next::Yield(Update::Resources(_))));
    assert!(matches!(connection.next(), Next::Yield(Update::Presence(_))));
    assert!(matches!(connection.next(), Next::Receive));
}

#[test]
fn local_handshake_subscribes_with_stable_identity_and_retains_catalog() {
    let client_id = 77;
    for _ in 0..2 {
        let mut connection = local();
        let (mut setup, action) = Initialization::start(&connection, client_id, client_version());
        match action {
            SetupAction::Send { request_id: None, request } => assert_eq!(
                request,
                Request::Hello {
                    version: PROTOCOL_VERSION,
                    client_version: client_version(),
                    mode: ClientMode::Control,
                }
            ),
            action => panic!("{action:?}"),
        }
        assert!(matches!(
            setup.step(&mut connection, SetupSignal::Sent),
            Some(SetupAction::Receive)
        ));
        let answer = SetupSignal::Received(reply(None, welcome("0.22.0")));
        let watch = match setup.step(&mut connection, answer) {
            Some(SetupAction::Send { request_id: Some(id), request: Request::WatchResources }) => id,
            action => panic!("{action:?}"),
        };
        let alert_watch = match setup.step(&mut connection, SetupSignal::Sent) {
            Some(SetupAction::Send {
                request_id: Some(id),
                request: Request::WatchAlerts { client_id: found },
            }) => {
                assert_eq!(found, client_id);
                id
            }
            action => panic!("{action:?}"),
        };
        assert_ne!(watch, alert_watch);
        assert!(matches!(
            setup.step(&mut connection, SetupSignal::Sent),
            Some(SetupAction::Receive)
        ));
        assert!(matches!(
            setup.step(&mut connection, SetupSignal::Received(reply(Some(watch), resources(1)))),
            Some(SetupAction::Receive)
        ));
        let answer = MetadataMessage::AlertsChanged { snapshot: alerts(1) };
        let answer = SetupSignal::Received(reply(Some(alert_watch), answer));
        match setup.step(&mut connection, answer) {
            Some(SetupAction::Complete(initial)) => {
                assert_eq!(initial.catalog.unwrap().generation, 7);
                assert_eq!(initial.resources.revision, 1);
                assert!(initial.alerts.is_some());
                assert_eq!(
                    initial.negotiation,
                    Negotiation::Local { protocol_version: PROTOCOL_VERSION }
                );
            }
            action => panic!("{action:?}"),
        }
    }
}

#[test]
fn initial_responses_are_bounded_even_when_peer_keeps_sending() {
    let mut connection = local();
    let mut setup = collecting(&mut connection);
    for count in 1..=MAX_INITIAL_RESPONSES {
        let pong = MetadataMessage::Pong { daemon_pid: 1 };
        let action = setup
            .step(&mut connection, SetupSignal::Received(reply(None, pong)))
            .unwrap();
        if count < MAX_INITIAL_RESPONSES {
            assert!(matches!(action, SetupAction::Receive));
        } else {
            match action {
                SetupAction::Failed(error) => {
                    assert_eq!(error.kind, FailureKind::Transient);
                    assert!(error.message.contains("response limit"));
                }
                action => panic!("{action:?}"),
            }
        }
    }
}

#[test]
fn cancelled_read_keeps_partial_frame_and_never_decodes_screens() {
    let payload: &[u8] =
        br#"{"message":{"type":"snapshot","screen":"not a screen","terminal_id":false}}"#;
    let mut bytes = (payload.len() as u32).to_be_bytes().to_vec();
    bytes.extend_from_slice(payload);
    let runtime = tokio::runtime::Builder::new_current_thread()
        .enable_all()
        .build()
        .unwrap();
    let frame = runtime.block_on(async {
        let (stream, mut peer) = UnixStream::pair().unwrap();
        let mut framed = Framed::new(stream, LengthDelimitedCodec::new());
        peer.write_all(&bytes[..6]).await.unwrap();
        let pause = std::time::Duration::from_millis(10);
        assert!(tokio::time::timeout(pause, framed.next()).await.is_err());
        peer.write_all(&bytes[6..]).await.unwrap();
        framed.next().await.unwrap().unwrap()
    });
    assert_eq!(&frame[..], payload);
    // A screen is decoded no further than to an unexpected message.
    let mut connection = local();
    match connection.received(reply(None, MetadataMessage::Unexpected)) {
        Next::Fail(error) => {
            assert_eq!(error.kind, FailureKind::Compatibility);
            assert!(error.message.contains("unexpected message"));
        }
        next => panic!("{next:?}"),
    }
    assert!(matches!(connection.next(), Next::Fail(_)));
    assert!(connection.ping().is_err());
}

#[test]
fn uncorrelated_answers_complete_nothing() {
    let mut connection = local();
    let mut setup = collecting(&mut connection);
    let mut receive = |request_id, message| {
        setup.step(&mut connection, SetupSignal::Received(reply(request_id, message)))
    };
    assert!(matches!(receive(Some(3), resources(1)), Some(SetupAction::Receive)));
    assert!(matches!(receive(None, resources(2)), Some(SetupAction::Receive)));
    let changed = MetadataMessage::AlertsChanged { snapshot: alerts(4) };
    assert!(matches!(receive(Some(2), changed), Some(SetupAction::Receive)));
    let answer = MetadataMessage::AlertsChanged { snapshot: alerts(5) };
    assert!(matches!(receive(Some(3), answer), Some(SetupAction::Receive)));
    let changed = MetadataMessage::ExtensionCatalogChanged { catalog: catalog(8) };
    assert!(matches!(receive(None, changed), Some(SetupAction::Receive)));
    match receive(Some(2), resources(6)) {
        Some(SetupAction::Complete(initial)) => {
            assert_eq!(initial.resources.revision, 6);
            assert_eq!(initial.presence.revision, 6);
            assert_eq!(initial.alerts.unwrap().revision, 5);
            assert_eq!(initial.catalog.unwrap().generation, 8);
        }
        action => panic!("{action:?}"),
    }
}

#[test]
fn unsafe_version_text_and_other_handshake_faults_are_refused() {
    let failed = |received: Received, remote: bool| {
        let mut connection = SystemConnection::new(remote, PROTOCOL_VERSION);
        let (mut setup, _) = Initialization::begin(&connection, 9, client_version(), ids());
        setup.step(&mut connection, SetupSignal::Sent).unwrap();
        match setup.step(&mut connection, SetupSignal::Received(received)) {
            Some(SetupAction::Failed(error)) => error,
            action => panic!("{action:?}"),
        }
    };
    let unexpected = compatibility("unexpected message on metadata control connection");
    for version in ["0.22.0\u{1b}[2J", "", &"x".repeat(129)] {
        assert_eq!(failed(reply(None, welcome(version)), false), unexpected);
    }
    assert_eq!(failed(reply(Some(1), welcome("0.22.0")), true), unexpected);
    let selected = MetadataMessage::Welcome {
        version: PROTOCOL_VERSION,
        server_version: "0.22.0".into(),
        selected: true,
        extension_catalog: catalog(1),
    };
    assert_eq!(failed(reply(None, selected), false), unexpected);
    let invalid = compatibility("invalid remote handshake");
    assert_eq!(failed(reply(Some(1), welcome("0.22.0")), false), invalid);
    assert_eq!(
        failed(Received::EndOfStream, false),
        transient("endpoint disconnected during handshake")
    );
    let reset = transient("connection reset");
    assert_eq!(failed(Received::Failed(reset.clone()), false), reset);
}

#[test]
fn a_remote_handshake_is_correlated_and_grants_what_was_negotiated() {
    let mut connection = SystemConnection::new(true, PROTOCOL_VERSION);
    assert!(connection.strict_remote_handshake);
    let (mut setup, action) = Initialization::begin(&connection, 9, client_version(), ids());
    match action {
        SetupAction::Send { request_id: Some(1), request } => assert_eq!(
            request,
            Request::RemoteHello { client_version: client_version(), mode: ClientMode::Control }
        ),
        action => panic!("{action:?}"),
    }
    setup.step(&mut connection, SetupSignal::Sent).unwrap();
    let granted = Capabilities { health: true, ..Capabilities::default() };
    let answer = MetadataMessage::RemoteWelcome(RemoteWelcome {
        generation: 1,
        server_version: "9.9".into(),
        extension_catalog: None,
        selected: None,
        verdict: Ok(granted),
    });
    let action = setup.step(&mut connection, SetupSignal::Received(reply(Some(1), answer)));
    assert!(matches!(
        action,
        Some(SetupAction::Send { request_id: Some(2), request: Request::WatchResources })
    ));
    assert!(!connection.strict_remote_handshake);
    assert_eq!(connection.capabilities, Some(granted));
    // Alerts were not granted: none are watched, and none are taken.
    assert!(matches!(
        setup.step(&mut connection, SetupSignal::Sent),
        Some(SetupAction::Receive)
    ));
    match setup.step(&mut connection, SetupSignal::Received(reply(Some(2), resources(1)))) {
        Some(SetupAction::Complete(initial)) => {
            assert!(initial.alerts.is_none());
            assert!(initial.catalog.is_none());
        }
        action => panic!("{action:?}"),
    }
    let unasked = MetadataMessage::AlertsChanged { snapshot: alerts(1) };
    assert!(matches!(
        connection.received(reply(None, unasked)),
        Next::Fail(Failure { kind: FailureKind::Compatibility, .. })
    ));
}

#[test]
fn a_refused_or_lost_handshake_fails_with_its_reason() {
    let mut connection = SystemConnection::new(true, PROTOCOL_VERSION);
    let (mut setup, _) = Initialization::begin(&connection, 9, client_version(), ids());
    setup.step(&mut connection, SetupSignal::Sent).unwrap();
    let answer = MetadataMessage::RemoteWelcome(RemoteWelcome {
        generation: 2,
        server_version: "9.9".into(),
        extension_catalog: None,
        selected: None,
        verdict: Err(EndpointError::UnsupportedCodec),
    });
    match setup.step(&mut connection, SetupSignal::Received(reply(Some(1), answer))) {
        Some(SetupAction::Failed(error)) => {
            assert_eq!(error, compatibility("unsupported remote codec"))
        }
        action => panic!("{action:?}"),
    }
    assert!(setup.step(&mut connection, SetupSignal::Sent).is_none());
    let mut connection = local();
    let (mut setup, _) = Initialization::begin(&connection, 9, client_version(), ids());
    let lost = transient("broken pipe");
    assert!(
        matches!(setup.step(&mut connection, SetupSignal::SendFailed(lost.clone())), Some(SetupAction::Failed(error)) if error == lost)
    );
    let mut connection = local();
    let mut setup = collecting(&mut connection);
    assert!(
        matches!(setup.step(&mut connection, SetupSignal::Received(Received::EndOfStream)), Some(SetupAction::Failed(error)) if error == transient("endpoint disconnected before initial metadata"))
    );
}

#[test]
fn a_lost_bridge_is_diagnosed_and_the_failure_remembered() {
    let mut connection = SystemConnection::new(true, PROTOCOL_VERSION);
    assert!(connection.diagnosed("nothing failed").is_none());
    assert!(matches!(connection.received(Received::EndOfStream), Next::Diagnose));
    assert_eq!(
        connection.terminal_failure,
        Some(transient("SSH endpoint disconnected (EOF)"))
    );
    let error = connection.diagnosed("Host key verification failed.").unwrap();
    assert_eq!(error.kind, FailureKind::HostKey);
    assert_eq!(
        error.message,
        "SSH endpoint disconnected (EOF): Host key verification failed."
    );
    assert!(matches!(connection.next(), Next::Fail(repeated) if repeated == error));
    assert!(connection.ping().is_err());
    let mut connection = SystemConnection::new(true, PROTOCOL_VERSION);
    let typed = compatibility("bad frame");
    assert!(
        matches!(connection.received(Received::Failed(typed.clone())), Next::Fail(error) if error == typed)
    );
    let mut connection = SystemConnection::new(true, PROTOCOL_VERSION);
    assert!(matches!(connection.fail(transient("reset")), Next::Diagnose));
}

#[test]
fn a_failed_attempt_is_remembered_and_a_lost_bridge_diagnosed() {
    let mut connection = local();
    let timed_out = transient("initial metadata timed out");
    assert!(
        matches!(conclude(&mut connection, Exchange::TimedOut), Conclusion::Failed(Next::Fail(error)) if error == timed_out)
    );
    assert_eq!(connection.terminal_failure, Some(timed_out));
    let mut connection = SystemConnection::new(true, PROTOCOL_VERSION);
    assert!(matches!(
        conclude(&mut connection, Exchange::TimedOut),
        Conclusion::Failed(Next::Diagnose)
    ));
    let typed = compatibility("bad frame");
    assert!(
        matches!(conclude(&mut connection, Exchange::Failed(typed.clone())), Conclusion::Failed(Next::Fail(error)) if error == typed)
    );
    let mut connection = local();
    let initial = InitialMetadata {
        negotiation: Negotiation::Local { protocol_version: PROTOCOL_VERSION },
        resources: snapshot(4),
        presence: presence(4),
        alerts: None,
        catalog: None,
    };
    assert!(
        matches!(conclude(&mut connection, Exchange::Complete(initial)), Conclusion::Connected(initial) if initial.resources.revision == 4)
    );
    assert_eq!(connection.terminal_failure, None);
}
