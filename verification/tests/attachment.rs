//! Locality, remote attachments and the terminal benchmark.

use fut::client::attachment::{Attachment, ClientAction, Locality};
use fut::client::federation_transport::{RemoteWelcome, Request};
use fut::client::remote::{
    alert_watch, interactive, interactive_hello, materialize_ui, navigator, navigator_hello, negotiate,
    remote_hello, report_error, Answer, Attached, Materialized, RemoteFailure, RemoteReply,
};
use fut::protocol::{
    Capabilities, ClientMode, EndpointError, Envelope, ExtensionCatalog, TargetSelector,
};
use fut::terminal::bench::{EngineCall, VtBench};
use fut::terminal::{TerminalConfig, TerminalSize, DEFAULT_SCROLLBACK_BYTES};

#[test]
fn remote_locality_blocks_coincident_paths_pids_commands_forms_projects_and_hooks() {
    let remote = Attachment::Remote(Capabilities::default());
    assert!(remote.client_hooks().is_none());
    assert!(remote.local_socket().is_err());
    let path: &[u8] = b"/tmp/coincident";
    assert_eq!(Attachment::Local(path).local_socket().unwrap(), path);
    assert_eq!(Attachment::Local(path).client_hooks(), Some(path));
    let locality = remote.locality();
    for action in [
        ClientAction::RunCommand(0),
        ClientAction::RunCommand(1),
        ClientAction::RunCommand(2),
        ClientAction::RunCommand(3),
        ClientAction::OpenProject,
        ClientAction::ReloadConfig,
        ClientAction::ReloadProjectConfig,
    ] {
        let message = locality.blocked_action(action).unwrap();
        assert!(message.contains("unavailable during remote attachment"));
        assert_eq!(Attachment::Local(path).locality().blocked_action(action), None);
    }
    assert!(locality.blocked_command().unwrap().contains("commands unavailable"));
    assert_eq!(locality.blocked_action(ClientAction::Other), None);
    assert_eq!(Locality::Local.blocked_command(), None);
}

#[test]
fn remote_link_policy_applies_at_rendering_and_preserves_local_links() {
    for uri in [
        "file:///tmp/existing",
        "file://localhost/etc/passwd",
        "vscode://file/tmp/existing",
        "fut://pane/local",
        "/tmp/existing",
        "javascript:alert(1)",
        "https://example.com\x1b]8;;file:///tmp/x",
        "http://",
    ] {
        assert!(!Locality::Remote.shows_link(uri), "{uri}");
    }
    for uri in [
        "https://example.com",
        "http://example.com",
        "HTTPS://example.com",
    ] {
        assert!(Locality::Remote.shows_link(uri), "{uri}");
    }
    assert!(Locality::Local.shows_link("file:///tmp/existing"));
}

#[test]
fn links_are_permitted_by_scheme() {
    for (uri, permitted) in [
        ("hTTp://x", true),
        ("https://", false),
        ("https:/x", false),
        ("xhttp://x", false),
        ("http", false),
        ("ftp://http://x", false),
        ("http://x://y", true),
    ] {
        assert_eq!(Locality::Remote.permits_link(uri), permitted, "{uri}");
        assert!(Locality::Local.permits_link(uri));
    }
}

fn answer(request_id: Option<u128>, message: RemoteReply) -> Answer {
    Answer::Reply(Envelope { request_id, message })
}

fn welcomed(verdict: Result<Capabilities, EndpointError>) -> RemoteWelcome {
    RemoteWelcome {
        generation: 1,
        server_version: "9.9".into(),
        extension_catalog: Some(ExtensionCatalog {
            generation: 7,
            fingerprint: "f".into(),
            extensions: String::new(),
            config: String::new(),
        }),
        selected: Some("view".into()),
        verdict,
    }
}

fn endpoint(result: Result<Attached, RemoteFailure>) -> EndpointError {
    match result {
        Err(RemoteFailure::Endpoint(error)) => error,
        other => panic!("{other:?}"),
    }
}

fn text(result: Result<Attached, RemoteFailure>) -> String {
    match result {
        Err(RemoteFailure::Other(text)) => text,
        other => panic!("{other:?}"),
    }
}

#[test]
fn a_remote_handshake_has_one_outcome_for_each_answer() {
    let granted = Capabilities { alerts: true, ..Capabilities::default() };
    let welcome = |selected| RemoteReply::Welcome { welcome: welcomed(Ok(granted)), selected };
    let attached = negotiate(1, answer(Some(1), welcome(None))).unwrap();
    assert_eq!(attached.capabilities, granted);
    let attached = negotiate(1, answer(Some(1), welcome(Some(true)))).unwrap();
    assert_eq!(attached.capabilities, granted);
    let invalid = EndpointError::InvalidHandshake;
    assert_eq!(endpoint(negotiate(1, answer(Some(1), welcome(Some(false))))), invalid);
    assert_eq!(endpoint(negotiate(1, answer(Some(2), welcome(None)))), invalid);
    assert_eq!(endpoint(negotiate(1, answer(None, welcome(None)))), invalid);
    assert_eq!(endpoint(negotiate(1, answer(Some(1), RemoteReply::Other))), invalid);
    assert_eq!(endpoint(negotiate(1, Answer::Unreadable)), invalid);
    let codec = EndpointError::UnsupportedCodec;
    assert_eq!(endpoint(negotiate(1, Answer::Undecodable(codec))), codec);
    let refused = RemoteReply::Welcome { welcome: welcomed(Err(codec)), selected: Some(false) };
    assert_eq!(endpoint(negotiate(1, answer(Some(1), refused))), codec);
    let method = EndpointError::MethodNotNegotiated;
    let error = RemoteReply::EndpointError { error: method };
    assert_eq!(endpoint(negotiate(1, answer(Some(1), error))), method);
    let error = RemoteReply::Error { code: "busy".into(), message: "later".into() };
    assert_eq!(
        text(negotiate(1, answer(Some(1), error))),
        "remote daemon error (busy): later"
    );
    assert_eq!(text(negotiate(1, Answer::TimedOut)), "remote handshake timed out");
    assert_eq!(
        text(negotiate(1, Answer::Disconnected)),
        "remote daemon disconnected during handshake"
    );
}

#[test]
fn a_settled_handshake_hands_the_welcome_back() {
    let granted = Capabilities { health: true, ..Capabilities::default() };
    let reply = RemoteReply::Welcome { welcome: welcomed(Ok(granted)), selected: Some(true) };
    let attached = negotiate(1, answer(Some(1), reply)).unwrap();
    assert_eq!(attached.capabilities, granted);
    assert_eq!(attached.welcome.generation, 1);
    assert_eq!(attached.welcome.server_version, "9.9");
    assert_eq!(attached.welcome.extension_catalog.unwrap().generation, 7);
    assert_eq!(attached.welcome.selected, Some("view".to_string()));
}

#[test]
fn each_client_offers_its_mode_and_version() {
    let version = || "0.22.0".to_string();
    let (first, request) = navigator_hello(version());
    assert_eq!(
        request,
        Request::RemoteHello { client_version: version(), mode: ClientMode::Control }
    );
    assert_ne!(first, navigator_hello(version()).0);
    let size = TerminalSize { columns: 80, rows: 24 };
    let selector = TargetSelector { encoded: "pane".into() };
    let mode = ClientMode::Interactive { size, selector: Some(selector.clone()) };
    let offered = Request::RemoteHello { client_version: version(), mode: mode.clone() };
    assert_eq!(interactive_hello(selector, size, version()).1, offered);
    assert_eq!(remote_hello(mode, version()).1, offered);
}

#[test]
fn attached_clients_ask_for_what_was_negotiated() {
    let (id, request) = navigator();
    assert!(id.is_some());
    assert_eq!(request, Request::WatchResources);
    let alerts = Capabilities { alerts: true, ..Capabilities::default() };
    assert_eq!(
        alert_watch(alerts, 5),
        Some((None, Request::WatchAlerts { client_id: 5 }))
    );
    let watched = || match interactive(alerts) {
        Some((None, Request::WatchAlerts { client_id })) => client_id,
        asked => panic!("{asked:?}"),
    };
    assert_ne!(watched(), watched());
    let control = Capabilities { control_alerts: true, ..Capabilities::default() };
    assert_eq!(alert_watch(control, 5), None);
    assert_eq!(interactive(control), None);
}

#[test]
fn a_newer_catalog_costs_only_extension_presentation() {
    assert!(matches!(materialize_ui::<u8, &str>(Ok(1), true), Materialized::Use(1)));
    assert!(matches!(
        materialize_ui::<u8, &str>(Err("new"), true),
        Materialized::WithoutCatalog
    ));
    assert!(matches!(
        materialize_ui::<u8, &str>(Err("bad"), false),
        Materialized::Fail("bad")
    ));
}

#[test]
fn reported_errors_keep_the_endpoint_s_type() {
    let typed = RemoteFailure::Endpoint(EndpointError::MissingRequiredCapability);
    let reported = report_error(typed, "one line".into());
    assert_eq!(reported.text(), "missing required remote capability");
    assert!(matches!(reported, RemoteFailure::Endpoint(_)));
    let reported = report_error(RemoteFailure::Other("a\nb".into()), "a b".into());
    assert_eq!(reported.text(), "a b");
    assert_eq!(EndpointError::MethodNotNegotiated.text(), "remote method was not negotiated");
}

#[test]
fn the_bench_passes_bytes_on_as_they_are() {
    let size = TerminalSize { columns: 80, rows: 24 };
    let (mut bench, open) = VtBench::new(size);
    assert_eq!(
        open,
        EngineCall::Open { size, scrollback_bytes: 100 * 1024 * 1024 }
    );
    assert_eq!(bench.feed(b"\x1b[2J"), EngineCall::Feed(b"\x1b[2J"));
    assert_eq!(bench.write(b"x"), EngineCall::Write(b"x"));
    assert_eq!(bench.snapshot(), EngineCall::SnapshotAfterFeed);
    assert_eq!(TerminalConfig::default().scrollback_bytes, DEFAULT_SCROLLBACK_BYTES);
}
