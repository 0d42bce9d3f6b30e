//! Attaching to a remote daemon: what its answer to the hello means, and what is
//! asked next.

use vstd::prelude::*;

use crate::client::federation_transport::{RemoteWelcome, Request};
use crate::identity::{self, fresh_id};
use crate::protocol::{
    Capabilities, Capability, ClientMode, EndpointError, Envelope, TargetSelector,
};
use crate::terminal::TerminalSize;

verus! {

/// Why an attachment failed. Endpoint failures keep their type.
#[derive(Debug)]
pub enum RemoteFailure {
    Endpoint(EndpointError),
    Other(String),
}

impl RemoteFailure {
    pub open spec fn wording(self) -> Seq<char> {
        match self {
            RemoteFailure::Endpoint(error) => error.wording(),
            RemoteFailure::Other(text) => text@,
        }
    }

    /// The failure in words.
    pub fn text(&self) -> (r: String)
        ensures
            r@ == self.wording(),
    {
        match self {
            RemoteFailure::Endpoint(error) => error.text(),
            RemoteFailure::Other(text) => text.clone(),
        }
    }

    pub open spec fn is_endpoint(self, error: EndpointError) -> bool {
        self matches RemoteFailure::Endpoint(found) && found == error
    }

    pub open spec fn is_other(self, words: Seq<char>) -> bool {
        self matches RemoteFailure::Other(text) && text@ == words
    }
}

/// What a remote daemon may answer to the hello. Its texts are sanitized.
#[derive(Debug)]
pub enum RemoteReply {
    /// `selected` tells, where the welcome selects a view, whether it is a valid
    /// one.
    Welcome { welcome: RemoteWelcome, selected: Option<bool> },
    EndpointError { error: EndpointError },
    Error { code: String, message: String },
    Other,
}

/// What came while the answer was awaited.
#[derive(Debug)]
pub enum Answer {
    TimedOut,
    Disconnected,
    Unreadable,
    /// The frame is no handshake, and how so.
    Undecodable(EndpointError),
    Reply(Envelope<RemoteReply>),
}

/// A settled handshake: the welcome that was received, and the capabilities that
/// the offered hello accepts of it.
#[derive(Debug)]
pub struct Attached {
    pub welcome: RemoteWelcome,
    pub capabilities: Capabilities,
}

/// The handshake's one request, under a fresh identity.
pub fn remote_hello(mode: ClientMode, client_version: String) -> (r: (u128, Request))
    ensures
        identity::marked_random(r.0),
        r.1 == (Request::RemoteHello { client_version, mode }),
{
    (fresh_id(), Request::RemoteHello { client_version, mode })
}

/// The navigator's handshake: it controls, and attaches to nothing.
pub fn navigator_hello(client_version: String) -> (r: (u128, Request))
    ensures
        identity::marked_random(r.0),
        r.1 == (Request::RemoteHello { client_version, mode: ClientMode::Control }),
{
    remote_hello(ClientMode::Control, client_version)
}

/// An interactive client's handshake: it attaches to what the selector names, at
/// its terminal's size.
pub fn interactive_hello(
    selector: TargetSelector,
    size: TerminalSize,
    client_version: String,
) -> (r: (u128, Request))
    ensures
        identity::marked_random(r.0),
        r.1 == (Request::RemoteHello {
            client_version,
            mode: ClientMode::Interactive { size, selector: Some(selector) },
        }),
{
    remote_hello(ClientMode::Interactive { size, selector: Some(selector) }, client_version)
}

/// `r` is what this answer makes of a handshake that was asked for under this
/// identity.
pub open spec fn settles(
    request_id: u128,
    answer: Answer,
    r: Result<Attached, RemoteFailure>,
) -> bool {
    match answer {
        Answer::TimedOut => r matches Err(e) && e.is_other("remote handshake timed out"@),
        Answer::Disconnected => r matches Err(e) && e.is_other(
            "remote daemon disconnected during handshake"@,
        ),
        Answer::Unreadable => r matches Err(e) && e.is_endpoint(
            EndpointError::InvalidHandshake,
        ),
        Answer::Undecodable(error) => r matches Err(e) && e.is_endpoint(error),
        Answer::Reply(envelope) => if envelope.request_id != Some(request_id) {
            r matches Err(e) && e.is_endpoint(EndpointError::InvalidHandshake)
        } else {
            match envelope.message {
                RemoteReply::Welcome { welcome, selected } => match welcome.verdict {
                    Err(error) => r matches Err(e) && e.is_endpoint(error),
                    Ok(capabilities) => if selected == Some(false) {
                        r matches Err(e) && e.is_endpoint(EndpointError::InvalidHandshake)
                    } else {
                        r matches Ok(attached) && attached.welcome == welcome
                            && attached.capabilities == capabilities
                    },
                },
                RemoteReply::EndpointError { error } => r matches Err(e) && e.is_endpoint(
                    error,
                ),
                RemoteReply::Error { code, message } => r matches Err(e) && e.is_other(
                    "remote daemon error ("@ + code@ + "): "@ + message@,
                ),
                RemoteReply::Other => r matches Err(e) && e.is_endpoint(
                    EndpointError::InvalidHandshake,
                ),
            }
        },
    }
}

/// The outcome of a handshake that was asked for under this identity.
pub fn negotiate(request_id: u128, answer: Answer) -> (r: Result<Attached, RemoteFailure>)
    ensures
        settles(request_id, answer, r),
{
    let envelope = match answer {
        Answer::TimedOut => {
            return Err(RemoteFailure::Other("remote handshake timed out".to_owned()));
        },
        Answer::Disconnected => {
            return Err(
                RemoteFailure::Other("remote daemon disconnected during handshake".to_owned()),
            );
        },
        Answer::Unreadable => {
            return Err(RemoteFailure::Endpoint(EndpointError::InvalidHandshake));
        },
        Answer::Undecodable(error) => {
            return Err(RemoteFailure::Endpoint(error));
        },
        Answer::Reply(envelope) => envelope,
    };
    let correlated: bool = match envelope.request_id {
        Some(id) => id == request_id,
        None => false,
    };
    if !correlated {
        return Err(RemoteFailure::Endpoint(EndpointError::InvalidHandshake));
    }
    match envelope.message {
        RemoteReply::Welcome { welcome, selected } => match welcome.verdict {
            Err(error) => Err(RemoteFailure::Endpoint(error)),
            Ok(capabilities) => match selected {
                Some(false) => Err(RemoteFailure::Endpoint(EndpointError::InvalidHandshake)),
                _ => Ok(Attached { welcome, capabilities }),
            },
        },
        RemoteReply::EndpointError { error } => Err(RemoteFailure::Endpoint(error)),
        RemoteReply::Error { code, message } => Err(
            RemoteFailure::Other(
                "remote daemon error (".to_owned().concat(code.as_str()).concat("): ").concat(
                    message.as_str(),
                ),
            ),
        ),
        RemoteReply::Other => Err(RemoteFailure::Endpoint(EndpointError::InvalidHandshake)),
    }
}

/// What the navigator asks once it is attached: resources, under a fresh
/// identity.
pub fn navigator() -> (r: (Option<u128>, Request))
    ensures
        r.0 matches Some(id) && identity::marked_random(id),
        r.1 == Request::WatchResources,
{
    (Some(fresh_id()), Request::WatchResources)
}

/// The request for alerts under this client's identity, uncorrelated, where
/// alerts were negotiated.
pub fn alert_watch(capabilities: Capabilities, client_id: u128) -> (r: Option<
    (Option<u128>, Request),
>)
    ensures
        r == (if capabilities.grants(Capability::Alerts) {
            Some((None::<u128>, Request::WatchAlerts { client_id }))
        } else {
            None
        }),
{
    if capabilities.contains(Capability::Alerts) {
        Some((None, Request::WatchAlerts { client_id }))
    } else {
        None
    }
}

/// What an interactive client asks once it is attached: alerts, under a fresh
/// client identity, where they were negotiated.
pub fn interactive(capabilities: Capabilities) -> (r: Option<(Option<u128>, Request)>)
    ensures
        r is Some <==> capabilities.grants(Capability::Alerts),
        r matches Some(asked) ==> asked.0 is None && (asked.1 matches Request::WatchAlerts {
            client_id,
        } && identity::marked_random(client_id)),
{
    alert_watch(capabilities, fresh_id())
}

/// What becomes of a presentation.
#[derive(Debug)]
pub enum Materialized<T, E> {
    Use(T),
    /// Try once more, without the catalog.
    WithoutCatalog,
    Fail(E),
}

/// An optional remote catalog can be newer than this renderer. In that case only
/// extension presentation is disabled, instead of losing the attachment.
pub fn materialize_ui<T, E>(attempt: Result<T, E>, with_catalog: bool) -> (r: Materialized<T, E>)
    ensures
        r == (match attempt {
            Ok(ui) => Materialized::Use(ui),
            Err(error) => if with_catalog {
                Materialized::WithoutCatalog
            } else {
                Materialized::Fail(error)
            },
        }),
{
    match attempt {
        Ok(ui) => Materialized::Use(ui),
        Err(error) => if with_catalog {
            Materialized::WithoutCatalog
        } else {
            Materialized::Fail(error)
        },
    }
}

/// The failure as it is reported: one of the endpoint keeps its type, any other
/// becomes its one-line text.
pub fn report_error(error: RemoteFailure, one_line: String) -> (r: RemoteFailure)
    ensures
        r == (match error {
            RemoteFailure::Endpoint(_) => error,
            RemoteFailure::Other(_) => RemoteFailure::Other(one_line),
        }),
{
    match error {
        RemoteFailure::Endpoint(error) => RemoteFailure::Endpoint(error),
        RemoteFailure::Other(_) => RemoteFailure::Other(one_line),
    }
}

/// A handshake succeeds exactly on the welcome that answers its own request, that
/// the offered hello accepts, and whose selected view, if any, is valid. What is
/// handed back is that very welcome, with exactly the capabilities accepted of it.
pub proof fn law_only_an_accepted_welcome_attaches(
    request_id: u128,
    answer: Answer,
    r: Result<Attached, RemoteFailure>,
)
    requires
        settles(request_id, answer, r),
    ensures
        r is Ok <==> (answer matches Answer::Reply(envelope) && envelope.request_id == Some(
            request_id,
        ) && (envelope.message matches RemoteReply::Welcome { welcome, selected }
            && welcome.verdict is Ok && selected != Some(false))),
        r matches Ok(attached) ==> (answer matches Answer::Reply(envelope) && (
        envelope.message matches RemoteReply::Welcome { welcome, .. } && attached.welcome == welcome
            && welcome.verdict == Ok::<Capabilities, EndpointError>(attached.capabilities))),
        answer matches Answer::Undecodable(error) ==> r == Err::<Attached, RemoteFailure>(
            RemoteFailure::Endpoint(error),
        ),
        answer matches Answer::Reply(envelope) ==> {
            let own = envelope.request_id == Some(request_id);
            &&& !own ==> r == Err::<Attached, RemoteFailure>(
                RemoteFailure::Endpoint(EndpointError::InvalidHandshake),
            )
            &&& own ==> (envelope.message matches RemoteReply::EndpointError { error } ==> r == Err::<
                Attached,
                RemoteFailure,
            >(RemoteFailure::Endpoint(error)))
        },
        answer is TimedOut || answer is Disconnected ==> (r matches Err(RemoteFailure::Other(_))),
{
}

} // verus!
