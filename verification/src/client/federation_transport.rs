//! Metadata-only connections over the private socket and the background SSH
//! bridge: what is sent, what each message means, and what each failure is.
//!
//! The caller owns the stream. It encodes requests, decodes replies, and hands
//! over what it received.

use std::collections::VecDeque;

use vstd::prelude::*;

use crate::client::federation::{
    EndpointSpec, Failure, FailureKind, InitialMetadata, Negotiation, Update,
};
use crate::duration::Duration;
use crate::identity::{self, fresh_id};
use crate::protocol::{
    Capabilities, Capability, ClientAlertSnapshot, ClientMode, ClientPresenceSnapshot,
    EndpointError, Envelope, ExtensionCatalog, ResourceSnapshot,
};
use crate::ssh_bridge::{self, validate_destination};
use crate::text::{
    self, chars_of, contains, decimal_of, has_control, printable_prefix, split_lines, string_of,
    to_lowercase, trim,
};

verus! {

pub const MAX_INITIAL_RESPONSES: usize = 64;

/// A failure's message keeps at most this many characters.
pub const MAX_MESSAGE_CHARS: usize = 1024;

pub const MAX_SERVER_VERSION_BYTES: usize = 128;

/// How long connecting to the local socket may take, and how long the initial
/// exchange.
pub fn initial_timeout() -> (r: Duration)
    ensures
        r@ == 10_000_000_000,
{
    Duration::from_secs(10)
}

/// How long a failed SSH client's remaining diagnostics are waited for.
pub fn diagnostic_timeout() -> (r: Duration)
    ensures
        r@ == 250_000_000,
{
    Duration::from_millis(250)
}

// ---------------------------------------------------------------------------
// Failures

/// A message as it is kept: printable, and cut to a bounded length.
pub open spec fn shown(message: Seq<char>) -> Seq<char> {
    if text::printable(message).len() <= MAX_MESSAGE_CHARS {
        text::printable(message)
    } else {
        text::printable(message).take(MAX_MESSAGE_CHARS as int)
    }
}

/// `failure` is of this kind and says this.
pub open spec fn says(failure: Failure, kind: FailureKind, message: Seq<char>) -> bool {
    failure.kind == kind && failure.message@ == shown(message)
}

pub fn failure(kind: FailureKind, message: &str) -> (r: Failure)
    ensures
        says(r, kind, message@),
{
    Failure { kind, message: printable_prefix(message, MAX_MESSAGE_CHARS) }
}

pub fn transient(message: &str) -> (r: Failure)
    ensures
        says(r, FailureKind::Transient, message@),
{
    failure(FailureKind::Transient, message)
}

pub fn compatibility(message: &str) -> (r: Failure)
    ensures
        says(r, FailureKind::Compatibility, message@),
{
    failure(FailureKind::Compatibility, message)
}

/// The kinds of I/O errors that are told apart.
#[derive(Clone, Copy, Debug, PartialEq, Eq, Structural)]
pub enum IoErrorKind {
    NotFound,
    InvalidData,
    BrokenPipe,
    UnexpectedEof,
    ConnectionReset,
    TimedOut,
    Other,
}

/// The kind of failure that an I/O error of the stream is.
pub open spec fn transport_kind(kind: IoErrorKind) -> FailureKind {
    if kind == IoErrorKind::InvalidData {
        FailureKind::Compatibility
    } else {
        FailureKind::Transient
    }
}

/// The codec reports invalid and oversized frames as invalid data; broken pipes,
/// resets, partial-frame EOF and other I/O failures retry.
pub fn transport_failure(kind: IoErrorKind, message: &str) -> (r: Failure)
    ensures
        says(r, transport_kind(kind), message@),
{
    if kind == IoErrorKind::InvalidData {
        compatibility(message)
    } else {
        transient(message)
    }
}

/// `r` is what a failure to start the SSH bridge means.
pub open spec fn bridge_fails(io: Option<IoErrorKind>, message: Seq<char>, r: Failure) -> bool {
    if io == Some(IoErrorKind::NotFound) {
        says(r, FailureKind::Installation, "OpenSSH executable is unavailable"@)
    } else {
        says(r, FailureKind::Transient, message)
    }
}

/// What a failure to start the SSH bridge means; `io` is the kind of the I/O
/// error where that is what failed.
pub fn bridge_failure(io: Option<IoErrorKind>, message: &str) -> (r: Failure)
    ensures
        bridge_fails(io, message@, r),
{
    match io {
        Some(IoErrorKind::NotFound) => failure(
            FailureKind::Installation,
            "OpenSSH executable is unavailable",
        ),
        _ => transient(message),
    }
}

pub fn socket_timed_out() -> (r: Failure)
    ensures
        says(r, FailureKind::Transient, "local socket connection timed out"@),
{
    transient("local socket connection timed out")
}

/// How an endpoint is reached.
#[derive(Debug, PartialEq, Eq)]
pub enum Route {
    LocalSocket,
    SshBridge(String),
}

/// `r` is the route to an endpoint.
pub open spec fn leads(spec: EndpointSpec, r: Result<Route, Failure>) -> bool {
    match spec {
        EndpointSpec::Local => r == Ok::<Route, Failure>(Route::LocalSocket),
        EndpointSpec::Ssh(machine) => match ssh_bridge::destination_fault(machine.target@) {
            None => r matches Ok(Route::SshBridge(target)) && target == machine.target,
            Some(fault) => r matches Err(failure) && says(
                failure,
                FailureKind::Compatibility,
                fault.wording(),
            ),
        },
    }
}

/// The route to an endpoint. A saved target that is no SSH destination is never
/// handed to SSH.
pub fn route(spec: &EndpointSpec) -> (r: Result<Route, Failure>)
    ensures
        leads(*spec, r),
{
    match spec {
        EndpointSpec::Local => Ok(Route::LocalSocket),
        EndpointSpec::Ssh(machine) => match validate_destination(machine.target.as_str()) {
            Ok(()) => Ok(Route::SshBridge(machine.target.clone())),
            Err(fault) => Err(compatibility(fault.text())),
        },
    }
}

// ---------------------------------------------------------------------------
// SSH diagnostics

/// A host key that SSH does not accept.
pub open spec fn blames_host_key(diagnostic: Seq<char>) -> bool {
    ||| text::mentions(diagnostic, "host key verification failed"@)
    ||| text::mentions(diagnostic, "remote host identification has changed"@)
    ||| text::mentions(diagnostic, "host key has changed"@)
    ||| text::mentions(diagnostic, "no matching host key type found"@)
    ||| text::mentions(diagnostic, "requested strict checking"@)
}

fn host_key_blamed(diagnostic: &[char]) -> (r: bool)
    ensures
        r == blames_host_key(diagnostic@),
{
    contains(diagnostic, "host key verification failed") || contains(
        diagnostic,
        "remote host identification has changed",
    ) || contains(diagnostic, "host key has changed") || contains(
        diagnostic,
        "no matching host key type found",
    ) || contains(diagnostic, "requested strict checking")
}

/// Credentials that the host does not accept, or that SSH cannot use.
pub open spec fn blames_credentials(diagnostic: Seq<char>) -> bool {
    ||| text::mentions(diagnostic, "permission denied ("@)
    ||| text::mentions(diagnostic, "authentication failed"@)
    ||| text::mentions(diagnostic, "too many authentication failures"@)
    ||| text::mentions(diagnostic, "no supported authentication methods"@)
    ||| text::mentions(diagnostic, "sign_and_send_pubkey: signing failed"@)
    ||| text::mentions(diagnostic, "load key "@)
    ||| text::mentions(diagnostic, "unprotected private key file"@)
}

fn credentials_blamed(diagnostic: &[char]) -> (r: bool)
    ensures
        r == blames_credentials(diagnostic@),
{
    contains(diagnostic, "permission denied (") || contains(diagnostic, "authentication failed")
        || contains(diagnostic, "too many authentication failures") || contains(
        diagnostic,
        "no supported authentication methods",
    ) || contains(diagnostic, "sign_and_send_pubkey: signing failed") || contains(
        diagnostic,
        "load key ",
    ) || contains(diagnostic, "unprotected private key file")
}

/// The shell could not run the remote executable. Complaints about a socket or
/// a connection are not about the executable.
pub open spec fn lacks_executable(line: Seq<char>) -> bool {
    &&& text::mentions(line, "fut"@)
    &&& {
        ||| text::mentions(line, "command not found"@)
        ||| text::mentions(line, "not found"@)
        ||| text::mentions(line, "no such file or directory"@)
        ||| text::mentions(line, "permission denied"@)
        ||| text::mentions(line, "cannot execute"@)
        ||| text::mentions(line, "exec format error"@)
    }
    &&& !text::mentions(line, "connect"@)
    &&& !text::mentions(line, ".sock"@)
}

/// The remote executable is too old to know the bridge.
pub open spec fn lacks_bridge(line: Seq<char>) -> bool {
    &&& text::mentions(line, "__stdio-bridge"@)
    &&& {
        ||| text::mentions(line, "unrecognized"@)
        ||| text::mentions(line, "unknown"@)
        ||| text::mentions(line, "unexpected"@)
        ||| text::mentions(line, "invalid subcommand"@)
    }
}

pub open spec fn lacks_library(line: Seq<char>) -> bool {
    text::mentions(line, "error while loading shared libraries"@) || text::mentions(
        line,
        "dyld: library not loaded"@,
    )
}

pub open spec fn line_blames_installation(line: Seq<char>) -> bool {
    lacks_executable(line) || lacks_bridge(line) || lacks_library(line)
}

fn installation_blamed_in(line: &[char]) -> (r: bool)
    ensures
        r == line_blames_installation(line@),
{
    let executable: bool = contains(line, "fut") && (contains(line, "command not found")
        || contains(line, "not found") || contains(line, "no such file or directory") || contains(
        line,
        "permission denied",
    ) || contains(line, "cannot execute") || contains(line, "exec format error")) && !contains(
        line,
        "connect",
    ) && !contains(line, ".sock");
    let bridge: bool = contains(line, "__stdio-bridge") && (contains(line, "unrecognized")
        || contains(line, "unknown") || contains(line, "unexpected") || contains(
        line,
        "invalid subcommand",
    ));
    executable || bridge || contains(line, "error while loading shared libraries") || contains(
        line,
        "dyld: library not loaded",
    )
}

/// Some line of the diagnostic says that the remote side is not installed, or
/// not in working order.
pub open spec fn blames_installation(diagnostic: Seq<char>) -> bool {
    exists|i: int|
        0 <= i < text::lines_of(diagnostic).len() && line_blames_installation(
            #[trigger] text::lines_of(diagnostic)[i],
        )
}

fn installation_blamed(diagnostic: &[char]) -> (r: bool)
    ensures
        r == blames_installation(diagnostic@),
{
    let lines = split_lines(diagnostic);
    let mut i: usize = 0;
    while i < lines.len()
        invariant
            text::texts(lines@) == text::lines_of(diagnostic@),
            i <= lines.len(),
            forall|k: int|
                0 <= k < i ==> !line_blames_installation(
                    #[trigger] text::lines_of(diagnostic@)[k],
                ),
        decreases lines.len() - i,
    {
        proof {
            assert(text::texts(lines@)[i as int] == lines@[i as int]@);
        }
        if installation_blamed_in(lines[i].as_slice()) {
            proof {
                assert(line_blames_installation(text::lines_of(diagnostic@)[i as int]));
            }
            return true;
        }
        i += 1;
    }
    false
}

/// What SSH's diagnostics make of a lost connection. Only explicit, actionable
/// ones inhibit automatic retries: a refused or missing daemon socket, a DNS
/// failure, a reset or a timeout is transient.
pub open spec fn diagnosed_kind(diagnostic: Seq<char>) -> FailureKind {
    let folded = text::lowercase(diagnostic);
    if blames_host_key(folded) {
        FailureKind::HostKey
    } else if blames_credentials(folded) {
        FailureKind::Authentication
    } else if blames_installation(folded) {
        FailureKind::Installation
    } else {
        FailureKind::Transient
    }
}

/// `classified` is `original` in the light of a diagnostic. A failure of another
/// kind, or an empty diagnostic, leaves it as it is.
pub open spec fn classified_as(
    original: Failure,
    diagnostic: Seq<char>,
    classified: Failure,
) -> bool {
    if original.kind != FailureKind::Transient || text::trimmed(diagnostic).len() == 0 {
        classified == original
    } else {
        says(
            classified,
            diagnosed_kind(diagnostic),
            original.message@ + ": "@ + text::trimmed(diagnostic),
        )
    }
}

pub fn classify_ssh_failure(original: Failure, diagnostic: &str) -> (r: Failure)
    ensures
        classified_as(original, diagnostic@, r),
{
    if original.kind != FailureKind::Transient {
        return original;
    }
    let chars = chars_of(diagnostic);
    let folded = to_lowercase(chars.as_slice());
    let kind = if host_key_blamed(folded.as_slice()) {
        FailureKind::HostKey
    } else if credentials_blamed(folded.as_slice()) {
        FailureKind::Authentication
    } else if installation_blamed(folded.as_slice()) {
        FailureKind::Installation
    } else {
        FailureKind::Transient
    };
    let trimmed = trim(chars.as_slice());
    if trimmed.len() == 0 {
        return original;
    }
    let message = original.message.concat(": ").concat(string_of(trimmed.as_slice()).as_str());
    failure(kind, message.as_str())
}

// ---------------------------------------------------------------------------
// Messages

/// A remote endpoint's answer to the hello. `selected` is the view that it
/// selected, encoded as text. `verdict` is what the offered hello makes of the
/// answer: the granted capabilities, or why it is not acceptable.
#[derive(Debug)]
pub struct RemoteWelcome {
    pub generation: u16,
    pub server_version: String,
    pub extension_catalog: Option<ExtensionCatalog>,
    pub selected: Option<String>,
    pub verdict: Result<Capabilities, EndpointError>,
}

/// What a control connection may receive. Terminal screens are not among it:
/// they arrive as `Unexpected`, never decoded.
#[derive(Debug)]
pub enum MetadataMessage {
    /// `selected` tells that the daemon selected a terminal for this client.
    Welcome {
        version: u16,
        server_version: String,
        selected: bool,
        extension_catalog: ExtensionCatalog,
    },
    RemoteWelcome(RemoteWelcome),
    EndpointError { error: EndpointError },
    IncompatibleProtocol { client: u16, server: u16 },
    Error { code: String, message: String },
    Resources { snapshot: ResourceSnapshot, presence: ClientPresenceSnapshot },
    ResourcesChanged { snapshot: ResourceSnapshot },
    PresenceChanged { presence: ClientPresenceSnapshot },
    AlertsChanged { snapshot: ClientAlertSnapshot },
    ExtensionCatalog { catalog: ExtensionCatalog },
    ExtensionCatalogChanged { catalog: ExtensionCatalog },
    Pong { daemon_pid: u32 },
    Detached,
    Unexpected,
}

/// The kind of failure that a message out of place stands for, and its words.
pub open spec fn refusal(message: MetadataMessage) -> (FailureKind, Seq<char>) {
    match message {
        MetadataMessage::EndpointError { error } => (FailureKind::Compatibility, error.wording()),
        MetadataMessage::IncompatibleProtocol { client, server } => (
            FailureKind::Compatibility,
            "incompatible local protocol: client "@ + text::decimal(client as nat) + ", server "@
                + text::decimal(server as nat),
        ),
        MetadataMessage::Error { code, message } => (
            FailureKind::Compatibility,
            "daemon error ("@ + code@ + "): "@ + message@,
        ),
        MetadataMessage::Detached => (FailureKind::Transient, "endpoint detached"@),
        _ => (
            FailureKind::Compatibility,
            "unexpected message on metadata control connection"@,
        ),
    }
}

pub fn message_failure(message: MetadataMessage) -> (r: Failure)
    ensures
        says(r, refusal(message).0, refusal(message).1),
{
    match message {
        MetadataMessage::EndpointError { error } => compatibility(error.text().as_str()),
        MetadataMessage::IncompatibleProtocol { client, server } => {
            let words = "incompatible local protocol: client ".to_owned().concat(
                decimal_of(client as u64).as_str(),
            ).concat(", server ").concat(decimal_of(server as u64).as_str());
            compatibility(words.as_str())
        },
        MetadataMessage::Error { code, message } => {
            let words = "daemon error (".to_owned().concat(code.as_str()).concat("): ").concat(
                message.as_str(),
            );
            compatibility(words.as_str())
        },
        MetadataMessage::Detached => transient("endpoint detached"),
        _ => compatibility("unexpected message on metadata control connection"),
    }
}

/// What the client sends.
#[derive(Debug, PartialEq, Eq)]
pub enum Request {
    Hello { version: u16, client_version: String, mode: ClientMode },
    RemoteHello { client_version: String, mode: ClientMode },
    WatchResources,
    WatchAlerts { client_id: u128 },
    Ping,
    ListResources,
}

impl Clone for Request {
    fn clone(&self) -> (r: Self)
        ensures
            r == *self,
    {
        match self {
            Request::Hello { version, client_version, mode } => Request::Hello {
                version: *version,
                client_version: client_version.clone(),
                mode: mode.clone(),
            },
            Request::RemoteHello { client_version, mode } => Request::RemoteHello {
                client_version: client_version.clone(),
                mode: mode.clone(),
            },
            Request::WatchResources => Request::WatchResources,
            Request::WatchAlerts { client_id } => Request::WatchAlerts { client_id: *client_id },
            Request::Ping => Request::Ping,
            Request::ListResources => Request::ListResources,
        }
    }
}

/// What the stream gave.
#[derive(Debug)]
pub enum Received {
    Reply(Envelope<MetadataMessage>),
    EndOfStream,
    Failed(Failure),
}

/// The request that the next health response must answer.
#[derive(Clone, Copy, Debug, PartialEq, Eq, Structural)]
pub enum Probe {
    Ping(u128),
    Resources(u128),
}

impl Probe {
    /// The reply is of the kind that was asked for, and to this request.
    pub open spec fn answered_by(self, reply: Envelope<MetadataMessage>) -> bool {
        match self {
            Probe::Ping(id) => reply.message is Pong && reply.request_id == Some(id),
            Probe::Resources(id) => reply.message is Resources && reply.request_id == Some(id),
        }
    }

    pub fn matches(self, reply: &Envelope<MetadataMessage>) -> (r: bool)
        ensures
            r == self.answered_by(*reply),
    {
        let (id, kind): (u128, bool) = match (self, &reply.message) {
            (Probe::Ping(id), MetadataMessage::Pong { daemon_pid: _ }) => (id, true),
            (Probe::Resources(id), MetadataMessage::Resources { snapshot: _, presence: _ }) => (
                id,
                true,
            ),
            (Probe::Ping(id), _) => (id, false),
            (Probe::Resources(id), _) => (id, false),
        };
        kind && answers(reply.request_id, id)
    }
}

fn answers(request_id: Option<u128>, id: u128) -> (r: bool)
    ensures
        r == (request_id == Some(id)),
{
    match request_id {
        Some(found) => found == id,
        None => false,
    }
}

fn same_request(a: Option<u128>, b: Option<u128>) -> (r: bool)
    ensures
        r == (a == b),
{
    match (a, b) {
        (Some(x), Some(y)) => x == y,
        (None, None) => true,
        _ => false,
    }
}

// ---------------------------------------------------------------------------
// The connection

/// A control connection without its stream.
#[derive(Debug)]
pub struct SystemConnection {
    /// An SSH bridge carries the stream.
    pub remote: bool,
    /// The private protocol's version.
    pub protocol_version: u16,
    /// Replies must still be read as a remote handshake.
    pub strict_remote_handshake: bool,
    /// What a remote endpoint granted; a local daemon grants everything.
    pub capabilities: Option<Capabilities>,
    pub pending: VecDeque<Update>,
    pub probe: Option<Probe>,
    pub terminal_failure: Option<Failure>,
}

/// What to do for the next update.
#[derive(Debug)]
pub enum Next {
    Yield(Update),
    /// Wait for a reply and hand it to `received`.
    Receive,
    /// The stream has ended.
    End,
    Fail(Failure),
    /// Wait for SSH's diagnostics and hand them to `diagnosed`.
    Diagnose,
}

pub open spec fn granted(capabilities: Option<Capabilities>, capability: Capability) -> bool {
    match capabilities {
        Some(capabilities) => capabilities.grants(capability),
        None => true,
    }
}

/// The updates that a message brings, or `None` where it is out of place.
pub open spec fn brings(
    capabilities: Option<Capabilities>,
    message: MetadataMessage,
) -> Option<Seq<Update>> {
    match message {
        MetadataMessage::Resources { snapshot, presence } => Some(
            seq![Update::Resources(snapshot), Update::Presence(presence)],
        ),
        MetadataMessage::ResourcesChanged { snapshot } => Some(seq![Update::Resources(snapshot)]),
        MetadataMessage::PresenceChanged { presence } => Some(seq![Update::Presence(presence)]),
        MetadataMessage::AlertsChanged { snapshot } => if granted(
            capabilities,
            Capability::ControlAlerts,
        ) {
            Some(seq![Update::Alerts(snapshot)])
        } else {
            None
        },
        MetadataMessage::ExtensionCatalog { catalog } => if granted(
            capabilities,
            Capability::ExtensionCatalog,
        ) {
            Some(seq![Update::Catalog(catalog)])
        } else {
            None
        },
        MetadataMessage::ExtensionCatalogChanged { catalog } => if granted(
            capabilities,
            Capability::ExtensionCatalog,
        ) {
            Some(seq![Update::Catalog(catalog)])
        } else {
            None
        },
        MetadataMessage::Pong { daemon_pid: _ } => if granted(capabilities, Capability::Health) {
            Some(seq![])
        } else {
            None
        },
        _ => None,
    }
}

/// The updates without health responses.
pub open spec fn without_health(updates: Seq<Update>) -> Seq<Update> {
    updates.filter(|update: Update| !(update is Healthy))
}

impl SystemConnection {
    /// Two connections that differ at most in what is queued, asked and failed.
    pub open spec fn same_link(self, other: Self) -> bool {
        &&& self.remote == other.remote
        &&& self.protocol_version == other.protocol_version
        &&& self.strict_remote_handshake == other.strict_remote_handshake
        &&& self.capabilities == other.capabilities
    }

    pub open spec fn answered(self, reply: Envelope<MetadataMessage>) -> bool {
        self.probe matches Some(probe) && probe.answered_by(reply)
    }

    pub fn new(remote: bool, protocol_version: u16) -> (r: Self)
        ensures
            r.remote == remote,
            r.protocol_version == protocol_version,
            r.strict_remote_handshake == remote,
            r.capabilities is None,
            r.pending@ == Seq::<Update>::empty(),
            r.probe is None,
            r.terminal_failure is None,
    {
        SystemConnection {
            remote,
            protocol_version,
            strict_remote_handshake: remote,
            capabilities: None,
            pending: VecDeque::new(),
            probe: None,
            terminal_failure: None,
        }
    }

    pub fn has(&self, capability: Capability) -> (r: bool)
        ensures
            r == granted(self.capabilities, capability),
    {
        match self.capabilities {
            Some(capabilities) => capabilities.contains(capability),
            None => true,
        }
    }

    /// `after` and `r` are what taking this reply in leads to.
    pub open spec fn accepts(
        self,
        reply: Envelope<MetadataMessage>,
        after: Self,
        r: Result<(), Failure>,
    ) -> bool {
        &&& after.same_link(self)
        &&& after.terminal_failure == self.terminal_failure
        &&& match brings(self.capabilities, reply.message) {
            Some(updates) => {
                &&& r is Ok
                &&& after.pending@ == self.pending@ + updates + (if self.answered(reply) {
                    seq![Update::Healthy]
                } else {
                    seq![]
                })
                &&& after.probe == (if self.answered(reply) {
                    None
                } else {
                    self.probe
                })
            },
            None => {
                &&& (r matches Err(failure) && says(
                    failure,
                    refusal(reply.message).0,
                    refusal(reply.message).1,
                ))
                &&& after == self
            },
        }
    }

    /// Queues what a reply brings, and after it a health response where the
    /// reply answers the current probe. A message out of place is a failure.
    pub fn accept(&mut self, reply: Envelope<MetadataMessage>) -> (r: Result<(), Failure>)
        ensures
            old(self).accepts(reply, *final(self), r),
    {
        let healthy: bool = match self.probe {
            Some(probe) => probe.matches(&reply),
            None => false,
        };
        let ghost before = self.pending@;
        let ghost updates = brings(self.capabilities, reply.message);
        match reply.message {
            MetadataMessage::Resources { snapshot, presence } => {
                self.pending.push_back(Update::Resources(snapshot));
                self.pending.push_back(Update::Presence(presence));
            },
            MetadataMessage::ResourcesChanged { snapshot } => {
                self.pending.push_back(Update::Resources(snapshot));
            },
            MetadataMessage::PresenceChanged { presence } => {
                self.pending.push_back(Update::Presence(presence));
            },
            MetadataMessage::AlertsChanged { snapshot } => {
                if !self.has(Capability::ControlAlerts) {
                    return Err(message_failure(MetadataMessage::AlertsChanged { snapshot }));
                }
                self.pending.push_back(Update::Alerts(snapshot));
            },
            MetadataMessage::ExtensionCatalog { catalog } => {
                if !self.has(Capability::ExtensionCatalog) {
                    return Err(message_failure(MetadataMessage::ExtensionCatalog { catalog }));
                }
                self.pending.push_back(Update::Catalog(catalog));
            },
            MetadataMessage::ExtensionCatalogChanged { catalog } => {
                if !self.has(Capability::ExtensionCatalog) {
                    return Err(
                        message_failure(MetadataMessage::ExtensionCatalogChanged { catalog }),
                    );
                }
                self.pending.push_back(Update::Catalog(catalog));
            },
            MetadataMessage::Pong { daemon_pid } => {
                if !self.has(Capability::Health) {
                    return Err(message_failure(MetadataMessage::Pong { daemon_pid }));
                }
            },
            message => {
                return Err(message_failure(message));
            },
        }
        proof {
            assert(self.pending@ =~= before + updates->0);
        }
        if healthy {
            self.probe = None;
            self.pending.push_back(Update::Healthy);
        }
        proof {
            assert(self.pending@ =~= before + updates->0 + (if healthy {
                seq![Update::Healthy]
            } else {
                seq![]
            }));
        }
        Ok(())
    }

    /// Remembers a failure, which every later call repeats. A transient failure
    /// of an SSH bridge is diagnosed first.
    pub fn fail(&mut self, error: Failure) -> (r: Next)
        ensures
            final(self).same_link(*old(self)),
            final(self).pending@ == old(self).pending@,
            final(self).probe == old(self).probe,
            final(self).terminal_failure == Some(error),
            if error.kind == FailureKind::Transient && old(self).remote {
                r is Diagnose
            } else {
                r == Next::Fail(error)
            },
    {
        self.terminal_failure = Some(error.clone());
        if error.kind == FailureKind::Transient && self.remote {
            Next::Diagnose
        } else {
            Next::Fail(error)
        }
    }

    /// `after` and `r` are what SSH's diagnostics make of the remembered failure.
    pub open spec fn diagnoses(
        self,
        diagnostic: Seq<char>,
        after: Self,
        r: Option<Failure>,
    ) -> bool {
        &&& after.same_link(self)
        &&& after.pending@ == self.pending@
        &&& after.probe == self.probe
        &&& match self.terminal_failure {
            Some(error) => r matches Some(failure) && classified_as(error, diagnostic, failure)
                && after.terminal_failure == Some(failure),
            None => r is None && after.terminal_failure is None,
        }
    }

    /// The remembered failure in the light of SSH's diagnostics.
    pub fn diagnosed(&mut self, diagnostic: &str) -> (r: Option<Failure>)
        ensures
            old(self).diagnoses(diagnostic@, *final(self), r),
    {
        match self.terminal_failure.as_ref() {
            Some(error) => {
                let failure = classify_ssh_failure(error.clone(), diagnostic);
                self.terminal_failure = Some(failure.clone());
                Some(failure)
            },
            None => None,
        }
    }

    /// The oldest queued update, or a call for more.
    fn take(&mut self) -> (r: Next)
        ensures
            final(self).same_link(*old(self)),
            final(self).probe == old(self).probe,
            final(self).terminal_failure == old(self).terminal_failure,
            if old(self).pending@.len() > 0 {
                r == Next::Yield(old(self).pending@[0]) && final(self).pending@ == old(
                    self,
                ).pending@.skip(1)
            } else {
                r is Receive && final(self).pending@ == old(self).pending@
            },
    {
        match self.pending.pop_front() {
            Some(update) => {
                proof {
                    assert(self.pending@ =~= old(self).pending@.skip(1));
                }
                Next::Yield(update)
            },
            None => Next::Receive,
        }
    }

    /// `after` and `r` are what asking for the next update leads to.
    pub open spec fn continues(self, after: Self, r: Next) -> bool {
        &&& after.same_link(self)
        &&& after.probe == self.probe
        &&& after.terminal_failure == self.terminal_failure
        &&& match self.terminal_failure {
            Some(error) => after.pending@ == self.pending@ && if error.kind
                == FailureKind::Transient && self.remote {
                r is Diagnose
            } else {
                r == Next::Fail(error)
            },
            None => if self.pending@.len() > 0 {
                r == Next::Yield(self.pending@[0]) && after.pending@ == self.pending@.skip(1)
            } else {
                r is Receive && after.pending@ == self.pending@
            },
        }
    }

    /// The next update: a remembered failure first, then what is queued, then
    /// what the stream brings.
    pub fn next(&mut self) -> (r: Next)
        ensures
            old(self).continues(*final(self), r),
    {
        match self.terminal_failure.as_ref() {
            Some(error) => {
                let error = error.clone();
                self.fail(error)
            },
            None => self.take(),
        }
    }

    /// `after` and `r` are what the stream's giving this leads to.
    pub open spec fn receives(self, received: Received, after: Self, r: Next) -> bool {
        &&& after.same_link(self)
        &&& match received {
            Received::Reply(reply) => match brings(self.capabilities, reply.message) {
                Some(updates) => {
                    let queue = self.pending@ + updates + (if self.answered(reply) {
                        seq![Update::Healthy]
                    } else {
                        seq![]
                    });
                    &&& after.terminal_failure == self.terminal_failure
                    &&& after.probe == (if self.answered(reply) {
                        None
                    } else {
                        self.probe
                    })
                    &&& if queue.len() > 0 {
                        r == Next::Yield(queue[0]) && after.pending@ == queue.skip(1)
                    } else {
                        r is Receive && after.pending@ == queue
                    }
                },
                None => {
                    let (kind, words) = refusal(reply.message);
                    &&& after.pending@ == self.pending@
                    &&& after.probe == self.probe
                    &&& (after.terminal_failure matches Some(failure) && says(
                        failure,
                        kind,
                        words,
                    ) && if kind == FailureKind::Transient && self.remote {
                        r is Diagnose
                    } else {
                        r == Next::Fail(failure)
                    })
                },
            },
            Received::EndOfStream => {
                &&& after.pending@ == self.pending@
                &&& after.probe == self.probe
                &&& if self.remote {
                    r is Diagnose && (after.terminal_failure matches Some(failure)
                        && says(
                        failure,
                        FailureKind::Transient,
                        "SSH endpoint disconnected (EOF)"@,
                    ))
                } else {
                    r is End && after.terminal_failure == self.terminal_failure
                }
            },
            Received::Failed(error) => {
                &&& after.pending@ == self.pending@
                &&& after.probe == self.probe
                &&& after.terminal_failure == Some(error)
                &&& if error.kind == FailureKind::Transient && self.remote {
                    r is Diagnose
                } else {
                    r == Next::Fail(error)
                }
            },
        }
    }

    /// What the stream gave while an update was awaited.
    pub fn received(&mut self, received: Received) -> (r: Next)
        ensures
            old(self).receives(received, *final(self), r),
    {
        match received {
            Received::Reply(reply) => match self.accept(reply) {
                Ok(()) => self.take(),
                Err(error) => self.fail(error),
            },
            Received::EndOfStream => {
                if self.remote {
                    let error = transient("SSH endpoint disconnected (EOF)");
                    self.fail(error)
                } else {
                    Next::End
                }
            },
            Received::Failed(error) => self.fail(error),
        }
    }

    /// Drops queued health responses.
    fn forget_health(&mut self)
        ensures
            final(self).same_link(*old(self)),
            final(self).probe == old(self).probe,
            final(self).terminal_failure == old(self).terminal_failure,
            final(self).pending@ == without_health(old(self).pending@),
    {
        let ghost all = self.pending@;
        let mut kept: VecDeque<Update> = VecDeque::new();
        let ghost mut i: int = 0;
        proof {
            assert(all.skip(0) =~= all);
            assert(all.take(0) =~= seq![]);
            reveal(Seq::filter);
        }
        loop
            invariant_except_break
                0 <= i <= all.len(),
                self.pending@ == all.skip(i),
                kept@ == without_health(all.take(i)),
                self.same_link(*old(self)),
                self.probe == old(self).probe,
                self.terminal_failure == old(self).terminal_failure,
            ensures
                kept@ == without_health(all),
                self.same_link(*old(self)),
                self.probe == old(self).probe,
                self.terminal_failure == old(self).terminal_failure,
            decreases self.pending@.len(),
        {
            match self.pending.pop_front() {
                None => {
                    proof {
                        assert(all.take(i) =~= all);
                    }
                    break;
                },
                Some(update) => {
                    proof {
                        assert(self.pending@ =~= all.skip(i + 1));
                        assert(all.take(i + 1).drop_last() =~= all.take(i));
                        reveal(Seq::filter);
                        i = i + 1;
                    }
                    match update {
                        Update::Healthy => {},
                        update => {
                            kept.push_back(update);
                        },
                    }
                },
            }
        }
        self.pending = kept;
    }

    /// Starts a probe under a fresh identity.
    pub fn ping(&mut self) -> (r: Result<(u128, Request), Failure>)
        ensures
            match old(self).terminal_failure {
                Some(error) => r == Err::<(u128, Request), Failure>(error) && *final(self) == *old(
                    self,
                ),
                None => r matches Ok((id, request)) && identity::marked_random(id) && old(
                    self,
                ).probing(id, request, *final(self)),
            },
    {
        match self.terminal_failure.as_ref() {
            Some(error) => Err(error.clone()),
            None => {
                let id: u128 = fresh_id();
                Ok((id, self.probe_with(id)))
            },
        }
    }

    /// `after` is this connection once a probe with this identity and request
    /// has superseded any earlier one.
    pub open spec fn probing(self, id: u128, request: Request, after: Self) -> bool {
        &&& after.same_link(self)
        &&& after.terminal_failure == self.terminal_failure
        &&& after.pending@ == without_health(self.pending@)
        &&& if granted(self.capabilities, Capability::Health) {
            after.probe == Some(Probe::Ping(id)) && request == Request::Ping
        } else {
            after.probe == Some(Probe::Resources(id)) && request == Request::ListResources
        }
    }

    /// Supersedes old probes before anything is written: a stale pong, a
    /// metadata event or a response of the wrong kind cannot satisfy this one.
    /// Ping is used where it was negotiated, and ListResources otherwise.
    pub fn probe_with(&mut self, id: u128) -> (r: Request)
        ensures
            old(self).probing(id, r, *final(self)),
    {
        let (probe, request): (Probe, Request) = if self.has(Capability::Health) {
            (Probe::Ping(id), Request::Ping)
        } else {
            (Probe::Resources(id), Request::ListResources)
        };
        self.probe = Some(probe);
        self.forget_health();
        request
    }
}

// ---------------------------------------------------------------------------
// The initial exchange

/// A daemon's version that may be shown: neither empty nor long, and printable.
pub open spec fn sound_version(version: Seq<char>) -> bool {
    0 < vstd::utf8::encode_utf8(version).len() <= MAX_SERVER_VERSION_BYTES && !text::holds_control(
        version,
    )
}

fn is_sound_version(version: &str) -> (r: bool)
    ensures
        r == sound_version(version@),
{
    let bytes: usize = version.as_bytes().len();
    bytes > 0 && bytes <= MAX_SERVER_VERSION_BYTES && !has_control(chars_of(version).as_slice())
}

/// What the handshake settled.
#[derive(Debug)]
pub struct Greeting {
    pub negotiation: Negotiation,
    pub catalog: Option<ExtensionCatalog>,
}

impl SystemConnection {
    /// What an answer to the hello means: the settled handshake, or the kind and
    /// the words of the failure.
    pub open spec fn greeting(
        self,
        request_id: Option<u128>,
        reply: Envelope<MetadataMessage>,
    ) -> Result<Greeting, (FailureKind, Seq<char>)> {
        if reply.request_id != request_id {
            Err((FailureKind::Compatibility, EndpointError::InvalidHandshake.wording()))
        } else {
            match reply.message {
                MetadataMessage::RemoteWelcome(welcome) if self.remote => match welcome.verdict {
                    Ok(capabilities) => Ok(
                        Greeting {
                            negotiation: Negotiation::Ssh {
                                protocol_generation: welcome.generation,
                                server_version: welcome.server_version,
                                capabilities,
                            },
                            catalog: welcome.extension_catalog,
                        },
                    ),
                    Err(error) => Err((FailureKind::Compatibility, error.wording())),
                },
                MetadataMessage::Welcome {
                    version,
                    server_version,
                    selected,
                    extension_catalog,
                } if !self.remote && !selected && version == self.protocol_version
                    && sound_version(server_version@) => Ok(
                    Greeting {
                        negotiation: Negotiation::Local { protocol_version: version },
                        catalog: Some(extension_catalog),
                    },
                ),
                message => Err(refusal(message)),
            }
        }
    }

    /// `after` and `outcome` are what the answer to the hello with this request
    /// identity leads to.
    pub open spec fn welcomed(
        self,
        request_id: Option<u128>,
        received: Received,
        after: Self,
        outcome: Result<Greeting, Failure>,
    ) -> bool {
        &&& after.remote == self.remote
        &&& after.protocol_version == self.protocol_version
        &&& after.pending == self.pending
        &&& after.probe == self.probe
        &&& after.terminal_failure == self.terminal_failure
        &&& match received {
            Received::Failed(error) => outcome == Err::<Greeting, Failure>(error) && after == self,
            Received::EndOfStream => (outcome matches Err(error) && says(
                error,
                FailureKind::Transient,
                "endpoint disconnected during handshake"@,
            )) && after == self,
            Received::Reply(reply) => {
                &&& !after.strict_remote_handshake
                &&& match self.greeting(request_id, reply) {
                    Ok(greeting) => {
                        &&& outcome == Ok::<Greeting, Failure>(greeting)
                        &&& after.capabilities == (match greeting.negotiation {
                            Negotiation::Ssh { capabilities, .. } => Some(capabilities),
                            Negotiation::Local { .. } => self.capabilities,
                        })
                    },
                    Err((kind, words)) => {
                        &&& (outcome matches Err(error) && says(error, kind, words))
                        &&& after.capabilities == self.capabilities
                    },
                }
            },
        }
    }

    /// Takes what came in answer to the hello with this request identity.
    pub fn welcome(&mut self, request_id: Option<u128>, received: Received) -> (r: Result<
        Greeting,
        Failure,
    >)
        ensures
            old(self).welcomed(request_id, received, *final(self), r),
    {
        let reply = match received {
            Received::Failed(error) => {
                return Err(error);
            },
            Received::EndOfStream => {
                return Err(transient("endpoint disconnected during handshake"));
            },
            Received::Reply(reply) => reply,
        };
        self.strict_remote_handshake = false;
        if !same_request(reply.request_id, request_id) {
            return Err(compatibility(EndpointError::InvalidHandshake.text().as_str()));
        }
        match reply.message {
            MetadataMessage::RemoteWelcome(welcome) => {
                if !self.remote {
                    return Err(message_failure(MetadataMessage::RemoteWelcome(welcome)));
                }
                match welcome.verdict {
                    Err(error) => Err(compatibility(error.text().as_str())),
                    Ok(capabilities) => {
                        self.capabilities = Some(capabilities);
                        Ok(
                            Greeting {
                                negotiation: Negotiation::Ssh {
                                    protocol_generation: welcome.generation,
                                    server_version: welcome.server_version,
                                    capabilities,
                                },
                                catalog: welcome.extension_catalog,
                            },
                        )
                    },
                }
            },
            MetadataMessage::Welcome { version, server_version, selected, extension_catalog } => {
                if self.remote || selected || version != self.protocol_version
                    || !is_sound_version(server_version.as_str()) {
                    return Err(
                        message_failure(
                            MetadataMessage::Welcome {
                                version,
                                server_version,
                                selected,
                                extension_catalog,
                            },
                        ),
                    );
                }
                Ok(
                    Greeting {
                        negotiation: Negotiation::Local { protocol_version: version },
                        catalog: Some(extension_catalog),
                    },
                )
            },
            message => Err(message_failure(message)),
        }
    }

    /// Nothing is queued, asked or failed, as after the handshake.
    pub open spec fn quiet(self) -> bool {
        self.pending@.len() == 0 && self.probe is None && self.terminal_failure is None
    }
}

/// Initial metadata as far as it has arrived.
#[derive(Debug)]
pub struct Collection {
    pub negotiation: Negotiation,
    pub resources: Option<ResourceSnapshot>,
    pub presence: Option<ClientPresenceSnapshot>,
    pub alerts: Option<ClientAlertSnapshot>,
    pub catalog: Option<ExtensionCatalog>,
    pub resources_id: u128,
    pub alerts_id: Option<u128>,
    pub resources_ready: bool,
    pub alerts_ready: bool,
    pub responses: usize,
}

/// How a collection goes on.
#[derive(Debug)]
pub enum Progress {
    More(Collection),
    Complete(InitialMetadata),
    Failed(Failure),
}

impl Collection {
    pub open spec fn begun(greeting: Greeting, resources_id: u128, alerts_id: Option<u128>) -> Self {
        Collection {
            negotiation: greeting.negotiation,
            resources: None,
            presence: None,
            alerts: None,
            catalog: greeting.catalog,
            resources_id,
            alerts_id,
            resources_ready: false,
            alerts_ready: alerts_id is None,
            responses: 0,
        }
    }

    pub fn begin(greeting: Greeting, resources_id: u128, alerts_id: Option<u128>) -> (r: Self)
        ensures
            r == Self::begun(greeting, resources_id, alerts_id),
            r.wf(),
    {
        Collection {
            negotiation: greeting.negotiation,
            resources: None,
            presence: None,
            alerts: None,
            catalog: greeting.catalog,
            resources_id,
            alerts_id,
            resources_ready: false,
            alerts_ready: alerts_id.is_none(),
            responses: 0,
        }
    }

    /// The answer to the resource request brought resources and presence, and
    /// fewer responses have come than are waited for.
    pub open spec fn wf(self) -> bool {
        &&& self.resources_ready ==> self.resources is Some && self.presence is Some
        &&& self.responses < MAX_INITIAL_RESPONSES
    }

    /// The collection with these updates; later ones replace earlier ones.
    pub open spec fn with(self, updates: Seq<Update>) -> Self
        decreases updates.len(),
    {
        if updates.len() == 0 {
            self
        } else {
            let before = self.with(updates.drop_last());
            match updates.last() {
                Update::Resources(value) => Collection { resources: Some(value), ..before },
                Update::Presence(value) => Collection { presence: Some(value), ..before },
                Update::Alerts(value) => Collection { alerts: Some(value), ..before },
                Update::Catalog(value) => Collection { catalog: Some(value), ..before },
                Update::Healthy => before,
            }
        }
    }

    /// The collection after a reply that brings these updates.
    pub open spec fn after(self, reply: Envelope<MetadataMessage>, updates: Seq<Update>) -> Self {
        Collection {
            resources_ready: self.resources_ready || (reply.request_id == Some(self.resources_id)
                && reply.message is Resources),
            alerts_ready: self.alerts_ready || (self.alerts_id is Some && reply.request_id
                == self.alerts_id && reply.message is AlertsChanged),
            responses: (self.responses + 1) as usize,
            ..self.with(updates)
        }
    }

    pub open spec fn is_complete(self) -> bool {
        self.resources_ready && self.alerts_ready
    }

    fn gather(self, updates: &mut VecDeque<Update>) -> (r: Self)
        requires
            forall|i: int|
                0 <= i < old(updates)@.len() ==> !((#[trigger] old(updates)@[i]) is Healthy),
        ensures
            r == self.with(old(updates)@),
            final(updates)@.len() == 0,
    {
        let ghost all = updates@;
        let ghost mut i: int = 0;
        let mut out = self;
        proof {
            assert(all.skip(0) =~= all);
            assert(all.take(0) =~= seq![]);
        }
        loop
            invariant_except_break
                0 <= i <= all.len(),
                updates@ == all.skip(i),
                out == self.with(all.take(i)),
            ensures
                out == self.with(all),
                updates@.len() == 0,
            decreases updates@.len(),
        {
            match updates.pop_front() {
                None => {
                    proof {
                        assert(all.take(i) =~= all);
                    }
                    break;
                },
                Some(update) => {
                    proof {
                        assert(updates@ =~= all.skip(i + 1));
                        assert(all.take(i + 1).drop_last() =~= all.take(i));
                        i = i + 1;
                    }
                    match update {
                        Update::Resources(value) => {
                            out.resources = Some(value);
                        },
                        Update::Presence(value) => {
                            out.presence = Some(value);
                        },
                        Update::Alerts(value) => {
                            out.alerts = Some(value);
                        },
                        Update::Catalog(value) => {
                            out.catalog = Some(value);
                        },
                        Update::Healthy => {},
                    }
                },
            }
        }
        out
    }

    /// `progress` and `after` are what came of awaiting initial metadata on a
    /// quiet connection.
    pub open spec fn collected(
        self,
        connection: SystemConnection,
        received: Received,
        after: SystemConnection,
        progress: Progress,
    ) -> bool {
        &&& after.same_link(connection)
        &&& after.quiet()
        &&& match received {
            Received::Failed(error) => progress == Progress::Failed(error),
            Received::EndOfStream => progress matches Progress::Failed(error) && says(
                error,
                FailureKind::Transient,
                "endpoint disconnected before initial metadata"@,
            ),
            Received::Reply(reply) => match brings(connection.capabilities, reply.message) {
                None => progress matches Progress::Failed(error) && says(
                    error,
                    refusal(reply.message).0,
                    refusal(reply.message).1,
                ),
                Some(updates) => {
                    let next = self.after(reply, updates);
                    if next.is_complete() {
                        &&& next.resources is Some && next.presence is Some
                        &&& progress == Progress::Complete(
                            InitialMetadata {
                                negotiation: self.negotiation,
                                resources: next.resources->0,
                                presence: next.presence->0,
                                alerts: next.alerts,
                                catalog: next.catalog,
                            },
                        )
                    } else if self.responses + 1 < MAX_INITIAL_RESPONSES {
                        progress == Progress::More(next) && next.wf()
                    } else {
                        progress matches Progress::Failed(error) && says(
                            error,
                            FailureKind::Transient,
                            "initial metadata response limit exceeded"@,
                        )
                    }
                },
            },
        }
    }

    /// Takes what came while initial metadata was awaited.
    pub fn collect(self, connection: &mut SystemConnection, received: Received) -> (r: Progress)
        requires
            self.wf(),
            old(connection).quiet(),
        ensures
            self.collected(*old(connection), received, *final(connection), r),
    {
        let reply = match received {
            Received::Failed(error) => {
                return Progress::Failed(error);
            },
            Received::EndOfStream => {
                return Progress::Failed(
                    transient("endpoint disconnected before initial metadata"),
                );
            },
            Received::Reply(reply) => reply,
        };
        let answers_resources: bool = match &reply.message {
            MetadataMessage::Resources { snapshot: _, presence: _ } => answers(
                reply.request_id,
                self.resources_id,
            ),
            _ => false,
        };
        let answers_alerts: bool = match &reply.message {
            MetadataMessage::AlertsChanged { snapshot: _ } => match self.alerts_id {
                Some(id) => answers(reply.request_id, id),
                None => false,
            },
            _ => false,
        };
        let ghost updates = brings(connection.capabilities, reply.message);
        if let Err(error) = connection.accept(reply) {
            return Progress::Failed(error);
        }
        proof {
            assert(connection.pending@ =~= updates->0);
            self.lemma_with_brings(connection.capabilities, reply.message);
        }
        let mut after = self.gather(&mut connection.pending);
        after.resources_ready = after.resources_ready || answers_resources;
        after.alerts_ready = after.alerts_ready || answers_alerts;
        after.responses = after.responses + 1;
        if after.resources_ready && after.alerts_ready {
            let Collection { negotiation, resources, presence, alerts, catalog, .. } = after;
            match (resources, presence) {
                (Some(resources), Some(presence)) => Progress::Complete(
                    InitialMetadata { negotiation, resources, presence, alerts, catalog },
                ),
                (None, _) => Progress::Failed(compatibility("missing initial resources")),
                (_, None) => Progress::Failed(compatibility("missing initial presence")),
            }
        } else if after.responses < MAX_INITIAL_RESPONSES {
            Progress::More(after)
        } else {
            Progress::Failed(transient("initial metadata response limit exceeded"))
        }
    }

    /// A reply's updates leave everything but the snapshots alone, and keep what
    /// has arrived; the answer with resources brings both.
    proof fn lemma_with_brings(
        self,
        capabilities: Option<Capabilities>,
        message: MetadataMessage,
    )
        requires
            brings(capabilities, message) is Some,
        ensures
            ({
                let after = self.with(brings(capabilities, message)->0);
                &&& after.negotiation == self.negotiation
                &&& after.resources_id == self.resources_id
                &&& after.alerts_id == self.alerts_id
                &&& after.resources_ready == self.resources_ready
                &&& after.alerts_ready == self.alerts_ready
                &&& after.responses == self.responses
                &&& self.resources is Some ==> after.resources is Some
                &&& self.presence is Some ==> after.presence is Some
                &&& message is Resources ==> after.resources is Some && after.presence is Some
            }),
            forall|i: int|
                0 <= i < (brings(capabilities, message)->0).len() ==> !(#[trigger] (brings(
                    capabilities,
                    message,
                )->0)[i] is Healthy),
    {
        reveal_with_fuel(Collection::with, 3);
    }
}

/// The identities of the requests that the initial exchange makes.
#[derive(Clone, Copy, Debug, PartialEq, Eq, Structural)]
pub struct SetupIds {
    pub hello: u128,
    pub resources: u128,
    pub alerts: u128,
}

#[derive(Debug)]
pub enum SetupPhase {
    Greeting,
    AwaitingWelcome,
    Subscribing(Collection),
    SubscribingAlerts(Collection),
    Collecting(Collection),
    Finished,
}

/// The initial exchange: the hello, the welcome, the subscriptions, and the full
/// snapshots.
#[derive(Debug)]
pub struct Initialization {
    pub ids: SetupIds,
    pub client_id: u128,
    /// The hello's identity: the private control hello is uncorrelated.
    pub request_id: Option<u128>,
    pub phase: SetupPhase,
}

/// What the caller does next in the initial exchange.
#[derive(Debug)]
pub enum SetupAction {
    /// Send the request: `Sent` or `SendFailed`.
    Send { request_id: Option<u128>, request: Request },
    /// Wait for a reply: `Received`.
    Receive,
    Complete(InitialMetadata),
    Failed(Failure),
}

#[derive(Debug)]
pub enum SetupSignal {
    Sent,
    SendFailed(Failure),
    Received(Received),
}

impl Initialization {
    /// Nothing is queued on the connection, and what is collected is well-formed.
    pub open spec fn wf(self, connection: SystemConnection) -> bool {
        &&& connection.quiet()
        &&& match self.phase {
            SetupPhase::Subscribing(collection) => collection.wf(),
            SetupPhase::SubscribingAlerts(collection) => collection.wf(),
            SetupPhase::Collecting(collection) => collection.wf(),
            _ => true,
        }
    }

    pub open spec fn in_phase(self, phase: SetupPhase) -> Self {
        Initialization { phase, ..self }
    }

    /// The exchange that begins on a connection. It never retries with another
    /// version.
    pub open spec fn begun(
        connection: SystemConnection,
        client_id: u128,
        client_version: String,
        ids: SetupIds,
    ) -> (Self, SetupAction) {
        let request_id = if connection.remote {
            Some(ids.hello)
        } else {
            None
        };
        let request = if connection.remote {
            Request::RemoteHello { client_version, mode: ClientMode::Control }
        } else {
            Request::Hello {
                version: connection.protocol_version,
                client_version,
                mode: ClientMode::Control,
            }
        };
        (
            Initialization { ids, client_id, request_id, phase: SetupPhase::Greeting },
            SetupAction::Send { request_id, request },
        )
    }

    /// The exchange fails.
    pub open spec fn fails(self, after: Self, action: SetupAction, error: Failure) -> bool {
        after == self.in_phase(SetupPhase::Finished) && action == SetupAction::Failed(error)
    }

    /// What a signal leads to: `after` and `end` are the exchange and the
    /// connection afterwards, and `action` what is done next.
    pub open spec fn goes(
        self,
        connection: SystemConnection,
        signal: SetupSignal,
        after: Self,
        end: SystemConnection,
        action: SetupAction,
    ) -> bool {
        match (self.phase, signal) {
            (SetupPhase::Greeting, SetupSignal::Sent) => {
                &&& after == self.in_phase(SetupPhase::AwaitingWelcome)
                &&& action is Receive
                &&& end == connection
            },
            (SetupPhase::AwaitingWelcome, SetupSignal::Received(received)) => {
                let alerts_id = if granted(end.capabilities, Capability::ControlAlerts) {
                    Some(self.ids.alerts)
                } else {
                    None
                };
                match action {
                    SetupAction::Send { request_id, request } => {
                        &&& request_id == Some(self.ids.resources)
                        &&& request == Request::WatchResources
                        &&& after.phase matches SetupPhase::Subscribing(collection) && {
                            let greeting = Greeting {
                                negotiation: collection.negotiation,
                                catalog: collection.catalog,
                            };
                            &&& after == self.in_phase(SetupPhase::Subscribing(collection))
                            &&& collection == Collection::begun(
                                greeting,
                                self.ids.resources,
                                alerts_id,
                            )
                            &&& connection.welcomed(
                                self.request_id,
                                received,
                                end,
                                Ok(greeting),
                            )
                        }
                    },
                    SetupAction::Failed(error) => self.fails(after, action, error)
                        && connection.welcomed(self.request_id, received, end, Err(error)),
                    _ => false,
                }
            },
            (SetupPhase::Subscribing(collection), SetupSignal::Sent) => {
                &&& end == connection
                &&& match collection.alerts_id {
                    Some(id) => {
                        &&& after == self.in_phase(SetupPhase::SubscribingAlerts(collection))
                        &&& action == (SetupAction::Send {
                            request_id: Some(id),
                            request: Request::WatchAlerts { client_id: self.client_id },
                        })
                    },
                    None => {
                        &&& after == self.in_phase(SetupPhase::Collecting(collection))
                        &&& action is Receive
                    },
                }
            },
            (SetupPhase::SubscribingAlerts(collection), SetupSignal::Sent) => {
                &&& after == self.in_phase(SetupPhase::Collecting(collection))
                &&& action is Receive
                &&& end == connection
            },
            (SetupPhase::Collecting(collection), SetupSignal::Received(received)) => match action {
                SetupAction::Receive => after.phase matches SetupPhase::Collecting(next) && after
                    == self.in_phase(SetupPhase::Collecting(next)) && collection.collected(
                    connection,
                    received,
                    end,
                    Progress::More(next),
                ),
                SetupAction::Complete(initial) => after == self.in_phase(SetupPhase::Finished)
                    && collection.collected(
                    connection,
                    received,
                    end,
                    Progress::Complete(initial),
                ),
                SetupAction::Failed(error) => self.fails(after, action, error)
                    && collection.collected(connection, received, end, Progress::Failed(error)),
                _ => false,
            },
            (_, SetupSignal::SendFailed(error)) => self.fails(after, action, error) && end
                == connection,
            _ => false,
        }
    }

    /// The phase waits for this signal.
    pub open spec fn expects(self, signal: SetupSignal) -> bool {
        match self.phase {
            SetupPhase::Greeting => !(signal is Received),
            SetupPhase::Subscribing(_) => !(signal is Received),
            SetupPhase::SubscribingAlerts(_) => !(signal is Received),
            SetupPhase::AwaitingWelcome => signal is Received,
            SetupPhase::Collecting(_) => signal is Received,
            SetupPhase::Finished => false,
        }
    }

    /// Begins the exchange under given identities.
    pub fn begin(
        connection: &SystemConnection,
        client_id: u128,
        client_version: String,
        ids: SetupIds,
    ) -> (r: (Self, SetupAction))
        ensures
            r == Self::begun(*connection, client_id, client_version, ids),
    {
        let (request_id, request): (Option<u128>, Request) = if connection.remote {
            (
                Some(ids.hello),
                Request::RemoteHello { client_version, mode: ClientMode::Control },
            )
        } else {
            (
                None,
                Request::Hello {
                    version: connection.protocol_version,
                    client_version,
                    mode: ClientMode::Control,
                },
            )
        };
        (
            Initialization { ids, client_id, request_id, phase: SetupPhase::Greeting },
            SetupAction::Send { request_id, request },
        )
    }

    /// Begins the exchange under fresh identities.
    pub fn start(connection: &SystemConnection, client_id: u128, client_version: String) -> (r: (
        Self,
        SetupAction,
    ))
        ensures
            r == Self::begun(*connection, client_id, client_version, r.0.ids),
            identity::marked_random(r.0.ids.hello),
            identity::marked_random(r.0.ids.resources),
            identity::marked_random(r.0.ids.alerts),
    {
        let ids = SetupIds { hello: fresh_id(), resources: fresh_id(), alerts: fresh_id() };
        Self::begin(connection, client_id, client_version, ids)
    }

    fn give_up(&mut self, error: Failure) -> (r: Option<SetupAction>)
        ensures
            r matches Some(action) && old(self).fails(*final(self), action, error),
    {
        self.phase = SetupPhase::Finished;
        Some(SetupAction::Failed(error))
    }

    /// Takes what came of the last action. A signal that does not answer it
    /// changes nothing and gives no action.
    pub fn step(&mut self, connection: &mut SystemConnection, signal: SetupSignal) -> (r: Option<
        SetupAction,
    >)
        requires
            old(self).wf(*old(connection)),
        ensures
            final(self).wf(*final(connection)),
            r is Some <==> old(self).expects(signal),
            match r {
                Some(action) => old(self).goes(
                    *old(connection),
                    signal,
                    *final(self),
                    *final(connection),
                    action,
                ),
                None => *final(self) == *old(self) && *final(connection) == *old(connection),
            },
    {
        let mut phase = SetupPhase::Finished;
        std::mem::swap(&mut phase, &mut self.phase);
        match (phase, signal) {
            (SetupPhase::Greeting, SetupSignal::Sent) => {
                self.phase = SetupPhase::AwaitingWelcome;
                Some(SetupAction::Receive)
            },
            (SetupPhase::AwaitingWelcome, SetupSignal::Received(received)) => {
                match connection.welcome(self.request_id, received) {
                    Err(error) => self.give_up(error),
                    Ok(greeting) => {
                        let alerts_id: Option<u128> = if connection.has(
                            Capability::ControlAlerts,
                        ) {
                            Some(self.ids.alerts)
                        } else {
                            None
                        };
                        self.phase = SetupPhase::Subscribing(
                            Collection::begin(greeting, self.ids.resources, alerts_id),
                        );
                        Some(
                            SetupAction::Send {
                                request_id: Some(self.ids.resources),
                                request: Request::WatchResources,
                            },
                        )
                    },
                }
            },
            (SetupPhase::Subscribing(collection), SetupSignal::Sent) => match collection.alerts_id {
                Some(id) => {
                    self.phase = SetupPhase::SubscribingAlerts(collection);
                    Some(
                        SetupAction::Send {
                            request_id: Some(id),
                            request: Request::WatchAlerts { client_id: self.client_id },
                        },
                    )
                },
                None => {
                    self.phase = SetupPhase::Collecting(collection);
                    Some(SetupAction::Receive)
                },
            },
            (SetupPhase::SubscribingAlerts(collection), SetupSignal::Sent) => {
                self.phase = SetupPhase::Collecting(collection);
                Some(SetupAction::Receive)
            },
            (SetupPhase::Collecting(collection), SetupSignal::Received(received)) => {
                match collection.collect(connection, received) {
                    Progress::More(next) => {
                        self.phase = SetupPhase::Collecting(next);
                        Some(SetupAction::Receive)
                    },
                    Progress::Complete(initial) => Some(SetupAction::Complete(initial)),
                    Progress::Failed(error) => self.give_up(error),
                }
            },
            (SetupPhase::Greeting, SetupSignal::SendFailed(error)) => self.give_up(error),
            (SetupPhase::Subscribing(_), SetupSignal::SendFailed(error)) => self.give_up(error),
            (SetupPhase::SubscribingAlerts(_), SetupSignal::SendFailed(error)) => self.give_up(
                error,
            ),
            (phase, _) => {
                self.phase = phase;
                None
            },
        }
    }
}

/// What came of the initial exchange within its time.
#[derive(Debug)]
pub enum Exchange {
    Complete(InitialMetadata),
    Failed(Failure),
    TimedOut,
}

/// What becomes of a connection attempt.
#[derive(Debug)]
pub enum Conclusion {
    Connected(InitialMetadata),
    /// The attempt failed, or failed for what SSH's diagnostics will tell.
    Failed(Next),
}

impl SystemConnection {
    /// `after` and `r` are what a connection attempt comes to.
    pub open spec fn concluded(self, exchange: Exchange, after: Self, r: Conclusion) -> bool {
        &&& after.same_link(self)
        &&& after.pending@ == self.pending@
        &&& after.probe == self.probe
        &&& match exchange {
            Exchange::Complete(initial) => r == Conclusion::Connected(initial) && after
                == self,
            Exchange::Failed(error) => {
                &&& after.terminal_failure == Some(error)
                &&& (r matches Conclusion::Failed(next) && if error.kind == FailureKind::Transient
                    && self.remote {
                    next is Diagnose
                } else {
                    next == Next::Fail(error)
                })
            },
            Exchange::TimedOut => {
                &&& (after.terminal_failure matches Some(error) && says(
                    error,
                    FailureKind::Transient,
                    "initial metadata timed out"@,
                ) && (r matches Conclusion::Failed(next) && if self.remote {
                    next is Diagnose
                } else {
                    next == Next::Fail(error)
                }))
            },
        }
    }
}

/// Concludes a connection attempt. A failed one is remembered, and diagnosed
/// where a bridge was lost.
pub fn conclude(connection: &mut SystemConnection, exchange: Exchange) -> (r: Conclusion)
    ensures
        old(connection).concluded(exchange, *final(connection), r),
{
    match exchange {
        Exchange::Complete(initial) => Conclusion::Connected(initial),
        Exchange::Failed(error) => Conclusion::Failed(connection.fail(error)),
        Exchange::TimedOut => Conclusion::Failed(
            connection.fail(transient("initial metadata timed out")),
        ),
    }
}

} // verus!
