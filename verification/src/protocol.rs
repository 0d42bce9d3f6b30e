//! What the client reads of the daemon's protocol.
//!
//! Snapshots carry a revision, which decides what replaces what, and contents,
//! encoded as text, that nothing here looks into.

use vstd::prelude::*;

use crate::terminal::TerminalSize;
use crate::text::{self, decimal_of};

verus! {

/// A message with the identity of the request that it makes or answers.
#[derive(Debug, PartialEq, Eq)]
pub struct Envelope<T> {
    pub request_id: Option<u128>,
    pub message: T,
}

#[derive(Debug, PartialEq, Eq)]
pub struct ResourceSnapshot {
    pub revision: u64,
    pub sessions: String,
}

impl Clone for ResourceSnapshot {
    fn clone(&self) -> (r: Self)
        ensures
            r == *self,
    {
        ResourceSnapshot {
            revision: self.revision,
            sessions: self.sessions.clone(),
        }
    }
}

#[derive(Debug, PartialEq, Eq)]
pub struct ClientPresenceSnapshot {
    pub revision: u64,
    pub sessions: String,
}

impl Clone for ClientPresenceSnapshot {
    fn clone(&self) -> (r: Self)
        ensures
            r == *self,
    {
        ClientPresenceSnapshot {
            revision: self.revision,
            sessions: self.sessions.clone(),
        }
    }
}

#[derive(Debug, PartialEq, Eq)]
pub struct ClientAlertSnapshot {
    pub revision: u64,
    pub terminals: String,
}

impl Clone for ClientAlertSnapshot {
    fn clone(&self) -> (r: Self)
        ensures
            r == *self,
    {
        ClientAlertSnapshot {
            revision: self.revision,
            terminals: self.terminals.clone(),
        }
    }
}

#[derive(Debug, PartialEq, Eq)]
pub struct ExtensionCatalog {
    pub generation: u64,
    pub fingerprint: String,
    pub extensions: String,
    pub config: String,
}

impl Clone for ExtensionCatalog {
    fn clone(&self) -> (r: Self)
        ensures
            r == *self,
    {
        ExtensionCatalog {
            generation: self.generation,
            fingerprint: self.fingerprint.clone(),
            extensions: self.extensions.clone(),
            config: self.config.clone(),
        }
    }
}

/// A snapshot that is replaced only by a later one of the same connection.
pub trait Revised: Sized {
    spec fn revision_of(&self) -> u64;

    fn revision(&self) -> (r: u64)
        ensures
            r == self.revision_of(),
    ;
}

impl Revised for ResourceSnapshot {
    open spec fn revision_of(&self) -> u64 {
        self.revision
    }

    fn revision(&self) -> (r: u64) {
        self.revision
    }
}

impl Revised for ClientPresenceSnapshot {
    open spec fn revision_of(&self) -> u64 {
        self.revision
    }

    fn revision(&self) -> (r: u64) {
        self.revision
    }
}

impl Revised for ClientAlertSnapshot {
    open spec fn revision_of(&self) -> u64 {
        self.revision
    }

    fn revision(&self) -> (r: u64) {
        self.revision
    }
}

impl Revised for ExtensionCatalog {
    open spec fn revision_of(&self) -> u64 {
        self.generation
    }

    fn revision(&self) -> (r: u64) {
        self.generation
    }
}

/// A target to attach to, encoded as text.
#[derive(Debug, PartialEq, Eq)]
pub struct TargetSelector {
    pub encoded: String,
}

impl Clone for TargetSelector {
    fn clone(&self) -> (r: Self)
        ensures
            r == *self,
    {
        TargetSelector { encoded: self.encoded.clone() }
    }
}

/// What a client connects for.
#[derive(Debug, PartialEq, Eq)]
pub enum ClientMode {
    Control,
    Interactive { size: TerminalSize, selector: Option<TargetSelector> },
}

impl Clone for ClientMode {
    fn clone(&self) -> (r: Self)
        ensures
            r == *self,
    {
        match self {
            ClientMode::Control => ClientMode::Control,
            ClientMode::Interactive { size, selector } => ClientMode::Interactive {
                size: *size,
                selector: selector.clone(),
            },
        }
    }
}

/// The optional methods that a peer may grant.
#[derive(Clone, Copy, Debug, PartialEq, Eq, Structural)]
pub enum Capability {
    Alerts,
    ControlAlerts,
    ExtensionCatalog,
    Health,
}

/// The optional methods that a peer did grant.
#[derive(Clone, Copy, Debug, Default, PartialEq, Eq, Structural)]
pub struct Capabilities {
    pub alerts: bool,
    pub control_alerts: bool,
    pub extension_catalog: bool,
    pub health: bool,
}

impl Capabilities {
    pub open spec fn grants(self, capability: Capability) -> bool {
        match capability {
            Capability::Alerts => self.alerts,
            Capability::ControlAlerts => self.control_alerts,
            Capability::ExtensionCatalog => self.extension_catalog,
            Capability::Health => self.health,
        }
    }

    pub fn contains(&self, capability: Capability) -> (r: bool)
        ensures
            r == self.grants(capability),
    {
        match capability {
            Capability::Alerts => self.alerts,
            Capability::ControlAlerts => self.control_alerts,
            Capability::ExtensionCatalog => self.extension_catalog,
            Capability::Health => self.health,
        }
    }
}

/// Why an endpoint refuses a remote client, or a client the endpoint.
#[derive(Clone, Copy, Debug, PartialEq, Eq, Structural)]
pub enum EndpointError {
    InvalidHandshake,
    IncompatibleGeneration { client: u16, server: u16 },
    UnsupportedCodec,
    MissingRequiredCapability,
    MethodNotNegotiated,
}

impl EndpointError {
    pub open spec fn wording(self) -> Seq<char> {
        match self {
            EndpointError::InvalidHandshake => "invalid remote handshake"@,
            EndpointError::IncompatibleGeneration { client, server } =>
                "incompatible remote protocol generation: client "@ + text::decimal(client as nat)
                + ", server "@ + text::decimal(server as nat),
            EndpointError::UnsupportedCodec => "unsupported remote codec"@,
            EndpointError::MissingRequiredCapability => "missing required remote capability"@,
            EndpointError::MethodNotNegotiated => "remote method was not negotiated"@,
        }
    }

    /// The error in words.
    pub fn text(&self) -> (r: String)
        ensures
            r@ == self.wording(),
    {
        match self {
            EndpointError::InvalidHandshake => "invalid remote handshake".to_owned(),
            EndpointError::IncompatibleGeneration { client, server } =>
                "incompatible remote protocol generation: client ".to_owned().concat(
                decimal_of(*client as u64).as_str(),
            ).concat(", server ").concat(decimal_of(*server as u64).as_str()),
            EndpointError::UnsupportedCodec => "unsupported remote codec".to_owned(),
            EndpointError::MissingRequiredCapability =>
                "missing required remote capability".to_owned(),
            EndpointError::MethodNotNegotiated => "remote method was not negotiated".to_owned(),
        }
    }
}

/// Each method is granted by its own flag alone.
pub proof fn law_each_method_is_granted_by_its_own_flag(granted: Capabilities)
    ensures
        granted.grants(Capability::Alerts) == granted.alerts,
        granted.grants(Capability::ControlAlerts) == granted.control_alerts,
        granted.grants(Capability::ExtensionCatalog) == granted.extension_catalog,
        granted.grants(Capability::Health) == granted.health,
{
}

} // verus!
