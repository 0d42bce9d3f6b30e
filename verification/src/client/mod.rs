//! The client: endpoint supervision, transport, handoffs and presentation.

pub mod attachment;
pub mod federation;
pub mod federation_laws;
pub mod federation_transport;
pub mod federation_transport_laws;
pub mod handoff;
pub mod messages;
pub mod remote;
pub mod service;
pub mod worker;
pub mod worker_laws;
