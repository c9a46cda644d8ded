//! The service bus: connections, subscriptions, events and forward requests.

pub mod connection_manager;
pub mod contracts;
pub mod delivery;
pub mod forward;
pub mod forward_laws;
pub mod laws;
pub mod protocol_types;
pub mod server;
pub mod session_laws;
