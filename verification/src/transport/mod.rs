//! Transports. Only the NodeId handling of the iroh transport is computation;
//! the datagram links themselves live in the application.
pub mod iroh;
