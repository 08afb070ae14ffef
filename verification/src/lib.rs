//! The networking decisions of a remote-desktop peer: how it finds other
//! peers on the local network, how it stays registered with a rendezvous
//! server, and how it answers requests for a connection.

pub mod adapter;
pub mod addr;
pub mod addr_laws;
pub mod addr_text;
pub mod addr_text_laws;
pub mod direct_access;
pub mod direct_laws;
pub mod direct_server;
pub mod discovery_laws;
pub mod hole_punching;
pub mod lan;
pub mod lan_peer;
pub mod listener_laws;
pub mod peer_laws;
pub mod punching_laws;
pub mod registration;
pub mod registration_laws;
pub mod rendezvous_mediator;
pub mod rendezvous_transport;
pub mod replies;
pub mod sweep;
pub mod sweep_laws;
pub mod text;
pub mod text_laws;
pub mod wake;
