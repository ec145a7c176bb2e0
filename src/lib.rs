//! An onion-routing overlay for RPC traffic: layered encryption, circuit
//! construction, hop forwarding, exit dispatch decisions, response
//! correlation and topology health tracking.
pub mod types;
pub mod crypto;
pub mod onion;
pub mod topology;
pub mod circuit;
pub mod correlation;
pub mod entry_node;
pub mod routing_node;
pub mod exit_node;
pub mod coordinator;
pub mod sanitizer;
pub mod users;
