//! A small cluster of peer nodes that elect a leader and replicate key/value
//! transactions with quorum-based commit, in the style of an atomic broadcast
//! protocol. Every node is a verified state machine: it consumes one message or
//! one timer event at a time and returns the messages it wants to send.
pub mod cluster;
pub mod history;
pub mod laws;
pub mod message;
pub mod node;
