//! Health-tracked server registry, heartbeat protocol, round-robin selection
//! and relay decisions of a TCP load balancer.

pub mod addr;
pub mod client_messages;
pub mod config;
pub mod cursor;
pub mod expiry;
pub mod heartbeat;
pub mod history;
pub mod registry;
pub mod relay;
pub mod selector;
pub mod text;
