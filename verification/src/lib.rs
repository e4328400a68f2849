//! A minimal replicated message log for a fixed cluster of nodes.
//!
//! Every node keeps two append-only logs, one for messages that clients handed
//! to it and one for messages that its peers relayed, and summarises both in a
//! digest that does not depend on arrival order or origin.

pub mod cluster;
pub mod log;
pub mod order;
pub mod canonical;
pub mod render;
pub mod digest;
pub mod relay;
pub mod handlers;
pub mod node;
