//! Policy core of a connection gatekeeper: an IPv4 blocklist read from a
//! comma-separated configuration text, and the decisions that the hooks
//! around the platform's `socket` and `connect` take on each call.

pub mod guarantees;
pub mod hook;
pub mod ipv4;
pub mod policy;
mod sys;
pub mod text;
