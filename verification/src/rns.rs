//! The node's identity on the transport.
pub mod identity;
