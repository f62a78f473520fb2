//! Adapters for particular transports.

pub mod web_socket;
