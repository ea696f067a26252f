//! Connections.

pub mod conn;
