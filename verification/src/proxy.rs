//! The proxy protocols.

pub mod conduct;
pub mod fidelity;
pub mod http;
pub mod request;
pub mod tcp;
pub mod wire;
