//! Accounts and settings.

pub mod auth;
pub mod config;
