//! What the daemon and its client share.
pub mod config;
pub mod error;
pub mod ipc;
pub mod paths;
