//! The command-line client: what it asks, what it says, and how it installs
//! and updates the daemon.
pub mod cli;
pub mod commands;
pub mod error;
pub mod service;
pub mod updater;
