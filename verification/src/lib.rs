//! Turtle Harbor: the decisions of a daemon that runs and supervises scripts,
//! and of its command-line client.
pub mod client;
pub mod common;
pub mod config;
pub mod daemon;
pub mod names;
pub mod path;
pub mod text;
pub mod time;
