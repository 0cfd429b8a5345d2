//! The daemon: what it keeps, and what it decides.
pub mod commands;
pub mod config_manager;
pub mod cron_manager;
pub mod daemon_core;
pub mod health;
pub mod http_server;
pub mod log_monitor;
pub mod loki_shipper;
pub mod process;
pub mod process_manager;
pub mod process_monitor;
pub mod process_supervisor;
pub mod restore;
pub mod runner;
pub mod scheduler;
pub mod server;
pub mod state;
