//! A configuration in its plainest form: a directory for logs, and scripts
//! that each say how often they are restarted.
use crate::names::NameMap;
use vstd::prelude::*;

verus! {

/// A configuration.
#[derive(Debug)]
pub struct Config {
    pub settings: Settings,
    pub scripts: NameMap<Script>,
}

/// What holds for all scripts of a configuration.
#[derive(Debug)]
pub struct Settings {
    pub log_dir: String,
}

/// One script of a configuration.
#[derive(Debug)]
pub struct Script {
    pub command: String,
    pub restart_policy: RestartPolicy,
    pub max_restarts: u32,
}

/// Whether a failed script is restarted.
#[derive(Clone, Copy, Debug, PartialEq, Eq, Structural)]
pub enum RestartPolicy {
    Always,
    Never,
}

/// What came of reading and parsing a configuration file.
#[derive(Debug)]
pub enum ConfigSource {
    Unreadable(String),
    Unparsable(String),
    Parsed(Config),
}

impl Config {
    /// The configuration that was read, or the words that say why there is none.
    pub fn load(source: ConfigSource) -> (r: Result<Config, String>)
        ensures
            r == (match source {
                ConfigSource::Unreadable(e) => Err(e),
                ConfigSource::Unparsable(e) => Err(e),
                ConfigSource::Parsed(config) => Ok(config),
            }),
    {
        match source {
            ConfigSource::Unreadable(e) => Err(e),
            ConfigSource::Unparsable(e) => Err(e),
            ConfigSource::Parsed(config) => Ok(config),
        }
    }
}

} // verus!
