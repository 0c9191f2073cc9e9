//! Configuration of the combined watcher and explorer.
use vstd::prelude::*;
use vstd::string::StringExecFns;
use crate::Error;

verus! {

/// Configuration for the watcher.
#[derive(Debug, Clone)]
pub struct WatcherConfig {
    /// Directory to watch for trace files.
    pub input_dir: String,
    /// Path to the database.
    pub db_path: String,
    /// Age threshold for cleaning up old trace files (in seconds).
    pub cleanup_age_secs: Option<u64>,
}

impl Default for WatcherConfig {
    fn default() -> (c: WatcherConfig)
        ensures
            c.input_dir@ == "./traces/output"@,
            c.db_path@ == "./traces.db"@,
            c.cleanup_age_secs is None,
    {
        WatcherConfig {
            input_dir: String::from_str("./traces/output"),
            db_path: String::from_str("./traces.db"),
            cleanup_age_secs: None,
        }
    }
}

/// Main watcher instance.
pub struct Watcher {
    config: WatcherConfig,
}

impl Watcher {
    /// The configuration the watcher was made with.
    pub closed spec fn config(self) -> WatcherConfig {
        self.config
    }

    /// Creates a watcher with the given configuration.
    pub fn new(config: WatcherConfig) -> (r: Result<Watcher, Error>)
        ensures
            r matches Ok(w) && w.config() == config,
    {
        Ok(Watcher { config })
    }
}

/// Configuration for the explorer server.
#[derive(Debug, Clone)]
pub struct ExplorerConfig {
    /// Path to the database.
    pub db_path: String,
    /// Port to bind the web server to.
    pub port: u16,
    /// Host to bind to.
    pub host: String,
}

impl Default for ExplorerConfig {
    fn default() -> (c: ExplorerConfig)
        ensures
            c.db_path@ == "./traces.db"@,
            c.port == 8080,
            c.host@ == "127.0.0.1"@,
    {
        ExplorerConfig {
            db_path: String::from_str("./traces.db"),
            port: 8080,
            host: String::from_str("127.0.0.1"),
        }
    }
}

/// Main explorer server instance.
pub struct Explorer {
    config: ExplorerConfig,
}

impl Explorer {
    /// The configuration the explorer was made with.
    pub closed spec fn config(self) -> ExplorerConfig {
        self.config
    }

    /// Creates an explorer with the given configuration.
    pub fn new(config: ExplorerConfig) -> (r: Result<Explorer, Error>)
        ensures
            r matches Ok(e) && e.config() == config,
    {
        Ok(Explorer { config })
    }
}

} // verus!
