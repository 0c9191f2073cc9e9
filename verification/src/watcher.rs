//! Configuration of the stand-alone watcher daemon.
use vstd::prelude::*;
use vstd::string::StringExecFns;
use crate::Error;

verus! {

/// Configuration for the watcher.
#[derive(Debug, Clone)]
pub struct WatcherConfig {
    /// Directory to watch for trace files.
    pub input_dir: String,
    /// Path to the database.
    pub db_path: String,
    /// Whether to continuously watch for new files.
    pub watch: bool,
    /// Age threshold for cleaning up old trace files (in seconds).
    pub cleanup_age_secs: Option<u64>,
}

impl Default for WatcherConfig {
    fn default() -> (c: WatcherConfig)
        ensures
            c.input_dir@ == "./traces/output"@,
            c.db_path@ == "./traces.db"@,
            !c.watch,
            c.cleanup_age_secs is None,
    {
        WatcherConfig {
            input_dir: String::from_str("./traces/output"),
            db_path: String::from_str("./traces.db"),
            watch: false,
            cleanup_age_secs: None,
        }
    }
}

/// Main watcher instance.
pub struct Watcher {
    config: WatcherConfig,
}

impl Watcher {
    /// The configuration the watcher was made with.
    pub closed spec fn config(self) -> WatcherConfig {
        self.config
    }

    /// Creates a watcher with the given configuration.
    pub fn new(config: WatcherConfig) -> (r: Result<Watcher, Error>)
        ensures
            r matches Ok(w) && w.config() == config,
    {
        Ok(Watcher { config })
    }
}

} // verus!
