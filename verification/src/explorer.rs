//! Configuration of the stand-alone explorer server.
use vstd::prelude::*;
use vstd::string::StringExecFns;
use crate::Error;

verus! {

/// Configuration for the explorer server.
#[derive(Debug, Clone)]
pub struct ExplorerConfig {
    /// Path to the database.
    pub db_path: String,
    /// Port to bind the web server to.
    pub port: u16,
    /// Host to bind to.
    pub host: String,
}

impl Default for ExplorerConfig {
    fn default() -> (c: ExplorerConfig)
        ensures
            c.db_path@ == "./traces.db"@,
            c.port == 8080,
            c.host@ == "127.0.0.1"@,
    {
        ExplorerConfig {
            db_path: String::from_str("./traces.db"),
            port: 8080,
            host: String::from_str("127.0.0.1"),
        }
    }
}

/// Main explorer server instance.
pub struct Explorer {
    config: ExplorerConfig,
}

impl Explorer {
    /// The configuration the explorer was made with.
    pub closed spec fn config(self) -> ExplorerConfig {
        self.config
    }

    /// Creates an explorer with the given configuration.
    pub fn new(config: ExplorerConfig) -> (r: Result<Explorer, Error>)
        ensures
            r matches Ok(e) && e.config() == config,
    {
        Ok(Explorer { config })
    }
}

} // verus!
