//! Transport protocol event tracing: the binary trace format, the per-CPU event
//! collector, schema merging, trace loading, and the explorer's queries.
use vstd::prelude::*;

pub mod text;
pub mod trace_file;
pub mod collector;
pub mod cpus;
pub mod query;
pub mod schema;
pub mod names;
pub mod client;
pub mod loader;
pub mod ingest;
pub mod subscriptions;
pub mod watcher;
pub mod explorer;
pub mod service;

verus! {

/// Errors of the library.
#[derive(Debug, Clone, Copy, PartialEq, Eq)]
pub enum Error {
    /// Bytes that are not a trace file.
    Load(trace_file::LoadError),
}

} // verus!
