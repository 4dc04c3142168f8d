//! Records of the write daemon: the jobs it serializes, their outcomes,
//! its configuration and its status.
use vstd::prelude::*;
use crate::text::owned;

verus! {

broadcast use vstd::string::group_string_axioms;

/// A single write operation submitted to the daemon queue.
pub enum WriteJob {
    /// Add a document to the palace, with metadata as a JSON object text.
    AddDrawer { id: String, content: String, metadata: Option<String> },
    /// Delete a drawer by id.
    DeleteDrawer { id: String },
    /// Add a knowledge-graph triple.
    KgAdd {
        subject: String,
        predicate: String,
        object: String,
        valid_from: Option<String>,
        valid_to: Option<String>,
    },
    /// Invalidate a knowledge-graph fact.
    KgInvalidate { subject: String, predicate: String, object: String },
    /// Flush the in-memory store to disk.
    Flush,
}

pub open spec fn job_label(j: WriteJob) -> Seq<char> {
    match j {
        WriteJob::AddDrawer { .. } => "add_drawer"@,
        WriteJob::DeleteDrawer { .. } => "delete_drawer"@,
        WriteJob::KgAdd { .. } => "kg_add"@,
        WriteJob::KgInvalidate { .. } => "kg_invalidate"@,
        WriteJob::Flush => "flush"@,
    }
}

impl WriteJob {
    /// Short label of the job kind, for logging.
    pub fn label(&self) -> (r: &'static str)
        ensures
            r@ == job_label(*self),
    {
        match self {
            WriteJob::AddDrawer { .. } => "add_drawer",
            WriteJob::DeleteDrawer { .. } => "delete_drawer",
            WriteJob::KgAdd { .. } => "kg_add",
            WriteJob::KgInvalidate { .. } => "kg_invalidate",
            WriteJob::Flush => "flush",
        }
    }
}

/// Outcome of processing a single job.
pub enum JobResult {
    Succeeded { label: String },
    Error { label: String, message: String },
}

/// Snapshot of the daemon's state.
pub struct DaemonStatus {
    pub running: bool,
    /// Jobs processed since start.
    pub processed: usize,
    /// Jobs that failed since start.
    pub errored: usize,
    /// Jobs waiting in the queue.
    pub queued: usize,
    /// Palace the daemon serves.
    pub palace_path: String,
}

impl DaemonStatus {
    /// The status reported when no daemon runs.
    pub fn not_running() -> (r: Self)
        ensures
            !r.running && r.processed == 0 && r.errored == 0 && r.queued == 0,
            r.palace_path@ == Seq::<char>::empty(),
    {
        DaemonStatus { running: false, processed: 0, errored: 0, queued: 0, palace_path: String::new() }
    }
}

/// Configuration of the daemon.
pub struct DaemonConfig {
    pub palace_path: String,
    /// Jobs that can queue before back-pressure applies.
    pub channel_capacity: usize,
}

impl DaemonConfig {
    /// Default configuration: no palace path, a queue of 256.
    pub fn default_config() -> (r: Self)
        ensures
            r.palace_path@ == Seq::<char>::empty(),
            r.channel_capacity == 256,
    {
        DaemonConfig { palace_path: String::new(), channel_capacity: 256 }
    }
}

} // verus!
