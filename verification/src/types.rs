//! Observation records shared by the scoring, validation and export code.
use vstd::prelude::*;
use crate::text::owned;

verus! {

/// Kind of tool activity an observation records.
#[derive(Clone, Copy, PartialEq, Eq)]
pub enum ObservationType {
    FileRead,
    FileWrite,
    FileEdit,
    CommandRun,
    Search,
    WebFetch,
    Conversation,
    Error,
    Decision,
    Discovery,
    Subagent,
    Notification,
    Task,
    Other,
}

/// The variant's name, as `{:?}` prints it.
pub open spec fn type_debug_name(t: ObservationType) -> Seq<char> {
    match t {
        ObservationType::FileRead => "FileRead"@,
        ObservationType::FileWrite => "FileWrite"@,
        ObservationType::FileEdit => "FileEdit"@,
        ObservationType::CommandRun => "CommandRun"@,
        ObservationType::Search => "Search"@,
        ObservationType::WebFetch => "WebFetch"@,
        ObservationType::Conversation => "Conversation"@,
        ObservationType::Error => "Error"@,
        ObservationType::Decision => "Decision"@,
        ObservationType::Discovery => "Discovery"@,
        ObservationType::Subagent => "Subagent"@,
        ObservationType::Notification => "Notification"@,
        ObservationType::Task => "Task"@,
        ObservationType::Other => "Other"@,
    }
}

/// The snake-case name used in exported frontmatter.
pub open spec fn type_display_name(t: ObservationType) -> Seq<char> {
    match t {
        ObservationType::FileRead => "file_read"@,
        ObservationType::FileWrite => "file_write"@,
        ObservationType::FileEdit => "file_edit"@,
        ObservationType::CommandRun => "command_run"@,
        ObservationType::Search => "search"@,
        ObservationType::WebFetch => "web_fetch"@,
        ObservationType::Conversation => "conversation"@,
        ObservationType::Error => "error"@,
        ObservationType::Decision => "decision"@,
        ObservationType::Discovery => "discovery"@,
        ObservationType::Subagent => "subagent"@,
        ObservationType::Notification => "notification"@,
        ObservationType::Task => "task"@,
        ObservationType::Other => "other"@,
    }
}

impl ObservationType {
    /// The variant's name (what `{:?}` prints).
    pub fn debug_name(&self) -> (r: String)
        ensures
            r@ == type_debug_name(*self),
    {
        match self {
            ObservationType::FileRead => owned("FileRead"),
            ObservationType::FileWrite => owned("FileWrite"),
            ObservationType::FileEdit => owned("FileEdit"),
            ObservationType::CommandRun => owned("CommandRun"),
            ObservationType::Search => owned("Search"),
            ObservationType::WebFetch => owned("WebFetch"),
            ObservationType::Conversation => owned("Conversation"),
            ObservationType::Error => owned("Error"),
            ObservationType::Decision => owned("Decision"),
            ObservationType::Discovery => owned("Discovery"),
            ObservationType::Subagent => owned("Subagent"),
            ObservationType::Notification => owned("Notification"),
            ObservationType::Task => owned("Task"),
            ObservationType::Other => owned("Other"),
        }
    }

    /// The snake-case name (what `to_string` gives).
    pub fn to_string(&self) -> (r: String)
        ensures
            r@ == type_display_name(*self),
    {
        match self {
            ObservationType::FileRead => owned("file_read"),
            ObservationType::FileWrite => owned("file_write"),
            ObservationType::FileEdit => owned("file_edit"),
            ObservationType::CommandRun => owned("command_run"),
            ObservationType::Search => owned("search"),
            ObservationType::WebFetch => owned("web_fetch"),
            ObservationType::Conversation => owned("conversation"),
            ObservationType::Error => owned("error"),
            ObservationType::Decision => owned("decision"),
            ObservationType::Discovery => owned("discovery"),
            ObservationType::Subagent => owned("subagent"),
            ObservationType::Notification => owned("notification"),
            ObservationType::Task => owned("task"),
            ObservationType::Other => owned("other"),
        }
    }
}

/// A compressed observation: the distilled record of one tool event.
pub struct CompressedObservation {
    pub id: String,
    pub session_id: String,
    /// Seconds since the Unix epoch (UTC).
    pub timestamp: i64,
    pub observation_type: ObservationType,
    pub title: String,
    pub subtitle: Option<String>,
    pub facts: Vec<String>,
    pub narrative: String,
    pub concepts: Vec<String>,
    pub files: Vec<String>,
    /// Importance on a 1–10 scale.
    pub importance: u8,
    /// Confidence in hundredths (0–100 stands for 0.00–1.00).
    pub confidence_hundredths: u32,
    pub image_ref: Option<String>,
    pub image_description: Option<String>,
    pub modality: String,
    pub agent_id: Option<String>,
}

/// A consolidated memory.
pub struct Memory {
    pub id: String,
    pub title: String,
    pub content: String,
    pub memory_type: String,
    pub concepts: Vec<String>,
    pub files: Vec<String>,
    pub project: String,
    /// Strength in hundredths (0–100 stands for 0.00–1.00).
    pub strength_hundredths: u32,
    pub version: u32,
    pub parent_id: Option<String>,
    pub supersedes: Vec<String>,
    pub related_ids: Vec<String>,
    pub source_observation_ids: Vec<String>,
    /// Seconds since the Unix epoch (UTC).
    pub created_at: i64,
}

/// A lesson learned.
pub struct Lesson {
    pub id: String,
    pub content: String,
    pub context: Option<String>,
    pub project: Option<String>,
    pub source: Option<String>,
    pub tags: Vec<String>,
    pub source_ids: Vec<String>,
    /// Confidence in hundredths.
    pub confidence_hundredths: u32,
    /// Retention in hundredths.
    pub retention_hundredths: u32,
    pub reinforcement_count: u32,
    /// Seconds since the Unix epoch (UTC).
    pub created_at: i64,
}

/// A crystal: the distilled outcome of a run of actions.
pub struct Crystal {
    pub id: String,
    pub narrative: String,
    pub key_outcomes: Vec<String>,
    pub files_affected: Vec<String>,
    pub lessons: Vec<String>,
    pub action_ids: Vec<String>,
    pub project: Option<String>,
    pub session_id: Option<String>,
    /// Seconds since the Unix epoch (UTC).
    pub created_at: i64,
}

/// A recorded agent session.
pub struct Session {
    pub id: String,
    pub project: String,
    pub status: String,
    pub first_prompt: Option<String>,
    pub summary: Option<String>,
    pub model: Option<String>,
    pub agent_id: Option<String>,
    pub tags: Vec<String>,
    pub commit_shas: Vec<String>,
    pub observation_count: u64,
    /// Seconds since the Unix epoch (UTC).
    pub started_at: i64,
    pub ended_at: Option<i64>,
}

} // verus!
