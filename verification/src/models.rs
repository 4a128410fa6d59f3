//! Plain data shared across the library.
use vstd::prelude::*;
use crate::day_sets::distinct;
use crate::json::Json;

verus! {

/// The AI coding assistants whose sessions are tracked.
#[derive(Debug, Clone, Copy, PartialEq, Eq, Structural)]
pub enum Provider {
    ClaudeCode,
    Codex,
    Copilot,
    Gemini,
    Unknown,
}

/// Grouping mode for time-bucketed usage reporting.
#[derive(Debug, Clone, Copy, PartialEq, Eq, Structural)]
pub enum GroupingMode {
    Daily,
    Weekly,
}

/// Number of active days per AI provider.
#[derive(Debug, Clone, Default)]
pub struct ProviderActiveDays {
    pub claude: usize,
    pub codex: usize,
    pub copilot: usize,
    pub gemini: usize,
    pub total: usize,
}

/// The dates on which each provider was active within a single time period, each held once.
#[derive(Debug, Clone)]
pub struct PeriodProviderDays {
    pub claude: Vec<String>,
    pub codex: Vec<String>,
    pub copilot: Vec<String>,
    pub gemini: Vec<String>,
}

impl PeriodProviderDays {
    /// No date repeats within a provider.
    pub open spec fn well_formed(self) -> bool {
        &&& distinct(self.claude@)
        &&& distinct(self.codex@)
        &&& distinct(self.copilot@)
        &&& distinct(self.gemini@)
    }
}

/// Usage of a single time period (day or week): its key ("YYYY-MM-DD" or "YYYY-Www"), the
/// usage of its models, and the active days of each provider within it.
#[derive(Debug)]
pub struct PeriodUsage<M> {
    pub period_key: String,
    pub models: M,
    pub provider_days: PeriodProviderDays,
}

/// Usage grouped into periods.
#[derive(Debug)]
pub struct GroupedUsageData<M> {
    pub periods: Vec<PeriodUsage<M>>,
    pub grouping_mode: GroupingMode,
}

/// A Gemini coding session with its metadata and messages.
#[derive(Debug)]
pub struct GeminiSession {
    pub session_id: String,
    pub project_hash: String,
    pub start_time: String,
    pub last_updated: String,
    pub messages: Vec<GeminiMessage>,
}

/// A single message of a Gemini session.
#[derive(Debug)]
pub struct GeminiMessage {
    pub id: String,
    pub timestamp: String,
    pub message_type: String,
    pub content: String,
    pub thoughts: Vec<GeminiThought>,
    pub tokens: Option<GeminiTokens>,
    pub model: Option<String>,
    pub tool_calls: Vec<Json>,
}

/// A reasoning step of Gemini.
#[derive(Debug, Clone)]
pub struct GeminiThought {
    pub subject: String,
    pub description: String,
    pub timestamp: String,
}

/// The token counts of a single Gemini message.
#[derive(Debug, Clone, Copy, PartialEq, Eq, Structural)]
pub struct GeminiTokens {
    pub input: i64,
    pub output: i64,
    pub cached: i64,
    pub thoughts: i64,
    pub tool: i64,
    pub total: i64,
}

} // verus!
