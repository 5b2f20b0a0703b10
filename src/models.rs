//! Records read from session logs and the summaries derived from them.

use vstd::prelude::*;
use crate::json::{Json, JsonNumber};

verus! {

/// Token counters of one model invocation; an absent counter counts as zero.
#[derive(Clone, Debug)]
pub struct TokenUsage {
    pub input_tokens: Option<u32>,
    pub output_tokens: Option<u32>,
    pub cache_creation_input_tokens: Option<u32>,
    pub cache_read_input_tokens: Option<u32>,
    pub service_tier: Option<String>,
}

/// The message payload embedded in a log record.
#[derive(Debug)]
pub struct MessageContent {
    pub role: String,
    pub content: Json,
    pub id: Option<String>,
    pub model: Option<String>,
    pub stop_reason: Option<String>,
    pub usage: Option<TokenUsage>,
}

/// One line of a session log, as recorded: every field but the kind is optional.
#[derive(Debug)]
pub struct RawLogEntry {
    pub uuid: Option<String>,
    pub parent_uuid: Option<String>,
    pub session_id: Option<String>,
    pub timestamp: Option<String>,
    pub message_type: String,
    pub summary: Option<String>,
    pub leaf_uuid: Option<String>,
    pub message: Option<MessageContent>,
    pub tool_use: Option<Json>,
    pub tool_use_result: Option<Json>,
    pub is_sidechain: Option<bool>,
    pub cwd: Option<String>,
    pub cost_usd: Option<JsonNumber>,
    pub duration_ms: Option<u64>,
    pub message_id: Option<String>,
    pub snapshot: Option<Json>,
    pub is_snapshot_update: Option<bool>,
    pub data: Option<Json>,
    pub tool_use_id: Option<String>,
    pub parent_tool_use_id: Option<String>,
    pub operation: Option<String>,
    pub subtype: Option<String>,
    pub level: Option<String>,
    pub hook_count: Option<u32>,
    pub hook_infos: Option<Json>,
    pub stop_reason_system: Option<String>,
    pub prevented_continuation: Option<bool>,
    pub compact_metadata: Option<Json>,
    pub microcompact_metadata: Option<Json>,
    pub content: Option<Json>,
    pub is_meta: Option<bool>,
}

/// A log record with its identity filled in: identifier, session and
/// timestamp are always present.
#[derive(Debug)]
pub struct ClaudeMessage {
    pub uuid: String,
    pub parent_uuid: Option<String>,
    pub session_id: String,
    pub timestamp: String,
    pub message_type: String,
    pub content: Option<Json>,
    pub tool_use: Option<Json>,
    pub tool_use_result: Option<Json>,
    pub is_sidechain: Option<bool>,
    pub usage: Option<TokenUsage>,
    pub role: Option<String>,
    pub model: Option<String>,
    pub stop_reason: Option<String>,
    pub cost_usd: Option<JsonNumber>,
    pub duration_ms: Option<u64>,
    pub message_id: Option<String>,
    pub snapshot: Option<Json>,
    pub is_snapshot_update: Option<bool>,
    pub data: Option<Json>,
    pub tool_use_id: Option<String>,
    pub parent_tool_use_id: Option<String>,
    pub operation: Option<String>,
    pub subtype: Option<String>,
    pub level: Option<String>,
    pub hook_count: Option<u32>,
    pub hook_infos: Option<Json>,
    pub stop_reason_system: Option<String>,
    pub prevented_continuation: Option<bool>,
    pub compact_metadata: Option<Json>,
    pub microcompact_metadata: Option<Json>,
}

/// One page of a session's messages.
#[derive(Debug)]
pub struct MessagePage {
    pub messages: Vec<ClaudeMessage>,
    pub total_count: usize,
    pub has_more: bool,
    pub next_offset: usize,
}

/// A project directory and what it holds.
#[derive(Clone, Debug)]
pub struct ClaudeProject {
    pub name: String,
    pub path: String,
    pub session_count: usize,
    pub message_count: usize,
    pub last_modified: String,
}

/// A session file: identified by its path, with the session id found in it.
#[derive(Clone, Debug)]
pub struct ClaudeSession {
    pub session_id: String,
    pub actual_session_id: String,
    pub file_path: String,
    pub project_name: String,
    pub message_count: usize,
    pub first_message_time: String,
    pub last_message_time: String,
    pub last_modified: String,
    pub has_tool_use: bool,
    pub has_errors: bool,
    pub summary: Option<String>,
}

/// Token totals of one session.
#[derive(Clone, Debug)]
pub struct SessionTokenStats {
    pub session_id: String,
    pub project_name: String,
    pub total_input_tokens: u32,
    pub total_output_tokens: u32,
    pub total_cache_creation_tokens: u32,
    pub total_cache_read_tokens: u32,
    pub total_tokens: u32,
    pub message_count: usize,
    pub first_message_time: String,
    pub last_message_time: String,
}

/// Activity of one calendar day.
#[derive(Clone, Debug)]
pub struct DailyStats {
    pub date: String,
    pub total_tokens: u64,
    pub input_tokens: u64,
    pub output_tokens: u64,
    pub message_count: usize,
    pub session_count: usize,
    pub active_hours: usize,
}

impl Default for DailyStats {
    fn default() -> (r: DailyStats)
        ensures
            r.date@.len() == 0,
            r.total_tokens == 0 && r.input_tokens == 0 && r.output_tokens == 0,
            r.message_count == 0 && r.session_count == 0 && r.active_hours == 0,
    {
        DailyStats {
            date: String::new(),
            total_tokens: 0,
            input_tokens: 0,
            output_tokens: 0,
            message_count: 0,
            session_count: 0,
            active_hours: 0,
        }
    }
}

/// How often a tool was called, and how many of the calls succeeded.
#[derive(Clone, Debug)]
pub struct ToolUsageStats {
    pub tool_name: String,
    pub usage_count: u32,
    pub success_count: u32,
}

/// Activity in one hour of one weekday (0 is Sunday).
#[derive(Clone, Copy, Debug)]
pub struct ActivityHeatmap {
    pub hour: u8,
    pub day: u8,
    pub activity_count: u32,
    pub tokens_used: u64,
}

/// Token totals by kind.
#[derive(Clone, Copy, Debug)]
pub struct TokenDistribution {
    pub input: u64,
    pub output: u64,
    pub cache_creation: u64,
    pub cache_read: u64,
}

impl Default for TokenDistribution {
    fn default() -> (r: TokenDistribution)
        ensures
            r.input == 0 && r.output == 0 && r.cache_creation == 0 && r.cache_read == 0,
    {
        TokenDistribution { input: 0, output: 0, cache_creation: 0, cache_read: 0 }
    }
}

/// Statistics of one project.
#[derive(Clone, Debug)]
pub struct ProjectStatsSummary {
    pub project_name: String,
    pub total_sessions: usize,
    pub total_messages: usize,
    pub total_tokens: u64,
    pub avg_tokens_per_session: u64,
    pub avg_session_duration: u32,
    pub total_session_duration: u32,
    pub most_active_hour: u8,
    pub most_used_tools: Vec<ToolUsageStats>,
    pub daily_stats: Vec<DailyStats>,
    pub activity_heatmap: Vec<ActivityHeatmap>,
    pub token_distribution: TokenDistribution,
}

impl Default for ProjectStatsSummary {
    fn default() -> (r: ProjectStatsSummary)
        ensures
            r.project_name@.len() == 0,
            r.total_sessions == 0 && r.total_messages == 0 && r.total_tokens == 0,
            r.avg_tokens_per_session == 0 && r.avg_session_duration == 0,
            r.total_session_duration == 0 && r.most_active_hour == 0,
            r.most_used_tools@.len() == 0 && r.daily_stats@.len() == 0,
            r.activity_heatmap@.len() == 0,
            r.token_distribution.input == 0 && r.token_distribution.output == 0,
            r.token_distribution.cache_creation == 0 && r.token_distribution.cache_read == 0,
    {
        ProjectStatsSummary {
            project_name: String::new(),
            total_sessions: 0,
            total_messages: 0,
            total_tokens: 0,
            avg_tokens_per_session: 0,
            avg_session_duration: 0,
            total_session_duration: 0,
            most_active_hour: 0,
            most_used_tools: Vec::new(),
            daily_stats: Vec::new(),
            activity_heatmap: Vec::new(),
            token_distribution: TokenDistribution::default(),
        }
    }
}

/// How one session compares with the other sessions of its project. The
/// shares are kept as numerator and denominator.
#[derive(Clone, Debug)]
pub struct SessionComparison {
    pub session_id: String,
    pub session_tokens: u64,
    pub project_tokens: u64,
    pub session_messages: u64,
    pub project_messages: u64,
    pub rank_by_tokens: usize,
    pub rank_by_duration: usize,
    pub is_above_average: bool,
}

/// The first and last message times, and the whole days between them.
#[derive(Clone, Debug)]
pub struct DateRange {
    pub first_message: Option<String>,
    pub last_message: Option<String>,
    pub days_span: u32,
}

/// Token use of one model.
#[derive(Clone, Debug)]
pub struct ModelStats {
    pub model_name: String,
    pub message_count: u32,
    pub token_count: u64,
    pub input_tokens: u64,
    pub output_tokens: u64,
    pub cache_creation_tokens: u64,
    pub cache_read_tokens: u64,
}

/// A project's place among all projects.
#[derive(Clone, Debug)]
pub struct ProjectRanking {
    pub project_name: String,
    pub sessions: u32,
    pub messages: u32,
    pub tokens: u64,
}

/// Statistics over every project.
#[derive(Clone, Debug)]
pub struct GlobalStatsSummary {
    pub total_projects: u32,
    pub total_sessions: u32,
    pub total_messages: u32,
    pub total_tokens: u64,
    pub total_session_duration_minutes: u64,
    pub date_range: DateRange,
    pub token_distribution: TokenDistribution,
    pub daily_stats: Vec<DailyStats>,
    pub activity_heatmap: Vec<ActivityHeatmap>,
    pub most_used_tools: Vec<ToolUsageStats>,
    pub model_distribution: Vec<ModelStats>,
    pub top_projects: Vec<ProjectRanking>,
}

/// The content of a file after one recorded edit or write.
#[derive(Clone, Debug)]
pub struct RecentFileEdit {
    pub file_path: String,
    pub timestamp: String,
    pub session_id: String,
    pub operation_type: String,
    pub content_after_change: String,
    pub original_content: Option<String>,
    pub lines_added: usize,
    pub lines_removed: usize,
    pub cwd: Option<String>,
}

/// The latest edit of each file, with counts.
#[derive(Clone, Debug)]
pub struct RecentEditsResult {
    pub files: Vec<RecentFileEdit>,
    pub total_edits_count: usize,
    pub unique_files_count: usize,
    pub project_cwd: Option<String>,
}

} // verus!
