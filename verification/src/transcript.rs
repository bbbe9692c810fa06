//! Shapes of the records in a coding-assistant JSONL session transcript: the envelope
//! shared by message-bearing entries and the metadata-only entries, with
//! their nested parts. Optional fields are `None` when absent from the line.
//! The JSON reading and writing of these records belongs to the binary.
use std::collections::HashMap;

use vstd::prelude::*;

verus! {

/// Fields shared by every message-bearing entry. `parent_uuid` is `None` on
/// the first message of a session; `logical_parent_uuid` keeps the chain
/// across compact boundaries, where `parent_uuid` is reset.
#[derive(Debug, Clone)]
pub struct Envelope {
    pub uuid: String,
    pub parent_uuid: Option<String>,
    pub logical_parent_uuid: Option<String>,
    pub is_sidechain: bool,
    pub session_id: String,
    pub timestamp: String,
    pub user_type: Option<String>,
    pub entrypoint: Option<String>,
    pub cwd: Option<String>,
    pub version: Option<String>,
    pub git_branch: Option<String>,
    /// Human-readable session slug, e.g. "drifting-tinkering-parnas".
    pub slug: Option<String>,
    /// 7-char hex id for sidechain / subagent sessions.
    pub agent_id: Option<String>,
    pub team_name: Option<String>,
    pub agent_name: Option<String>,
    pub agent_color: Option<String>,
    /// Correlates with OTel prompt.id for user-prompt messages.
    pub prompt_id: Option<String>,
    /// True when this entry should be hidden in the UI (meta / invisible).
    pub is_meta: Option<bool>,
    /// Set when this session was forked from another session.
    pub forked_from: Option<ForkedFrom>,
    /// Snake-case session id emitted alongside `sessionId` by newer clients;
    /// it can differ from `session_id` on resumed sessions.
    pub session_id_snake: Option<String>,
    /// Session flavour when not a plain foreground session, e.g. "bg".
    pub session_kind: Option<String>,
}

/// Where a forked session came from.
#[derive(Debug, Clone)]
pub struct ForkedFrom {
    pub message_uuid: String,
    pub session_id: String,
}

/// Role of a user message; any role not known here reads as `Unknown`.
#[derive(Debug, Clone, Copy, PartialEq, Eq)]
pub enum UserRole {
    User,
    Unknown,
}

/// Source of an image content block; unrecognised source types read as
/// `Unknown`.
#[derive(Debug, Clone)]
pub enum ImageSource {
    Base64 { media_type: String, data: String },
    Url { url: String },
    Unknown,
}

/// Source of a document content block; unrecognised source types read as
/// `Unknown`.
#[derive(Debug, Clone)]
pub enum DocumentSource {
    Base64 { media_type: String, data: String },
    Text { data: String },
    Url { url: String },
    Unknown,
}

/// Quota / rate-limit state reported by the API on a throttled or rejected
/// turn.
#[derive(Debug, Clone)]
pub struct QuotaLimits {
    /// e.g. "rejected" | "allowed".
    pub status: String,
    /// Unix seconds at which the limit window resets.
    pub resets_at: u64,
    pub unified_rate_limit_fallback_available: bool,
    /// Window the limit applies to, e.g. "five_hour".
    pub rate_limit_type: String,
    /// Overage state, e.g. "rejected".
    pub overage_status: String,
    /// Why overage was unavailable, e.g. "org_level_disabled".
    pub overage_disabled_reason: Option<String>,
    pub is_using_overage: bool,
    /// Upgrade routes offered to the user, e.g. ["upgrade_plan"].
    pub upgrade_paths: Option<Vec<String>>,
}

/// Role of an assistant message; any role not known here reads as
/// `Unknown`.
#[derive(Debug, Clone, Copy, PartialEq, Eq)]
pub enum AssistantRole {
    Assistant,
    Unknown,
}

/// Origin of a tool call, present in some versions.
#[derive(Debug, Clone)]
pub struct ToolUseCaller {
    pub caller_type: String,
}

/// Breakdown of `output_tokens`: the extended-thinking share.
#[derive(Debug, Clone, Copy)]
pub struct OutputTokensDetails {
    pub thinking_tokens: u64,
}

/// Server-side tool use counts; a missing count reads as 0.
#[derive(Debug, Clone, Copy)]
pub struct ServerToolUse {
    pub web_search_requests: u64,
    pub web_fetch_requests: u64,
}

/// Cache-creation tokens split by cache lifetime.
#[derive(Debug, Clone, Copy)]
pub struct CacheCreation {
    pub ephemeral_1h_input_tokens: Option<u64>,
    pub ephemeral_5m_input_tokens: Option<u64>,
}

/// One iteration of a multi-iteration usage report.
#[derive(Debug, Clone)]
pub struct UsageIteration {
    pub input_tokens: u64,
    pub output_tokens: u64,
    pub cache_read_input_tokens: Option<u64>,
    pub cache_creation_input_tokens: Option<u64>,
    pub cache_creation: Option<CacheCreation>,
    /// Iteration type; typically "message".
    pub iter_type: Option<String>,
}

/// Subtype of a system entry; unrecognised subtypes read as `Unknown`.
#[derive(Debug, Clone, Copy, PartialEq, Eq)]
pub enum SystemSubtype {
    ApiError,
    AwaySummary,
    BridgeStatus,
    CompactBoundary,
    Informational,
    LocalCommand,
    ScheduledTaskFire,
    StopHookSummary,
    TurnDuration,
    MicrocompactBoundary,
    PermissionRetry,
    AgentsKilled,
    Unknown,
}

/// One hook run reported in a stop-hook summary.
#[derive(Debug, Clone)]
pub struct HookInfo {
    pub command: String,
    pub duration_ms: Option<u64>,
    /// Prompt text the hook injected.
    pub prompt_text: Option<String>,
}

/// The message window kept across a compaction.
#[derive(Debug, Clone)]
pub struct PreservedSegment {
    pub head_uuid: String,
    pub anchor_uuid: String,
    pub tail_uuid: String,
}

/// Details of a compaction boundary.
#[derive(Debug, Clone)]
pub struct CompactMetadata {
    pub trigger: String,
    pub pre_tokens: Option<u64>,
    pub post_tokens: Option<u64>,
    pub duration_ms: Option<u64>,
    pub preserved_segment: Option<PreservedSegment>,
    pub pre_compact_discovered_tools: Option<Vec<String>>,
    /// Tokens dropped by every compaction in this session so far.
    pub cumulative_dropped_tokens: Option<u64>,
    /// Explicit uuid list of the messages carried across the boundary.
    pub preserved_messages: Option<PreservedMessages>,
}

/// The messages carried across a compaction boundary.
#[derive(Debug, Clone)]
pub struct PreservedMessages {
    /// Uuid of the anchor message the preserved window is centred on.
    pub anchor_uuid: String,
    /// Uuids kept in the post-compaction context.
    pub uuids: Vec<String>,
    /// Uuids considered for preservation, including ones ultimately dropped.
    pub all_uuids: Vec<String>,
}

/// A memory-file import attached to the conversation.
#[derive(Debug, Clone)]
pub struct NestedMemoryContent {
    pub path: String,
    /// Memory-file scope ("Project", "User", "Local", etc).
    pub memory_type: String,
    pub content: String,
    pub content_differs_from_disk: Option<bool>,
}

/// A skill loaded into the conversation.
#[derive(Debug, Clone)]
pub struct InvokedSkill {
    pub name: String,
    pub path: String,
    pub content: String,
}

/// Why prompt caching missed on a turn; `kind` keeps the raw reason text.
#[derive(Debug, Clone)]
pub struct CacheMissReason {
    pub kind: String,
    pub cache_missed_input_tokens: Option<u64>,
}

/// Diagnostics the API attaches to an assistant message.
#[derive(Debug, Clone)]
pub struct AssistantDiagnostics {
    pub cache_miss_reason: Option<CacheMissReason>,
}

/// A range in a file reported by an IDE diagnostic.
#[derive(Debug, Clone, Copy)]
pub struct DiagnosticRange {
    pub start: DiagnosticPosition,
    pub end: DiagnosticPosition,
}

/// A line / character position in a file.
#[derive(Debug, Clone, Copy)]
pub struct DiagnosticPosition {
    pub line: u32,
    pub character: u32,
}

/// `permission-mode` entry.
#[derive(Debug, Clone)]
pub struct PermissionModeEntry {
    pub permission_mode: String,
    pub session_id: String,
}

/// `last-prompt` entry: older clients inline the prompt text, newer ones
/// point at the leaf message; either may be absent.
#[derive(Debug, Clone)]
pub struct LastPromptEntry {
    pub last_prompt: Option<String>,
    pub leaf_uuid: Option<String>,
    pub session_id: String,
}

/// `ai-title` entry.
#[derive(Debug, Clone)]
pub struct AiTitleEntry {
    pub ai_title: String,
    pub session_id: String,
}

/// `custom-title` entry.
#[derive(Debug, Clone)]
pub struct CustomTitleEntry {
    pub custom_title: String,
    pub session_id: String,
}

/// `agent-name` entry.
#[derive(Debug, Clone)]
pub struct AgentNameEntry {
    pub agent_name: String,
    pub session_id: String,
}

/// `agent-color` entry.
#[derive(Debug, Clone)]
pub struct AgentColorEntry {
    pub agent_color: String,
    pub session_id: String,
}

/// `agent-setting` entry.
#[derive(Debug, Clone)]
pub struct AgentSettingEntry {
    pub agent_setting: String,
    pub session_id: String,
}

/// `tag` entry.
#[derive(Debug, Clone)]
pub struct TagEntry {
    pub tag: String,
    pub session_id: String,
}

/// `summary` entry.
#[derive(Debug, Clone)]
pub struct SummaryEntry {
    pub leaf_uuid: String,
    pub summary: String,
    pub session_id: String,
}

/// `task-summary` entry.
#[derive(Debug, Clone)]
pub struct TaskSummaryEntry {
    pub summary: String,
    pub session_id: String,
    pub timestamp: String,
}

/// `pr-link` entry.
#[derive(Debug, Clone)]
pub struct PrLinkEntry {
    pub session_id: String,
    pub pr_number: u32,
    pub pr_url: String,
    pub pr_repository: String,
    pub timestamp: String,
}

/// `mode` entry.
#[derive(Debug, Clone)]
pub struct ModeEntry {
    pub mode: SessionMode,
    pub session_id: String,
}

/// Session mode; unrecognised modes read as `Unknown`.
#[derive(Debug, Clone, Copy, PartialEq, Eq)]
pub enum SessionMode {
    Coordinator,
    Normal,
    Unknown,
}

/// `worktree-state` entry: `None` when the worktree session was exited.
#[derive(Debug, Clone)]
pub struct WorktreeStateEntry {
    pub session_id: String,
    pub worktree_session: Option<PersistedWorktreeSession>,
}

/// An active worktree session.
#[derive(Debug, Clone)]
pub struct PersistedWorktreeSession {
    pub original_cwd: String,
    pub worktree_path: String,
    pub worktree_name: String,
    pub session_id: String,
    pub worktree_branch: Option<String>,
    pub original_branch: Option<String>,
    pub original_head_commit: Option<String>,
    pub tmux_session_name: Option<String>,
    pub hook_based: Option<bool>,
}

/// `queue-operation` entry.
#[derive(Debug, Clone)]
pub struct QueueOperationEntry {
    pub operation: String,
    pub timestamp: String,
    pub session_id: String,
    pub content: Option<String>,
}

/// `marble-origami-commit` entry (context collapse).
#[derive(Debug, Clone)]
pub struct ContextCollapseCommitEntry {
    pub session_id: String,
    pub collapse_id: String,
    pub summary_uuid: String,
    pub summary_content: String,
    pub summary: String,
    pub first_archived_uuid: String,
    pub last_archived_uuid: String,
}

/// `speculation-accept` entry.
#[derive(Debug, Clone)]
pub struct SpeculationAcceptEntry {
    pub timestamp: String,
    pub time_saved_ms: u64,
}

/// `atis-latch` entry: the short status string the client replays on
/// resume.
#[derive(Debug, Clone)]
pub struct AtisLatchEntry {
    pub atis: String,
    pub session_id: String,
}

/// `bridge-session` entry: link to the cloud bridge session backing a
/// local session.
#[derive(Debug, Clone)]
pub struct BridgeSessionEntry {
    pub session_id: String,
    /// Server-side session id.
    pub bridge_session_id: String,
    /// Highest bridge event sequence number acknowledged so far.
    pub last_sequence_num: u64,
    pub owner_account_uuid: Option<String>,
    pub owner_organization_uuid: Option<String>,
}

/// `file-history-delta` entry: one tracked file backed up at one message.
#[derive(Debug, Clone)]
pub struct FileHistoryDeltaEntry {
    /// Entry uuid this delta belongs to.
    pub message_id: String,
    /// Uuid of the snapshot this delta extends.
    pub snapshot_message_id: String,
    /// Path as tracked, relative to the backup's `real_parent_dir`.
    pub tracking_path: String,
    pub backup: FileHistoryBackup,
    pub timestamp: String,
}

/// One backup of a tracked file. `backup_file_name` is `None` when the
/// field is absent, `Some(None)` when it is `null` (the file did not exist).
#[derive(Debug, Clone)]
pub struct FileHistoryBackup {
    pub backup_file_name: Option<Option<String>>,
    pub version: u32,
    pub backup_time: String,
    /// Absolute directory `tracking_path` is relative to.
    pub real_parent_dir: Option<String>,
}

/// `frame-link` entry: an artifact the session published.
#[derive(Debug, Clone)]
pub struct FrameLinkEntry {
    pub session_id: String,
    pub timestamp: String,
    /// Local file that was published.
    pub path: Option<String>,
    /// Hosted URL of the published artifact.
    pub frame_url: Option<String>,
    pub title: Option<String>,
    /// Number of artifacts published in the session so far.
    pub artifact_count: Option<u32>,
}

/// `fork-context-ref` entry: where a forked subagent's context came from.
#[derive(Debug, Clone)]
pub struct ForkContextRefEntry {
    pub agent_id: String,
    pub parent_session_id: String,
    /// Last entry of the parent session included in the fork.
    pub parent_last_uuid: String,
    /// Number of parent entries carried into the fork.
    pub context_length: u64,
}

/// `artifact-comment-monitor` entry: per-session state of the artifact
/// comment watcher, keyed by artifact uuid.
#[derive(Debug, Clone)]
pub struct ArtifactCommentMonitorEntry {
    /// State format version.
    pub v: u32,
    pub session_id: String,
    pub artifacts: HashMap<String, ArtifactCommentMonitorState>,
}

/// Watcher state of one artifact.
#[derive(Debug, Clone)]
pub struct ArtifactCommentMonitorState {
    /// e.g. "armed".
    pub state: String,
    /// Unix milliseconds the state was written.
    pub written_at_ms: u64,
    pub title: String,
}

} // verus!
