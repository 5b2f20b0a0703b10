use history_core::edits::{edits_from_entry, replay_edits};
use history_core::json::{search_in_value, Json, JsonNumber};
use history_core::models::{ClaudeMessage, MessageContent, RawLogEntry, TokenUsage};
use history_core::normalize::{canonicalize, canonicalize_with, Rejection};
use history_core::paging::message_page;
use history_core::recent::{recent_edits_page, EditScan};
use history_core::search::{line_identifier_text, search_hit, search_hit_with};
use history_core::sessions::{project_token_stats, session_comparison, session_token_stats, StatsError};
use history_core::stats::{global_summary, project_summary, Aggregate};
use history_core::text::{count_lines, decimal_text, lowercase_query};
use history_core::timeline::{session_active_minutes, Instant};
use history_core::usage::extract_token_usage;

fn text(s: &str) -> Json {
    Json::Str(s.to_string())
}

fn num(n: u64) -> Json {
    Json::Number(JsonNumber { text: n.to_string(), unsigned: Some(n) })
}

fn obj(members: Vec<(&str, Json)>) -> Json {
    Json::Object(members.into_iter().map(|(k, v)| (k.to_string(), v)).collect())
}

fn entry(kind: &str) -> RawLogEntry {
    RawLogEntry {
        uuid: None,
        parent_uuid: None,
        session_id: None,
        timestamp: None,
        message_type: kind.to_string(),
        summary: None,
        leaf_uuid: None,
        message: None,
        tool_use: None,
        tool_use_result: None,
        is_sidechain: None,
        cwd: None,
        cost_usd: None,
        duration_ms: None,
        message_id: None,
        snapshot: None,
        is_snapshot_update: None,
        data: None,
        tool_use_id: None,
        parent_tool_use_id: None,
        operation: None,
        subtype: None,
        level: None,
        hook_count: None,
        hook_infos: None,
        stop_reason_system: None,
        prevented_continuation: None,
        compact_metadata: None,
        microcompact_metadata: None,
        content: None,
        is_meta: None,
    }
}

fn usage(input: Option<u32>, output: Option<u32>) -> TokenUsage {
    TokenUsage {
        input_tokens: input,
        output_tokens: output,
        cache_creation_input_tokens: None,
        cache_read_input_tokens: None,
        service_tier: None,
    }
}

fn payload(role: &str, content: Json, u: Option<TokenUsage>) -> MessageContent {
    MessageContent { role: role.to_string(), content, id: None, model: None, stop_reason: None, usage: u }
}

fn timed(kind: &str, uuid: &str, session: &str, ts: &str) -> RawLogEntry {
    let mut e = entry(kind);
    e.uuid = Some(uuid.to_string());
    e.session_id = Some(session.to_string());
    e.timestamp = Some(ts.to_string());
    e
}

fn message(kind: &str, ts: &str) -> ClaudeMessage {
    canonicalize(timed(kind, "u", "s", ts)).unwrap()
}

// ----- normalisation -----

#[test]
fn summary_records_are_rejected() {
    let mut e = timed("summary", "u", "s", "2025-06-26T10:00:00Z");
    e.summary = Some("This is a summary of the conversation".to_string());
    assert_eq!(canonicalize(e).unwrap_err(), Rejection::Summary);
}

#[test]
fn records_without_identity_are_rejected() {
    let e = entry("user");
    let err = canonicalize(e).unwrap_err();
    assert_eq!(err, Rejection::MissingIdentity);
    assert_eq!(err.message(), "Missing session_id and timestamp");
}

#[test]
fn missing_identity_fields_are_filled() {
    let mut e = entry("assistant");
    e.timestamp = Some("2025-01-01T00:00:00Z".to_string());
    let mut mc = payload("assistant", text("hi"), Some(usage(Some(1), Some(2))));
    mc.model = Some("model-a".to_string());
    mc.id = Some("msg_123".to_string());
    e.message = Some(mc);
    let m = canonicalize(e).unwrap();
    assert!(!m.uuid.is_empty());
    assert_eq!(m.session_id, "unknown-session");
    assert_eq!(m.timestamp, "2025-01-01T00:00:00Z");
    assert_eq!(m.role.as_deref(), Some("assistant"));
    assert_eq!(m.model.as_deref(), Some("model-a"));
    assert_eq!(m.message_id.as_deref(), Some("msg_123"));
}

#[test]
fn fallbacks_are_used_exactly() {
    let mut e = entry("user");
    e.session_id = Some("session-789".to_string());
    let m = canonicalize_with(e, "fresh".to_string(), "2030-01-01T00:00:00Z".to_string()).unwrap();
    assert_eq!(m.uuid, "fresh");
    assert_eq!(m.timestamp, "2030-01-01T00:00:00Z");
    assert_eq!(m.session_id, "session-789");
    assert!(m.content.is_none() && m.role.is_none());
}

// ----- token usage -----

#[test]
fn usage_prefers_own_then_content_then_tool_result() {
    let mut e = timed("assistant", "u", "s", "2025-01-01T00:00:00Z");
    let content = obj(vec![("usage", obj(vec![("input_tokens", num(7)), ("cache_read_input_tokens", num(3)), ("service_tier", text("standard"))]))]);
    e.message = Some(payload("assistant", content, Some(usage(None, Some(20)))));
    e.tool_use_result = Some(obj(vec![("usage", obj(vec![("output_tokens", num(50))]))]));
    let m = canonicalize(e).unwrap();
    let u = extract_token_usage(&m);
    assert_eq!(u.input_tokens, Some(7));
    assert_eq!(u.output_tokens, Some(50));
    assert_eq!(u.cache_read_input_tokens, Some(3));
    assert_eq!(u.cache_creation_input_tokens, None);
    assert_eq!(u.service_tier.as_deref(), Some("standard"));
}

#[test]
fn tool_total_counts_as_output_for_assistant_and_input_otherwise() {
    let mut a = timed("assistant", "u", "s", "2025-01-01T00:00:00Z");
    a.tool_use_result = Some(obj(vec![("totalTokens", num(900))]));
    let ua = extract_token_usage(&canonicalize(a).unwrap());
    assert_eq!(ua.output_tokens, Some(900));
    assert_eq!(ua.input_tokens, None);
    let mut b = timed("user", "u", "s", "2025-01-01T00:00:00Z");
    b.tool_use_result = Some(obj(vec![("totalTokens", num(900))]));
    let ub = extract_token_usage(&canonicalize(b).unwrap());
    assert_eq!(ub.input_tokens, Some(900));
    assert_eq!(ub.output_tokens, None);
}

#[test]
fn session_token_stats_of_two_messages() {
    let mut user = timed("user", "uuid-1", "session-1", "2025-06-26T10:00:00Z");
    user.message = Some(payload("user", text("Hello"), None));
    let mut assistant = timed("assistant", "uuid-2", "session-1", "2025-06-26T10:01:00Z");
    assistant.message = Some(payload("assistant", text("Hi!"), Some(usage(Some(100), Some(200)))));
    let messages = vec![canonicalize(user).unwrap(), canonicalize(assistant).unwrap()];
    let stats = session_token_stats(&messages, "my-project".to_string()).unwrap();
    assert_eq!(stats.total_input_tokens, 100);
    assert_eq!(stats.total_output_tokens, 200);
    assert_eq!(stats.total_tokens, 300);
    assert_eq!(stats.message_count, 2);
    assert_eq!(stats.session_id, "session-1");
    assert_eq!(stats.first_message_time, "2025-06-26T10:00:00Z");
    assert_eq!(stats.last_message_time, "2025-06-26T10:01:00Z");
}

#[test]
fn session_token_stats_need_a_message() {
    let err = session_token_stats(&Vec::new(), "p".to_string()).unwrap_err();
    assert_eq!(err, StatsError::NoMessages);
    assert_eq!(err.message(), "No valid messages found in session");
}

// ----- edits -----

#[test]
fn write_tool_invocation_yields_a_write() {
    let mut e = timed("assistant", "uuid-1", "session-1", "2025-06-26T10:00:00Z");
    e.cwd = Some("/test/project".to_string());
    e.tool_use = Some(obj(vec![
        ("name", text("Write")),
        ("input", obj(vec![("file_path", text("/test/project/src/main.rs")), ("content", text("fn main() {}\n// end"))])),
    ]));
    let edits = edits_from_entry(&e);
    assert_eq!(edits.len(), 1);
    assert_eq!(edits[0].file_path, "/test/project/src/main.rs");
    assert_eq!(edits[0].operation_type, "write");
    assert_eq!(edits[0].lines_added, 2);
    assert_eq!(edits[0].lines_removed, 0);
    assert_eq!(edits[0].original_content, None);
}

#[test]
fn single_edit_replaces_the_first_occurrence() {
    let mut e = timed("user", "uuid-1", "session-1", "2025-06-26T10:00:00Z");
    e.tool_use_result = Some(obj(vec![
        ("filePath", text("/test/project/src/lib.rs")),
        ("oldString", text("old")),
        ("newString", text("new\nnewer")),
        ("originalFile", text("old code here, old code")),
    ]));
    let edits = edits_from_entry(&e);
    assert_eq!(edits.len(), 1);
    assert_eq!(edits[0].operation_type, "edit");
    assert_eq!(edits[0].content_after_change, "new\nnewer code here, old code");
    assert_eq!(edits[0].original_content.as_deref(), Some("old code here, old code"));
    assert_eq!(edits[0].lines_added, 2);
    assert_eq!(edits[0].lines_removed, 1);
}

#[test]
fn test_get_recent_edits_with_multi_edit() {
    let mut e = timed("user", "uuid-1", "session-1", "2025-06-26T10:00:00Z");
    e.tool_use_result = Some(obj(vec![
        ("filePath", text("/test/project/src/mod.rs")),
        ("edits", Json::Array(vec![
            obj(vec![("old_string", text("old1")), ("new_string", text("new1"))]),
            obj(vec![("old_string", text("old2")), ("new_string", text("new2"))]),
        ])),
        ("originalFile", text("old1 old2")),
    ]));
    let edits = edits_from_entry(&e);
    assert_eq!(edits.len(), 1);
    assert_eq!(edits[0].content_after_change, "new1 new2");
}

#[test]
fn chained_edits_accumulate_line_counts() {
    let steps = vec![
        obj(vec![("old_string", text("a")), ("new_string", text("b"))]),
        obj(vec![("old_string", text("b")), ("new_string", text("c"))]),
    ];
    let (content, added, removed) = replay_edits("a", &steps);
    assert_eq!(content, "c");
    assert_eq!(added, 2);
    assert_eq!(removed, 2);
    assert_eq!(replay_edits("a", &steps), (content, added, removed));
}

#[test]
fn test_get_recent_edits_with_create_type() {
    let mut e = timed("user", "uuid-1", "session-1", "2025-06-26T10:00:00Z");
    e.tool_use_result = Some(obj(vec![
        ("type", text("create")),
        ("filePath", text("/test/project/new_file.rs")),
        ("content", text("pub fn new() {}")),
    ]));
    let edits = edits_from_entry(&e);
    assert_eq!(edits.len(), 1);
    assert_eq!(edits[0].operation_type, "write");
    assert_eq!(edits[0].content_after_change, "pub fn new() {}");
}

#[test]
fn lines_are_counted_like_str_lines() {
    assert_eq!(count_lines(""), 0);
    assert_eq!(count_lines("a"), 1);
    assert_eq!(count_lines("a\n"), 1);
    assert_eq!(count_lines("a\n\nb"), 3);
    assert_eq!(count_lines("\n"), 1);
}

fn edit_record(uuid: &str, ts: &str, path: &str, old: &str, new: &str, original: &str) -> RawLogEntry {
    let mut e = timed("user", uuid, "session-1", ts);
    e.cwd = Some("/test/project".to_string());
    e.tool_use_result = Some(obj(vec![
        ("filePath", text(path)),
        ("oldString", text(old)),
        ("newString", text(new)),
        ("originalFile", text(original)),
    ]));
    e
}

#[test]
fn test_get_recent_edits_keeps_latest_per_file() {
    let mut scan = EditScan::new();
    scan.add_entry(&edit_record("uuid-2", "2025-06-26T10:01:00Z", "/test/project/file.txt", "v2", "v3", "v2"));
    scan.add_entry(&edit_record("uuid-1", "2025-06-26T10:00:00Z", "/test/project/file.txt", "v1", "v2", "v1"));
    let page = recent_edits_page(&scan, None, None, false);
    assert_eq!(page.unique_files_count, 1);
    assert_eq!(page.total_edits_count, 2);
    assert_eq!(page.files[0].content_after_change, "v3");
    assert_eq!(page.limit, 20);
    assert_eq!(page.offset, 0);
    assert!(!page.has_more);
}

#[test]
fn test_get_recent_edits_filters_by_project_cwd() {
    let mut scan = EditScan::new();
    scan.add_entry(&edit_record("uuid-1", "2025-06-26T10:00:00Z", "/test/project/file1.txt", "old", "new", "old"));
    scan.add_entry(&edit_record("uuid-2", "2025-06-26T10:00:00Z", "/test/project/file2.txt", "old", "new", "old"));
    scan.add_entry(&edit_record("uuid-3", "2025-06-26T10:01:00Z", "/other/location/file3.txt", "old", "new", "old"));
    let page = recent_edits_page(&scan, None, None, false);
    assert_eq!(page.unique_files_count, 2);
    assert_eq!(page.total_edits_count, 2);
    assert_eq!(page.project_cwd, Some("/test/project".to_string()));
}

#[test]
fn test_get_recent_edits_empty_dir() {
    let scan = EditScan::new();
    let page = recent_edits_page(&scan, None, None, false);
    assert!(page.files.is_empty());
    assert_eq!(page.total_edits_count, 0);
    assert_eq!(page.unique_files_count, 0);
    assert_eq!(page.project_cwd, None);
}

#[test]
fn recent_edits_are_paged_newest_first() {
    let mut a = EditScan::new();
    a.add_entry(&edit_record("1", "2025-06-26T10:00:00Z", "/test/project/a", "x", "y", "x"));
    a.add_entry(&edit_record("2", "2025-06-26T10:02:00Z", "/test/project/b", "x", "y", "x"));
    let mut b = EditScan::new();
    b.add_entry(&edit_record("3", "2025-06-26T10:01:00Z", "/test/project/c", "x", "y", "x"));
    a.merge(b);
    let first = recent_edits_page(&a, Some(0), Some(2), false);
    let paths: Vec<&str> = first.files.iter().map(|f| f.file_path.as_str()).collect();
    assert_eq!(paths, vec!["/test/project/b", "/test/project/c"]);
    assert!(first.has_more);
    let second = recent_edits_page(&a, Some(2), Some(2), false);
    assert_eq!(second.files.len(), 1);
    assert_eq!(second.files[0].file_path, "/test/project/a");
    assert!(!second.has_more);
    let beyond = recent_edits_page(&a, Some(9), Some(2), false);
    assert!(beyond.files.is_empty());
    assert!(!beyond.has_more);
    assert_eq!(beyond.unique_files_count, 3);
}

// ----- search -----

fn user_line(uuid: &str, content: Json) -> RawLogEntry {
    let mut e = timed("user", uuid, "session-1", "2025-06-26T10:00:00Z");
    e.message = Some(payload("user", content, None));
    e
}

#[test]
fn search_is_case_insensitive_and_recursive() {
    let q = lowercase_query("Rust");
    assert_eq!(q, "rust");
    let hit = search_hit(user_line("uuid-1", text("Hello Rust programming")), &q, 1).unwrap();
    assert_eq!(hit.uuid, "uuid-1");
    let nested = Json::Array(vec![obj(vec![("type", text("text")), ("text", text("RUST is great!"))])]);
    assert!(search_hit(user_line("uuid-2", nested), &q, 2).is_some());
    assert!(search_hit(user_line("uuid-3", text("Hello World")), &q, 3).is_none());
    assert!(!search_in_value(&num(42), "4"));
}

#[test]
fn search_skips_other_kinds_and_fills_identity() {
    let mut summary = entry("summary");
    summary.message = Some(payload("user", text("rust"), None));
    assert!(search_hit(summary, "rust", 1).is_none());
    let mut anonymous = entry("assistant");
    anonymous.message = Some(payload("assistant", text("rust"), None));
    let hit = search_hit_with(anonymous, "rust", "abc-line-4".to_string(), "now".to_string()).unwrap();
    assert_eq!(hit.uuid, "abc-line-4");
    assert_eq!(hit.session_id, "unknown-session");
    assert_eq!(hit.timestamp, "now");
    let mut generated = entry("assistant");
    generated.message = Some(payload("assistant", text("rust"), None));
    assert!(search_hit(generated, "rust", 4).unwrap().uuid.ends_with("-line-4"));
}

// ----- time and statistics -----

fn at(seconds: i64) -> Instant {
    Instant { seconds, nanos: 0, hour: 0, weekday: 0, date: String::new(), rfc3339: String::new() }
}

#[test]
fn timestamps_are_read_in_utc() {
    let mut agg = Aggregate::new();
    let mut e = timed("user", "u", "s", "2025-06-26T12:30:00+02:00");
    e.message = Some(payload("user", text("x"), Some(usage(Some(4), None))));
    agg.add_message(&canonicalize(e).unwrap());
    agg.add_message(&message("user", "not a time"));
    agg.end_session();
    agg.end_project("alpha".to_string());
    let g = global_summary(&agg);
    assert_eq!(g.activity_heatmap.len(), 1);
    assert_eq!((g.activity_heatmap[0].hour, g.activity_heatmap[0].day), (10, 4));
    assert_eq!(g.daily_stats[0].date, "2025-06-26");
    assert_eq!(g.date_range.first_message.as_deref(), Some("2025-06-26T10:30:00+00:00"));
    assert_eq!(g.total_messages, 2);
    assert_eq!(g.total_tokens, 4);
}

#[test]
fn long_gaps_split_active_periods() {
    let ten = 10 * 3600;
    let two = vec![at(ten), at(ten + 150 * 60)];
    assert_eq!(session_active_minutes(&two), 2);
    let one = vec![at(ten)];
    assert_eq!(session_active_minutes(&one), 1);
    let close = vec![at(ten + 20 * 60), at(ten), at(ten + 10 * 60)];
    assert_eq!(session_active_minutes(&close), 20);
    assert_eq!(session_active_minutes(&Vec::new()), 0);
    let mixed = vec![at(8 * 3600), at(8 * 3600 + 45 * 60), at(12 * 3600)];
    assert_eq!(session_active_minutes(&mixed), 46);
    let edge = vec![at(0), at(120 * 60), at(240 * 60 + 59)];
    assert_eq!(session_active_minutes(&edge), 240);
}

fn tool_call(name: &str) -> Json {
    obj(vec![("type", text("tool_use")), ("name", text(name))])
}

#[test]
fn project_summary_aggregates_messages() {
    let mut agg = Aggregate::new();
    let mut a = timed("assistant", "1", "s", "2025-06-01T10:00:00Z");
    let mut mc = payload("assistant", Json::Array(vec![tool_call("Read"), tool_call("Read"), tool_call("Bash")]), Some(usage(Some(10), Some(20))));
    mc.model = Some("opus".to_string());
    a.message = Some(mc);
    agg.add_message(&canonicalize(a).unwrap());
    let mut b = timed("user", "2", "s", "2025-06-02T11:00:00Z");
    b.tool_use = Some(obj(vec![("name", text("Bash"))]));
    b.tool_use_result = Some(obj(vec![("is_error", Json::Bool(true))]));
    agg.add_message(&canonicalize(b).unwrap());
    agg.add_message(&message("user", "garbled time"));
    agg.end_session();
    agg.end_session();
    let summary = project_summary(&agg, "proj".to_string());
    assert_eq!(summary.project_name, "proj");
    assert_eq!(summary.total_sessions, 2);
    assert_eq!(summary.total_messages, 3);
    assert_eq!(summary.total_tokens, 30);
    assert_eq!(summary.avg_tokens_per_session, 15);
    assert_eq!(summary.total_session_duration, 2);
    assert_eq!(summary.avg_session_duration, 2);
    assert_eq!(summary.most_used_tools.len(), 2);
    assert!(summary.most_used_tools[0].usage_count == 2);
    let bash = summary.most_used_tools.iter().find(|t| t.tool_name == "Bash").unwrap();
    assert_eq!((bash.usage_count, bash.success_count), (2, 1));
    let dates: Vec<&str> = summary.daily_stats.iter().map(|d| d.date.as_str()).collect();
    assert_eq!(dates, vec!["2025-06-01", "2025-06-02"]);
    assert_eq!(summary.daily_stats[0].total_tokens, 30);
    assert_eq!(summary.daily_stats[0].active_hours, 1);
    assert_eq!(summary.daily_stats[0].session_count, 1);
    assert_eq!(summary.activity_heatmap.len(), 2);
    assert_eq!(summary.token_distribution.input, 10);
    assert_eq!(summary.token_distribution.output, 20);
}

#[test]
fn global_summary_ranks_projects_and_models() {
    let mut agg = Aggregate::new();
    for (i, tokens) in [5u32, 50, 20].iter().enumerate() {
        let mut e = timed("assistant", "u", "s", if i == 0 { "2025-01-01T00:00:00Z" } else { "2025-01-11T12:00:00Z" });
        let mut mc = payload("assistant", text("x"), Some(usage(Some(*tokens), None)));
        mc.model = Some(if i == 1 { "big" } else { "small" }.to_string());
        e.message = Some(mc);
        agg.add_message(&canonicalize(e).unwrap());
        agg.end_session();
        agg.end_project(["alpha", "beta", "gamma"][i].to_string());
    }
    let g = global_summary(&agg);
    assert_eq!(g.total_projects, 3);
    assert_eq!(g.total_sessions, 3);
    assert_eq!(g.total_messages, 3);
    assert_eq!(g.total_tokens, 75);
    assert_eq!(g.total_session_duration_minutes, 3);
    let names: Vec<&str> = g.top_projects.iter().map(|p| p.project_name.as_str()).collect();
    assert_eq!(names, vec!["beta", "gamma", "alpha"]);
    assert_eq!(g.model_distribution[0].model_name, "big");
    assert_eq!(g.model_distribution[1].token_count, 25);
    assert_eq!(g.date_range.first_message.as_deref(), Some("2025-01-01T00:00:00+00:00"));
    assert_eq!(g.date_range.days_span, 10);
    assert_eq!(g.daily_stats[0].session_count, 0);
}

fn stats_of(id: &str, tokens: u32, first: &str, last: &str) -> history_core::models::SessionTokenStats {
    history_core::models::SessionTokenStats {
        session_id: id.to_string(),
        project_name: "p".to_string(),
        total_input_tokens: tokens,
        total_output_tokens: 0,
        total_cache_creation_tokens: 0,
        total_cache_read_tokens: 0,
        total_tokens: tokens,
        message_count: 2,
        first_message_time: first.to_string(),
        last_message_time: last.to_string(),
    }
}

#[test]
fn sessions_compare_within_their_project() {
    let sessions = vec![
        stats_of("a", 100, "2025-01-01T00:00:00Z", "2025-01-01T00:10:00Z"),
        stats_of("b", 300, "2025-01-01T00:00:00Z", "2025-01-01T02:00:00Z"),
        stats_of("c", 200, "bad", "2025-01-01T00:00:00Z"),
    ];
    let ranked = project_token_stats(&sessions);
    let order: Vec<&str> = ranked.iter().map(|s| s.session_id.as_str()).collect();
    assert_eq!(order, vec!["b", "c", "a"]);
    let cmp = session_comparison(&"a".to_string(), &ranked).unwrap();
    assert_eq!(cmp.rank_by_tokens, 3);
    assert_eq!(cmp.rank_by_duration, 2);
    assert_eq!(cmp.project_tokens, 600);
    assert_eq!(cmp.session_tokens, 100);
    assert_eq!(cmp.project_messages, 6);
    assert!(!cmp.is_above_average);
    assert_eq!(session_comparison(&"zz".to_string(), &ranked).unwrap_err(), StatsError::SessionNotFound);
}

#[test]
fn message_pages_report_what_is_left() {
    let all: Vec<ClaudeMessage> = (0..5).map(|i| message("user", &format!("2025-01-01T00:00:0{i}Z"))).collect();
    let page = message_page(all, 1, 2);
    assert_eq!(page.messages.len(), 2);
    assert_eq!(page.messages[0].timestamp, "2025-01-01T00:00:01Z");
    assert_eq!(page.total_count, 5);
    assert!(page.has_more);
    assert_eq!(page.next_offset, 3);
    let all: Vec<ClaudeMessage> = (0..5).map(|i| message("user", &format!("2025-01-01T00:00:0{i}Z"))).collect();
    let tail = message_page(all, 4, 10);
    assert_eq!(tail.messages.len(), 1);
    assert!(!tail.has_more);
}

#[test]
fn project_prefix_can_ignore_case() {
    let mut scan = EditScan::new();
    let mut e = edit_record("1", "2025-06-26T10:00:00Z", "/test/project/a.txt", "x", "y", "x");
    e.cwd = Some("/Test/Project".to_string());
    scan.add_entry(&e);
    assert_eq!(recent_edits_page(&scan, None, None, true).unique_files_count, 1);
    assert_eq!(recent_edits_page(&scan, None, None, false).unique_files_count, 0);
}

#[test]
fn message_records_are_told_apart_without_building() {
    assert!(history_core::normalize::is_message_record(&timed("user", "u", "s", "t")));
    assert!(!history_core::normalize::is_message_record(&timed("summary", "u", "s", "t")));
    assert!(!history_core::normalize::is_message_record(&entry("assistant")));
}

#[test]
fn a_record_yields_at_most_one_write() {
    let mut e = timed("user", "uuid-1", "session-1", "2025-06-26T10:00:00Z");
    e.tool_use_result = Some(obj(vec![
        ("type", text("create")),
        ("filePath", text("/p/a.rs")),
        ("content", text("a")),
        ("edits", Json::Array(vec![obj(vec![("old_string", text("x")), ("new_string", text("y"))])])),
        ("originalFile", text("x")),
    ]));
    e.tool_use = Some(obj(vec![
        ("name", text("Write")),
        ("input", obj(vec![("file_path", text("/p/b.rs")), ("content", text("b"))])),
    ]));
    let edits = edits_from_entry(&e);
    let kinds: Vec<&str> = edits.iter().map(|x| x.operation_type.as_str()).collect();
    assert_eq!(kinds, vec!["write", "edit"]);
    assert_eq!(edits[0].file_path, "/p/a.rs");
    assert_eq!(edits[1].content_after_change, "y");
}

#[test]
fn line_identifiers_end_with_the_decimal_line_number() {
    assert_eq!(decimal_text(0), "0");
    assert_eq!(decimal_text(7), "7");
    assert_eq!(decimal_text(10), "10");
    assert_eq!(decimal_text(1203), "1203");
    assert_eq!(line_identifier_text("abc".to_string(), 42), "abc-line-42");
    let mut anonymous = entry("assistant");
    anonymous.message = Some(payload("assistant", text("rust"), None));
    let hit = search_hit(anonymous, "rust", 12).unwrap();
    assert_eq!(hit.uuid.len(), 36 + "-line-12".len());
    assert!(hit.uuid.ends_with("-line-12"));
    assert!(!hit.timestamp.is_empty());
}

#[test]
fn generated_identity_is_never_empty() {
    let mut e = entry("user");
    e.session_id = Some("s".to_string());
    let m = canonicalize(e).unwrap();
    assert_eq!(m.uuid.len(), 36);
    assert!(!m.timestamp.is_empty());
}

#[test]
fn daily_stats_follow_the_date_text() {
    let mut agg = Aggregate::new();
    for ts in ["2025-06-03T10:00:00Z", "2024-12-31T23:00:00Z", "2025-06-01T10:00:00Z"] {
        agg.add_message(&message("user", ts));
    }
    agg.end_session();
    let s = project_summary(&agg, "p".to_string());
    let dates: Vec<&str> = s.daily_stats.iter().map(|d| d.date.as_str()).collect();
    assert_eq!(dates, vec!["2024-12-31", "2025-06-01", "2025-06-03"]);
}

#[test]
fn a_file_scan_gathers_edits_and_directories_in_order() {
    let records = vec![
        edit_record("1", "2025-06-26T10:00:00Z", "/test/project/a", "x", "y", "x"),
        entry("user"),
        edit_record("2", "2025-06-26T10:01:00Z", "/test/project/b", "x", "z", "xx"),
    ];
    let scan = EditScan::from_records(&records);
    let contents: Vec<&str> = scan.edits.iter().map(|e| e.content_after_change.as_str()).collect();
    assert_eq!(contents, vec!["y", "zx"]);
    assert_eq!(scan.cwd_counts, vec![("/test/project".to_string(), 2)]);
    let again = EditScan::from_records(&records);
    assert_eq!(again.cwd_counts, scan.cwd_counts);
    assert_eq!(again.edits.len(), scan.edits.len());
}
