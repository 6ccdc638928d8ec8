use ccusage_grok::loader::{load_entries, sort_by_timestamp, SessionFiles};
use ccusage_grok::logs::{
    collect_file, inference_lines, load_inference_usage, LogContext, LogInference, LogLine,
    LogUsageBySession,
};
use ccusage_grok::paths::{
    hex_byte, hex_value, percent_decode, project_path_from_session_file, session_id_from_path,
};
use ccusage_grok::session::{
    read_session, session_is_readable, session_record, GrokSignals, GrokSummary, GrokSummaryInfo,
    LoadedEntry, TokenUsageRaw, UsageEntry, UsageMessage,
};
use ccusage_grok::text::{is_blank_text, split_lines, trim_end_matches_char};
use ccusage_grok::time::{
    file_modified_timestamp, format_date_tz, format_rfc3339_millis, normalize_grok_timestamp,
    parse_ts_timestamp, TimestampMs,
};
use jiff::tz::TimeZone;
use serde_json::Value;

const SIGNALS_PATH: &str = "/home/user/.grok/sessions/%2Fworkspace%2Fapi/session-a/signals.json";

fn ms(text: &str) -> i64 {
    text.parse::<jiff::Timestamp>().unwrap().as_millisecond()
}

fn text_field(value: &Value, key: &str) -> Option<String> {
    value.get(key).and_then(Value::as_str).map(str::to_string)
}

fn number_field(value: &Value, key: &str) -> Option<u64> {
    value.get(key).and_then(Value::as_u64)
}

fn signals_from_json(json: &str) -> GrokSignals {
    let value: Value = serde_json::from_str(json).unwrap();
    GrokSignals {
        context_tokens_used: number_field(&value, "contextTokensUsed").unwrap_or(0),
        total_tokens_before_compaction: number_field(&value, "totalTokensBeforeCompaction")
            .unwrap_or(0),
        primary_model_id: text_field(&value, "primaryModelId"),
        models_used: value
            .get("modelsUsed")
            .and_then(Value::as_array)
            .map(|models| models.iter().filter_map(|m| m.as_str().map(str::to_string)).collect())
            .unwrap_or_default(),
    }
}

fn summary_from_json(json: &str) -> GrokSummary {
    let value: Value = serde_json::from_str(json).unwrap();
    GrokSummary {
        current_model_id: text_field(&value, "current_model_id"),
        created_at: text_field(&value, "created_at"),
        updated_at: text_field(&value, "updated_at"),
        last_active_at: text_field(&value, "last_active_at"),
        git_root_dir: text_field(&value, "git_root_dir"),
        info: value.get("info").map(|info| GrokSummaryInfo {
            id: text_field(info, "id"),
            cwd: text_field(info, "cwd"),
        }),
    }
}

fn log_line_from_json(line: &str) -> Option<LogLine> {
    let value: Value = serde_json::from_str(line).ok()?;
    Some(LogLine {
        ts: text_field(&value, "ts")?,
        sid: text_field(&value, "sid"),
        msg: text_field(&value, "msg")?,
        ctx: value.get("ctx").map(|ctx| LogContext {
            prompt_tokens: number_field(ctx, "prompt_tokens"),
            cached_prompt_tokens: number_field(ctx, "cached_prompt_tokens"),
            completion_tokens: number_field(ctx, "completion_tokens"),
        }),
    })
}

fn inference(ts: &str, prompt: u64, cached: u64, completion: u64) -> LogInference {
    LogInference {
        timestamp: TimestampMs(ms(ts)),
        timestamp_text: ts.to_string(),
        prompt_tokens: prompt,
        cached_prompt_tokens: cached,
        completion_tokens: completion,
    }
}

const BASIC_SIGNALS: &str = r#"{
    "contextTokensUsed": 100,
    "primaryModelId": "grok-build"
}"#;

const BASIC_SUMMARY: &str = r#"{
    "last_active_at": "2026-05-22T00:00:00.000Z",
    "info": { "id": "session-a", "cwd": "/workspace/api" }
}"#;

#[test]
fn loads_entries_from_grok_home_sessions() {
    let sessions = vec![SessionFiles {
        signals_path: SIGNALS_PATH.to_string(),
        signals: Some(signals_from_json(BASIC_SIGNALS)),
        summary: summary_from_json(BASIC_SUMMARY),
        modified_ms: None,
    }];
    let tz = TimeZone::UTC;

    let entries = load_entries(sessions, Some(&tz), &LogUsageBySession::new()).unwrap();

    assert_eq!(entries.len(), 1);
    assert_eq!(entries[0].date, "2026-05-22");
    assert_eq!(entries[0].extra_total_tokens, 100);
}

#[test]
fn collects_inference_usage_by_session() {
    let content = [
        r#"{"ts":"2026-07-03T05:00:07.907Z","src":"shell","sid":"session-a","msg":"shell.turn.inference_done","ctx":{"loop_index":21,"prompt_tokens":70634,"cached_prompt_tokens":69632,"completion_tokens":2699,"reasoning_tokens":2696}}"#,
        "\n",
        r#"{"ts":"2026-07-03T05:00:08.000Z","src":"shell","sid":"session-a","msg":"shell.turn.inference_start","ctx":{"loop_index":22}}"#,
        "\n",
        r#"{"ts":"2026-07-03T05:00:10.616Z","src":"shell","sid":"session-b","msg":"shell.turn.inference_done","ctx":{"prompt_tokens":100,"cached_prompt_tokens":40,"completion_tokens":10}}"#,
        "\n",
        "not json\n",
    ]
    .concat();
    let content = content.as_str();
    let lines: Vec<Option<LogLine>> =
        inference_lines(content).iter().map(|line| log_line_from_json(line)).collect();

    let usage = load_inference_usage(vec![lines]);

    assert_eq!(usage.len(), 2);
    let a = usage.get("session-a").unwrap();
    assert_eq!(a.len(), 1);
    assert_eq!(a[0].prompt_tokens, 70634);
    assert_eq!(a[0].cached_prompt_tokens, 69632);
    assert_eq!(a[0].completion_tokens, 2699);
    assert_eq!(usage.get("session-b").unwrap()[0].prompt_tokens, 100);
}

#[test]
fn loads_grok_session_from_signals_and_summary() {
    let tz = TimeZone::UTC;
    let entries = read_session(
        SIGNALS_PATH,
        Some(signals_from_json(BASIC_SIGNALS)),
        summary_from_json(BASIC_SUMMARY),
        None,
        Some(&tz),
        &LogUsageBySession::new(),
    );

    assert_eq!(entries.len(), 1);
    let entry = &entries[0];
    assert_eq!(entry.date, "2026-05-22");
    assert_eq!(entry.extra_total_tokens, 100);
    assert_eq!(entry.model.as_deref(), Some("grok-build"));
    assert_eq!(entry.project.as_str(), "grok");
}

#[test]
fn splits_session_into_per_inference_entries_when_logs_cover_it() {
    let signals = signals_from_json(
        r#"{
            "contextTokensUsed": 100,
            "primaryModelId": "grok-build-0.1"
        }"#,
    );
    let summary = summary_from_json(
        r#"{
            "last_active_at": "2026-07-03T06:00:00.000Z",
            "info": { "id": "session-a", "cwd": "/workspace/api" }
        }"#,
    );
    let mut log_usage = LogUsageBySession::new();
    log_usage.insert(
        "session-a".to_string(),
        vec![
            inference("2026-07-03T05:00:07.907Z", 70634, 69632, 2699),
            inference("2026-07-04T05:00:10.616Z", 100, 40, 10),
        ],
    );
    let tz = TimeZone::UTC;

    let entries = read_session(SIGNALS_PATH, Some(signals), summary, None, Some(&tz), &log_usage);

    assert_eq!(entries.len(), 2);
    assert_eq!(entries[0].date, "2026-07-03");
    assert_eq!(entries[0].data.message.usage.input_tokens, 1002);
    assert_eq!(entries[0].data.message.usage.cache_read_input_tokens, 69632);
    assert_eq!(entries[0].data.message.usage.output_tokens, 2699);
    assert_eq!(entries[0].extra_total_tokens, 0);
    assert_eq!(entries[0].model.as_deref(), Some("grok-build-0.1"));
    assert_eq!(entries[1].date, "2026-07-04");
    assert_eq!(entries[1].data.message.usage.input_tokens, 60);
}

#[test]
fn keeps_residual_session_totals_when_logs_only_cover_the_tail() {
    let signals = signals_from_json(
        r#"{
            "contextTokensUsed": 1000000,
            "primaryModelId": "grok-build-0.1"
        }"#,
    );
    let summary = summary_from_json(
        r#"{
            "last_active_at": "2026-07-05T06:00:00.000Z",
            "info": { "id": "session-a", "cwd": "/workspace/api" }
        }"#,
    );
    let mut log_usage = LogUsageBySession::new();
    log_usage.insert(
        "session-a".to_string(),
        vec![inference("2026-07-05T05:00:00.000Z", 70000, 60000, 3000)],
    );
    let tz = TimeZone::UTC;

    let entries = read_session(SIGNALS_PATH, Some(signals), summary, None, Some(&tz), &log_usage);

    assert_eq!(entries.len(), 2);
    assert_eq!(entries[0].data.message.usage.input_tokens, 10000);
    assert_eq!(entries[1].extra_total_tokens, 1000000 - 73000);
    assert_eq!(entries[1].data.message.usage.input_tokens, 0);
}
