use ccusage_grok::loader::{load_entries, load_entries_inner, sort_by_timestamp, SessionFiles};
use ccusage_grok::logs::{
    collect_file, inference_lines, load_inference_usage, LogContext, LogInference, LogLine,
    LogUsageBySession,
};
use ccusage_grok::paths::{
    hex_byte, hex_value, percent_decode, project_path_from_session_file, session_id_from_path,
};
use ccusage_grok::session::{
    inference_to_loaded, read_session, record_to_loaded, session_is_readable, session_record,
    GrokSessionRecord, GrokSignals, GrokSummary, GrokSummaryInfo, LoadedEntry,
};
use ccusage_grok::text::{
    chars_of, contains_chars, is_blank_text, split_lines, string_from_chars,
    trim_end_matches_char,
};
use ccusage_grok::time::{
    file_modified_timestamp, format_date_tz, format_rfc3339_millis, fraction_cut_splits,
    normalize_grok_timestamp, normalize_is_defined, parse_ts_timestamp, TimestampMs,
};
use jiff::tz::TimeZone;

const PATH: &str = "/home/user/.grok/sessions/%2Fworkspace%2Fapi/session-a/signals.json";

fn ms(text: &str) -> i64 {
    text.parse::<jiff::Timestamp>().unwrap().as_millisecond()
}

fn signals(context: u64, before: u64, primary: Option<&str>, used: &[&str]) -> GrokSignals {
    GrokSignals {
        context_tokens_used: context,
        total_tokens_before_compaction: before,
        primary_model_id: primary.map(str::to_string),
        models_used: used.iter().map(|m| m.to_string()).collect(),
    }
}

fn summary_with(last_active: Option<&str>, id: Option<&str>, cwd: Option<&str>) -> GrokSummary {
    GrokSummary {
        current_model_id: None,
        created_at: None,
        updated_at: None,
        last_active_at: last_active.map(str::to_string),
        git_root_dir: None,
        info: Some(GrokSummaryInfo { id: id.map(str::to_string), cwd: cwd.map(str::to_string) }),
    }
}

fn inference(ts: &str, prompt: u64, cached: u64, completion: u64) -> LogInference {
    LogInference {
        timestamp: TimestampMs(ms(ts)),
        timestamp_text: ts.to_string(),
        prompt_tokens: prompt,
        cached_prompt_tokens: cached,
        completion_tokens: completion,
    }
}

fn line(ts: &str, sid: Option<&str>, msg: &str, ctx: Option<LogContext>) -> Option<LogLine> {
    Some(LogLine { ts: ts.to_string(), sid: sid.map(str::to_string), msg: msg.to_string(), ctx })
}

fn ctx(prompt: Option<u64>, cached: Option<u64>, completion: Option<u64>) -> Option<LogContext> {
    Some(LogContext {
        prompt_tokens: prompt,
        cached_prompt_tokens: cached,
        completion_tokens: completion,
    })
}

fn reported(e: &LoadedEntry) -> u64 {
    let u = &e.data.message.usage;
    u.input_tokens
        + u.output_tokens
        + u.cache_creation_input_tokens
        + u.cache_read_input_tokens
        + e.extra_total_tokens
}

const DONE: &str = "shell.turn.inference_done";

#[test]
fn percent_decode_decodes_escapes() {
    assert_eq!(percent_decode("%2Fworkspace%2Fapi"), "/workspace/api");
    assert_eq!(percent_decode("%41%4a%4A"), "AJJ");
    assert_eq!(percent_decode("%e2%82%ac"), "\u{20ac}");
}

#[test]
fn percent_decode_keeps_what_is_not_an_escape() {
    assert_eq!(percent_decode("100%"), "100%");
    assert_eq!(percent_decode("a%2"), "a%2");
    assert_eq!(percent_decode("%zz%"), "%zz%");
    assert_eq!(percent_decode("plain/text"), "plain/text");
    assert_eq!(percent_decode(""), "");
}

#[test]
fn percent_decode_replaces_invalid_utf8() {
    assert_eq!(percent_decode("%FF"), "\u{fffd}");
    assert_eq!(percent_decode("a%C3"), "a\u{fffd}");
}

#[test]
fn hex_digits_and_bytes() {
    assert_eq!(hex_value(b'0'), Some(0));
    assert_eq!(hex_value(b'9'), Some(9));
    assert_eq!(hex_value(b'a'), Some(10));
    assert_eq!(hex_value(b'F'), Some(15));
    assert_eq!(hex_value(b'G'), None);
    assert_eq!(hex_value(b'/'), None);
    assert_eq!(hex_byte(b'2', b'F'), Some(0x2f));
    assert_eq!(hex_byte(b'f', b'F'), Some(255));
    assert_eq!(hex_byte(b'x', b'0'), None);
    assert_eq!(hex_byte(b'0', b'x'), None);
}

#[test]
fn session_and_project_from_path() {
    assert_eq!(session_id_from_path(PATH).as_deref(), Some("session-a"));
    assert_eq!(project_path_from_session_file(PATH).as_deref(), Some("/workspace/api"));
    assert_eq!(session_id_from_path("signals.json"), None);
    assert_eq!(session_id_from_path("/signals.json"), None);
    assert_eq!(project_path_from_session_file("session-a/signals.json"), None);
    assert_eq!(project_path_from_session_file("a/b/signals.json").as_deref(), Some("a"));
}

#[test]
fn timestamps_parse_and_print() {
    assert_eq!(parse_ts_timestamp("2026-05-22T00:00:00.000Z"), Some(TimestampMs(1779408000000)));
    assert_eq!(parse_ts_timestamp("not a time"), None);
    assert_eq!(format_rfc3339_millis(TimestampMs(0)), "1970-01-01T00:00:00.000Z");
    assert_eq!(format_rfc3339_millis(TimestampMs(1779408000123)), "2026-05-22T00:00:00.123Z");
    assert_eq!(format_rfc3339_millis(TimestampMs(i64::MAX)), "");
}

#[test]
fn dates_follow_the_zone() {
    let utc = TimeZone::UTC;
    let minus_five = TimeZone::fixed(jiff::tz::offset(-5));
    assert_eq!(format_date_tz(TimestampMs(0), Some(&utc)), "1970-01-01");
    assert_eq!(format_date_tz(TimestampMs(0), Some(&minus_five)), "1969-12-31");
    assert_eq!(format_date_tz(TimestampMs(i64::MIN), Some(&utc)), "");
}

#[test]
fn dates_before_year_zero_carry_a_sign() {
    let utc = TimeZone::UTC;
    let t = TimestampMs(ms("-000001-06-15T12:00:00Z"));
    assert_eq!(format_date_tz(t, Some(&utc)), "-000001-06-15");
    assert_eq!(format_date_tz(TimestampMs(ms("0000-12-31T23:00:00Z")), Some(&utc)), "0000-12-31");
}

#[test]
fn modified_time_falls_back_to_the_epoch() {
    assert_eq!(file_modified_timestamp(None), TimestampMs(0));
    assert_eq!(file_modified_timestamp(Some(1234)), TimestampMs(1234));
    assert_eq!(file_modified_timestamp(Some(i64::MAX as u128)), TimestampMs(i64::MAX));
    assert_eq!(file_modified_timestamp(Some(i64::MAX as u128 + 1)), TimestampMs(0));
}

#[test]
fn readable_timestamps_are_kept() {
    assert_eq!(
        normalize_grok_timestamp("2026-07-03T05:00:07.907Z").as_deref(),
        Some("2026-07-03T05:00:07.907Z")
    );
    assert_eq!(
        normalize_grok_timestamp("2026-07-03T05:00:07.9Z").as_deref(),
        Some("2026-07-03T05:00:07.9Z")
    );
}

#[test]
fn long_fractions_are_cut_to_milliseconds() {
    assert_eq!(
        normalize_grok_timestamp("2026-07-03T05:00:07.907123456789Z").as_deref(),
        Some("2026-07-03T05:00:07.907Z")
    );
    assert_eq!(
        normalize_grok_timestamp("2026-07-03T05:00:07.9071234567890+01:00").as_deref(),
        Some("2026-07-03T05:00:07.907+01:00")
    );
}

#[test]
fn unrepairable_timestamps_give_nothing() {
    assert_eq!(normalize_grok_timestamp("no fraction here"), None);
    assert_eq!(normalize_grok_timestamp("x.12Z"), None);
    assert_eq!(normalize_grok_timestamp("x.123456"), None);
    assert_eq!(normalize_grok_timestamp("x.12345Z"), None);
}

#[test]
fn cutting_inside_a_character_is_detected() {
    assert!(fraction_cut_splits("x.a\u{20ac}Z"));
    assert!(!normalize_is_defined("x.a\u{20ac}Z"));
    assert!(!fraction_cut_splits("x.\u{20ac}Z"));
    assert!(normalize_is_defined("x.\u{20ac}Z"));
    assert_eq!(normalize_grok_timestamp("x.\u{20ac}Z"), None);
    assert!(normalize_is_defined("2026-07-03T05:00:07.907Z"));
}

#[test]
fn record_prefers_summary_fields() {
    let mut summary = summary_with(
        Some("2026-05-22T00:00:00.000Z"),
        Some("session-x"),
        Some("/workspace/api//"),
    );
    summary.current_model_id = Some("grok-composer".to_string());
    let record: GrokSessionRecord =
        session_record(PATH, signals(1, 2, None, &["other"]), summary, 3, Some(5));
    assert_eq!(record.session_id, "session-x");
    assert_eq!(record.project_path, "/workspace/api");
    assert_eq!(record.model, "grok-composer");
    assert_eq!(record.timestamp, TimestampMs(1779408000000));
    assert_eq!(record.timestamp_text, "2026-05-22T00:00:00.000Z");
    assert_eq!(record.total_tokens, 3);
}

#[test]
fn record_falls_back_to_path_and_file_time() {
    let record = session_record(PATH, signals(0, 0, None, &[]), GrokSummary::default(), 0, Some(1500));
    assert_eq!(record.session_id, "session-a");
    assert_eq!(record.project_path, "/workspace/api");
    assert_eq!(record.model, "grok-build");
    assert_eq!(record.timestamp, TimestampMs(1500));
    assert_eq!(record.timestamp_text, "1970-01-01T00:00:01.500Z");
}

#[test]
fn record_falls_back_to_defaults() {
    let record =
        session_record("signals.json", signals(0, 0, None, &[]), GrokSummary::default(), 0, None);
    assert_eq!(record.session_id, "unknown");
    assert_eq!(record.project_path, "Grok Build");
    assert_eq!(record.timestamp, TimestampMs(0));
}

#[test]
fn record_model_choice() {
    let record = session_record(PATH, signals(0, 0, None, &["first", "second"]), GrokSummary::default(), 0, None);
    assert_eq!(record.model, "first");
    let mut summary = GrokSummary::default();
    summary.current_model_id = Some("current".to_string());
    let record = session_record(PATH, signals(0, 0, Some("  \t"), &["first"]), summary, 0, None);
    assert_eq!(record.model, "grok-build");
    let record = session_record(PATH, signals(0, 0, Some("grok-composer-2.5-fast"), &[]), GrokSummary::default(), 0, None);
    assert_eq!(record.model, "grok-composer-2.5-fast");
}

#[test]
fn record_time_uses_updated_then_created() {
    let mut summary = GrokSummary::default();
    summary.updated_at = Some("2026-01-02T03:04:05.006Z".to_string());
    summary.created_at = Some("2020-01-01T00:00:00.000Z".to_string());
    let record = session_record(PATH, signals(0, 0, None, &[]), summary, 0, None);
    assert_eq!(record.timestamp_text, "2026-01-02T03:04:05.006Z");
    let mut summary = GrokSummary::default();
    summary.created_at = Some("2020-01-01T00:00:00.000123456789Z".to_string());
    let record = session_record(PATH, signals(0, 0, None, &[]), summary, 0, None);
    assert_eq!(record.timestamp_text, "2020-01-01T00:00:00.000Z");
    assert_eq!(record.timestamp, TimestampMs(ms("2020-01-01T00:00:00Z")));
}

#[test]
fn unreadable_summary_time_uses_file_time() {
    let mut summary = GrokSummary::default();
    summary.last_active_at = Some("yesterday".to_string());
    summary.updated_at = Some("2026-01-02T03:04:05.006Z".to_string());
    let record = session_record(PATH, signals(0, 0, None, &[]), summary, 0, Some(2000));
    assert_eq!(record.timestamp_text, "1970-01-01T00:00:02.000Z");
    assert_eq!(record.timestamp, TimestampMs(2000));
}

#[test]
fn entries_carry_the_record() {
    let record = session_record(
        PATH,
        signals(0, 0, Some("grok-build-0.1"), &[]),
        summary_with(Some("2026-05-22T00:00:00.000Z"), Some("session-a"), Some("/workspace/api")),
        42,
        None,
    );
    let tz = TimeZone::UTC;
    let inf = inference("2026-05-23T01:00:00.000Z", 10, 30, 5);
    let e = inference_to_loaded(&record, &inf, Some(&tz));
    assert_eq!(e.data.message.usage.input_tokens, 0);
    assert_eq!(e.data.message.usage.cache_read_input_tokens, 30);
    assert_eq!(e.data.message.usage.output_tokens, 5);
    assert_eq!(e.data.timestamp, "2026-05-23T01:00:00.000Z");
    assert_eq!(e.date, "2026-05-23");
    assert_eq!(e.data.session_id.as_deref(), Some("session-a"));
    assert_eq!(e.data.message.model.as_deref(), Some("grok-build-0.1"));
    assert_eq!(e.project_path, "/workspace/api");
    let e = record_to_loaded(record, Some(&tz));
    assert_eq!(e.extra_total_tokens, 42);
    assert_eq!(e.data.message.usage.input_tokens, 0);
    assert_eq!(e.date, "2026-05-22");
    assert_eq!(e.project, "grok");
}

#[test]
fn session_without_signals_or_tokens_reports_nothing() {
    let usage = LogUsageBySession::new();
    let tz = TimeZone::UTC;
    assert!(read_session(PATH, None, GrokSummary::default(), None, Some(&tz), &usage).is_empty());
    assert!(read_session(PATH, Some(signals(0, 0, None, &[])), GrokSummary::default(), None, Some(&tz), &usage)
        .is_empty());
}

#[test]
fn session_total_adds_compacted_tokens() {
    let usage = LogUsageBySession::new();
    let tz = TimeZone::UTC;
    let entries = read_session(PATH, Some(signals(100, 50, None, &[])), GrokSummary::default(), None, Some(&tz), &usage);
    assert_eq!(entries.len(), 1);
    assert_eq!(entries[0].extra_total_tokens, 150);
    let entries = read_session(PATH, Some(signals(u64::MAX, 5, None, &[])), GrokSummary::default(), None, Some(&tz), &usage);
    assert_eq!(entries[0].extra_total_tokens, u64::MAX);
}

#[test]
fn fully_covered_session_has_no_residual() {
    let mut usage = LogUsageBySession::new();
    usage.insert("session-a".to_string(), vec![inference("2026-05-23T01:00:00.000Z", 80, 0, 20)]);
    let tz = TimeZone::UTC;
    let entries = read_session(PATH, Some(signals(100, 0, None, &[])), GrokSummary::default(), None, Some(&tz), &usage);
    assert_eq!(entries.len(), 1);
    assert_eq!(entries[0].data.message.usage.input_tokens, 80);
    let entries = read_session(PATH, Some(signals(0, 0, None, &[])), GrokSummary::default(), None, Some(&tz), &usage);
    assert_eq!(entries.len(), 1);
}

#[test]
fn session_never_reports_less_than_its_signals() {
    let mut usage = LogUsageBySession::new();
    usage.insert(
        "session-a".to_string(),
        vec![inference("2026-05-23T01:00:00.000Z", 300, 100, 20), inference("2026-05-23T02:00:00.000Z", 50, 0, 5)],
    );
    let tz = TimeZone::UTC;
    for total in [0u64, 100, 375, 376, 10_000] {
        let entries = read_session(PATH, Some(signals(total, 0, None, &[])), GrokSummary::default(), None, Some(&tz), &usage);
        let sum: u64 = entries.iter().map(reported).sum();
        assert!(sum >= total);
        assert_eq!(entries.len(), if total > 375 { 3 } else { 2 });
    }
}

#[test]
fn inference_lines_keep_marked_lines() {
    let content = "a shell.turn.inference_done b\r\nplain\nshell.turn.inference_\nshell.turn.inference_done";
    let lines = inference_lines(content);
    assert_eq!(lines, vec!["a shell.turn.inference_done b".to_string(), DONE.to_string()]);
    assert!(inference_lines("").is_empty());
}

#[test]
fn lines_split_like_str_lines() {
    assert_eq!(split_lines("a\r\nb\n"), vec!["a".to_string(), "b".to_string()]);
    assert_eq!(split_lines("a\rb"), vec!["a\rb".to_string()]);
    assert_eq!(split_lines("x\r"), vec!["x\r".to_string()]);
    assert_eq!(split_lines("\n\n"), vec!["".to_string(), "".to_string()]);
    assert!(split_lines("").is_empty());
}

#[test]
fn text_helpers() {
    assert!(is_blank_text(" \t\u{3000}\u{85}"));
    assert!(is_blank_text(""));
    assert!(!is_blank_text(" a "));
    assert_eq!(trim_end_matches_char("/a/b///", '/'), "/a/b");
    assert_eq!(trim_end_matches_char("///", '/'), "");
    let chars = chars_of("h\u{e9}llo");
    assert_eq!(chars.len(), 5);
    assert_eq!(string_from_chars(&chars), "h\u{e9}llo");
    assert!(contains_chars(&chars_of("abcabd"), &chars_of("abd")));
    assert!(!contains_chars(&chars_of("ab"), &chars_of("abc")));
    assert!(contains_chars(&chars_of("ab"), &chars_of("")));
}

#[test]
fn log_lines_that_do_not_count_are_skipped() {
    let ts = "2026-07-03T05:00:07.907Z";
    let mut usage = LogUsageBySession::new();
    collect_file(
        &mut usage,
        vec![
            None,
            line(ts, Some("s"), "shell.turn.inference_done_late", ctx(Some(1), None, Some(1))),
            line(ts, None, DONE, ctx(Some(1), None, Some(1))),
            line(ts, Some("s"), DONE, None),
            line("later", Some("s"), DONE, ctx(Some(1), None, Some(1))),
            line(ts, Some("s"), DONE, ctx(None, Some(5), None)),
            line(ts, Some("s"), DONE, ctx(Some(0), Some(5), Some(0))),
        ],
    );
    assert_eq!(usage.len(), 0);
    assert!(usage.get("s").is_none());
}

#[test]
fn log_lines_accumulate_in_order() {
    let mut usage = LogUsageBySession::new();
    collect_file(
        &mut usage,
        vec![
            line("2026-07-03T05:00:07.907Z", Some("s"), DONE, ctx(Some(7), None, None)),
            line("2026-07-03T05:00:08.000Z", Some("t"), DONE, ctx(None, None, Some(3))),
        ],
    );
    let usage = {
        let mut more = usage;
        collect_file(&mut more, vec![line("2026-07-03T05:00:09.000Z", Some("s"), DONE, ctx(Some(9), Some(4), Some(1)))]);
        more
    };
    let s = usage.get("s").unwrap();
    assert_eq!(s.len(), 2);
    assert_eq!(s[0].prompt_tokens, 7);
    assert_eq!(s[0].cached_prompt_tokens, 0);
    assert_eq!(s[0].completion_tokens, 0);
    assert_eq!(s[1].cached_prompt_tokens, 4);
    assert_eq!(s[1].timestamp, TimestampMs(ms("2026-07-03T05:00:09.000Z")));
    assert_eq!(usage.get("t").unwrap()[0].completion_tokens, 3);
    let across_files = load_inference_usage(vec![
        vec![line("2026-07-03T05:00:07.907Z", Some("s"), DONE, ctx(Some(1), None, None))],
        vec![line("2026-07-03T05:00:08.907Z", Some("s"), DONE, ctx(Some(2), None, None))],
    ]);
    let s = across_files.get("s").unwrap();
    assert_eq!(s.len(), 2);
    assert_eq!(s[1].prompt_tokens, 2);
}

#[test]
fn usage_insert_replaces_a_session() {
    let mut usage = LogUsageBySession::new();
    usage.insert("a".to_string(), vec![inference("2026-07-03T05:00:07.907Z", 1, 0, 0)]);
    usage.insert("b".to_string(), vec![]);
    usage.insert("a".to_string(), vec![]);
    assert_eq!(usage.len(), 2);
    assert!(usage.get("a").unwrap().is_empty());
}

fn entry_at(ts: i64, tag: u64) -> LoadedEntry {
    let record = session_record(PATH, signals(0, 0, None, &[]), GrokSummary::default(), tag, Some(ts as u128));
    record_to_loaded(record, None)
}

#[test]
fn sorting_keeps_equal_times_in_order() {
    let sorted = sort_by_timestamp(vec![entry_at(3, 1), entry_at(1, 2), entry_at(3, 3), entry_at(2, 4)]);
    let tags: Vec<u64> = sorted.iter().map(|e| e.extra_total_tokens).collect();
    assert_eq!(tags, vec![2, 4, 1, 3]);
}

#[test]
fn loading_orders_sessions_by_time() {
    let files = |path: &str, ts: &str, id: &str, tokens: u64| SessionFiles {
        signals_path: path.to_string(),
        signals: Some(signals(tokens, 0, None, &[])),
        summary: summary_with(Some(ts), Some(id), None),
        modified_ms: None,
    };
    let tz = TimeZone::UTC;
    let usage = LogUsageBySession::new();
    let entries = load_entries_inner(
        vec![
            files(PATH, "2026-05-22T00:00:00.000Z", "late", 1),
            files(PATH, "2026-05-21T00:00:00.000Z", "early", 2),
            files(PATH, "2026-05-21T00:00:00.000Z", "empty", 0),
        ],
        Some(&tz),
        &usage,
    );
    let ids: Vec<&str> = entries.iter().map(|e| e.session_id.as_str()).collect();
    assert_eq!(ids, vec!["early", "late"]);
}

#[test]
fn loading_refuses_a_session_that_cannot_be_read() {
    let usage = LogUsageBySession::new();
    let bad = SessionFiles {
        signals_path: PATH.to_string(),
        signals: Some(signals(1, 0, None, &[])),
        summary: summary_with(Some("x.a\u{20ac}Z"), None, None),
        modified_ms: None,
    };
    assert!(!session_is_readable(&bad.signals_path, &bad.signals, &bad.summary, &usage));
    assert!(load_entries(vec![bad], None, &usage).is_none());
    let mut overflowing = LogUsageBySession::new();
    overflowing.insert(
        "session-a".to_string(),
        vec![inference("2026-05-23T01:00:00.000Z", u64::MAX, 0, 0), inference("2026-05-23T01:00:00.000Z", 1, 0, 0)],
    );
    let summary = GrokSummary::default();
    let sig = Some(signals(1, 0, None, &[]));
    assert!(!session_is_readable(PATH, &sig, &summary, &overflowing));
    assert!(session_is_readable(PATH, &sig, &summary, &usage));
    assert!(session_is_readable(PATH, &None, &summary, &overflowing));
}

#[test]
fn percent_escaped_text_round_trips() {
    let text = "/workspace/h\u{e9}llo \u{20ac}%";
    let escaped: String = text.bytes().map(|b| format!("%{:02X}", b)).collect();
    assert_eq!(percent_decode(&escaped), text);
}

#[test]
fn usage_of_two_file_lists_concatenates_per_session() {
    let done = |ts: &str, sid: &str, prompt: u64| line(ts, Some(sid), DONE, ctx(Some(prompt), None, None));
    let first = vec![done("2026-07-03T05:00:00.000Z", "s", 1), done("2026-07-03T05:00:01.000Z", "t", 2)];
    let second = vec![done("2026-07-03T05:00:02.000Z", "s", 3)];
    let both = load_inference_usage(vec![
        vec![done("2026-07-03T05:00:00.000Z", "s", 1), done("2026-07-03T05:00:01.000Z", "t", 2)],
        vec![done("2026-07-03T05:00:02.000Z", "s", 3)],
    ]);
    let a = load_inference_usage(vec![first]);
    let b = load_inference_usage(vec![second]);
    let prompts = |u: &LogUsageBySession, sid: &str| -> Vec<u64> {
        u.get(sid).map(|v| v.iter().map(|i| i.prompt_tokens).collect()).unwrap_or_default()
    };
    for sid in ["s", "t", "u"] {
        let mut expected = prompts(&a, sid);
        expected.extend(prompts(&b, sid));
        assert_eq!(prompts(&both, sid), expected);
    }
    assert_eq!(load_inference_usage(vec![]).len(), 0);
}

#[test]
fn sorting_many_entries_matches_a_stable_sort() {
    let times: Vec<i64> = (0..97u64).map(|i| ((i * 37 + 11) % 13) as i64).collect();
    let entries: Vec<LoadedEntry> =
        times.iter().enumerate().map(|(tag, &ts)| entry_at(ts, tag as u64)).collect();
    let mut expected: Vec<(i64, u64)> =
        times.iter().enumerate().map(|(tag, &ts)| (ts, tag as u64)).collect();
    expected.sort_by_key(|&(ts, _)| ts);
    let sorted = sort_by_timestamp(entries);
    let got: Vec<(i64, u64)> = sorted.iter().map(|e| (e.timestamp.0, e.extra_total_tokens)).collect();
    assert_eq!(got, expected);
}

#[test]
fn percent_partly_escaped_text_round_trips() {
    let text = "/work space/100%/caf\u{e9}";
    let escape = |b: u8| b == b'%' || b == b'/' || b == b' ';
    let escaped: String = text
        .bytes()
        .map(|b| if escape(b) { format!("%{:02X}", b) } else { (b as char).to_string() })
        .collect::<Vec<_>>()
        .concat();
    let escaped = escaped.replace("\u{c3}\u{a9}", "\u{e9}");
    assert_eq!(escaped, "%2Fwork%20space%2F100%25%2Fcaf\u{e9}");
    assert_eq!(percent_decode(&escaped), text);
}

#[test]
fn percent_decode_is_never_longer() {
    for input in ["%2F%2F", "%FF%FE%FD", "abc", "%C3%A9", "%e2%82"] {
        assert!(percent_decode(input).chars().count() <= input.len());
    }
}
