//! A Grok Build session: its record, built from `signals.json`, `summary.json`
//! and the session's path, and the usage entries it reports.

use vstd::prelude::*;
use crate::text::{is_blank, is_blank_text, is_white_space, trim_end_char, trim_end_matches_char};
use crate::time::{
    TimestampMs, parse_ts_timestamp, parsed_timestamp, normalize_grok_timestamp,
    normalized_timestamp, normalize_defined, normalize_is_defined, format_rfc3339_millis,
    rfc3339_millis_text,
    format_date_tz, file_modified_timestamp, modified_timestamp, within_jiff_range, is_date_in_zone,
};
use crate::paths::{
    session_id_from_path, session_id_of_path, project_path_from_session_file, project_path_of_path,
};
use crate::logs::{LogInference, LogUsageBySession};

verus! {

/// The model reported when a session names none.
pub const DEFAULT_MODEL: &'static str = "grok-build";

/// The session id reported when neither the summary nor the path gives one.
pub const UNKNOWN_SESSION: &'static str = "unknown";

/// The project path reported when neither the summary nor the path gives one.
pub const DEFAULT_PROJECT_PATH: &'static str = "Grok Build";

/// The project name of every Grok Build entry.
pub const PROJECT_NAME: &'static str = "grok";

/// What `signals.json` holds: session-level context totals and models.
#[derive(Debug)]
pub struct GrokSignals {
    pub context_tokens_used: u64,
    pub total_tokens_before_compaction: u64,
    pub primary_model_id: Option<String>,
    pub models_used: Vec<String>,
}

/// The `info` object of `summary.json`.
#[derive(Debug)]
pub struct GrokSummaryInfo {
    pub id: Option<String>,
    pub cwd: Option<String>,
}

/// What `summary.json` holds: session metadata.
#[derive(Debug)]
pub struct GrokSummary {
    pub current_model_id: Option<String>,
    pub created_at: Option<String>,
    pub updated_at: Option<String>,
    pub last_active_at: Option<String>,
    pub git_root_dir: Option<String>,
    pub info: Option<GrokSummaryInfo>,
}

impl Default for GrokSummary {
    /// A summary with nothing in it, which is what a missing or unreadable
    /// `summary.json` amounts to.
    fn default() -> (summary: GrokSummary)
        ensures
            summary.current_model_id is None,
            summary.created_at is None,
            summary.updated_at is None,
            summary.last_active_at is None,
            summary.git_root_dir is None,
            summary.info is None,
    {
        GrokSummary {
            current_model_id: None,
            created_at: None,
            updated_at: None,
            last_active_at: None,
            git_root_dir: None,
            info: None,
        }
    }
}

/// What a session reports, before it is split into entries.
#[derive(Debug)]
pub struct GrokSessionRecord {
    pub timestamp: TimestampMs,
    pub timestamp_text: String,
    pub session_id: String,
    pub project_path: String,
    pub model: String,
    pub total_tokens: u64,
}

/// A session record with its texts as character sequences.
pub struct SessionRecordView {
    pub timestamp: TimestampMs,
    pub timestamp_text: Seq<char>,
    pub session_id: Seq<char>,
    pub project_path: Seq<char>,
    pub model: Seq<char>,
    pub total_tokens: u64,
}

impl View for GrokSessionRecord {
    type V = SessionRecordView;

    open spec fn view(&self) -> SessionRecordView {
        SessionRecordView {
            timestamp: self.timestamp,
            timestamp_text: self.timestamp_text@,
            session_id: self.session_id@,
            project_path: self.project_path@,
            model: self.model@,
            total_tokens: self.total_tokens,
        }
    }
}

/// The text of an optional string.
pub open spec fn text_of(s: Option<String>) -> Option<Seq<char>> {
    match s {
        Some(t) => Some(t@),
        None => None,
    }
}

/// The first of two optional texts that is present.
pub open spec fn or_else(first: Option<Seq<char>>, second: Option<Seq<char>>) -> Option<Seq<char>> {
    match first {
        Some(t) => Some(t),
        None => second,
    }
}

/// The summary's activity time: last activity, else last update, else
/// creation.
pub open spec fn summary_time_text(summary: GrokSummary) -> Option<Seq<char>> {
    or_else(
        text_of(summary.last_active_at),
        or_else(text_of(summary.updated_at), text_of(summary.created_at)),
    )
}

/// The record's timestamp text: the summary's activity time made readable,
/// else the fallback timestamp printed.
pub open spec fn record_timestamp_text(summary: GrokSummary, fallback: TimestampMs) -> Seq<char> {
    match summary_time_text(summary) {
        Some(t) => match normalized_timestamp(t) {
            Some(n) => n,
            None => rfc3339_millis_text(fallback),
        },
        None => rfc3339_millis_text(fallback),
    }
}

/// The record's timestamp: what its text denotes, else the fallback.
pub open spec fn record_timestamp(summary: GrokSummary, fallback: TimestampMs) -> TimestampMs {
    match parsed_timestamp(record_timestamp_text(summary, fallback)) {
        Some(t) => t,
        None => fallback,
    }
}

/// The id that the summary's `info` gives, if any.
pub open spec fn summary_id(summary: GrokSummary) -> Option<Seq<char>> {
    match summary.info {
        Some(info) => text_of(info.id),
        None => None,
    }
}

/// The working directory that the summary's `info` gives, if any.
pub open spec fn summary_cwd(summary: GrokSummary) -> Option<Seq<char>> {
    match summary.info {
        Some(info) => text_of(info.cwd),
        None => None,
    }
}

/// The record's session id: the summary's id, else the path's, else
/// `unknown`.
pub open spec fn record_session_id(path: Seq<char>, summary: GrokSummary) -> Seq<char> {
    match or_else(summary_id(summary), session_id_of_path(path)) {
        Some(id) => id,
        None => UNKNOWN_SESSION@,
    }
}

/// The record's project path: the summary's working directory, else its git
/// root, else the path's encoded project directory, else `Grok Build`; with
/// trailing slashes removed.
pub open spec fn record_project_path(path: Seq<char>, summary: GrokSummary) -> Seq<char> {
    let chosen = or_else(
        summary_cwd(summary),
        or_else(text_of(summary.git_root_dir), project_path_of_path(path)),
    );
    trim_end_char(
        match chosen {
            Some(p) => p,
            None => DEFAULT_PROJECT_PATH@,
        },
        '/',
    )
}

/// The model that the session names first: the signals' primary model, else
/// the summary's current model, else the first model the signals list.
pub open spec fn named_model(signals: GrokSignals, summary: GrokSummary) -> Option<Seq<char>> {
    or_else(
        text_of(signals.primary_model_id),
        or_else(
            text_of(summary.current_model_id),
            if signals.models_used@.len() > 0 {
                Some(signals.models_used@[0]@)
            } else {
                None
            },
        ),
    )
}

/// The record's model: the named model as it is, unless it is blank or
/// missing, when it is `grok-build`.
pub open spec fn record_model(signals: GrokSignals, summary: GrokSummary) -> Seq<char> {
    match named_model(signals, summary) {
        Some(m) => if is_blank(m) {
            DEFAULT_MODEL@
        } else {
            m
        },
        None => DEFAULT_MODEL@,
    }
}

/// The record that a session's files give.
pub open spec fn expected_record(
    path: Seq<char>,
    signals: GrokSignals,
    summary: GrokSummary,
    total_tokens: u64,
    modified_ms: Option<u128>,
) -> SessionRecordView {
    let fallback = modified_timestamp(modified_ms);
    SessionRecordView {
        timestamp: record_timestamp(summary, fallback),
        timestamp_text: record_timestamp_text(summary, fallback),
        session_id: record_session_id(path, summary),
        project_path: record_project_path(path, summary),
        model: record_model(signals, summary),
        total_tokens,
    }
}

/// Reading the summary's activity time runs to completion.
pub open spec fn summary_time_defined(summary: GrokSummary) -> bool {
    match summary_time_text(summary) {
        Some(t) => normalize_defined(t),
        None => true,
    }
}

fn text_or_default(value: Option<String>, default: &str) -> (s: String)
    ensures
        s@ == match text_of(value) {
            Some(t) => t,
            None => default@,
        },
{
    match value {
        Some(s) => s,
        None => String::from_str(default),
    }
}

/// Builds the record of a session from its path, its signals and summary,
/// its total tokens and the modification time of its `signals.json`
/// (milliseconds since the epoch), which stands in when the summary has no
/// usable time.
pub fn session_record(
    signals_path: &str,
    signals: GrokSignals,
    summary: GrokSummary,
    total_tokens: u64,
    modified_ms: Option<u128>,
) -> (record: GrokSessionRecord)
    requires
        summary_time_defined(summary),
    ensures
        record@ == expected_record(signals_path@, signals, summary, total_tokens, modified_ms),
        ({
            let r = record@;
            let path = signals_path@;
            &&& r.total_tokens == total_tokens
            &&& (summary.info is Some && summary.info->0.id is Some ==> r.session_id == summary.info->0.id->0@)
            &&& ((summary.info is None || summary.info->0.id is None) ==> r.session_id == match session_id_of_path(path) {
                Some(p) => p,
                None => UNKNOWN_SESSION@,
            })
            &&& (summary.info is Some && summary.info->0.cwd is Some ==> r.project_path == trim_end_char(summary.info->0.cwd->0@, '/'))
            &&& ((summary.info is None || summary.info->0.cwd is None) && summary.git_root_dir is Some ==> r.project_path == trim_end_char(summary.git_root_dir->0@, '/'))
            &&& ((summary.info is None || summary.info->0.cwd is None) && summary.git_root_dir is None ==> r.project_path == trim_end_char(match project_path_of_path(path) {
                Some(p) => p,
                None => DEFAULT_PROJECT_PATH@,
            }, '/'))
            &&& (signals.primary_model_id is Some ==> r.model == if is_blank(signals.primary_model_id->0@) { DEFAULT_MODEL@ } else { signals.primary_model_id->0@ })
            &&& (signals.primary_model_id is None && summary.current_model_id is Some ==> r.model == if is_blank(summary.current_model_id->0@) { DEFAULT_MODEL@ } else { summary.current_model_id->0@ })
            &&& (signals.primary_model_id is None && summary.current_model_id is None && signals.models_used@.len() > 0 ==> r.model == if is_blank(signals.models_used@[0]@) { DEFAULT_MODEL@ } else { signals.models_used@[0]@ })
            &&& (signals.primary_model_id is None && summary.current_model_id is None && signals.models_used@.len() == 0 ==> r.model == DEFAULT_MODEL@)
            &&& (summary.last_active_at is Some ==> r.timestamp_text == match normalized_timestamp(summary.last_active_at->0@) {
                Some(n) => n,
                None => rfc3339_millis_text(modified_timestamp(modified_ms)),
            })
            &&& (summary.last_active_at is None && summary.updated_at is Some ==> r.timestamp_text == match normalized_timestamp(summary.updated_at->0@) {
                Some(n) => n,
                None => rfc3339_millis_text(modified_timestamp(modified_ms)),
            })
            &&& (summary.last_active_at is None && summary.updated_at is None && summary.created_at is Some ==> r.timestamp_text == match normalized_timestamp(summary.created_at->0@) {
                Some(n) => n,
                None => rfc3339_millis_text(modified_timestamp(modified_ms)),
            })
            &&& (summary.last_active_at is None && summary.updated_at is None && summary.created_at is None ==> r.timestamp_text == rfc3339_millis_text(modified_timestamp(modified_ms)))
            &&& r.timestamp == match parsed_timestamp(r.timestamp_text) {
                Some(t) => t,
                None => modified_timestamp(modified_ms),
            }
        }),
{
    proof {
        lemma_record_sources(signals_path@, signals, summary, total_tokens, modified_ms);
    }
    let ghost signals_in = signals;
    let ghost summary_in = summary;
    let fallback = file_modified_timestamp(modified_ms);
    let GrokSummary { current_model_id, created_at, updated_at, last_active_at, git_root_dir, info } =
        summary;
    let chosen = match last_active_at {
        Some(t) => Some(t),
        None => match updated_at {
            Some(t) => Some(t),
            None => created_at,
        },
    };
    assert(text_of(chosen) == summary_time_text(summary_in));
    let timestamp_text = match chosen {
        Some(t) => match normalize_grok_timestamp(t.as_str()) {
            Some(n) => n,
            None => format_rfc3339_millis(fallback),
        },
        None => format_rfc3339_millis(fallback),
    };
    let timestamp = match parse_ts_timestamp(timestamp_text.as_str()) {
        Some(t) => t,
        None => fallback,
    };
    let (info_id, info_cwd) = match info {
        Some(i) => (i.id, i.cwd),
        None => (None, None),
    };
    let session_id = match info_id {
        Some(id) => id,
        None => match session_id_from_path(signals_path) {
            Some(id) => id,
            None => String::from_str(UNKNOWN_SESSION),
        },
    };
    let chosen_project = match info_cwd {
        Some(p) => Some(p),
        None => match git_root_dir {
            Some(p) => Some(p),
            None => project_path_from_session_file(signals_path),
        },
    };
    let project = text_or_default(chosen_project, DEFAULT_PROJECT_PATH);
    let project_path = trim_end_matches_char(project.as_str(), '/');
    let GrokSignals { context_tokens_used: _, total_tokens_before_compaction: _, primary_model_id, models_used } =
        signals;
    let named = match primary_model_id {
        Some(m) => Some(m),
        None => match current_model_id {
            Some(m) => Some(m),
            None => if models_used.len() > 0 {
                Some(models_used[0].clone())
            } else {
                None
            },
        },
    };
    assert(text_of(named) == named_model(signals_in, summary_in));
    let model = match named {
        Some(m) => if is_blank_text(m.as_str()) {
            String::from_str(DEFAULT_MODEL)
        } else {
            m
        },
        None => String::from_str(DEFAULT_MODEL),
    };
    GrokSessionRecord { timestamp, timestamp_text, session_id, project_path, model, total_tokens }
}


/// Token counts of one usage entry.
#[derive(Clone, Copy, Debug, PartialEq, Eq, Structural)]
pub struct TokenUsageRaw {
    pub input_tokens: u64,
    pub output_tokens: u64,
    pub cache_creation_input_tokens: u64,
    pub cache_read_input_tokens: u64,
}

/// The message part of a usage entry.
#[derive(Debug)]
pub struct UsageMessage {
    pub usage: TokenUsageRaw,
    pub model: Option<String>,
    pub id: Option<String>,
}

/// A usage entry as the reports read it.
#[derive(Debug)]
pub struct UsageEntry {
    pub session_id: Option<String>,
    pub timestamp: String,
    pub version: Option<String>,
    pub message: UsageMessage,
    pub request_id: Option<String>,
    pub is_api_error_message: Option<bool>,
    pub is_sidechain: Option<bool>,
}

/// A usage entry together with what the reports group it by.
#[derive(Debug)]
pub struct LoadedEntry {
    pub data: UsageEntry,
    pub timestamp: TimestampMs,
    pub date: String,
    pub project: String,
    pub session_id: String,
    pub project_path: String,
    pub extra_total_tokens: u64,
    pub model: Option<String>,
}

/// No tokens at all.
pub open spec fn zero_usage() -> TokenUsageRaw {
    TokenUsageRaw {
        input_tokens: 0,
        output_tokens: 0,
        cache_creation_input_tokens: 0,
        cache_read_input_tokens: 0,
    }
}

/// The tokens of one inference: input is the prompt without its cached part,
/// cache reads are the cached part, output is the completion.
pub open spec fn inference_usage(inference: LogInference) -> TokenUsageRaw {
    TokenUsageRaw {
        input_tokens: inference.prompt_tokens.saturating_sub(inference.cached_prompt_tokens),
        output_tokens: inference.completion_tokens,
        cache_creation_input_tokens: 0,
        cache_read_input_tokens: inference.cached_prompt_tokens,
    }
}

/// `e` is the entry of the given session record with the given tokens, extra
/// total and time; cost, version, request and message ids are not recorded.
pub open spec fn is_entry_of(
    e: LoadedEntry,
    record: SessionRecordView,
    usage: TokenUsageRaw,
    extra_total_tokens: u64,
    timestamp: TimestampMs,
    timestamp_text: Seq<char>,
    tz: Option<&jiff::tz::TimeZone>,
) -> bool {
    &&& text_of(e.data.session_id) == Some(record.session_id)
    &&& e.data.timestamp@ == timestamp_text
    &&& e.data.version is None
    &&& e.data.message.usage == usage
    &&& text_of(e.data.message.model) == Some(record.model)
    &&& e.data.message.id is None
    &&& e.data.request_id is None
    &&& e.data.is_api_error_message is None
    &&& e.data.is_sidechain is None
    &&& e.timestamp == timestamp
    &&& is_date_in_zone(e.date@, timestamp, tz)
    &&& e.project@ == PROJECT_NAME@
    &&& e.session_id@ == record.session_id
    &&& e.project_path@ == record.project_path
    &&& e.extra_total_tokens == extra_total_tokens
    &&& text_of(e.model) == Some(record.model)
}

/// Builds the entry of a session record; its date is the timestamp's date in
/// the given zone.
pub fn loaded_entry(
    record: &GrokSessionRecord,
    usage: TokenUsageRaw,
    extra_total_tokens: u64,
    timestamp: TimestampMs,
    timestamp_text: String,
    tz: Option<&jiff::tz::TimeZone>,
) -> (e: LoadedEntry)
    ensures
        is_entry_of(e, record@, usage, extra_total_tokens, timestamp, timestamp_text@, tz),
{
    let data = UsageEntry {
        session_id: Some(record.session_id.clone()),
        timestamp: timestamp_text,
        version: None,
        message: UsageMessage { usage, model: Some(record.model.clone()), id: None },
        request_id: None,
        is_api_error_message: None,
        is_sidechain: None,
    };
    LoadedEntry {
        data,
        timestamp,
        date: format_date_tz(timestamp, tz),
        project: String::from_str(PROJECT_NAME),
        session_id: record.session_id.clone(),
        project_path: record.project_path.clone(),
        extra_total_tokens,
        model: Some(record.model.clone()),
    }
}

/// The entry that reports a session record's total as extra tokens, with no
/// input, output or cache tokens, at the record's time.
pub fn record_to_loaded(record: GrokSessionRecord, tz: Option<&jiff::tz::TimeZone>) -> (e: LoadedEntry)
    ensures
        is_entry_of(
            e,
            record@,
            zero_usage(),
            record.total_tokens,
            record.timestamp,
            record.timestamp_text@,
            tz,
        ),
{
    let usage = TokenUsageRaw {
        input_tokens: 0,
        output_tokens: 0,
        cache_creation_input_tokens: 0,
        cache_read_input_tokens: 0,
    };
    let timestamp = record.timestamp;
    let timestamp_text = record.timestamp_text.clone();
    let extra_total_tokens = record.total_tokens;
    loaded_entry(&record, usage, extra_total_tokens, timestamp, timestamp_text, tz)
}

/// The entry of one inference of a session, at the inference's time.
pub fn inference_to_loaded(
    record: &GrokSessionRecord,
    inference: &LogInference,
    tz: Option<&jiff::tz::TimeZone>,
) -> (e: LoadedEntry)
    ensures
        is_entry_of(
            e,
            record@,
            inference_usage(*inference),
            0,
            inference.timestamp,
            inference.timestamp_text@,
            tz,
        ),
        e.data.message.usage.cache_creation_input_tokens == 0,
        e.data.message.usage.cache_read_input_tokens == inference.cached_prompt_tokens,
        e.data.message.usage.output_tokens == inference.completion_tokens,
        e.extra_total_tokens == 0,
        inference.cached_prompt_tokens <= inference.prompt_tokens ==> e.data.message.usage.input_tokens
            + e.data.message.usage.cache_read_input_tokens == inference.prompt_tokens,
        inference.cached_prompt_tokens > inference.prompt_tokens ==> e.data.message.usage.input_tokens
            == 0,
{
    proof {
        lemma_inference_usage_accounts(*inference);
    }
    let usage = TokenUsageRaw {
        input_tokens: inference.prompt_tokens.saturating_sub(inference.cached_prompt_tokens),
        output_tokens: inference.completion_tokens,
        cache_creation_input_tokens: 0,
        cache_read_input_tokens: inference.cached_prompt_tokens,
    };
    loaded_entry(record, usage, 0, inference.timestamp, inference.timestamp_text.clone(), tz)
}


/// The session total that `signals.json` records: context tokens used plus
/// tokens before compaction (saturating).
pub open spec fn signals_total(signals: GrokSignals) -> u64 {
    signals.context_tokens_used.saturating_add(signals.total_tokens_before_compaction)
}

/// The tokens that a session's logged inferences account for: prompt plus
/// completion of each (saturating per inference).
pub open spec fn logged_tokens(inferences: Seq<LogInference>) -> int
    decreases inferences.len(),
{
    if inferences.len() == 0 {
        0
    } else {
        logged_tokens(inferences.drop_last()) + inferences.last().prompt_tokens.saturating_add(
            inferences.last().completion_tokens,
        )
    }
}

/// The part of the session total that the log does not cover.
pub open spec fn residual_tokens(total: u64, logged: int) -> int {
    if total > logged {
        total - logged
    } else {
        0
    }
}

/// All the tokens that an entry reports.
pub open spec fn reported_tokens(e: LoadedEntry) -> int {
    e.data.message.usage.input_tokens + e.data.message.usage.output_tokens
        + e.data.message.usage.cache_creation_input_tokens
        + e.data.message.usage.cache_read_input_tokens + e.extra_total_tokens
}

/// All the tokens that a list of entries reports.
pub open spec fn reported_total(entries: Seq<LoadedEntry>) -> int
    decreases entries.len(),
{
    if entries.len() == 0 {
        0
    } else {
        reported_total(entries.drop_last()) + reported_tokens(entries.last())
    }
}

/// Reading a session runs to completion: when its signals could be read, the
/// summary's time can be normalized and, if the log covers the session, the
/// sum of its logged tokens fits in `u64`.
pub open spec fn session_readable(
    path: Seq<char>,
    signals: Option<GrokSignals>,
    summary: GrokSummary,
    usage: Map<Seq<char>, Seq<LogInference>>,
) -> bool {
    match signals {
        Some(_) => {
            &&& summary_time_defined(summary)
            &&& usage.contains_key(record_session_id(path, summary)) ==> logged_tokens(
                usage[record_session_id(path, summary)],
            ) <= u64::MAX
        },
        None => true,
    }
}

/// The entries of a session. Without readable signals there are none. When
/// the log covers the session there is one entry per logged inference, in log
/// order, and one more for the part of the session total that the log does not
/// cover, if any. Otherwise the session total is one entry with no input,
/// output or cache tokens, unless it is zero.
pub open spec fn session_entries(
    path: Seq<char>,
    signals: Option<GrokSignals>,
    summary: GrokSummary,
    modified_ms: Option<u128>,
    usage: Map<Seq<char>, Seq<LogInference>>,
    tz: Option<&jiff::tz::TimeZone>,
    entries: Seq<LoadedEntry>,
) -> bool {
    match signals {
        None => entries.len() == 0,
        Some(sig) => {
            let total = signals_total(sig);
            let record = expected_record(path, sig, summary, total, modified_ms);
            if usage.contains_key(record.session_id) {
                let inferences = usage[record.session_id];
                let residual = residual_tokens(total, logged_tokens(inferences));
                &&& entries.len() == inferences.len() + if residual > 0 {
                    1int
                } else {
                    0int
                }
                &&& forall|i: int|
                    0 <= i < inferences.len() ==> is_entry_of(
                        #[trigger] entries[i],
                        record,
                        inference_usage(inferences[i]),
                        0,
                        inferences[i].timestamp,
                        inferences[i].timestamp_text@,
                        tz,
                    )
                &&& residual > 0 ==> is_entry_of(
                    entries[inferences.len() as int],
                    record,
                    zero_usage(),
                    residual as u64,
                    record.timestamp,
                    record.timestamp_text,
                    tz,
                )
            } else if total == 0 {
                entries.len() == 0
            } else {
                &&& entries.len() == 1
                &&& is_entry_of(
                    entries[0],
                    record,
                    zero_usage(),
                    total,
                    record.timestamp,
                    record.timestamp_text,
                    tz,
                )
            }
        },
    }
}

/// The prompt and completion tokens that some inferences record, summed
/// without saturation.
pub open spec fn prompt_and_completion(inferences: Seq<LogInference>) -> int
    decreases inferences.len(),
{
    if inferences.len() == 0 {
        0
    } else {
        prompt_and_completion(inferences.drop_last()) + inferences.last().prompt_tokens
            + inferences.last().completion_tokens
    }
}

/// Every inference's cached part lies within its prompt, and its prompt and
/// completion add up within `u64`.
pub open spec fn inferences_consistent(inferences: Seq<LogInference>) -> bool {
    forall|i: int|
        0 <= i < inferences.len() ==> (#[trigger] inferences[i]).cached_prompt_tokens
            <= inferences[i].prompt_tokens && inferences[i].prompt_tokens
            + inferences[i].completion_tokens <= u64::MAX
}

/// The tokens that the entries of some inferences report together.
spec fn inference_entries_reported(inferences: Seq<LogInference>) -> int
    decreases inferences.len(),
{
    if inferences.len() == 0 {
        0
    } else {
        let u = inference_usage(inferences.last());
        inference_entries_reported(inferences.drop_last()) + u.input_tokens + u.output_tokens
            + u.cache_creation_input_tokens + u.cache_read_input_tokens
    }
}

proof fn lemma_entries_reported_vs_logged(inferences: Seq<LogInference>)
    ensures
        inference_entries_reported(inferences) >= logged_tokens(inferences),
        inferences_consistent(inferences) ==> inference_entries_reported(inferences)
            == prompt_and_completion(inferences) && logged_tokens(inferences)
            == prompt_and_completion(inferences),
    decreases inferences.len(),
{
    if inferences.len() > 0 {
        let init = inferences.drop_last();
        lemma_entries_reported_vs_logged(init);
        lemma_inference_usage_accounts(inferences.last());
        if inferences_consistent(inferences) {
            assert(inferences_consistent(init)) by {
                assert forall|i: int| 0 <= i < init.len() implies (#[trigger] init[i]).cached_prompt_tokens
                    <= init[i].prompt_tokens && init[i].prompt_tokens + init[i].completion_tokens
                    <= u64::MAX by {
                    assert(init[i] == inferences[i]);
                }
            }
            assert(inferences.last() == inferences[inferences.len() - 1]);
        }
    }
}

proof fn lemma_logged_prefix(inferences: Seq<LogInference>, i: int)
    requires
        0 <= i <= inferences.len(),
    ensures
        0 <= logged_tokens(inferences.take(i)) <= logged_tokens(inferences),
    decreases inferences.len(),
{
    if inferences.len() > 0 {
        if i == inferences.len() {
            assert(inferences.take(i) == inferences);
            lemma_logged_prefix(inferences.drop_last(), i - 1);
        } else {
            lemma_logged_prefix(inferences.drop_last(), i);
            assert(inferences.drop_last().take(i) == inferences.take(i));
        }
    }
}

/// Reads the entries of one session: `signals` is what its `signals.json`
/// holds (`None` when it is not valid JSON of that shape), `summary` what
/// its `summary.json` holds (empty when missing or invalid), `modified_ms`
/// the modification time of `signals.json`, `tz` the zone of the entries'
/// dates, and `log_usage` the inferences that the log records by session.
pub fn read_session(
    signals_path: &str,
    signals: Option<GrokSignals>,
    summary: GrokSummary,
    modified_ms: Option<u128>,
    tz: Option<&jiff::tz::TimeZone>,
    log_usage: &LogUsageBySession,
) -> (entries: Vec<LoadedEntry>)
    requires
        session_readable(signals_path@, signals, summary, log_usage@),
    ensures
        session_entries(signals_path@, signals, summary, modified_ms, log_usage@, tz, entries@),
        signals matches Some(sig) ==> reported_total(entries@) >= signals_total(sig),
        signals is Some && !log_usage@.contains_key(record_session_id(signals_path@, summary))
            ==> reported_total(entries@) == signals_total(signals->0),
        signals is Some && log_usage@.contains_key(record_session_id(signals_path@, summary))
            && inferences_consistent(log_usage@[record_session_id(signals_path@, summary)])
            ==> reported_total(entries@) == if prompt_and_completion(
            log_usage@[record_session_id(signals_path@, summary)],
        ) > signals_total(signals->0) {
            prompt_and_completion(log_usage@[record_session_id(signals_path@, summary)])
        } else {
            signals_total(signals->0) as int
        },
{
    let ghost signals_in = signals;
    let ghost summary_in = summary;
    let signals = match signals {
        Some(signals) => signals,
        None => return Vec::new(),
    };
    let total_tokens = signals.context_tokens_used.saturating_add(
        signals.total_tokens_before_compaction,
    );
    let record = session_record(signals_path, signals, summary, total_tokens, modified_ms);
    let ghost rec = record@;
    if let Some(inferences) = log_usage.get(record.session_id.as_str()) {
        let ghost infs = inferences@;
        let n = inferences.len();
        let mut entries: Vec<LoadedEntry> = Vec::new();
        let mut logged_tokens_sum: u64 = 0;
        for i in 0..n
            invariant
                n == infs.len(),
                infs == inferences@,
                rec == record@,
                logged_tokens(infs) <= u64::MAX,
                entries@.len() == i,
                logged_tokens_sum == logged_tokens(infs.take(i as int)),
                reported_total(entries@) == inference_entries_reported(infs.take(i as int)),
                forall|j: int|
                    0 <= j < i ==> is_entry_of(
                        #[trigger] entries@[j],
                        rec,
                        inference_usage(infs[j]),
                        0,
                        infs[j].timestamp,
                        infs[j].timestamp_text@,
                        tz,
                    ),
        {
            let inference = &inferences[i];
            let entry = inference_to_loaded(&record, inference, tz);
            let ghost before = entries@;
            entries.push(entry);
            assert(entries@.drop_last() == before);
            assert(infs.take(i + 1).drop_last() == infs.take(i as int));
            assert(infs.take(i + 1).last() == infs[i as int]);
            proof {
                lemma_logged_prefix(infs, i + 1);
                lemma_inference_usage_accounts(infs[i as int]);
            }
            logged_tokens_sum = logged_tokens_sum + inference.prompt_tokens.saturating_add(
                inference.completion_tokens,
            );
        }
        assert(infs.take(n as int) == infs);
        proof {
            lemma_entries_reported_vs_logged(infs);
        }
        let residual = total_tokens.saturating_sub(logged_tokens_sum);
        if residual > 0 {
            let mut record = record;
            record.total_tokens = residual;
            let ghost before = entries@;
            entries.push(record_to_loaded(record, tz));
            assert(entries@.drop_last() == before);
        }
        return entries;
    }
    if total_tokens == 0 {
        return Vec::new();
    }
    let mut entries: Vec<LoadedEntry> = Vec::new();
    entries.push(record_to_loaded(record, tz));
    assert(entries@.drop_last() == Seq::<LoadedEntry>::empty());
    assert(reported_total(Seq::<LoadedEntry>::empty()) == 0);
    assert(entries@.last() == entries@[0]);
    assert(reported_total(entries@) == reported_tokens(entries@[0]));
    entries
}


/// The summary's activity time, borrowed.
fn summary_time(summary: &GrokSummary) -> (r: Option<&String>)
    ensures
        match r {
            Some(t) => summary_time_text(*summary) == Some(t@),
            None => summary_time_text(*summary) is None,
        },
{
    match &summary.last_active_at {
        Some(t) => Some(t),
        None => match &summary.updated_at {
            Some(t) => Some(t),
            None => match &summary.created_at {
                Some(t) => Some(t),
                None => None,
            },
        },
    }
}

/// The session id that a session's record will carry.
fn session_id_for(path: &str, summary: &GrokSummary) -> (s: String)
    ensures
        s@ == record_session_id(path@, *summary),
{
    let from_info = match &summary.info {
        Some(info) => match &info.id {
            Some(id) => Some(id.clone()),
            None => None,
        },
        None => None,
    };
    match from_info {
        Some(id) => id,
        None => match session_id_from_path(path) {
            Some(id) => id,
            None => String::from_str(UNKNOWN_SESSION),
        },
    }
}

/// Whether the logged tokens of some inferences add up within `u64`.
fn logged_tokens_fit(inferences: &Vec<LogInference>) -> (b: bool)
    ensures
        b == (logged_tokens(inferences@) <= u64::MAX),
{
    let n = inferences.len();
    let mut sum: u64 = 0;
    for i in 0..n
        invariant
            n == inferences@.len(),
            sum == logged_tokens(inferences@.take(i as int)),
    {
        let t = inferences[i].prompt_tokens.saturating_add(inferences[i].completion_tokens);
        assert(inferences@.take(i + 1).drop_last() == inferences@.take(i as int));
        assert(inferences@.take(i + 1).last() == inferences@[i as int]);
        proof {
            lemma_logged_prefix(inferences@, i + 1);
        }
        if t > u64::MAX - sum {
            return false;
        }
        sum = sum + t;
    }
    assert(inferences@.take(n as int) == inferences@);
    true
}

/// Whether reading the session runs to completion (see `session_readable`).
pub fn session_is_readable(
    signals_path: &str,
    signals: &Option<GrokSignals>,
    summary: &GrokSummary,
    log_usage: &LogUsageBySession,
) -> (b: bool)
    ensures
        b == session_readable(signals_path@, *signals, *summary, log_usage@),
{
    if signals.is_none() {
        return true;
    }
    let time_ok = match summary_time(summary) {
        Some(t) => normalize_is_defined(t.as_str()),
        None => true,
    };
    if !time_ok {
        return false;
    }
    let sid = session_id_for(signals_path, summary);
    match log_usage.get(sid.as_str()) {
        Some(inferences) => logged_tokens_fit(inferences),
        None => true,
    }
}


/// A session's entries depend on the log only through that session's own
/// inferences: two logs that agree on the session give it the same entries.
pub proof fn lemma_entries_depend_on_own_log(
    path: Seq<char>,
    signals: Option<GrokSignals>,
    summary: GrokSummary,
    modified_ms: Option<u128>,
    usage: Map<Seq<char>, Seq<LogInference>>,
    other_usage: Map<Seq<char>, Seq<LogInference>>,
    tz: Option<&jiff::tz::TimeZone>,
    entries: Seq<LoadedEntry>,
)
    requires
        usage.contains_key(record_session_id(path, summary)) == other_usage.contains_key(
            record_session_id(path, summary),
        ),
        usage.contains_key(record_session_id(path, summary)) ==> usage[record_session_id(
            path,
            summary,
        )] == other_usage[record_session_id(path, summary)],
    ensures
        session_entries(path, signals, summary, modified_ms, usage, tz, entries)
            == session_entries(path, signals, summary, modified_ms, other_usage, tz, entries),
        session_readable(path, signals, summary, usage) == session_readable(
            path,
            signals,
            summary,
            other_usage,
        ),
{
}

proof fn lemma_trim_end_char_last(s: Seq<char>, c: char)
    ensures
        trim_end_char(s, c).len() == 0 || trim_end_char(s, c).last() != c,
    decreases s.len(),
{
    if s.len() > 0 && s.last() == c {
        lemma_trim_end_char_last(s.drop_last(), c);
    }
}

/// Every session record keeps the total it is given, names a model that is
/// not blank, has a project path that does not end with `/`, and has a
/// timestamp that is what its timestamp text denotes whenever that text reads
/// as one.
pub proof fn lemma_record_properties(
    path: Seq<char>,
    signals: GrokSignals,
    summary: GrokSummary,
    total_tokens: u64,
    modified_ms: Option<u128>,
)
    ensures
        ({
            let record = expected_record(path, signals, summary, total_tokens, modified_ms);
            &&& record.total_tokens == total_tokens
            &&& !is_blank(record.model)
            &&& record.project_path.len() == 0 || record.project_path.last() != '/'
            &&& parsed_timestamp(record.timestamp_text) matches Some(t) ==> t == record.timestamp
        }),
{
    reveal_strlit("grok-build");
    assert(!is_white_space(DEFAULT_MODEL@[0]));
    let chosen = or_else(
        summary_cwd(summary),
        or_else(text_of(summary.git_root_dir), project_path_of_path(path)),
    );
    lemma_trim_end_char_last(
        match chosen {
            Some(p) => p,
            None => DEFAULT_PROJECT_PATH@,
        },
        '/',
    );
}


/// Where each part of a session record comes from: the session id from the
/// summary's `info.id`, else the path, else `unknown`; the project path from
/// the summary's `info.cwd`, else its git root, else the path, else `Grok
/// Build`, with trailing slashes removed; the model from the signals' primary
/// model, else the summary's current model, else the first model the signals
/// list, a blank or missing one giving `grok-build`; the time text from the
/// summary's last activity, else last update, else creation, made readable,
/// else the file time printed; the timestamp is what that text denotes, else
/// the file time; the total is kept.
pub proof fn lemma_record_sources(
    path: Seq<char>,
    signals: GrokSignals,
    summary: GrokSummary,
    total_tokens: u64,
    modified_ms: Option<u128>,
)
    ensures
        ({
            let r = expected_record(path, signals, summary, total_tokens, modified_ms);
            &&& r.total_tokens == total_tokens
            &&& (summary.info is Some && summary.info->0.id is Some ==> r.session_id == summary.info->0.id->0@)
            &&& ((summary.info is None || summary.info->0.id is None) ==> r.session_id == match session_id_of_path(path) {
                Some(p) => p,
                None => UNKNOWN_SESSION@,
            })
            &&& (summary.info is Some && summary.info->0.cwd is Some ==> r.project_path == trim_end_char(summary.info->0.cwd->0@, '/'))
            &&& ((summary.info is None || summary.info->0.cwd is None) && summary.git_root_dir is Some ==> r.project_path == trim_end_char(summary.git_root_dir->0@, '/'))
            &&& ((summary.info is None || summary.info->0.cwd is None) && summary.git_root_dir is None ==> r.project_path == trim_end_char(match project_path_of_path(path) {
                Some(p) => p,
                None => DEFAULT_PROJECT_PATH@,
            }, '/'))
            &&& (signals.primary_model_id is Some ==> r.model == if is_blank(signals.primary_model_id->0@) { DEFAULT_MODEL@ } else { signals.primary_model_id->0@ })
            &&& (signals.primary_model_id is None && summary.current_model_id is Some ==> r.model == if is_blank(summary.current_model_id->0@) { DEFAULT_MODEL@ } else { summary.current_model_id->0@ })
            &&& (signals.primary_model_id is None && summary.current_model_id is None && signals.models_used@.len() > 0 ==> r.model == if is_blank(signals.models_used@[0]@) { DEFAULT_MODEL@ } else { signals.models_used@[0]@ })
            &&& (signals.primary_model_id is None && summary.current_model_id is None && signals.models_used@.len() == 0 ==> r.model == DEFAULT_MODEL@)
            &&& (summary.last_active_at is Some ==> r.timestamp_text == match normalized_timestamp(summary.last_active_at->0@) {
                Some(n) => n,
                None => rfc3339_millis_text(modified_timestamp(modified_ms)),
            })
            &&& (summary.last_active_at is None && summary.updated_at is Some ==> r.timestamp_text == match normalized_timestamp(summary.updated_at->0@) {
                Some(n) => n,
                None => rfc3339_millis_text(modified_timestamp(modified_ms)),
            })
            &&& (summary.last_active_at is None && summary.updated_at is None && summary.created_at is Some ==> r.timestamp_text == match normalized_timestamp(summary.created_at->0@) {
                Some(n) => n,
                None => rfc3339_millis_text(modified_timestamp(modified_ms)),
            })
            &&& (summary.last_active_at is None && summary.updated_at is None && summary.created_at is None ==> r.timestamp_text == rfc3339_millis_text(modified_timestamp(modified_ms)))
            &&& r.timestamp == match parsed_timestamp(r.timestamp_text) {
                Some(t) => t,
                None => modified_timestamp(modified_ms),
            }
        }),
{
}

/// What an inference's entry counts: no cache creation, the cached prompt as
/// cache reads, the completion as output, and the rest of the prompt as input;
/// so when the cached part does not exceed the prompt, input and cache reads
/// together are the prompt, and the entry counts exactly the prompt and the
/// completion.
pub proof fn lemma_inference_usage_accounts(inference: LogInference)
    ensures
        ({
            let u = inference_usage(inference);
            &&& u.cache_creation_input_tokens == 0
            &&& u.cache_read_input_tokens == inference.cached_prompt_tokens
            &&& u.output_tokens == inference.completion_tokens
            &&& inference.cached_prompt_tokens <= inference.prompt_tokens ==> u.input_tokens
                + u.cache_read_input_tokens == inference.prompt_tokens
            &&& inference.cached_prompt_tokens <= inference.prompt_tokens ==> u.input_tokens
                + u.cache_read_input_tokens + u.output_tokens + u.cache_creation_input_tokens
                == inference.prompt_tokens + inference.completion_tokens
            &&& inference.cached_prompt_tokens > inference.prompt_tokens ==> u.input_tokens == 0
        }),
{
}

} // verus!
