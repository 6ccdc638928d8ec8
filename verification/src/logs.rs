//! The inference log: per-request token usage read from `logs/unified.jsonl`,
//! gathered by session.

use vstd::prelude::*;
use crate::text::{contains_chars, has_substring, lines_of, split_lines, chars_of};
use crate::time::{TimestampMs, parse_ts_timestamp, parsed_timestamp};

verus! {

/// Token counts of one finished inference, as the log line records them.
#[derive(Clone, Copy, Debug, PartialEq, Eq, Structural)]
pub struct LogContext {
    pub prompt_tokens: Option<u64>,
    pub cached_prompt_tokens: Option<u64>,
    pub completion_tokens: Option<u64>,
}

/// One line of the log, as far as usage is concerned.
#[derive(Debug)]
pub struct LogLine {
    pub ts: String,
    pub sid: Option<String>,
    pub msg: String,
    pub ctx: Option<LogContext>,
}

/// One finished inference of a session.
#[derive(Debug)]
pub struct LogInference {
    pub timestamp: TimestampMs,
    pub timestamp_text: String,
    pub prompt_tokens: u64,
    pub cached_prompt_tokens: u64,
    pub completion_tokens: u64,
}

/// The inferences of one session, in log order.
#[derive(Debug)]
struct SessionLog {
    sid: String,
    inferences: Vec<LogInference>,
}

/// Inferences by session id.
#[derive(Debug)]
pub struct LogUsageBySession {
    sessions: Vec<SessionLog>,
}

/// Some position of `sessions` whose session id is `key`.
spec fn index_of_key(sessions: Seq<SessionLog>, key: Seq<char>) -> int {
    choose|i: int| 0 <= i < sessions.len() && sessions[i].sid@ == key
}

spec fn has_key(sessions: Seq<SessionLog>, key: Seq<char>) -> bool {
    exists|i: int| 0 <= i < sessions.len() && sessions[i].sid@ == key
}

spec fn keys_distinct(sessions: Seq<SessionLog>) -> bool {
    forall|i: int, j: int|
        0 <= i < sessions.len() && 0 <= j < sessions.len() && i != j ==> sessions[i].sid@
            != sessions[j].sid@
}

spec fn map_of(sessions: Seq<SessionLog>) -> Map<Seq<char>, Seq<LogInference>> {
    Map::new(
        |k: Seq<char>| has_key(sessions, k),
        |k: Seq<char>| sessions[index_of_key(sessions, k)].inferences@,
    )
}

proof fn lemma_map_of_at(sessions: Seq<SessionLog>, i: int)
    requires
        keys_distinct(sessions),
        0 <= i < sessions.len(),
    ensures
        map_of(sessions).contains_key(sessions[i].sid@),
        map_of(sessions)[sessions[i].sid@] == sessions[i].inferences@,
{
    let k = sessions[i].sid@;
    assert(has_key(sessions, k));
    let j = index_of_key(sessions, k);
    assert(sessions[j].sid@ == k);
}

proof fn lemma_map_of_update(sessions: Seq<SessionLog>, i: int, entry: SessionLog)
    requires
        keys_distinct(sessions),
        0 <= i < sessions.len(),
        entry.sid@ == sessions[i].sid@,
    ensures
        keys_distinct(sessions.update(i, entry)),
        map_of(sessions.update(i, entry)) == map_of(sessions).insert(entry.sid@, entry.inferences@),
{
    let new = sessions.update(i, entry);
    assert(keys_distinct(new));
    let m = map_of(new);
    let expected = map_of(sessions).insert(entry.sid@, entry.inferences@);
    assert forall|k: Seq<char>| m.contains_key(k) <==> expected.contains_key(k) by {
        if has_key(new, k) {
            let j = choose|j: int| 0 <= j < new.len() && new[j].sid@ == k;
            if j != i {
                assert(sessions[j].sid@ == k);
            }
        }
        if has_key(sessions, k) {
            let j = choose|j: int| 0 <= j < sessions.len() && sessions[j].sid@ == k;
            assert(new[j].sid@ == k);
        }
        if k == entry.sid@ {
            assert(new[i].sid@ == k);
        }
    }
    assert forall|k: Seq<char>| m.contains_key(k) implies m[k] == expected[k] by {
        let j = choose|j: int| 0 <= j < new.len() && new[j].sid@ == k;
        lemma_map_of_at(new, j);
        if j != i {
            lemma_map_of_at(sessions, j);
        }
    }
    assert(m =~= expected);
}

proof fn lemma_map_of_push(sessions: Seq<SessionLog>, entry: SessionLog)
    requires
        keys_distinct(sessions),
        !has_key(sessions, entry.sid@),
    ensures
        keys_distinct(sessions.push(entry)),
        map_of(sessions.push(entry)) == map_of(sessions).insert(entry.sid@, entry.inferences@),
{
    let new = sessions.push(entry);
    let n = sessions.len() as int;
    assert forall|i: int, j: int|
        0 <= i < new.len() && 0 <= j < new.len() && i != j implies new[i].sid@ != new[j].sid@ by {
        if i == n {
            assert(new[j] == sessions[j]);
        } else if j == n {
            assert(new[i] == sessions[i]);
        }
    }
    let m = map_of(new);
    let expected = map_of(sessions).insert(entry.sid@, entry.inferences@);
    assert forall|k: Seq<char>| m.contains_key(k) <==> expected.contains_key(k) by {
        if has_key(new, k) {
            let j = choose|j: int| 0 <= j < new.len() && new[j].sid@ == k;
            if j != n {
                assert(sessions[j].sid@ == k);
            }
        }
        if has_key(sessions, k) {
            let j = choose|j: int| 0 <= j < sessions.len() && sessions[j].sid@ == k;
            assert(new[j].sid@ == k);
        }
        if k == entry.sid@ {
            assert(new[n].sid@ == k);
        }
    }
    assert forall|k: Seq<char>| m.contains_key(k) implies m[k] == expected[k] by {
        let j = choose|j: int| 0 <= j < new.len() && new[j].sid@ == k;
        lemma_map_of_at(new, j);
        if j != n {
            assert(new[j] == sessions[j]);
            lemma_map_of_at(sessions, j);
        }
    }
    assert(m =~= expected);
}

impl View for LogUsageBySession {
    type V = Map<Seq<char>, Seq<LogInference>>;

    closed spec fn view(&self) -> Map<Seq<char>, Seq<LogInference>> {
        map_of(self.sessions@)
    }
}

impl LogUsageBySession {
    #[verifier::type_invariant]
    spec fn session_ids_distinct(self) -> bool {
        keys_distinct(self.sessions@)
    }

    /// No inferences for any session.
    pub fn new() -> (usage: LogUsageBySession)
        ensures
            usage@ == Map::<Seq<char>, Seq<LogInference>>::empty(),
    {
        let usage = LogUsageBySession { sessions: Vec::new() };
        assert(usage@ =~= Map::<Seq<char>, Seq<LogInference>>::empty());
        usage
    }

    /// Where the session `key` stands, if it has inferences.
    fn position(sessions: &Vec<SessionLog>, key: &String) -> (r: Option<usize>)
        requires
            keys_distinct(sessions@),
        ensures
            match r {
                Some(i) => i < sessions@.len() && sessions@[i as int].sid@ == key@,
                None => !has_key(sessions@, key@),
            },
    {
        let n = sessions.len();
        for i in 0..n
            invariant
                n == sessions@.len(),
                forall|j: int| 0 <= j < i ==> sessions@[j].sid@ != key@,
        {
            if sessions[i].sid == *key {
                return Some(i);
            }
        }
        None
    }

    /// The inferences of a session, in log order.
    pub fn get(&self, sid: &str) -> (r: Option<&Vec<LogInference>>)
        ensures
            match r {
                Some(v) => self@.contains_key(sid@) && v@ == self@[sid@],
                None => !self@.contains_key(sid@),
            },
    {
        proof {
            use_type_invariant(self);
        }
        let key = String::from_str(sid);
        match Self::position(&self.sessions, &key) {
            Some(i) => {
                proof {
                    lemma_map_of_at(self.sessions@, i as int);
                }
                Some(&self.sessions[i].inferences)
            },
            None => None,
        }
    }

    /// Sets the inferences of a session, replacing any it had.
    pub fn insert(&mut self, sid: String, inferences: Vec<LogInference>)
        ensures
            final(self)@ == old(self)@.insert(sid@, inferences@),
    {
        proof {
            use_type_invariant(&*self);
        }
        let mut sessions: Vec<SessionLog> = Vec::new();
        std::mem::swap(&mut sessions, &mut self.sessions);
        let ghost before = sessions@;
        let entry = SessionLog { sid, inferences };
        match Self::position(&sessions, &entry.sid) {
            Some(i) => {
                proof {
                    lemma_map_of_update(before, i as int, entry);
                }
                sessions.remove(i);
                sessions.insert(i, entry);
                assert(sessions@ == before.update(i as int, entry));
            },
            None => {
                proof {
                    lemma_map_of_push(before, entry);
                }
                sessions.push(entry);
            },
        }
        self.sessions = sessions;
    }

    /// Appends an inference to a session (`entry(sid).or_default().push(..)`).
    pub fn push_inference(&mut self, sid: String, inference: LogInference)
        ensures
            final(self)@ == with_inference(old(self)@, sid@, inference),
    {
        proof {
            use_type_invariant(&*self);
        }
        let mut sessions: Vec<SessionLog> = Vec::new();
        std::mem::swap(&mut sessions, &mut self.sessions);
        let ghost before = sessions@;
        match Self::position(&sessions, &sid) {
            Some(i) => {
                proof {
                    lemma_map_of_at(before, i as int);
                }
                let mut entry = sessions.remove(i);
                entry.inferences.push(inference);
                proof {
                    lemma_map_of_update(before, i as int, entry);
                }
                sessions.insert(i, entry);
                assert(sessions@ == before.update(i as int, entry));
            },
            None => {
                let mut inferences: Vec<LogInference> = Vec::new();
                inferences.push(inference);
                let entry = SessionLog { sid, inferences };
                assert(entry.inferences@ == seq![].push(inference));
                proof {
                    lemma_map_of_push(before, entry);
                }
                sessions.push(entry);
            },
        }
        self.sessions = sessions;
    }

    /// The number of sessions with inferences.
    pub fn len(&self) -> (n: usize)
        ensures
            n == self@.len(),
    {
        proof {
            use_type_invariant(self);
            let keys = self.sessions@.map_values(|s: SessionLog| s.sid@);
            assert(keys.no_duplicates()) by {
                assert forall|i: int, j: int|
                    0 <= i < keys.len() && 0 <= j < keys.len() && i != j implies keys[i]
                    != keys[j] by {}
            }
            keys.unique_seq_to_set();
            assert forall|k: Seq<char>| keys.to_set().contains(k) <==> self@.dom().contains(k) by {
                if has_key(self.sessions@, k) {
                    let j = choose|j: int| 0 <= j < self.sessions@.len() && self.sessions@[j].sid@ == k;
                    assert(keys[j] == k);
                }
                if keys.contains(k) {
                    let j = choose|j: int| 0 <= j < keys.len() && keys[j] == k;
                    assert(self.sessions@[j].sid@ == k);
                }
            }
            assert(keys.to_set() =~= self@.dom());
        }
        self.sessions.len()
    }
}

/// The inferences by session after one more inference of session `sid`.
pub open spec fn with_inference(
    usage: Map<Seq<char>, Seq<LogInference>>,
    sid: Seq<char>,
    inference: LogInference,
) -> Map<Seq<char>, Seq<LogInference>> {
    usage.insert(
        sid,
        (if usage.contains_key(sid) {
            usage[sid]
        } else {
            seq![]
        }).push(inference),
    )
}


/// The message of a log line that reports a finished inference.
pub const INFERENCE_DONE_MSG: &'static str = "shell.turn.inference_done";

/// Whether a line of the log may report a finished inference: it mentions the
/// message that marks one.
pub open spec fn mentions_inference_done(line: Seq<char>) -> bool {
    has_substring(line, INFERENCE_DONE_MSG@)
}

/// The lines of the log that may report a finished inference, in order; only
/// these are worth reading as JSON.
pub fn inference_lines(content: &str) -> (out: Vec<String>)
    ensures
        out@.map_values(|l: String| l@) == lines_of(content@).filter(
            |l: Seq<char>| mentions_inference_done(l),
        ),
{
    let lines = split_lines(content);
    let marker = chars_of(INFERENCE_DONE_MSG);
    let ghost all = lines@.map_values(|l: String| l@);
    let ghost pred = |l: Seq<char>| mentions_inference_done(l);
    let mut out: Vec<String> = Vec::new();
    let n = lines.len();
    for i in 0..n
        invariant
            n == lines@.len(),
            all == lines@.map_values(|l: String| l@),
            marker@ == INFERENCE_DONE_MSG@,
            pred == (|l: Seq<char>| mentions_inference_done(l)),
            out@.map_values(|l: String| l@) == all.take(i as int).filter(pred),
    {
        let line = chars_of(lines[i].as_str());
        assert(all.take(i + 1).drop_last() == all.take(i as int));
        assert(all.take(i + 1).last() == lines@[i as int]@);
        assert(all.take(i + 1) == all.take(i as int).push(lines@[i as int]@));
        proof {
            all.take(i as int).lemma_filter_push(lines@[i as int]@, pred);
        }
        if contains_chars(line.as_slice(), marker.as_slice()) {
            out.push(lines[i].clone());
            assert(out@.map_values(|l: String| l@) == all.take(i as int).filter(pred).push(
                lines@[i as int]@,
            ));
        }
    }
    assert(all.take(n as int) == all);
    out
}

/// Whether a log line records a finished inference, and if so the session
/// and the inference: the message must be the marker, session and token
/// counts present, the timestamp readable, and some prompt or completion
/// tokens counted (absent counts are zero).
pub open spec fn accepted_inference(line: Option<LogLine>) -> Option<(Seq<char>, LogInference)> {
    match line {
        None => None,
        Some(l) => if l.msg@ != INFERENCE_DONE_MSG@ {
            None
        } else {
            match (l.sid, l.ctx) {
                (Some(sid), Some(ctx)) => match parsed_timestamp(l.ts@) {
                    Some(timestamp) => {
                        let prompt = match ctx.prompt_tokens {
                            Some(t) => t,
                            None => 0,
                        };
                        let completion = match ctx.completion_tokens {
                            Some(t) => t,
                            None => 0,
                        };
                        let cached = match ctx.cached_prompt_tokens {
                            Some(t) => t,
                            None => 0,
                        };
                        if prompt == 0 && completion == 0 {
                            None
                        } else {
                            Some(
                                (
                                    sid@,
                                    LogInference {
                                        timestamp,
                                        timestamp_text: l.ts,
                                        prompt_tokens: prompt,
                                        cached_prompt_tokens: cached,
                                        completion_tokens: completion,
                                    },
                                ),
                            )
                        }
                    },
                    None => None,
                },
                _ => None,
            }
        },
    }
}

/// The inferences by session after reading the given log lines in order.
pub open spec fn collected(
    usage: Map<Seq<char>, Seq<LogInference>>,
    lines: Seq<Option<LogLine>>,
) -> Map<Seq<char>, Seq<LogInference>>
    decreases lines.len(),
{
    if lines.len() == 0 {
        usage
    } else {
        let before = collected(usage, lines.drop_last());
        match accepted_inference(lines.last()) {
            Some((sid, inference)) => with_inference(before, sid, inference),
            None => before,
        }
    }
}

fn accept_line(line: Option<LogLine>) -> (r: Option<(String, LogInference)>)
    ensures
        match r {
            Some((sid, inference)) => accepted_inference(line) == Some((sid@, inference)),
            None => accepted_inference(line) is None,
        },
{
    let parsed = match line {
        Some(parsed) => parsed,
        None => return None,
    };
    let marker = String::from_str(INFERENCE_DONE_MSG);
    if !(parsed.msg == marker) {
        return None;
    }
    let LogLine { ts, sid, msg: _, ctx } = parsed;
    let (sid, ctx) = match (sid, ctx) {
        (Some(sid), Some(ctx)) => (sid, ctx),
        _ => return None,
    };
    let timestamp = match parse_ts_timestamp(ts.as_str()) {
        Some(timestamp) => timestamp,
        None => return None,
    };
    let prompt_tokens = match ctx.prompt_tokens {
        Some(t) => t,
        None => 0,
    };
    let completion_tokens = match ctx.completion_tokens {
        Some(t) => t,
        None => 0,
    };
    if prompt_tokens == 0 && completion_tokens == 0 {
        return None;
    }
    let cached_prompt_tokens = match ctx.cached_prompt_tokens {
        Some(t) => t,
        None => 0,
    };
    Some(
        (
            sid,
            LogInference {
                timestamp,
                timestamp_text: ts,
                prompt_tokens,
                cached_prompt_tokens,
                completion_tokens,
            },
        ),
    )
}

/// Adds the finished inferences that the given log lines record, in order;
/// a line that could not be read as JSON is `None` and is skipped.
pub fn collect_file(usage: &mut LogUsageBySession, lines: Vec<Option<LogLine>>)
    ensures
        final(usage)@ == collected(old(usage)@, lines@),
{
    let ghost start = usage@;
    let ghost all = lines@;
    for line in it: lines
        invariant
            it.seq() == all,
            usage@ == collected(start, all.take(it.index() as int)),
    {
        let ghost i = it.index() as int;
        assert(all.take(i + 1).drop_last() == all.take(i));
        assert(all.take(i + 1).last() == line);
        if let Some((sid, inference)) = accept_line(line) {
            usage.push_inference(sid, inference);
        }
    }
    assert(all.take(all.len() as int) == all);
}

/// The inferences by session that a list of log files records, the files
/// read in order.
pub open spec fn usage_of_files(files: Seq<Vec<Option<LogLine>>>) -> Map<
    Seq<char>,
    Seq<LogInference>,
>
    decreases files.len(),
{
    if files.len() == 0 {
        Map::empty()
    } else {
        collected(usage_of_files(files.drop_last()), files.last()@)
    }
}

/// Gathers the finished inferences of all log files by session; each file is
/// given as its candidate lines, read as JSON where they could be.
pub fn load_inference_usage(files: Vec<Vec<Option<LogLine>>>) -> (usage: LogUsageBySession)
    ensures
        usage@ == usage_of_files(files@),
{
    let mut usage = LogUsageBySession::new();
    let ghost all = files@;
    for file in it: files
        invariant
            it.seq() == all,
            usage@ == usage_of_files(all.take(it.index() as int)),
    {
        let ghost i = it.index() as int;
        assert(all.take(i + 1).drop_last() == all.take(i));
        assert(all.take(i + 1).last() == file);
        collect_file(&mut usage, file);
    }
    assert(all.take(all.len() as int) == all);
    usage
}


/// The inferences of a session, none when it has no entry.
pub open spec fn inferences_of(
    usage: Map<Seq<char>, Seq<LogInference>>,
    sid: Seq<char>,
) -> Seq<LogInference> {
    if usage.contains_key(sid) {
        usage[sid]
    } else {
        seq![]
    }
}

/// Reading lines on top of some inferences adds to each session what the
/// lines alone give it, after what it had.
pub proof fn lemma_collected_appends(
    usage: Map<Seq<char>, Seq<LogInference>>,
    lines: Seq<Option<LogLine>>,
    sid: Seq<char>,
)
    ensures
        inferences_of(collected(usage, lines), sid) == inferences_of(usage, sid) + inferences_of(
            collected(Map::empty(), lines),
            sid,
        ),
    decreases lines.len(),
{
    if lines.len() == 0 {
        assert(inferences_of(usage, sid) + Seq::<LogInference>::empty() == inferences_of(usage, sid));
    } else {
        lemma_collected_appends(usage, lines.drop_last(), sid);
        let before = collected(usage, lines.drop_last());
        let alone = collected(Map::empty(), lines.drop_last());
        match accepted_inference(lines.last()) {
            Some((k, inference)) => {
                if k == sid {
                    assert(inferences_of(with_inference(before, k, inference), sid)
                        == inferences_of(before, sid).push(inference));
                    assert(inferences_of(with_inference(alone, k, inference), sid)
                        == inferences_of(alone, sid).push(inference));
                    assert(inferences_of(usage, sid) + inferences_of(alone, sid).push(inference)
                        == (inferences_of(usage, sid) + inferences_of(alone, sid)).push(inference));
                } else {
                    assert(inferences_of(with_inference(before, k, inference), sid)
                        == inferences_of(before, sid));
                    assert(inferences_of(with_inference(alone, k, inference), sid)
                        == inferences_of(alone, sid));
                }
            },
            None => {},
        }
    }
}

/// Reading two lists of log files one after the other gives each session the
/// inferences of the first list followed by those of the second.
pub proof fn lemma_usage_of_files_concat(
    first: Seq<Vec<Option<LogLine>>>,
    second: Seq<Vec<Option<LogLine>>>,
    sid: Seq<char>,
)
    ensures
        inferences_of(usage_of_files(first + second), sid) == inferences_of(
            usage_of_files(first),
            sid,
        ) + inferences_of(usage_of_files(second), sid),
    decreases second.len(),
{
    if second.len() == 0 {
        assert(first + second == first);
        assert(usage_of_files(second) == Map::<Seq<char>, Seq<LogInference>>::empty());
        assert(inferences_of(usage_of_files(first), sid) + Seq::<LogInference>::empty()
            == inferences_of(usage_of_files(first), sid));
    } else {
        let init = second.drop_last();
        let last = second.last();
        lemma_usage_of_files_concat(first, init, sid);
        assert((first + second).drop_last() == first + init);
        assert((first + second).last() == last);
        lemma_collected_appends(usage_of_files(first + init), last@, sid);
        lemma_collected_appends(usage_of_files(init), last@, sid);
        let a = inferences_of(usage_of_files(first), sid);
        let b = inferences_of(usage_of_files(init), sid);
        let c = inferences_of(collected(Map::empty(), last@), sid);
        assert((a + b) + c == a + (b + c));
    }
}

/// Every session of the usage has at least one inference, and every
/// inference counts some prompt or completion tokens and has a timestamp that
/// is what its text denotes.
pub open spec fn usage_well_formed(usage: Map<Seq<char>, Seq<LogInference>>) -> bool {
    forall|sid: Seq<char>|
        #![trigger usage[sid]]
        usage.contains_key(sid) ==> {
            &&& usage[sid].len() > 0
            &&& forall|i: int|
                0 <= i < usage[sid].len() ==> {
                    let inference = #[trigger] usage[sid][i];
                    &&& (inference.prompt_tokens > 0 || inference.completion_tokens > 0)
                    &&& parsed_timestamp(inference.timestamp_text@) == Some(inference.timestamp)
                }
        }
}

proof fn lemma_collected_well_formed(
    usage: Map<Seq<char>, Seq<LogInference>>,
    lines: Seq<Option<LogLine>>,
)
    requires
        usage_well_formed(usage),
    ensures
        usage_well_formed(collected(usage, lines)),
    decreases lines.len(),
{
    if lines.len() > 0 {
        lemma_collected_well_formed(usage, lines.drop_last());
        let before = collected(usage, lines.drop_last());
        match accepted_inference(lines.last()) {
            Some((k, inference)) => {
                let after = with_inference(before, k, inference);
                assert forall|sid: Seq<char>| #[trigger] after.contains_key(sid) implies {
                    &&& after[sid].len() > 0
                    &&& forall|i: int|
                        0 <= i < after[sid].len() ==> {
                            let inf = #[trigger] after[sid][i];
                            &&& (inf.prompt_tokens > 0 || inf.completion_tokens > 0)
                            &&& parsed_timestamp(inf.timestamp_text@) == Some(inf.timestamp)
                        }
                } by {
                    if sid == k {
                        let old = inferences_of(before, k);
                        assert(after[sid] == old.push(inference));
                        assert forall|i: int| 0 <= i < after[sid].len() implies {
                            let inf = #[trigger] after[sid][i];
                            &&& (inf.prompt_tokens > 0 || inf.completion_tokens > 0)
                            &&& parsed_timestamp(inf.timestamp_text@) == Some(inf.timestamp)
                        } by {
                            if i < old.len() {
                                assert(before.contains_key(k));
                                assert(after[sid][i] == before[k][i]);
                            }
                        }
                    } else {
                        assert(after[sid] == before[sid]);
                    }
                }
            },
            None => {},
        }
    }
}

/// What the log files give: no sessions for no files, and for any files
/// only sessions with inferences, each of which counts some prompt or
/// completion tokens and has the timestamp its text denotes.
pub proof fn lemma_usage_of_files_well_formed(files: Seq<Vec<Option<LogLine>>>)
    ensures
        usage_well_formed(usage_of_files(files)),
        files.len() == 0 ==> usage_of_files(files) == Map::<Seq<char>, Seq<LogInference>>::empty(),
    decreases files.len(),
{
    if files.len() > 0 {
        lemma_usage_of_files_well_formed(files.drop_last());
        lemma_collected_well_formed(usage_of_files(files.drop_last()), files.last()@);
    }
}


/// A log line that records no finished inference changes nothing, wherever it
/// stands: reading `a`, then it, then `b` gives what reading `a` then `b`
/// gives, so every later inference is still gathered.
pub proof fn lemma_rejected_line_is_skipped(
    usage: Map<Seq<char>, Seq<LogInference>>,
    a: Seq<Option<LogLine>>,
    x: Option<LogLine>,
    b: Seq<Option<LogLine>>,
)
    requires
        accepted_inference(x) is None,
    ensures
        collected(usage, a + seq![x] + b) == collected(usage, a + b),
    decreases b.len(),
{
    if b.len() == 0 {
        assert(a + seq![x] + b == a.push(x));
        assert(a.push(x).drop_last() == a);
        assert(a + b == a);
    } else {
        lemma_rejected_line_is_skipped(usage, a, x, b.drop_last());
        let whole = a + seq![x] + b;
        assert(whole.drop_last() == a + seq![x] + b.drop_last());
        assert(whole.last() == b.last());
        assert((a + b).drop_last() == a + b.drop_last());
        assert((a + b).last() == b.last());
    }
}

/// A log line that records a finished inference adds it at the end of its
/// session's inferences, wherever it stands, and leaves other sessions alone.
pub proof fn lemma_accepted_line_is_added(
    usage: Map<Seq<char>, Seq<LogInference>>,
    a: Seq<Option<LogLine>>,
    x: Option<LogLine>,
    sid: Seq<char>,
)
    requires
        accepted_inference(x) is Some,
    ensures
        ({
            let (k, inference) = accepted_inference(x)->0;
            &&& inferences_of(collected(usage, a.push(x)), k) == inferences_of(
                collected(usage, a),
                k,
            ).push(inference)
            &&& sid != k ==> inferences_of(collected(usage, a.push(x)), sid) == inferences_of(
                collected(usage, a),
                sid,
            )
            &&& collected(usage, a.push(x)).contains_key(k)
        }),
{
    assert(a.push(x).drop_last() == a);
}

} // verus!
