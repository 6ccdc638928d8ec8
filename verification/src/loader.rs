//! Loading all sessions: read each session's entries, then order them all by
//! time.

use vstd::prelude::*;
use crate::time::TimestampMs;
use crate::logs::LogUsageBySession;
use crate::session::{
    GrokSignals, GrokSummary, LoadedEntry, read_session, session_entries, session_is_readable,
    session_readable,
};

verus! {

/// Entries at the given time.
pub open spec fn at_time(t: TimestampMs) -> spec_fn(LoadedEntry) -> bool {
    |e: LoadedEntry| e.timestamp == t
}

/// Entries in order of time.
pub open spec fn sorted_by_time(s: Seq<LoadedEntry>) -> bool {
    forall|i: int, j: int| 0 <= i <= j < s.len() ==> s[i].timestamp.0 <= s[j].timestamp.0
}

/// `output` is `input` sorted by time, entries at the same time kept in the
/// order they had.
pub open spec fn stable_time_sort(input: Seq<LoadedEntry>, output: Seq<LoadedEntry>) -> bool {
    &&& sorted_by_time(output)
    &&& forall|t: TimestampMs| output.filter(at_time(t)) == input.filter(at_time(t))
}

proof fn lemma_count_in_filter(s: Seq<LoadedEntry>, e: LoadedEntry)
    ensures
        s.filter(at_time(e.timestamp)).to_multiset().count(e) == s.to_multiset().count(e),
    decreases s.len(),
{
    broadcast use vstd::seq_lib::group_to_multiset_ensures, vstd::multiset::group_multiset_axioms;

    let pred = at_time(e.timestamp);
    if s.len() == 0 {
        Seq::<LoadedEntry>::empty().lemma_all_neg_filter_empty(pred);
        assert(s.filter(pred) == Seq::<LoadedEntry>::empty());
        assert(s == Seq::<LoadedEntry>::empty());
        assert(!s.contains(e));
        assert(!s.filter(pred).contains(e));
    } else {
        let init = s.drop_last();
        lemma_count_in_filter(init, e);
        assert(s == init.push(s.last()));
        init.lemma_filter_push(s.last(), pred);
    }
}

/// Sorting by time loses and duplicates nothing: the sorted entries are a
/// permutation of the entries sorted.
pub proof fn lemma_time_sort_is_permutation(input: Seq<LoadedEntry>, output: Seq<LoadedEntry>)
    requires
        stable_time_sort(input, output),
    ensures
        output.to_multiset() == input.to_multiset(),
{
    assert forall|e: LoadedEntry| output.to_multiset().count(e) == input.to_multiset().count(e) by {
        lemma_count_in_filter(output, e);
        lemma_count_in_filter(input, e);
    }
    assert(output.to_multiset() =~= input.to_multiset());
}

/// The entries of `v` from the last to the first.
fn reversed(v: Vec<LoadedEntry>) -> (r: Vec<LoadedEntry>)
    ensures
        r@.len() == v@.len(),
        forall|k: int| 0 <= k < v@.len() ==> #[trigger] r@[k] == v@[v@.len() - 1 - k],
{
    let ghost orig = v@;
    let n = v.len();
    let mut v = v;
    let mut r: Vec<LoadedEntry> = Vec::new();
    while v.len() > 0
        invariant
            n == orig.len(),
            v@ == orig.take(v@.len() as int),
            r@.len() == n - v@.len(),
            forall|k: int| 0 <= k < r@.len() ==> #[trigger] r@[k] == orig[n - 1 - k],
        decreases v@.len(),
    {
        let x = v.pop().unwrap();
        r.push(x);
    }
    r
}

/// Merges two runs sorted by time into one, taking from the first run while
/// its next entry is not later than the second's.
fn merge(left: Vec<LoadedEntry>, right: Vec<LoadedEntry>) -> (out: Vec<LoadedEntry>)
    requires
        sorted_by_time(left@),
        sorted_by_time(right@),
    ensures
        stable_time_sort(left@ + right@, out@),
{
    let ghost l = left@;
    let ghost r = right@;
    let mut ls = reversed(left);
    let mut rs = reversed(right);
    let mut out: Vec<LoadedEntry> = Vec::new();
    let ghost mut i: int = 0;
    let ghost mut j: int = 0;
    assert forall|t: TimestampMs| out@.filter(at_time(t)) == l.take(0).filter(at_time(t)) + r.take(
        0,
    ).filter(at_time(t)) by {
        Seq::<LoadedEntry>::empty().lemma_all_neg_filter_empty(at_time(t));
        assert(l.take(0) == Seq::<LoadedEntry>::empty());
        assert(r.take(0) == Seq::<LoadedEntry>::empty());
    }
    while ls.len() > 0 || rs.len() > 0
        invariant
            0 <= i <= l.len(),
            0 <= j <= r.len(),
            ls@.len() == l.len() - i,
            rs@.len() == r.len() - j,
            forall|k: int| 0 <= k < ls@.len() ==> #[trigger] ls@[k] == l[l.len() - 1 - k],
            forall|k: int| 0 <= k < rs@.len() ==> #[trigger] rs@[k] == r[r.len() - 1 - k],
            sorted_by_time(l),
            sorted_by_time(r),
            sorted_by_time(out@),
            forall|t: TimestampMs|
                #[trigger] out@.filter(at_time(t)) == l.take(i).filter(at_time(t)) + r.take(
                    j,
                ).filter(at_time(t)),
            forall|a: int, b: int|
                0 <= a < j && i <= b < l.len() ==> #[trigger] r[a].timestamp.0
                    < #[trigger] l[b].timestamp.0,
            forall|k: int, b: int|
                0 <= k < out@.len() && i <= b < l.len() ==> #[trigger] out@[k].timestamp.0
                    <= #[trigger] l[b].timestamp.0,
            forall|k: int, b: int|
                0 <= k < out@.len() && j <= b < r.len() ==> #[trigger] out@[k].timestamp.0
                    <= #[trigger] r[b].timestamp.0,
        decreases ls@.len() + rs@.len(),
    {
        let take_left = if ls.len() == 0 {
            false
        } else if rs.len() == 0 {
            true
        } else {
            ls[ls.len() - 1].timestamp.0 <= rs[rs.len() - 1].timestamp.0
        };
        let ghost before = out@;
        if take_left {
            let x = ls.pop().unwrap();
            assert(x == l[i]);
            assert(l.take(i + 1) == l.take(i).push(x));
            assert forall|t: TimestampMs| #[trigger] before.push(x).filter(at_time(t)) == l.take(
                i + 1,
            ).filter(at_time(t)) + r.take(j).filter(at_time(t)) by {
                let p = at_time(t);
                before.lemma_filter_push(x, p);
                l.take(i).lemma_filter_push(x, p);
                if t == x.timestamp {
                    assert(r.take(j).all(|e: LoadedEntry| !p(e))) by {
                        assert forall|a: int| 0 <= a < r.take(j).len() implies !p(
                            r.take(j)[a],
                        ) by {
                            assert(r[a].timestamp.0 < l[i].timestamp.0);
                        }
                    }
                    r.take(j).lemma_all_neg_filter_empty(p);
                    assert(r.take(j).filter(p) == Seq::<LoadedEntry>::empty());
                    assert(l.take(i).filter(p) + r.take(j).filter(p) == l.take(i).filter(p));
                    assert(l.take(i).filter(p).push(x) + r.take(j).filter(p) == l.take(i).filter(
                        p,
                    ).push(x));
                }
            }
            out.push(x);
            proof {
                i = i + 1;
                assert forall|b: int| j <= b < r.len() implies x.timestamp.0
                    <= #[trigger] r[b].timestamp.0 by {
                    if rs@.len() > 0 {
                        assert(r[j].timestamp.0 <= r[b].timestamp.0);
                    }
                }
            }
        } else {
            let y = rs.pop().unwrap();
            assert(y == r[j]);
            assert(r.take(j + 1) == r.take(j).push(y));
            assert forall|t: TimestampMs| #[trigger] before.push(y).filter(at_time(t)) == l.take(
                i,
            ).filter(at_time(t)) + r.take(j + 1).filter(at_time(t)) by {
                let p = at_time(t);
                before.lemma_filter_push(y, p);
                r.take(j).lemma_filter_push(y, p);
            }
            out.push(y);
            proof {
                assert forall|b: int| i <= b < l.len() implies y.timestamp.0
                    < #[trigger] l[b].timestamp.0 by {
                    assert(l[i].timestamp.0 <= l[b].timestamp.0);
                }
                j = j + 1;
            }
        }
    }
    assert(l.take(i) == l);
    assert(r.take(j) == r);
    assert forall|t: TimestampMs| out@.filter(at_time(t)) == (l + r).filter(at_time(t)) by {
        Seq::filter_distributes_over_add(l, r, at_time(t));
    }
    out
}

/// Sorts entries by time, keeping entries at the same time in their order
/// (a merge sort, stable as `sort_by_key` is).
pub fn sort_by_timestamp(entries: Vec<LoadedEntry>) -> (out: Vec<LoadedEntry>)
    ensures
        stable_time_sort(entries@, out@),
    decreases entries@.len(),
{
    let n = entries.len();
    if n <= 1 {
        return entries;
    }
    let ghost input = entries@;
    let mut left = entries;
    let right = left.split_off(n / 2);
    assert(input == left@ + right@);
    let sorted_left = sort_by_timestamp(left);
    let sorted_right = sort_by_timestamp(right);
    let ghost sl = sorted_left@;
    let ghost sr = sorted_right@;
    let out = merge(sorted_left, sorted_right);
    assert forall|t: TimestampMs| out@.filter(at_time(t)) == input.filter(at_time(t)) by {
        Seq::filter_distributes_over_add(sl, sr, at_time(t));
        Seq::filter_distributes_over_add(left@, right@, at_time(t));
    }
    out
}

/// What the files of one session hold: the path of its `signals.json`, the
/// signals (`None` when not valid), the summary (empty when missing or not
/// valid) and the modification time of `signals.json` in milliseconds since
/// the epoch, when the file system tells it.
#[derive(Debug)]
pub struct SessionFiles {
    pub signals_path: String,
    pub signals: Option<GrokSignals>,
    pub summary: GrokSummary,
    pub modified_ms: Option<u128>,
}

/// Reading this session runs to completion.
pub open spec fn files_readable(
    files: SessionFiles,
    usage: Map<Seq<char>, Seq<crate::logs::LogInference>>,
) -> bool {
    session_readable(files.signals_path@, files.signals, files.summary, usage)
}

/// The entries of several sessions, one after the other.
pub open spec fn concat_all(parts: Seq<Seq<LoadedEntry>>) -> Seq<LoadedEntry>
    decreases parts.len(),
{
    if parts.len() == 0 {
        seq![]
    } else {
        concat_all(parts.drop_last()) + parts.last()
    }
}

/// `entries` are the entries of all the sessions, each session's as
/// `session_entries` describes them, sorted by time with entries at the same
/// time in session order and then in their order within the session.
pub open spec fn loaded_from(
    sessions: Seq<SessionFiles>,
    usage: Map<Seq<char>, Seq<crate::logs::LogInference>>,
    tz: Option<&jiff::tz::TimeZone>,
    entries: Seq<LoadedEntry>,
) -> bool {
    exists|parts: Seq<Seq<LoadedEntry>>|
        {
            &&& parts.len() == sessions.len()
            &&& forall|i: int|
                0 <= i < sessions.len() ==> session_entries(
                    sessions[i].signals_path@,
                    sessions[i].signals,
                    sessions[i].summary,
                    sessions[i].modified_ms,
                    usage,
                    tz,
                    #[trigger] parts[i],
                )
            &&& stable_time_sort(concat_all(parts), entries)
        }
}

/// Reads every session and orders all their entries by time.
pub fn load_entries_inner(
    sessions: Vec<SessionFiles>,
    tz: Option<&jiff::tz::TimeZone>,
    log_usage: &LogUsageBySession,
) -> (entries: Vec<LoadedEntry>)
    requires
        forall|i: int| 0 <= i < sessions@.len() ==> files_readable(#[trigger] sessions@[i], log_usage@),
    ensures
        loaded_from(sessions@, log_usage@, tz, entries@),
{
    let ghost input = sessions@;
    let ghost mut parts: Seq<Seq<LoadedEntry>> = seq![];
    let mut all: Vec<LoadedEntry> = Vec::new();
    for files in it: sessions
        invariant
            it.seq() == input,
            forall|i: int| 0 <= i < input.len() ==> files_readable(#[trigger] input[i], log_usage@),
            parts.len() == it.index(),
            forall|i: int|
                0 <= i < parts.len() ==> session_entries(
                    input[i].signals_path@,
                    input[i].signals,
                    input[i].summary,
                    input[i].modified_ms,
                    log_usage@,
                    tz,
                    #[trigger] parts[i],
                ),
            all@ == concat_all(parts),
    {
        let ghost i = it.index() as int;
        assert(files == input[i]);
        assert(files_readable(input[i], log_usage@));
        let SessionFiles { signals_path, signals, summary, modified_ms } = files;
        let mut part = read_session(
            signals_path.as_str(),
            signals,
            summary,
            modified_ms,
            tz,
            log_usage,
        );
        proof {
            let old_parts = parts;
            parts = parts.push(part@);
            assert(parts.drop_last() == old_parts);
        }
        all.append(&mut part);
    }
    let sorted = sort_by_timestamp(all);
    assert(loaded_from(sessions@, log_usage@, tz, sorted@));
    sorted
}

/// Reads every session and orders all their entries by time, or gives
/// nothing when some session cannot be read to completion (its time cannot
/// be normalized, or its logged tokens overflow).
pub fn load_entries(
    sessions: Vec<SessionFiles>,
    tz: Option<&jiff::tz::TimeZone>,
    log_usage: &LogUsageBySession,
) -> (entries: Option<Vec<LoadedEntry>>)
    ensures
        entries is Some <==> forall|i: int|
            0 <= i < sessions@.len() ==> files_readable(#[trigger] sessions@[i], log_usage@),
        entries matches Some(e) ==> loaded_from(sessions@, log_usage@, tz, e@),
{
    let n = sessions.len();
    for i in 0..n
        invariant
            n == sessions@.len(),
            forall|j: int| 0 <= j < i ==> files_readable(#[trigger] sessions@[j], log_usage@),
    {
        let files = &sessions[i];
        if !session_is_readable(
            files.signals_path.as_str(),
            &files.signals,
            &files.summary,
            log_usage,
        ) {
            return None;
        }
    }
    Some(load_entries_inner(sessions, tz, log_usage))
}

} // verus!
