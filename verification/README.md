# ccusage_grok

Loads Grok Build token usage and turns it into usage entries, with the
logic verified by Verus.

Grok Build keeps, per session, `signals.json` (durable context totals) and
`summary.json` (metadata) under `sessions/<encoded-cwd>/<session-id>/`, and a
short-lived per-request log in `logs/unified.jsonl`. A session that the log
covers becomes one entry per inference (input is the non-cached prompt, cache
reads the cached prompt, output the completion), plus one entry for the part
of the session total the log does not cover; a session the log does not cover
becomes one entry that carries the total alone. No session reports fewer
tokens than its `signals.json`.

Layout:

- `src/text.rs`: lines, substrings, white space and trimming on characters.
- `src/time.rs`: timestamps through jiff, and the repair of timestamps whose
  fraction is too long.
- `src/paths.rs`: percent-decoding and what a session path tells.
- `src/logs.rs`: the inference log, gathered by session.
- `src/session.rs`: session records and their usage entries.
- `src/loader.rs`: all sessions, ordered by time.
- `app/`: finding and reading the files, JSON deserialization, time zone
  lookup.
