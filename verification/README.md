# titanium

The verified core of Titanium, a single-binary web runtime: file-based
routing, component files with a script part and a template part, sessions
with flash messages and CSRF tokens, an in-memory TTL cache, a pub/sub hub,
a job queue, rate limiting, WebSocket and cluster bookkeeping, SQL building
for SQLite, media helpers, a local AI assistant, and the HTTP server's
decisions.

Layout:

- `src/` — the library, written in Verus. Each public function states what
  it returns or changes in its `ensures`; the `law_*` proof functions state
  properties that span several calls (a session reads back what was set, a
  flash message is read once, a cache entry lives for its TTL, a trailing
  slash does not change routing, streamed chunks add up to the reply, the
  rate limiter never lets more than its limit through in any window, the
  job counters and a topic's history follow every run of calls, and so
  on). Calls into other crates go through a few small trusted wrappers,
  each documented with what it claims. The string-keyed maps of the
  runtime (sessions, cache, topics, rate-limit windows, channels) are a
  `KeyMap`, a vector of entries with distinct keys: vstd's specification of
  `std::collections::HashMap` holds only for key types that it knows obey
  its key model, and `String` is not among them, so nothing could be proved
  of a `HashMap<String, _>` without an assumption.
- `tests/` — tests that run the compiled library on concrete values.
- `app/` — the `titanium` program: command line, HTTP server, SQLite, the
  script runtime and the template engine, built around the library. The
  clock, the file system and the network are read here and handed to the
  library as plain values.
