# peekr

A Docker log and stats viewer: a hub serves a web UI and an HTTP API for the
local Docker daemon, and remote agents connect to the hub over WebSocket to
serve theirs.

- `src/` is the verified library: sessions and passwords (`auth`, with the
  token payload codec in `claims_json`), the request bookkeeping between hub
  and agents (`agents`, `protocol`), host listing (`hosts`), log line
  splitting (`logs`), container listings (`containers`), stats figures
  (`stats`), the UI asset rules (`assets`), and small helpers (`text`,
  `random`, `clock`, `api`). Every function carries a contract that Verus
  proves.
- `app/` is the program around it: the axum routes, SQLite, the Docker client,
  the WebSocket plumbing of hub and agent (`peekr agent`), and the wire forms
  of the library's types.
- `tests/` exercises the library with the real outside crates linked.
