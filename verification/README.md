# rig

Version control for large binary assets. Each artifact (file) has its own
revision history on the server and an exclusive lock: a user locks an
artifact, edits it, commits locally and pushes, and the push stores a new
revision and releases the lock. Clones start with 0-byte read-only
placeholders; `rig pull` downloads payloads on demand.

## Layout

- `src/` — the verified library (Verus). Every function carries a contract
  over mathematical models (`Seq`, `Map`, views of the records), and the
  properties that span operations are proved in `src/laws.rs`.
  - `protocol` — the records exchanged and stored: artifacts, revisions,
    commits, the client index and the server index.
  - `table` — `StrMap`, the string-keyed table the indexes use.
  - `text` — string operations with their specifications (paths, decimal and
    hexadecimal text, trimming, parsing).
  - `codec` — SHA-1, base64, gzip, UUIDs and bcrypt, each behind one small
    trusted function.
  - `server` — the artifact store: locks (refused to out-of-date copies),
    revisions, the check of every pushed file (lock holder, base revision,
    content hash, free path) before anything is stored, commit ids.
  - `files` — the server's directory listing.
  - `access` — bearer tokens, force-unlock and deletion rights, passwords.
  - `workspace` — staging, moving, branch switches, stashes, status, commits.
  - `sync` — clone, fetch, push and pull as functions of what was read.
  - `history`, `modules`, `replies`, `repository`, `credentials` — log and
    blame lines, git modules, the client's reading of server replies, the
    `.rig` layout and stored tokens.
  - `laws` — lock exclusivity, history well-formedness, push-to-pull
    round trip, placeholders after clone and checkout, and more.
- `tests/` — tests of the library on concrete values.
- `app/` — the program around the library: the command line, file and
  network I/O, the HTTP server and the database, and the JSON forms of the
  records.
