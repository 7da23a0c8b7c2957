# agents-viewer

A read-only viewer for local Codex session rollouts, with its core written
in Verus and verified.

- `src/` is the verified library: reading rollout files into bounded JSONL
  records and checkpoints (from the start, or resumed from a stored seed),
  decoding each record as JSON and as an envelope,
  normalizing records into conversation entries, deduplicating streamed
  entries, deriving session records, discovering source files, deciding
  what a reconciliation pass marks missing, brings back and scans, what the
  scheduler does after a full discovery or with changed paths, and how the
  coordinator's loop answers its signals and backs off recovery sweeps,
  which window and event size an existing index keeps, checking search
  requests and the listen address, the replay ring of server-sent events,
  scheduling index reads, arranging sessions into groups, and decoding and
  shaping the HTTP API's queries and pages. Calls into outside crates (serde_json,
  sha2, chrono, uuid, base64, memchr, unicode-segmentation) and into std's
  text and path functions stand behind small trusted wrappers whose
  contracts say what those functions do.
- `tests/` exercises the library on concrete inputs.
- `app/` is the command-line program around it: it loads the configuration,
  prepares the private cache directories, walks the source roots and prints
  one JSON line per session as the library reads it; it also turns page
  cursors into JSON and back around the library's checks.
