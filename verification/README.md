# project_memory

Context-aware project memory for AI agents: a store of conventions, patterns,
decisions, preferences and context that a project keeps, with a command-line tool
(`pmem`), an MCP server, a REST API, a web dashboard and a terminal browser.

## Layout

- `src/` — the library, written in Verus. Every function carries a contract
  (`requires` / `ensures`) over plain mathematical values (`Seq`, `Map`, `int`) and
  is proved against it: the in-memory store and its audit log, search and
  filtering, validation and analytics counts, imports (markdown, code comments,
  Obsidian, Notion CSV), exports (Markdown, HTML, CSV, DOT), snapshots and diffs,
  duplicate merging, sync, the memory graph (paths, components, hubs), the
  terminal browser's state machine, the dashboard page and the replies of the
  assistant's tools. Calls into outside crates (time, ids, lower-casing, JSON,
  hex, AES-GCM, PBKDF2, random bytes) go through small trusted wrappers whose
  doc comments say what is assumed of them.
- `tests/` — tests of the library on concrete values.
- `app/` — the program around the library: argument parsing, the SQLite file,
  files under `.memory/`, terminal and HTTP servers, webhook delivery, and the
  fuzzy scoring that works with floating-point similarity.
