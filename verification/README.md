# LunarZero

The decisions of a coding agent for the terminal, as a verified library, and the
program around it.

* `src/` is the library. Every function states what it does, and Verus proves it.
  * Sessions: `intake` (prompts and their parts), `run_loop` (the steps of a
    session), `runner` (what a step needs, when the context is full), `session`
    (histories), `title`, `task` (subagents), `shared` (what tasks share),
    `engine` (what binds them).
  * Models: `provider`, `router` and `usage` (limits, cooldowns, picks),
    `routing`, `pool`, `auth`, `double` (the double arithmetic that a limit goes
    by).
  * Permissions: `permission`, `wildcard`.
  * Source: `symbols` and `index` (definitions and who mentions them), `edit`
    (edits and diffs), `lsp` (language servers).
  * The rest: `mcp_install`, `panels`, `web`, `paths`, `config`.
  * Foundations: `text`, `path`, `table`, `sort`, `json`.
* `tests/` runs the library on concrete values.
* `app/` is `lz`, the command line: files, processes, the network and the screen.

What the library takes from other crates stands behind small wrappers, whose
contracts are believed: regular expressions, JSON, diffs, syntax trees and shared
maps.
