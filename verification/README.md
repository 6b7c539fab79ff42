# mend

The deterministic core of an LLM-driven source editing tool, written in Verus.

A completion backend is asked to explain, edit, fix or write tests for one Rust
file. The library builds the prompt from the file's public structure and
imports, reads the answer in one of three edit formats (search/replace blocks,
unified-diff hunks, fenced whole-file bodies), checks and applies the edits,
and renders the outcome as a coloured diff, as the new file text, or as a JSON
result. The library's functions carry contracts proved by Verus; where a
completion backend answers, a contract states the prompt sent and what is made
of whatever answer comes back.

Layout:

- `src/` — the verified library, one module per concern: `cli` and `config`
  (the command line and settings), `syntax`, `imports`, `structure`, `context`,
  `budget` and `prompt` (building prompts), `dispatch`, `search_replace`,
  `unified_diff`, `diff_round_trip` and `fenced` (reading answers), `match_exact`, `match_fuzzy`,
  `apply` and `conflict` (locating and applying edits), `render_diff`,
  `json_result` and `dispatch_output` (presenting outcomes), `edit`,
  `explain`, `fix`, `test_cmd` and `route` (the subcommands), `mock` and
  `http_completer` (completion backends, with `Backend` and `Recorded` in the
  crate root for backends written outside the library), and `text`, `decimal`, `quoting`
  (shared text primitives).
- `app/` — the program around the library: reading files and the environment,
  talking to the network, writing results, and the floating-point score of the
  whitespace-tolerant matcher.
- `tests/` — executable tests of the library.

Parsing Rust source is delegated to `syn`; the library states what it reads
from syn's result and proves the extraction built on it.
