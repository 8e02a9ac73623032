# schildpad_core

The core of Schildpad (the *Maak* language): a strict, deterministic interpreter for a tiny
Dutch turtle language, written in Verus. The core owns no device: it compiles a program,
executes it one line at a time under a step/play/pause/loop transport, and emits a stream of
events (plots, text, sounds, errors) that a host renders.

## Layout

- `src/` — the verified library
  - `number.rs` — `Getal`, an exact rational number (fraction in lowest terms)
  - `text.rs` — character helpers, decimal printing, white-space trimming
  - `vocab.rs` — the vocabulary: verbs and their typed slots, colours, notes, constants
  - `lexer.rs` — the tokenizer, specified character by character
  - `highlight.rs` — editor colour spans
  - `error.rs` — errors and their exact Dutch sentences
  - `value.rs`, `env.rs` — runtime values and the case-insensitive binding environment
  - `resolve.rs` — dynamic names such as `a-'i`
  - `expr.rs` — expressions (exact arithmetic with normal precedence, text concatenation)
  - `frame.rs` — free-order typed-slot resolution and verb-bound `random`
  - `fixed.rs`, `rng.rs` — fixed-point turtle geometry and the seeded generator
  - `program.rs` — compilation into indentation-delimited blocks
  - `engine.rs` — the machine: `load`, `reset`, `step`, `run_line`, `sprites`
  - `json.rs` — the flat JSON event schema hosts read
  - `ascii.rs` — a terminal view of a run
- `tests/` — behaviour tests
- `app/` — the command-line runner (`main.rs`) and the C ABI for native hosts (`capi.rs`)
