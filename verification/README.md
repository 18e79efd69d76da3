# hashedbuild

A reproducible build system driven by a small functional language. Files a
program writes are stored under the hash of what was written, so the same
input always lands at the same path.

## Layout

- `src/` — the library, verified with Verus:
  - `data.rs` — values, their total order, mappings kept sorted by key, and
    the bytes hashed for each value;
  - `fs_entry.rs` — what was found at a path and the bytes hashed for it
    (directory children in the order of their names);
  - `sha256_hash.rs`, `runtime.rs` — SHA-256 and the store paths;
  - `ast.rs` — the syntax tree; `tree_sitter.rs` — reading the parser's
    concrete syntax tree into it; `text.rs` — small text utilities;
  - `eval.rs` — the evaluator; `effects.rs` — the effects it asks for and the
    journal of their outcomes;
  - `paths.rs`, `store_dir.rs`, `cli.rs`, `scheme.rs` — where the store lives,
    making sure it exists, and the command line as data.
- `app/` — the command line program: parsing, the file system, the prompt.
- `tests/` — tests of the library.

## Effects

Evaluation never touches the file system. When it needs an effect it looks
for the outcome in a journal; when the journal does not have it, evaluation
stops and names the effect. The program performs it, records the outcome and
evaluates again. Recording more outcomes never changes an evaluation that
finished (`law_journal_extension`), and when each recorded outcome answers
what the evaluation asked for, every evaluation uses all of them
(`law_journal_progress`).
