# llm-lint

Static checks for "LLM slop" and related drift: oversized files and functions,
duplicate function bodies, generic helper files and versioned helper names,
silent environment fallbacks, and secret-shaped strings. Settings come from the
built-in defaults, `llm-lint.toml` or `llm-lint.json` at the scan root, and the
command line.

## Layout

- `src/` — the library, written in Verus. Every function carries a contract.
  All are proved against their contracts except the small functions marked
  `#[verifier::external_body]` that make a call into `regex`, `sha2`,
  `tree-sitter`, `textwrap` or a std string function (`String::push`, `str::to_lowercase`,
  `String::from_utf8_lossy`): their contracts are trusted, not proved, and each
  one's doc comment says what it claims.
  - `config` — defaults, the file overlay and command-line overrides.
  - `scanner` — which rules run, file contexts, the aggregated result.
  - `rules/` — the six rules; `line_rule` is the engine shared by the two
    line-pattern rules.
  - `parsers/` — function discovery for Python (tree-sitter) and for other text
    (line patterns and brace matching).
  - `walker`, `git_scope` — which files are scanned, from a directory walk or
    from `git diff` output.
  - `report`, `cli`, `scoring` — grouping and ordering of the terminal report,
    command-line decisions, total score and status.
  - `text`, `paths`, `grouping` — string, path and ordering helpers with their
    mathematical models.
  - `pattern`, `digest` — regular expressions (`regex`) and SHA-256 (`sha2`).
- `app/` — the `llm-lint` command: argument parsing, reading files and
  configuration, running git, and printing tables or JSON.
- `tests/` — tests of the library on concrete inputs.

## Usage

```bash
llm-lint scan .
llm-lint scan . -f json --fail-threshold 20
llm-lint scan . -v --max-file-lines 300
llm-lint scan . --changed-since main
```
