# ledger_core

The deterministic engine of Ledger Local, an offline assistant for
spreadsheets and PDFs driven by a local language model. The model only plans,
by calling tools; every number is computed here with exact decimals, and the
engine's behaviour is stated in `requires` / `ensures` contracts proved by
Verus.

## Layout

- `src/` — the verified library.
  - `dec`: exact decimals (arithmetic by `rust_decimal`, with the exactness of
    sums and products stated).
  - `text`, `json`, `smap`: strings, JSON values with sorted keys, sorted maps.
  - `cells`: cells, tables, lenient number parsing, the error type and its texts.
  - `mathexpr`: the decimal expression lexer, parser and evaluator.
  - `ingest`: CSV text, spreadsheet grids, workbooks, file types, PDF text.
  - `workspace`, `audit`: loaded files, derived results (`r1`, `r2`, ...),
    source-file protection, the numbered journal, the viewer's table views.
  - `tools`: the tools the model calls (`filter_rows`, `aggregate`,
    `sort_rows`, `compute_column`, `calculate`, `export_xlsx`, the PDF tools,
    ...) and their definitions; dispatching and journaling a call.
  - `ollama`, `orchestrator`, `desk`: chat messages, the decisions of an agent
    turn (bounded rounds, answers, tool results), what the desktop shell shows.
  - `laws`: properties that span several functions.
- `tests/`: tests of the library, run against the real outside crates.
- `app/`: plain Rust around the library: reading files (calamine, CSV text, PDF
  text through pdf-extract), writing exports (rust_xlsxwriter), the HTTP client for the model
  server (reqwest), the agent loop, the desktop shell's commands.
