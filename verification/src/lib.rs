//! ledger_core: the deterministic engine of an offline spreadsheet/PDF assistant.
//! The language model only plans; every number is computed here with exact decimals.
//!
//! Layout:
//!   - `dec`        exact decimal numbers (arithmetic by `rust_decimal`)
//!   - `text`       string helpers: trimming, case folding, searching, ordering
//!   - `json`       JSON values for tool arguments and results
//!   - `mathexpr`   safe decimal expression parser/evaluator
//!   - `workspace`  loaded files, derived result tables, source-file protection
//!   - `audit`      append-only journal of tool calls
//!   - `tools`      tool schemas + validated, deterministic implementations
//!   - `ollama`     chat messages exchanged with the local model
//!   - `orchestrator` the agent turn: model reply -> tool calls -> results -> answer

pub mod dec;
pub mod text;
pub mod json;
pub mod mathexpr;
pub mod cells;
pub mod smap;
pub mod ingest;
pub mod audit;
pub mod workspace;
pub mod tools;
pub mod ollama;
pub mod orchestrator;
pub mod desk;
pub mod laws;
pub mod value_laws;

pub use cells::{Cell, Table, CoreError, parse_decimal_lenient, row_to_json};
