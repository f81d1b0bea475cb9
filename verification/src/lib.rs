//! Build-stamped parity verdicts, measured against a corpus denominator.
//!
//! Parity results from cross-backend comparisons are normalised into history
//! entries stamped with a server build id ([`store`]), kept in an append-only
//! JSONL history ([`jsonl`]), and measured against a fixed corpus of
//! (measure, backend-pair) cells ([`corpus`]): coverage per build and deltas
//! between builds ([`summary`]).

pub mod corpus;
pub mod digest;
pub mod history;
pub mod jsonl;
pub mod render;
pub mod laws;
pub mod store;
pub mod summary;
pub mod text;

pub use corpus::{Corpus, CorpusCase};
pub use history::{HistoryEntry, PairKey, PairRecord, ParsedVerdict, Timestamp, SCHEMA_VERSION};
pub use jsonl::history_lines;
pub use store::{
    normalise_input, InputReport, LiveHarnessCase, OverallVerdictInput, PairVerdictInput,
    ParityReportInput,
};
pub use summary::{coverage_summary, delta_summary, CoverageStatus, CoverageSummary, DeltaSummary};
