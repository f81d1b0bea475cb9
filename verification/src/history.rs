//! The history store schema: one entry per recorded run.

use vstd::prelude::*;

verus! {

/// Current schema version carried on every history entry.
pub const SCHEMA_VERSION: u32 = 1;

/// The normalised verdict for one (measure, backend-pair).
#[derive(Debug, Clone, Copy, PartialEq, Eq, Structural)]
pub enum ParsedVerdict {
    /// Both backends returned results that agree (Equal or WithinTolerance).
    Verified,
    /// Backends disagree beyond tolerance.
    Mismatch,
    /// This pair was skipped: one or both backends did not execute.
    Skipped,
}

impl ParsedVerdict {
    /// A verdict is evidence when it is `Verified` or `Mismatch`.
    pub open spec fn spec_is_evidence(self) -> bool {
        self is Verified || self is Mismatch
    }

    /// Returns `true` if this verdict contributes evidence (verified or mismatch).
    pub fn is_evidence(&self) -> (r: bool)
        ensures
            r == self.spec_is_evidence(),
    {
        match self {
            ParsedVerdict::Verified | ParsedVerdict::Mismatch => true,
            ParsedVerdict::Skipped => false,
        }
    }
}

/// The view of a (measure, backend_a, backend_b) key.
pub type KeyView = (Seq<char>, Seq<char>, Seq<char>);

/// A UTC instant: whole seconds since the Unix epoch and the nanoseconds past
/// that second (past 999,999,999 only during a leap second).
#[derive(Debug, Clone, Copy, PartialEq, Eq, Structural)]
pub struct Timestamp {
    /// Seconds since 1970-01-01T00:00:00Z.
    pub secs: i64,
    /// Nanoseconds past `secs`.
    pub nanos: u32,
}

impl Timestamp {
    /// `self` is at or before `other` in time.
    pub open spec fn spec_at_or_before(self, other: Timestamp) -> bool {
        self.secs < other.secs || (self.secs == other.secs && self.nanos <= other.nanos)
    }

    /// Returns whether `self` is at or before `other` in time.
    pub fn at_or_before(&self, other: &Timestamp) -> (r: bool)
        ensures
            r == self.spec_at_or_before(*other),
    {
        self.secs < other.secs || (self.secs == other.secs && self.nanos <= other.nanos)
    }
}

/// One (measure, backend_a, backend_b) parity result within a history entry.
#[derive(Debug, Clone)]
pub struct PairRecord {
    /// The measure unique-name.
    pub measure: String,
    /// First backend in the pair.
    pub backend_a: String,
    /// Second backend in the pair.
    pub backend_b: String,
    /// The normalised verdict for this (measure, pair).
    pub verdict: ParsedVerdict,
    /// The raw `PairVerdict` discriminant from the source report (for debugging).
    pub raw_pair_verdict: String,
    /// The `OverallVerdict` of the source report (for context).
    pub raw_overall_verdict: String,
}

/// The view of a pair record.
pub struct PairRecordView {
    /// The measure unique-name.
    pub measure: Seq<char>,
    /// First backend.
    pub backend_a: Seq<char>,
    /// Second backend.
    pub backend_b: Seq<char>,
    /// The normalised verdict.
    pub verdict: ParsedVerdict,
    /// The raw pair verdict discriminant.
    pub raw_pair_verdict: Seq<char>,
    /// The raw overall verdict discriminant.
    pub raw_overall_verdict: Seq<char>,
}

impl View for PairRecord {
    type V = PairRecordView;

    open spec fn view(&self) -> PairRecordView {
        PairRecordView {
            measure: self.measure@,
            backend_a: self.backend_a@,
            backend_b: self.backend_b@,
            verdict: self.verdict,
            raw_pair_verdict: self.raw_pair_verdict@,
            raw_overall_verdict: self.raw_overall_verdict@,
        }
    }
}

/// The views of a sequence of pair records.
pub open spec fn record_views(ps: Seq<PairRecord>) -> Seq<PairRecordView> {
    ps.map_values(|p: PairRecord| p@)
}

impl PairRecord {
    /// The view of this record's (measure, backend_a, backend_b) key.
    pub open spec fn spec_key(self) -> KeyView {
        (self.measure@, self.backend_a@, self.backend_b@)
    }

    /// Canonical key for de-duplication and coverage lookup.
    pub fn key(&self) -> (k: PairKey)
        ensures
            k@ == self.spec_key(),
    {
        PairKey {
            measure: self.measure.clone(),
            backend_a: self.backend_a.clone(),
            backend_b: self.backend_b.clone(),
        }
    }
}

/// The canonical (measure, backend_a, backend_b) key used for coverage lookups.
#[derive(Debug, Clone, PartialEq, Eq, Hash)]
pub struct PairKey {
    /// Measure unique-name.
    pub measure: String,
    /// First backend.
    pub backend_a: String,
    /// Second backend.
    pub backend_b: String,
}

impl View for PairKey {
    type V = KeyView;

    open spec fn view(&self) -> KeyView {
        (self.measure@, self.backend_a@, self.backend_b@)
    }
}

impl PairKey {
    /// Returns whether two keys hold the same three names.
    pub fn same_as(&self, other: &PairKey) -> (r: bool)
        ensures
            r == (self@ == other@),
    {
        self.measure == other.measure && self.backend_a == other.backend_a && self.backend_b
            == other.backend_b
    }
}

/// A single entry in the history store, one per recorded run.
///
/// The `content_digest` identifies a re-record of the same
/// `(build_id, normalised pairs)`, so coverage can de-duplicate before counting.
#[derive(Debug, Clone)]
pub struct HistoryEntry {
    /// Schema version: increment on breaking field changes.
    pub schema_version: u32,
    /// The server build that produced the parity results.
    pub build_id: String,
    /// The UTC instant at which this entry was ingested (taken when it is recorded).
    pub ingest_ts: Timestamp,
    /// Source path or label identifying the input file.
    pub source: String,
    /// The `OverallVerdict` of the source report.
    pub overall_verdict: String,
    /// Whether every pair in this report was skipped.
    pub all_skipped: bool,
    /// Per-(measure, pair) records; empty when `all_skipped` is true.
    pub pairs: Vec<PairRecord>,
    /// Hex SHA-256 of the canonical JSON of `(build_id, sorted pairs)`.
    pub content_digest: String,
    /// The `parity-corpus.vN` version the caller used, if known.
    pub corpus_version: Option<String>,
}

} // verus!
