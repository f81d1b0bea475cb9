//! Normalising parity results into history entries.
//!
//! Two input shapes are accepted: a `ParityReport` and a list of live-harness
//! per-case results.  Each becomes one history entry stamped with a build id,
//! the time it was ingested, and a content digest of its normalised pairs.

use vstd::prelude::*;

use crate::digest::{compute_digest, content_digest_of};
use crate::history::{
    HistoryEntry, PairRecord, PairRecordView, ParsedVerdict, SCHEMA_VERSION, Timestamp,
    record_views,
};
use crate::text::owned;

verus! {

// ── Input shapes ───────────────────────────────────────────────────────────

/// Mirrors `PairVerdict` from the cross-backend parity report.
#[derive(Debug)]
pub enum PairVerdictInput {
    /// Results identical.
    Equal,
    /// Results agree within tolerance.
    WithinTolerance {
        /// Detail string.
        detail: String,
    },
    /// Results disagree.
    Mismatch {
        /// Reason string.
        reason: String,
    },
    /// Pair not compared.
    Skipped {
        /// Why.
        why: String,
    },
}

impl PairVerdictInput {
    /// The variant name.
    pub open spec fn spec_discriminant(self) -> Seq<char> {
        match self {
            PairVerdictInput::Equal => "Equal"@,
            PairVerdictInput::WithinTolerance { .. } => "WithinTolerance"@,
            PairVerdictInput::Mismatch { .. } => "Mismatch"@,
            PairVerdictInput::Skipped { .. } => "Skipped"@,
        }
    }

    /// Returns the variant name.
    pub fn discriminant(&self) -> (r: &'static str)
        ensures
            r@ == self.spec_discriminant(),
    {
        match self {
            PairVerdictInput::Equal => "Equal",
            PairVerdictInput::WithinTolerance { .. } => "WithinTolerance",
            PairVerdictInput::Mismatch { .. } => "Mismatch",
            PairVerdictInput::Skipped { .. } => "Skipped",
        }
    }

    /// The verdict a pair verdict normalises to.
    pub open spec fn spec_to_parsed(self) -> ParsedVerdict {
        match self {
            PairVerdictInput::Equal => ParsedVerdict::Verified,
            PairVerdictInput::WithinTolerance { .. } => ParsedVerdict::Verified,
            PairVerdictInput::Mismatch { .. } => ParsedVerdict::Mismatch,
            PairVerdictInput::Skipped { .. } => ParsedVerdict::Skipped,
        }
    }

    /// Returns the normalised verdict.
    pub fn to_parsed(&self) -> (r: ParsedVerdict)
        ensures
            r == self.spec_to_parsed(),
    {
        match self {
            PairVerdictInput::Equal | PairVerdictInput::WithinTolerance { .. } => {
                ParsedVerdict::Verified
            },
            PairVerdictInput::Mismatch { .. } => ParsedVerdict::Mismatch,
            PairVerdictInput::Skipped { .. } => ParsedVerdict::Skipped,
        }
    }
}

/// Mirrors `OverallVerdict` from the cross-backend parity report.
#[derive(Debug, Clone, Copy, PartialEq, Eq, Structural)]
pub enum OverallVerdictInput {
    /// All pairs agree.
    Agree,
    /// All pairs agree within tolerance.
    WithinTolerance,
    /// At least one pair mismatches.
    Mismatch,
    /// All pairs were skipped.
    AllSkipped,
}

impl OverallVerdictInput {
    /// The variant name.
    pub open spec fn spec_discriminant(self) -> Seq<char> {
        match self {
            OverallVerdictInput::Agree => "Agree"@,
            OverallVerdictInput::WithinTolerance => "WithinTolerance"@,
            OverallVerdictInput::Mismatch => "Mismatch"@,
            OverallVerdictInput::AllSkipped => "AllSkipped"@,
        }
    }

    /// Returns the variant name.
    pub fn discriminant(&self) -> (r: &'static str)
        ensures
            r@ == self.spec_discriminant(),
    {
        match self {
            OverallVerdictInput::Agree => "Agree",
            OverallVerdictInput::WithinTolerance => "WithinTolerance",
            OverallVerdictInput::Mismatch => "Mismatch",
            OverallVerdictInput::AllSkipped => "AllSkipped",
        }
    }

    /// Returns whether every pair was skipped.
    pub fn is_all_skipped(&self) -> (r: bool)
        ensures
            r == (*self is AllSkipped),
    {
        match self {
            OverallVerdictInput::AllSkipped => true,
            _ => false,
        }
    }
}

/// Mirrors the `ParityReport` of the cross-backend parity tool.
#[derive(Debug)]
pub struct ParityReportInput {
    /// Path/label of the MQO that was executed.
    pub mqo_path: String,
    /// Per-pair comparison results: (backend_a, backend_b, verdict).
    pub pairs: Vec<(String, String, PairVerdictInput)>,
    /// Rolled-up overall verdict.
    pub overall: OverallVerdictInput,
    /// Optional: measure name for this MQO (if the report carries it).
    pub measure: Option<String>,
}

/// One per-case result from the live harness.
#[derive(Debug)]
pub struct LiveHarnessCase {
    /// The measure unique-name.
    pub measure: String,
    /// First backend in the pair.
    pub backend_a: String,
    /// Second backend in the pair.
    pub backend_b: String,
    /// The verdict for this pair.
    pub verdict: PairVerdictInput,
    /// The overall verdict for this case.
    pub overall: OverallVerdictInput,
}

/// The two accepted input shapes.
#[derive(Debug)]
pub enum InputReport {
    /// A `ParityReport` from the cross-backend parity tool.
    ParityReport(ParityReportInput),
    /// Per-case results from the live harness.
    LiveHarnessResults(Vec<LiveHarnessCase>),
}

// ── Normalisation specs ────────────────────────────────────────────────────

/// The measure a parity report is about: its `measure`, else its MQO path.
pub open spec fn report_measure(r: ParityReportInput) -> Seq<char> {
    match r.measure {
        Some(m) => m@,
        None => r.mqo_path@,
    }
}

/// The record of one (backend_a, backend_b, verdict) pair of a parity report.
pub open spec fn report_pair_view(
    r: ParityReportInput,
    t: (String, String, PairVerdictInput),
) -> PairRecordView {
    PairRecordView {
        measure: report_measure(r),
        backend_a: t.0@,
        backend_b: t.1@,
        verdict: t.2.spec_to_parsed(),
        raw_pair_verdict: t.2.spec_discriminant(),
        raw_overall_verdict: r.overall.spec_discriminant(),
    }
}

/// The record of one live-harness case.
pub open spec fn case_pair_view(c: LiveHarnessCase) -> PairRecordView {
    PairRecordView {
        measure: c.measure@,
        backend_a: c.backend_a@,
        backend_b: c.backend_b@,
        verdict: c.verdict.spec_to_parsed(),
        raw_pair_verdict: c.verdict.spec_discriminant(),
        raw_overall_verdict: c.overall.spec_discriminant(),
    }
}

/// Every live-harness case was skipped (vacuously so for no cases).
pub open spec fn cases_all_skipped(cases: Seq<LiveHarnessCase>) -> bool {
    forall|i: int| 0 <= i < cases.len() ==> (#[trigger] cases[i]).overall is AllSkipped
}

/// Some live-harness case mismatched overall.
pub open spec fn cases_any_mismatch(cases: Seq<LiveHarnessCase>) -> bool {
    exists|i: int| 0 <= i < cases.len() && (#[trigger] cases[i]).overall is Mismatch
}

/// The rolled-up overall verdict of live-harness cases.
pub open spec fn cases_overall(cases: Seq<LiveHarnessCase>) -> Seq<char> {
    if cases_all_skipped(cases) {
        "AllSkipped"@
    } else if cases_any_mismatch(cases) {
        "Mismatch"@
    } else {
        "Agree"@
    }
}

/// `e` carries the fields every normalised entry shares.
pub open spec fn entry_frame(
    e: HistoryEntry,
    build_id: Seq<char>,
    source: Seq<char>,
    ts: Timestamp,
) -> bool {
    &&& e.schema_version == SCHEMA_VERSION
    &&& e.build_id@ == build_id
    &&& e.ingest_ts == ts
    &&& e.source@ == source
    &&& e.content_digest@ == content_digest_of(build_id, record_views(e.pairs@))
    &&& e.corpus_version is None
}

/// `e` is the normalisation of parity report `r` for `build_id`, ingested at `ts`:
/// a skipped report keeps no pairs; otherwise every pair becomes a record.
pub open spec fn is_parity_entry(
    e: HistoryEntry,
    r: ParityReportInput,
    build_id: Seq<char>,
    source: Seq<char>,
    ts: Timestamp,
) -> bool {
    &&& entry_frame(e, build_id, source, ts)
    &&& e.overall_verdict@ == r.overall.spec_discriminant()
    &&& e.all_skipped == (r.overall is AllSkipped)
    &&& record_views(e.pairs@) == if e.all_skipped {
        Seq::empty()
    } else {
        r.pairs@.map_values(|t: (String, String, PairVerdictInput)| report_pair_view(r, t))
    }
}

/// `e` is the normalisation of live-harness `cases` for `build_id`, ingested at `ts`.
pub open spec fn is_live_harness_entry(
    e: HistoryEntry,
    cases: Seq<LiveHarnessCase>,
    build_id: Seq<char>,
    source: Seq<char>,
    ts: Timestamp,
) -> bool {
    &&& entry_frame(e, build_id, source, ts)
    &&& e.overall_verdict@ == cases_overall(cases)
    &&& e.all_skipped == cases_all_skipped(cases)
    &&& record_views(e.pairs@) == if e.all_skipped {
        Seq::empty()
    } else {
        cases.map_values(|c: LiveHarnessCase| case_pair_view(c))
    }
}

/// `e` is the normalisation of `input` for `build_id`, ingested at `ts`.
pub open spec fn is_input_entry(
    e: HistoryEntry,
    input: InputReport,
    build_id: Seq<char>,
    source: Seq<char>,
    ts: Timestamp,
) -> bool {
    match input {
        InputReport::ParityReport(r) => is_parity_entry(e, r, build_id, source, ts),
        InputReport::LiveHarnessResults(cases) => is_live_harness_entry(
            e,
            cases@,
            build_id,
            source,
            ts,
        ),
    }
}

// ── The clock ──────────────────────────────────────────────────────────────

/// Reads the system clock (`std::time::SystemTime::now`) and converts it with
/// chrono's `From<SystemTime> for DateTime<Utc>`, which maps instants before the
/// Unix epoch to negative seconds rather than failing, then reads its Unix
/// timestamp and sub-second nanoseconds.  Claimed: the nanoseconds are below one
/// second (the conversion builds them from a `Duration`'s sub-second part).
/// Which instant comes back is left unstated.  The conversion's final `unwrap`
/// fails only for a clock reading outside chrono's representable date range
/// (some 262,000 years either side of the epoch).
#[verifier::external_body]
fn utc_now() -> (t: Timestamp)
    ensures
        t.nanos < 1_000_000_000,
{
    let now = chrono::DateTime::<chrono::Utc>::from(std::time::SystemTime::now());
    Timestamp { secs: now.timestamp(), nanos: now.timestamp_subsec_nanos() }
}

// ── Normalisation ──────────────────────────────────────────────────────────

/// Normalises a parity report into a history entry ingested at `ts`.
pub fn normalise_parity_report_at(
    report: &ParityReportInput,
    build_id: &str,
    source: &str,
    ts: Timestamp,
) -> (e: HistoryEntry)
    ensures
        is_parity_entry(e, *report, build_id@, source@, ts),
{
    let all_skipped = report.overall.is_all_skipped();
    let mut pairs: Vec<PairRecord> = Vec::new();
    if !all_skipped {
        let n = report.pairs.len();
        for i in 0..n
            invariant
                n == report.pairs@.len(),
                record_views(pairs@) == report.pairs@.take(i as int).map_values(
                    |t: (String, String, PairVerdictInput)| report_pair_view(*report, t),
                ),
        {
            let t = &report.pairs[i];
            let measure = match &report.measure {
                Some(m) => m.clone(),
                None => report.mqo_path.clone(),
            };
            let ghost before = pairs@;
            pairs.push(
                PairRecord {
                    measure,
                    backend_a: t.0.clone(),
                    backend_b: t.1.clone(),
                    verdict: t.2.to_parsed(),
                    raw_pair_verdict: owned(t.2.discriminant()),
                    raw_overall_verdict: owned(report.overall.discriminant()),
                },
            );
            proof {
                assert(record_views(pairs@) =~= record_views(before).push(
                    report_pair_view(*report, *t),
                ));
                assert(report.pairs@.take(i + 1) =~= report.pairs@.take(i as int).push(*t));
            }
        }
        assert(report.pairs@.take(n as int) =~= report.pairs@);
    } else {
        assert(record_views(pairs@) =~= Seq::empty());
    }
    let content_digest = compute_digest(build_id, pairs.as_slice());
    HistoryEntry {
        schema_version: SCHEMA_VERSION,
        build_id: owned(build_id),
        ingest_ts: ts,
        source: owned(source),
        overall_verdict: owned(report.overall.discriminant()),
        all_skipped,
        pairs,
        content_digest,
        corpus_version: None,
    }
}

/// Normalises live-harness per-case results into a history entry ingested at `ts`.
pub fn normalise_live_harness_at(
    cases: &[LiveHarnessCase],
    build_id: &str,
    source: &str,
    ts: Timestamp,
) -> (e: HistoryEntry)
    ensures
        is_live_harness_entry(e, cases@, build_id@, source@, ts),
{
    let n = cases.len();
    let mut all_skipped = true;
    let mut any_mismatch = false;
    for i in 0..n
        invariant
            n == cases@.len(),
            all_skipped == cases_all_skipped(cases@.take(i as int)),
            any_mismatch == cases_any_mismatch(cases@.take(i as int)),
    {
        proof {
            assert(cases@.take(i + 1) =~= cases@.take(i as int).push(cases@[i as int]));
        }
        if !cases[i].overall.is_all_skipped() {
            all_skipped = false;
        }
        match cases[i].overall {
            OverallVerdictInput::Mismatch => {
                any_mismatch = true;
            },
            _ => {},
        }
        proof {
            let t = cases@.take(i + 1);
            if !all_skipped && !cases_all_skipped(cases@.take(i as int)) {
                let k = choose|k: int|
                    0 <= k < i && !((#[trigger] cases@.take(i as int)[k]).overall is AllSkipped);
                assert(!(t[k].overall is AllSkipped));
            }
            if !all_skipped && !(cases@[i as int].overall is AllSkipped) {
                assert(!(t[i as int].overall is AllSkipped));
            }
            if any_mismatch && cases_any_mismatch(cases@.take(i as int)) {
                let k = choose|k: int|
                    0 <= k < i && (#[trigger] cases@.take(i as int)[k]).overall is Mismatch;
                assert(t[k].overall is Mismatch);
            }
            if cases@[i as int].overall is Mismatch {
                assert(t[i as int].overall is Mismatch);
            }
        }
    }
    assert(cases@.take(n as int) =~= cases@);

    let mut pairs: Vec<PairRecord> = Vec::new();
    if !all_skipped {
        for i in 0..n
            invariant
                n == cases@.len(),
                record_views(pairs@) == cases@.take(i as int).map_values(
                    |c: LiveHarnessCase| case_pair_view(c),
                ),
        {
            let c = &cases[i];
            let ghost before = pairs@;
            pairs.push(
                PairRecord {
                    measure: c.measure.clone(),
                    backend_a: c.backend_a.clone(),
                    backend_b: c.backend_b.clone(),
                    verdict: c.verdict.to_parsed(),
                    raw_pair_verdict: owned(c.verdict.discriminant()),
                    raw_overall_verdict: owned(c.overall.discriminant()),
                },
            );
            proof {
                assert(record_views(pairs@) =~= record_views(before).push(case_pair_view(*c)));
                assert(cases@.take(i + 1) =~= cases@.take(i as int).push(*c));
            }
        }
    } else {
        assert(record_views(pairs@) =~= Seq::empty());
    }

    let overall = if all_skipped {
        "AllSkipped"
    } else if any_mismatch {
        "Mismatch"
    } else {
        "Agree"
    };
    let content_digest = compute_digest(build_id, pairs.as_slice());
    HistoryEntry {
        schema_version: SCHEMA_VERSION,
        build_id: owned(build_id),
        ingest_ts: ts,
        source: owned(source),
        overall_verdict: owned(overall),
        all_skipped,
        pairs,
        content_digest,
        corpus_version: None,
    }
}

/// Normalises a parity report into a history entry stamped with the current time.
pub fn normalise_parity_report(report: &ParityReportInput, build_id: &str, source: &str) -> (e:
    HistoryEntry)
    ensures
        is_parity_entry(e, *report, build_id@, source@, e.ingest_ts),
        e.ingest_ts.nanos < 1_000_000_000,
{
    let ts = utc_now();
    normalise_parity_report_at(report, build_id, source, ts)
}

/// Normalises live-harness results into a history entry stamped with the current time.
pub fn normalise_live_harness(cases: &[LiveHarnessCase], build_id: &str, source: &str) -> (e:
    HistoryEntry)
    ensures
        is_live_harness_entry(e, cases@, build_id@, source@, e.ingest_ts),
        e.ingest_ts.nanos < 1_000_000_000,
{
    let ts = utc_now();
    normalise_live_harness_at(cases, build_id, source, ts)
}

/// Normalises either input shape into the history entry that recording appends,
/// stamped with the current time.
pub fn normalise_input(input: &InputReport, build_id: &str, source: &str) -> (e: HistoryEntry)
    ensures
        is_input_entry(e, *input, build_id@, source@, e.ingest_ts),
        e.ingest_ts.nanos < 1_000_000_000,
{
    match input {
        InputReport::ParityReport(r) => normalise_parity_report(r, build_id, source),
        InputReport::LiveHarnessResults(cases) => normalise_live_harness(
            cases.as_slice(),
            build_id,
            source,
        ),
    }
}

} // verus!
