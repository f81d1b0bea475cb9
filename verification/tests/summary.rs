use parity_tracker::corpus::{Corpus, CorpusCase};
use parity_tracker::history::{HistoryEntry, PairRecord, ParsedVerdict, Timestamp, SCHEMA_VERSION};
use parity_tracker::summary::{coverage_summary, delta_summary, CoverageStatus, CoverageSummary};

fn now() -> Timestamp {
    let t = chrono::Utc::now();
    Timestamp { secs: t.timestamp(), nanos: t.timestamp_subsec_nanos() }
}

fn coverage_pct(s: &CoverageSummary) -> f64 {
    if s.denominator == 0 {
        0.0
    } else {
        (s.verified_count as f64 / s.denominator as f64) * 100.0
    }
}

fn make_corpus(measures: &[&str]) -> Corpus {
    Corpus {
        version: "parity-corpus.v1".to_string(),
        catalog: "test-catalog".to_string(),
        cases: measures
            .iter()
            .map(|m| CorpusCase {
                case_id: format!("{}_total", m),
                measures: vec![m.to_string()],
                grain: "total".to_string(),
                has_grounding: true,
            })
            .collect(),
    }
}

fn make_entry(build_id: &str, measure: &str, verdict: ParsedVerdict) -> HistoryEntry {
    let pairs = vec![PairRecord {
        measure: measure.to_string(),
        backend_a: "dax".to_string(),
        backend_b: "sql".to_string(),
        verdict,
        raw_pair_verdict: "Equal".to_string(),
        raw_overall_verdict: "Agree".to_string(),
    }];
    HistoryEntry {
        schema_version: SCHEMA_VERSION,
        build_id: build_id.to_string(),
        ingest_ts: now(),
        source: "test".to_string(),
        overall_verdict: "Agree".to_string(),
        all_skipped: false,
        content_digest: format!("digest-{}-{}", build_id, measure),
        pairs,
        corpus_version: None,
    }
}

fn make_all_skipped_entry(build_id: &str) -> HistoryEntry {
    HistoryEntry {
        schema_version: SCHEMA_VERSION,
        build_id: build_id.to_string(),
        ingest_ts: now(),
        source: "test-skipped".to_string(),
        overall_verdict: "AllSkipped".to_string(),
        all_skipped: true,
        content_digest: format!("digest-skipped-{}", build_id),
        pairs: vec![],
        corpus_version: None,
    }
}

// AC-2: verified 1/3 measures → coverage 33.3%
#[test]
fn test_coverage_one_of_three_verified() {
    let corpus = make_corpus(&["Total Store Sales", "Margin %", "Returns Amount"]);
    let history = vec![make_entry("build-B", "Total Store Sales", ParsedVerdict::Verified)];
    let summary = coverage_summary(&history, &corpus, "build-B", None);
    assert_eq!(summary.verified_count, 1);
    assert_eq!(summary.never_tested_count, 2);
    assert_eq!(summary.mismatch_count, 0);
    assert_eq!(summary.denominator, 3);
    let pct = (1.0_f64 / 3.0) * 100.0;
    assert!((coverage_pct(&summary) - pct).abs() < 0.01);
    let tss = summary.cells.iter().find(|c| c.measure == "Total Store Sales").unwrap();
    assert_eq!(tss.status, CoverageStatus::Verified);
    let returns = summary.cells.iter().find(|c| c.measure == "Returns Amount").unwrap();
    assert_eq!(returns.status, CoverageStatus::NeverTested);
}

// AC-4: measure in corpus, no result → never-tested
#[test]
fn test_coverage_no_result_is_never_tested() {
    let corpus = make_corpus(&["Returns Amount"]);
    let history: Vec<HistoryEntry> = vec![];
    let summary = coverage_summary(&history, &corpus, "build-X", None);
    assert_eq!(summary.never_tested_count, 1);
    assert_eq!(summary.verified_count, 0);
    assert!((coverage_pct(&summary) - 0.0).abs() < 0.01);
}

// AC-5: AllSkipped result doesn't change coverage
#[test]
fn test_all_skipped_does_not_change_coverage() {
    let corpus = make_corpus(&["Total Store Sales"]);
    let baseline = vec![make_entry("build-B", "Total Store Sales", ParsedVerdict::Verified)];

    let with_skipped = {
        let mut h = baseline.clone();
        h.push(make_all_skipped_entry("build-B"));
        h
    };

    let summary_base = coverage_summary(&baseline, &corpus, "build-B", None);
    let summary_with = coverage_summary(&with_skipped, &corpus, "build-B", None);

    assert_eq!(summary_base.verified_count, summary_with.verified_count);
    assert!((coverage_pct(&summary_base) - coverage_pct(&summary_with)).abs() < 0.01);
}

// AC-8: empty history → all never-tested, 0%
#[test]
fn test_empty_history_all_never_tested() {
    let corpus = make_corpus(&["Measure A", "Measure B"]);
    let summary = coverage_summary(&[], &corpus, "build-unknown", None);
    assert_eq!(summary.never_tested_count, 2);
    assert_eq!(summary.verified_count, 0);
    assert!((coverage_pct(&summary) - 0.0).abs() < 0.01);
}

// AC-3: Margin % Equal at N-1, Mismatch at N → newly-broken
#[test]
fn test_delta_newly_broken() {
    let corpus = make_corpus(&["Margin %"]);
    let history = vec![
        make_entry("build-N-1", "Margin %", ParsedVerdict::Verified),
        make_entry("build-N", "Margin %", ParsedVerdict::Mismatch),
    ];
    let delta = delta_summary(&history, &corpus, "build-N", "build-N-1", None);
    assert!(delta.newly_broken.contains(&"Margin %".to_string()));
    assert!(!delta.newly_verified.contains(&"Margin %".to_string()));
}

// AC-3 supplement: newly-verified appears in newly_verified
#[test]
fn test_delta_newly_verified() {
    let corpus = make_corpus(&["Returns Amount"]);
    let history = vec![
        make_entry("build-N-1", "Returns Amount", ParsedVerdict::Mismatch),
        make_entry("build-N", "Returns Amount", ParsedVerdict::Verified),
    ];
    let delta = delta_summary(&history, &corpus, "build-N", "build-N-1", None);
    assert!(delta.newly_verified.contains(&"Returns Amount".to_string()));
    assert!(!delta.newly_broken.contains(&"Returns Amount".to_string()));
}

// Delta: prior build absent → all newly-tested
#[test]
fn test_delta_absent_prior_all_newly_tested() {
    let corpus = make_corpus(&["Measure Z"]);
    let history = vec![make_entry("build-N", "Measure Z", ParsedVerdict::Verified)];
    let delta = delta_summary(&history, &corpus, "build-N", "build-does-not-exist", None);
    assert!(delta.prior_was_absent);
    assert!(delta.newly_tested.contains(&"Measure Z".to_string()));
    assert!(delta.newly_verified.contains(&"Measure Z".to_string()));
}
