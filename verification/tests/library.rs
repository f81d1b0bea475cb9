use parity_tracker::corpus::{Corpus, CorpusCase};
use parity_tracker::digest::compute_digest;
use parity_tracker::history::{HistoryEntry, PairKey, PairRecord, ParsedVerdict, Timestamp, SCHEMA_VERSION};
use parity_tracker::jsonl::{history_lines, white_space};
use parity_tracker::render::{coverage_lines, delta_lines};
use parity_tracker::store::{
    normalise_input, normalise_live_harness_at, normalise_parity_report_at, InputReport,
    LiveHarnessCase, OverallVerdictInput, PairVerdictInput, ParityReportInput,
};
use parity_tracker::summary::{
    coverage_summary, delta_exit_code, delta_summary, recorded_builds, CoverageStatus,
};
use parity_tracker::text::{compare_text, sort_texts};

fn ts(secs: i64, nanos: u32) -> Timestamp {
    Timestamp { secs, nanos }
}

fn case(id: &str, measures: &[&str], has_grounding: bool) -> CorpusCase {
    CorpusCase {
        case_id: id.to_string(),
        measures: measures.iter().map(|m| m.to_string()).collect(),
        grain: "total".to_string(),
        has_grounding,
    }
}

fn corpus(cases: Vec<CorpusCase>) -> Corpus {
    Corpus { version: "parity-corpus.v1".to_string(), catalog: "tpcds".to_string(), cases }
}

fn pair(measure: &str, a: &str, b: &str, verdict: ParsedVerdict) -> PairRecord {
    PairRecord {
        measure: measure.to_string(),
        backend_a: a.to_string(),
        backend_b: b.to_string(),
        verdict,
        raw_pair_verdict: "Equal".to_string(),
        raw_overall_verdict: "Agree".to_string(),
    }
}

fn entry(build_id: &str, digest: &str, at: Timestamp, all_skipped: bool, pairs: Vec<PairRecord>) -> HistoryEntry {
    HistoryEntry {
        schema_version: SCHEMA_VERSION,
        build_id: build_id.to_string(),
        ingest_ts: at,
        source: "test".to_string(),
        overall_verdict: "Agree".to_string(),
        all_skipped,
        pairs,
        content_digest: digest.to_string(),
        corpus_version: None,
    }
}

fn status_of(summary: &parity_tracker::summary::CoverageSummary, measure: &str) -> CoverageStatus {
    summary.cells.iter().find(|c| c.measure == measure).unwrap().status
}

// ── corpus ─────────────────────────────────────────────────────────────────

#[test]
fn cells_for_pair_lists_every_measure_occurrence() {
    let c = corpus(vec![case("a", &["M1", "M2"], true), case("b", &["M1"], false)]);
    let cells = c.cells_for_pair("dax", "sql");
    assert_eq!(
        cells,
        vec![
            ("M1".to_string(), "dax".to_string(), "sql".to_string()),
            ("M2".to_string(), "dax".to_string(), "sql".to_string()),
            ("M1".to_string(), "dax".to_string(), "sql".to_string()),
        ]
    );
}

#[test]
fn all_measures_keeps_first_occurrence_order() {
    let c = corpus(vec![case("a", &["B", "A"], true), case("b", &["A", "C", "B"], true)]);
    assert_eq!(c.all_measures(), vec!["B".to_string(), "A".to_string(), "C".to_string()]);
    assert!(corpus(vec![]).all_measures().is_empty());
}

// ── history ────────────────────────────────────────────────────────────────

#[test]
fn evidence_is_verified_or_mismatch() {
    assert!(ParsedVerdict::Verified.is_evidence());
    assert!(ParsedVerdict::Mismatch.is_evidence());
    assert!(!ParsedVerdict::Skipped.is_evidence());
}

#[test]
fn pair_key_holds_measure_and_backends() {
    let k = pair("M", "dax", "sql", ParsedVerdict::Verified).key();
    assert_eq!(k, PairKey { measure: "M".to_string(), backend_a: "dax".to_string(), backend_b: "sql".to_string() });
    assert!(k.same_as(&k.clone()));
    assert!(!k.same_as(&pair("M", "sql", "dax", ParsedVerdict::Verified).key()));
}

#[test]
fn timestamps_order_by_seconds_then_nanoseconds() {
    assert!(ts(1, 5).at_or_before(&ts(2, 0)));
    assert!(ts(1, 5).at_or_before(&ts(1, 5)));
    assert!(!ts(1, 6).at_or_before(&ts(1, 5)));
    assert!(!ts(2, 0).at_or_before(&ts(1, 999_999_999)));
}

// ── coverage ───────────────────────────────────────────────────────────────

#[test]
fn coverage_grid_counts_and_ungrounded_cells() {
    let c = corpus(vec![
        case("tss", &["Total Store Sales"], true),
        case("margin", &["Margin %"], true),
        case("returns", &["Returns Amount"], false),
        case("tss_year", &["Total Store Sales"], true),
    ]);
    let h = vec![
        entry("B", "d1", ts(10, 0), false, vec![
            pair("Total Store Sales", "dax", "sql", ParsedVerdict::Verified),
            pair("Returns Amount", "dax", "sql", ParsedVerdict::Mismatch),
            pair("Margin %", "dax", "sql", ParsedVerdict::Skipped),
        ]),
    ];
    let s = coverage_summary(&h, &c, "B", None);
    assert_eq!(s.build_id, "B");
    assert_eq!(s.corpus_version, "parity-corpus.v1");
    assert_eq!((s.backend_a.as_str(), s.backend_b.as_str()), ("dax", "sql"));
    assert_eq!(s.denominator, 3);
    assert_eq!(s.cells.len(), 3);
    assert_eq!(s.cells[0].measure, "Total Store Sales");
    assert_eq!(s.cells[1].measure, "Margin %");
    assert_eq!(s.cells[2].measure, "Returns Amount");
    assert_eq!(s.cells[0].status, CoverageStatus::Verified);
    assert_eq!(s.cells[1].status, CoverageStatus::NeverTested);
    assert_eq!(s.cells[2].status, CoverageStatus::Mismatch);
    assert_eq!((s.verified_count, s.mismatch_count, s.never_tested_count), (1, 1, 1));
    assert_eq!(s.verified_count + s.mismatch_count + s.never_tested_count, s.denominator);
    assert_eq!(s.ungrounded_cells.len(), 1);
    assert_eq!(s.ungrounded_cells[0].measure, "Returns Amount");
    assert!(s.ungrounded_cells[0].ungrounded);
    assert!(!s.cells[0].ungrounded);
}

#[test]
fn coverage_backend_pair_comes_from_history_then_hint_then_default() {
    let c = corpus(vec![case("m", &["M"], true)]);
    let h = vec![
        entry("B", "d0", ts(1, 0), true, vec![]),
        entry("B", "d1", ts(2, 0), false, vec![pair("M", "mdx", "sql", ParsedVerdict::Verified)]),
    ];
    let s = coverage_summary(&h, &c, "B", Some(("x", "y")));
    assert_eq!((s.backend_a.as_str(), s.backend_b.as_str()), ("mdx", "sql"));
    assert_eq!(s.cells[0].backend_a, "mdx");
    assert_eq!(s.verified_count, 1);

    let s = coverage_summary(&h, &c, "other", Some(("x", "y")));
    assert_eq!((s.backend_a.as_str(), s.backend_b.as_str()), ("x", "y"));
    assert_eq!(s.never_tested_count, 1);

    let s = coverage_summary(&h, &c, "other", None);
    assert_eq!((s.backend_a.as_str(), s.backend_b.as_str()), ("dax", "sql"));
}

#[test]
fn coverage_latest_ingest_wins() {
    let c = corpus(vec![case("m", &["M"], true)]);
    // The later-ingested mismatch wins even though it was recorded first.
    let h = vec![
        entry("B", "late", ts(20, 0), false, vec![pair("M", "dax", "sql", ParsedVerdict::Mismatch)]),
        entry("B", "early", ts(10, 0), false, vec![pair("M", "dax", "sql", ParsedVerdict::Verified)]),
    ];
    assert_eq!(status_of(&coverage_summary(&h, &c, "B", None), "M"), CoverageStatus::Mismatch);
    // At the same instant, the later record wins.
    let h = vec![
        entry("B", "one", ts(10, 0), false, vec![pair("M", "dax", "sql", ParsedVerdict::Mismatch)]),
        entry("B", "two", ts(10, 0), false, vec![pair("M", "dax", "sql", ParsedVerdict::Verified)]),
    ];
    assert_eq!(status_of(&coverage_summary(&h, &c, "B", None), "M"), CoverageStatus::Verified);
}

#[test]
fn coverage_counts_a_rerecorded_digest_once() {
    let c = corpus(vec![case("m", &["M"], true)]);
    let h = vec![
        entry("B", "same", ts(10, 0), false, vec![pair("M", "dax", "sql", ParsedVerdict::Verified)]),
        entry("B", "same", ts(20, 0), false, vec![pair("M", "dax", "sql", ParsedVerdict::Mismatch)]),
    ];
    // The second entry repeats the first one's digest, so it is not counted.
    assert_eq!(status_of(&coverage_summary(&h, &c, "B", None), "M"), CoverageStatus::Verified);
    // A digest seen at another build does not hide an entry.
    let h = vec![
        entry("A", "same", ts(10, 0), false, vec![pair("M", "dax", "sql", ParsedVerdict::Verified)]),
        entry("B", "same", ts(20, 0), false, vec![pair("M", "dax", "sql", ParsedVerdict::Mismatch)]),
    ];
    assert_eq!(status_of(&coverage_summary(&h, &c, "B", None), "M"), CoverageStatus::Mismatch);
}

#[test]
fn coverage_ignores_skipped_runs_and_other_builds() {
    let c = corpus(vec![case("m", &["M"], true)]);
    let h = vec![
        entry("B", "d1", ts(10, 0), false, vec![pair("M", "dax", "sql", ParsedVerdict::Verified)]),
        entry("B", "d2", ts(20, 0), true, vec![pair("M", "dax", "sql", ParsedVerdict::Mismatch)]),
        entry("C", "d3", ts(30, 0), false, vec![pair("M", "dax", "sql", ParsedVerdict::Mismatch)]),
    ];
    let s = coverage_summary(&h, &c, "B", None);
    assert_eq!(s.verified_count, 1);
    assert_eq!(s.mismatch_count, 0);
}

#[test]
fn coverage_of_empty_corpus_has_no_denominator() {
    let s = coverage_summary(&[], &corpus(vec![]), "B", None);
    assert_eq!(s.denominator, 0);
    assert!(s.cells.is_empty());
    assert_eq!((s.verified_count, s.mismatch_count, s.never_tested_count), (0, 0, 0));
}

// ── delta ──────────────────────────────────────────────────────────────────

#[test]
fn delta_lists_each_transition_sorted() {
    let c = corpus(vec![case("a", &["Zeta", "Beta", "Alpha", "Gamma", "Delta"], true)]);
    let h = vec![
        entry("P", "p", ts(1, 0), false, vec![
            pair("Zeta", "dax", "sql", ParsedVerdict::Verified),
            pair("Beta", "dax", "sql", ParsedVerdict::Verified),
            pair("Alpha", "dax", "sql", ParsedVerdict::Mismatch),
        ]),
        entry("N", "n", ts(2, 0), false, vec![
            pair("Zeta", "dax", "sql", ParsedVerdict::Mismatch),
            pair("Beta", "dax", "sql", ParsedVerdict::Mismatch),
            pair("Alpha", "dax", "sql", ParsedVerdict::Verified),
            pair("Gamma", "dax", "sql", ParsedVerdict::Verified),
            pair("Delta", "dax", "sql", ParsedVerdict::Mismatch),
        ]),
    ];
    let d = delta_summary(&h, &c, "N", "P", None);
    assert_eq!(d.build_n, "N");
    assert_eq!(d.build_prior, "P");
    assert!(!d.prior_was_absent);
    assert_eq!(d.newly_broken, vec!["Beta".to_string(), "Zeta".to_string()]);
    assert_eq!(d.newly_verified, vec!["Alpha".to_string(), "Gamma".to_string()]);
    assert_eq!(d.newly_tested, vec!["Delta".to_string(), "Gamma".to_string()]);
}

#[test]
fn delta_with_absent_prior_treats_all_evidence_as_new() {
    let c = corpus(vec![case("a", &["M1", "M2", "M3"], true)]);
    let h = vec![entry("N", "n", ts(2, 0), false, vec![
        pair("M2", "dax", "sql", ParsedVerdict::Mismatch),
        pair("M1", "dax", "sql", ParsedVerdict::Verified),
    ])];
    let d = delta_summary(&h, &c, "N", "missing", None);
    assert!(d.prior_was_absent);
    assert!(d.newly_broken.is_empty());
    assert_eq!(d.newly_tested, vec!["M1".to_string(), "M2".to_string()]);
    assert_eq!(d.newly_verified, vec!["M1".to_string()]);
}

#[test]
fn delta_exit_code_fails_only_on_newly_broken() {
    let c = corpus(vec![case("a", &["M1", "M2"], true)]);
    let h = vec![
        entry("P", "p", ts(1, 0), false, vec![pair("M1", "dax", "sql", ParsedVerdict::Verified)]),
        entry("N", "n", ts(2, 0), false, vec![
            pair("M1", "dax", "sql", ParsedVerdict::Mismatch),
            pair("M2", "dax", "sql", ParsedVerdict::Verified),
        ]),
    ];
    let broken = delta_summary(&h, &c, "N", "P", None);
    assert_eq!(delta_exit_code(&broken, false), 2);
    assert_eq!(delta_exit_code(&broken, true), 0);
    let fixed = delta_summary(&h, &c, "P", "N", None);
    assert!(fixed.newly_broken.is_empty());
    assert_eq!(delta_exit_code(&fixed, false), 0);
}

#[test]
fn delta_agrees_with_two_coverage_summaries() {
    let c = corpus(vec![case("a", &["M1", "M2", "M3", "M4"], true)]);
    let h = vec![
        entry("P", "p", ts(1, 0), false, vec![
            pair("M1", "dax", "sql", ParsedVerdict::Verified),
            pair("M2", "dax", "sql", ParsedVerdict::Mismatch),
        ]),
        entry("N", "n", ts(2, 0), false, vec![
            pair("M1", "dax", "sql", ParsedVerdict::Mismatch),
            pair("M2", "dax", "sql", ParsedVerdict::Verified),
            pair("M3", "dax", "sql", ParsedVerdict::Skipped),
            pair("M4", "dax", "sql", ParsedVerdict::Verified),
        ]),
    ];
    let hint = Some(("dax", "sql"));
    let before = coverage_summary(&h, &c, "P", hint);
    let after = coverage_summary(&h, &c, "N", hint);
    let d = delta_summary(&h, &c, "N", "P", hint);
    let measures = c.all_measures();
    let mut broken = Vec::new();
    let mut verified = Vec::new();
    let mut tested = Vec::new();
    for m in &measures {
        let (x, y) = (status_of(&before, m), status_of(&after, m));
        if x == CoverageStatus::Verified && y == CoverageStatus::Mismatch {
            broken.push(m.clone());
        }
        if x != CoverageStatus::Verified && y == CoverageStatus::Verified {
            verified.push(m.clone());
        }
        if x == CoverageStatus::NeverTested && y != CoverageStatus::NeverTested {
            tested.push(m.clone());
        }
    }
    assert_eq!(d.newly_broken, broken);
    assert_eq!(d.newly_verified, verified);
    assert_eq!(d.newly_tested, tested);
    assert_eq!(d.newly_tested, vec!["M4".to_string()]);
}

#[test]
fn delta_ignores_entries_of_other_builds() {
    let c = corpus(vec![case("a", &["M1", "M2"], true)]);
    let p = entry("P", "p", ts(1, 0), false, vec![pair("M1", "dax", "sql", ParsedVerdict::Verified)]);
    let other = entry("X", "x", ts(3, 0), false, vec![pair("M1", "dax", "sql", ParsedVerdict::Verified)]);
    let n = entry("N", "n", ts(2, 0), false, vec![
        pair("M1", "dax", "sql", ParsedVerdict::Mismatch),
        pair("M2", "dax", "sql", ParsedVerdict::Verified),
    ]);
    let full = delta_summary(&vec![p.clone(), other, n.clone()], &c, "N", "P", None);
    let only = delta_summary(&vec![p, n], &c, "N", "P", None);
    assert_eq!(full.newly_broken, only.newly_broken);
    assert_eq!(full.newly_verified, only.newly_verified);
    assert_eq!(full.newly_tested, only.newly_tested);
    assert_eq!(full.prior_was_absent, only.prior_was_absent);
}

// ── builds ─────────────────────────────────────────────────────────────────

#[test]
fn recorded_builds_in_order_first_seen() {
    let h = vec![
        entry("b2", "1", ts(1, 0), false, vec![]),
        entry("b1", "2", ts(2, 0), false, vec![]),
        entry("b2", "3", ts(3, 0), false, vec![]),
    ];
    assert_eq!(recorded_builds(&h), vec!["b2".to_string(), "b1".to_string()]);
}

// ── digest and normalisation ───────────────────────────────────────────────

fn report(measure: Option<&str>, pairs: Vec<(&str, &str, PairVerdictInput)>, overall: OverallVerdictInput) -> ParityReportInput {
    ParityReportInput {
        mqo_path: "mqo/total.json".to_string(),
        pairs: pairs.into_iter().map(|(a, b, v)| (a.to_string(), b.to_string(), v)).collect(),
        overall,
        measure: measure.map(|m| m.to_string()),
    }
}

#[test]
fn digest_of_a_single_verified_pair() {
    let r = report(Some("Total Store Sales"), vec![("dax", "sql", PairVerdictInput::Equal)], OverallVerdictInput::Agree);
    let e = normalise_parity_report_at(&r, "2026.06.10-rc1", "results/parity-run.json", ts(5, 0));
    assert_eq!(e.content_digest, "7154b870848ea0c871df68204686bc44e40bb5cdf540e9cfef0d7d8ff3a4f588");
}

#[test]
fn digest_sorts_pairs_and_escapes_text() {
    let a = vec![
        pair("Margin \"%\"", "dax", "sql", ParsedVerdict::Mismatch),
        pair("Alpha", "dax", "sql", ParsedVerdict::Verified),
    ];
    let b = vec![a[1].clone(), a[0].clone()];
    let expected = "651938326fd7f3b086c2c4f6c9e7adc1557dcc6ddd32732ee458bc344465aa95";
    assert_eq!(compute_digest("b1", &a), expected);
    assert_eq!(compute_digest("b1", &b), expected);
    let c = vec![
        pair("Zeta", "dax", "sql", ParsedVerdict::Skipped),
        pair("Alpha\\x", "dax", "sql", ParsedVerdict::Verified),
    ];
    assert_eq!(compute_digest("b1", &c), "155f6cfcc4968b6000fb4ac1ba2e318034c2a18b059623db850c65494ce47840");
}

#[test]
fn digest_ignores_raw_verdict_text() {
    let a = vec![pair("Alpha", "dax", "sql", ParsedVerdict::Verified)];
    let mut b = a.clone();
    b[0].raw_pair_verdict = "Within { abs: 0.001 }".to_string();
    b[0].raw_overall_verdict = "Disagree".to_string();
    assert_eq!(compute_digest("b1", &a), compute_digest("b1", &b));
    let d = compute_digest("b1", &a);
    assert_eq!(d.len(), 64);
    assert!(d.chars().all(|ch| matches!(ch, '0'..='9' | 'a'..='f')));
}

#[test]
fn skipped_report_normalises_to_no_pairs() {
    let r = report(Some("Skipped Measure"), vec![("dax", "sql", PairVerdictInput::Skipped { why: "backend down".to_string() })], OverallVerdictInput::AllSkipped);
    let e = normalise_parity_report_at(&r, "build-skip", "test", ts(7, 8));
    assert!(e.all_skipped);
    assert!(e.pairs.is_empty());
    assert_eq!(e.overall_verdict, "AllSkipped");
    assert_eq!(e.content_digest, "33f3815aed7272fdb165a148d1ab5743c9bfe6388a7147df0216425ee4764da5");
}

#[test]
fn parity_report_normalisation_fills_every_field() {
    let r = report(None, vec![
        ("dax", "sql", PairVerdictInput::WithinTolerance { detail: "1e-9".to_string() }),
        ("dax", "mdx", PairVerdictInput::Skipped { why: "down".to_string() }),
    ], OverallVerdictInput::WithinTolerance);
    let e = normalise_parity_report_at(&r, "B", "src.json", ts(42, 7));
    assert_eq!(e.schema_version, 1);
    assert_eq!(e.build_id, "B");
    assert_eq!(e.ingest_ts, ts(42, 7));
    assert_eq!(e.source, "src.json");
    assert_eq!(e.overall_verdict, "WithinTolerance");
    assert!(!e.all_skipped);
    assert!(e.corpus_version.is_none());
    assert_eq!(e.pairs.len(), 2);
    assert_eq!(e.pairs[0].measure, "mqo/total.json");
    assert_eq!(e.pairs[0].verdict, ParsedVerdict::Verified);
    assert_eq!(e.pairs[0].raw_pair_verdict, "WithinTolerance");
    assert_eq!(e.pairs[1].backend_b, "mdx");
    assert_eq!(e.pairs[1].verdict, ParsedVerdict::Skipped);
    assert_eq!(e.pairs[1].raw_pair_verdict, "Skipped");
    assert_eq!(e.pairs[1].raw_overall_verdict, "WithinTolerance");
}

fn harness_case(measure: &str, verdict: PairVerdictInput, overall: OverallVerdictInput) -> LiveHarnessCase {
    LiveHarnessCase {
        measure: measure.to_string(),
        backend_a: "dax".to_string(),
        backend_b: "sql".to_string(),
        verdict,
        overall,
    }
}

#[test]
fn live_harness_overall_verdicts() {
    let none = normalise_live_harness_at(&[], "B", "h", ts(1, 0));
    assert!(none.all_skipped);
    assert_eq!(none.overall_verdict, "AllSkipped");
    assert!(none.pairs.is_empty());

    let agree = normalise_live_harness_at(&[
        harness_case("M", PairVerdictInput::Equal, OverallVerdictInput::Agree),
        harness_case("N", PairVerdictInput::Skipped { why: "x".to_string() }, OverallVerdictInput::AllSkipped),
    ], "B", "h", ts(1, 0));
    assert!(!agree.all_skipped);
    assert_eq!(agree.overall_verdict, "Agree");
    assert_eq!(agree.pairs.len(), 2);
    assert_eq!(agree.pairs[1].verdict, ParsedVerdict::Skipped);
    assert_eq!(agree.pairs[1].raw_overall_verdict, "AllSkipped");

    let mismatch = normalise_live_harness_at(&[
        harness_case("M", PairVerdictInput::Equal, OverallVerdictInput::Agree),
        harness_case("N", PairVerdictInput::Mismatch { reason: "r".to_string() }, OverallVerdictInput::Mismatch),
    ], "B", "h", ts(1, 0));
    assert_eq!(mismatch.overall_verdict, "Mismatch");
}

#[test]
fn recording_stamps_the_current_time() {
    let before = chrono::Utc::now().timestamp();
    let input = InputReport::ParityReport(report(Some("M"), vec![("dax", "sql", PairVerdictInput::Equal)], OverallVerdictInput::Agree));
    let e = normalise_input(&input, "B", "s");
    let after = chrono::Utc::now().timestamp();
    assert!(before <= e.ingest_ts.secs && e.ingest_ts.secs <= after);
    assert!(e.ingest_ts.nanos < 1_000_000_000);
}

#[test]
fn discriminants_and_parsed_verdicts() {
    assert_eq!(PairVerdictInput::Equal.discriminant(), "Equal");
    assert_eq!(PairVerdictInput::Mismatch { reason: String::new() }.discriminant(), "Mismatch");
    assert_eq!(PairVerdictInput::WithinTolerance { detail: String::new() }.to_parsed(), ParsedVerdict::Verified);
    assert_eq!(PairVerdictInput::Skipped { why: String::new() }.to_parsed(), ParsedVerdict::Skipped);
    assert_eq!(OverallVerdictInput::AllSkipped.discriminant(), "AllSkipped");
    assert!(OverallVerdictInput::AllSkipped.is_all_skipped());
    assert!(!OverallVerdictInput::Mismatch.is_all_skipped());
}

// ── history framing ────────────────────────────────────────────────────────

fn text(n: usize, t: &str) -> (usize, Option<String>) {
    (n, Some(t.to_string()))
}

#[test]
fn history_lines_skip_blank_lines_and_keep_numbers() {
    let lines = history_lines("  {\"a\":1}  \r\n\n \t\n{\"b\":2}".as_bytes());
    assert_eq!(lines, vec![text(1, "{\"a\":1}"), text(4, "{\"b\":2}")]);
    assert!(history_lines(b"").is_empty());
    assert!(history_lines(b"\n\n").is_empty());
    assert_eq!(history_lines(b"x\n"), vec![text(1, "x")]);
    assert_eq!(history_lines("\u{00a0}x\u{3000}\n".as_bytes()), vec![text(1, "x")]);
}

#[test]
fn history_lines_keep_undecodable_lines_apart() {
    let mut content = b"{\"first\":1}\n".to_vec();
    content.extend_from_slice(&[0x7b, 0xff, 0xfe, 0x22]);
    let lines = history_lines(&content);
    assert_eq!(lines, vec![text(1, "{\"first\":1}"), (2, None)]);
    let mut content = vec![0xc3];
    content.extend_from_slice(b"\n\xc3\xa9\n");
    assert_eq!(history_lines(&content), vec![(1, None), text(2, "é")]);
}

#[test]
fn appending_a_line_keeps_earlier_lines() {
    let mut content = String::new();
    content.push_str("{\"first\":1}\n");
    let before = history_lines(content.as_bytes());
    content.push_str("{\"corrupt\": true, incomplete_json\n");
    let after = history_lines(content.as_bytes());
    assert_eq!(after.len(), before.len() + 1);
    assert_eq!(after[..before.len()], before[..]);
    assert_eq!(after[1], text(2, "{\"corrupt\": true, incomplete_json"));
}

#[test]
fn white_space_is_unicode_white_space() {
    for c in [' ', '\t', '\n', '\r', '\u{000b}', '\u{000c}', '\u{0085}', '\u{00a0}', '\u{2003}', '\u{3000}'] {
        assert!(white_space(c));
        assert!(c.is_whitespace());
    }
    for c in ['a', '{', '\u{200b}', '\u{0000}'] {
        assert!(!white_space(c));
        assert!(!c.is_whitespace());
    }
}

// ── text order ─────────────────────────────────────────────────────────────

#[test]
fn texts_compare_and_sort_as_str_does() {
    assert_eq!(compare_text("a", "b"), -1);
    assert_eq!(compare_text("b", "a"), 1);
    assert_eq!(compare_text("ab", "ab"), 0);
    assert_eq!(compare_text("ab", "abc"), -1);
    assert_eq!(compare_text("Z", "a"), -1);
    assert_eq!(compare_text("é", "z"), 1);
    let v = vec!["pear".to_string(), "Apple".to_string(), "apple".to_string(), "pear".to_string(), "é".to_string()];
    let mut expected = v.clone();
    expected.sort();
    assert_eq!(sort_texts(&v), expected);
}

#[test]
fn retried_record_counts_once() {
    let c = corpus(vec![case("m", &["M"], true), case("n", &["N"], true)]);
    let input = InputReport::ParityReport(report(Some("M"), vec![("dax", "sql", PairVerdictInput::Equal)], OverallVerdictInput::Agree));
    let first = normalise_input(&input, "B", "run-1.json");
    let retry = normalise_input(&input, "B", "run-2.json");
    assert_eq!(first.content_digest, retry.content_digest);
    let once = coverage_summary(&[first.clone()], &c, "B", None);
    let twice = coverage_summary(&[first, retry], &c, "B", None);
    assert_eq!((once.verified_count, once.never_tested_count), (1, 1));
    assert_eq!((twice.verified_count, twice.never_tested_count), (1, 1));
}

#[test]
fn coverage_and_delta_are_deterministic() {
    let c = corpus(vec![case("a", &["M1", "M2"], false)]);
    let h = vec![
        entry("P", "p", ts(1, 0), false, vec![pair("M1", "dax", "sql", ParsedVerdict::Verified)]),
        entry("N", "n", ts(2, 0), false, vec![pair("M1", "dax", "sql", ParsedVerdict::Mismatch)]),
    ];
    let a = coverage_summary(&h, &c, "N", None);
    let b = coverage_summary(&h, &c, "N", None);
    assert_eq!(format!("{:?}", a), format!("{:?}", b));
    let d1 = delta_summary(&h, &c, "N", "P", None);
    let d2 = delta_summary(&h, &c, "N", "P", None);
    assert_eq!(format!("{:?}", d1), format!("{:?}", d2));
    assert_eq!(d1.newly_broken, vec!["M1".to_string()]);
}

// ── report layout ──────────────────────────────────────────────────────────

#[test]
fn coverage_lines_lay_out_counts_and_grid() {
    let c = corpus(vec![case("a", &["Sales"], true), case("b", &["Margin"], false)]);
    let h = vec![entry("b1", "d", ts(1, 0), false, vec![
        pair("Sales", "dax", "sql", ParsedVerdict::Verified),
    ])];
    let s = coverage_summary(&h, &c, "b1", None);
    let lines = coverage_lines(&s);
    let expected = vec![
        "  verified=1 mismatch=0 never-tested=1".to_string(),
        "  ungrounded (has_grounding=false): 1".to_string(),
        String::new(),
        format!("  {:<50} {:<12} {:<12} STATUS", "MEASURE", "BACKEND_A", "BACKEND_B"),
        format!("  {}", "-".repeat(90)),
        format!("  {:<50} {:<12} {:<12} {}", "Sales", "dax", "sql", "verified"),
        format!("  {:<50} {:<12} {:<12} {} [ungrounded]", "Margin", "dax", "sql", "never-tested"),
    ];
    assert_eq!(lines, expected);
    assert_eq!(lines[5].len(), 2 + 50 + 1 + 12 + 1 + 12 + 1 + "verified".len());
}

#[test]
fn coverage_lines_keep_long_names_whole() {
    let long = "M".repeat(60);
    let c = corpus(vec![case("a", &[long.as_str()], true)]);
    let h = vec![entry("b1", "d", ts(1, 0), false, vec![
        pair(long.as_str(), "dax", "sql", ParsedVerdict::Mismatch),
    ])];
    let s = coverage_summary(&h, &c, "b1", None);
    let lines = coverage_lines(&s);
    assert_eq!(lines.len(), 5);
    assert_eq!(lines[0], "  verified=0 mismatch=1 never-tested=0");
    assert_eq!(lines[4], format!("  {} {:<12} {:<12} MISMATCH", long, "dax", "sql"));
}

#[test]
fn delta_lines_list_each_change() {
    let c = corpus(vec![case("a", &["M1", "M2", "M3"], true)]);
    let h = vec![
        entry("P", "p", ts(1, 0), false, vec![pair("M1", "dax", "sql", ParsedVerdict::Verified)]),
        entry("N", "n", ts(2, 0), false, vec![
            pair("M1", "dax", "sql", ParsedVerdict::Mismatch),
            pair("M2", "dax", "sql", ParsedVerdict::Verified),
        ]),
    ];
    let d = delta_summary(&h, &c, "N", "P", None);
    assert_eq!(
        delta_lines(&d),
        vec![
            "Delta: build 'N' vs 'P' \u{2014} newly-broken: 1".to_string(),
            String::new(),
            "  NEWLY BROKEN (1):".to_string(),
            "    - M1".to_string(),
            String::new(),
            "  Newly verified (1):".to_string(),
            "    + M2".to_string(),
            String::new(),
            "  Newly tested (1):".to_string(),
            "    ~ M2".to_string(),
        ]
    );
}

#[test]
fn delta_lines_warn_on_absent_prior_and_note_no_change() {
    let c = corpus(vec![case("a", &["M1"], true)]);
    let h = vec![entry("N", "n", ts(2, 0), false, vec![])];
    let d = delta_summary(&h, &c, "N", "gone", None);
    assert_eq!(
        delta_lines(&d),
        vec![
            "Delta: build 'N' vs 'gone' \u{2014} newly-broken: 0".to_string(),
            "  WARNING: prior build 'gone' has no recorded history; all current verdicts treated as newly-tested.".to_string(),
            "  No changes between recorded builds.".to_string(),
        ]
    );
}

#[test]
fn coverage_lines_write_counts_in_decimal() {
    let names: Vec<String> = (0..105).map(|i| format!("M{i}")).collect();
    let refs: Vec<&str> = names.iter().map(|n| n.as_str()).collect();
    let c = corpus(vec![case("a", &refs, true)]);
    let s = coverage_summary(&vec![], &c, "b1", None);
    assert_eq!(coverage_lines(&s)[0], "  verified=0 mismatch=0 never-tested=105");
}
