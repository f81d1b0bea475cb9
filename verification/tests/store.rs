use parity_tracker::history::ParsedVerdict;
use parity_tracker::store::{
    normalise_input, InputReport, LiveHarnessCase, OverallVerdictInput, PairVerdictInput,
    ParityReportInput,
};

fn make_parity_report(measure: &str, verdict: PairVerdictInput, overall: OverallVerdictInput) -> InputReport {
    InputReport::ParityReport(ParityReportInput {
        mqo_path: format!("{}.json", measure),
        pairs: vec![("dax".to_string(), "sql".to_string(), verdict)],
        overall,
        measure: Some(measure.to_string()),
    })
}

#[test]
fn test_content_digest_is_stable() {
    let input1 = make_parity_report("Measure X", PairVerdictInput::Equal, OverallVerdictInput::Agree);
    let input2 = make_parity_report("Measure X", PairVerdictInput::Equal, OverallVerdictInput::Agree);

    let e1 = normalise_input(&input1, "build-1", "src1");
    let e2 = normalise_input(&input2, "build-1", "src2");

    // Same (build_id, normalised-pairs) => same digest regardless of source label
    assert_eq!(e1.content_digest, e2.content_digest);
}

#[test]
fn test_live_harness_normalisation() {
    let cases = vec![
        LiveHarnessCase {
            measure: "Margin %".to_string(),
            backend_a: "dax".to_string(),
            backend_b: "sql".to_string(),
            verdict: PairVerdictInput::Equal,
            overall: OverallVerdictInput::Agree,
        },
        LiveHarnessCase {
            measure: "Returns Amount".to_string(),
            backend_a: "dax".to_string(),
            backend_b: "sql".to_string(),
            verdict: PairVerdictInput::Mismatch { reason: "numeric diff".to_string() },
            overall: OverallVerdictInput::Mismatch,
        },
    ];

    let input = InputReport::LiveHarnessResults(cases);
    let entry = normalise_input(&input, "build-lh", "harness.json");

    assert_eq!(entry.pairs.len(), 2);
    assert_eq!(entry.pairs[0].verdict, ParsedVerdict::Verified);
    assert_eq!(entry.pairs[1].verdict, ParsedVerdict::Mismatch);
}
