//! Properties of recording and coverage that hold across calls.

use vstd::prelude::*;

use crate::corpus::{Corpus, CorpusCase, ungrounded_measures};
use crate::history::{HistoryEntry, KeyView, PairRecord, ParsedVerdict, Timestamp};
use crate::store::{
    InputReport, is_input_entry, is_live_harness_entry, is_parity_entry, LiveHarnessCase,
    ParityReportInput,
};
use crate::text::{by_text, insertion_sort, texts};
use crate::summary::{
    build_entries, candidates, CandidateView, cell_list, chosen_pair, count_status, CellView,
    CoverageStatus, CoverageSummary, DeltaSummary, is_coverage_summary, is_delta_summary,
    digest_seen, entry_candidates, expected_cell, expected_cells, first_pair_backends, latest,
    newly_broken_rule, newly_tested_rule, newly_verified_rule, no_evidence, pair_candidates,
    status_of, transition_measures, TransitionRule, unique_cells, verdict_at,
};

verus! {

proof fn lemma_build_entries_push(h: Seq<HistoryEntry>, e: HistoryEntry, b: Seq<char>)
    ensures
        build_entries(h.push(e), b) == (if e.build_id@ == b && !digest_seen(
            build_entries(h, b),
            e.content_digest@,
        ) {
            build_entries(h, b).push(e)
        } else {
            build_entries(h, b)
        }),
{
    assert(h.push(e).drop_last() =~= h);
}

proof fn lemma_first_pair_backends_push(h: Seq<HistoryEntry>, e: HistoryEntry, b: Seq<char>)
    requires
        e.pairs@.len() == 0,
    ensures
        first_pair_backends(h.push(e), b) == first_pair_backends(h, b),
    decreases h.len(),
{
    if h.len() == 0 {
        assert(h.push(e).drop_first() =~= h);
    } else {
        assert(h.push(e).drop_first() =~= h.drop_first().push(e));
        lemma_first_pair_backends_push(h.drop_first(), e, b);
    }
}

proof fn lemma_same_evidence_same_cells(
    h1: Seq<HistoryEntry>,
    h2: Seq<HistoryEntry>,
    cases: Seq<CorpusCase>,
    b: Seq<char>,
    pair: (Seq<char>, Seq<char>),
)
    requires
        candidates(build_entries(h1, b)) == candidates(build_entries(h2, b)),
    ensures
        expected_cells(h1, cases, b, pair) == expected_cells(h2, cases, b, pair),
        forall|k: KeyView| verdict_at(h1, b, k) == verdict_at(h2, b, k),
{
    assert(expected_cells(h1, cases, b, pair) =~= expected_cells(h2, cases, b, pair));
}

/// A skipped run is recorded but counts for nothing: appending an entry whose
/// pairs were all skipped leaves the evidence, every verdict and the coverage
/// grid of every build unchanged; when it carries no pairs (as a normalised
/// skipped run never does), the backend pair chosen for every build is
/// unchanged too.
pub proof fn law_skipped_run_changes_no_coverage(
    h: Seq<HistoryEntry>,
    e: HistoryEntry,
    cases: Seq<CorpusCase>,
    b: Seq<char>,
    pair: (Seq<char>, Seq<char>),
    hint: Option<(&str, &str)>,
)
    requires
        e.all_skipped,
    ensures
        candidates(build_entries(h.push(e), b)) == candidates(build_entries(h, b)),
        forall|k: KeyView| verdict_at(h.push(e), b, k) == verdict_at(h, b, k),
        expected_cells(h.push(e), cases, b, pair) == expected_cells(h, cases, b, pair),
        no_evidence(h.push(e), b) == no_evidence(h, b),
        e.pairs@.len() == 0 ==> chosen_pair(h.push(e), b, hint) == chosen_pair(h, b, hint),
{
    lemma_build_entries_push(h, e, b);
    let be = build_entries(h, b);
    if e.build_id@ == b && !digest_seen(be, e.content_digest@) {
        assert(be.push(e).drop_last() =~= be);
        assert(entry_candidates(e) =~= Seq::<CandidateView>::empty());
        assert(candidates(be.push(e)) =~= candidates(be));
    }
    lemma_same_evidence_same_cells(h.push(e), h, cases, b, pair);
    if e.pairs@.len() == 0 {
        lemma_first_pair_backends_push(h, e, b);
    }
}

proof fn lemma_recorded_digest_seen(h: Seq<HistoryEntry>, b: Seq<char>, d: Seq<char>, i: int)
    requires
        0 <= i < h.len(),
        h[i].build_id@ == b,
        h[i].content_digest@ == d,
    ensures
        digest_seen(build_entries(h, b), d),
    decreases h.len(),
{
    assert(h.drop_last().push(h.last()) =~= h);
    lemma_build_entries_push(h.drop_last(), h.last(), b);
    let prev = build_entries(h.drop_last(), b);
    if i == h.len() - 1 {
        if !digest_seen(prev, d) {
            assert(prev.push(h.last())[prev.len() as int].content_digest@ == d);
        }
    } else {
        lemma_recorded_digest_seen(h.drop_last(), b, d, i);
        let j = choose|j: int| 0 <= j < prev.len() && (#[trigger] prev[j]).content_digest@ == d;
        assert(build_entries(h, b)[j] == prev[j]);
    }
}

/// Idempotent-safe retry: re-recording a result already recorded for the same
/// build (same content digest) changes no build's de-duplicated entries, so no
/// verdict, no coverage grid and no absence of evidence changes.
pub proof fn law_rerecord_counts_once(
    h: Seq<HistoryEntry>,
    e: HistoryEntry,
    cases: Seq<CorpusCase>,
    b: Seq<char>,
    pair: (Seq<char>, Seq<char>),
)
    requires
        exists|i: int|
            0 <= i < h.len() && (#[trigger] h[i]).build_id@ == e.build_id@ && h[i].content_digest@
                == e.content_digest@,
    ensures
        build_entries(h.push(e), b) == build_entries(h, b),
        forall|k: KeyView| verdict_at(h.push(e), b, k) == verdict_at(h, b, k),
        expected_cells(h.push(e), cases, b, pair) == expected_cells(h, cases, b, pair),
        no_evidence(h.push(e), b) == no_evidence(h, b),
{
    let i = choose|i: int|
        0 <= i < h.len() && (#[trigger] h[i]).build_id@ == e.build_id@ && h[i].content_digest@
            == e.content_digest@;
    lemma_build_entries_push(h, e, b);
    if e.build_id@ == b {
        lemma_recorded_digest_seen(h, b, e.content_digest@, i);
    }
    lemma_same_evidence_same_cells(h.push(e), h, cases, b, pair);
}

proof fn lemma_unrecorded_build_has_no_entries(h: Seq<HistoryEntry>, b: Seq<char>)
    requires
        forall|i: int| 0 <= i < h.len() ==> (#[trigger] h[i]).build_id@ != b,
    ensures
        build_entries(h, b).len() == 0,
    decreases h.len(),
{
    if h.len() > 0 {
        lemma_unrecorded_build_has_no_entries(h.drop_last(), b);
        assert(h.last() == h[h.len() - 1]);
    }
}

proof fn lemma_count_all_never_tested(cs: Seq<CellView>)
    requires
        forall|j: int| 0 <= j < cs.len() ==> (#[trigger] cs[j]).status == CoverageStatus::NeverTested,
    ensures
        count_status(cs, CoverageStatus::Verified) == 0,
        count_status(cs, CoverageStatus::Mismatch) == 0,
        count_status(cs, CoverageStatus::NeverTested) == cs.len(),
    decreases cs.len(),
{
    if cs.len() > 0 {
        lemma_count_all_never_tested(cs.drop_last());
        assert(cs.last() == cs[cs.len() - 1]);
    }
}

/// A build with no recorded entries has every corpus cell never-tested, nothing
/// verified and nothing mismatched, and it has no evidence.
pub proof fn law_unrecorded_build_is_never_tested(
    h: Seq<HistoryEntry>,
    cases: Seq<CorpusCase>,
    b: Seq<char>,
    pair: (Seq<char>, Seq<char>),
)
    requires
        forall|i: int| 0 <= i < h.len() ==> (#[trigger] h[i]).build_id@ != b,
    ensures
        no_evidence(h, b),
        forall|j: int|
            0 <= j < expected_cells(h, cases, b, pair).len() ==> (#[trigger] expected_cells(
                h,
                cases,
                b,
                pair,
            )[j]).status == CoverageStatus::NeverTested,
        count_status(expected_cells(h, cases, b, pair), CoverageStatus::Verified) == 0,
        count_status(expected_cells(h, cases, b, pair), CoverageStatus::Mismatch) == 0,
        count_status(expected_cells(h, cases, b, pair), CoverageStatus::NeverTested)
            == expected_cells(h, cases, b, pair).len(),
{
    lemma_unrecorded_build_has_no_entries(h, b);
    assert(build_entries(h, b) =~= Seq::<HistoryEntry>::empty());
    assert(candidates(build_entries(h, b)) =~= Seq::<CandidateView>::empty());
    lemma_count_all_never_tested(expected_cells(h, cases, b, pair));
}

/// Every cell has exactly one status: the verified, mismatch and never-tested
/// counts add up to the number of cells (the denominator).
pub proof fn law_counts_partition_cells(cs: Seq<CellView>)
    ensures
        count_status(cs, CoverageStatus::Verified) + count_status(cs, CoverageStatus::Mismatch)
            + count_status(cs, CoverageStatus::NeverTested) == cs.len(),
    decreases cs.len(),
{
    if cs.len() > 0 {
        law_counts_partition_cells(cs.drop_last());
    }
}

/// The latest evidence wins: the verdict chosen for a key comes from a piece of
/// evidence for that key; no evidence for the key was ingested later; and every
/// piece of evidence for it that comes after the winner was ingested strictly
/// earlier.  There is a winner exactly when some evidence exists for the key.
pub proof fn law_latest_evidence_wins(cs: Seq<CandidateView>, k: KeyView)
    ensures
        latest(cs, k) is None <==> (forall|i: int| 0 <= i < cs.len() ==> (#[trigger] cs[i]).0 != k),
        latest(cs, k) matches Some(w) ==> exists|i: int|
            #![trigger cs[i]]
            0 <= i < cs.len() && cs[i].0 == k && cs[i].1 == w.0 && cs[i].2 == w.1 && (forall|j: int|
                0 <= j < cs.len() && (#[trigger] cs[j]).0 == k ==> cs[j].2.spec_at_or_before(w.1))
                && (forall|j: int|
                i < j < cs.len() && (#[trigger] cs[j]).0 == k ==> !w.1.spec_at_or_before(cs[j].2)),
    decreases cs.len(),
{
    if cs.len() > 0 {
        let d = cs.drop_last();
        law_latest_evidence_wins(d, k);
        let c = cs.last();
        assert(forall|i: int| 0 <= i < d.len() ==> #[trigger] d[i] == cs[i]);
        let earlier = latest(d, k);
        match latest(cs, k) {
            Some(w) => {
                if c.0 == k && (match earlier {
                    None => true,
                    Some(x) => x.1.spec_at_or_before(c.2),
                }) {
                    let i = cs.len() - 1;
                    assert(cs[i] == c);
                    match earlier {
                        None => {},
                        Some(x) => {
                            let i0 = choose|i0: int|
                                #![trigger d[i0]]
                                0 <= i0 < d.len() && d[i0].0 == k && d[i0].1 == x.0 && d[i0].2
                                    == x.1 && (forall|j: int|
                                    0 <= j < d.len() && (#[trigger] d[j]).0 == k
                                        ==> d[j].2.spec_at_or_before(x.1)) && (forall|j: int|
                                    i0 < j < d.len() && (#[trigger] d[j]).0 == k
                                        ==> !x.1.spec_at_or_before(d[j].2));
                            assert forall|j: int|
                                0 <= j < cs.len() && (#[trigger] cs[j]).0 == k implies cs[j].2.spec_at_or_before(
                                w.1,
                            ) by {
                                if j < d.len() {
                                    assert(d[j] == cs[j]);
                                }
                            }
                        },
                    }
                    assert forall|j: int|
                        0 <= j < cs.len() && (#[trigger] cs[j]).0 == k implies cs[j].2.spec_at_or_before(
                        w.1,
                    ) by {
                        if j < d.len() {
                            assert(d[j] == cs[j]);
                        }
                    }
                } else {
                    let x = earlier->0;
                    let i0 = choose|i0: int|
                        #![trigger d[i0]]
                        0 <= i0 < d.len() && d[i0].0 == k && d[i0].1 == x.0 && d[i0].2 == x.1 && (
                        forall|j: int|
                            0 <= j < d.len() && (#[trigger] d[j]).0 == k
                                ==> d[j].2.spec_at_or_before(x.1)) && (forall|j: int|
                            i0 < j < d.len() && (#[trigger] d[j]).0 == k
                                ==> !x.1.spec_at_or_before(d[j].2));
                    assert(cs[i0] == d[i0]);
                    assert forall|j: int|
                        0 <= j < cs.len() && (#[trigger] cs[j]).0 == k implies cs[j].2.spec_at_or_before(
                        w.1,
                    ) by {
                        if j < d.len() {
                            assert(d[j] == cs[j]);
                        } else {
                            assert(cs[j] == c);
                        }
                    }
                    assert forall|j: int|
                        i0 < j < cs.len() && (#[trigger] cs[j]).0 == k implies !w.1.spec_at_or_before(
                        cs[j].2,
                    ) by {
                        if j < d.len() {
                            assert(d[j] == cs[j]);
                        } else {
                            assert(cs[j] == c);
                        }
                    }
                }
            },
            None => {
                assert forall|i: int| 0 <= i < cs.len() implies (#[trigger] cs[i]).0 != k by {
                    if i < d.len() {
                        assert(d[i] == cs[i]);
                    }
                }
            },
        }
        if forall|i: int| 0 <= i < cs.len() ==> (#[trigger] cs[i]).0 != k {
            assert(c == cs[cs.len() - 1]);
            assert forall|i: int| 0 <= i < d.len() implies (#[trigger] d[i]).0 != k by {
                assert(d[i] == cs[i]);
            }
        }
    }
}

proof fn lemma_no_evidence_no_verdict(h: Seq<HistoryEntry>, b: Seq<char>, k: KeyView)
    requires
        no_evidence(h, b),
    ensures
        verdict_at(h, b, k) is None,
{
    law_latest_evidence_wins(candidates(build_entries(h, b)), k);
}

proof fn lemma_absent_prior_transitions(
    cs: Seq<KeyView>,
    h: Seq<HistoryEntry>,
    bn: Seq<char>,
    bp: Seq<char>,
)
    requires
        no_evidence(h, bp),
    ensures
        transition_measures(cs, h, bn, bp, newly_broken_rule()).len() == 0,
        transition_measures(cs, h, bn, bp, newly_tested_rule(true)) == transition_measures(
            cs,
            h,
            bn,
            bp,
            evidence_at_n_rule(),
        ),
    decreases cs.len(),
{
    if cs.len() > 0 {
        lemma_absent_prior_transitions(cs.drop_last(), h, bn, bp);
        lemma_no_evidence_no_verdict(h, bp, cs.last());
    }
}

/// Evidence (verified or mismatch) at N, whatever the prior build holds.
pub open spec fn evidence_at_n_rule() -> spec_fn(Option<ParsedVerdict>, Option<ParsedVerdict>) -> bool {
    |n: Option<ParsedVerdict>, prior: Option<ParsedVerdict>|
        n == Some(ParsedVerdict::Verified) || n == Some(ParsedVerdict::Mismatch)
}

/// When the prior build has no evidence, nothing is newly broken, and every
/// cell with evidence at N is newly tested.
pub proof fn law_absent_prior_everything_is_new(
    h: Seq<HistoryEntry>,
    cases: Seq<CorpusCase>,
    bn: Seq<char>,
    bp: Seq<char>,
    hint: Option<(&str, &str)>,
)
    requires
        no_evidence(h, bp),
    ensures
        forall|k: KeyView| #[trigger] verdict_at(h, bp, k) is None,
        transition_measures(
            unique_cells(cases, chosen_pair(h, bn, hint)),
            h,
            bn,
            bp,
            newly_broken_rule(),
        ).len() == 0,
        transition_measures(
            unique_cells(cases, chosen_pair(h, bn, hint)),
            h,
            bn,
            bp,
            newly_tested_rule(no_evidence(h, bp)),
        ) == transition_measures(
            unique_cells(cases, chosen_pair(h, bn, hint)),
            h,
            bn,
            bp,
            evidence_at_n_rule(),
        ),
{
    assert forall|k: KeyView| #[trigger] verdict_at(h, bp, k) is None by {
        lemma_no_evidence_no_verdict(h, bp, k);
    }
    lemma_absent_prior_transitions(unique_cells(cases, chosen_pair(h, bn, hint)), h, bn, bp);
}

/// Recording the same input for the same build twice yields the same content
/// digest, whatever the source label and the time of each recording.
pub proof fn law_digest_ignores_source_and_time(
    e1: HistoryEntry,
    e2: HistoryEntry,
    input: InputReport,
    b: Seq<char>,
    s1: Seq<char>,
    s2: Seq<char>,
    t1: Timestamp,
    t2: Timestamp,
)
    requires
        is_input_entry(e1, input, b, s1, t1),
        is_input_entry(e2, input, b, s2, t2),
    ensures
        e1.content_digest@ == e2.content_digest@,
        e1.build_id@ == e2.build_id@,
{
}

/// A retried recording counts once: once an input has been recorded for a build,
/// recording it again (from any source, at any time) changes no verdict and no
/// coverage grid of any build.
pub proof fn law_retried_record_counts_once(
    h: Seq<HistoryEntry>,
    i: int,
    e: HistoryEntry,
    input: InputReport,
    b: Seq<char>,
    s1: Seq<char>,
    s2: Seq<char>,
    t1: Timestamp,
    t2: Timestamp,
    cases: Seq<CorpusCase>,
    query: Seq<char>,
    pair: (Seq<char>, Seq<char>),
)
    requires
        0 <= i < h.len(),
        is_input_entry(h[i], input, b, s1, t1),
        is_input_entry(e, input, b, s2, t2),
    ensures
        forall|k: KeyView| verdict_at(h.push(e), query, k) == verdict_at(h, query, k),
        expected_cells(h.push(e), cases, query, pair) == expected_cells(h, cases, query, pair),
{
    law_digest_ignores_source_and_time(h[i], e, input, b, s1, s2, t1, t2);
    law_rerecord_counts_once(h, e, cases, query, pair);
}

/// Two coverage summaries report the same thing: same build, corpus version,
/// backend pair, counts, denominator, grid and ungrounded cells.
pub open spec fn same_coverage(s1: CoverageSummary, s2: CoverageSummary) -> bool {
    &&& s1.build_id@ == s2.build_id@
    &&& s1.corpus_version@ == s2.corpus_version@
    &&& s1.backend_a@ == s2.backend_a@
    &&& s1.backend_b@ == s2.backend_b@
    &&& s1.verified_count == s2.verified_count
    &&& s1.mismatch_count == s2.mismatch_count
    &&& s1.never_tested_count == s2.never_tested_count
    &&& s1.denominator == s2.denominator
    &&& cell_list(s1.cells@) == cell_list(s2.cells@)
    &&& cell_list(s1.ungrounded_cells@) == cell_list(s2.ungrounded_cells@)
}

/// Coverage is deterministic: identical (history, corpus, build id, hint)
/// inputs give the same summary.
pub proof fn law_coverage_is_deterministic(
    s1: CoverageSummary,
    s2: CoverageSummary,
    h: Seq<HistoryEntry>,
    corpus: Corpus,
    b: Seq<char>,
    hint: Option<(&str, &str)>,
)
    requires
        is_coverage_summary(s1, h, corpus, b, hint),
        is_coverage_summary(s2, h, corpus, b, hint),
    ensures
        same_coverage(s1, s2),
{
}

/// Deltas are deterministic: identical inputs give the same three lists and
/// the same absence flag.
pub proof fn law_delta_is_deterministic(
    d1: DeltaSummary,
    d2: DeltaSummary,
    h: Seq<HistoryEntry>,
    corpus: Corpus,
    bn: Seq<char>,
    bp: Seq<char>,
    hint: Option<(&str, &str)>,
)
    requires
        is_delta_summary(d1, h, corpus, bn, bp, hint),
        is_delta_summary(d2, h, corpus, bn, bp, hint),
    ensures
        d1.prior_was_absent == d2.prior_was_absent,
        texts(d1.newly_broken@) == texts(d2.newly_broken@),
        texts(d1.newly_verified@) == texts(d2.newly_verified@),
        texts(d1.newly_tested@) == texts(d2.newly_tested@),
{
}

/// Recording a skipped run (all pairs skipped, no pairs kept) leaves the
/// coverage summary of every build as it was.
pub proof fn law_skipped_run_leaves_coverage_unchanged(
    s1: CoverageSummary,
    s2: CoverageSummary,
    h: Seq<HistoryEntry>,
    e: HistoryEntry,
    corpus: Corpus,
    b: Seq<char>,
    hint: Option<(&str, &str)>,
)
    requires
        e.all_skipped,
        e.pairs@.len() == 0,
        is_coverage_summary(s1, h, corpus, b, hint),
        is_coverage_summary(s2, h.push(e), corpus, b, hint),
    ensures
        same_coverage(s1, s2),
{
    law_skipped_run_changes_no_coverage(h, e, corpus.cases@, b, chosen_pair(h, b, hint), hint);
}

// ── Delta against coverage ─────────────────────────────────────────────────

/// A rule on the coverage status of a cell at the prior build and at N.
pub type StatusRule = spec_fn(CoverageStatus, CoverageStatus) -> bool;

/// Verified at the prior build, mismatch at N.
pub open spec fn broken_status_rule() -> StatusRule {
    |prior: CoverageStatus, n: CoverageStatus|
        prior == CoverageStatus::Verified && n == CoverageStatus::Mismatch
}

/// Not verified at the prior build, verified at N.
pub open spec fn verified_status_rule() -> StatusRule {
    |prior: CoverageStatus, n: CoverageStatus|
        prior != CoverageStatus::Verified && n == CoverageStatus::Verified
}

/// Never tested at the prior build, tested at N.
pub open spec fn tested_status_rule() -> StatusRule {
    |prior: CoverageStatus, n: CoverageStatus|
        prior == CoverageStatus::NeverTested && n != CoverageStatus::NeverTested
}

/// The measures of the cells of grid `n` whose status, against the same cell of
/// grid `prior`, satisfies `rule`, in order.
pub open spec fn status_transitions(prior: Seq<CellView>, n: Seq<CellView>, rule: StatusRule) -> Seq<
    Seq<char>,
>
    decreases n.len(),
{
    if n.len() == 0 {
        Seq::empty()
    } else {
        let earlier = status_transitions(prior.drop_last(), n.drop_last(), rule);
        if rule(prior.last().status, n.last().status) {
            earlier.push(n.last().measure)
        } else {
            earlier
        }
    }
}

proof fn lemma_pair_candidates_evidence(ps: Seq<PairRecord>, ts: Timestamp)
    ensures
        forall|i: int|
            0 <= i < pair_candidates(ps, ts).len() ==> (#[trigger] pair_candidates(ps, ts)[i]).1.spec_is_evidence(),
    decreases ps.len(),
{
    if ps.len() > 0 {
        lemma_pair_candidates_evidence(ps.drop_last(), ts);
        let earlier = pair_candidates(ps.drop_last(), ts);
        let all = pair_candidates(ps, ts);
        assert forall|i: int| 0 <= i < all.len() implies (#[trigger] all[i]).1.spec_is_evidence() by {
            if i < earlier.len() {
                assert(all[i] == earlier[i]);
            }
        }
    }
}

proof fn lemma_candidates_evidence(es: Seq<HistoryEntry>)
    ensures
        forall|i: int| 0 <= i < candidates(es).len() ==> (#[trigger] candidates(es)[i]).1.spec_is_evidence(),
    decreases es.len(),
{
    if es.len() > 0 {
        lemma_candidates_evidence(es.drop_last());
        let e = es.last();
        if !e.all_skipped {
            lemma_pair_candidates_evidence(e.pairs@, e.ingest_ts);
        }
        let a = candidates(es.drop_last());
        let b = entry_candidates(e);
        assert forall|i: int| 0 <= i < candidates(es).len() implies (#[trigger] candidates(es)[i]).1.spec_is_evidence() by {
            if i < a.len() {
                assert(candidates(es)[i] == a[i]);
            } else {
                assert(candidates(es)[i] == b[i - a.len()]);
            }
        }
    }
}

proof fn lemma_verdict_is_evidence(h: Seq<HistoryEntry>, b: Seq<char>, k: KeyView)
    ensures
        verdict_at(h, b, k) is None || verdict_at(h, b, k) == Some(ParsedVerdict::Verified)
            || verdict_at(h, b, k) == Some(ParsedVerdict::Mismatch),
{
    let cs = candidates(build_entries(h, b));
    law_latest_evidence_wins(cs, k);
    lemma_candidates_evidence(build_entries(h, b));
}

proof fn lemma_transitions_as_statuses(
    cs: Seq<KeyView>,
    h: Seq<HistoryEntry>,
    cases: Seq<CorpusCase>,
    bn: Seq<char>,
    bp: Seq<char>,
    rule: TransitionRule,
    srule: StatusRule,
)
    requires
        forall|k: KeyView|
            #[trigger] rule(verdict_at(h, bn, k), verdict_at(h, bp, k)) == srule(
                status_of(verdict_at(h, bp, k)),
                status_of(verdict_at(h, bn, k)),
            ),
    ensures
        transition_measures(cs, h, bn, bp, rule) == status_transitions(
            cs.map_values(|c: KeyView| expected_cell(h, cases, bp, c)),
            cs.map_values(|c: KeyView| expected_cell(h, cases, bn, c)),
            srule,
        ),
    decreases cs.len(),
{
    if cs.len() > 0 {
        lemma_transitions_as_statuses(cs.drop_last(), h, cases, bn, bp, rule, srule);
        assert(cs.map_values(|c: KeyView| expected_cell(h, cases, bp, c)).drop_last()
            =~= cs.drop_last().map_values(|c: KeyView| expected_cell(h, cases, bp, c)));
        assert(cs.map_values(|c: KeyView| expected_cell(h, cases, bn, c)).drop_last()
            =~= cs.drop_last().map_values(|c: KeyView| expected_cell(h, cases, bn, c)));
        let k = cs.last();
        assert(rule(verdict_at(h, bn, k), verdict_at(h, bp, k)) == srule(
            status_of(verdict_at(h, bp, k)),
            status_of(verdict_at(h, bn, k)),
        ));
    }
}

/// The delta agrees with coverage: when both builds are measured over the same
/// backend pair, the newly broken, newly verified and newly tested measures
/// are, sorted, exactly the cells whose coverage status went from verified to
/// mismatch, from anything but verified to verified, and from never-tested to
/// tested, between the prior build's summary and N's.
pub proof fn law_delta_agrees_with_coverage(
    d: DeltaSummary,
    sp: CoverageSummary,
    sn: CoverageSummary,
    h: Seq<HistoryEntry>,
    corpus: Corpus,
    bn: Seq<char>,
    bp: Seq<char>,
    hint: Option<(&str, &str)>,
)
    requires
        is_delta_summary(d, h, corpus, bn, bp, hint),
        is_coverage_summary(sp, h, corpus, bp, hint),
        is_coverage_summary(sn, h, corpus, bn, hint),
        sp.backend_a@ == sn.backend_a@,
        sp.backend_b@ == sn.backend_b@,
    ensures
        texts(d.newly_broken@) == insertion_sort(
            status_transitions(cell_list(sp.cells@), cell_list(sn.cells@), broken_status_rule()),
            by_text(),
        ),
        texts(d.newly_verified@) == insertion_sort(
            status_transitions(cell_list(sp.cells@), cell_list(sn.cells@), verified_status_rule()),
            by_text(),
        ),
        texts(d.newly_tested@) == insertion_sort(
            status_transitions(cell_list(sp.cells@), cell_list(sn.cells@), tested_status_rule()),
            by_text(),
        ),
{
    let pair = chosen_pair(h, bn, hint);
    let cs = unique_cells(corpus.cases@, pair);
    let cases = corpus.cases@;
    assert forall|k: KeyView|
        #[trigger] newly_broken_rule()(verdict_at(h, bn, k), verdict_at(h, bp, k))
            == broken_status_rule()(status_of(verdict_at(h, bp, k)), status_of(verdict_at(h, bn, k))) by {
        lemma_verdict_is_evidence(h, bn, k);
        lemma_verdict_is_evidence(h, bp, k);
    }
    assert forall|k: KeyView|
        #[trigger] newly_verified_rule()(verdict_at(h, bn, k), verdict_at(h, bp, k))
            == verified_status_rule()(status_of(verdict_at(h, bp, k)), status_of(verdict_at(h, bn, k))) by {
        lemma_verdict_is_evidence(h, bn, k);
        lemma_verdict_is_evidence(h, bp, k);
    }
    let absent = no_evidence(h, bp);
    assert forall|k: KeyView|
        #[trigger] newly_tested_rule(absent)(verdict_at(h, bn, k), verdict_at(h, bp, k))
            == tested_status_rule()(status_of(verdict_at(h, bp, k)), status_of(verdict_at(h, bn, k))) by {
        lemma_verdict_is_evidence(h, bn, k);
        lemma_verdict_is_evidence(h, bp, k);
        if absent {
            lemma_no_evidence_no_verdict(h, bp, k);
        }
    }
    lemma_transitions_as_statuses(cs, h, cases, bn, bp, newly_broken_rule(), broken_status_rule());
    lemma_transitions_as_statuses(cs, h, cases, bn, bp, newly_verified_rule(), verified_status_rule());
    lemma_transitions_as_statuses(cs, h, cases, bn, bp, newly_tested_rule(absent), tested_status_rule());
}

// ── Entries of other builds ────────────────────────────────────────────────

proof fn lemma_first_pair_backends_push_any(h: Seq<HistoryEntry>, e: HistoryEntry, b: Seq<char>)
    ensures
        first_pair_backends(h.push(e), b) == match first_pair_backends(h, b) {
            Some(p) => Some(p),
            None => if e.build_id@ == b && e.pairs@.len() > 0 {
                Some((e.pairs@[0].backend_a@, e.pairs@[0].backend_b@))
            } else {
                None
            },
        },
    decreases h.len(),
{
    if h.len() == 0 {
        assert(h.push(e).drop_first() =~= h);
        assert(h.push(e)[0] == e);
    } else {
        assert(h.push(e).drop_first() =~= h.drop_first().push(e));
        assert(h.push(e)[0] == h[0]);
        lemma_first_pair_backends_push_any(h.drop_first(), e, b);
    }
}

/// Keeping only entries that include every entry of build `b` changes neither
/// the de-duplicated entries of `b` nor the backend pair recorded for `b`.
proof fn lemma_filter_keeps_build(h: Seq<HistoryEntry>, keep: spec_fn(HistoryEntry) -> bool, b: Seq<char>)
    requires
        forall|e: HistoryEntry| e.build_id@ == b ==> #[trigger] keep(e),
    ensures
        build_entries(h.filter(keep), b) == build_entries(h, b),
        first_pair_backends(h.filter(keep), b) == first_pair_backends(h, b),
    decreases h.len(),
{
    reveal(Seq::filter);
    if h.len() > 0 {
        let d = h.drop_last();
        let e = h.last();
        lemma_filter_keeps_build(d, keep, b);
        assert(d.push(e) =~= h);
        lemma_build_entries_push(d, e, b);
        lemma_first_pair_backends_push_any(d, e, b);
        if keep(e) {
            assert(h.filter(keep) == d.filter(keep).push(e));
            lemma_build_entries_push(d.filter(keep), e, b);
            lemma_first_pair_backends_push_any(d.filter(keep), e, b);
        } else {
            assert(h.filter(keep) == d.filter(keep));
        }
    }
}

/// The entries of builds other than N and the prior build have no effect on
/// the delta between them.
pub proof fn law_delta_ignores_other_builds(
    d1: DeltaSummary,
    d2: DeltaSummary,
    h: Seq<HistoryEntry>,
    corpus: Corpus,
    bn: Seq<char>,
    bp: Seq<char>,
    hint: Option<(&str, &str)>,
)
    requires
        is_delta_summary(d1, h, corpus, bn, bp, hint),
        is_delta_summary(
            d2,
            h.filter(|e: HistoryEntry| e.build_id@ == bn || e.build_id@ == bp),
            corpus,
            bn,
            bp,
            hint,
        ),
    ensures
        d1.prior_was_absent == d2.prior_was_absent,
        texts(d1.newly_broken@) == texts(d2.newly_broken@),
        texts(d1.newly_verified@) == texts(d2.newly_verified@),
        texts(d1.newly_tested@) == texts(d2.newly_tested@),
{
    let keep = |e: HistoryEntry| e.build_id@ == bn || e.build_id@ == bp;
    let h2 = h.filter(keep);
    lemma_filter_keeps_build(h, keep, bn);
    lemma_filter_keeps_build(h, keep, bp);
    assert forall|k: KeyView| verdict_at(h2, bn, k) == verdict_at(h, bn, k) && verdict_at(h2, bp, k)
        == verdict_at(h, bp, k) by {}
    assert(chosen_pair(h2, bn, hint) == chosen_pair(h, bn, hint));
    let cs = unique_cells(corpus.cases@, chosen_pair(h, bn, hint));
    lemma_same_verdicts_same_transitions(cs, h, h2, bn, bp, newly_broken_rule());
    lemma_same_verdicts_same_transitions(cs, h, h2, bn, bp, newly_verified_rule());
    lemma_same_verdicts_same_transitions(cs, h, h2, bn, bp, newly_tested_rule(no_evidence(h, bp)));
}

proof fn lemma_same_verdicts_same_transitions(
    cs: Seq<KeyView>,
    h1: Seq<HistoryEntry>,
    h2: Seq<HistoryEntry>,
    bn: Seq<char>,
    bp: Seq<char>,
    rule: TransitionRule,
)
    requires
        forall|k: KeyView| verdict_at(h2, bn, k) == verdict_at(h1, bn, k) && verdict_at(h2, bp, k)
            == verdict_at(h1, bp, k),
    ensures
        transition_measures(cs, h1, bn, bp, rule) == transition_measures(cs, h2, bn, bp, rule),
    decreases cs.len(),
{
    if cs.len() > 0 {
        lemma_same_verdicts_same_transitions(cs.drop_last(), h1, h2, bn, bp, rule);
        let k = cs.last();
        assert(verdict_at(h2, bn, k) == verdict_at(h1, bn, k));
        assert(verdict_at(h2, bp, k) == verdict_at(h1, bp, k));
    }
}

// ── What each count counts ─────────────────────────────────────────────────

proof fn lemma_count_status_is_filter(cs: Seq<CellView>, st: CoverageStatus)
    ensures
        count_status(cs, st) == cs.filter(|c: CellView| c.status == st).len(),
    decreases cs.len(),
{
    reveal(Seq::filter);
    if cs.len() > 0 {
        lemma_count_status_is_filter(cs.drop_last(), st);
    }
}

/// Each count of a coverage summary is the number of grid cells with that
/// status, whatever their grounding: the verified count is the number of
/// verified cells, the mismatch count the number of mismatched cells, the
/// never-tested count the number of never-tested cells, and together they make
/// the denominator.
pub proof fn law_coverage_counts_count_grid_statuses(
    s: CoverageSummary,
    h: Seq<HistoryEntry>,
    corpus: Corpus,
    b: Seq<char>,
    hint: Option<(&str, &str)>,
)
    requires
        is_coverage_summary(s, h, corpus, b, hint),
    ensures
        s.verified_count == cell_list(s.cells@).filter(
            |c: CellView| c.status == CoverageStatus::Verified,
        ).len(),
        s.mismatch_count == cell_list(s.cells@).filter(
            |c: CellView| c.status == CoverageStatus::Mismatch,
        ).len(),
        s.never_tested_count == cell_list(s.cells@).filter(
            |c: CellView| c.status == CoverageStatus::NeverTested,
        ).len(),
        s.verified_count + s.mismatch_count + s.never_tested_count == s.denominator,
{
    let cs = cell_list(s.cells@);
    lemma_count_status_is_filter(cs, CoverageStatus::Verified);
    lemma_count_status_is_filter(cs, CoverageStatus::Mismatch);
    lemma_count_status_is_filter(cs, CoverageStatus::NeverTested);
    law_counts_partition_cells(cs);
}

// ── What a recorded pair holds ─────────────────────────────────────────────

/// A parity report's entry keeps its pairs in order: pair `i` is about the
/// report's measure (else its MQO path), keeps the pair's backend_a and
/// backend_b, and is verified when the pair was equal or within tolerance, a
/// mismatch when it mismatched and skipped when it was skipped.  A report
/// skipped overall keeps no pairs.
pub proof fn law_parity_entry_keeps_each_pair(
    e: HistoryEntry,
    r: ParityReportInput,
    build_id: Seq<char>,
    source: Seq<char>,
    ts: Timestamp,
)
    requires
        is_parity_entry(e, r, build_id, source, ts),
    ensures
        e.build_id@ == build_id,
        e.source@ == source,
        e.ingest_ts == ts,
        e.all_skipped == (r.overall is AllSkipped),
        e.overall_verdict@ == match r.overall {
            crate::store::OverallVerdictInput::Agree => "Agree"@,
            crate::store::OverallVerdictInput::WithinTolerance => "WithinTolerance"@,
            crate::store::OverallVerdictInput::Mismatch => "Mismatch"@,
            crate::store::OverallVerdictInput::AllSkipped => "AllSkipped"@,
        },
        r.overall is AllSkipped ==> e.pairs@.len() == 0,
        !(r.overall is AllSkipped) ==> e.pairs@.len() == r.pairs@.len(),
        !(r.overall is AllSkipped) ==> forall|i: int|
            0 <= i < r.pairs@.len() ==> {
                let p = #[trigger] e.pairs@[i];
                let t = r.pairs@[i];
                &&& p.measure@ == match r.measure {
                    Some(m) => m@,
                    None => r.mqo_path@,
                }
                &&& p.backend_a@ == t.0@
                &&& p.backend_b@ == t.1@
                &&& (t.2 is Equal ==> p.verdict == ParsedVerdict::Verified)
                &&& (t.2 is WithinTolerance ==> p.verdict == ParsedVerdict::Verified)
                &&& (t.2 is Mismatch ==> p.verdict == ParsedVerdict::Mismatch)
                &&& (t.2 is Skipped ==> p.verdict == ParsedVerdict::Skipped)
            },
{
    assert(e.pairs@.len() == crate::history::record_views(e.pairs@).len());
    if !(r.overall is AllSkipped) {
        assert forall|i: int| 0 <= i < r.pairs@.len() implies {
            let p = #[trigger] e.pairs@[i];
            let t = r.pairs@[i];
            &&& p.measure@ == match r.measure {
                Some(m) => m@,
                None => r.mqo_path@,
            }
            &&& p.backend_a@ == t.0@
            &&& p.backend_b@ == t.1@
            &&& (t.2 is Equal ==> p.verdict == ParsedVerdict::Verified)
            &&& (t.2 is WithinTolerance ==> p.verdict == ParsedVerdict::Verified)
            &&& (t.2 is Mismatch ==> p.verdict == ParsedVerdict::Mismatch)
            &&& (t.2 is Skipped ==> p.verdict == ParsedVerdict::Skipped)
        } by {
            assert(crate::history::record_views(e.pairs@)[i] == e.pairs@[i]@);
        }
    }
}

/// A live-harness entry keeps its cases in order: record `i` holds case `i`'s
/// measure, its backend_a as backend_a and its backend_b as backend_b, and is
/// verified when the case was equal or within tolerance, a mismatch when it
/// mismatched and skipped when it was skipped.  When every case was skipped
/// the entry keeps no records.
pub proof fn law_live_harness_entry_keeps_each_case(
    e: HistoryEntry,
    cases: Seq<LiveHarnessCase>,
    build_id: Seq<char>,
    source: Seq<char>,
    ts: Timestamp,
)
    requires
        is_live_harness_entry(e, cases, build_id, source, ts),
    ensures
        e.build_id@ == build_id,
        e.source@ == source,
        e.ingest_ts == ts,
        e.all_skipped == (forall|i: int| 0 <= i < cases.len() ==> (#[trigger] cases[i]).overall is AllSkipped),
        e.overall_verdict@ == if e.all_skipped {
            "AllSkipped"@
        } else if exists|i: int| 0 <= i < cases.len() && (#[trigger] cases[i]).overall is Mismatch {
            "Mismatch"@
        } else {
            "Agree"@
        },
        e.all_skipped ==> e.pairs@.len() == 0,
        !e.all_skipped ==> e.pairs@.len() == cases.len(),
        !e.all_skipped ==> forall|i: int|
            0 <= i < cases.len() ==> {
                let p = #[trigger] e.pairs@[i];
                let c = cases[i];
                &&& p.measure@ == c.measure@
                &&& p.backend_a@ == c.backend_a@
                &&& p.backend_b@ == c.backend_b@
                &&& (c.verdict is Equal ==> p.verdict == ParsedVerdict::Verified)
                &&& (c.verdict is WithinTolerance ==> p.verdict == ParsedVerdict::Verified)
                &&& (c.verdict is Mismatch ==> p.verdict == ParsedVerdict::Mismatch)
                &&& (c.verdict is Skipped ==> p.verdict == ParsedVerdict::Skipped)
            },
{
    assert(e.pairs@.len() == crate::history::record_views(e.pairs@).len());
    if !e.all_skipped {
        assert forall|i: int| 0 <= i < cases.len() implies {
            let p = #[trigger] e.pairs@[i];
            let c = cases[i];
            &&& p.measure@ == c.measure@
            &&& p.backend_a@ == c.backend_a@
            &&& p.backend_b@ == c.backend_b@
            &&& (c.verdict is Equal ==> p.verdict == ParsedVerdict::Verified)
            &&& (c.verdict is WithinTolerance ==> p.verdict == ParsedVerdict::Verified)
            &&& (c.verdict is Mismatch ==> p.verdict == ParsedVerdict::Mismatch)
            &&& (c.verdict is Skipped ==> p.verdict == ParsedVerdict::Skipped)
        } by {
            assert(crate::history::record_views(e.pairs@)[i] == e.pairs@[i]@);
        }
    }
}

// ── What the coverage grid holds ───────────────────────────────────────────

/// Some corpus case without grounding lists measure `m`.
pub open spec fn listed_ungrounded(cases: Seq<CorpusCase>, m: Seq<char>) -> bool {
    exists|i: int, k: int|
        0 <= i < cases.len() && !cases[i].has_grounding && 0 <= k < cases[i].measures@.len()
            && (#[trigger] cases[i].measures@[k])@ == m
}

proof fn lemma_ungrounded_measures_contains(cases: Seq<CorpusCase>, m: Seq<char>)
    ensures
        ungrounded_measures(cases).contains(m) <==> listed_ungrounded(cases, m),
    decreases cases.len(),
{
    if cases.len() > 0 {
        let rest = cases.drop_last();
        let last = cases.last();
        lemma_ungrounded_measures_contains(rest, m);
        if listed_ungrounded(rest, m) {
            let (i, k) = choose|i: int, k: int|
                0 <= i < rest.len() && !rest[i].has_grounding && 0 <= k < rest[i].measures@.len()
                    && (#[trigger] rest[i].measures@[k])@ == m;
            assert(cases[i] == rest[i]);
            assert(cases[i].measures@[k]@ == m);
        }
        if listed_ungrounded(cases, m) {
            let (i, k) = choose|i: int, k: int|
                0 <= i < cases.len() && !cases[i].has_grounding && 0 <= k < cases[i].measures@.len()
                    && (#[trigger] cases[i].measures@[k])@ == m;
            if i < cases.len() - 1 {
                assert(rest[i] == cases[i]);
                assert(rest[i].measures@[k]@ == m);
                assert(listed_ungrounded(rest, m));
            }
        }
        if !last.has_grounding {
            let u = ungrounded_measures(rest);
            let t = texts(last.measures@);
            assert(ungrounded_measures(cases) == u + t);
            if (u + t).contains(m) {
                let x = choose|x: int| 0 <= x < (u + t).len() && (u + t)[x] == m;
                if x >= u.len() {
                    assert(t[x - u.len()] == m);
                    assert(cases[cases.len() - 1].measures@[x - u.len()]@ == m);
                } else {
                    assert(u[x] == m);
                }
            }
            if listed_ungrounded(cases, m) && !listed_ungrounded(rest, m) {
                let (i, k) = choose|i: int, k: int|
                    0 <= i < cases.len() && !cases[i].has_grounding && 0 <= k
                        < cases[i].measures@.len() && (#[trigger] cases[i].measures@[k])@ == m;
                if i == cases.len() - 1 {
                    assert(t[k] == m);
                    assert((u + t)[u.len() + k] == m);
                } else {
                    assert(rest[i] == cases[i]);
                    assert(rest[i].measures@[k]@ == m);
                }
            }
            if u.contains(m) {
                let x = choose|x: int| 0 <= x < u.len() && u[x] == m;
                assert((u + t)[x] == m);
            }
        } else {
            if listed_ungrounded(cases, m) {
                let (i, k) = choose|i: int, k: int|
                    0 <= i < cases.len() && !cases[i].has_grounding && 0 <= k
                        < cases[i].measures@.len() && (#[trigger] cases[i].measures@[k])@ == m;
                assert(i != cases.len() - 1);
                assert(rest[i] == cases[i]);
                assert(rest[i].measures@[k]@ == m);
            }
        }
    }
}

proof fn lemma_ungrounded_only_is_filter(cs: Seq<CellView>)
    ensures
        crate::summary::ungrounded_only(cs) == cs.filter(|c: CellView| c.ungrounded),
    decreases cs.len(),
{
    reveal(Seq::filter);
    if cs.len() > 0 {
        lemma_ungrounded_only_is_filter(cs.drop_last());
    }
}

/// The coverage grid has one cell per distinct corpus cell of the chosen
/// backend pair, in order.  Each cell keeps that cell's measure and backends;
/// it is verified when the latest verdict at the build is verified, a
/// mismatch when it is a mismatch, and never-tested otherwise (no verdict, or
/// only skipped); it is ungrounded exactly when some ungrounded corpus case
/// lists its measure.  The ungrounded cells are the grid's ungrounded cells,
/// in order.
pub proof fn law_coverage_grid_cells(
    s: CoverageSummary,
    h: Seq<HistoryEntry>,
    corpus: Corpus,
    b: Seq<char>,
    hint: Option<(&str, &str)>,
)
    requires
        is_coverage_summary(s, h, corpus, b, hint),
    ensures
        s.cells@.len() == unique_cells(corpus.cases@, chosen_pair(h, b, hint)).len(),
        forall|j: int|
            0 <= j < s.cells@.len() ==> {
                let c = #[trigger] s.cells@[j];
                let k = unique_cells(corpus.cases@, chosen_pair(h, b, hint))[j];
                &&& (c.measure@, c.backend_a@, c.backend_b@) == k
                &&& c.status == match verdict_at(h, b, k) {
                    Some(ParsedVerdict::Verified) => CoverageStatus::Verified,
                    Some(ParsedVerdict::Mismatch) => CoverageStatus::Mismatch,
                    _ => CoverageStatus::NeverTested,
                }
                &&& c.ungrounded == listed_ungrounded(corpus.cases@, k.0)
            },
        cell_list(s.ungrounded_cells@) == cell_list(s.cells@).filter(|c: CellView| c.ungrounded),
{
    let u = unique_cells(corpus.cases@, chosen_pair(h, b, hint));
    assert(cell_list(s.cells@).len() == s.cells@.len());
    assert forall|j: int| 0 <= j < s.cells@.len() implies {
        let c = #[trigger] s.cells@[j];
        let k = u[j];
        &&& (c.measure@, c.backend_a@, c.backend_b@) == k
        &&& c.status == match verdict_at(h, b, k) {
            Some(ParsedVerdict::Verified) => CoverageStatus::Verified,
            Some(ParsedVerdict::Mismatch) => CoverageStatus::Mismatch,
            _ => CoverageStatus::NeverTested,
        }
        &&& c.ungrounded == listed_ungrounded(corpus.cases@, k.0)
    } by {
        assert(cell_list(s.cells@)[j] == s.cells@[j]@);
        assert(expected_cells(h, corpus.cases@, b, chosen_pair(h, b, hint))[j] == expected_cell(
            h,
            corpus.cases@,
            b,
            u[j],
        ));
        lemma_ungrounded_measures_contains(corpus.cases@, u[j].0);
    }
    lemma_ungrounded_only_is_filter(cell_list(s.cells@));
}

} // verus!
