//! Coverage and delta computation.
//!
//! Both are deterministic and offline: they read nothing but their arguments.

use vstd::prelude::*;

use crate::corpus::{case_cells, cell_views, Corpus, CorpusCase, ungrounded_measures};
use crate::history::{HistoryEntry, KeyView, PairKey, PairRecord, ParsedVerdict, Timestamp};
use crate::text::{
    by_text, contains_text, dedup, insertion_sort, law_by_text_is_strict_order,
    law_insertion_sort_sorts, owned, sort_texts, sorted_by, texts,
};

verus! {

// ── The verdict map ────────────────────────────────────────────────────────

/// Some entry of `es` carries the content digest `d`.
pub open spec fn digest_seen(es: Seq<HistoryEntry>, d: Seq<char>) -> bool {
    exists|j: int| 0 <= j < es.len() && (#[trigger] es[j]).content_digest@ == d
}

/// The entries of build `b`, in history order, keeping only the first entry
/// with each content digest (a re-record of the same result counts once).
pub open spec fn build_entries(h: Seq<HistoryEntry>, b: Seq<char>) -> Seq<HistoryEntry>
    decreases h.len(),
{
    if h.len() == 0 {
        Seq::empty()
    } else {
        let kept = build_entries(h.drop_last(), b);
        let e = h.last();
        if e.build_id@ == b && !digest_seen(kept, e.content_digest@) {
            kept.push(e)
        } else {
            kept
        }
    }
}

/// A piece of coverage evidence: a key, its verdict, and when it was ingested.
pub type CandidateView = (KeyView, ParsedVerdict, Timestamp);

/// The evidence (verified or mismatch) pairs of `ps`, in order, stamped with `ts`.
pub open spec fn pair_candidates(ps: Seq<PairRecord>, ts: Timestamp) -> Seq<CandidateView>
    decreases ps.len(),
{
    if ps.len() == 0 {
        Seq::empty()
    } else {
        let earlier = pair_candidates(ps.drop_last(), ts);
        let p = ps.last();
        if p.verdict.spec_is_evidence() {
            earlier.push((p.spec_key(), p.verdict, ts))
        } else {
            earlier
        }
    }
}

/// The evidence an entry contributes: none when every pair was skipped.
pub open spec fn entry_candidates(e: HistoryEntry) -> Seq<CandidateView> {
    if e.all_skipped {
        Seq::empty()
    } else {
        pair_candidates(e.pairs@, e.ingest_ts)
    }
}

/// The evidence of a sequence of entries, entry by entry.
pub open spec fn candidates(es: Seq<HistoryEntry>) -> Seq<CandidateView>
    decreases es.len(),
{
    if es.len() == 0 {
        Seq::empty()
    } else {
        candidates(es.drop_last()) + entry_candidates(es.last())
    }
}

/// The winning evidence for key `k`: the one ingested latest, and among those
/// ingested at the same instant the one that comes last.
pub open spec fn latest(cs: Seq<CandidateView>, k: KeyView) -> Option<(ParsedVerdict, Timestamp)>
    decreases cs.len(),
{
    if cs.len() == 0 {
        None
    } else {
        let earlier = latest(cs.drop_last(), k);
        let c = cs.last();
        let later = match earlier {
            None => true,
            Some(w) => w.1.spec_at_or_before(c.2),
        };
        if c.0 == k && later {
            Some((c.1, c.2))
        } else {
            earlier
        }
    }
}

/// The verdict recorded for key `k` at build `b`, if any evidence exists.
pub open spec fn verdict_at(h: Seq<HistoryEntry>, b: Seq<char>, k: KeyView) -> Option<ParsedVerdict> {
    match latest(candidates(build_entries(h, b)), k) {
        Some(w) => Some(w.0),
        None => None,
    }
}

/// Build `b` has no evidence at all in `h`.
pub open spec fn no_evidence(h: Seq<HistoryEntry>, b: Seq<char>) -> bool {
    candidates(build_entries(h, b)).len() == 0
}

/// One piece of evidence held by a verdict map.
struct VerdictCandidate {
    key: PairKey,
    verdict: ParsedVerdict,
    ts: Timestamp,
}

impl View for VerdictCandidate {
    type V = CandidateView;

    closed spec fn view(&self) -> CandidateView {
        (self.key@, self.verdict, self.ts)
    }
}

spec fn candidate_views(s: Seq<VerdictCandidate>) -> Seq<CandidateView> {
    s.map_values(|c: VerdictCandidate| c@)
}

/// The latest verdict per key of one build, answered from its evidence.
struct VerdictMap {
    cands: Vec<VerdictCandidate>,
}

impl View for VerdictMap {
    type V = Seq<CandidateView>;

    closed spec fn view(&self) -> Seq<CandidateView> {
        candidate_views(self.cands@)
    }
}

impl VerdictMap {
    /// The latest verdict for `key`, if any.
    fn get(&self, key: &PairKey) -> (r: Option<ParsedVerdict>)
        ensures
            r == (match latest(self@, key@) {
                Some(w) => Some(w.0),
                None => None,
            }),
    {
        let mut best: Option<(ParsedVerdict, Timestamp)> = None;
        let n = self.cands.len();
        for i in 0..n
            invariant
                n == self.cands@.len(),
                best == latest(self@.take(i as int), key@),
        {
            let c = &self.cands[i];
            proof {
                assert(self@.take(i + 1).drop_last() =~= self@.take(i as int));
                assert(self@.take(i + 1).last() == c@);
            }
            if c.key.same_as(key) {
                let replace = match &best {
                    None => true,
                    Some(w) => w.1.at_or_before(&c.ts),
                };
                if replace {
                    best = Some((c.verdict, c.ts));
                }
            }
        }
        assert(self@.take(n as int) =~= self@);
        match best {
            Some(w) => Some(w.0),
            None => None,
        }
    }

    /// Whether the map holds no evidence at all.
    fn is_empty(&self) -> (r: bool)
        ensures
            r == (self@.len() == 0),
    {
        self.cands.len() == 0
    }
}

/// Appends the evidence of entry `e` to `cands`.
fn push_entry_candidates(cands: &mut Vec<VerdictCandidate>, e: &HistoryEntry)
    ensures
        candidate_views(final(cands)@) == candidate_views(old(cands)@) + entry_candidates(*e),
{
    let ghost base = candidate_views(cands@);
    if e.all_skipped {
        assert(candidate_views(cands@) =~= base + entry_candidates(*e));
        return;
    }
    let n = e.pairs.len();
    for k in 0..n
        invariant
            n == e.pairs@.len(),
            !e.all_skipped,
            candidate_views(cands@) == base + pair_candidates(e.pairs@.take(k as int), e.ingest_ts),
    {
        let p = &e.pairs[k];
        proof {
            assert(e.pairs@.take(k + 1).drop_last() =~= e.pairs@.take(k as int));
            assert(e.pairs@.take(k + 1).last() == *p);
        }
        if p.verdict.is_evidence() {
            let ghost before = cands@;
            cands.push(VerdictCandidate { key: p.key(), verdict: p.verdict, ts: e.ingest_ts });
            assert(candidate_views(cands@) =~= candidate_views(before).push(
                (p.spec_key(), p.verdict, e.ingest_ts),
            ));
        }
    }
    assert(e.pairs@.take(n as int) =~= e.pairs@);
}

proof fn lemma_build_entries_step(h: Seq<HistoryEntry>, b: Seq<char>, i: int)
    requires
        0 <= i < h.len(),
    ensures
        build_entries(h.take(i + 1), b) == (if h[i].build_id@ == b && !digest_seen(
            build_entries(h.take(i), b),
            h[i].content_digest@,
        ) {
            build_entries(h.take(i), b).push(h[i])
        } else {
            build_entries(h.take(i), b)
        }),
{
    assert(h.take(i + 1).drop_last() =~= h.take(i));
}

/// Builds the verdict map of build `build_id`: entries de-duplicated by content
/// digest, skipped runs contributing nothing, the latest ingest winning.
fn build_verdict_map(history: &[HistoryEntry], build_id: &str) -> (m: VerdictMap)
    ensures
        m@ == candidates(build_entries(history@, build_id@)),
{
    let b = owned(build_id);
    let mut kept: Vec<usize> = Vec::new();
    let mut cands: Vec<VerdictCandidate> = Vec::new();
    let n = history.len();
    for i in 0..n
        invariant
            n == history@.len(),
            b@ == build_id@,
            kept@.len() == build_entries(history@.take(i as int), b@).len(),
            forall|j: int|
                0 <= j < kept@.len() ==> #[trigger] kept@[j] < i && history@[kept@[j] as int]
                    == build_entries(history@.take(i as int), b@)[j],
            candidate_views(cands@) == candidates(build_entries(history@.take(i as int), b@)),
    {
        let e = &history[i];
        let ghost kept_entries = build_entries(history@.take(i as int), b@);
        proof {
            lemma_build_entries_step(history@, b@, i as int);
        }
        if e.build_id == b {
            let mut seen = false;
            let nk = kept.len();
            for j in 0..nk
                invariant
                    nk == kept@.len(),
                    kept@.len() == kept_entries.len(),
                    forall|jj: int|
                        0 <= jj < kept@.len() ==> #[trigger] kept@[jj] < i && history@[kept@[jj] as int]
                            == kept_entries[jj],
                    i < history@.len(),
                    *e == history@[i as int],
                    seen == (exists|jj: int|
                        0 <= jj < j && (#[trigger] kept_entries[jj]).content_digest@
                            == e.content_digest@),
            {
                if history[kept[j]].content_digest == e.content_digest {
                    seen = true;
                }
            }
            if !seen {
                proof {
                    assert(!digest_seen(kept_entries, e.content_digest@));
                }
                kept.push(i);
                push_entry_candidates(&mut cands, e);
                proof {
                    assert(kept_entries.push(*e).drop_last() =~= kept_entries);
                }
            } else {
                proof {
                    let jj = choose|jj: int|
                        0 <= jj < nk && (#[trigger] kept_entries[jj]).content_digest@
                            == e.content_digest@;
                    assert(digest_seen(kept_entries, e.content_digest@));
                }
            }
        }
    }
    assert(history@.take(n as int) =~= history@);
    VerdictMap { cands }
}

// ── The backend pair ───────────────────────────────────────────────────────

/// The backends of the first pair of the first entry of build `b` that has pairs.
pub open spec fn first_pair_backends(h: Seq<HistoryEntry>, b: Seq<char>) -> Option<
    (Seq<char>, Seq<char>),
>
    decreases h.len(),
{
    if h.len() == 0 {
        None
    } else if h[0].build_id@ == b && h[0].pairs@.len() > 0 {
        Some((h[0].pairs@[0].backend_a@, h[0].pairs@[0].backend_b@))
    } else {
        first_pair_backends(h.drop_first(), b)
    }
}

/// The views of an optional backend-pair hint.
pub open spec fn hint_view(hint: Option<(&str, &str)>) -> Option<(Seq<char>, Seq<char>)> {
    match hint {
        Some(p) => Some((p.0@, p.1@)),
        None => None,
    }
}

/// The backend pair used as the denominator: the first pair recorded for `b`,
/// else the hint, else ("dax", "sql").
pub open spec fn chosen_pair(h: Seq<HistoryEntry>, b: Seq<char>, hint: Option<(&str, &str)>) -> (
    Seq<char>,
    Seq<char>,
) {
    match first_pair_backends(h, b) {
        Some(p) => p,
        None => match hint_view(hint) {
            Some(p) => p,
            None => ("dax"@, "sql"@),
        },
    }
}

/// Detects the backend pair to use for the denominator.
fn detect_pair(history: &[HistoryEntry], build_id: &str, hint: Option<(&str, &str)>) -> (r: (
    String,
    String,
))
    ensures
        (r.0@, r.1@) == chosen_pair(history@, build_id@, hint),
{
    let b = owned(build_id);
    let n = history.len();
    assert(history@.skip(0) =~= history@);
    for i in 0..n
        invariant
            n == history@.len(),
            b@ == build_id@,
            first_pair_backends(history@, b@) == first_pair_backends(history@.skip(i as int), b@),
    {
        let entry = &history[i];
        proof {
            assert(history@.skip(i as int)[0] == *entry);
            assert(history@.skip(i as int).drop_first() =~= history@.skip(i + 1));
        }
        if entry.build_id == b && entry.pairs.len() > 0 {
            let pair = &entry.pairs[0];
            return (pair.backend_a.clone(), pair.backend_b.clone());
        }
    }
    assert(history@.skip(n as int) =~= Seq::<HistoryEntry>::empty());
    match hint {
        Some((a, b)) => (owned(a), owned(b)),
        None => (owned("dax"), owned("sql")),
    }
}

// ── The corpus cells ───────────────────────────────────────────────────────

/// The distinct (measure, backend_a, backend_b) cells of the corpus for one
/// backend pair, in order of first appearance: the coverage denominator.
pub open spec fn unique_cells(cases: Seq<CorpusCase>, pair: (Seq<char>, Seq<char>)) -> Seq<KeyView> {
    dedup(case_cells(cases, pair.0, pair.1))
}

fn same_cell(x: &(String, String, String), y: &(String, String, String)) -> (r: bool)
    ensures
        r == ((x.0@, x.1@, x.2@) == (y.0@, y.1@, y.2@)),
{
    x.0 == y.0 && x.1 == y.1 && x.2 == y.2
}

/// The positions in `all` of the first occurrence of each distinct cell.
fn unique_cell_indices(all: &Vec<(String, String, String)>) -> (u: Vec<usize>)
    ensures
        u@.len() == dedup(cell_views(all@)).len(),
        forall|j: int|
            0 <= j < u@.len() ==> #[trigger] u@[j] < all@.len() && cell_views(all@)[u@[j] as int]
                == dedup(cell_views(all@))[j],
{
    let ghost cv = cell_views(all@);
    let mut u: Vec<usize> = Vec::new();
    let n = all.len();
    for i in 0..n
        invariant
            n == all@.len(),
            cv == cell_views(all@),
            u@.len() == dedup(cv.take(i as int)).len(),
            forall|j: int|
                0 <= j < u@.len() ==> #[trigger] u@[j] < i && cv[u@[j] as int] == dedup(
                    cv.take(i as int),
                )[j],
    {
        let ghost d = dedup(cv.take(i as int));
        let mut seen = false;
        let nu = u.len();
        for j in 0..nu
            invariant
                nu == u@.len(),
                u@.len() == d.len(),
                i < n,
                n == all@.len(),
                cv == cell_views(all@),
                forall|jj: int| 0 <= jj < u@.len() ==> #[trigger] u@[jj] < i && cv[u@[jj] as int] == d[jj],
                seen == (exists|jj: int| 0 <= jj < j && #[trigger] d[jj] == cv[i as int]),
        {
            if same_cell(&all[u[j]], &all[i]) {
                seen = true;
            }
        }
        proof {
            assert(cv.take(i + 1).drop_last() =~= cv.take(i as int));
            assert(cv.take(i + 1).last() == cv[i as int]);
            if seen {
                let jj = choose|jj: int| 0 <= jj < nu && #[trigger] d[jj] == cv[i as int];
                assert(d.contains(cv[i as int]));
            } else {
                assert(!d.contains(cv[i as int]));
            }
        }
        if !seen {
            u.push(i);
            proof {
                assert(dedup(cv.take(i + 1)) == d.push(cv[i as int]));
            }
        }
    }
    assert(cv.take(n as int) =~= cv);
    u
}

// ── Coverage ───────────────────────────────────────────────────────────────

/// Per-(measure, backend-pair) coverage status.
#[derive(Debug, Clone, Copy, PartialEq, Eq, Structural)]
pub enum CoverageStatus {
    /// Latest recorded verdict is `Equal` or `WithinTolerance`.
    Verified,
    /// Latest recorded verdict is `Mismatch`.
    Mismatch,
    /// In the corpus denominator but no non-skipped verdict recorded at this build.
    NeverTested,
}

/// One cell in the coverage grid.
#[derive(Debug, Clone)]
pub struct CoverageCell {
    /// The measure unique-name.
    pub measure: String,
    /// First backend.
    pub backend_a: String,
    /// Second backend.
    pub backend_b: String,
    /// The coverage status for this (measure, pair) at the queried build.
    pub status: CoverageStatus,
    /// Whether the corpus marks this case as `has_grounding = false`.
    pub ungrounded: bool,
}

/// The view of a coverage cell.
pub struct CellView {
    /// The measure unique-name.
    pub measure: Seq<char>,
    /// First backend.
    pub backend_a: Seq<char>,
    /// Second backend.
    pub backend_b: Seq<char>,
    /// The coverage status.
    pub status: CoverageStatus,
    /// Whether the measure belongs to an ungrounded case.
    pub ungrounded: bool,
}

impl View for CoverageCell {
    type V = CellView;

    open spec fn view(&self) -> CellView {
        CellView {
            measure: self.measure@,
            backend_a: self.backend_a@,
            backend_b: self.backend_b@,
            status: self.status,
            ungrounded: self.ungrounded,
        }
    }
}

/// The views of a sequence of coverage cells.
pub open spec fn cell_list(cs: Seq<CoverageCell>) -> Seq<CellView> {
    cs.map_values(|c: CoverageCell| c@)
}

/// Summary returned by [`coverage_summary`].
///
/// The coverage percentage is `verified_count / denominator * 100` (0 when the
/// denominator is 0); it is a float and is rendered by the program.
#[derive(Debug, Clone)]
pub struct CoverageSummary {
    /// The build id this summary is for.
    pub build_id: String,
    /// The corpus version used as the denominator.
    pub corpus_version: String,
    /// Number of (measure, pair) cells with status `Verified`.
    pub verified_count: usize,
    /// Number of (measure, pair) cells with status `Mismatch`.
    pub mismatch_count: usize,
    /// Number of (measure, pair) cells with status `NeverTested`.
    pub never_tested_count: usize,
    /// Total denominator (all distinct corpus cells for the pair of interest).
    pub denominator: usize,
    /// The backend pair used as the denominator.
    pub backend_a: String,
    /// Second backend.
    pub backend_b: String,
    /// Per-cell detail.
    pub cells: Vec<CoverageCell>,
    /// Cells whose corpus entry has `has_grounding = false`, reported separately.
    pub ungrounded_cells: Vec<CoverageCell>,
}

/// The status a recorded verdict gives a cell.
pub open spec fn status_of(v: Option<ParsedVerdict>) -> CoverageStatus {
    match v {
        Some(ParsedVerdict::Verified) => CoverageStatus::Verified,
        Some(ParsedVerdict::Mismatch) => CoverageStatus::Mismatch,
        _ => CoverageStatus::NeverTested,
    }
}

/// The expected coverage cell for corpus cell `c` at build `b`.
pub open spec fn expected_cell(
    h: Seq<HistoryEntry>,
    cases: Seq<CorpusCase>,
    b: Seq<char>,
    c: KeyView,
) -> CellView {
    CellView {
        measure: c.0,
        backend_a: c.1,
        backend_b: c.2,
        status: status_of(verdict_at(h, b, c)),
        ungrounded: ungrounded_measures(cases).contains(c.0),
    }
}

/// The coverage grid of build `b` over the corpus cells of backend pair `pair`.
pub open spec fn expected_cells(
    h: Seq<HistoryEntry>,
    cases: Seq<CorpusCase>,
    b: Seq<char>,
    pair: (Seq<char>, Seq<char>),
) -> Seq<CellView> {
    unique_cells(cases, pair).map_values(|c: KeyView| expected_cell(h, cases, b, c))
}

/// How many cells of `cs` have status `st`.
pub open spec fn count_status(cs: Seq<CellView>, st: CoverageStatus) -> nat
    decreases cs.len(),
{
    if cs.len() == 0 {
        0
    } else {
        count_status(cs.drop_last(), st) + if cs.last().status == st {
            1nat
        } else {
            0nat
        }
    }
}

/// The cells of `cs` that are ungrounded, in order.
pub open spec fn ungrounded_only(cs: Seq<CellView>) -> Seq<CellView>
    decreases cs.len(),
{
    if cs.len() == 0 {
        cs
    } else if cs.last().ungrounded {
        ungrounded_only(cs.drop_last()).push(cs.last())
    } else {
        ungrounded_only(cs.drop_last())
    }
}

proof fn lemma_count_status_bound(cs: Seq<CellView>, st: CoverageStatus)
    ensures
        count_status(cs, st) <= cs.len(),
    decreases cs.len(),
{
    if cs.len() > 0 {
        lemma_count_status_bound(cs.drop_last(), st);
    }
}

/// The measures of the corpus cases that have no grounding.
fn ungrounded_list(corpus: &Corpus) -> (out: Vec<String>)
    ensures
        texts(out@) == ungrounded_measures(corpus.cases@),
{
    let mut out: Vec<String> = Vec::new();
    let n = corpus.cases.len();
    for i in 0..n
        invariant
            n == corpus.cases@.len(),
            texts(out@) == ungrounded_measures(corpus.cases@.take(i as int)),
    {
        let case = &corpus.cases[i];
        proof {
            assert(corpus.cases@.take(i + 1).drop_last() =~= corpus.cases@.take(i as int));
        }
        if !case.has_grounding {
            let m = case.measures.len();
            let ghost prefix = texts(out@);
            for j in 0..m
                invariant
                    m == case.measures@.len(),
                    texts(out@) == prefix + texts(case.measures@.take(j as int)),
            {
                let ghost before = out@;
                out.push(case.measures[j].clone());
                assert(texts(out@) =~= texts(before).push(case.measures@[j as int]@));
                assert(texts(case.measures@.take(j + 1)) =~= texts(case.measures@.take(j as int)).push(
                    case.measures@[j as int]@,
                ));
                assert(texts(out@) =~= prefix + texts(case.measures@.take(j + 1)));
            }
            assert(case.measures@.take(m as int) =~= case.measures@);
        }
    }
    assert(corpus.cases@.take(n as int) =~= corpus.cases@);
    out
}

/// `s` is the coverage of build `b` over `corpus`, given history `h` and the
/// backend-pair hint: its grid holds the expected cell of every distinct corpus
/// cell of the chosen backend pair, its counts count the grid's statuses, and
/// its ungrounded cells are the grid's ungrounded cells, in order.
pub open spec fn is_coverage_summary(
    s: CoverageSummary,
    h: Seq<HistoryEntry>,
    corpus: Corpus,
    b: Seq<char>,
    hint: Option<(&str, &str)>,
) -> bool {
    &&& s.build_id@ == b
    &&& s.corpus_version@ == corpus.version@
    &&& (s.backend_a@, s.backend_b@) == chosen_pair(h, b, hint)
    &&& cell_list(s.cells@) == expected_cells(h, corpus.cases@, b, chosen_pair(h, b, hint))
    &&& s.denominator == s.cells@.len()
    &&& s.verified_count == count_status(cell_list(s.cells@), CoverageStatus::Verified)
    &&& s.mismatch_count == count_status(cell_list(s.cells@), CoverageStatus::Mismatch)
    &&& s.never_tested_count == count_status(cell_list(s.cells@), CoverageStatus::NeverTested)
    &&& cell_list(s.ungrounded_cells@) == ungrounded_only(cell_list(s.cells@))
}

/// Computes denominator-based coverage for `build_id` from `history` and `corpus`.
///
/// The denominator is every distinct (measure, pair) cell of the corpus for the
/// backend pair recorded for `build_id` (else `hint_pair`, else dax/sql).  A cell
/// is verified or mismatch by the latest evidence recorded for it at that build,
/// after de-duplicating re-recorded entries by content digest; otherwise it is
/// never-tested.  Skipped runs contribute nothing.
pub fn coverage_summary(
    history: &[HistoryEntry],
    corpus: &Corpus,
    build_id: &str,
    hint_pair: Option<(&str, &str)>,
) -> (s: CoverageSummary)
    ensures
        is_coverage_summary(s, history@, *corpus, build_id@, hint_pair),
{
    let (backend_a, backend_b) = detect_pair(history, build_id, hint_pair);
    let verdicts = build_verdict_map(history, build_id);
    let ungrounded_measures_list = ungrounded_list(corpus);
    let all = corpus.cells_for_pair(backend_a.as_str(), backend_b.as_str());
    let uniq = unique_cell_indices(&all);
    let ghost pair = (backend_a@, backend_b@);
    let ghost expected = expected_cells(history@, corpus.cases@, build_id@, pair);

    let mut cells: Vec<CoverageCell> = Vec::new();
    let mut ungrounded_cells: Vec<CoverageCell> = Vec::new();
    let mut verified_count: usize = 0;
    let mut mismatch_count: usize = 0;
    let mut never_tested_count: usize = 0;

    let n = uniq.len();
    for k in 0..n
        invariant
            n == uniq@.len(),
            uniq@.len() == dedup(cell_views(all@)).len(),
            forall|j: int|
                0 <= j < uniq@.len() ==> #[trigger] uniq@[j] < all@.len() && cell_views(all@)[uniq@[j] as int]
                    == dedup(cell_views(all@))[j],
            cell_views(all@) == case_cells(corpus.cases@, backend_a@, backend_b@),
            pair == (backend_a@, backend_b@),
            expected == expected_cells(history@, corpus.cases@, build_id@, pair),
            verdicts@ == candidates(build_entries(history@, build_id@)),
            texts(ungrounded_measures_list@) == ungrounded_measures(corpus.cases@),
            cell_list(cells@) == expected.take(k as int),
            verified_count == count_status(cell_list(cells@), CoverageStatus::Verified),
            mismatch_count == count_status(cell_list(cells@), CoverageStatus::Mismatch),
            never_tested_count == count_status(cell_list(cells@), CoverageStatus::NeverTested),
            cell_list(ungrounded_cells@) == ungrounded_only(cell_list(cells@)),
            cells@.len() == k,
    {
        let cell = &all[uniq[k]];
        let ghost c = (cell.0@, cell.1@, cell.2@);
        proof {
            assert(c == cell_views(all@)[uniq@[k as int] as int]);
            assert(c == unique_cells(corpus.cases@, pair)[k as int]);
            lemma_count_status_bound(cell_list(cells@), CoverageStatus::Verified);
            lemma_count_status_bound(cell_list(cells@), CoverageStatus::Mismatch);
            lemma_count_status_bound(cell_list(cells@), CoverageStatus::NeverTested);
        }
        let key = PairKey {
            measure: cell.0.clone(),
            backend_a: cell.1.clone(),
            backend_b: cell.2.clone(),
        };
        let ungrounded = contains_text(&ungrounded_measures_list, &cell.0);
        let status = match verdicts.get(&key) {
            Some(ParsedVerdict::Verified) => {
                verified_count = verified_count + 1;
                CoverageStatus::Verified
            },
            Some(ParsedVerdict::Mismatch) => {
                mismatch_count = mismatch_count + 1;
                CoverageStatus::Mismatch
            },
            _ => {
                never_tested_count = never_tested_count + 1;
                CoverageStatus::NeverTested
            },
        };
        let ghost before = cell_list(cells@);
        if ungrounded {
            ungrounded_cells.push(
                CoverageCell {
                    measure: cell.0.clone(),
                    backend_a: cell.1.clone(),
                    backend_b: cell.2.clone(),
                    status,
                    ungrounded,
                },
            );
        }
        let ghost before_ug = cell_list(ungrounded_cells@);
        cells.push(
            CoverageCell {
                measure: cell.0.clone(),
                backend_a: cell.1.clone(),
                backend_b: cell.2.clone(),
                status,
                ungrounded,
            },
        );
        proof {
            let cv = cells@[k as int]@;
            assert(cv == expected_cell(history@, corpus.cases@, build_id@, c));
            assert(cell_list(cells@) =~= before.push(cv));
            assert(expected.take(k + 1) =~= expected.take(k as int).push(cv));
            assert(cell_list(cells@).drop_last() =~= before);
        }
    }
    assert(expected.take(n as int) =~= expected);
    let denominator = n;
    CoverageSummary {
        build_id: owned(build_id),
        corpus_version: corpus.version.clone(),
        verified_count,
        mismatch_count,
        never_tested_count,
        denominator,
        backend_a,
        backend_b,
        cells,
        ungrounded_cells,
    }
}

// ── Delta ──────────────────────────────────────────────────────────────────

/// Summary returned by [`delta_summary`].
#[derive(Debug, Clone)]
pub struct DeltaSummary {
    /// The candidate (newer) build.
    pub build_n: String,
    /// The prior build.
    pub build_prior: String,
    /// Measures that went from never-tested/absent or mismatch at prior to verified at N.
    pub newly_verified: Vec<String>,
    /// Measures that went from verified at prior to mismatch at N (regressions).
    pub newly_broken: Vec<String>,
    /// Measures that went from never-tested/absent at prior to any non-skipped verdict at N.
    pub newly_tested: Vec<String>,
    /// Whether the prior build had no recorded evidence (all current verdicts treated as new).
    pub prior_was_absent: bool,
}

/// A transition rule: given the verdict at N and the verdict at the prior build.
pub type TransitionRule = spec_fn(Option<ParsedVerdict>, Option<ParsedVerdict>) -> bool;

/// Verified at the prior build, mismatch at N: a regression.
pub open spec fn newly_broken_rule() -> TransitionRule {
    |n: Option<ParsedVerdict>, prior: Option<ParsedVerdict>|
        prior == Some(ParsedVerdict::Verified) && n == Some(ParsedVerdict::Mismatch)
}

/// Not verified at the prior build, verified at N.
pub open spec fn newly_verified_rule() -> TransitionRule {
    |n: Option<ParsedVerdict>, prior: Option<ParsedVerdict>|
        prior != Some(ParsedVerdict::Verified) && n == Some(ParsedVerdict::Verified)
}

/// No verdict at the prior build (or no prior evidence at all), evidence at N.
pub open spec fn newly_tested_rule(prior_absent: bool) -> TransitionRule {
    |n: Option<ParsedVerdict>, prior: Option<ParsedVerdict>|
        (prior is None || prior_absent) && (n == Some(ParsedVerdict::Verified) || n == Some(
            ParsedVerdict::Mismatch,
        ))
}

/// The measures of the cells `cs` whose verdicts at builds `bn` and `bp` satisfy `rule`, in order.
pub open spec fn transition_measures(
    cs: Seq<KeyView>,
    h: Seq<HistoryEntry>,
    bn: Seq<char>,
    bp: Seq<char>,
    rule: TransitionRule,
) -> Seq<Seq<char>>
    decreases cs.len(),
{
    if cs.len() == 0 {
        Seq::empty()
    } else {
        let earlier = transition_measures(cs.drop_last(), h, bn, bp, rule);
        let c = cs.last();
        if rule(verdict_at(h, bn, c), verdict_at(h, bp, c)) {
            earlier.push(c.0)
        } else {
            earlier
        }
    }
}

/// The measures, sorted, of the corpus cells that satisfy `rule` between builds `bn` and `bp`.
pub open spec fn expected_transitions(
    h: Seq<HistoryEntry>,
    cases: Seq<CorpusCase>,
    bn: Seq<char>,
    bp: Seq<char>,
    hint: Option<(&str, &str)>,
    rule: TransitionRule,
) -> Seq<Seq<char>> {
    insertion_sort(
        transition_measures(unique_cells(cases, chosen_pair(h, bn, hint)), h, bn, bp, rule),
        by_text(),
    )
}

/// `d` is the delta from build `bp` to build `bn` over `corpus`, given history
/// `h` and the backend-pair hint: each list holds, sorted, the measures of the
/// distinct corpus cells whose transition satisfies its rule.
pub open spec fn is_delta_summary(
    d: DeltaSummary,
    h: Seq<HistoryEntry>,
    corpus: Corpus,
    bn: Seq<char>,
    bp: Seq<char>,
    hint: Option<(&str, &str)>,
) -> bool {
    &&& d.build_n@ == bn
    &&& d.build_prior@ == bp
    &&& d.prior_was_absent == no_evidence(h, bp)
    &&& texts(d.newly_broken@) == expected_transitions(h, corpus.cases@, bn, bp, hint, newly_broken_rule())
    &&& texts(d.newly_verified@) == expected_transitions(h, corpus.cases@, bn, bp, hint, newly_verified_rule())
    &&& texts(d.newly_tested@) == expected_transitions(
        h,
        corpus.cases@,
        bn,
        bp,
        hint,
        newly_tested_rule(no_evidence(h, bp)),
    )
}

/// Computes the build-over-build delta between `build_n` (candidate) and
/// `build_prior` (prior build), over the distinct corpus cells of the backend
/// pair recorded for `build_n`.  Each list is sorted in `str` order.
///
/// If `build_prior` has no evidence, every verdict at `build_n` counts as newly tested.
pub fn delta_summary(
    history: &[HistoryEntry],
    corpus: &Corpus,
    build_n: &str,
    build_prior: &str,
    hint_pair: Option<(&str, &str)>,
) -> (d: DeltaSummary)
    ensures
        is_delta_summary(d, history@, *corpus, build_n@, build_prior@, hint_pair),
        sorted_by(texts(d.newly_broken@), by_text()),
        sorted_by(texts(d.newly_verified@), by_text()),
        sorted_by(texts(d.newly_tested@), by_text()),
{
    let (backend_a, backend_b) = detect_pair(history, build_n, hint_pair);
    let map_n = build_verdict_map(history, build_n);
    let map_prior = build_verdict_map(history, build_prior);
    let prior_was_absent = map_prior.is_empty();

    let all = corpus.cells_for_pair(backend_a.as_str(), backend_b.as_str());
    let uniq = unique_cell_indices(&all);
    let ghost cells = unique_cells(corpus.cases@, (backend_a@, backend_b@));
    let ghost h = history@;
    let ghost bn = build_n@;
    let ghost bp = build_prior@;

    let mut newly_verified: Vec<String> = Vec::new();
    let mut newly_broken: Vec<String> = Vec::new();
    let mut newly_tested: Vec<String> = Vec::new();

    let n = uniq.len();
    for k in 0..n
        invariant
            n == uniq@.len(),
            uniq@.len() == dedup(cell_views(all@)).len(),
            forall|j: int|
                0 <= j < uniq@.len() ==> #[trigger] uniq@[j] < all@.len() && cell_views(all@)[uniq@[j] as int]
                    == dedup(cell_views(all@))[j],
            cell_views(all@) == case_cells(corpus.cases@, backend_a@, backend_b@),
            cells == unique_cells(corpus.cases@, (backend_a@, backend_b@)),
            h == history@,
            bn == build_n@,
            bp == build_prior@,
            map_n@ == candidates(build_entries(h, bn)),
            map_prior@ == candidates(build_entries(h, bp)),
            prior_was_absent == no_evidence(h, bp),
            texts(newly_broken@) == transition_measures(
                cells.take(k as int),
                h,
                bn,
                bp,
                newly_broken_rule(),
            ),
            texts(newly_verified@) == transition_measures(
                cells.take(k as int),
                h,
                bn,
                bp,
                newly_verified_rule(),
            ),
            texts(newly_tested@) == transition_measures(
                cells.take(k as int),
                h,
                bn,
                bp,
                newly_tested_rule(prior_was_absent),
            ),
    {
        let cell = &all[uniq[k]];
        let ghost c = (cell.0@, cell.1@, cell.2@);
        proof {
            assert(c == cells[k as int]);
            assert(cells.take(k + 1).drop_last() =~= cells.take(k as int));
            assert(cells.take(k + 1).last() == c);
        }
        let key = PairKey {
            measure: cell.0.clone(),
            backend_a: cell.1.clone(),
            backend_b: cell.2.clone(),
        };
        let status_n = map_n.get(&key);
        let status_prior = map_prior.get(&key);
        let prior_verified = match status_prior {
            Some(ParsedVerdict::Verified) => true,
            _ => false,
        };
        let n_verified = match status_n {
            Some(ParsedVerdict::Verified) => true,
            _ => false,
        };
        let n_mismatch = match status_n {
            Some(ParsedVerdict::Mismatch) => true,
            _ => false,
        };

        // newly-broken: verified at prior, mismatch at N
        let ghost before_broken = newly_broken@;
        if prior_verified && n_mismatch {
            newly_broken.push(cell.0.clone());
        }
        assert(texts(newly_broken@) =~= transition_measures(
            cells.take(k + 1),
            h,
            bn,
            bp,
            newly_broken_rule(),
        ));

        // newly-verified: absent or mismatch at prior, verified at N
        let ghost before_verified = newly_verified@;
        if !prior_verified && n_verified {
            newly_verified.push(cell.0.clone());
        }
        assert(texts(newly_verified@) =~= transition_measures(
            cells.take(k + 1),
            h,
            bn,
            bp,
            newly_verified_rule(),
        ));

        // newly-tested: absent at prior, any non-skipped evidence at N
        let prior_absent = status_prior.is_none() || prior_was_absent;
        let n_has_evidence = n_verified || n_mismatch;
        let ghost before_tested = newly_tested@;
        if prior_absent && n_has_evidence {
            newly_tested.push(cell.0.clone());
        }
        assert(texts(newly_tested@) =~= transition_measures(
            cells.take(k + 1),
            h,
            bn,
            bp,
            newly_tested_rule(prior_was_absent),
        ));
    }
    assert(cells.take(n as int) =~= cells);

    proof {
        law_by_text_is_strict_order();
        law_insertion_sort_sorts(texts(newly_broken@), by_text());
        law_insertion_sort_sorts(texts(newly_verified@), by_text());
        law_insertion_sort_sorts(texts(newly_tested@), by_text());
    }
    DeltaSummary {
        build_n: owned(build_n),
        build_prior: owned(build_prior),
        newly_verified: sort_texts(&newly_verified),
        newly_broken: sort_texts(&newly_broken),
        newly_tested: sort_texts(&newly_tested),
        prior_was_absent,
    }
}

/// The exit status of the delta command: 2 when some measure is newly broken
/// and failing is not suppressed (`no_fail`), else 0.
pub fn delta_exit_code(d: &DeltaSummary, no_fail: bool) -> (code: i32)
    ensures
        code == if !no_fail && d.newly_broken@.len() > 0 {
            2i32
        } else {
            0i32
        },
{
    if !no_fail && d.newly_broken.len() > 0 {
        2
    } else {
        0
    }
}

// ── Recorded builds ────────────────────────────────────────────────────────

/// The build id of every entry, in history order.
pub open spec fn build_ids(h: Seq<HistoryEntry>) -> Seq<Seq<char>> {
    h.map_values(|e: HistoryEntry| e.build_id@)
}

/// Lists every build id recorded in `history`, once each, in the order first seen.
pub fn recorded_builds(history: &[HistoryEntry]) -> (builds: Vec<String>)
    ensures
        texts(builds@) == dedup(build_ids(history@)),
{
    let mut builds: Vec<String> = Vec::new();
    let n = history.len();
    for i in 0..n
        invariant
            n == history@.len(),
            texts(builds@) == dedup(build_ids(history@.take(i as int))),
    {
        let e = &history[i];
        proof {
            assert(build_ids(history@.take(i + 1)).drop_last() =~= build_ids(history@.take(i as int)));
            assert(build_ids(history@.take(i + 1)).last() == e.build_id@);
        }
        if !contains_text(&builds, &e.build_id) {
            let ghost before = builds@;
            builds.push(e.build_id.clone());
            assert(texts(builds@) =~= texts(before).push(e.build_id@));
        }
    }
    assert(history@.take(n as int) =~= history@);
    builds
}

} // verus!
