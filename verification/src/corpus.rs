//! The `parity-corpus.v1` denominator consumed by coverage and delta.

use vstd::prelude::*;

use crate::history::KeyView;
use crate::text::{contains_text, dedup, texts};

verus! {

/// A single parity case in the corpus denominator.
#[derive(Debug, Clone)]
pub struct CorpusCase {
    /// Deterministic id derived from measure unique-name(s) + grain.
    pub case_id: String,
    /// The measure unique-name(s) covered by this case.
    pub measures: Vec<String>,
    /// The grain token (`total`, or a level slug like `year`/`region`).
    pub grain: String,
    /// True iff the measure is `is_calc` or `semi_additive`.
    pub has_grounding: bool,
}

/// The top-level `parity-corpus.v1` document.
#[derive(Debug, Clone)]
pub struct Corpus {
    /// Format version tag; consumers key off this.
    pub version: String,
    /// The catalog the cases run against.
    pub catalog: String,
    /// The parity cases, sorted by `case_id`.
    pub cases: Vec<CorpusCase>,
}

/// Every measure of every case, case by case, in order (repeats included).
pub open spec fn case_measures(cases: Seq<CorpusCase>) -> Seq<Seq<char>>
    decreases cases.len(),
{
    if cases.len() == 0 {
        Seq::empty()
    } else {
        case_measures(cases.drop_last()) + texts(cases.last().measures@)
    }
}

/// The measures of the cases that have no grounding.
pub open spec fn ungrounded_measures(cases: Seq<CorpusCase>) -> Seq<Seq<char>>
    decreases cases.len(),
{
    if cases.len() == 0 {
        Seq::empty()
    } else if cases.last().has_grounding {
        ungrounded_measures(cases.drop_last())
    } else {
        ungrounded_measures(cases.drop_last()) + texts(cases.last().measures@)
    }
}

/// The (measure, backend_a, backend_b) cell of every corpus measure, for one backend pair.
pub open spec fn case_cells(cases: Seq<CorpusCase>, a: Seq<char>, b: Seq<char>) -> Seq<KeyView> {
    case_measures(cases).map_values(|m: Seq<char>| (m, a, b))
}

/// The views of a sequence of (measure, backend_a, backend_b) string triples.
pub open spec fn cell_views(s: Seq<(String, String, String)>) -> Seq<KeyView> {
    s.map_values(|c: (String, String, String)| (c.0@, c.1@, c.2@))
}

proof fn lemma_case_measures_step(cases: Seq<CorpusCase>, i: int)
    requires
        0 <= i < cases.len(),
    ensures
        case_measures(cases.take(i + 1)) == case_measures(cases.take(i)) + texts(
            cases[i].measures@,
        ),
        ungrounded_measures(cases.take(i + 1)) == if cases[i].has_grounding {
            ungrounded_measures(cases.take(i))
        } else {
            ungrounded_measures(cases.take(i)) + texts(cases[i].measures@)
        },
{
    assert(cases.take(i + 1).drop_last() =~= cases.take(i));
}

impl Corpus {
    /// Collects all (measure, backend_a, backend_b) cells in the corpus for a
    /// fixed backend pair, one per measure occurrence, in corpus order.  The
    /// corpus is backend-agnostic, so the caller passes the pair of interest.
    pub fn cells_for_pair(&self, backend_a: &str, backend_b: &str) -> (cells: Vec<
        (String, String, String),
    >)
        ensures
            cell_views(cells@) == case_cells(self.cases@, backend_a@, backend_b@),
    {
        let mut cells: Vec<(String, String, String)> = Vec::new();
        let n = self.cases.len();
        for i in 0..n
            invariant
                n == self.cases@.len(),
                cell_views(cells@) == case_cells(self.cases@.take(i as int), backend_a@, backend_b@),
        {
            let case = &self.cases[i];
            let m = case.measures.len();
            let ghost prefix = case_measures(self.cases@.take(i as int));
            for j in 0..m
                invariant
                    m == case.measures@.len(),
                    case == self.cases@[i as int],
                    prefix == case_measures(self.cases@.take(i as int)),
                    cell_views(cells@) == (prefix + texts(case.measures@.take(j as int))).map_values(
                        |x: Seq<char>| (x, backend_a@, backend_b@),
                    ),
            {
                let cell = (case.measures[j].clone(), backend_a.to_owned(), backend_b.to_owned());
                let ghost before = cells@;
                cells.push(cell);
                proof {
                    assert(texts(case.measures@.take(j + 1)) =~= texts(case.measures@.take(j as int)).push(case.measures@[j as int]@));
                    assert(cell_views(cells@) =~= cell_views(before).push((case.measures@[j as int]@, backend_a@, backend_b@)));
                    assert(cell_views(cells@) =~= (prefix + texts(case.measures@.take(j + 1))).map_values(
                        |x: Seq<char>| (x, backend_a@, backend_b@)));
                }
            }
            proof {
                lemma_case_measures_step(self.cases@, i as int);
                assert(case.measures@.take(m as int) =~= case.measures@);
            }
        }
        assert(self.cases@.take(n as int) =~= self.cases@);
        cells
    }

    /// Collects all unique measure names from the corpus, in order of first appearance.
    pub fn all_measures(&self) -> (out: Vec<String>)
        ensures
            texts(out@) == dedup(case_measures(self.cases@)),
    {
        let mut out: Vec<String> = Vec::new();
        let n = self.cases.len();
        for i in 0..n
            invariant
                n == self.cases@.len(),
                texts(out@) == dedup(case_measures(self.cases@.take(i as int))),
        {
            let case = &self.cases[i];
            let m = case.measures.len();
            let ghost prefix = case_measures(self.cases@.take(i as int));
            for j in 0..m
                invariant
                    m == case.measures@.len(),
                    case == self.cases@[i as int],
                    prefix == case_measures(self.cases@.take(i as int)),
                    texts(out@) == dedup(prefix + texts(case.measures@.take(j as int))),
            {
                let ghost seen = prefix + texts(case.measures@.take(j as int));
                let ghost next = prefix + texts(case.measures@.take(j + 1));
                proof {
                    assert(next.drop_last() =~= seen);
                    assert(next.last() == case.measures@[j as int]@);
                }
                if !contains_text(&out, &case.measures[j]) {
                    let ghost before = out@;
                    out.push(case.measures[j].clone());
                    assert(texts(out@) =~= texts(before).push(case.measures@[j as int]@));
                }
            }
            proof {
                lemma_case_measures_step(self.cases@, i as int);
                assert(case.measures@.take(m as int) =~= case.measures@);
            }
        }
        assert(self.cases@.take(n as int) =~= self.cases@);
        out
    }
}

} // verus!
