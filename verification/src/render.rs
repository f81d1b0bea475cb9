//! Text layout of the human-readable reports: the lines printed below the
//! coverage headline, and the lines of a delta report.

use vstd::prelude::*;

use crate::jsonl::{chars_of, push_char};
use crate::summary::{cell_list, CellView, CoverageCell, CoverageStatus, CoverageSummary, DeltaSummary};
use crate::text::texts;

verus! {

// ── Pieces of text ─────────────────────────────────────────────────────────

/// `n` spaces.
pub open spec fn spaces(n: nat) -> Seq<char> {
    Seq::new(n, |i: int| ' ')
}

/// `t` padded on the right with spaces to at least `width` characters, as the
/// `{:<width}` format does.
pub open spec fn pad_right(t: Seq<char>, width: nat) -> Seq<char> {
    if t.len() >= width {
        t
    } else {
        t + spaces((width - t.len()) as nat)
    }
}

/// The decimal digit of a value below ten.
pub open spec fn digit_char(d: nat) -> char {
    if d == 0 {
        '0'
    } else if d == 1 {
        '1'
    } else if d == 2 {
        '2'
    } else if d == 3 {
        '3'
    } else if d == 4 {
        '4'
    } else if d == 5 {
        '5'
    } else if d == 6 {
        '6'
    } else if d == 7 {
        '7'
    } else if d == 8 {
        '8'
    } else {
        '9'
    }
}

/// The decimal notation of a natural number, without leading zeros.
pub open spec fn decimal(n: nat) -> Seq<char>
    decreases n,
{
    if n < 10 {
        seq![digit_char(n)]
    } else {
        decimal(n / 10).push(digit_char(n % 10))
    }
}

fn digit(d: usize) -> (c: char)
    requires
        d < 10,
    ensures
        c == digit_char(d as nat),
{
    match d {
        0 => '0',
        1 => '1',
        2 => '2',
        3 => '3',
        4 => '4',
        5 => '5',
        6 => '6',
        7 => '7',
        8 => '8',
        _ => '9',
    }
}

/// Appends the decimal notation of `n`.
fn push_decimal(s: &mut String, n: usize)
    ensures
        final(s)@ == old(s)@ + decimal(n as nat),
    decreases n,
{
    if n >= 10 {
        push_decimal(s, n / 10);
    }
    push_char(s, digit(n % 10));
    proof {
        if n >= 10 {
            assert(decimal(n as nat) == decimal((n / 10) as nat).push(digit_char((n % 10) as nat)));
        }
        assert(final(s)@ =~= old(s)@ + decimal(n as nat));
    }
}

/// Appends a text.
fn push_text(s: &mut String, t: &str)
    ensures
        final(s)@ == old(s)@ + t@,
{
    let cs = chars_of(t);
    let ghost start = s@;
    for i in 0..cs.len()
        invariant
            cs@ == t@,
            s@ == start + cs@.take(i as int),
    {
        push_char(s, cs[i]);
        assert(cs@.take(i + 1) =~= cs@.take(i as int).push(cs@[i as int]));
        assert(s@ =~= start + cs@.take(i + 1));
    }
    assert(cs@.take(cs@.len() as int) =~= cs@);
}

/// Appends `n` spaces.
fn push_spaces(s: &mut String, n: usize)
    ensures
        final(s)@ == old(s)@ + spaces(n as nat),
{
    let ghost start = s@;
    for i in 0..n
        invariant
            s@ == start + spaces(i as nat),
    {
        push_char(s, ' ');
        assert(s@ =~= start + spaces((i + 1) as nat));
    }
}

/// Appends a text padded on the right to `width` characters.
fn push_padded(s: &mut String, t: &str, width: usize)
    ensures
        final(s)@ == old(s)@ + pad_right(t@, width as nat),
{
    let ghost start = s@;
    push_text(s, t);
    let len = chars_of(t).len();
    if len < width {
        push_spaces(s, width - len);
        assert(s@ =~= start + pad_right(t@, width as nat));
    }
}

// ── Coverage report ────────────────────────────────────────────────────────

/// The word a status is printed as.
pub open spec fn status_label(st: CoverageStatus) -> Seq<char> {
    match st {
        CoverageStatus::Verified => "verified"@,
        CoverageStatus::Mismatch => "MISMATCH"@,
        CoverageStatus::NeverTested => "never-tested"@,
    }
}

/// The line of status counts.
pub open spec fn counts_line(verified: nat, mismatch: nat, never_tested: nat) -> Seq<char> {
    "  verified="@ + decimal(verified) + " mismatch="@ + decimal(mismatch) + " never-tested="@
        + decimal(never_tested)
}

/// The line that counts the ungrounded cells.
pub open spec fn ungrounded_line(n: nat) -> Seq<char> {
    "  ungrounded (has_grounding=false): "@ + decimal(n)
}

/// The column headings of the grid.
pub open spec fn grid_header() -> Seq<char> {
    "  "@ + pad_right("MEASURE"@, 50) + " "@ + pad_right("BACKEND_A"@, 12) + " "@ + pad_right(
        "BACKEND_B"@,
        12,
    ) + " STATUS"@
}

/// The rule under the column headings.
pub open spec fn grid_rule() -> Seq<char> {
    "  "@ + Seq::new(90, |i: int| '-')
}

/// The grid line of one cell.
pub open spec fn cell_row(c: CellView) -> Seq<char> {
    "  "@ + pad_right(c.measure, 50) + " "@ + pad_right(c.backend_a, 12) + " "@ + pad_right(
        c.backend_b,
        12,
    ) + " "@ + status_label(c.status) + (if c.ungrounded {
        " [ungrounded]"@
    } else {
        Seq::empty()
    })
}

/// The lines below the coverage headline: the counts, the number of
/// ungrounded cells when there are any, a blank line, the grid's headings and
/// rule, and one line per cell.
pub open spec fn coverage_body(
    verified: nat,
    mismatch: nat,
    never_tested: nat,
    ungrounded: nat,
    cells: Seq<CellView>,
) -> Seq<Seq<char>> {
    seq![counts_line(verified, mismatch, never_tested)] + (if ungrounded > 0 {
        seq![ungrounded_line(ungrounded)]
    } else {
        Seq::empty()
    }) + seq![Seq::empty(), grid_header(), grid_rule()] + cells.map_values(
        |c: CellView| cell_row(c),
    )
}

fn cell_line(c: &CoverageCell) -> (r: String)
    ensures
        r@ == cell_row(c@),
{
    let mut s = String::new();
    push_text(&mut s, "  ");
    push_padded(&mut s, c.measure.as_str(), 50);
    push_text(&mut s, " ");
    push_padded(&mut s, c.backend_a.as_str(), 12);
    push_text(&mut s, " ");
    push_padded(&mut s, c.backend_b.as_str(), 12);
    push_text(&mut s, " ");
    match c.status {
        CoverageStatus::Verified => push_text(&mut s, "verified"),
        CoverageStatus::Mismatch => push_text(&mut s, "MISMATCH"),
        CoverageStatus::NeverTested => push_text(&mut s, "never-tested"),
    }
    if c.ungrounded {
        push_text(&mut s, " [ungrounded]");
    }
    assert(s@ =~= cell_row(c@));
    s
}

/// The lines printed below the coverage headline (whose percentage is a
/// float and is written by the program).
pub fn coverage_lines(summary: &CoverageSummary) -> (r: Vec<String>)
    ensures
        texts(r@) == coverage_body(
            summary.verified_count as nat,
            summary.mismatch_count as nat,
            summary.never_tested_count as nat,
            summary.ungrounded_cells@.len(),
            cell_list(summary.cells@),
        ),
{
    let mut lines: Vec<String> = Vec::new();
    let mut counts = String::new();
    push_text(&mut counts, "  verified=");
    push_decimal(&mut counts, summary.verified_count);
    push_text(&mut counts, " mismatch=");
    push_decimal(&mut counts, summary.mismatch_count);
    push_text(&mut counts, " never-tested=");
    push_decimal(&mut counts, summary.never_tested_count);
    assert(counts@ =~= counts_line(
        summary.verified_count as nat,
        summary.mismatch_count as nat,
        summary.never_tested_count as nat,
    ));
    lines.push(counts);
    if summary.ungrounded_cells.len() > 0 {
        let mut u = String::new();
        push_text(&mut u, "  ungrounded (has_grounding=false): ");
        push_decimal(&mut u, summary.ungrounded_cells.len());
        lines.push(u);
    }
    lines.push(String::new());
    let mut header = String::new();
    push_text(&mut header, "  ");
    push_padded(&mut header, "MEASURE", 50);
    push_text(&mut header, " ");
    push_padded(&mut header, "BACKEND_A", 12);
    push_text(&mut header, " ");
    push_padded(&mut header, "BACKEND_B", 12);
    push_text(&mut header, " STATUS");
    assert(header@ =~= grid_header());
    lines.push(header);
    let mut rule = String::new();
    push_text(&mut rule, "  ");
    for i in 0..90usize
        invariant
            rule@ == "  "@ + Seq::new(i as nat, |j: int| '-'),
    {
        push_char(&mut rule, '-');
        assert(rule@ =~= "  "@ + Seq::new((i + 1) as nat, |j: int| '-'));
    }
    lines.push(rule);
    let ghost head = texts(lines@);
    let n = summary.cells.len();
    for i in 0..n
        invariant
            n == summary.cells@.len(),
            texts(lines@) == head + cell_list(summary.cells@).take(i as int).map_values(
                |c: CellView| cell_row(c),
            ),
    {
        let row = cell_line(&summary.cells[i]);
        let ghost before = lines@;
        lines.push(row);
        assert(texts(lines@) =~= texts(before).push(cell_row(summary.cells@[i as int]@)));
        assert(cell_list(summary.cells@).take(i + 1).map_values(|c: CellView| cell_row(c))
            =~= cell_list(summary.cells@).take(i as int).map_values(|c: CellView| cell_row(c))
            .push(cell_row(summary.cells@[i as int]@)));
        assert(texts(lines@) =~= head + cell_list(summary.cells@).take(i + 1).map_values(
            |c: CellView| cell_row(c),
        ));
    }
    assert(cell_list(summary.cells@).take(n as int) =~= cell_list(summary.cells@));
    assert(texts(lines@) =~= coverage_body(
        summary.verified_count as nat,
        summary.mismatch_count as nat,
        summary.never_tested_count as nat,
        summary.ungrounded_cells@.len(),
        cell_list(summary.cells@),
    ));
    lines
}

// ── Delta report ───────────────────────────────────────────────────────────

/// The first line of a delta report.
pub open spec fn delta_headline(build_n: Seq<char>, build_prior: Seq<char>, broken: nat) -> Seq<
    char,
> {
    "Delta: build '"@ + build_n + "' vs '"@ + build_prior + "' — newly-broken: "@ + decimal(broken)
}

/// The warning given when the prior build has no recorded history.
pub open spec fn absent_prior_line(build_prior: Seq<char>) -> Seq<char> {
    "  WARNING: prior build '"@ + build_prior
        + "' has no recorded history; all current verdicts treated as newly-tested."@
}

/// One list of a delta report: nothing when the list is empty, else a blank
/// line, the title with the list's length, and one marked line per measure.
pub open spec fn section_lines(title: Seq<char>, marker: Seq<char>, ms: Seq<Seq<char>>) -> Seq<
    Seq<char>,
> {
    if ms.len() == 0 {
        Seq::empty()
    } else {
        seq![Seq::empty(), "  "@ + title + " ("@ + decimal(ms.len()) + "):"@] + ms.map_values(
            |m: Seq<char>| marker + m,
        )
    }
}

/// The lines of a delta report: the headline, the warning on an absent prior
/// build, the newly broken, newly verified and newly tested lists, and a note
/// when all three are empty.
pub open spec fn delta_report(
    build_n: Seq<char>,
    build_prior: Seq<char>,
    prior_was_absent: bool,
    broken: Seq<Seq<char>>,
    verified: Seq<Seq<char>>,
    tested: Seq<Seq<char>>,
) -> Seq<Seq<char>> {
    seq![delta_headline(build_n, build_prior, broken.len())] + (if prior_was_absent {
        seq![absent_prior_line(build_prior)]
    } else {
        Seq::empty()
    }) + section_lines("NEWLY BROKEN"@, "    - "@, broken) + section_lines(
        "Newly verified"@,
        "    + "@,
        verified,
    ) + section_lines("Newly tested"@, "    ~ "@, tested) + (if broken.len() == 0 && verified.len()
        == 0 && tested.len() == 0 {
        seq!["  No changes between recorded builds."@]
    } else {
        Seq::empty()
    })
}

fn push_section(lines: &mut Vec<String>, title: &str, marker: &str, ms: &Vec<String>)
    ensures
        texts(final(lines)@) == texts(old(lines)@) + section_lines(title@, marker@, texts(ms@)),
{
    if ms.len() == 0 {
        assert(texts(lines@) =~= texts(lines@) + section_lines(title@, marker@, texts(ms@)));
        return;
    }
    let ghost start = texts(lines@);
    lines.push(String::new());
    let mut t = String::new();
    push_text(&mut t, "  ");
    push_text(&mut t, title);
    push_text(&mut t, " (");
    push_decimal(&mut t, ms.len());
    push_text(&mut t, "):");
    lines.push(t);
    let ghost head = texts(lines@);
    assert(head =~= start + seq![Seq::empty(), "  "@ + title@ + " ("@ + decimal(ms@.len()) + "):"@]);
    let n = ms.len();
    for i in 0..n
        invariant
            n == ms@.len(),
            texts(lines@) == head + texts(ms@).take(i as int).map_values(
                |m: Seq<char>| marker@ + m,
            ),
    {
        let mut l = String::new();
        push_text(&mut l, marker);
        push_text(&mut l, ms[i].as_str());
        let ghost before = lines@;
        lines.push(l);
        assert(texts(lines@) =~= texts(before).push(marker@ + ms@[i as int]@));
        assert(texts(ms@).take(i + 1).map_values(|m: Seq<char>| marker@ + m) =~= texts(ms@).take(
            i as int,
        ).map_values(|m: Seq<char>| marker@ + m).push(marker@ + ms@[i as int]@));
    }
    assert(texts(ms@).take(n as int) =~= texts(ms@));
    assert(texts(lines@) =~= start + section_lines(title@, marker@, texts(ms@)));
}

/// The lines of the human-readable delta report.
pub fn delta_lines(d: &DeltaSummary) -> (r: Vec<String>)
    ensures
        texts(r@) == delta_report(
            d.build_n@,
            d.build_prior@,
            d.prior_was_absent,
            texts(d.newly_broken@),
            texts(d.newly_verified@),
            texts(d.newly_tested@),
        ),
{
    let mut lines: Vec<String> = Vec::new();
    let mut head = String::new();
    push_text(&mut head, "Delta: build '");
    push_text(&mut head, d.build_n.as_str());
    push_text(&mut head, "' vs '");
    push_text(&mut head, d.build_prior.as_str());
    push_text(&mut head, "' — newly-broken: ");
    push_decimal(&mut head, d.newly_broken.len());
    assert(head@ =~= delta_headline(d.build_n@, d.build_prior@, d.newly_broken@.len()));
    lines.push(head);
    if d.prior_was_absent {
        let mut w = String::new();
        push_text(&mut w, "  WARNING: prior build '");
        push_text(&mut w, d.build_prior.as_str());
        push_text(
            &mut w,
            "' has no recorded history; all current verdicts treated as newly-tested.",
        );
        lines.push(w);
    }
    let ghost l0 = texts(lines@);
    assert(l0 =~= seq![delta_headline(d.build_n@, d.build_prior@, d.newly_broken@.len())] + (
    if d.prior_was_absent {
        seq![absent_prior_line(d.build_prior@)]
    } else {
        Seq::empty()
    }));
    push_section(&mut lines, "NEWLY BROKEN", "    - ", &d.newly_broken);
    push_section(&mut lines, "Newly verified", "    + ", &d.newly_verified);
    push_section(&mut lines, "Newly tested", "    ~ ", &d.newly_tested);
    let ghost l1 = texts(lines@);
    assert(l1 =~= l0 + section_lines("NEWLY BROKEN"@, "    - "@, texts(d.newly_broken@))
        + section_lines("Newly verified"@, "    + "@, texts(d.newly_verified@)) + section_lines(
        "Newly tested"@,
        "    ~ "@,
        texts(d.newly_tested@),
    ));
    if d.newly_broken.len() == 0 && d.newly_verified.len() == 0 && d.newly_tested.len() == 0 {
        let mut note = String::new();
        push_text(&mut note, "  No changes between recorded builds.");
        lines.push(note);
        assert(texts(lines@) =~= l1 + seq!["  No changes between recorded builds."@]);
    } else {
        assert(texts(lines@) =~= l1 + Seq::<Seq<char>>::empty());
    }
    assert(texts(lines@) =~= delta_report(
        d.build_n@,
        d.build_prior@,
        d.prior_was_absent,
        texts(d.newly_broken@),
        texts(d.newly_verified@),
        texts(d.newly_tested@),
    ));
    lines
}

// ── Laws ───────────────────────────────────────────────────────────────────

/// The number of lines a delta-report list takes: none for an empty list,
/// else a blank line and a title line besides one line per measure.
pub open spec fn listed_len(n: nat) -> nat {
    if n == 0 {
        0
    } else {
        n + 2
    }
}

/// A delta-report list shows every measure, in order, behind its marker: an
/// empty list shows nothing; otherwise a blank line, the title with the
/// list's length, and then for each `j` the marker followed by measure `j`.
pub proof fn law_section_lists_each_measure(
    title: Seq<char>,
    marker: Seq<char>,
    ms: Seq<Seq<char>>,
)
    ensures
        section_lines(title, marker, ms).len() == listed_len(ms.len()),
        ms.len() > 0 ==> section_lines(title, marker, ms)[0] == Seq::<char>::empty(),
        ms.len() > 0 ==> section_lines(title, marker, ms)[1] == "  "@ + title + " ("@ + decimal(
            ms.len(),
        ) + "):"@,
        forall|j: int| 0 <= j < ms.len() ==> #[trigger] section_lines(title, marker, ms)[j + 2]
            == marker + ms[j],
{
    if ms.len() > 0 {
        let head = seq![Seq::<char>::empty(), "  "@ + title + " ("@ + decimal(ms.len()) + "):"@];
        let body = ms.map_values(|m: Seq<char>| marker + m);
        assert(section_lines(title, marker, ms) == head + body);
        assert forall|j: int| 0 <= j < ms.len() implies #[trigger] section_lines(
            title,
            marker,
            ms,
        )[j + 2] == marker + ms[j] by {
            assert((head + body)[j + 2] == body[j]);
        }
    }
}

/// A delta report shows the newly broken, newly verified and newly tested
/// measures, each list in order behind its marker (`-`, `+`, `~`), after the
/// headline and the warning on an absent prior build; the report ends with a
/// no-change note exactly when all three lists are empty.
pub proof fn law_delta_report_lists_each_change(
    build_n: Seq<char>,
    build_prior: Seq<char>,
    prior_was_absent: bool,
    broken: Seq<Seq<char>>,
    verified: Seq<Seq<char>>,
    tested: Seq<Seq<char>>,
)
    ensures
        ({
            let r = delta_report(build_n, build_prior, prior_was_absent, broken, verified, tested);
            let top: int = if prior_was_absent {
                2
            } else {
                1
            };
            let at_verified = top + listed_len(broken.len());
            let at_tested = at_verified + listed_len(verified.len());
            let quiet = broken.len() == 0 && verified.len() == 0 && tested.len() == 0;
            &&& r[0] == delta_headline(build_n, build_prior, broken.len())
            &&& prior_was_absent ==> r[1] == absent_prior_line(build_prior)
            &&& forall|j: int| 0 <= j < broken.len() ==> #[trigger] r[top + 2 + j] == "    - "@
                + broken[j]
            &&& forall|j: int| 0 <= j < verified.len() ==> #[trigger] r[at_verified + 2 + j]
                == "    + "@ + verified[j]
            &&& forall|j: int| 0 <= j < tested.len() ==> #[trigger] r[at_tested + 2 + j]
                == "    ~ "@ + tested[j]
            &&& r.len() == at_tested + listed_len(tested.len()) + if quiet {
                1int
            } else {
                0int
            }
            &&& quiet ==> r[r.len() - 1] == "  No changes between recorded builds."@
        }),
{
    let r = delta_report(build_n, build_prior, prior_was_absent, broken, verified, tested);
    let a: Seq<Seq<char>> = seq![delta_headline(build_n, build_prior, broken.len())] + (
    if prior_was_absent {
        seq![absent_prior_line(build_prior)]
    } else {
        Seq::empty()
    });
    let sb = section_lines("NEWLY BROKEN"@, "    - "@, broken);
    let sv = section_lines("Newly verified"@, "    + "@, verified);
    let st = section_lines("Newly tested"@, "    ~ "@, tested);
    let quiet = broken.len() == 0 && verified.len() == 0 && tested.len() == 0;
    let z: Seq<Seq<char>> = if quiet {
        seq!["  No changes between recorded builds."@]
    } else {
        Seq::empty()
    };
    law_section_lists_each_measure("NEWLY BROKEN"@, "    - "@, broken);
    law_section_lists_each_measure("Newly verified"@, "    + "@, verified);
    law_section_lists_each_measure("Newly tested"@, "    ~ "@, tested);
    assert(r == a + sb + sv + st + z);
    let top: int = if prior_was_absent {
        2
    } else {
        1
    };
    assert(a.len() == top);
    assert forall|j: int| 0 <= j < broken.len() implies #[trigger] r[top + 2 + j] == "    - "@
        + broken[j] by {
        assert(sb[j + 2] == "    - "@ + broken[j]);
        assert((a + sb)[top + 2 + j] == sb[j + 2]);
    }
    let at_verified = top + listed_len(broken.len());
    assert forall|j: int| 0 <= j < verified.len() implies #[trigger] r[at_verified + 2 + j]
        == "    + "@ + verified[j] by {
        assert(sv[j + 2] == "    + "@ + verified[j]);
        assert((a + sb + sv)[at_verified + 2 + j] == sv[j + 2]);
    }
    let at_tested = at_verified + listed_len(verified.len());
    assert forall|j: int| 0 <= j < tested.len() implies #[trigger] r[at_tested + 2 + j]
        == "    ~ "@ + tested[j] by {
        assert(st[j + 2] == "    ~ "@ + tested[j]);
        assert((a + sb + sv + st)[at_tested + 2 + j] == st[j + 2]);
    }
}

/// The number a string of decimal digits denotes.
pub open spec fn digits_value(s: Seq<char>) -> int
    decreases s.len(),
{
    if s.len() == 0 {
        0
    } else {
        digits_value(s.drop_last()) * 10 + (s.last() as int - '0' as int)
    }
}

/// Counts are written in plain decimal: one or more digits `0`-`9`, with no
/// leading zero except for zero itself, denoting the number.
pub proof fn law_decimal_writes_the_number(n: nat)
    ensures
        decimal(n).len() >= 1,
        forall|i: int| 0 <= i < decimal(n).len() ==> '0' <= #[trigger] decimal(n)[i] <= '9',
        digits_value(decimal(n)) == n,
        decimal(n)[0] == '0' ==> n == 0,
    decreases n,
{
    if n >= 10 {
        let q = n / 10;
        let d = n % 10;
        law_decimal_writes_the_number(q);
        let s = decimal(n);
        assert(s == decimal(q).push(digit_char(d)));
        assert(s.drop_last() =~= decimal(q));
        assert(digit_char(d) as int - '0' as int == d);
        assert(q * 10 + d == n) by (nonlinear_arith)
            requires
                q == n / 10,
                d == n % 10,
        ;
        assert(forall|i: int| 0 <= i < decimal(q).len() ==> #[trigger] s[i] == decimal(q)[i]);
        assert(s.last() == digit_char(d));
        assert(digits_value(s) == digits_value(decimal(q)) * 10 + d);
        assert(q >= 1) by (nonlinear_arith)
            requires
                q == n / 10,
                n >= 10,
        ;
    } else {
        assert(digit_char(n) as int - '0' as int == n);
        assert(decimal(n).drop_last() =~= Seq::<char>::empty());
        assert(digits_value(decimal(n)) == digits_value(Seq::<char>::empty()) * 10 + (
        digit_char(n) as int - '0' as int));
    }
}

/// The lines below the coverage headline: the counts, the ungrounded count
/// when there are ungrounded cells, a blank line, the headings and the rule,
/// then the row of every grid cell, in grid order.
pub proof fn law_coverage_lines_show_each_cell(
    verified: nat,
    mismatch: nat,
    never_tested: nat,
    ungrounded: nat,
    cells: Seq<CellView>,
)
    ensures
        ({
            let r = coverage_body(verified, mismatch, never_tested, ungrounded, cells);
            let top: int = if ungrounded > 0 {
                2
            } else {
                1
            };
            &&& r.len() == top + 3 + cells.len()
            &&& r[0] == counts_line(verified, mismatch, never_tested)
            &&& ungrounded > 0 ==> r[1] == ungrounded_line(ungrounded)
            &&& r[top] == Seq::<char>::empty()
            &&& r[top + 1] == grid_header()
            &&& r[top + 2] == grid_rule()
            &&& forall|j: int| 0 <= j < cells.len() ==> #[trigger] r[top + 3 + j] == cell_row(cells[j])
        }),
{
    let r = coverage_body(verified, mismatch, never_tested, ungrounded, cells);
    let a: Seq<Seq<char>> = seq![counts_line(verified, mismatch, never_tested)] + (if ungrounded
        > 0 {
        seq![ungrounded_line(ungrounded)]
    } else {
        Seq::empty()
    });
    let g: Seq<Seq<char>> = seq![Seq::empty(), grid_header(), grid_rule()];
    let rows = cells.map_values(|c: CellView| cell_row(c));
    assert(r == a + g + rows);
    let top: int = if ungrounded > 0 {
        2
    } else {
        1
    };
    assert(a.len() == top);
    assert forall|j: int| 0 <= j < cells.len() implies #[trigger] r[top + 3 + j] == cell_row(
        cells[j],
    ) by {
        assert(rows[j] == cell_row(cells[j]));
    }
}

/// A grid row is laid out in columns: two spaces, the measure left-aligned in
/// a column of at least 50 characters, a space, backend_a in a column of at
/// least 12, a space, backend_b in a column of at least 12, a space, then
/// `verified`, `MISMATCH` or `never-tested`, followed by ` [ungrounded]` for
/// an ungrounded cell.  Every other character up to the status is a space.
pub proof fn law_cell_row_columns(c: CellView)
    ensures
        ({
            let r = cell_row(c);
            let wm: int = if c.measure.len() >= 50 {
                c.measure.len() as int
            } else {
                50
            };
            let wa: int = if c.backend_a.len() >= 12 {
                c.backend_a.len() as int
            } else {
                12
            };
            let wb: int = if c.backend_b.len() >= 12 {
                c.backend_b.len() as int
            } else {
                12
            };
            let at_a = 3 + wm;
            let at_b = 4 + wm + wa;
            let at_status = 5 + wm + wa + wb;
            let word: Seq<char> = match c.status {
                CoverageStatus::Verified => "verified"@,
                CoverageStatus::Mismatch => "MISMATCH"@,
                CoverageStatus::NeverTested => "never-tested"@,
            };
            &&& r.len() >= at_status
            &&& r.subrange(2, 2 + c.measure.len() as int) == c.measure
            &&& r.subrange(at_a, at_a + c.backend_a.len()) == c.backend_a
            &&& r.subrange(at_b, at_b + c.backend_b.len()) == c.backend_b
            &&& r.subrange(at_status, r.len() as int) == word + if c.ungrounded {
                " [ungrounded]"@
            } else {
                Seq::empty()
            }
            &&& forall|i: int|
                0 <= i < at_status && !(2 <= i < 2 + c.measure.len()) && !(at_a <= i < at_a
                    + c.backend_a.len()) && !(at_b <= i < at_b + c.backend_b.len()) ==> #[trigger] r[i]
                    == ' '
        }),
{
    reveal_strlit("  ");
    reveal_strlit(" ");
    let r = cell_row(c);
    let pm = pad_right(c.measure, 50);
    let pa = pad_right(c.backend_a, 12);
    let pb = pad_right(c.backend_b, 12);
    let word = status_label(c.status);
    let tail: Seq<char> = if c.ungrounded {
        " [ungrounded]"@
    } else {
        Seq::empty()
    };
    let sp: Seq<char> = " "@;
    let lead: Seq<char> = "  "@;
    assert(r == lead + pm + sp + pa + sp + pb + sp + word + tail);
    let wm = pm.len() as int;
    let wa = pa.len() as int;
    let wb = pb.len() as int;
    let x = lead + pm + sp + pa + sp + pb + sp;
    assert(x.len() == 5 + wm + wa + wb);
    assert(r == x + (word + tail));
    assert(r.subrange(x.len() as int, r.len() as int) =~= word + tail);
    assert(r.subrange(2, 2 + c.measure.len() as int) =~= c.measure) by {
        assert forall|i: int| 0 <= i < c.measure.len() implies r[2 + i] == c.measure[i] by {
            assert(x[2 + i] == pm[i]);
        }
    }
    assert(r.subrange(3 + wm, 3 + wm + c.backend_a.len()) =~= c.backend_a) by {
        assert forall|i: int| 0 <= i < c.backend_a.len() implies r[3 + wm + i] == c.backend_a[i] by {
            assert(x[3 + wm + i] == pa[i]);
        }
    }
    assert(r.subrange(4 + wm + wa, 4 + wm + wa + c.backend_b.len()) =~= c.backend_b) by {
        assert forall|i: int| 0 <= i < c.backend_b.len() implies r[4 + wm + wa + i]
            == c.backend_b[i] by {
            assert(x[4 + wm + wa + i] == pb[i]);
        }
    }
    assert forall|i: int|
        0 <= i < 5 + wm + wa + wb && !(2 <= i < 2 + c.measure.len()) && !(3 + wm <= i < 3 + wm
            + c.backend_a.len()) && !(4 + wm + wa <= i < 4 + wm + wa + c.backend_b.len())
        implies #[trigger] r[i] == ' ' by {
        assert(r[i] == x[i]);
    }
}

} // verus!
