//! Framing of the append-only JSONL history: which lines hold an entry.
//!
//! The bytes of the history are split into lines as `BufRead::lines` does (on
//! `b'\n'`, no final empty line).  A line that is not valid UTF-8 is kept as
//! undecodable, so that it can be reported and skipped without losing the
//! others; a decodable line is trimmed of white space as `str::trim` does, and
//! kept unless blank.  Each kept line carries its 1-based line number so that a
//! line which then fails to parse can be reported and skipped.

use vstd::prelude::*;
use vstd::slice::slice_subrange;
use vstd::string::StringSliceAdditionalSpecFns;
use vstd::utf8::{decode_utf8, valid_utf8};

verus! {

broadcast use vstd::string::group_string_axioms;

/// The Unicode `White_Space` property, which `char::is_whitespace` tests.
pub open spec fn is_white_space(c: char) -> bool {
    let v = c as u32;
    ||| 0x09 <= v <= 0x0d
    ||| v == 0x20
    ||| v == 0x85
    ||| v == 0xa0
    ||| v == 0x1680
    ||| 0x2000 <= v <= 0x200a
    ||| v == 0x2028
    ||| v == 0x2029
    ||| v == 0x202f
    ||| v == 0x205f
    ||| v == 0x3000
}

/// Returns whether `c` is white space.
pub fn white_space(c: char) -> (r: bool)
    ensures
        r == is_white_space(c),
{
    let v = c as u32;
    (0x09 <= v && v <= 0x0d) || v == 0x20 || v == 0x85 || v == 0xa0 || v == 0x1680 || (0x2000
        <= v && v <= 0x200a) || v == 0x2028 || v == 0x2029 || v == 0x202f || v == 0x205f || v
        == 0x3000
}

/// `s` without its leading white space.
pub open spec fn trim_start(s: Seq<char>) -> Seq<char>
    decreases s.len(),
{
    if s.len() > 0 && is_white_space(s[0]) {
        trim_start(s.drop_first())
    } else {
        s
    }
}

/// `s` without its trailing white space.
pub open spec fn trim_end(s: Seq<char>) -> Seq<char>
    decreases s.len(),
{
    if s.len() > 0 && is_white_space(s.last()) {
        trim_end(s.drop_last())
    } else {
        s
    }
}

/// `s` without leading and trailing white space.
pub open spec fn trim(s: Seq<char>) -> Seq<char> {
    trim_end(trim_start(s))
}

/// The pieces of `s` between `sep` elements (one more piece than separators).
pub open spec fn segments<A>(s: Seq<A>, sep: A) -> Seq<Seq<A>>
    decreases s.len(),
{
    if s.len() == 0 {
        seq![Seq::empty()]
    } else {
        let earlier = segments(s.drop_last(), sep);
        if s.last() == sep {
            earlier.push(Seq::empty())
        } else {
            earlier.update(earlier.len() - 1, earlier.last().push(s.last()))
        }
    }
}

/// The lines of `s`: its segments, without a final empty one.
pub open spec fn lines<A>(s: Seq<A>, sep: A) -> Seq<Seq<A>> {
    let p = segments(s, sep);
    if p.last().len() == 0 {
        p.drop_last()
    } else {
        p
    }
}

/// The newline byte.
pub open spec fn newline() -> u8 {
    0x0a
}

/// The numbered lines of `ls` worth reporting: a line that is not valid UTF-8
/// as undecodable (`None`), a decodable one trimmed unless blank.
pub open spec fn numbered_lines(ls: Seq<Seq<u8>>) -> Seq<(int, Option<Seq<char>>)>
    decreases ls.len(),
{
    if ls.len() == 0 {
        Seq::empty()
    } else {
        let earlier = numbered_lines(ls.drop_last());
        let l = ls.last();
        if !valid_utf8(l) {
            earlier.push((ls.len() as int, None))
        } else if trim(decode_utf8(l)).len() > 0 {
            earlier.push((ls.len() as int, Some(trim(decode_utf8(l)))))
        } else {
            earlier
        }
    }
}

/// The views of numbered lines.
pub open spec fn numbered_views(v: Seq<(usize, Option<String>)>) -> Seq<(int, Option<Seq<char>>)> {
    v.map_values(
        |l: (usize, Option<String>)|
            (
                l.0 as int,
                match l.1 {
                    Some(t) => Some(t@),
                    None => None,
                },
            ),
    )
}

proof fn lemma_segments_nonempty<A>(s: Seq<A>, sep: A)
    ensures
        segments(s, sep).len() >= 1,
        segments(s, sep).len() <= s.len() + 1,
    decreases s.len(),
{
    if s.len() > 0 {
        lemma_segments_nonempty(s.drop_last(), sep);
    }
}

/// Calls `std::str::from_utf8`.  Claimed, as its documentation states: it
/// succeeds exactly when the bytes are valid UTF-8, and the text it gives back
/// is encoded by those very bytes.
#[verifier::external_body]
fn utf8_text(bytes: &[u8]) -> (r: Option<&str>)
    ensures
        r is Some <==> valid_utf8(bytes@),
        r matches Some(t) ==> t.spec_bytes() == bytes@,
{
    std::str::from_utf8(bytes).ok()
}

/// Calls `String::push`.  Claimed, as its documentation states: the character
/// is appended to the end of the string.
#[verifier::external_body]
pub(crate) fn push_char(s: &mut String, c: char)
    ensures
        final(s)@ == old(s)@.push(c),
{
    s.push(c);
}

/// The characters of a text.
pub(crate) fn chars_of(s: &str) -> (v: Vec<char>)
    ensures
        v@ == s@,
{
    let mut v: Vec<char> = Vec::new();
    for c in it: s.chars()
        invariant
            v@ == it.seq().take(it.index() as int),
            it.seq() == s@,
    {
        v.push(c);
    }
    v
}

/// The trimmed text of `cs[start..end]`.
fn trimmed(cs: &Vec<char>, start: usize, end: usize) -> (r: String)
    requires
        start <= end <= cs@.len(),
    ensures
        r@ == trim(cs@.subrange(start as int, end as int)),
{
    let mut lo = start;
    while lo < end && white_space(cs[lo])
        invariant
            start <= lo <= end <= cs@.len(),
            trim_start(cs@.subrange(start as int, end as int)) == trim_start(
                cs@.subrange(lo as int, end as int),
            ),
        decreases end - lo,
    {
        assert(cs@.subrange(lo as int, end as int).drop_first() =~= cs@.subrange(
            lo + 1,
            end as int,
        ));
        lo = lo + 1;
    }
    assert(trim_start(cs@.subrange(start as int, end as int)) == cs@.subrange(lo as int, end as int));
    let mut hi = end;
    while hi > lo && white_space(cs[hi - 1])
        invariant
            start <= lo <= hi <= end <= cs@.len(),
            trim_end(cs@.subrange(lo as int, end as int)) == trim_end(
                cs@.subrange(lo as int, hi as int),
            ),
        decreases hi - lo,
    {
        assert(cs@.subrange(lo as int, hi as int).drop_last() =~= cs@.subrange(
            lo as int,
            hi - 1,
        ));
        hi = hi - 1;
    }
    let mut r = String::new();
    let mut k = lo;
    while k < hi
        invariant
            lo <= k <= hi <= cs@.len(),
            r@ == cs@.subrange(lo as int, k as int),
        decreases hi - k,
    {
        push_char(&mut r, cs[k]);
        assert(r@ =~= cs@.subrange(lo as int, k + 1));
        k = k + 1;
    }
    r
}

/// Appends to `out` what line `line_no` (0-based) of bytes `line` contributes.
fn push_line(out: &mut Vec<(usize, Option<String>)>, line_no: usize, line: &[u8])
    requires
        line_no < usize::MAX,
    ensures
        numbered_views(final(out)@) == if !valid_utf8(line@) {
            numbered_views(old(out)@).push(((line_no + 1) as int, None))
        } else if trim(decode_utf8(line@)).len() > 0 {
            numbered_views(old(out)@).push(((line_no + 1) as int, Some(trim(decode_utf8(line@)))))
        } else {
            numbered_views(old(out)@)
        },
{
    broadcast use vstd::utf8::encode_utf8_decode_utf8;

    let ghost before = numbered_views(out@);
    match utf8_text(line) {
        None => {
            out.push((line_no + 1, None));
            assert(numbered_views(out@) =~= before.push(((line_no + 1) as int, None)));
        },
        Some(text) => {
            assert(decode_utf8(line@) == text@);
            let cs = chars_of(text);
            let t = trimmed(&cs, 0, cs.len());
            assert(cs@.subrange(0, cs@.len() as int) =~= cs@);
            if t.as_str().unicode_len() > 0 {
                let ghost tv = t@;
                out.push((line_no + 1, Some(t)));
                assert(numbered_views(out@) =~= before.push(((line_no + 1) as int, Some(tv))));
            }
        },
    }
}

/// The lines of a history file worth reporting, with their 1-based line
/// numbers: undecodable lines as `None`, the others trimmed, blank ones left out.
pub fn history_lines(content: &[u8]) -> (out: Vec<(usize, Option<String>)>)
    ensures
        numbered_views(out@) == numbered_lines(lines(content@, newline())),
{
    let n = content.len();
    let mut out: Vec<(usize, Option<String>)> = Vec::new();
    let mut start: usize = 0;
    let mut line_no: usize = 0;
    assert(content@.take(0) =~= Seq::<u8>::empty());
    for i in 0..n
        invariant
            n == content@.len(),
            start <= i,
            segments(content@.take(i as int), newline()).len() == line_no + 1,
            segments(content@.take(i as int), newline()).last() == content@.subrange(
                start as int,
                i as int,
            ),
            numbered_views(out@) == numbered_lines(
                segments(content@.take(i as int), newline()).drop_last(),
            ),
            line_no <= start,
    {
        let ghost before = segments(content@.take(i as int), newline());
        proof {
            assert(content@.take(i + 1).drop_last() =~= content@.take(i as int));
            assert(content@.take(i + 1).last() == content@[i as int]);
        }
        if content[i] == 0x0a {
            let line = slice_subrange(content, start, i);
            push_line(&mut out, line_no, line);
            proof {
                assert(before.drop_last().push(before.last()) =~= before);
                assert(segments(content@.take(i + 1), newline()).drop_last() =~= before);
            }
            line_no = line_no + 1;
            start = i + 1;
            assert(segments(content@.take(i + 1), newline()).last() =~= content@.subrange(
                start as int,
                i + 1,
            ));
        } else {
            proof {
                assert(segments(content@.take(i + 1), newline()).drop_last() =~= before.drop_last());
                assert(content@.subrange(start as int, i + 1) =~= content@.subrange(
                    start as int,
                    i as int,
                ).push(content@[i as int]));
            }
        }
    }
    assert(content@.take(n as int) =~= content@);
    if start < n {
        let line = slice_subrange(content, start, n);
        let ghost segs = segments(content@, newline());
        push_line(&mut out, line_no, line);
        proof {
            assert(segs.drop_last().push(segs.last()) =~= segs);
        }
    }
    out
}

proof fn lemma_segments_append_plain<A>(c: Seq<A>, l: Seq<A>, sep: A)
    requires
        forall|i: int| 0 <= i < l.len() ==> l[i] != sep,
    ensures
        segments(c + l, sep) == segments(c, sep).update(
            segments(c, sep).len() - 1,
            segments(c, sep).last() + l,
        ),
    decreases l.len(),
{
    lemma_segments_nonempty(c, sep);
    if l.len() == 0 {
        assert(c + l =~= c);
        assert(segments(c, sep).last() + l =~= segments(c, sep).last());
        assert(segments(c, sep).update(segments(c, sep).len() - 1, segments(c, sep).last())
            =~= segments(c, sep));
    } else {
        let l0 = l.drop_last();
        lemma_segments_append_plain(c, l0, sep);
        assert((c + l).drop_last() =~= c + l0);
        assert((c + l).last() == l.last());
        let s = segments(c, sep);
        lemma_segments_nonempty(c + l0, sep);
        assert(segments(c + l, sep) =~= s.update(s.len() - 1, s.last() + l0).update(
            s.len() - 1,
            (s.last() + l0).push(l.last()),
        ));
        assert((s.last() + l0).push(l.last()) =~= s.last() + l);
        assert(segments(c + l, sep) =~= s.update(s.len() - 1, s.last() + l));
    }
}

/// Appending one line to a history that is empty or ends in a newline keeps
/// every earlier line as it was and adds that line after them; the reported
/// lines gain it, numbered after the others, unless it is blank.
pub proof fn law_appending_a_line_keeps_earlier_lines(content: Seq<u8>, line: Seq<u8>)
    requires
        content.len() == 0 || content.last() == newline(),
        forall|i: int| 0 <= i < line.len() ==> line[i] != newline(),
    ensures
        lines(content + line + seq![newline()], newline()) == lines(content, newline()).push(line),
        numbered_lines(lines(content + line + seq![newline()], newline())) == numbered_lines(
            lines(content, newline()),
        ) + if !valid_utf8(line) {
            seq![((lines(content, newline()).len() + 1) as int, None)]
        } else if trim(decode_utf8(line)).len() > 0 {
            seq![((lines(content, newline()).len() + 1) as int, Some(trim(decode_utf8(line))))]
        } else {
            Seq::empty()
        },
{
    let nl = newline();
    let s = segments(content, nl);
    lemma_segments_nonempty(content, nl);
    if content.len() == 0 {
        assert(s =~= seq![Seq::<u8>::empty()]);
    } else {
        assert(content.drop_last().push(nl) =~= content);
        lemma_segments_nonempty(content.drop_last(), nl);
    }
    assert(s.last().len() == 0);
    lemma_segments_append_plain(content, line, nl);
    let all = content + line + seq![nl];
    assert(all.drop_last() =~= content + line);
    assert(s.last() + line =~= line);
    assert(segments(all, nl) =~= segments(content + line, nl).push(Seq::empty()));
    assert(lines(all, nl) =~= s.update(s.len() - 1, line));
    assert(lines(content, nl) =~= s.drop_last());
    assert(s.update(s.len() - 1, line) =~= s.drop_last().push(line));
    let ls = lines(content, nl).push(line);
    assert(ls.drop_last() =~= lines(content, nl));
    let before = numbered_lines(lines(content, nl));
    if !valid_utf8(line) {
        assert(numbered_lines(ls) =~= before + seq![((lines(content, nl).len() + 1) as int, None)]);
    } else if trim(decode_utf8(line)).len() > 0 {
        assert(numbered_lines(ls) =~= before + seq![
            ((lines(content, nl).len() + 1) as int, Some(trim(decode_utf8(line)))),
        ]);
    } else {
        assert(numbered_lines(ls) =~= before + Seq::empty());
    }
}

} // verus!
