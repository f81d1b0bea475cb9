//! Text helpers: the byte-wise order of strings and a stable insertion sort.
//!
//! Strings order as std orders them: lexicographically by their UTF-8 bytes.

use vstd::prelude::*;
use vstd::utf8::*;

verus! {

/// Three-way lexicographic comparison of byte sequences: -1, 0 or 1.
pub open spec fn bytes_order(a: Seq<u8>, b: Seq<u8>) -> int
    decreases a.len(),
{
    if a.len() == 0 {
        if b.len() == 0 {
            0
        } else {
            -1
        }
    } else if b.len() == 0 {
        1
    } else if a[0] < b[0] {
        -1
    } else if a[0] > b[0] {
        1
    } else {
        bytes_order(a.drop_first(), b.drop_first())
    }
}

/// Three-way comparison of texts by their UTF-8 encodings, as `str` orders them.
pub open spec fn text_order(a: Seq<char>, b: Seq<char>) -> int {
    bytes_order(encode_utf8(a), encode_utf8(b))
}

/// `a` sorts strictly after `b`.
pub open spec fn text_after(a: Seq<char>, b: Seq<char>) -> bool {
    text_order(a, b) > 0
}

proof fn lemma_bytes_order_skip(a: Seq<u8>, b: Seq<u8>, i: int)
    requires
        0 <= i < a.len(),
        i < b.len(),
        a[i] == b[i],
    ensures
        bytes_order(a.skip(i), b.skip(i)) == bytes_order(a.skip(i + 1), b.skip(i + 1)),
{
    assert(a.skip(i).drop_first() =~= a.skip(i + 1));
    assert(b.skip(i).drop_first() =~= b.skip(i + 1));
}

/// Compares two byte slices lexicographically.
pub fn compare_bytes(x: &[u8], y: &[u8]) -> (r: i8)
    ensures
        r as int == bytes_order(x@, y@),
{
    let mut i: usize = 0;
    assert(x@.skip(0) =~= x@);
    assert(y@.skip(0) =~= y@);
    while i < x.len() && i < y.len()
        invariant
            i <= x@.len(),
            i <= y@.len(),
            bytes_order(x@, y@) == bytes_order(x@.skip(i as int), y@.skip(i as int)),
        decreases x@.len() - i,
    {
        if x[i] < y[i] {
            return -1;
        }
        if x[i] > y[i] {
            return 1;
        }
        proof {
            lemma_bytes_order_skip(x@, y@, i as int);
        }
        i = i + 1;
    }
    if i < x.len() {
        1
    } else if i < y.len() {
        -1
    } else {
        0
    }
}

/// Compares two texts as `str` does: by their UTF-8 bytes.
pub fn compare_text(a: &str, b: &str) -> (r: i8)
    ensures
        r as int == text_order(a@, b@),
{
    compare_bytes(a.as_bytes(), b.as_bytes())
}

/// Copies a string slice into an owned string.
pub fn owned(s: &str) -> (r: String)
    ensures
        r@ == s@,
{
    s.to_owned()
}

/// The order in which texts are sorted: `after(a, b)` holds when `a` sorts after `b`.
pub open spec fn by_text() -> spec_fn(Seq<char>, Seq<char>) -> bool {
    |a: Seq<char>, b: Seq<char>| text_after(a, b)
}

/// Inserts `x` into `s` after every element that does not sort after it, and
/// before the trailing run of elements that do.
pub open spec fn insert_in_order<A>(s: Seq<A>, x: A, after: spec_fn(A, A) -> bool) -> Seq<A>
    decreases s.len(),
{
    if s.len() == 0 {
        seq![x]
    } else if after(s.last(), x) {
        insert_in_order(s.drop_last(), x, after).push(s.last())
    } else {
        s.push(x)
    }
}

/// The stable insertion sort of `s`: equal elements keep their relative order.
pub open spec fn insertion_sort<A>(s: Seq<A>, after: spec_fn(A, A) -> bool) -> Seq<A>
    decreases s.len(),
{
    if s.len() == 0 {
        s
    } else {
        insert_in_order(insertion_sort(s.drop_last(), after), s.last(), after)
    }
}

/// Inserting in order puts `x` just after the last element that does not sort after it.
pub proof fn lemma_insert_in_order_at<A>(s: Seq<A>, x: A, after: spec_fn(A, A) -> bool, pos: int)
    requires
        0 <= pos <= s.len(),
        forall|k: int| pos <= k < s.len() ==> after(#[trigger] s[k], x),
        pos == 0 || !after(s[pos - 1], x),
    ensures
        insert_in_order(s, x, after) == s.insert(pos, x),
    decreases s.len(),
{
    if s.len() == pos {
        if pos == 0 {
            assert(s.insert(pos, x) =~= seq![x]);
        } else {
            assert(s.insert(pos, x) =~= s.push(x));
        }
    } else {
        lemma_insert_in_order_at(s.drop_last(), x, after, pos);
        assert(s.drop_last().insert(pos, x).push(s.last()) =~= s.insert(pos, x));
    }
}

/// The views of a sequence of strings.
pub open spec fn texts(s: Seq<String>) -> Seq<Seq<char>> {
    s.map_values(|t: String| t@)
}

/// Sorts strings ascending in `str` order; equal strings keep their order.
pub fn sort_texts(v: &Vec<String>) -> (r: Vec<String>)
    ensures
        texts(r@) == insertion_sort(texts(v@), by_text()),
{
    let mut out: Vec<String> = Vec::new();
    let n = v.len();
    for i in 0..n
        invariant
            n == v@.len(),
            texts(out@) == insertion_sort(texts(v@.take(i as int)), by_text()),
    {
        let x = v[i].clone();
        let mut pos = out.len();
        while pos > 0 && compare_text(out[pos - 1].as_str(), x.as_str()) > 0
            invariant
                pos <= out@.len(),
                forall|k: int| pos <= k < out@.len() ==> text_after(#[trigger] out@[k]@, x@),
            decreases pos,
        {
            pos = pos - 1;
        }
        let ghost before = out@;
        out.insert(pos, x);
        proof {
            let f = by_text();
            assert(forall|k: int| pos <= k < before.len() ==> f(#[trigger] texts(before)[k], x@));
            lemma_insert_in_order_at(texts(before), x@, f, pos as int);
            assert(texts(out@) =~= texts(before).insert(pos as int, x@));
            assert(texts(v@.take(i + 1)).drop_last() =~= texts(v@.take(i as int)));
            assert(texts(v@.take(i + 1)).last() == x@);
        }
    }
    assert(v@.take(n as int) =~= v@);
    out
}

/// The first occurrence of each element of `s`, in order.
pub open spec fn dedup<A>(s: Seq<A>) -> Seq<A>
    decreases s.len(),
{
    if s.len() == 0 {
        s
    } else {
        let kept = dedup(s.drop_last());
        if kept.contains(s.last()) {
            kept
        } else {
            kept.push(s.last())
        }
    }
}

/// Returns whether `s` holds a string equal to `t`.
pub fn contains_text(s: &Vec<String>, t: &String) -> (r: bool)
    ensures
        r == texts(s@).contains(t@),
{
    let n = s.len();
    for i in 0..n
        invariant
            n == s@.len(),
            forall|k: int| 0 <= k < i ==> s@[k]@ != t@,
    {
        if s[i] == *t {
            assert(texts(s@)[i as int] == t@);
            return true;
        }
    }
    false
}

// ── Laws ───────────────────────────────────────────────────────────────────

/// No element occurs twice in `s`.
pub open spec fn no_repeats<A>(s: Seq<A>) -> bool {
    forall|i: int, j: int| 0 <= i < j < s.len() ==> s[i] != s[j]
}

proof fn lemma_push_contains<A>(s: Seq<A>, y: A, x: A)
    ensures
        s.push(y).contains(x) <==> (s.contains(x) || x == y),
{
    if s.contains(x) {
        let i = choose|i: int| 0 <= i < s.len() && s[i] == x;
        assert(s.push(y)[i] == x);
    }
    if x == y {
        assert(s.push(y)[s.len() as int] == x);
    }
    if s.push(y).contains(x) {
        let i = choose|i: int| 0 <= i < s.push(y).len() && s.push(y)[i] == x;
        if i < s.len() {
            assert(s[i] == x);
        }
    }
}

/// De-duplication keeps exactly the elements of `s`, each once.
pub proof fn law_dedup_distinct_and_complete<A>(s: Seq<A>)
    ensures
        no_repeats(dedup(s)),
        forall|x: A| dedup(s).contains(x) <==> s.contains(x),
    decreases s.len(),
{
    if s.len() > 0 {
        let d = s.drop_last();
        let l = s.last();
        law_dedup_distinct_and_complete(d);
        let kept = dedup(d);
        assert(d.push(l) =~= s);
        assert forall|x: A| s.contains(x) <==> (d.contains(x) || x == l) by {
            lemma_push_contains(d, l, x);
        }
        if !kept.contains(l) {
            assert forall|x: A| kept.push(l).contains(x) <==> (kept.contains(x) || x == l) by {
                lemma_push_contains(kept, l, x);
            }
            assert forall|i: int, j: int| 0 <= i < j < kept.push(l).len() implies kept.push(l)[i]
                != kept.push(l)[j] by {
                if j == kept.len() {
                    assert(kept.push(l)[i] == kept[i]);
                    if kept[i] == l {
                        assert(kept.contains(l));
                    }
                }
            }
        }
    }
}

/// `s` is sorted for `after`: no element sorts after a later one.
pub open spec fn sorted_by<A>(s: Seq<A>, after: spec_fn(A, A) -> bool) -> bool {
    forall|i: int, j: int| 0 <= i < j < s.len() ==> !after(s[i], s[j])
}

/// `after` is a strict order: asymmetric, and "not after" is transitive.
pub open spec fn is_strict_order<A>(after: spec_fn(A, A) -> bool) -> bool {
    &&& forall|a: A, b: A| #[trigger] after(a, b) ==> !after(b, a)
    &&& forall|a: A, b: A, c: A|
        !#[trigger] after(a, b) && !#[trigger] after(b, c) ==> !after(a, c)
}

proof fn lemma_insert_in_order_sorted<A>(s: Seq<A>, x: A, after: spec_fn(A, A) -> bool)
    requires
        is_strict_order(after),
        sorted_by(s, after),
    ensures
        sorted_by(insert_in_order(s, x, after), after),
        insert_in_order(s, x, after).to_multiset() == s.to_multiset().insert(x),
        forall|y: A| insert_in_order(s, x, after).contains(y) ==> y == x || s.contains(y),
    decreases s.len(),
{
    broadcast use vstd::seq_lib::group_to_multiset_ensures;

    if s.len() == 0 {
        assert(seq![x] =~= s.push(x));
    } else {
        let d = s.drop_last();
        assert(d.push(s.last()) =~= s);
        assert(sorted_by(d, after));
        if after(s.last(), x) {
            lemma_insert_in_order_sorted(d, x, after);
            let r = insert_in_order(d, x, after);
            let l = s.last();
            assert forall|i: int, j: int| 0 <= i < j < r.push(l).len() implies !after(
                r.push(l)[i],
                r.push(l)[j],
            ) by {
                assert(r.push(l)[i] == r[i]);
                if j == r.len() {
                    let y = r[i];
                    assert(r.contains(y));
                    if y != x {
                        assert(d.contains(y));
                        let k = choose|k: int| 0 <= k < d.len() && d[k] == y;
                        assert(s[k] == y);
                        assert(!after(s[k], s[s.len() - 1]));
                    } else {
                        assert(after(l, x));
                    }
                } else {
                    assert(r.push(l)[j] == r[j]);
                }
            }
        } else {
            assert forall|i: int, j: int| 0 <= i < j < s.push(x).len() implies !after(
                s.push(x)[i],
                s.push(x)[j],
            ) by {
                if j == s.len() && i < s.len() - 1 {
                    assert(!after(s[i], s[s.len() - 1]));
                }
            }
        }
        if after(s.last(), x) {
            let r = insert_in_order(d, x, after);
            assert forall|y: A| r.push(s.last()).contains(y) implies y == x || s.contains(y) by {
                lemma_push_contains(r, s.last(), y);
                lemma_push_contains(d, s.last(), y);
            }
        } else {
            assert forall|y: A| s.push(x).contains(y) implies y == x || s.contains(y) by {
                lemma_push_contains(s, x, y);
            }
        }
    }
}

/// For a strict order, the stable insertion sort of `s` is sorted and holds
/// exactly the elements of `s` (as a multiset).
pub proof fn law_insertion_sort_sorts<A>(s: Seq<A>, after: spec_fn(A, A) -> bool)
    requires
        is_strict_order(after),
    ensures
        sorted_by(insertion_sort(s, after), after),
        insertion_sort(s, after).to_multiset() == s.to_multiset(),
    decreases s.len(),
{
    broadcast use vstd::seq_lib::group_to_multiset_ensures;

    if s.len() > 0 {
        law_insertion_sort_sorts(s.drop_last(), after);
        lemma_insert_in_order_sorted(insertion_sort(s.drop_last(), after), s.last(), after);
        assert(s.drop_last().push(s.last()) =~= s);
    }
}

proof fn lemma_bytes_order_antisymmetric(a: Seq<u8>, b: Seq<u8>)
    ensures
        bytes_order(a, b) == -bytes_order(b, a),
        bytes_order(a, b) == 0 <==> a == b,
    decreases a.len(),
{
    if a.len() > 0 && b.len() > 0 {
        lemma_bytes_order_antisymmetric(a.drop_first(), b.drop_first());
        if a[0] == b[0] && a.drop_first() == b.drop_first() {
            assert forall|i: int| 0 <= i < a.len() implies a[i] == b[i] by {
                if i > 0 {
                    assert(a.drop_first()[i - 1] == b.drop_first()[i - 1]);
                }
            }
            assert(a =~= b);
        }
    } else if a.len() == 0 && b.len() == 0 {
        assert(a =~= b);
    }
}

proof fn lemma_bytes_order_transitive(a: Seq<u8>, b: Seq<u8>, c: Seq<u8>)
    requires
        bytes_order(a, b) <= 0,
        bytes_order(b, c) <= 0,
    ensures
        bytes_order(a, c) <= 0,
    decreases a.len(),
{
    if a.len() > 0 && b.len() > 0 && c.len() > 0 {
        if a[0] == b[0] && b[0] == c[0] {
            lemma_bytes_order_transitive(a.drop_first(), b.drop_first(), c.drop_first());
        }
    }
}

/// Texts in `str` order: the order is antisymmetric, transitive and total, and
/// two texts are equal exactly when neither sorts before the other.
pub proof fn law_text_order_is_total(a: Seq<char>, b: Seq<char>, c: Seq<char>)
    ensures
        text_order(a, b) == -text_order(b, a),
        text_order(a, b) == 0 <==> a == b,
        text_order(a, b) <= 0 && text_order(b, c) <= 0 ==> text_order(a, c) <= 0,
{
    lemma_bytes_order_antisymmetric(encode_utf8(a), encode_utf8(b));
    if encode_utf8(a) == encode_utf8(b) {
        vstd::utf8::encode_utf8_decode_utf8(a);
        vstd::utf8::encode_utf8_decode_utf8(b);
    }
    if text_order(a, b) <= 0 && text_order(b, c) <= 0 {
        lemma_bytes_order_transitive(encode_utf8(a), encode_utf8(b), encode_utf8(c));
    }
}

/// Sorting by text is sorting by a strict order.
pub proof fn law_by_text_is_strict_order()
    ensures
        is_strict_order(by_text()),
{
    let f = by_text();
    assert forall|a: Seq<char>, b: Seq<char>| #[trigger] f(a, b) implies !f(b, a) by {
        law_text_order_is_total(a, b, b);
    }
    assert forall|a: Seq<char>, b: Seq<char>, c: Seq<char>|
        !#[trigger] f(a, b) && !#[trigger] f(b, c) implies !f(a, c) by {
        law_text_order_is_total(a, b, c);
    }
}

} // verus!
