//! The content digest of a history entry: SHA-256, hex-encoded, of the canonical
//! JSON of `(build_id, pairs sorted by (measure, backend_a, backend_b))`.

use vstd::prelude::*;
use vstd::string::StringExecFns;
use vstd::utf8::encode_utf8;

use sha2::Digest;

use crate::history::{KeyView, PairRecord, PairRecordView, ParsedVerdict, record_views};
use crate::text::{
    compare_text, insert_in_order, insertion_sort, is_strict_order, law_insertion_sort_sorts,
    law_text_order_is_total, lemma_insert_in_order_at, owned, sorted_by, text_order,
};

verus! {

// ── Outside calls ──────────────────────────────────────────────────────────

/// The JSON escape of one character, as `serde_json` writes it inside a
/// string: `"` and `\` behind a backslash, the control characters below 0x20
/// as `\b`, `\t`, `\n`, `\f`, `\r` or `\u00XX` (lowercase hex), and every other
/// character as it is.
pub open spec fn json_escape_char(c: char) -> Seq<char> {
    let v = c as u32;
    if c == '"' {
        seq!['\\', '"']
    } else if c == '\\' {
        seq!['\\', '\\']
    } else if v == 0x08 {
        seq!['\\', 'b']
    } else if v == 0x09 {
        seq!['\\', 't']
    } else if v == 0x0a {
        seq!['\\', 'n']
    } else if v == 0x0c {
        seq!['\\', 'f']
    } else if v == 0x0d {
        seq!['\\', 'r']
    } else if v < 0x20 {
        seq!['\\', 'u', '0', '0', hex_digit(v as int / 16), hex_digit(v as int % 16)]
    } else {
        seq![c]
    }
}

/// The JSON escape of a text, character by character.
pub open spec fn json_escape(text: Seq<char>) -> Seq<char>
    decreases text.len(),
{
    if text.len() == 0 {
        Seq::empty()
    } else {
        json_escape(text.drop_last()) + json_escape_char(text.last())
    }
}

/// The JSON string literal of a text: its escape between double quotes.
pub open spec fn json_string(text: Seq<char>) -> Seq<char> {
    seq!['"'] + json_escape(text) + seq!['"']
}

/// Calls `serde_json::to_string` on a `&str`.  Claimed, as the serializer's
/// source shows: serializing a `str` into a byte buffer never fails, and the
/// text written is the string literal `json_string` states (quotes around the
/// text, with the escapes of `json_escape_char`).
#[verifier::external_body]
fn json_quote(text: &str) -> (r: Option<String>)
    ensures
        r is Some,
        r matches Some(q) ==> q@ == json_string(text@),
{
    serde_json::to_string(text).ok()
}

/// The SHA-256 digest of a byte sequence.
pub uninterp spec fn sha256(data: Seq<u8>) -> Seq<u8>;

/// Calls `<sha2::Sha256 as Digest>::digest`.  Claimed: the result is the value
/// that `sha256` names for the input, and is 32 bytes long (the output size of
/// SHA-256).
#[verifier::external_body]
fn sha256_digest(data: &[u8]) -> (r: Vec<u8>)
    ensures
        r@ == sha256(data@),
        r@.len() == 32,
{
    sha2::Sha256::digest(data).to_vec()
}

/// The lowercase hex digit of a value below 16.
pub open spec fn hex_digit(v: int) -> char {
    seq!['0', '1', '2', '3', '4', '5', '6', '7', '8', '9', 'a', 'b', 'c', 'd', 'e', 'f'][v]
}

/// Lowercase hex: two digits per byte, high nibble first.
pub open spec fn hex_lower(data: Seq<u8>) -> Seq<char>
    decreases data.len(),
{
    if data.len() == 0 {
        Seq::empty()
    } else {
        hex_lower(data.drop_last()) + seq![
            hex_digit(data.last() as int / 16),
            hex_digit(data.last() as int % 16),
        ]
    }
}

/// Calls `hex::encode`.  Claimed, as its documentation states: each byte is
/// written as two lowercase hex digits, high nibble first.
#[verifier::external_body]
fn hex_encode(data: &[u8]) -> (r: String)
    ensures
        r@ == hex_lower(data@),
{
    hex::encode(data)
}

// ── The canonical payload ──────────────────────────────────────────────────

/// Three-way order of keys: by measure, then backend_a, then backend_b.
pub open spec fn key_order(k1: KeyView, k2: KeyView) -> int {
    if text_order(k1.0, k2.0) != 0 {
        text_order(k1.0, k2.0)
    } else if text_order(k1.1, k2.1) != 0 {
        text_order(k1.1, k2.1)
    } else {
        text_order(k1.2, k2.2)
    }
}

/// The (measure, backend_a, backend_b) key of a pair record view.
pub open spec fn view_key(p: PairRecordView) -> KeyView {
    (p.measure, p.backend_a, p.backend_b)
}

/// The order pairs are sorted in: `after(p, q)` when `p`'s key sorts after `q`'s.
pub open spec fn by_pair_key() -> spec_fn(PairRecordView, PairRecordView) -> bool {
    |p: PairRecordView, q: PairRecordView| key_order(view_key(p), view_key(q)) > 0
}

/// The JSON of a verdict (`snake_case` variant name).
pub open spec fn verdict_json(v: ParsedVerdict) -> Seq<char> {
    match v {
        ParsedVerdict::Verified => "\"verified\""@,
        ParsedVerdict::Mismatch => "\"mismatch\""@,
        ParsedVerdict::Skipped => "\"skipped\""@,
    }
}

/// The JSON object of one pair in the payload.
pub open spec fn pair_json(p: PairRecordView) -> Seq<char> {
    "{\"measure\":"@ + json_string(p.measure) + ",\"backend_a\":"@ + json_string(p.backend_a)
        + ",\"backend_b\":"@ + json_string(p.backend_b) + ",\"verdict\":"@ + verdict_json(
        p.verdict,
    ) + "}"@
}

/// The comma-separated JSON objects of a sequence of pairs.
pub open spec fn pairs_json(ps: Seq<PairRecordView>) -> Seq<char>
    decreases ps.len(),
{
    if ps.len() == 0 {
        Seq::empty()
    } else if ps.len() == 1 {
        pair_json(ps.last())
    } else {
        pairs_json(ps.drop_last()) + ","@ + pair_json(ps.last())
    }
}

/// The compact JSON of `{"build_id": b, "pairs": [..]}`.
pub open spec fn digest_payload(b: Seq<char>, ps: Seq<PairRecordView>) -> Seq<char> {
    "{\"build_id\":"@ + json_string(b) + ",\"pairs\":["@ + pairs_json(ps) + "]}"@
}

/// The content digest of build `b` with pairs `ps`: hex SHA-256 of the payload
/// over the pairs stably sorted by key.  Only the key and verdict of each pair
/// enter the payload.
pub open spec fn content_digest_of(b: Seq<char>, ps: Seq<PairRecordView>) -> Seq<char> {
    hex_lower(sha256(encode_utf8(digest_payload(b, insertion_sort(ps, by_pair_key())))))
}

// ── Computation ────────────────────────────────────────────────────────────

/// Compares the keys of two pairs.
fn compare_keys(p: &PairRecord, q: &PairRecord) -> (r: i8)
    ensures
        r as int == key_order(p.spec_key(), q.spec_key()),
{
    let c = compare_text(p.measure.as_str(), q.measure.as_str());
    if c != 0 {
        return c;
    }
    let c = compare_text(p.backend_a.as_str(), q.backend_a.as_str());
    if c != 0 {
        return c;
    }
    compare_text(p.backend_b.as_str(), q.backend_b.as_str())
}

spec fn picked(ps: Seq<PairRecord>, order: Seq<usize>) -> Seq<PairRecordView> {
    order.map_values(|j: usize| ps[j as int]@)
}

/// The positions of `pairs` in stably sorted key order.
fn sorted_pair_order(pairs: &[PairRecord]) -> (order: Vec<usize>)
    ensures
        forall|j: int| 0 <= j < order@.len() ==> #[trigger] order@[j] < pairs@.len(),
        picked(pairs@, order@) == insertion_sort(record_views(pairs@), by_pair_key()),
{
    let mut order: Vec<usize> = Vec::new();
    let n = pairs.len();
    for i in 0..n
        invariant
            n == pairs@.len(),
            forall|j: int| 0 <= j < order@.len() ==> #[trigger] order@[j] < i,
            picked(pairs@, order@) == insertion_sort(record_views(pairs@.take(i as int)), by_pair_key()),
    {
        let mut pos = order.len();
        while pos > 0 && compare_keys(&pairs[order[pos - 1]], &pairs[i]) > 0
            invariant
                pos <= order@.len(),
                i < n,
                n == pairs@.len(),
                forall|j: int| 0 <= j < order@.len() ==> #[trigger] order@[j] < i,
                forall|k: int|
                    pos <= k < order@.len() ==> key_order(
                        view_key(#[trigger] picked(pairs@, order@)[k]),
                        view_key(pairs@[i as int]@),
                    ) > 0,
            decreases pos,
        {
            pos = pos - 1;
        }
        let ghost before = order@;
        order.insert(pos, i);
        proof {
            let f = by_pair_key();
            let s = picked(pairs@, before);
            assert(forall|k: int| pos <= k < s.len() ==> f(#[trigger] s[k], pairs@[i as int]@));
            lemma_insert_in_order_at(s, pairs@[i as int]@, f, pos as int);
            assert(picked(pairs@, order@) =~= s.insert(pos as int, pairs@[i as int]@));
            assert(record_views(pairs@.take(i + 1)).drop_last() =~= record_views(pairs@.take(i as int)));
            assert(record_views(pairs@.take(i + 1)).last() == pairs@[i as int]@);
            assert forall|j: int| 0 <= j < order@.len() implies #[trigger] order@[j] < i + 1 by {
                if j < pos {
                    assert(order@[j] == before[j]);
                } else if j > pos {
                    assert(order@[j] == before[j - 1]);
                }
            }
        }
    }
    assert(pairs@.take(n as int) =~= pairs@);
    order
}

/// Writes a text as a JSON string literal.
fn quoted(text: &str) -> (r: String)
    ensures
        r@ == json_string(text@),
{
    match json_quote(text) {
        Some(q) => q,
        None => owned(""),
    }
}

/// Writes the JSON object of one pair.
fn pair_text(p: &PairRecord) -> (r: String)
    ensures
        r@ == pair_json(p@),
{
    let mut t = owned("{\"measure\":");
    t.append(quoted(p.measure.as_str()).as_str());
    t.append(",\"backend_a\":");
    t.append(quoted(p.backend_a.as_str()).as_str());
    t.append(",\"backend_b\":");
    t.append(quoted(p.backend_b.as_str()).as_str());
    t.append(",\"verdict\":");
    match p.verdict {
        ParsedVerdict::Verified => t.append("\"verified\""),
        ParsedVerdict::Mismatch => t.append("\"mismatch\""),
        ParsedVerdict::Skipped => t.append("\"skipped\""),
    }
    t.append("}");
    t
}

/// Writes the comma-separated pair objects in the given order.
fn pairs_text(pairs: &[PairRecord], order: &Vec<usize>) -> (r: String)
    requires
        forall|j: int| 0 <= j < order@.len() ==> #[trigger] order@[j] < pairs@.len(),
    ensures
        r@ == pairs_json(picked(pairs@, order@)),
{
    let ghost s = picked(pairs@, order@);
    let mut items = owned("");
    proof {
        reveal_strlit("");
        assert(s.take(0) =~= Seq::<PairRecordView>::empty());
    }
    let n = order.len();
    for j in 0..n
        invariant
            n == order@.len(),
            s == picked(pairs@, order@),
            forall|jj: int| 0 <= jj < order@.len() ==> #[trigger] order@[jj] < pairs@.len(),
            pairs_json(s.take(j as int)) == items@,
    {
        proof {
            assert(s.take(j + 1).drop_last() =~= s.take(j as int));
            assert(s.take(j + 1).last() == pairs@[order@[j as int] as int]@);
        }
        let item = pair_text(&pairs[order[j]]);
        if j > 0 {
            items.append(",");
        } else {
            assert(items@ =~= Seq::<char>::empty());
            assert(items@ + item@ =~= item@);
        }
        items.append(item.as_str());
    }
    assert(s.take(n as int) =~= s);
    items
}

/// A lowercase hex digit: `0`-`9` or `a`-`f`.
pub open spec fn is_lower_hex_digit(c: char) -> bool {
    ('0' <= c && c <= '9') || ('a' <= c && c <= 'f')
}

proof fn lemma_hex_lower_shape(data: Seq<u8>)
    ensures
        hex_lower(data).len() == 2 * data.len(),
        forall|i: int| 0 <= i < hex_lower(data).len() ==> is_lower_hex_digit(#[trigger] hex_lower(data)[i]),
    decreases data.len(),
{
    if data.len() > 0 {
        lemma_hex_lower_shape(data.drop_last());
        let d = hex_lower(data.drop_last());
        let hi = data.last() as int / 16;
        let lo = data.last() as int % 16;
        let digits = seq!['0', '1', '2', '3', '4', '5', '6', '7', '8', '9', 'a', 'b', 'c', 'd', 'e', 'f'];
        assert(forall|k: int| 0 <= k < 16 ==> is_lower_hex_digit(#[trigger] digits[k]));
        assert(is_lower_hex_digit(hex_digit(hi)));
        assert(is_lower_hex_digit(hex_digit(lo)));
        assert forall|i: int| 0 <= i < hex_lower(data).len() implies is_lower_hex_digit(#[trigger] hex_lower(data)[i]) by {
            if i < d.len() {
                assert(hex_lower(data)[i] == d[i]);
            }
        }
    }
}

/// Computes the content digest of `(build_id, pairs)`: 64 lowercase hex digits
/// of the SHA-256 of the canonical JSON over the stably sorted pairs.
pub fn compute_digest(build_id: &str, pairs: &[PairRecord]) -> (d: String)
    ensures
        d@ == content_digest_of(build_id@, record_views(pairs@)),
        d@.len() == 64,
        forall|i: int| 0 <= i < d@.len() ==> is_lower_hex_digit(#[trigger] d@[i]),
{
    let order = sorted_pair_order(pairs);
    assert(pairs@.take(pairs@.len() as int) =~= pairs@);
    let mut payload = owned("{\"build_id\":");
    payload.append(quoted(build_id).as_str());
    payload.append(",\"pairs\":[");
    payload.append(pairs_text(pairs, &order).as_str());
    payload.append("]}");
    let hash = sha256_digest(payload.as_str().as_bytes());
    proof {
        lemma_hex_lower_shape(hash@);
    }
    hex_encode(hash.as_slice())
}

// ── Laws ───────────────────────────────────────────────────────────────────

proof fn lemma_key_order_total(a: KeyView, b: KeyView, c: KeyView)
    ensures
        key_order(a, b) == -key_order(b, a),
        key_order(a, b) == 0 <==> a == b,
        key_order(a, b) <= 0 && key_order(b, c) <= 0 ==> key_order(a, c) <= 0,
{
    law_text_order_is_total(a.0, b.0, c.0);
    law_text_order_is_total(a.1, b.1, c.1);
    law_text_order_is_total(a.2, b.2, c.2);
    law_text_order_is_total(b.0, c.0, a.0);
    law_text_order_is_total(b.1, c.1, a.1);
    law_text_order_is_total(b.2, c.2, a.2);
    law_text_order_is_total(a.0, c.0, b.0);
    law_text_order_is_total(a.1, c.1, b.1);
    law_text_order_is_total(a.2, c.2, b.2);
}

proof fn lemma_by_pair_key_strict()
    ensures
        is_strict_order(by_pair_key()),
{
    let f = by_pair_key();
    assert forall|p: PairRecordView, q: PairRecordView| #[trigger] f(p, q) implies !f(q, p) by {
        lemma_key_order_total(view_key(p), view_key(q), view_key(q));
    }
    assert forall|p: PairRecordView, q: PairRecordView, r: PairRecordView|
        !#[trigger] f(p, q) && !#[trigger] f(q, r) implies !f(p, r) by {
        lemma_key_order_total(view_key(p), view_key(q), view_key(r));
    }
}

/// No two pairs of `ps` share a (measure, backend_a, backend_b) key.
pub open spec fn distinct_keys(ps: Seq<PairRecordView>) -> bool {
    forall|i: int, j: int| 0 <= i < j < ps.len() ==> view_key(ps[i]) != view_key(ps[j])
}

proof fn lemma_distinct_keys_kept(v: Seq<PairRecordView>, s: Seq<PairRecordView>)
    requires
        distinct_keys(v),
        s.to_multiset() == v.to_multiset(),
    ensures
        distinct_keys(s),
{
    broadcast use vstd::seq_lib::group_to_multiset_ensures;

    assert forall|i: int, j: int| 0 <= i < j < s.len() implies view_key(s[i]) != view_key(s[j]) by {
        if view_key(s[i]) == view_key(s[j]) {
            assert(s.contains(s[i]));
            assert(s.contains(s[j]));
            assert(s.to_multiset().count(s[i]) > 0);
            assert(s.to_multiset().count(s[j]) > 0);
            assert(v.to_multiset().count(s[i]) > 0);
            assert(v.to_multiset().count(s[j]) > 0);
            assert(v.contains(s[i]));
            assert(v.contains(s[j]));
            let a = choose|a: int| 0 <= a < v.len() && v[a] == s[i];
            let b = choose|b: int| 0 <= b < v.len() && v[b] == s[j];
            if a < b {
                assert(view_key(v[a]) != view_key(v[b]));
            } else if b < a {
                assert(view_key(v[b]) != view_key(v[a]));
            }
            assert(s[i] == s[j]);
            // s holds s[i] twice, v only once
            lemma_count_at_least_two(s, i, j);
            lemma_count_at_most_one(v, a);
        }
    }
}

proof fn lemma_count_at_least_two(s: Seq<PairRecordView>, i: int, j: int)
    requires
        0 <= i < j < s.len(),
        s[i] == s[j],
    ensures
        s.to_multiset().count(s[i]) >= 2,
{
    broadcast use vstd::seq_lib::group_to_multiset_ensures;

    broadcast use vstd::multiset::group_multiset_axioms;

    let r = s.remove(j);
    assert(r[i] == s[i]);
    assert(r.contains(s[i]));
    assert(r.to_multiset().count(s[i]) > 0);
    assert(r.to_multiset() == s.to_multiset().remove(s[j]));
}

proof fn lemma_count_at_most_one(v: Seq<PairRecordView>, a: int)
    requires
        0 <= a < v.len(),
        distinct_keys(v),
    ensures
        v.to_multiset().count(v[a]) <= 1,
{
    broadcast use vstd::seq_lib::group_to_multiset_ensures;

    broadcast use vstd::multiset::group_multiset_axioms;

    let r = v.remove(a);
    assert(r.to_multiset() == v.to_multiset().remove(v[a]));
    if r.contains(v[a]) {
        let k = choose|k: int| 0 <= k < r.len() && r[k] == v[a];
        if k < a {
            assert(v[k] == v[a]);
            assert(view_key(v[k]) != view_key(v[a]));
        } else {
            assert(v[k + 1] == v[a]);
            assert(view_key(v[a]) != view_key(v[k + 1]));
        }
    }
    assert(r.to_multiset().count(v[a]) == 0);
}

proof fn lemma_sorted_distinct_unique(s1: Seq<PairRecordView>, s2: Seq<PairRecordView>)
    requires
        sorted_by(s1, by_pair_key()),
        sorted_by(s2, by_pair_key()),
        distinct_keys(s1),
        distinct_keys(s2),
        s1.to_multiset() == s2.to_multiset(),
    ensures
        s1 == s2,
    decreases s1.len(),
{
    broadcast use vstd::seq_lib::group_to_multiset_ensures;

    assert(s1.to_multiset().len() == s1.len());
    assert(s2.to_multiset().len() == s2.len());
    if s1.len() == 0 {
        assert(s2.len() == 0);
        assert(s1 =~= s2);
    } else {
        let f = by_pair_key();
        assert(s2.len() == s1.len());
        assert(s1.contains(s1[0]));
        assert(s1.to_multiset().count(s1[0]) > 0);
        assert(s2.to_multiset().count(s1[0]) > 0);
        assert(s2.contains(s1[0]));
        assert(s2.contains(s2[0]));
        assert(s2.to_multiset().count(s2[0]) > 0);
        assert(s1.to_multiset().count(s2[0]) > 0);
        assert(s1.contains(s2[0]));
        let p = choose|p: int| 0 <= p < s2.len() && s2[p] == s1[0];
        let q = choose|q: int| 0 <= q < s1.len() && s1[q] == s2[0];
        lemma_key_order_total(view_key(s1[0]), view_key(s2[0]), view_key(s2[0]));
        if p > 0 {
            assert(!f(s2[0], s2[p]));
            if q > 0 {
                assert(!f(s1[0], s1[q]));
            }
        }
        if q > 0 {
            assert(!f(s1[0], s1[q]));
        }
        assert(s1[0] == s2[0]);
        let t1 = s1.drop_first();
        let t2 = s2.drop_first();
        assert(s1.remove(0) =~= t1);
        assert(s2.remove(0) =~= t2);
        assert(t1.to_multiset() == t2.to_multiset());
        assert(sorted_by(t1, f)) by {
            assert forall|i: int, j: int| 0 <= i < j < t1.len() implies !f(t1[i], t1[j]) by {
                assert(t1[i] == s1[i + 1] && t1[j] == s1[j + 1]);
            }
        }
        assert(sorted_by(t2, f)) by {
            assert forall|i: int, j: int| 0 <= i < j < t2.len() implies !f(t2[i], t2[j]) by {
                assert(t2[i] == s2[i + 1] && t2[j] == s2[j + 1]);
            }
        }
        assert(distinct_keys(t1)) by {
            assert forall|i: int, j: int| 0 <= i < j < t1.len() implies view_key(t1[i]) != view_key(t1[j]) by {
                assert(t1[i] == s1[i + 1] && t1[j] == s1[j + 1]);
            }
        }
        assert(distinct_keys(t2)) by {
            assert forall|i: int, j: int| 0 <= i < j < t2.len() implies view_key(t2[i]) != view_key(t2[j]) by {
                assert(t2[i] == s2[i + 1] && t2[j] == s2[j + 1]);
            }
        }
        lemma_sorted_distinct_unique(t1, t2);
        assert(s1 =~= s2) by {
            assert forall|i: int| 0 <= i < s1.len() implies s1[i] == s2[i] by {
                if i > 0 {
                    assert(t1[i - 1] == t2[i - 1]);
                }
            }
        }
    }
}

/// The digest does not depend on the order in which pairs arrive: two pair
/// lists holding the same records, no two with the same key, digest alike.
pub proof fn law_digest_ignores_pair_order(
    b: Seq<char>,
    v1: Seq<PairRecordView>,
    v2: Seq<PairRecordView>,
)
    requires
        distinct_keys(v1),
        v1.to_multiset() == v2.to_multiset(),
    ensures
        content_digest_of(b, v1) == content_digest_of(b, v2),
{
    lemma_by_pair_key_strict();
    let f = by_pair_key();
    law_insertion_sort_sorts(v1, f);
    law_insertion_sort_sorts(v2, f);
    let s1 = insertion_sort(v1, f);
    let s2 = insertion_sort(v2, f);
    lemma_distinct_keys_kept(v1, v2);
    lemma_distinct_keys_kept(v1, s1);
    lemma_distinct_keys_kept(v2, s2);
    lemma_sorted_distinct_unique(s1, s2);
}

/// What of a pair enters the digest: its key and its verdict.
pub open spec fn digest_item(p: PairRecordView) -> (KeyView, ParsedVerdict) {
    (view_key(p), p.verdict)
}

/// The digest items of a sequence of pairs.
pub open spec fn digest_items(ps: Seq<PairRecordView>) -> Seq<(KeyView, ParsedVerdict)> {
    ps.map_values(|p: PairRecordView| digest_item(p))
}

proof fn lemma_insert_same_items(
    s1: Seq<PairRecordView>,
    s2: Seq<PairRecordView>,
    x1: PairRecordView,
    x2: PairRecordView,
)
    requires
        digest_items(s1) == digest_items(s2),
        digest_item(x1) == digest_item(x2),
    ensures
        digest_items(insert_in_order(s1, x1, by_pair_key())) == digest_items(
            insert_in_order(s2, x2, by_pair_key()),
        ),
    decreases s1.len(),
{
    assert(s1.len() == digest_items(s1).len());
    assert(s2.len() == digest_items(s2).len());
    let f = by_pair_key();
    if s1.len() == 0 {
        assert(digest_items(seq![x1]) =~= digest_items(seq![x2]));
    } else {
        assert(digest_items(s1)[s1.len() - 1] == digest_items(s2)[s2.len() - 1]);
        assert(digest_item(s1.last()) == digest_item(s2.last()));
        assert(digest_items(s1.drop_last()) =~= digest_items(s1).drop_last());
        assert(digest_items(s2.drop_last()) =~= digest_items(s2).drop_last());
        if f(s1.last(), x1) {
            lemma_insert_same_items(s1.drop_last(), s2.drop_last(), x1, x2);
            let r1 = insert_in_order(s1.drop_last(), x1, f);
            let r2 = insert_in_order(s2.drop_last(), x2, f);
            assert(digest_items(r1.push(s1.last())) =~= digest_items(r1).push(digest_item(s1.last())));
            assert(digest_items(r2.push(s2.last())) =~= digest_items(r2).push(digest_item(s2.last())));
        } else {
            assert(digest_items(s1.push(x1)) =~= digest_items(s1).push(digest_item(x1)));
            assert(digest_items(s2.push(x2)) =~= digest_items(s2).push(digest_item(x2)));
        }
    }
}

proof fn lemma_sort_same_items(s1: Seq<PairRecordView>, s2: Seq<PairRecordView>)
    requires
        digest_items(s1) == digest_items(s2),
    ensures
        digest_items(insertion_sort(s1, by_pair_key())) == digest_items(
            insertion_sort(s2, by_pair_key()),
        ),
    decreases s1.len(),
{
    assert(s1.len() == digest_items(s1).len());
    assert(s2.len() == digest_items(s2).len());
    if s1.len() > 0 {
        assert(digest_items(s1.drop_last()) =~= digest_items(s1).drop_last());
        assert(digest_items(s2.drop_last()) =~= digest_items(s2).drop_last());
        assert(digest_items(s1)[s1.len() - 1] == digest_items(s2)[s2.len() - 1]);
        lemma_sort_same_items(s1.drop_last(), s2.drop_last());
        lemma_insert_same_items(
            insertion_sort(s1.drop_last(), by_pair_key()),
            insertion_sort(s2.drop_last(), by_pair_key()),
            s1.last(),
            s2.last(),
        );
    }
}

proof fn lemma_pairs_json_same_items(s1: Seq<PairRecordView>, s2: Seq<PairRecordView>)
    requires
        digest_items(s1) == digest_items(s2),
    ensures
        pairs_json(s1) == pairs_json(s2),
    decreases s1.len(),
{
    assert(s1.len() == digest_items(s1).len());
    assert(s2.len() == digest_items(s2).len());
    if s1.len() > 0 {
        assert(digest_items(s1.drop_last()) =~= digest_items(s1).drop_last());
        assert(digest_items(s2.drop_last()) =~= digest_items(s2).drop_last());
        assert(digest_items(s1)[s1.len() - 1] == digest_items(s2)[s2.len() - 1]);
        lemma_pairs_json_same_items(s1.drop_last(), s2.drop_last());
    }
}

/// Only the key and verdict of each pair enter the digest: pairs that differ
/// only in their raw verdict fields digest alike.
pub proof fn law_digest_ignores_raw_verdicts(
    b: Seq<char>,
    v1: Seq<PairRecordView>,
    v2: Seq<PairRecordView>,
)
    requires
        digest_items(v1) == digest_items(v2),
    ensures
        content_digest_of(b, v1) == content_digest_of(b, v2),
{
    lemma_sort_same_items(v1, v2);
    lemma_pairs_json_same_items(
        insertion_sort(v1, by_pair_key()),
        insertion_sort(v2, by_pair_key()),
    );
}

/// `k1` comes no later than `k2` in lexicographic key order: by measure, then
/// backend_a, then backend_b, each compared as `str` compares.
pub open spec fn key_lex_le(k1: KeyView, k2: KeyView) -> bool {
    ||| text_order(k1.0, k2.0) < 0
    ||| (k1.0 == k2.0 && text_order(k1.1, k2.1) < 0)
    ||| (k1.0 == k2.0 && k1.1 == k2.1 && text_order(k1.2, k2.2) <= 0)
}

/// Pairs are compared by key lexicographically: measure first, then
/// backend_a, then backend_b.  A key orders no later than another exactly
/// when it is no later in that lexicographic order, and equal keys only tie.
pub proof fn law_key_order_is_lexicographic(k1: KeyView, k2: KeyView)
    ensures
        key_order(k1, k2) <= 0 <==> key_lex_le(k1, k2),
        key_order(k1, k2) == 0 <==> k1 == k2,
{
    law_text_order_is_total(k1.0, k2.0, k2.0);
    law_text_order_is_total(k1.1, k2.1, k2.1);
    law_text_order_is_total(k1.2, k2.2, k2.2);
}

/// The digest hashes the pairs in lexicographic key order: for pairs with
/// distinct keys, the content digest is the hex SHA-256 of the payload over
/// any rearrangement of them that is sorted by (measure, backend_a,
/// backend_b).
pub proof fn law_digest_hashes_pairs_in_key_order(
    b: Seq<char>,
    ps: Seq<PairRecordView>,
    s: Seq<PairRecordView>,
)
    requires
        distinct_keys(ps),
        s.to_multiset() == ps.to_multiset(),
        forall|i: int, j: int|
            0 <= i < j < s.len() ==> key_lex_le(view_key(#[trigger] s[i]), view_key(#[trigger] s[j])),
    ensures
        content_digest_of(b, ps) == hex_lower(sha256(encode_utf8(digest_payload(b, s)))),
{
    lemma_by_pair_key_strict();
    let f = by_pair_key();
    law_insertion_sort_sorts(ps, f);
    let s1 = insertion_sort(ps, f);
    lemma_distinct_keys_kept(ps, s1);
    lemma_distinct_keys_kept(ps, s);
    assert(sorted_by(s, f)) by {
        assert forall|i: int, j: int| 0 <= i < j < s.len() implies !f(s[i], s[j]) by {
            law_key_order_is_lexicographic(view_key(s[i]), view_key(s[j]));
        }
    }
    lemma_sorted_distinct_unique(s1, s);
}

} // verus!
