//! Removing dangerous content from PDF values: forbidden keys and object types, suspicious
//! text, and what exceeds the size limits.

use crate::security::hardening::{chars_within, cut_is_safe, text_within};
use crate::plugins::texts;
use crate::security::validator::{has_text, SecurityLimits};
use crate::text::str_eq;
use crate::types::{ObjectId, PdfValue};
use vstd::prelude::*;
use vstd::utf8::encode_utf8;

verus! {

/// What replacing every match of the regular expression `p` in `t` with `rep` gives, as the
/// regex crate does it; `None` when `p` is not an expression it accepts.
pub uninterp spec fn regex_replaced(p: Seq<char>, t: Seq<char>, rep: Seq<char>) -> Option<
    Seq<char>,
>;

/// regex's `Regex::new(p)`, then `replace_all(t, rep)` on the expression it builds. The text
/// depends on the pattern, the text and the replacement alone and is named
/// `regex_replaced`; `None` when the pattern is refused.
#[verifier::external_body]
pub(crate) fn regex_replace_all(p: &str, t: &str, rep: &str) -> (r: Option<String>)
    ensures
        match r {
            Some(s) => regex_replaced(p@, t@, rep@) == Some(s@),
            None => regex_replaced(p@, t@, rep@) is None,
        },
{
    match regex::Regex::new(p) {
        Ok(re) => Some(re.replace_all(t, rep).to_string()),
        Err(_) => None,
    }
}

/// A PDF value as plain values.
pub enum ValueView {
    Null,
    Boolean(bool),
    Integer(i64),
    Real,
    String(Seq<char>),
    Name(Seq<char>),
    Array(Seq<ValueView>),
    Dictionary(Seq<(Seq<char>, ValueView)>),
    Stream(Seq<(Seq<char>, ValueView)>, nat),
    Reference(ObjectId),
}

/// A value as plain values.
pub open spec fn value_view(v: PdfValue) -> ValueView
    decreases v, 0nat,
{
    match v {
        PdfValue::Null => ValueView::Null,
        PdfValue::Boolean(b) => ValueView::Boolean(b),
        PdfValue::Integer(i) => ValueView::Integer(i),
        PdfValue::Real => ValueView::Real,
        PdfValue::String(s) => ValueView::String(s@),
        PdfValue::Name(n) => ValueView::Name(n@),
        PdfValue::Array(items) => ValueView::Array(items_view(items@, items@.len() as int)),
        PdfValue::Dictionary(es) => ValueView::Dictionary(entries_view(es@, es@.len() as int)),
        PdfValue::Stream(es, n) => ValueView::Stream(entries_view(es@, es@.len() as int), n as nat),
        PdfValue::Reference(id) => ValueView::Reference(id),
    }
}

/// The first `n` items as plain values.
pub open spec fn items_view(items: Seq<PdfValue>, n: int) -> Seq<ValueView>
    decreases items, n,
{
    if n <= 0 || n > items.len() {
        seq![]
    } else {
        items_view(items, n - 1).push(value_view(items[n - 1]))
    }
}

/// The first `n` entries as plain values.
pub open spec fn entries_view(es: Seq<(String, PdfValue)>, n: int) -> Seq<(Seq<char>, ValueView)>
    decreases es, n,
{
    if n <= 0 || n > es.len() {
        seq![]
    } else {
        entries_view(es, n - 1).push((es[n - 1].0@, value_view(es[n - 1].1)))
    }
}

/// `t` with every match of each pattern, from the `i`-th on and in order, replaced by
/// `[SANITIZED]`; a pattern that is refused changes nothing.
pub open spec fn replace_patterns(pats: Seq<String>, t: Seq<char>, i: int) -> Seq<char>
    decreases pats.len() - i,
{
    if i < 0 || i >= pats.len() {
        t
    } else {
        let t2 = match regex_replaced(pats[i]@, t, "[SANITIZED]"@) {
            Some(u) => u,
            None => t,
        };
        replace_patterns(pats, t2, i + 1)
    }
}

/// The text of a string after its forbidden patterns are replaced.
pub open spec fn replaced_text(lim: SecurityLimits, s: Seq<char>) -> Seq<char> {
    replace_patterns(lim.forbidden_patterns@, s, 0)
}

/// A sanitized string: its forbidden patterns replaced, then, when its UTF-8 form is longer
/// than allowed, cut to that many bytes and marked `[TRUNCATED]`.
pub open spec fn sanitized_text(lim: SecurityLimits, s: Seq<char>) -> Seq<char> {
    let c = replaced_text(lim, s);
    if encode_utf8(c).len() > lim.max_string_length {
        chars_within(c, lim.max_string_length as int) + "[TRUNCATED]"@
    } else {
        c
    }
}

/// An entry during dictionary sanitizing: its key, its value, and what sanitizing that
/// value gives (whether it was clean, the sanitized value, and whether every cut it made
/// fell between characters).
pub type Quad = (Seq<char>, ValueView, bool, ValueView, bool);

/// The position of the first entry with key `k`, or -1.
pub open spec fn first_pos(qs: Seq<Quad>, k: Seq<char>) -> int
    decreases qs.len(),
{
    if qs.len() == 0 {
        -1
    } else if qs[0].0 == k {
        0
    } else {
        let r = first_pos(qs.drop_first(), k);
        if r < 0 {
            -1
        } else {
            r + 1
        }
    }
}

/// The entries with the one at `p` replaced by the last, and the last dropped.
pub open spec fn swap_remove_at<T>(s: Seq<T>, p: int) -> Seq<T> {
    s.update(p, s.last()).drop_last()
}

/// The entries with the first one for `k` removed by swapping the last into its place.
pub open spec fn remove_key(qs: Seq<Quad>, k: Seq<char>) -> Seq<Quad> {
    let p = first_pos(qs, k);
    if p >= 0 {
        swap_remove_at(qs, p)
    } else {
        qs
    }
}

/// The keys of `qs`, in order.
pub open spec fn quad_keys(qs: Seq<Quad>) -> Seq<Seq<char>> {
    qs.map_values(|q: Quad| q.0)
}

/// The keys of the first `n` entries that are forbidden, in order.
pub open spec fn forbidden_keys_in(lim: SecurityLimits, qs: Seq<Quad>, n: int) -> Seq<Seq<char>>
    decreases n,
{
    if n <= 0 || n > qs.len() {
        seq![]
    } else {
        let f = forbidden_keys_in(lim, qs, n - 1);
        if has_text(lim.forbidden_keys@, qs[n - 1].0) {
            f.push(qs[n - 1].0)
        } else {
            f
        }
    }
}

/// The entries after removing each of `ks` in turn.
pub open spec fn remove_all(qs: Seq<Quad>, ks: Seq<Seq<char>>) -> Seq<Quad>
    decreases ks.len(),
{
    if ks.len() == 0 {
        qs
    } else {
        remove_all(remove_key(qs, ks[0]), ks.drop_first())
    }
}

/// The `Type` entry names a forbidden object type.
pub open spec fn type_forbidden(lim: SecurityLimits, qs: Seq<Quad>) -> bool {
    let p = first_pos(qs, "Type"@);
    p >= 0 && (qs[p].1 matches ValueView::Name(n) && has_text(lim.forbidden_types@, n))
}

/// The entries after taking each of `ks` in turn out of its place and putting it back at
/// the end.
pub open spec fn requeue(qs: Seq<Quad>, ks: Seq<Seq<char>>) -> Seq<Quad>
    decreases ks.len(),
{
    if ks.len() == 0 {
        qs
    } else {
        let p = first_pos(qs, ks[0]);
        let next = if p >= 0 {
            swap_remove_at(qs, p).push(qs[p])
        } else {
            qs
        };
        requeue(next, ks.drop_first())
    }
}

/// Some entry's value was changed by sanitizing it.
pub open spec fn any_changed(qs: Seq<Quad>) -> bool {
    exists|m: int| 0 <= m < qs.len() && !(#[trigger] qs[m]).2
}

/// Every cut made sanitizing the entries' values fell between characters.
pub open spec fn all_cuts_safe(qs: Seq<Quad>) -> bool {
    forall|m: int| 0 <= m < qs.len() ==> (#[trigger] qs[m]).4
}

/// The entries with their sanitized values.
pub open spec fn sanitized_entries(qs: Seq<Quad>) -> Seq<(Seq<char>, ValueView)> {
    qs.map_values(|q: Quad| (q.0, q.3))
}

/// A sanitized dictionary, given its entries with what sanitizing each value gives:
/// forbidden keys removed (each by swapping the last entry into its place), then a `Type`
/// that names a forbidden type, then each remaining entry taken out and put back at the end
/// with its value sanitized. Clean when nothing was removed or changed.
pub open spec fn dict_result(lim: SecurityLimits, qs: Seq<Quad>) -> (
    bool,
    Seq<(Seq<char>, ValueView)>,
    bool,
) {
    let fk = forbidden_keys_in(lim, qs, qs.len() as int);
    let q1 = remove_all(qs, fk);
    let type_removed = type_forbidden(lim, q1);
    let q2 = if type_removed {
        remove_key(q1, "Type"@)
    } else {
        q1
    };
    let q3 = requeue(q2, quad_keys(q2));
    (fk.len() == 0 && !type_removed && !any_changed(q3), sanitized_entries(q3), all_cuts_safe(q3))
}

/// What sanitizing a value gives: whether it was clean, the sanitized value, and whether
/// every string it cut to the size limit was cut between two characters. A string as
/// [`sanitized_text`] says; an array cut to the size limit, then each item sanitized; a
/// dictionary as [`dict_result`] says; a stream's data cut to the size limit and its
/// dictionary sanitized; any other value as it is.
pub open spec fn sanitize_view(lim: SecurityLimits, v: ValueView) -> (bool, ValueView, bool)
    decreases v, 0nat,
{
    match v {
        ValueView::String(s) => {
            let t = sanitized_text(lim, s);
            (t == s, ValueView::String(t), cut_is_safe(replaced_text(lim, s), lim.max_string_length as int))
        },
        ValueView::Array(items) => {
            let n = if items.len() > lim.max_array_size {
                lim.max_array_size as int
            } else {
                items.len() as int
            };
            let r = sanitize_items(lim, items, n);
            (items.len() <= lim.max_array_size && r.0, ValueView::Array(r.1), r.2)
        },
        ValueView::Dictionary(es) => {
            let r = dict_result(lim, quads(lim, es, es.len() as int));
            (r.0, ValueView::Dictionary(r.1), r.2)
        },
        ValueView::Stream(es, n) => {
            let r = dict_result(lim, quads(lim, es, es.len() as int));
            (
                n <= lim.max_stream_size && r.0,
                ValueView::Stream(
                    r.1,
                    if n > lim.max_stream_size {
                        lim.max_stream_size as nat
                    } else {
                        n
                    },
                ),
                r.2,
            )
        },
        _ => (true, v, true),
    }
}

/// The first `n` items sanitized, whether all were clean, and whether all their cuts fell
/// between characters.
pub open spec fn sanitize_items(lim: SecurityLimits, items: Seq<ValueView>, n: int) -> (
    bool,
    Seq<ValueView>,
    bool,
)
    decreases items, n,
{
    if n <= 0 || n > items.len() {
        (true, seq![], true)
    } else {
        let r = sanitize_items(lim, items, n - 1);
        let x = sanitize_view(lim, items[n - 1]);
        (r.0 && x.0, r.1.push(x.1), r.2 && x.2)
    }
}

/// The first `n` entries with what sanitizing each value gives.
pub open spec fn quads(lim: SecurityLimits, es: Seq<(Seq<char>, ValueView)>, n: int) -> Seq<Quad>
    decreases es, n,
{
    if n <= 0 || n > es.len() {
        seq![]
    } else {
        let x = sanitize_view(lim, es[n - 1].1);
        quads(lim, es, n - 1).push((es[n - 1].0, es[n - 1].1, x.0, x.1, x.2))
    }
}


/// No key occurs twice.
pub open spec fn unique_keys(ks: Seq<Seq<char>>) -> bool {
    forall|a: int, b: int| 0 <= a < b < ks.len() ==> ks[a] != ks[b]
}

/// The keys of entries, in order.
pub open spec fn entry_keys(es: Seq<(Seq<char>, ValueView)>) -> Seq<Seq<char>> {
    es.map_values(|e: (Seq<char>, ValueView)| e.0)
}

/// No dictionary in `v`, however deep, has a key twice (as every PDF dictionary holds).
pub open spec fn keys_unique_deep(v: ValueView) -> bool
    decreases v, 0nat,
{
    match v {
        ValueView::Array(items) => items_unique_deep(items, items.len() as int),
        ValueView::Dictionary(es) => unique_keys(entry_keys(es)) && entries_unique_deep(
            es,
            es.len() as int,
        ),
        ValueView::Stream(es, _) => unique_keys(entry_keys(es)) && entries_unique_deep(
            es,
            es.len() as int,
        ),
        _ => true,
    }
}

/// No dictionary in the first `n` items has a key twice.
pub open spec fn items_unique_deep(items: Seq<ValueView>, n: int) -> bool
    decreases items, n,
{
    n <= 0 || n > items.len() || (items_unique_deep(items, n - 1) && keys_unique_deep(items[n - 1]))
}

/// No dictionary in the values of the first `n` entries has a key twice.
pub open spec fn entries_unique_deep(es: Seq<(Seq<char>, ValueView)>, n: int) -> bool
    decreases es, n,
{
    n <= 0 || n > es.len() || (entries_unique_deep(es, n - 1) && keys_unique_deep(es[n - 1].1))
}

proof fn lemma_items_unique_deep(items: Seq<ValueView>, n: int, i: int)
    requires
        0 <= i < n <= items.len(),
        items_unique_deep(items, n),
    ensures
        keys_unique_deep(items[i]),
    decreases n,
{
    if i < n - 1 {
        lemma_items_unique_deep(items, n - 1, i);
    }
}

proof fn lemma_entries_unique_deep(es: Seq<(Seq<char>, ValueView)>, n: int, i: int)
    requires
        0 <= i < n <= es.len(),
        entries_unique_deep(es, n),
    ensures
        keys_unique_deep(es[i].1),
    decreases n,
{
    if i < n - 1 {
        lemma_entries_unique_deep(es, n - 1, i);
    }
}

proof fn lemma_items_view(items: Seq<PdfValue>, n: int)
    requires
        0 <= n <= items.len(),
    ensures
        items_view(items, n).len() == n,
        forall|i: int| 0 <= i < n ==> #[trigger] items_view(items, n)[i] == value_view(items[i]),
    decreases n,
{
    if n > 0 {
        lemma_items_view(items, n - 1);
    }
}

proof fn lemma_entries_view(es: Seq<(String, PdfValue)>, n: int)
    requires
        0 <= n <= es.len(),
    ensures
        entries_view(es, n).len() == n,
        forall|i: int|
            0 <= i < n ==> #[trigger] entries_view(es, n)[i] == (es[i].0@, value_view(es[i].1)),
    decreases n,
{
    if n > 0 {
        lemma_entries_view(es, n - 1);
    }
}

proof fn lemma_sanitize_items(lim: SecurityLimits, items: Seq<ValueView>, n: int)
    requires
        0 <= n <= items.len(),
    ensures
        sanitize_items(lim, items, n).1.len() == n,
        forall|i: int|
            0 <= i < n ==> #[trigger] sanitize_items(lim, items, n).1[i] == sanitize_view(
                lim,
                items[i],
            ).1,
        sanitize_items(lim, items, n).0 == forall|i: int|
            0 <= i < n ==> #[trigger] sanitize_view(lim, items[i]).0,
        sanitize_items(lim, items, n).2 == forall|i: int|
            0 <= i < n ==> #[trigger] sanitize_view(lim, items[i]).2,
    decreases n,
{
    if n > 0 {
        lemma_sanitize_items(lim, items, n - 1);
        let r = sanitize_items(lim, items, n);
        assert(r.0 == forall|i: int| 0 <= i < n ==> #[trigger] sanitize_view(lim, items[i]).0) by {
            if r.0 {
                assert forall|i: int| 0 <= i < n implies #[trigger] sanitize_view(lim, items[i]).0 by {
                    if i < n - 1 {
                        assert(sanitize_items(lim, items, n - 1).0);
                    }
                }
            }
            if forall|i: int| 0 <= i < n ==> #[trigger] sanitize_view(lim, items[i]).0 {
                assert(sanitize_view(lim, items[n - 1]).0);
                assert forall|i: int| 0 <= i < n - 1 implies #[trigger] sanitize_view(lim, items[i]).0 by {
                    assert(0 <= i < n);
                }
                assert(sanitize_items(lim, items, n - 1).0);
            }
        }
        assert(r.2 == forall|i: int| 0 <= i < n ==> #[trigger] sanitize_view(lim, items[i]).2) by {
            if r.2 {
                assert forall|i: int| 0 <= i < n implies #[trigger] sanitize_view(lim, items[i]).2 by {
                    if i < n - 1 {
                        assert(sanitize_items(lim, items, n - 1).2);
                    }
                }
            }
            if forall|i: int| 0 <= i < n ==> #[trigger] sanitize_view(lim, items[i]).2 {
                assert(sanitize_view(lim, items[n - 1]).2);
                assert forall|i: int| 0 <= i < n - 1 implies #[trigger] sanitize_view(lim, items[i]).2 by {
                    assert(0 <= i < n);
                }
                assert(sanitize_items(lim, items, n - 1).2);
            }
        }
    }
}

/// What sanitizing `q`'s value gives is what `q` records.
pub open spec fn quad_ok(lim: SecurityLimits, q: Quad) -> bool {
    let x = sanitize_view(lim, q.1);
    q.2 == x.0 && q.3 == x.1 && q.4 == x.2
}

proof fn lemma_quads(lim: SecurityLimits, es: Seq<(Seq<char>, ValueView)>, n: int)
    requires
        0 <= n <= es.len(),
    ensures
        quads(lim, es, n).len() == n,
        forall|i: int|
            0 <= i < n ==> (#[trigger] quads(lim, es, n)[i]).0 == es[i].0 && quads(lim, es, n)[i].1
                == es[i].1 && quad_ok(lim, quads(lim, es, n)[i]),
    decreases n,
{
    if n > 0 {
        lemma_quads(lim, es, n - 1);
    }
}

proof fn lemma_forbidden_keys_in(lim: SecurityLimits, qs: Seq<Quad>, n: int)
    requires
        0 <= n <= qs.len(),
    ensures
        forbidden_keys_in(lim, qs, n).len() > 0 <==> exists|i: int|
            0 <= i < n && #[trigger] has_text(lim.forbidden_keys@, qs[i].0),
    decreases n,
{
    if n > 0 {
        lemma_forbidden_keys_in(lim, qs, n - 1);
        if exists|i: int| 0 <= i < n && #[trigger] has_text(lim.forbidden_keys@, qs[i].0) {
            let i = choose|i: int| 0 <= i < n && #[trigger] has_text(lim.forbidden_keys@, qs[i].0);
            if i < n - 1 {
                assert(forbidden_keys_in(lim, qs, n - 1).len() > 0);
            }
        }
    }
}

/// The first entry with key `k` is at `first_pos`.
proof fn lemma_first_pos(qs: Seq<Quad>, k: Seq<char>)
    ensures
        -1 <= first_pos(qs, k) < qs.len(),
        first_pos(qs, k) >= 0 ==> qs[first_pos(qs, k)].0 == k,
        forall|j: int| 0 <= j < qs.len() && (first_pos(qs, k) < 0 || j < first_pos(qs, k)) ==> #[trigger] qs[j].0 != k,
    decreases qs.len(),
{
    if qs.len() > 0 {
        lemma_first_pos(qs.drop_first(), k);
        assert forall|j: int| 0 <= j < qs.len() && (first_pos(qs, k) < 0 || j < first_pos(qs, k)) implies #[trigger] qs[j].0 != k by {
            if j > 0 {
                assert(qs.drop_first()[j - 1] == qs[j]);
            }
        }
        if first_pos(qs, k) > 0 {
            assert(qs.drop_first()[first_pos(qs, k) - 1] == qs[first_pos(qs, k)]);
        }
    }
}

/// A string with its forbidden patterns replaced, then cut to the size limit; with whether
/// the cut (if any) fell between characters.
fn sanitize_text(lim: &SecurityLimits, s: &String) -> (r: (String, bool))
    ensures
        r.0@ == sanitized_text(*lim, s@),
        r.1 == cut_is_safe(replaced_text(*lim, s@), lim.max_string_length as int),
{
    let pats = &lim.forbidden_patterns;
    let mut cur: String = s.clone();
    let mut i: usize = 0;
    while i < pats.len()
        invariant
            i <= pats@.len(),
            *pats == lim.forbidden_patterns,
            replace_patterns(pats@, s@, 0) == replace_patterns(pats@, cur@, i as int),
        decreases pats@.len() - i,
    {
        match regex_replace_all(pats[i].as_str(), cur.as_str(), "[SANITIZED]") {
            Some(u) => {
                cur = u;
            },
            None => {},
        }
        i += 1;
    }
    let text = cur.as_str();
    let n = text.as_bytes().len();
    let max = lim.max_string_length;
    let ok = n <= max || text.is_char_boundary(max);
    if n > max {
        let mut t = text_within(text, max);
        t.append("[TRUNCATED]");
        (t, ok)
    } else {
        (cur, ok)
    }
}

/// The entries `cur` stand for `qs` position by position, and each is one of `es0`.
pub open spec fn corresponds(
    cur: Seq<(String, PdfValue)>,
    qs: Seq<Quad>,
    es0: Seq<(String, PdfValue)>,
) -> bool {
    &&& cur.len() == qs.len()
    &&& forall|m: int|
        0 <= m < cur.len() ==> (#[trigger] cur[m]).0@ == qs[m].0 && value_view(cur[m].1) == qs[m].1
            && exists|i: int| 0 <= i < es0.len() && cur[m] == es0[i]
}

/// Every entry records what sanitizing its value gives, no value has a dictionary with a key
/// twice, and no key occurs twice.
pub open spec fn quads_good(lim: SecurityLimits, qs: Seq<Quad>) -> bool {
    &&& forall|m: int| 0 <= m < qs.len() ==> quad_ok(lim, #[trigger] qs[m]) && keys_unique_deep(qs[m].1)
    &&& unique_keys(quad_keys(qs))
}

proof fn lemma_swap_remove_good(lim: SecurityLimits, qs: Seq<Quad>, p: int)
    requires
        quads_good(lim, qs),
        0 <= p < qs.len(),
    ensures
        quads_good(lim, swap_remove_at(qs, p)),
        forall|m: int| 0 <= m < qs.len() - 1 ==> #[trigger] swap_remove_at(qs, p)[m] == if m == p {
            qs[qs.len() - 1]
        } else {
            qs[m]
        },
{
    let r = swap_remove_at(qs, p);
    assert forall|a: int, b: int| 0 <= a < b < quad_keys(r).len() implies quad_keys(r)[a] != quad_keys(r)[b] by {
        let ia = if a == p { qs.len() - 1 } else { a };
        let ib = if b == p { qs.len() - 1 } else { b };
        assert(quad_keys(r)[a] == quad_keys(qs)[ia]);
        assert(quad_keys(r)[b] == quad_keys(qs)[ib]);
        if ia < ib {
            assert(quad_keys(qs)[ia] != quad_keys(qs)[ib]);
        } else {
            assert(quad_keys(qs)[ib] != quad_keys(qs)[ia]);
        }
    }
    assert forall|m: int| 0 <= m < r.len() implies quad_ok(lim, #[trigger] r[m]) && keys_unique_deep(r[m].1) by {
        if m == p {
            assert(r[m] == qs[qs.len() - 1]);
        } else {
            assert(r[m] == qs[m]);
        }
    }
}

proof fn lemma_swap_remove_corresponds(
    cur: Seq<(String, PdfValue)>,
    qs: Seq<Quad>,
    es0: Seq<(String, PdfValue)>,
    p: int,
)
    requires
        corresponds(cur, qs, es0),
        0 <= p < qs.len(),
    ensures
        corresponds(swap_remove_at(cur, p), swap_remove_at(qs, p), es0),
{
    let c = swap_remove_at(cur, p);
    let q = swap_remove_at(qs, p);
    assert forall|m: int| 0 <= m < c.len() implies (#[trigger] c[m]).0@ == q[m].0 && value_view(c[m].1)
        == q[m].1 && exists|i: int| 0 <= i < es0.len() && c[m] == es0[i] by {
        let src = if m == p { cur.len() - 1 } else { m };
        assert(c[m] == cur[src]);
        assert(q[m] == qs[src]);
        assert(0 <= src < cur.len());
        assert(cur[src].0@ == qs[src].0);
    }
}

/// The position of the first entry with key `k`.
fn find_key(cur: &Vec<(String, PdfValue)>, k: &str) -> (r: Option<usize>)
    ensures
        match r {
            Some(p) => p < cur@.len() && cur@[p as int].0@ == k@ && forall|j: int|
                0 <= j < p ==> #[trigger] cur@[j].0@ != k@,
            None => forall|j: int| 0 <= j < cur@.len() ==> #[trigger] cur@[j].0@ != k@,
        },
{
    let mut i: usize = 0;
    while i < cur.len()
        invariant
            i <= cur@.len(),
            forall|j: int| 0 <= j < i ==> #[trigger] cur@[j].0@ != k@,
        decreases cur@.len() - i,
    {
        if str_eq(cur[i].0.as_str(), k) {
            return Some(i);
        }
        i += 1;
    }
    None
}

/// Where the keys of `cur` and `qs` agree, the first entry with key `k` is at the same
/// place in both.
proof fn lemma_find_matches(
    cur: Seq<(String, PdfValue)>,
    qs: Seq<Quad>,
    k: Seq<char>,
    r: Option<usize>,
)
    requires
        cur.len() == qs.len(),
        forall|m: int| 0 <= m < cur.len() ==> (#[trigger] cur[m]).0@ == qs[m].0,
        match r {
            Some(p) => p < cur.len() && cur[p as int].0@ == k && forall|j: int|
                0 <= j < p ==> #[trigger] cur[j].0@ != k,
            None => forall|j: int| 0 <= j < cur.len() ==> #[trigger] cur[j].0@ != k,
        },
    ensures
        match r {
            Some(p) => first_pos(qs, k) == p,
            None => first_pos(qs, k) < 0,
        },
{
    lemma_first_pos(qs, k);
    let f = first_pos(qs, k);
    match r {
        Some(p) => {
            assert(cur[p as int].0@ == qs[p as int].0);
            if f < 0 || p < f {
                assert(qs[p as int].0 != k);
            }
            if f >= 0 && f < p {
                assert(cur[f].0@ == qs[f].0);
                assert(cur[f].0@ != k);
            }
        },
        None => {
            if f >= 0 {
                assert(cur[f].0@ == qs[f].0);
            }
        },
    }
}

/// `s` is one of `v`.
fn is_listed(v: &Vec<String>, s: &str) -> (r: bool)
    ensures
        r == has_text(v@, s@),
{
    let mut i: usize = 0;
    while i < v.len()
        invariant
            i <= v@.len(),
            forall|j: int| 0 <= j < i ==> v@[j]@ != s@,
        decreases v@.len() - i,
    {
        if str_eq(v[i].as_str(), s) {
            return true;
        }
        i += 1;
    }
    false
}

/// Removes the forbidden keys, then a `Type` that names a forbidden type; says whether
/// each removed anything, and which entries remain.
fn remove_forbidden(
    lim: &SecurityLimits,
    cur: &mut Vec<(String, PdfValue)>,
    Ghost(qs): Ghost<Seq<Quad>>,
    Ghost(es0): Ghost<Seq<(String, PdfValue)>>,
) -> (r: (bool, bool, Ghost<Seq<Quad>>))
    requires
        corresponds(old(cur)@, qs, es0),
        quads_good(*lim, qs),
    ensures
        ({
            let fk = forbidden_keys_in(*lim, qs, qs.len() as int);
            let q1 = remove_all(qs, fk);
            &&& r.0 == (fk.len() > 0)
            &&& r.1 == type_forbidden(*lim, q1)
            &&& r.2@ == if r.1 {
                remove_key(q1, "Type"@)
            } else {
                q1
            }
        }),
        corresponds(final(cur)@, r.2@, es0),
        quads_good(*lim, r.2@),
{
    let n = cur.len();
    let mut keys: Vec<String> = Vec::new();
    let mut i: usize = 0;
    while i < n
        invariant
            n == cur@.len(),
            i <= n,
            corresponds(cur@, qs, es0),
            texts(keys@) == forbidden_keys_in(*lim, qs, i as int),
        decreases n - i,
    {
        assert(cur@[i as int].0@ == qs[i as int].0);
        if is_listed(&lim.forbidden_keys, cur[i].0.as_str()) {
            keys.push(cur[i].0.clone());
        }
        assert(texts(keys@) =~= forbidden_keys_in(*lim, qs, i + 1));
        i += 1;
    }
    let ghost fk = forbidden_keys_in(*lim, qs, qs.len() as int);
    let ghost mut q: Seq<Quad> = qs;
    let mut j: usize = 0;
    assert(fk.subrange(0, fk.len() as int) =~= fk);
    while j < keys.len()
        invariant
            j <= keys@.len(),
            texts(keys@) == fk,
            remove_all(qs, fk) == remove_all(q, fk.subrange(j as int, fk.len() as int)),
            corresponds(cur@, q, es0),
            quads_good(*lim, q),
        decreases keys@.len() - j,
    {
        let found = find_key(cur, keys[j].as_str());
        proof {
            lemma_find_matches(cur@, q, fk[j as int], found);
            assert(fk.subrange(j as int, fk.len() as int)[0] == fk[j as int]);
            assert(fk.subrange(j as int, fk.len() as int).drop_first() =~= fk.subrange(j + 1, fk.len() as int));
        }
        if let Some(p) = found {
            let ghost before = cur@;
            let _ = cur.swap_remove(p);
            proof {
                lemma_swap_remove_corresponds(before, q, es0, p as int);
                lemma_swap_remove_good(*lim, q, p as int);
                assert(cur@ == swap_remove_at(before, p as int));
                q = swap_remove_at(q, p as int);
            }
        }
        j += 1;
    }
    proof {
        assert(fk.subrange(j as int, fk.len() as int).len() == 0);
    }
    let keys_removed = keys.len() > 0;
    assert(keys_removed == (fk.len() > 0));
    let ghost q1 = q;
    let mut type_removed = false;
    let found = find_key(cur, "Type");
    proof {
        lemma_find_matches(cur@, q, "Type"@, found);
    }
    if let Some(p) = found {
        let forbidden = match &cur[p].1 {
            PdfValue::Name(n) => is_listed(&lim.forbidden_types, n.as_str()),
            _ => false,
        };
        proof {
            assert(value_view(cur@[p as int].1) == q[p as int].1);
        }
        if forbidden {
            let ghost before = cur@;
            let _ = cur.swap_remove(p);
            proof {
                lemma_swap_remove_corresponds(before, q, es0, p as int);
                lemma_swap_remove_good(*lim, q, p as int);
                assert(cur@ == swap_remove_at(before, p as int));
                q = swap_remove_at(q, p as int);
            }
            type_removed = true;
        }
    }
    (keys_removed, type_removed, Ghost(q))
}

/// The keys of `cur` and `q` agree position by position; processed entries (those whose key
/// is among `done`) hold their sanitized value, the others their original value, which is
/// one of `es0`.
pub open spec fn requeue_state(
    cur: Seq<(String, PdfValue)>,
    q: Seq<Quad>,
    done: Seq<Seq<char>>,
    es0: Seq<(String, PdfValue)>,
) -> bool {
    &&& cur.len() == q.len()
    &&& forall|m: int|
        0 <= m < cur.len() ==> (#[trigger] cur[m]).0@ == q[m].0 && if done.contains(q[m].0) {
            value_view(cur[m].1) == q[m].3
        } else {
            value_view(cur[m].1) == q[m].1 && exists|i: int| 0 <= i < es0.len() && cur[m] == es0[i]
        }
}

/// Some processed entry changed.
pub open spec fn changed_among(q: Seq<Quad>, done: Seq<Seq<char>>) -> bool {
    exists|m: int| 0 <= m < q.len() && done.contains((#[trigger] q[m]).0) && !q[m].2
}

/// Every processed entry was cut between characters.
pub open spec fn safe_among(q: Seq<Quad>, done: Seq<Seq<char>>) -> bool {
    forall|m: int| 0 <= m < q.len() && done.contains((#[trigger] q[m]).0) ==> q[m].4
}

/// Taking the entry at `p` out and putting it back at the end, processed, keeps the state.
proof fn lemma_requeue_step(
    cur: Seq<(String, PdfValue)>,
    q: Seq<Quad>,
    ks: Seq<Seq<char>>,
    j: int,
    es0: Seq<(String, PdfValue)>,
    p: int,
    entry: (String, PdfValue),
)
    requires
        0 <= j < ks.len(),
        unique_keys(ks),
        requeue_state(cur, q, ks.subrange(0, j), es0),
        0 <= p < q.len(),
        q[p].0 == ks[j],
        unique_keys(quad_keys(q)),
        entry.0@ == ks[j],
        value_view(entry.1) == q[p].3,
    ensures
        requeue_state(swap_remove_at(cur, p).push(entry), swap_remove_at(q, p).push(q[p]), ks.subrange(0, j + 1), es0),
        changed_among(swap_remove_at(q, p).push(q[p]), ks.subrange(0, j + 1)) == (changed_among(q, ks.subrange(0, j)) || !q[p].2),
        safe_among(swap_remove_at(q, p).push(q[p]), ks.subrange(0, j + 1)) == (safe_among(q, ks.subrange(0, j)) && q[p].4),
{
    let d0 = ks.subrange(0, j);
    let d1 = ks.subrange(0, j + 1);
    let c2 = swap_remove_at(cur, p).push(entry);
    let q2 = swap_remove_at(q, p).push(q[p]);
    let n = q.len();
    // Membership in the processed keys changes only for the key just processed.
    assert forall|k: Seq<char>| #[trigger] d1.contains(k) == (d0.contains(k) || k == ks[j]) by {
        if d1.contains(k) {
            let i = choose|i: int| 0 <= i < d1.len() && d1[i] == k;
            if i < j {
                assert(d0[i] == k);
            }
        }
        if d0.contains(k) {
            let i = choose|i: int| 0 <= i < d0.len() && d0[i] == k;
            assert(d1[i] == k);
        }
        if k == ks[j] {
            assert(d1[j] == k);
        }
    }
    assert(!d0.contains(ks[j])) by {
        if d0.contains(ks[j]) {
            let i = choose|i: int| 0 <= i < d0.len() && d0[i] == ks[j];
            assert(ks[i] == ks[j]);
        }
    }
    // The other entries have other keys.
    assert forall|m: int| 0 <= m < n && m != p implies (#[trigger] q[m]).0 != ks[j] by {
        if m < p {
            assert(quad_keys(q)[m] != quad_keys(q)[p]);
        } else {
            assert(quad_keys(q)[p] != quad_keys(q)[m]);
        }
    }
    // Where each new position comes from.
    assert forall|m: int| 0 <= m < n implies (#[trigger] c2[m]) == (if m == n - 1 {
        entry
    } else if m == p {
        cur[n - 1]
    } else {
        cur[m]
    }) && q2[m] == (if m == n - 1 {
        q[p]
    } else if m == p {
        q[n - 1]
    } else {
        q[m]
    }) by {}
    assert(requeue_state(c2, q2, d1, es0)) by {
        assert forall|m: int| 0 <= m < c2.len() implies (#[trigger] c2[m]).0@ == q2[m].0 && if d1.contains(q2[m].0) {
            value_view(c2[m].1) == q2[m].3
        } else {
            value_view(c2[m].1) == q2[m].1 && exists|i: int| 0 <= i < es0.len() && c2[m] == es0[i]
        } by {
            if m == n - 1 {
                assert(d1.contains(ks[j]));
            } else {
                let src = if m == p { n - 1 } else { m };
                assert(c2[m] == cur[src] && q2[m] == q[src]);
                assert(src != p);
                assert(q[src].0 != ks[j]);
                assert(d1.contains(q[src].0) == d0.contains(q[src].0));
                assert(cur[src].0@ == q[src].0);
            }
        }
    }
    assert(changed_among(q2, d1) == (changed_among(q, d0) || !q[p].2)) by {
        if changed_among(q2, d1) {
            let m = choose|m: int| 0 <= m < q2.len() && d1.contains((#[trigger] q2[m]).0) && !q2[m].2;
            if m != n - 1 {
                let src = if m == p { n - 1 } else { m };
                assert(q2[m] == q[src]);
                assert(q[src].0 != ks[j]);
                assert(d0.contains(q[src].0));
            }
        }
        if changed_among(q, d0) {
            let m = choose|m: int| 0 <= m < q.len() && d0.contains((#[trigger] q[m]).0) && !q[m].2;
            assert(m != p);
            let dst = if m == n - 1 { p } else { m };
            assert(q2[dst] == q[m]);
            assert(d1.contains(q2[dst].0));
        }
        if !q[p].2 {
            assert(q2[n - 1] == q[p]);
            assert(d1.contains(q2[n - 1].0));
        }
    }
    assert(safe_among(q2, d1) == (safe_among(q, d0) && q[p].4)) by {
        if safe_among(q2, d1) {
            assert(q2[n - 1] == q[p]);
            assert(d1.contains(q2[n - 1].0));
            assert forall|m: int| 0 <= m < q.len() && d0.contains((#[trigger] q[m]).0) implies q[m].4 by {
                assert(m != p);
                let dst = if m == n - 1 { p } else { m };
                assert(q2[dst] == q[m]);
                assert(d1.contains(q2[dst].0));
            }
        }
        if safe_among(q, d0) && q[p].4 {
            assert forall|m: int| 0 <= m < q2.len() && d1.contains((#[trigger] q2[m]).0) implies q2[m].4 by {
                if m != n - 1 {
                    let src = if m == p { n - 1 } else { m };
                    assert(q2[m] == q[src]);
                    assert(q[src].0 != ks[j]);
                    assert(d0.contains(q[src].0));
                }
            }
        }
    }
}

/// Removes dangerous content from values according to security limits.
pub struct PdfSanitizer {
    limits: SecurityLimits,
}

impl PdfSanitizer {
    /// The limits it sanitizes to.
    pub closed spec fn limits(&self) -> SecurityLimits {
        self.limits
    }

    pub fn new(limits: SecurityLimits) -> (r: Self)
        ensures
            r.limits() == limits,
    {
        PdfSanitizer { limits }
    }

    /// Sanitizes `v`, as [`sanitize_view`] says; also says whether every cut fell between
    /// characters.
    fn sanitize_owned(&self, v: PdfValue) -> (r: (bool, PdfValue, bool))
        requires
            keys_unique_deep(value_view(v)),
        ensures
            (r.0, value_view(r.1), r.2) == sanitize_view(self.limits, value_view(v)),
        decreases v,
    {
        let ghost gv = v;
        match v {
            PdfValue::String(s) => {
                let (t, ok) = sanitize_text(&self.limits, &s);
                let clean = str_eq(t.as_str(), s.as_str());
                (clean, PdfValue::String(t), ok)
            },
            PdfValue::Array(items) => {
                let ghost orig = items@;
                let ghost itemsv = items_view(orig, orig.len() as int);
                proof {
                    lemma_items_view(orig, orig.len() as int);
                }
                let len = items.len();
                let keep = if len > self.limits.max_array_size {
                    self.limits.max_array_size
                } else {
                    len
                };
                let mut items = items;
                items.truncate(keep);
                let mut rev: Vec<PdfValue> = Vec::new();
                while items.len() > 0
                    invariant
                        keep <= orig.len(),
                        items@.len() <= keep,
                        items@ == orig.subrange(0, items@.len() as int),
                        rev@.len() == keep - items@.len(),
                        forall|t: int| 0 <= t < rev@.len() ==> #[trigger] rev@[t] == orig[keep - 1 - t],
                    decreases items@.len(),
                {
                    let x = items.pop().unwrap();
                    rev.push(x);
                }
                let mut out: Vec<PdfValue> = Vec::new();
                let mut clean = true;
                let mut ok = true;
                let mut k: usize = 0;
                while k < keep
                    invariant
                        keep <= orig.len(),
                        keep == (if orig.len() > self.limits.max_array_size {
                            self.limits.max_array_size as int
                        } else {
                            orig.len() as int
                        }),
                        k <= keep,
                        rev@.len() == keep - k,
                        forall|t: int| 0 <= t < rev@.len() ==> #[trigger] rev@[t] == orig[keep - 1 - t],
                        out@.len() == k,
                        itemsv == items_view(orig, orig.len() as int),
                        itemsv.len() == orig.len(),
                        forall|t: int| 0 <= t < orig.len() ==> #[trigger] itemsv[t] == value_view(orig[t]),
                        keys_unique_deep(ValueView::Array(itemsv)),
                        gv is Array && gv->Array_0@ == orig,
                        gv == v,
                        forall|t: int| 0 <= t < k ==> #[trigger] value_view(out@[t]) == sanitize_view(self.limits, itemsv[t]).1,
                        clean == forall|t: int| 0 <= t < k ==> #[trigger] sanitize_view(self.limits, itemsv[t]).0,
                        ok == forall|t: int| 0 <= t < k ==> #[trigger] sanitize_view(self.limits, itemsv[t]).2,
                    decreases keep - k,
                {
                    let x = rev.pop().unwrap();
                    proof {
                        assert(x == orig[k as int]);
                        assert(keys_unique_deep(value_view(gv)));
                        assert(value_view(gv) == ValueView::Array(itemsv));
                        lemma_items_unique_deep(itemsv, itemsv.len() as int, k as int);
                        assert(decreases_to!(gv => gv->Array_0));
                        assert(decreases_to!(gv->Array_0 => gv->Array_0@));
                        assert(decreases_to!(gv->Array_0@ => gv->Array_0@[k as int]));
                        assert(decreases_to!(gv => x));
                    }
                    let (c, y, o) = self.sanitize_owned(x);
                    let ghost sv = sanitize_view(self.limits, itemsv[k as int]);
                    let ghost old_out = out@;
                    out.push(y);
                    proof {
                        assert(c == sv.0 && value_view(y) == sv.1 && o == sv.2);
                        assert forall|t: int| 0 <= t < k + 1 implies #[trigger] value_view(out@[t]) == sanitize_view(self.limits, itemsv[t]).1 by {
                            if t < k {
                                assert(out@[t] == old_out[t]);
                            }
                        }
                        assert((clean && c) == forall|t: int| 0 <= t < k + 1 ==> #[trigger] sanitize_view(self.limits, itemsv[t]).0) by {
                            if clean && c {
                                assert forall|t: int| 0 <= t < k + 1 implies #[trigger] sanitize_view(self.limits, itemsv[t]).0 by {
                                    if t < k {
                                        assert(0 <= t < k);
                                    }
                                }
                            }
                        }
                        assert((ok && o) == forall|t: int| 0 <= t < k + 1 ==> #[trigger] sanitize_view(self.limits, itemsv[t]).2) by {
                            if ok && o {
                                assert forall|t: int| 0 <= t < k + 1 implies #[trigger] sanitize_view(self.limits, itemsv[t]).2 by {
                                    if t < k {
                                        assert(0 <= t < k);
                                    }
                                }
                            }
                        }
                    }
                    clean = clean && c;
                    ok = ok && o;
                    k += 1;
                }
                proof {
                    lemma_sanitize_items(self.limits, itemsv, keep as int);
                    lemma_items_view(out@, keep as int);
                    assert(items_view(out@, out@.len() as int) =~= sanitize_items(self.limits, itemsv, keep as int).1);
                }
                (len <= self.limits.max_array_size && clean, PdfValue::Array(out), ok)
            },
            PdfValue::Dictionary(es) => {
                proof {
                    lemma_entries_view(es@, es@.len() as int);
                    assert(value_view(gv) == ValueView::Dictionary(entries_view(es@, es@.len() as int)));
                    assert(decreases_to!(gv => gv->Dictionary_0));
                    assert(decreases_to!(gv->Dictionary_0 => gv->Dictionary_0@));
                }
                let (c, es2, ok) = self.sanitize_dict(es);
                (c, PdfValue::Dictionary(es2), ok)
            },
            PdfValue::Stream(es, n) => {
                proof {
                    lemma_entries_view(es@, es@.len() as int);
                    assert(value_view(gv) == ValueView::Stream(entries_view(es@, es@.len() as int), n as nat));
                    assert(decreases_to!(gv => gv->Stream_0));
                    assert(decreases_to!(gv->Stream_0 => gv->Stream_0@));
                }
                let (c, es2, ok) = self.sanitize_dict(es);
                let n2 = if n > self.limits.max_stream_size {
                    self.limits.max_stream_size
                } else {
                    n
                };
                (n <= self.limits.max_stream_size && c, PdfValue::Stream(es2, n2), ok)
            },
            other => (true, other, true),
        }
    }

    /// Sanitizes a dictionary's entries, as [`dict_result`] says.
    #[verifier::rlimit(100)]
    #[verifier::spinoff_prover]
    fn sanitize_dict(&self, es: Vec<(String, PdfValue)>) -> (r: (bool, Vec<(String, PdfValue)>, bool))
        requires
            unique_keys(entry_keys(entries_view(es@, es@.len() as int))),
            entries_unique_deep(entries_view(es@, es@.len() as int), es@.len() as int),
        ensures
            (r.0, entries_view(r.1@, r.1@.len() as int), r.2) == dict_result(
                self.limits,
                quads(self.limits, entries_view(es@, es@.len() as int), es@.len() as int),
            ),
        decreases es@,
    {
        let ghost es0 = es@;
        let ghost qs = quads(self.limits, entries_view(es0, es0.len() as int), es0.len() as int);
        proof {
            lemma_dict_start(self.limits, es0);
        }
        let mut cur = es;
        let (keys_removed, type_removed, Ghost(q2)) = remove_forbidden(&self.limits, &mut cur, Ghost(qs), Ghost(es0));
        // Take each remaining entry out and put it back at the end with its value sanitized.
        let ks = keys_of_entries(&cur);
        let ghost ksv = quad_keys(q2);
        proof {
            lemma_requeue_start(cur@, q2, es0, texts(ks@));
        }
        let ghost mut q = q2;
        let mut modified = false;
        let mut all_ok = true;
        let mut j: usize = 0;
        while j < ks.len()
            invariant
                j <= ks@.len(),
                texts(ks@) == ksv,
                ksv == quad_keys(q2),
                unique_keys(ksv),
                requeue(q2, ksv) == requeue(q, ksv.subrange(j as int, ksv.len() as int)),
                quads_good(self.limits, q),
                requeue_state(cur@, q, ksv.subrange(0, j as int), es0),
                forall|m: int| 0 <= m < q.len() ==> ksv.contains(#[trigger] q[m].0),
                modified == changed_among(q, ksv.subrange(0, j as int)),
                all_ok == safe_among(q, ksv.subrange(0, j as int)),
                es0 == es@,
            decreases ks@.len() - j,
        {
            let found = find_key(&cur, ks[j].as_str());
            proof {
                lemma_find_matches(cur@, q, ksv[j as int], found);
                let sub = ksv.subrange(j as int, ksv.len() as int);
                assert(sub[0] == ksv[j as int]);
                assert(sub.drop_first() =~= ksv.subrange(j + 1, ksv.len() as int));
            }
            if let Some(p) = found {
                let ghost before = cur@;
                let ghost qp = q[p as int];
                proof {
                    lemma_unprocessed(before, q, ksv, j as int, es0, p as int);
                }
                let (k, v) = cur.swap_remove(p);
                proof {
                    let i0 = choose|i: int| 0 <= i < es0.len() && before[p as int] == es0[i];
                    assert(v == es0[i0].1);
                    assert(decreases_to!(es@ => es@[i0]));
                    assert(decreases_to!(es@[i0] => es@[i0].1));
                }
                let (c, v2, ok) = self.sanitize_owned(v);
                cur.push((k, v2));
                proof {
                    assert(cur@ == swap_remove_at(before, p as int).push((k, v2)));
                    lemma_requeue_step(before, q, ksv, j as int, es0, p as int, (k, v2));
                    lemma_requeue_good(self.limits, q, ksv, p as int);
                    q = swap_remove_at(q, p as int).push(qp);
                }
                modified = modified || !c;
                all_ok = all_ok && ok;
            } else {
                proof {
                    lemma_requeue_missing(cur@, q, ksv, j as int, es0);
                }
            }
            j += 1;
        }
        proof {
            lemma_requeue_end(cur@, q, ksv, es0);
            assert(ksv.subrange(j as int, ksv.len() as int) =~= Seq::<Seq<char>>::empty());
        }
        (!keys_removed && !type_removed && !modified, cur, all_ok)
    }
}

/// The keys of the entries, as owned strings.
fn keys_of_entries(cur: &Vec<(String, PdfValue)>) -> (r: Vec<String>)
    ensures
        r@.len() == cur@.len(),
        forall|t: int| 0 <= t < cur@.len() ==> #[trigger] r@[t]@ == cur@[t].0@,
{
    let mut ks: Vec<String> = Vec::new();
    let mut i: usize = 0;
    while i < cur.len()
        invariant
            i <= cur@.len(),
            ks@.len() == i,
            forall|t: int| 0 <= t < i ==> #[trigger] ks@[t]@ == cur@[t].0@,
        decreases cur@.len() - i,
    {
        ks.push(cur[i].0.clone());
        i += 1;
    }
    ks
}

/// The entries of a dictionary stand for its quads, which are good.
proof fn lemma_dict_start(lim: SecurityLimits, es0: Seq<(String, PdfValue)>)
    requires
        unique_keys(entry_keys(entries_view(es0, es0.len() as int))),
        entries_unique_deep(entries_view(es0, es0.len() as int), es0.len() as int),
    ensures
        corresponds(es0, quads(lim, entries_view(es0, es0.len() as int), es0.len() as int), es0),
        quads_good(lim, quads(lim, entries_view(es0, es0.len() as int), es0.len() as int)),
{
    let ev = entries_view(es0, es0.len() as int);
    let qs = quads(lim, ev, ev.len() as int);
    lemma_entries_view(es0, es0.len() as int);
    lemma_quads(lim, ev, ev.len() as int);
    assert forall|m: int| 0 <= m < es0.len() implies (#[trigger] es0[m]).0@ == qs[m].0 && value_view(es0[m].1)
        == qs[m].1 && exists|i: int| 0 <= i < es0.len() && es0[m] == es0[i] by {
        assert(ev[m] == (es0[m].0@, value_view(es0[m].1)));
    }
    assert forall|m: int| 0 <= m < qs.len() implies quad_ok(lim, #[trigger] qs[m]) && keys_unique_deep(qs[m].1) by {
        lemma_entries_unique_deep(ev, ev.len() as int, m);
    }
    assert(quad_keys(qs) =~= entry_keys(ev));
}

/// Before any entry is processed, the state holds.
proof fn lemma_requeue_start(
    cur: Seq<(String, PdfValue)>,
    q2: Seq<Quad>,
    es0: Seq<(String, PdfValue)>,
    ks: Seq<Seq<char>>,
)
    requires
        corresponds(cur, q2, es0),
        ks.len() == cur.len(),
        forall|t: int| 0 <= t < cur.len() ==> #[trigger] ks[t] == cur[t].0@,
    ensures
        ks == quad_keys(q2),
        requeue_state(cur, q2, quad_keys(q2).subrange(0, 0), es0),
        forall|m: int| 0 <= m < q2.len() ==> quad_keys(q2).contains(#[trigger] q2[m].0),
        quad_keys(q2).subrange(0, quad_keys(q2).len() as int) == quad_keys(q2),
        !changed_among(q2, quad_keys(q2).subrange(0, 0)),
        safe_among(q2, quad_keys(q2).subrange(0, 0)),
{
    let ksv = quad_keys(q2);
    assert forall|t: int| 0 <= t < ks.len() implies #[trigger] ks[t] == ksv[t] by {
        assert(cur[t].0@ == q2[t].0);
    }
    assert(ks =~= ksv);
    assert(ksv.subrange(0, ksv.len() as int) =~= ksv);
    let d = ksv.subrange(0, 0);
    assert(d =~= Seq::<Seq<char>>::empty());
    assert forall|m: int| 0 <= m < q2.len() implies ksv.contains(#[trigger] q2[m].0) by {
        assert(ksv[m] == q2[m].0);
    }
}

/// The entry for the key now being processed has not been processed yet, and its value is
/// one of the original ones.
proof fn lemma_unprocessed(
    cur: Seq<(String, PdfValue)>,
    q: Seq<Quad>,
    ks: Seq<Seq<char>>,
    j: int,
    es0: Seq<(String, PdfValue)>,
    p: int,
)
    requires
        0 <= j < ks.len(),
        unique_keys(ks),
        requeue_state(cur, q, ks.subrange(0, j), es0),
        0 <= p < q.len(),
        q[p].0 == ks[j],
    ensures
        value_view(cur[p].1) == q[p].1,
        exists|i: int| 0 <= i < es0.len() && cur[p] == es0[i],
        cur[p].0@ == ks[j],
{
    assert(!ks.subrange(0, j).contains(ks[j])) by {
        if ks.subrange(0, j).contains(ks[j]) {
            let t = choose|t: int| 0 <= t < j && ks.subrange(0, j)[t] == ks[j];
            assert(ks[t] == ks[j]);
        }
    }
    assert(cur[p].0@ == q[p].0);
}

/// After requeueing one entry, the quads are still good and their keys still listed.
proof fn lemma_requeue_good(lim: SecurityLimits, q: Seq<Quad>, ks: Seq<Seq<char>>, p: int)
    requires
        quads_good(lim, q),
        0 <= p < q.len(),
        forall|m: int| 0 <= m < q.len() ==> ks.contains(#[trigger] q[m].0),
    ensures
        quads_good(lim, swap_remove_at(q, p).push(q[p])),
        forall|m: int|
            0 <= m < q.len() ==> ks.contains(#[trigger] swap_remove_at(q, p).push(q[p])[m].0),
{
    lemma_swap_remove_good(lim, q, p);
    let r = swap_remove_at(q, p);
    let q_next = r.push(q[p]);
    assert forall|m: int| 0 <= m < q_next.len() implies quad_ok(lim, #[trigger] q_next[m]) && keys_unique_deep(q_next[m].1) by {
        if m < q_next.len() - 1 {
            assert(q_next[m] == r[m]);
        }
    }
    assert forall|a: int, b: int| 0 <= a < b < quad_keys(q_next).len() implies quad_keys(q_next)[a] != quad_keys(q_next)[b] by {
        if b == q_next.len() - 1 {
            let src = if a == p { q.len() - 1 } else { a };
            assert(q_next[a] == q[src]);
            assert(src != p);
            if src < p {
                assert(quad_keys(q)[src] != quad_keys(q)[p]);
            } else {
                assert(quad_keys(q)[p] != quad_keys(q)[src]);
            }
        } else {
            assert(quad_keys(q_next)[a] == quad_keys(r)[a]);
            assert(quad_keys(q_next)[b] == quad_keys(r)[b]);
        }
    }
    assert forall|m: int| 0 <= m < q.len() implies ks.contains(#[trigger] q_next[m].0) by {
        if m == q_next.len() - 1 {
            assert(q_next[m] == q[p]);
        } else {
            let src = if m == p { q.len() - 1 } else { m };
            assert(q_next[m] == q[src]);
        }
    }
}

/// A key with no entry left changes nothing when it is processed.
proof fn lemma_requeue_missing(
    cur: Seq<(String, PdfValue)>,
    q: Seq<Quad>,
    ks: Seq<Seq<char>>,
    j: int,
    es0: Seq<(String, PdfValue)>,
)
    requires
        0 <= j < ks.len(),
        requeue_state(cur, q, ks.subrange(0, j), es0),
        first_pos(q, ks[j]) < 0,
    ensures
        requeue_state(cur, q, ks.subrange(0, j + 1), es0),
        changed_among(q, ks.subrange(0, j + 1)) == changed_among(q, ks.subrange(0, j)),
        safe_among(q, ks.subrange(0, j + 1)) == safe_among(q, ks.subrange(0, j)),
{
    let d0 = ks.subrange(0, j);
    let d1 = ks.subrange(0, j + 1);
    lemma_first_pos(q, ks[j]);
    assert forall|k: Seq<char>| #[trigger] d1.contains(k) && k != ks[j] implies d0.contains(k) by {
        let t = choose|t: int| 0 <= t < d1.len() && d1[t] == k;
        assert(d0[t] == k);
    }
    assert forall|k: Seq<char>| #[trigger] d0.contains(k) implies d1.contains(k) by {
        let t = choose|t: int| 0 <= t < d0.len() && d0[t] == k;
        assert(d1[t] == k);
    }
    assert forall|m: int| 0 <= m < q.len() implies (#[trigger] q[m]).0 != ks[j] by {}
    assert forall|m: int| 0 <= m < cur.len() implies (#[trigger] cur[m]).0@ == q[m].0 && if d1.contains(q[m].0) {
        value_view(cur[m].1) == q[m].3
    } else {
        value_view(cur[m].1) == q[m].1 && exists|i: int| 0 <= i < es0.len() && cur[m] == es0[i]
    } by {
        assert(q[m].0 != ks[j]);
        assert(d1.contains(q[m].0) == d0.contains(q[m].0));
    }
    assert(changed_among(q, d1) == changed_among(q, d0)) by {
        if changed_among(q, d1) {
            let m = choose|m: int| 0 <= m < q.len() && d1.contains((#[trigger] q[m]).0) && !q[m].2;
            assert(q[m].0 != ks[j]);
        }
    }
    assert(safe_among(q, d1) == safe_among(q, d0)) by {
        if safe_among(q, d0) {
            assert forall|m: int| 0 <= m < q.len() && d1.contains((#[trigger] q[m]).0) implies q[m].4 by {
                assert(q[m].0 != ks[j]);
            }
        }
    }
}

/// When every key was processed, the entries hold the sanitized values, and the flags are
/// those of all the entries.
proof fn lemma_requeue_end(
    cur: Seq<(String, PdfValue)>,
    q: Seq<Quad>,
    ks: Seq<Seq<char>>,
    es0: Seq<(String, PdfValue)>,
)
    requires
        requeue_state(cur, q, ks.subrange(0, ks.len() as int), es0),
        forall|m: int| 0 <= m < q.len() ==> ks.contains(#[trigger] q[m].0),
    ensures
        entries_view(cur, cur.len() as int) == sanitized_entries(q),
        changed_among(q, ks.subrange(0, ks.len() as int)) == any_changed(q),
        safe_among(q, ks.subrange(0, ks.len() as int)) == all_cuts_safe(q),
{
    let done = ks.subrange(0, ks.len() as int);
    assert(done =~= ks);
    lemma_entries_view(cur, cur.len() as int);
    assert forall|m: int| 0 <= m < cur.len() implies #[trigger] entries_view(cur, cur.len() as int)[m] == sanitized_entries(q)[m] by {
        assert(ks.contains(q[m].0));
        assert(cur[m].0@ == q[m].0);
    }
    assert(entries_view(cur, cur.len() as int) =~= sanitized_entries(q));
    assert(changed_among(q, done) == any_changed(q)) by {
        if any_changed(q) {
            let m = choose|m: int| 0 <= m < q.len() && !(#[trigger] q[m]).2;
            assert(ks.contains(q[m].0));
        }
    }
    assert(safe_among(q, done) == all_cuts_safe(q)) by {
        if safe_among(q, done) {
            assert forall|m: int| 0 <= m < q.len() implies (#[trigger] q[m]).4 by {
                assert(ks.contains(q[m].0));
            }
        }
    }
}


/// A copy of `v`.
pub fn clone_value(v: &PdfValue) -> (r: PdfValue)
    ensures
        value_view(r) == value_view(*v),
    decreases v,
{
    match v {
        PdfValue::Null => PdfValue::Null,
        PdfValue::Boolean(b) => PdfValue::Boolean(*b),
        PdfValue::Integer(i) => PdfValue::Integer(*i),
        PdfValue::Real => PdfValue::Real,
        PdfValue::String(s) => PdfValue::String(s.clone()),
        PdfValue::Name(n) => PdfValue::Name(n.clone()),
        PdfValue::Array(items) => {
            let mut out: Vec<PdfValue> = Vec::new();
            let mut i: usize = 0;
            while i < items.len()
                invariant
                    i <= items@.len(),
                    out@.len() == i,
                    *v == PdfValue::Array(*items),
                    forall|t: int| 0 <= t < i ==> #[trigger] value_view(out@[t]) == value_view(items@[t]),
                decreases items@.len() - i,
            {
                proof {
                    assert(decreases_to!(*v => (*v)->Array_0));
                    assert(decreases_to!(*items => items@));
                    assert(decreases_to!(items@ => items@[i as int]));
                }
                out.push(clone_value(&items[i]));
                i += 1;
            }
            proof {
                lemma_items_view(out@, out@.len() as int);
                lemma_items_view(items@, items@.len() as int);
                assert(items_view(out@, out@.len() as int) =~= items_view(items@, items@.len() as int));
            }
            PdfValue::Array(out)
        },
        PdfValue::Dictionary(es) => {
            proof {
                assert(decreases_to!(*v => (*v)->Dictionary_0));
                assert(decreases_to!(*es => es@));
            }
            PdfValue::Dictionary(clone_entries(es))
        },
        PdfValue::Stream(es, n) => {
            proof {
                assert(decreases_to!(*v => (*v)->Stream_0));
                assert(decreases_to!(*es => es@));
            }
            PdfValue::Stream(clone_entries(es), *n)
        },
        PdfValue::Reference(id) => PdfValue::Reference(*id),
    }
}

/// A copy of the entries.
fn clone_entries(es: &Vec<(String, PdfValue)>) -> (r: Vec<(String, PdfValue)>)
    ensures
        entries_view(r@, r@.len() as int) == entries_view(es@, es@.len() as int),
    decreases es@,
{
    let mut out: Vec<(String, PdfValue)> = Vec::new();
    let mut i: usize = 0;
    while i < es.len()
        invariant
            i <= es@.len(),
            out@.len() == i,
            forall|t: int| 0 <= t < i ==> #[trigger] out@[t].0@ == es@[t].0@ && value_view(out@[t].1)
                == value_view(es@[t].1),
        decreases es@.len() - i,
    {
        proof {
            assert(decreases_to!(es@ => es@[i as int]));
            assert(decreases_to!(es@[i as int] => es@[i as int].1));
        }
        let v = clone_value(&es[i].1);
        out.push((es[i].0.clone(), v));
        i += 1;
    }
    proof {
        lemma_entries_view(out@, out@.len() as int);
        lemma_entries_view(es@, es@.len() as int);
        assert(entries_view(out@, out@.len() as int) =~= entries_view(es@, es@.len() as int));
    }
    out
}

impl PdfSanitizer {
    /// Removes dangerous content from `value`, as [`sanitize_view`] says, and says whether it
    /// was clean (nothing removed, cut or replaced). Every string it cuts to the size limit
    /// must be cut between two characters.
    pub fn sanitize_value(&self, value: &mut PdfValue) -> (r: bool)
        requires
            keys_unique_deep(value_view(*old(value))),
            sanitize_view(self.limits(), value_view(*old(value))).2,
        ensures
            r == sanitize_view(self.limits(), value_view(*old(value))).0,
            value_view(*final(value)) == sanitize_view(self.limits(), value_view(*old(value))).1,
    {
        let mut taken = PdfValue::Null;
        std::mem::swap(value, &mut taken);
        let (clean, sanitized, _) = self.sanitize_owned(taken);
        *value = sanitized;
        clean
    }

    /// Sanitizes `value` as [`PdfSanitizer::sanitize_value`] does when every string it would
    /// cut is cut between two characters, and says whether it was clean; otherwise leaves it
    /// unchanged and gives `None`.
    pub fn try_sanitize_value(&self, value: &mut PdfValue) -> (r: Option<bool>)
        requires
            keys_unique_deep(value_view(*old(value))),
        ensures
            sanitize_view(self.limits(), value_view(*old(value))).2 ==> r == Some(
                sanitize_view(self.limits(), value_view(*old(value))).0,
            ) && value_view(*final(value)) == sanitize_view(self.limits(), value_view(*old(value))).1,
            !sanitize_view(self.limits(), value_view(*old(value))).2 ==> r is None && value_view(
                *final(value),
            ) == value_view(*old(value)),
    {
        let probe = clone_value(value);
        let (_, _, safe) = self.sanitize_owned(probe);
        if safe {
            Some(self.sanitize_value(value))
        } else {
            None
        }
    }
}
} // verus!
