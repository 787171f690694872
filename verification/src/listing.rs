//! Listings: the orders a section can list its pages in, the stable sort
//! that puts pages into such an order, and the previous/next links of the
//! pages of a section.
use vstd::prelude::*;

use crate::feed::{opt_chars, opt_less, opt_same, opt_text_lt, text_less, text_lt};
use crate::config::{keyed, keyed_map};
use crate::model::{opt_text, FrontMatter, Page, PageSummary};
use crate::script::string_views;
use crate::text::{chars_of, eq_str, vec_eq};

verus! {

broadcast use vstd::string::group_string_axioms;

// ---------------------------------------------------------------------------
// Sort orders
// ---------------------------------------------------------------------------

/// The orders a `sort_by` setting names.
#[derive(Debug, Clone, Copy, PartialEq, Eq, Structural)]
pub enum SortOrder {
    WeightAsc,
    WeightDesc,
    DateDesc,
    DateAsc,
    UpdatedDesc,
    UpdatedAsc,
    TitleAsc,
    TitleDesc,
    UrlAsc,
    UrlDesc,
}

/// The order a `sort_by` setting names; an unknown name means newest
/// first.
pub open spec fn sort_order_of(s: Seq<char>) -> SortOrder {
    if s == "weight"@ || s == "weight_asc"@ {
        SortOrder::WeightAsc
    } else if s == "weight_desc"@ {
        SortOrder::WeightDesc
    } else if s == "date_asc"@ {
        SortOrder::DateAsc
    } else if s == "updated"@ || s == "updated_desc"@ {
        SortOrder::UpdatedDesc
    } else if s == "updated_asc"@ {
        SortOrder::UpdatedAsc
    } else if s == "title"@ || s == "title_asc"@ {
        SortOrder::TitleAsc
    } else if s == "title_desc"@ {
        SortOrder::TitleDesc
    } else if s == "url"@ || s == "url_asc"@ {
        SortOrder::UrlAsc
    } else if s == "url_desc"@ {
        SortOrder::UrlDesc
    } else {
        SortOrder::DateDesc
    }
}

/// The order a `sort_by` setting names.
pub fn sort_order(sort_by: &str) -> (r: SortOrder)
    ensures
        r == sort_order_of(sort_by@),
{
    let s = chars_of(sort_by);
    if eq_str(&s, "weight") || eq_str(&s, "weight_asc") {
        SortOrder::WeightAsc
    } else if eq_str(&s, "weight_desc") {
        SortOrder::WeightDesc
    } else if eq_str(&s, "date_asc") {
        SortOrder::DateAsc
    } else if eq_str(&s, "updated") || eq_str(&s, "updated_desc") {
        SortOrder::UpdatedDesc
    } else if eq_str(&s, "updated_asc") {
        SortOrder::UpdatedAsc
    } else if eq_str(&s, "title") || eq_str(&s, "title_asc") {
        SortOrder::TitleAsc
    } else if eq_str(&s, "title_desc") {
        SortOrder::TitleDesc
    } else if eq_str(&s, "url") || eq_str(&s, "url_asc") {
        SortOrder::UrlAsc
    } else if eq_str(&s, "url_desc") {
        SortOrder::UrlDesc
    } else {
        SortOrder::DateDesc
    }
}

/// What a listing compares of a page: its date, its update date, its
/// weight (0 when it has none), its title and its URL.
pub type SortKey = (Option<Seq<char>>, Option<Seq<char>>, int, Seq<char>, Seq<char>);

/// Whether a page with key `a` comes strictly before one with key `b`.
/// Pages without a date (or update date) count as older than any with
/// one; every order falls back on the URL.
pub open spec fn key_before(a: SortKey, b: SortKey, o: SortOrder) -> bool {
    match o {
        SortOrder::WeightAsc => a.2 < b.2 || (a.2 == b.2 && text_lt(a.4, b.4)),
        SortOrder::WeightDesc => b.2 < a.2 || (a.2 == b.2 && text_lt(a.4, b.4)),
        SortOrder::DateDesc => opt_text_lt(b.0, a.0) || (a.0 == b.0 && (a.2 < b.2 || (a.2 == b.2
            && text_lt(a.4, b.4)))),
        SortOrder::DateAsc => opt_text_lt(a.0, b.0) || (a.0 == b.0 && (a.2 < b.2 || (a.2 == b.2
            && text_lt(a.4, b.4)))),
        SortOrder::UpdatedDesc => opt_text_lt(b.1, a.1) || (a.1 == b.1 && (opt_text_lt(b.0, a.0)
            || (a.0 == b.0 && text_lt(a.4, b.4)))),
        SortOrder::UpdatedAsc => opt_text_lt(a.1, b.1) || (a.1 == b.1 && (opt_text_lt(a.0, b.0)
            || (a.0 == b.0 && text_lt(a.4, b.4)))),
        SortOrder::TitleAsc => text_lt(a.3, b.3) || (a.3 == b.3 && text_lt(a.4, b.4)),
        SortOrder::TitleDesc => text_lt(b.3, a.3) || (a.3 == b.3 && text_lt(a.4, b.4)),
        SortOrder::UrlAsc => text_lt(a.4, b.4),
        SortOrder::UrlDesc => text_lt(b.4, a.4),
    }
}

/// The weight a listing compares: the page's, else 0.
pub open spec fn weight_or_zero(w: Option<i64>) -> int {
    match w {
        Some(x) => x as int,
        None => 0,
    }
}

/// The sort key of a page summary.
pub open spec fn summary_key(p: PageSummary) -> SortKey {
    (opt_text(p.date), opt_text(p.updated), weight_or_zero(p.weight), p.title@, p.url@)
}

/// The sort key of a page.
pub open spec fn page_key(p: Page) -> SortKey {
    (opt_text(p.meta.date), opt_text(p.meta.updated), weight_or_zero(p.meta.weight), p.title@, p.url@)
}

// ---------------------------------------------------------------------------
// The order of texts and keys
// ---------------------------------------------------------------------------

proof fn lemma_text_lt_irreflexive(a: Seq<char>)
    ensures
        !text_lt(a, a),
    decreases a.len(),
{
    if a.len() > 0 {
        lemma_text_lt_irreflexive(a.drop_first());
    }
}

proof fn lemma_text_lt_transitive(a: Seq<char>, b: Seq<char>, c: Seq<char>)
    requires
        text_lt(a, b),
        text_lt(b, c),
    ensures
        text_lt(a, c),
    decreases a.len(),
{
    if a.len() > 0 && b.len() > 0 && c.len() > 0 && a[0] == b[0] && b[0] == c[0] {
        lemma_text_lt_transitive(a.drop_first(), b.drop_first(), c.drop_first());
    }
}

proof fn lemma_text_lt_total(a: Seq<char>, b: Seq<char>)
    ensures
        a == b || text_lt(a, b) || text_lt(b, a),
    decreases a.len(),
{
    if a.len() == 0 && b.len() == 0 {
        assert(a =~= b);
    } else if a.len() > 0 && b.len() > 0 && a[0] == b[0] {
        lemma_text_lt_total(a.drop_first(), b.drop_first());
        if a.drop_first() == b.drop_first() {
            assert(a.drop_first().len() == b.drop_first().len());
            assert forall|i: int| 0 <= i < a.len() implies a[i] == b[i] by {
                if i > 0 {
                    assert(a[i] == a.drop_first()[i - 1]);
                    assert(b[i] == b.drop_first()[i - 1]);
                }
            }
            assert(a =~= b);
        }
    } else if a.len() > 0 && b.len() > 0 {
        vstd::utf8::char_u32_cast(a[0], a[0] as u32);
        vstd::utf8::char_u32_cast(b[0], b[0] as u32);
    }
}

/// The facts about three texts that a comparison of keys needs.
pub(crate) proof fn lemma_text_order3(a: Seq<char>, b: Seq<char>, c: Seq<char>)
    ensures
        !text_lt(a, a),
        !text_lt(b, b),
        !text_lt(c, c),
        a == b || text_lt(a, b) || text_lt(b, a),
        b == c || text_lt(b, c) || text_lt(c, b),
        a == c || text_lt(a, c) || text_lt(c, a),
        text_lt(a, b) && text_lt(b, c) ==> text_lt(a, c),
        text_lt(a, c) && text_lt(c, b) ==> text_lt(a, b),
        text_lt(b, a) && text_lt(a, c) ==> text_lt(b, c),
        text_lt(b, c) && text_lt(c, a) ==> text_lt(b, a),
        text_lt(c, a) && text_lt(a, b) ==> text_lt(c, b),
        text_lt(c, b) && text_lt(b, a) ==> text_lt(c, a),
        text_lt(a, b) && text_lt(b, a) ==> false,
        text_lt(b, c) && text_lt(c, b) ==> false,
        text_lt(a, c) && text_lt(c, a) ==> false,
{
    lemma_text_lt_irreflexive(a);
    lemma_text_lt_irreflexive(b);
    lemma_text_lt_irreflexive(c);
    lemma_text_lt_total(a, b);
    lemma_text_lt_total(b, c);
    lemma_text_lt_total(a, c);
    if text_lt(a, b) && text_lt(b, c) {
        lemma_text_lt_transitive(a, b, c);
    }
    if text_lt(a, c) && text_lt(c, b) {
        lemma_text_lt_transitive(a, c, b);
    }
    if text_lt(b, a) && text_lt(a, c) {
        lemma_text_lt_transitive(b, a, c);
    }
    if text_lt(b, c) && text_lt(c, a) {
        lemma_text_lt_transitive(b, c, a);
    }
    if text_lt(c, a) && text_lt(a, b) {
        lemma_text_lt_transitive(c, a, b);
    }
    if text_lt(c, b) && text_lt(b, a) {
        lemma_text_lt_transitive(c, b, a);
    }
    if text_lt(a, b) && text_lt(b, a) {
        lemma_text_lt_transitive(a, b, a);
    }
    if text_lt(b, c) && text_lt(c, b) {
        lemma_text_lt_transitive(b, c, b);
    }
    if text_lt(a, c) && text_lt(c, a) {
        lemma_text_lt_transitive(a, c, a);
    }
}

/// The same facts for optional texts.
proof fn lemma_opt_order3(a: Option<Seq<char>>, b: Option<Seq<char>>, c: Option<Seq<char>>)
    ensures
        !opt_text_lt(a, a),
        a == b || opt_text_lt(a, b) || opt_text_lt(b, a),
        b == c || opt_text_lt(b, c) || opt_text_lt(c, b),
        a == c || opt_text_lt(a, c) || opt_text_lt(c, a),
        opt_text_lt(a, b) && opt_text_lt(b, c) ==> opt_text_lt(a, c),
        opt_text_lt(a, c) && opt_text_lt(c, b) ==> opt_text_lt(a, b),
        opt_text_lt(b, a) && opt_text_lt(a, c) ==> opt_text_lt(b, c),
        opt_text_lt(b, c) && opt_text_lt(c, a) ==> opt_text_lt(b, a),
        opt_text_lt(c, a) && opt_text_lt(a, b) ==> opt_text_lt(c, b),
        opt_text_lt(c, b) && opt_text_lt(b, a) ==> opt_text_lt(c, a),
        opt_text_lt(a, b) && opt_text_lt(b, a) ==> false,
        opt_text_lt(b, c) && opt_text_lt(c, b) ==> false,
        opt_text_lt(a, c) && opt_text_lt(c, a) ==> false,
{
    let x = match a {
        Some(t) => t,
        None => Seq::<char>::empty(),
    };
    let y = match b {
        Some(t) => t,
        None => Seq::<char>::empty(),
    };
    let z = match c {
        Some(t) => t,
        None => Seq::<char>::empty(),
    };
    lemma_text_order3(x, y, z);
}

/// The order of keys is a strict order whose incomparable keys tie: no
/// key comes before itself, two keys never come before each other, and
/// a key that comes before another comes before or after any third.
pub proof fn lemma_key_order(a: SortKey, b: SortKey, c: SortKey, o: SortOrder)
    ensures
        !key_before(a, a, o),
        key_before(a, b, o) ==> !key_before(b, a, o),
        key_before(a, c, o) ==> key_before(a, b, o) || key_before(b, c, o),
{
    lemma_opt_order3(a.0, b.0, c.0);
    lemma_opt_order3(a.1, b.1, c.1);
    lemma_text_order3(a.3, b.3, c.3);
    lemma_text_order3(a.4, b.4, c.4);
}

// ---------------------------------------------------------------------------
// Stable sorting
// ---------------------------------------------------------------------------

/// `s` with `x` placed after every element that `x` does not come before.
pub open spec fn insert_sorted<T>(s: Seq<T>, x: T, key: spec_fn(T) -> SortKey, o: SortOrder) -> Seq<
    T,
>
    decreases s.len(),
{
    if s.len() == 0 {
        seq![x]
    } else if key_before(key(x), key(s.last()), o) {
        insert_sorted(s.drop_last(), x, key, o).push(s.last())
    } else {
        s.push(x)
    }
}

/// `s` sorted by `key` in order `o`, elements that tie keeping their order
/// (a stable sort).
pub open spec fn stable_sorted<T>(s: Seq<T>, key: spec_fn(T) -> SortKey, o: SortOrder) -> Seq<T>
    decreases s.len(),
{
    if s.len() == 0 {
        s
    } else {
        insert_sorted(stable_sorted(s.drop_last(), key, o), s.last(), key, o)
    }
}

/// No element of `s` comes before an element ahead of it.
pub open spec fn in_order<T>(s: Seq<T>, key: spec_fn(T) -> SortKey, o: SortOrder) -> bool {
    forall|i: int, j: int| 0 <= i < j < s.len() ==> !key_before(#[trigger] key(s[j]), #[trigger] key(s[i]), o)
}

/// The key of a page summary, as a function.
pub open spec fn summary_sort_key() -> spec_fn(PageSummary) -> SortKey {
    |p: PageSummary| summary_key(p)
}

/// Where the insertion puts `x`: at `j`, when `x` comes before every
/// element from `j` on and not before the one ahead of `j`.
pub proof fn lemma_insert_sorted_at<T>(s: Seq<T>, x: T, key: spec_fn(T) -> SortKey, o: SortOrder, j: int)
    requires
        0 <= j <= s.len(),
        forall|k: int| j <= k < s.len() ==> key_before(key(x), #[trigger] key(s[k]), o),
        j == 0 || !key_before(key(x), key(s[j - 1]), o),
    ensures
        insert_sorted(s, x, key, o) == s.insert(j, x),
    decreases s.len(),
{
    if s.len() == j {
        if s.len() > 0 {
            assert(s.last() == s[j - 1]);
        }
        assert(s.insert(j, x) =~= s.push(x));
    } else {
        assert(key_before(key(x), key(s[s.len() - 1]), o));
        assert(s.last() == s[s.len() - 1]);
        let d = s.drop_last();
        assert forall|k: int| j <= k < d.len() implies key_before(key(x), #[trigger] key(d[k]), o) by {
            assert(d[k] == s[k]);
        }
        if j > 0 {
            assert(d[j - 1] == s[j - 1]);
        }
        lemma_insert_sorted_at(d, x, key, o, j);
        assert(d.insert(j, x).push(s.last()) =~= s.insert(j, x));
    }
}

/// The insertion puts `x` somewhere among the elements of `s`.
pub proof fn lemma_insert_sorted_shape<T>(s: Seq<T>, x: T, key: spec_fn(T) -> SortKey, o: SortOrder) -> (j: int)
    ensures
        0 <= j <= s.len(),
        insert_sorted(s, x, key, o) == s.insert(j, x),
    decreases s.len(),
{
    if s.len() == 0 {
        assert(s.insert(0, x) =~= seq![x]);
        0
    } else if key_before(key(x), key(s.last()), o) {
        let d = s.drop_last();
        let j = lemma_insert_sorted_shape(d, x, key, o);
        assert(d.insert(j, x).push(s.last()) =~= s.insert(j, x));
        j
    } else {
        assert(s.insert(s.len() as int, x) =~= s.push(x));
        s.len() as int
    }
}

/// Inserting into a sorted sequence keeps it sorted.
pub proof fn lemma_insert_sorted_in_order<T>(s: Seq<T>, x: T, key: spec_fn(T) -> SortKey, o: SortOrder)
    requires
        in_order(s, key, o),
    ensures
        in_order(insert_sorted(s, x, key, o), key, o),
    decreases s.len(),
{
    if s.len() == 0 {
    } else if key_before(key(x), key(s.last()), o) {
        let d = s.drop_last();
        assert(in_order(d, key, o)) by {
            assert forall|i: int, j: int| 0 <= i < j < d.len() implies !key_before(
                #[trigger] key(d[j]),
                #[trigger] key(d[i]),
                o,
            ) by {
                assert(d[i] == s[i] && d[j] == s[j]);
            }
        }
        lemma_insert_sorted_in_order(d, x, key, o);
        let t = insert_sorted(d, x, key, o);
        let q = lemma_insert_sorted_shape(d, x, key, o);
        let r = t.push(s.last());
        assert forall|i: int, j: int| 0 <= i < j < r.len() implies !key_before(
            #[trigger] key(r[j]),
            #[trigger] key(r[i]),
            o,
        ) by {
            if j == r.len() - 1 {
                assert(r[j] == s.last());
                if i < q {
                    assert(r[i] == s[i]);
                    assert(s.last() == s[s.len() - 1]);
                } else if i == q {
                    assert(r[i] == x);
                    lemma_key_order(key(x), key(s.last()), key(s.last()), o);
                } else {
                    assert(r[i] == s[i - 1]);
                    assert(s.last() == s[s.len() - 1]);
                }
            } else {
                assert(r[i] == t[i] && r[j] == t[j]);
            }
        }
    } else {
        let r = s.push(x);
        assert forall|i: int, j: int| 0 <= i < j < r.len() implies !key_before(
            #[trigger] key(r[j]),
            #[trigger] key(r[i]),
            o,
        ) by {
            if j == r.len() - 1 {
                assert(r[j] == x);
                assert(r[i] == s[i]);
                assert(s.last() == s[s.len() - 1]);
                if i < s.len() - 1 {
                    lemma_key_order(key(x), key(s.last()), key(s[i]), o);
                }
            } else {
                assert(r[i] == s[i] && r[j] == s[j]);
            }
        }
    }
}

/// A stable sort puts its elements in order and keeps every element, as
/// often as it occurs.
pub proof fn lemma_stable_sorted<T>(s: Seq<T>, key: spec_fn(T) -> SortKey, o: SortOrder)
    ensures
        in_order(stable_sorted(s, key, o), key, o),
        stable_sorted(s, key, o).to_multiset() == s.to_multiset(),
        stable_sorted(s, key, o).len() == s.len(),
    decreases s.len(),
{
    broadcast use vstd::seq_lib::to_multiset_insert, vstd::seq_lib::to_multiset_build;

    if s.len() == 0 {
    } else {
        let d = s.drop_last();
        lemma_stable_sorted(d, key, o);
        let t = stable_sorted(d, key, o);
        lemma_insert_sorted_in_order(t, s.last(), key, o);
        let j = lemma_insert_sorted_shape(t, s.last(), key, o);
        assert(d.push(s.last()) =~= s);
    }
}

// ---------------------------------------------------------------------------
// Comparing pages
// ---------------------------------------------------------------------------

/// The sort key of a page, as characters.
pub(crate) struct Key {
    pub(crate) date: Option<Vec<char>>,
    pub(crate) updated: Option<Vec<char>>,
    pub(crate) weight: i64,
    pub(crate) title: Vec<char>,
    pub(crate) url: Vec<char>,
}

pub(crate) open spec fn opt_chars_view(o: Option<Vec<char>>) -> Option<Seq<char>> {
    match o {
        Some(v) => Some(v@),
        None => None,
    }
}

pub(crate) open spec fn key_view(k: Key) -> SortKey {
    (opt_chars_view(k.date), opt_chars_view(k.updated), k.weight as int, k.title@, k.url@)
}

fn weight_value(w: Option<i64>) -> (r: i64)
    ensures
        r as int == weight_or_zero(w),
{
    match w {
        Some(x) => x,
        None => 0,
    }
}

pub(crate) fn summary_fields(p: &PageSummary) -> (k: Key)
    ensures
        key_view(k) == summary_key(*p),
{
    Key {
        date: opt_chars(&p.date),
        updated: opt_chars(&p.updated),
        weight: weight_value(p.weight),
        title: chars_of(p.title.as_str()),
        url: chars_of(p.url.as_str()),
    }
}

fn page_fields(p: &Page) -> (k: Key)
    ensures
        key_view(k) == page_key(*p),
{
    Key {
        date: opt_chars(&p.meta.date),
        updated: opt_chars(&p.meta.updated),
        weight: weight_value(p.meta.weight),
        title: chars_of(p.title.as_str()),
        url: chars_of(p.url.as_str()),
    }
}

/// Whether key `a` comes strictly before key `b` in order `o`.
pub(crate) fn key_less(a: &Key, b: &Key, o: SortOrder) -> (r: bool)
    ensures
        r == key_before(key_view(*a), key_view(*b), o),
{
    match o {
        SortOrder::WeightAsc => a.weight < b.weight || (a.weight == b.weight && text_less(
            &a.url,
            &b.url,
        )),
        SortOrder::WeightDesc => b.weight < a.weight || (a.weight == b.weight && text_less(
            &a.url,
            &b.url,
        )),
        SortOrder::DateDesc => opt_less(&b.date, &a.date) || (opt_same(&a.date, &b.date) && (
        a.weight < b.weight || (a.weight == b.weight && text_less(&a.url, &b.url)))),
        SortOrder::DateAsc => opt_less(&a.date, &b.date) || (opt_same(&a.date, &b.date) && (
        a.weight < b.weight || (a.weight == b.weight && text_less(&a.url, &b.url)))),
        SortOrder::UpdatedDesc => opt_less(&b.updated, &a.updated) || (opt_same(
            &a.updated,
            &b.updated,
        ) && (opt_less(&b.date, &a.date) || (opt_same(&a.date, &b.date) && text_less(
            &a.url,
            &b.url,
        )))),
        SortOrder::UpdatedAsc => opt_less(&a.updated, &b.updated) || (opt_same(
            &a.updated,
            &b.updated,
        ) && (opt_less(&a.date, &b.date) || (opt_same(&a.date, &b.date) && text_less(
            &a.url,
            &b.url,
        )))),
        SortOrder::TitleAsc => text_less(&a.title, &b.title) || (vec_eq(&a.title, &b.title)
            && text_less(&a.url, &b.url)),
        SortOrder::TitleDesc => text_less(&b.title, &a.title) || (vec_eq(&a.title, &b.title)
            && text_less(&a.url, &b.url)),
        SortOrder::UrlAsc => text_less(&a.url, &b.url),
        SortOrder::UrlDesc => text_less(&b.url, &a.url),
    }
}

/// Sorts page summaries into the order `sort_by` names (see
/// `sort_order_of`), keeping the order of summaries that tie.
pub fn sort_page_summaries(items: &mut Vec<PageSummary>, sort_by: &str)
    ensures
        final(items)@ == stable_sorted(old(items)@, summary_sort_key(), sort_order_of(sort_by@)),
{
    let o = sort_order(sort_by);
    let ghost orig = items@;
    let ghost key = summary_sort_key();
    let mut out: Vec<PageSummary> = Vec::new();
    let mut keys: Vec<Key> = Vec::new();
    let ghost mut m: int = 0;
    assert(orig.skip(0) =~= orig);
    while items.len() > 0
        invariant
            0 <= m <= orig.len(),
            items@ == orig.skip(m),
            key == summary_sort_key(),
            out@ == stable_sorted(orig.take(m), key, o),
            keys@.len() == out@.len(),
            forall|k: int| 0 <= k < keys@.len() ==> key_view(#[trigger] keys@[k]) == key(out@[k]),
        decreases items.len(),
    {
        assert(orig.skip(m)[0] == orig[m]);
        let x = items.remove(0);
        assert(orig.skip(m).remove(0) =~= orig.skip(m + 1));
        let kx = summary_fields(&x);
        let mut j: usize = out.len();
        while j > 0 && key_less(&kx, &keys[j - 1], o)
            invariant
                j <= out@.len(),
                keys@.len() == out@.len(),
                key == summary_sort_key(),
                key_view(kx) == key(x),
                forall|k: int| 0 <= k < keys@.len() ==> key_view(#[trigger] keys@[k]) == key(out@[k]),
                forall|k: int| j <= k < out@.len() ==> key_before(key(x), #[trigger] key(out@[k]), o),
            decreases j,
        {
            assert(key_view(keys@[j - 1]) == key(out@[j - 1]));
            j -= 1;
        }
        proof {
            if j > 0 {
                assert(key_view(keys@[j - 1]) == key(out@[j - 1]));
            }
            lemma_insert_sorted_at(out@, x, key, o, j as int);
            assert(orig.take(m + 1).drop_last() =~= orig.take(m));
            assert(orig.take(m + 1).last() == x);
        }
        let ghost before_keys = keys@;
        let ghost before_out = out@;
        out.insert(j, x);
        keys.insert(j, kx);
        proof {
            assert forall|k: int| 0 <= k < keys@.len() implies key_view(#[trigger] keys@[k]) == key(
                out@[k],
            ) by {
                if k < j {
                    assert(keys@[k] == before_keys[k] && out@[k] == before_out[k]);
                } else if k > j {
                    assert(keys@[k] == before_keys[k - 1] && out@[k] == before_out[k - 1]);
                }
            }
            m = m + 1;
        }
    }
    assert(orig.take(m) =~= orig);
    *items = out;
}

/// The sort key of a page, as a function.
pub open spec fn page_sort_key() -> spec_fn(Page) -> SortKey {
    |p: Page| page_key(p)
}

/// Sorts pages by URL, keeping the order of pages with the same URL.
pub fn sort_pages_by_url(pages: &mut Vec<Page>)
    ensures
        final(pages)@ == stable_sorted(old(pages)@, page_sort_key(), SortOrder::UrlAsc),
{
    let o = SortOrder::UrlAsc;
    let ghost orig = pages@;
    let ghost key = page_sort_key();
    let mut out: Vec<Page> = Vec::new();
    let mut keys: Vec<Key> = Vec::new();
    let ghost mut m: int = 0;
    assert(orig.skip(0) =~= orig);
    while pages.len() > 0
        invariant
            0 <= m <= orig.len(),
            pages@ == orig.skip(m),
            key == page_sort_key(),
            o == SortOrder::UrlAsc,
            out@ == stable_sorted(orig.take(m), key, o),
            keys@.len() == out@.len(),
            forall|k: int| 0 <= k < keys@.len() ==> key_view(#[trigger] keys@[k]) == key(out@[k]),
        decreases pages.len(),
    {
        assert(orig.skip(m)[0] == orig[m]);
        let x = pages.remove(0);
        assert(orig.skip(m).remove(0) =~= orig.skip(m + 1));
        let kx = page_fields(&x);
        let mut j: usize = out.len();
        while j > 0 && key_less(&kx, &keys[j - 1], o)
            invariant
                j <= out@.len(),
                keys@.len() == out@.len(),
                key == page_sort_key(),
                key_view(kx) == key(x),
                forall|k: int| 0 <= k < keys@.len() ==> key_view(#[trigger] keys@[k]) == key(out@[k]),
                forall|k: int| j <= k < out@.len() ==> key_before(key(x), #[trigger] key(out@[k]), o),
            decreases j,
        {
            assert(key_view(keys@[j - 1]) == key(out@[j - 1]));
            j -= 1;
        }
        proof {
            if j > 0 {
                assert(key_view(keys@[j - 1]) == key(out@[j - 1]));
            }
            lemma_insert_sorted_at(out@, x, key, o, j as int);
            assert(orig.take(m + 1).drop_last() =~= orig.take(m));
            assert(orig.take(m + 1).last() == x);
        }
        let ghost before_keys = keys@;
        let ghost before_out = out@;
        out.insert(j, x);
        keys.insert(j, kx);
        proof {
            assert forall|k: int| 0 <= k < keys@.len() implies key_view(#[trigger] keys@[k]) == key(
                out@[k],
            ) by {
                if k < j {
                    assert(keys@[k] == before_keys[k] && out@[k] == before_out[k]);
                } else if k > j {
                    assert(keys@[k] == before_keys[k - 1] && out@[k] == before_out[k - 1]);
                }
            }
            m = m + 1;
        }
    }
    assert(orig.take(m) =~= orig);
    *pages = out;
}

// ---------------------------------------------------------------------------
// Previous and next links
// ---------------------------------------------------------------------------

/// The positions of the pages of section `s`, in page order.
pub open spec fn section_positions(pages: Seq<Page>, s: Seq<char>) -> Seq<int>
    decreases pages.len(),
{
    if pages.len() == 0 {
        Seq::<int>::empty()
    } else {
        let prev = section_positions(pages.drop_last(), s);
        if pages.last().section@ == s {
            prev.push(pages.len() - 1)
        } else {
            prev
        }
    }
}

/// The key of the page at a position, as a function.
pub open spec fn position_key(pages: Seq<Page>) -> spec_fn(int) -> SortKey {
    |i: int| page_key(pages[i])
}

/// The order section `s` lists its pages in: that of the `sort_by` of its
/// metadata, else newest first.
pub open spec fn section_sort(meta: Seq<(String, FrontMatter)>, s: Seq<char>) -> SortOrder {
    let m = keyed_map(keyed(meta));
    if m.contains_key(s) && m[s].sort_by is Some {
        sort_order_of(m[s].sort_by->0@)
    } else {
        SortOrder::DateDesc
    }
}

/// The positions of the pages of section `s` in the order the section
/// lists them.
pub open spec fn section_listing(pages: Seq<Page>, meta: Seq<(String, FrontMatter)>, s: Seq<char>) -> Seq<int> {
    stable_sorted(section_positions(pages, s), position_key(pages), section_sort(meta, s))
}

/// Page `p` linked to the page before it and the page after it, where
/// there is one: the link takes that page's URL and title.
pub open spec fn linked(p: Page, prev: Option<Page>, next: Option<Page>) -> Page {
    let with_prev = match prev {
        Some(q) => Page { prev_url: Some(q.url), prev_title: Some(q.title), ..p },
        None => p,
    };
    match next {
        Some(q) => Page { next_url: Some(q.url), next_title: Some(q.title), ..with_prev },
        None => with_prev,
    }
}

proof fn lemma_section_positions(pages: Seq<Page>, s: Seq<char>)
    ensures
        forall|k: int|
            0 <= k < section_positions(pages, s).len() ==> 0 <= #[trigger] section_positions(
                pages,
                s,
            )[k] < pages.len() && pages[section_positions(pages, s)[k]].section@ == s,
        forall|k: int, q: int|
            0 <= k < q < section_positions(pages, s).len() ==> #[trigger] section_positions(
                pages,
                s,
            )[k] < #[trigger] section_positions(pages, s)[q],
        forall|i: int|
            0 <= i < pages.len() && pages[i].section@ == s ==> #[trigger] section_positions(
                pages,
                s,
            ).contains(i),
    decreases pages.len(),
{
    if pages.len() > 0 {
        let d = pages.drop_last();
        lemma_section_positions(d, s);
        let prev = section_positions(d, s);
        assert forall|i: int| 0 <= i < pages.len() && pages[i].section@ == s implies #[trigger] section_positions(
            pages,
            s,
        ).contains(i) by {
            if i < d.len() {
                assert(d[i] == pages[i]);
                assert(prev.contains(i));
                let w = choose|w: int| 0 <= w < prev.len() && prev[w] == i;
                if pages.last().section@ == s {
                    assert(prev.push(pages.len() - 1)[w] == i);
                }
            } else {
                assert(pages.last() == pages[i]);
                assert(prev.push(pages.len() - 1)[prev.len() as int] == i);
            }
        }
        assert forall|k: int| 0 <= k < prev.len() implies pages[#[trigger] prev[k]].section@ == s by {
            assert(d[prev[k]] == pages[prev[k]]);
        }
    }
}

/// Every page stands in the listing of its own section, once; the
/// listing of a section holds nothing else.
pub proof fn lemma_section_listing(pages: Seq<Page>, meta: Seq<(String, FrontMatter)>, s: Seq<char>)
    ensures
        section_listing(pages, meta, s).no_duplicates(),
        forall|k: int|
            0 <= k < section_listing(pages, meta, s).len() ==> 0 <= #[trigger] section_listing(
                pages,
                meta,
                s,
            )[k] < pages.len() && pages[section_listing(pages, meta, s)[k]].section@ == s,
        forall|i: int|
            0 <= i < pages.len() && pages[i].section@ == s ==> #[trigger] section_listing(
                pages,
                meta,
                s,
            ).contains(i),
{
    broadcast use vstd::seq_lib::to_multiset_contains;

    let p = section_positions(pages, s);
    let l = section_listing(pages, meta, s);
    lemma_section_positions(pages, s);
    lemma_stable_sorted(p, position_key(pages), section_sort(meta, s));
    assert(p.no_duplicates()) by {
        assert forall|a: int, b: int| 0 <= a < p.len() && 0 <= b < p.len() && a != b implies p[a]
            != p[b] by {
            if a < b {
                assert(p[a] < p[b]);
            } else {
                assert(p[b] < p[a]);
            }
        }
    }
    p.lemma_multiset_has_no_duplicates();
    assert forall|x: int| l.to_multiset().contains(x) implies l.to_multiset().count(x) == 1 by {
        assert(p.to_multiset().contains(x));
    }
    l.lemma_multiset_has_no_duplicates_conv();
    assert forall|k: int| 0 <= k < l.len() implies 0 <= #[trigger] l[k] < pages.len()
        && pages[l[k]].section@ == s by {
        assert(l.contains(l[k]));
        assert(l.to_multiset().count(l[k]) > 0);
        assert(p.contains(l[k]));
        let w = choose|w: int| 0 <= w < p.len() && p[w] == l[k];
        assert(p[w] == l[k]);
    }
    assert forall|i: int| 0 <= i < pages.len() && pages[i].section@ == s implies #[trigger] l.contains(i) by {
        assert(p.contains(i));
        assert(p.to_multiset().count(i) > 0);
    }
}

/// The position of the entry that holds the value for `name` in a keyed
/// list: its last entry for `name`.
pub(crate) fn find_keyed<V>(table: &Vec<(String, V)>, name: &String) -> (r: Option<usize>)
    ensures
        match r {
            Some(i) => i < table@.len() && keyed_map(keyed(table@)).contains_key(name@)
                && keyed_map(keyed(table@))[name@] == table@[i as int].1,
            None => !keyed_map(keyed(table@)).contains_key(name@),
        },
{
    let ghost t = keyed(table@);
    let key = chars_of(name.as_str());
    let mut i: usize = table.len();
    assert(t.take(i as int) =~= t);
    while i > 0
        invariant
            i <= table@.len(),
            t == keyed(table@),
            key@ == name@,
            keyed_map(t).contains_key(name@) == keyed_map(t.take(i as int)).contains_key(name@),
            keyed_map(t).contains_key(name@) ==> keyed_map(t)[name@] == keyed_map(
                t.take(i as int),
            )[name@],
        decreases i,
    {
        let entry = chars_of(table[i - 1].0.as_str());
        assert(t[i - 1] == (table@[i - 1].0@, table@[i - 1].1));
        assert(t.take(i as int).drop_last() =~= t.take(i - 1));
        assert(t.take(i as int).last() == t[i - 1]);
        if vec_eq(&entry, &key) {
            return Some(i - 1);
        }
        i -= 1;
    }
    None
}

/// The order section `s` lists its pages in.
pub(crate) fn section_order(meta: &Vec<(String, FrontMatter)>, s: &String) -> (r: SortOrder)
    ensures
        r == section_sort(meta@, s@),
{
    match find_keyed(meta, s) {
        Some(i) => match &meta[i].1.sort_by {
            Some(x) => sort_order(x.as_str()),
            None => SortOrder::DateDesc,
        },
        None => SortOrder::DateDesc,
    }
}

/// The positions of the pages of section `s` in listing order.
fn listing_of(pages: &Vec<Page>, keys: &Vec<Key>, meta: &Vec<(String, FrontMatter)>, s: &String) -> (ord: Vec<usize>)
    requires
        keys@.len() == pages@.len(),
        forall|k: int| 0 <= k < keys@.len() ==> key_view(#[trigger] keys@[k]) == page_key(pages@[k]),
    ensures
        ord@.map_values(|v: usize| v as int) == section_listing(pages@, meta@, s@),
        forall|k: int| 0 <= k < ord@.len() ==> #[trigger] ord@[k] < pages@.len(),
{
    let o = section_order(meta, s);
    let target = chars_of(s.as_str());
    let mut g: Vec<usize> = Vec::new();
    let mut i: usize = 0;
    while i < pages.len()
        invariant
            i <= pages@.len(),
            target@ == s@,
            g@.map_values(|v: usize| v as int) == section_positions(pages@.take(i as int), s@),
            forall|k: int| 0 <= k < g@.len() ==> #[trigger] g@[k] < i,
        decreases pages.len() - i,
    {
        assert(pages@.take(i + 1).drop_last() =~= pages@.take(i as int));
        assert(pages@.take(i + 1).last() == pages@[i as int]);
        let ghost before = g@.map_values(|v: usize| v as int);
        let sec = chars_of(pages[i].section.as_str());
        if vec_eq(&sec, &target) {
            g.push(i);
            assert(g@.map_values(|v: usize| v as int) =~= before.push(i as int));
        }
        i += 1;
    }
    assert(pages@.take(pages@.len() as int) =~= pages@);
    let ord = sort_positions(&keys, &g, o, Ghost(position_key(pages@)));
    ord
}

/// `positions` sorted stably by the keys of the positions, in order `o`.
pub(crate) fn sort_positions(
    keys: &Vec<Key>,
    positions: &Vec<usize>,
    o: SortOrder,
    Ghost(key): Ghost<spec_fn(int) -> SortKey>,
) -> (ord: Vec<usize>)
    requires
        forall|k: int| 0 <= k < keys@.len() ==> key_view(#[trigger] keys@[k]) == key(k),
        forall|k: int| 0 <= k < positions@.len() ==> #[trigger] positions@[k] < keys@.len(),
    ensures
        ord@.map_values(|v: usize| v as int) == stable_sorted(
            positions@.map_values(|v: usize| v as int),
            key,
            o,
        ),
        forall|k: int| 0 <= k < ord@.len() ==> #[trigger] ord@[k] < keys@.len(),
{
    let ghost ps = positions@.map_values(|v: usize| v as int);
    let mut ord: Vec<usize> = Vec::new();
    let mut m: usize = 0;
    while m < positions.len()
        invariant
            m <= positions@.len(),
            forall|k: int| 0 <= k < keys@.len() ==> key_view(#[trigger] keys@[k]) == key(k),
            ps == positions@.map_values(|v: usize| v as int),
            forall|k: int| 0 <= k < positions@.len() ==> #[trigger] positions@[k] < keys@.len(),
            forall|k: int| 0 <= k < ord@.len() ==> #[trigger] ord@[k] < keys@.len(),
            ord@.map_values(|v: usize| v as int) == stable_sorted(ps.take(m as int), key, o),
        decreases positions.len() - m,
    {
        let x = positions[m];
        let ghost before = ord@.map_values(|v: usize| v as int);
        let mut j: usize = ord.len();
        while j > 0 && key_less(&keys[x], &keys[ord[j - 1]], o)
            invariant
                j <= ord@.len(),
                x < keys@.len(),
                forall|k: int| 0 <= k < keys@.len() ==> key_view(#[trigger] keys@[k]) == key(k),
                before == ord@.map_values(|v: usize| v as int),
                forall|k: int| 0 <= k < ord@.len() ==> #[trigger] ord@[k] < keys@.len(),
                forall|k: int| j <= k < before.len() ==> key_before(key(x as int), #[trigger] key(before[k]), o),
            decreases j,
        {
            assert(before[j - 1] == ord@[j - 1] as int);
            j -= 1;
        }
        proof {
            if j > 0 {
                assert(before[j - 1] == ord@[j - 1] as int);
            }
            lemma_insert_sorted_at(before, x as int, key, o, j as int);
            assert(ps.take(m + 1).drop_last() =~= ps.take(m as int));
            assert(ps.take(m + 1).last() == x as int);
        }
        ord.insert(j, x);
        assert(ord@.map_values(|v: usize| v as int) =~= before.insert(j as int, x as int));
        m += 1;
    }
    assert(ps.take(positions@.len() as int) =~= ps);
    ord
}

/// Page number `k` of listing `l` linked to its neighbours in the listing.
pub open spec fn listed_page(pages: Seq<Page>, l: Seq<int>, k: int) -> Page {
    linked(
        pages[l[k]],
        if k > 0 {
            Some(pages[l[k - 1]])
        } else {
            None
        },
        if k + 1 < l.len() {
            Some(pages[l[k + 1]])
        } else {
            None
        },
    )
}

spec fn opt_pos(o: Option<usize>) -> Option<int> {
    match o {
        Some(j) => Some(j as int),
        None => None,
    }
}

spec fn neighbour(pages: Seq<Page>, o: Option<usize>) -> Option<Page> {
    match o {
        Some(j) => Some(pages[j as int]),
        None => None,
    }
}

/// The recorded neighbours of position `k` of listing `l` are those of
/// the listing.
spec fn neighbours_recorded(prev: Seq<Option<usize>>, next: Seq<Option<usize>>, l: Seq<int>, k: int) -> bool {
    &&& opt_pos(prev[l[k]]) == (if k > 0 {
        Some(l[k - 1])
    } else {
        None
    })
    &&& opt_pos(next[l[k]]) == (if k + 1 < l.len() {
        Some(l[k + 1])
    } else {
        None
    })
}

/// Links each page to the pages before and after it in the listing of
/// its section (see `section_listing`). A page first in its listing
/// keeps its previous link, one last keeps its next link; nothing else
/// of a page changes.
pub fn assign_prev_next(pages: &mut Vec<Page>, section_meta: &Vec<(String, FrontMatter)>)
    ensures
        final(pages)@.len() == old(pages)@.len(),
        forall|s: Seq<char>, k: int|
            0 <= k < section_listing(old(pages)@, section_meta@, s).len() ==> final(pages)@[#[trigger] section_listing(
                old(pages)@,
                section_meta@,
                s,
            )[k]] == listed_page(old(pages)@, section_listing(old(pages)@, section_meta@, s), k),
        forall|i: int|
            0 <= i < old(pages)@.len() ==> #[trigger] section_listing(
                old(pages)@,
                section_meta@,
                old(pages)@[i].section@,
            ).contains(i),
{
    let ghost old_pages = pages@;
    let ghost meta = section_meta@;
    let n = pages.len();
    let mut keys: Vec<Key> = Vec::new();
    let mut prev_of: Vec<Option<usize>> = Vec::new();
    let mut next_of: Vec<Option<usize>> = Vec::new();
    let mut i: usize = 0;
    while i < n
        invariant
            i <= n,
            n == pages@.len(),
            keys@.len() == i,
            prev_of@.len() == i,
            next_of@.len() == i,
            forall|k: int| 0 <= k < i ==> key_view(#[trigger] keys@[k]) == page_key(pages@[k]),
            forall|k: int| 0 <= k < i ==> #[trigger] prev_of@[k] is None,
            forall|k: int| 0 <= k < i ==> #[trigger] next_of@[k] is None,
        decreases n - i,
    {
        keys.push(page_fields(&pages[i]));
        prev_of.push(None);
        next_of.push(None);
        i += 1;
    }
    let mut done: Vec<String> = Vec::new();
    i = 0;
    while i < n
        invariant
            i <= n,
            n == old_pages.len(),
            pages@ == old_pages,
            meta == section_meta@,
            keys@.len() == n,
            forall|k: int| 0 <= k < n ==> key_view(#[trigger] keys@[k]) == page_key(pages@[k]),
            prev_of@.len() == n,
            next_of@.len() == n,
            forall|k: int| 0 <= k < n ==> (#[trigger] prev_of@[k] matches Some(j) ==> j < n),
            forall|k: int| 0 <= k < n ==> (#[trigger] next_of@[k] matches Some(j) ==> j < n),
            forall|k: int| 0 <= k < i ==> string_views(done@).contains(#[trigger] old_pages[k].section@),
            forall|k: int|
                0 <= k < n && !string_views(done@).contains(#[trigger] old_pages[k].section@)
                    ==> prev_of@[k] is None && next_of@[k] is None,
            forall|s: Seq<char>, q: int|
                #![trigger section_listing(old_pages, meta, s)[q]]
                string_views(done@).contains(s) && 0 <= q < section_listing(old_pages, meta, s).len()
                    ==> neighbours_recorded(prev_of@, next_of@, section_listing(old_pages, meta, s), q),
        decreases n - i,
    {
        if !crate::feed::has_section(&done, &pages[i].section) {
            let s = pages[i].section.clone();
            let ord = listing_of(pages, &keys, section_meta, &s);
            let ghost l = section_listing(old_pages, meta, s@);
            let ghost prev0 = prev_of@;
            let ghost next0 = next_of@;
            proof {
                lemma_section_listing(old_pages, meta, s@);
            }
            let mut p: usize = 0;
            while p < ord.len()
                invariant
                    p <= ord@.len(),
                    n == old_pages.len(),
                    ord@.map_values(|v: usize| v as int) == l,
                    l == section_listing(old_pages, meta, s@),
                    l.no_duplicates(),
                    forall|k: int| 0 <= k < l.len() ==> 0 <= #[trigger] l[k] < n && old_pages[l[k]].section@ == s@,
                    prev_of@.len() == n,
                    next_of@.len() == n,
                    forall|k: int| 0 <= k < n ==> (#[trigger] prev_of@[k] matches Some(j) ==> j < n),
                    forall|k: int| 0 <= k < n ==> (#[trigger] next_of@[k] matches Some(j) ==> j < n),
                    forall|q: int| 0 <= q < p ==> neighbours_recorded(prev_of@, next_of@, l, q),
                    forall|k: int|
                        0 <= k < n && old_pages[k].section@ != s@ ==> #[trigger] prev_of@[k] == prev0[k]
                            && next_of@[k] == next0[k],
                decreases ord.len() - p,
            {
                let at = ord[p];
                assert(l[p as int] == at as int);
                let before_p = if p > 0 {
                    Some(ord[p - 1])
                } else {
                    None
                };
                let after_p = if p + 1 < ord.len() {
                    Some(ord[p + 1])
                } else {
                    None
                };
                proof {
                    if p > 0 {
                        assert(l[p - 1] == ord@[p - 1] as int);
                    }
                    if p + 1 < ord.len() {
                        assert(l[p + 1] == ord@[p + 1] as int);
                    }
                }
                let ghost prev1 = prev_of@;
                let ghost next1 = next_of@;
                prev_of.set(at, before_p);
                next_of.set(at, after_p);
                assert forall|q: int| 0 <= q < p + 1 implies neighbours_recorded(
                    prev_of@,
                    next_of@,
                    l,
                    q,
                ) by {
                    if q < p {
                        assert(l[q] != l[p as int]);
                        assert(neighbours_recorded(prev1, next1, l, q));
                    }
                }
                p += 1;
            }
            let ghost d0 = string_views(done@);
            done.push(s);
            proof {
                let d1 = string_views(done@);
                assert(d1 =~= d0.push(s@));
                assert forall|x: Seq<char>| d0.contains(x) implies d1.contains(x) by {
                    let w = choose|w: int| 0 <= w < d0.len() && d0[w] == x;
                    assert(d1[w] == x);
                }
                assert(d1[d0.len() as int] == s@);
                assert forall|s2: Seq<char>, q: int|
                    #![trigger section_listing(old_pages, meta, s2)[q]]
                    d1.contains(s2) && 0 <= q < section_listing(old_pages, meta, s2).len()
                        implies neighbours_recorded(prev_of@, next_of@, section_listing(old_pages, meta, s2), q) by {
                    if s2 != s@ {
                        let l2 = section_listing(old_pages, meta, s2);
                        lemma_section_listing(old_pages, meta, s2);
                        assert(d0.contains(s2)) by {
                            let w = choose|w: int| 0 <= w < d1.len() && d1[w] == s2;
                            if w < d0.len() {
                                assert(d0[w] == s2);
                            }
                        }
                        assert(old_pages[l2[q]].section@ == s2);
                        assert(neighbours_recorded(prev0, next0, l2, q));
                    }
                }
                assert forall|k: int|
                    0 <= k < n && !d1.contains(#[trigger] old_pages[k].section@) implies prev_of@[k] is None
                        && next_of@[k] is None by {
                    assert(!d0.contains(old_pages[k].section@));
                    if old_pages[k].section@ == s@ {
                        assert(d1.contains(s@));
                    }
                }
            }
        }
        proof {
            assert(string_views(done@).contains(old_pages[i as int].section@));
        }
        i += 1;
    }
    proof {
        assert forall|s: Seq<char>, q: int|
            #![trigger section_listing(old_pages, meta, s)[q]]
            0 <= q < section_listing(old_pages, meta, s).len() implies neighbours_recorded(prev_of@, next_of@, section_listing(old_pages, meta, s), q) by {
            lemma_section_listing(old_pages, meta, s);
            let l = section_listing(old_pages, meta, s);
            assert(old_pages[l[q]].section@ == s);
            assert(string_views(done@).contains(s));
        }
    }
    // Move the pages over, setting their links.
    let mut urls: Vec<String> = Vec::new();
    let mut titles: Vec<String> = Vec::new();
    let mut k: usize = 0;
    while k < n
        invariant
            k <= n,
            n == pages@.len(),
            urls@.len() == k,
            titles@.len() == k,
            forall|q: int| 0 <= q < k ==> #[trigger] urls@[q] == pages@[q].url,
            forall|q: int| 0 <= q < k ==> #[trigger] titles@[q] == pages@[q].title,
        decreases n - k,
    {
        let u = pages[k].url.clone();
        let t = pages[k].title.clone();
        urls.push(u);
        titles.push(t);
        k += 1;
    }
    let mut rest: Vec<Page> = Vec::new();
    std::mem::swap(&mut rest, pages);
    let mut out: Vec<Page> = Vec::new();
    k = 0;
    assert(old_pages.skip(0) =~= old_pages);
    while k < n
        invariant
            k <= n,
            n == old_pages.len(),
            rest@ == old_pages.skip(k as int),
            urls@.len() == n,
            titles@.len() == n,
            forall|q: int| 0 <= q < n ==> #[trigger] urls@[q] == old_pages[q].url,
            forall|q: int| 0 <= q < n ==> #[trigger] titles@[q] == old_pages[q].title,
            prev_of@.len() == n,
            next_of@.len() == n,
            forall|q: int| 0 <= q < n ==> (#[trigger] prev_of@[q] matches Some(j) ==> j < n),
            forall|q: int| 0 <= q < n ==> (#[trigger] next_of@[q] matches Some(j) ==> j < n),
            out@.len() == k,
            forall|q: int|
                0 <= q < k ==> #[trigger] out@[q] == linked(
                    old_pages[q],
                    neighbour(old_pages, prev_of@[q]),
                    neighbour(old_pages, next_of@[q]),
                ),
        decreases n - k,
    {
        assert(old_pages.skip(k as int)[0] == old_pages[k as int]);
        let mut pg = rest.remove(0);
        assert(old_pages.skip(k as int).remove(0) =~= old_pages.skip(k + 1));
        let ghost with_prev = match prev_of@[k as int] {
            Some(j) => Page {
                prev_url: Some(old_pages[j as int].url),
                prev_title: Some(old_pages[j as int].title),
                ..old_pages[k as int]
            },
            None => old_pages[k as int],
        };
        match prev_of[k] {
            Some(j) => {
                pg.prev_url = Some(urls[j].clone());
                pg.prev_title = Some(titles[j].clone());
            },
            None => {},
        }
        assert(pg == with_prev);
        match next_of[k] {
            Some(j) => {
                pg.next_url = Some(urls[j].clone());
                pg.next_title = Some(titles[j].clone());
            },
            None => {},
        }
        out.push(pg);
        k += 1;
    }
    proof {
        assert forall|s: Seq<char>, q: int|
            0 <= q < section_listing(old_pages, meta, s).len() implies out@[#[trigger] section_listing(
                old_pages,
                meta,
                s,
            )[q]] == listed_page(old_pages, section_listing(old_pages, meta, s), q) by {
            lemma_section_listing(old_pages, meta, s);
            let l = section_listing(old_pages, meta, s);
            assert(neighbours_recorded(prev_of@, next_of@, l, q));
            if q > 0 {
                assert(0 <= l[q - 1] < n);
            }
            if q + 1 < l.len() {
                assert(0 <= l[q + 1] < n);
            }
        }
        assert forall|j: int| 0 <= j < n implies #[trigger] section_listing(
            old_pages,
            meta,
            old_pages[j].section@,
        ).contains(j) by {
            lemma_section_listing(old_pages, meta, old_pages[j].section@);
        }
    }
    *pages = out;
}

} // verus!
