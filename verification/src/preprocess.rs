//! Page bodies before compilation: shortcodes expanded, internal links
//! resolved, and an HTML anchor put before each heading, with the table of
//! contents that lists the headings under ids that never repeat.
use vstd::prelude::*;

use crate::links::{fence_line, is_fence_line, resolve_internal_links, resolve_lines, LinkMap};
use crate::markup::{heading_of, parse_heading};
use crate::model::TocItem;
use crate::script::string_views;
use crate::shortcode::{expand_shortcodes, expanded_of};
use crate::text::{chars_of, lines, lines_vec, push_char, push_chars, string_of, vec_eq, views};
use crate::url::{decimal, digit_char, usize_to_decimal};
use crate::util::{slug_of, slugify, typst_string, typst_string_of};

verus! {

broadcast use vstd::string::group_string_axioms;

/// The decimal text of a number never ends before its last digit: it is
/// never empty.
proof fn lemma_decimal_nonempty(n: nat)
    ensures
        decimal(n).len() >= 1,
        n >= 10 ==> decimal(n).len() >= 2,
    decreases n,
{
    if n >= 10 {
        lemma_decimal_nonempty(n / 10);
    }
}

/// Different numbers have different decimal texts.
pub proof fn lemma_decimal_injective(a: nat, b: nat)
    requires
        decimal(a) == decimal(b),
    ensures
        a == b,
    decreases a,
{
    lemma_decimal_nonempty(a);
    lemma_decimal_nonempty(b);
    if a < 10 && b < 10 {
        assert(decimal(a)[0] == digit_char(a));
        assert(decimal(b)[0] == digit_char(b));
        assert(((a + 48) as u32) as char == ((b + 48) as u32) as char);
        assert((((a + 48) as u32) as char) as u32 == (a + 48) as u32);
        assert((((b + 48) as u32) as char) as u32 == (b + 48) as u32);
    } else if a < 10 {
        assert(decimal(a).len() == 1);
    } else if b < 10 {
        assert(decimal(b).len() == 1);
    } else {
        let da = decimal(a / 10);
        let db = decimal(b / 10);
        assert(decimal(a) == da.push(digit_char(a % 10)));
        assert(decimal(b) == db.push(digit_char(b % 10)));
        assert(da =~= decimal(a).drop_last());
        assert(db =~= decimal(b).drop_last());
        lemma_decimal_injective(a / 10, b / 10);
        let x = a % 10;
        let y = b % 10;
        assert(decimal(a).last() == digit_char(x));
        assert(decimal(b).last() == digit_char(y));
        assert(digit_char(x) == digit_char(y));
        assert((((x + 48) as u32) as char) as u32 == (x + 48) as u32);
        assert((((y + 48) as u32) as char) as u32 == (y + 48) as u32);
    }
}


/// The id `base` numbered `n`: `base-n`.
pub open spec fn numbered_id(base: Seq<char>, n: nat) -> Seq<char> {
    base + seq!['-'] + decimal(n)
}

/// Different numbers give different numbered ids.
proof fn lemma_numbered_id_injective(base: Seq<char>, a: nat, b: nat)
    requires
        numbered_id(base, a) == numbered_id(base, b),
    ensures
        a == b,
{
    let k: int = base.len() as int + 1;
    assert(numbered_id(base, a).skip(k) =~= decimal(a));
    assert(numbered_id(base, b).skip(k) =~= decimal(b));
    lemma_decimal_injective(a, b);
}

/// The ids `base-lo` up to `base-(hi - 1)`.
pub open spec fn numbered_ids(base: Seq<char>, lo: nat, hi: nat) -> Set<Seq<char>>
    decreases hi,
{
    if hi <= lo {
        Set::empty()
    } else {
        numbered_ids(base, lo, (hi - 1) as nat).insert(numbered_id(base, (hi - 1) as nat))
    }
}

proof fn lemma_numbered_ids(base: Seq<char>, lo: nat, hi: nat)
    ensures
        numbered_ids(base, lo, hi).finite(),
        numbered_ids(base, lo, hi).len() == if hi <= lo { 0 } else { hi - lo },
        forall|x: Seq<char>| #[trigger]
            numbered_ids(base, lo, hi).contains(x) <==> exists|k: nat|
                lo <= k < hi && x == numbered_id(base, k),
    decreases hi,
{
    if hi > lo {
        let h = (hi - 1) as nat;
        lemma_numbered_ids(base, lo, h);
        let prev = numbered_ids(base, lo, h);
        if prev.contains(numbered_id(base, h)) {
            let k = choose|k: nat| lo <= k < h && numbered_id(base, h) == numbered_id(base, k);
            lemma_numbered_id_injective(base, h, k);
        }
        assert forall|x: Seq<char>| #[trigger]
            numbered_ids(base, lo, hi).contains(x) <==> exists|k: nat|
                lo <= k < hi && x == numbered_id(base, k) by {
            if numbered_ids(base, lo, hi).contains(x) && x != numbered_id(base, h) {
                assert(prev.contains(x));
                let k = choose|k: nat| lo <= k < h && x == numbered_id(base, k);
                assert(lo <= k < hi && x == numbered_id(base, k));
            }
            if exists|k: nat| lo <= k < hi && x == numbered_id(base, k) {
                let k = choose|k: nat| lo <= k < hi && x == numbered_id(base, k);
                if k < h {
                    assert(prev.contains(x));
                }
            }
        }
    }
}

/// A list that holds the ids `base-lo` up to `base-(hi - 1)` is at least
/// that long.
proof fn lemma_numbered_ids_fit(base: Seq<char>, used: Seq<Seq<char>>, lo: nat, hi: nat)
    requires
        lo <= hi,
        forall|k: nat| lo <= k < hi ==> used.contains(#[trigger] numbered_id(base, k)),
    ensures
        hi - lo <= used.len(),
{
    lemma_numbered_ids(base, lo, hi);
    let s = numbered_ids(base, lo, hi);
    assert(s.subset_of(used.to_set())) by {
        assert forall|x: Seq<char>| s.contains(x) implies used.to_set().contains(x) by {
            let k = choose|k: nat| lo <= k < hi && x == numbered_id(base, k);
            assert(used.contains(numbered_id(base, k)));
        }
    }
    vstd::seq_lib::seq_to_set_is_finite(used);
    vstd::set_lib::lemma_len_subset(s, used.to_set());
    used.lemma_cardinality_of_set();
}

/// The first number from `n` on whose id `used` does not hold, looking no
/// further than `used.len() + 2`.
pub open spec fn free_number(base: Seq<char>, used: Seq<Seq<char>>, n: nat) -> nat
    decreases used.len() + 2 - n,
{
    if n >= used.len() + 2 || !used.contains(numbered_id(base, n)) {
        n
    } else {
        free_number(base, used, n + 1)
    }
}

proof fn lemma_free_number(base: Seq<char>, used: Seq<Seq<char>>, n: nat)
    ensures
        n <= free_number(base, used, n),
        forall|k: nat|
            n <= k < free_number(base, used, n) ==> used.contains(#[trigger] numbered_id(base, k)),
        free_number(base, used, n) < used.len() + 2 ==> !used.contains(
            numbered_id(base, free_number(base, used, n)),
        ),
        n <= used.len() + 2 ==> free_number(base, used, n) <= used.len() + 2,
    decreases used.len() + 2 - n,
{
    if !(n >= used.len() + 2 || !used.contains(numbered_id(base, n))) {
        lemma_free_number(base, used, n + 1);
    }
}

/// The anchor id of a heading whose slug is `base`, given the ids taken
/// before it: the slug itself when it is free, else the slug numbered
/// with the first free number from 2.
pub open spec fn unique_id(base: Seq<char>, used: Seq<Seq<char>>) -> Seq<char> {
    if !used.contains(base) {
        base
    } else {
        numbered_id(base, free_number(base, used, 2))
    }
}

/// The id of a heading is never one taken before it, and a numbered id
/// uses the first free number from 2.
pub proof fn lemma_unique_id(base: Seq<char>, used: Seq<Seq<char>>)
    ensures
        !used.contains(unique_id(base, used)),
        used.contains(base) ==> forall|k: nat|
            2 <= k < free_number(base, used, 2) ==> used.contains(#[trigger] numbered_id(base, k)),
{
    if used.contains(base) {
        lemma_free_number(base, used, 2);
        let n = free_number(base, used, 2);
        if n >= used.len() + 2 && used.contains(numbered_id(base, n)) {
            assert forall|k: nat| 2 <= k < n + 1 implies used.contains(
                #[trigger] numbered_id(base, k),
            ) by {
                if k < n {
                } else {
                    assert(k == n);
                }
            }
            lemma_numbered_ids_fit(base, used, 2, n + 1);
        }
    }
}


/// With the slug itself taken too, a list that holds the ids `base-lo` up
/// to `base-(hi - 1)` is longer than their count.
proof fn lemma_numbered_ids_fit_with_base(base: Seq<char>, used: Seq<Seq<char>>, lo: nat, hi: nat)
    requires
        lo <= hi,
        used.contains(base),
        forall|k: nat| lo <= k < hi ==> used.contains(#[trigger] numbered_id(base, k)),
    ensures
        hi - lo + 1 <= used.len(),
{
    lemma_numbered_ids(base, lo, hi);
    let ids = numbered_ids(base, lo, hi);
    if ids.contains(base) {
        let k = choose|k: nat| lo <= k < hi && base == numbered_id(base, k);
        assert(numbered_id(base, k).len() > base.len());
    }
    let s = ids.insert(base);
    assert(s.len() == ids.len() + 1);
    assert(s.subset_of(used.to_set())) by {
        assert forall|x: Seq<char>| s.contains(x) implies used.to_set().contains(x) by {
            if x != base {
                let k = choose|k: nat| lo <= k < hi && x == numbered_id(base, k);
                assert(used.contains(numbered_id(base, k)));
            }
        }
    }
    vstd::seq_lib::seq_to_set_is_finite(used);
    vstd::set_lib::lemma_len_subset(s, used.to_set());
    used.lemma_cardinality_of_set();
}

/// Whether `used` holds the text `s`.
fn holds(used: &Vec<String>, s: &Vec<char>) -> (r: bool)
    ensures
        r == string_views(used@).contains(s@),
{
    let ghost uv = string_views(used@);
    let mut i: usize = 0;
    while i < used.len()
        invariant
            i <= used.len(),
            uv == string_views(used@),
            forall|j: int| 0 <= j < i ==> uv[j] != s@,
        decreases used.len() - i,
    {
        if vec_eq(&chars_of(used[i].as_str()), s) {
            assert(uv[i as int] == s@);
            return true;
        }
        i += 1;
    }
    false
}

/// `base-n` as characters.
fn numbered_id_vec(base: &Vec<char>, n: usize) -> (r: Vec<char>)
    ensures
        r@ == numbered_id(base@, n as nat),
{
    let mut out: Vec<char> = Vec::new();
    let mut i: usize = 0;
    while i < base.len()
        invariant
            i <= base.len(),
            out@ == base@.take(i as int),
        decreases base.len() - i,
    {
        out.push(base[i]);
        assert(base@.take(i + 1) =~= base@.take(i as int).push(base@[i as int]));
        i += 1;
    }
    assert(base@.take(base.len() as int) =~= base@);
    out.push('-');
    let digits = usize_to_decimal(n);
    let ghost head = out@;
    let mut k: usize = 0;
    while k < digits.len()
        invariant
            k <= digits.len(),
            out@ == head + digits@.take(k as int),
        decreases digits.len() - k,
    {
        out.push(digits[k]);
        assert(digits@.take(k + 1) =~= digits@.take(k as int).push(digits@[k as int]));
        k += 1;
    }
    assert(digits@.take(digits.len() as int) =~= digits@);
    out
}

/// The anchor id for a heading whose slug is `base`, given the ids taken.
fn unique_heading_id(base: &Vec<char>, used: &Vec<String>) -> (r: Vec<char>)
    requires
        used.len() < usize::MAX,
    ensures
        r@ == unique_id(base@, string_views(used@)),
{
    let ghost uv = string_views(used@);
    if !holds(used, base) {
        return crate::text::copy_chars(base);
    }
    let mut n: usize = 2;
    proof {
        lemma_free_number(base@, uv, 2);
    }
    while n - 2 < used.len() && holds(used, &numbered_id_vec(base, n))
        invariant
            2 <= n,
            n <= used.len() + 1,
            used.len() < usize::MAX,
            uv == string_views(used@),
            uv.contains(base@),
            forall|k: nat| 2 <= k < n ==> uv.contains(#[trigger] numbered_id(base@, k)),
            free_number(base@, uv, 2) == free_number(base@, uv, n as nat),
        decreases used.len() + 2 - n,
    {
        assert(uv.contains(numbered_id(base@, n as nat)));
        proof {
            assert forall|k: nat| 2 <= k < n + 1 implies uv.contains(#[trigger] numbered_id(base@, k)) by {
                if k == n {
                }
            }
            if n == used.len() + 1 {
                lemma_numbered_ids_fit_with_base(base@, uv, 2, (n + 1) as nat);
            }
        }
        n += 1;
    }
    numbered_id_vec(base, n)
}

/// The line a page body gets before a heading: an HTML anchor with the
/// heading's id, for HTML output only.
pub open spec fn anchor_line(id: Seq<char>) -> Seq<char> {
    "#context { if target() == \"html\" { html.elem(\"a\", attrs: (id: "@ + typst_string_of(id)
        + ", class: \"anchor\"))[] } }\n"@
}

/// The body with heading anchors, the table of contents (level, id, text),
/// the ids taken, and whether a raw block is open, after the lines `ls`.
/// Fence lines open and close raw blocks; headings inside them are text.
pub open spec fn toc_fold(ls: Seq<Seq<char>>) -> (
    Seq<char>,
    Seq<(nat, Seq<char>, Seq<char>)>,
    Seq<Seq<char>>,
    bool,
)
    decreases ls.len(),
{
    if ls.len() == 0 {
        (Seq::<char>::empty(), Seq::empty(), Seq::<Seq<char>>::empty(), false)
    } else {
        let (o, t, used, raw) = toc_fold(ls.drop_last());
        let l = ls.last();
        if is_fence_line(l) {
            (o + l + seq!['\n'], t, used, !raw)
        } else if raw {
            (o + l + seq!['\n'], t, used, raw)
        } else {
            match heading_of(l) {
                Some((level, text)) => {
                    let id = unique_id(slug_of(text), used);
                    (o + anchor_line(id) + l + seq!['\n'], t.push((level, id, text)), used.push(id), raw)
                },
                None => (o + l + seq!['\n'], t, used, raw),
            }
        }
    }
}

/// The table of contents as (level, id, text).
pub open spec fn toc_entries(v: Seq<TocItem>) -> Seq<(nat, Seq<char>, Seq<char>)> {
    v.map_values(|t: TocItem| (t.level as nat, t.id@, t.text@))
}

/// A page body ready for its wrapper: shortcodes expanded, internal links
/// resolved (with the unknown link keys), and, when a table of contents is
/// wanted, an anchor before each heading and the table itself.
pub open spec fn preprocessed_of(body: Seq<char>, m: Map<Seq<char>, Seq<char>>, make_toc: bool) -> (
    Seq<(nat, Seq<char>, Seq<char>)>,
    Seq<char>,
    Seq<Seq<char>>,
) {
    let expanded = expanded_of(body)->0;
    let resolved = resolve_lines(lines(expanded), m);
    if !make_toc {
        (Seq::empty(), resolved.0, resolved.1)
    } else {
        let folded = toc_fold(lines(resolved.0));
        (folded.1, folded.0, resolved.1)
    }
}

/// Prepares a page body for its wrapper: expands shortcodes, resolves
/// internal links, and, when `make_toc` holds, puts an anchor before each
/// heading outside raw blocks and lists the headings. Gives the table of
/// contents, the body and the unknown link keys.
pub fn preprocess_body(body: &str, link_map: &LinkMap, make_toc: bool) -> (r: (
    Vec<TocItem>,
    String,
    Vec<String>,
))
    requires
        expanded_of(body@) is Some,
    ensures
        toc_entries(r.0@) == preprocessed_of(body@, link_map@, make_toc).0,
        r.1@ == preprocessed_of(body@, link_map@, make_toc).1,
        string_views(r.2@) == preprocessed_of(body@, link_map@, make_toc).2,
{
    let mut broken: Vec<String> = Vec::new();
    let expanded = expand_shortcodes(body);
    let resolved = resolve_internal_links(expanded.as_str(), link_map, &mut broken);
    assert(string_views(broken@) =~= preprocessed_of(body@, link_map@, make_toc).2);
    let mut toc: Vec<TocItem> = Vec::new();
    if !make_toc {
        assert(toc_entries(toc@) =~= Seq::<(nat, Seq<char>, Seq<char>)>::empty());
        return (toc, resolved, broken);
    }
    let cs = chars_of(resolved.as_str());
    let ls = lines_vec(&cs);
    let ghost lv = views(ls@);
    let mut used: Vec<String> = Vec::new();
    let mut out = String::new();
    let mut raw = false;
    let mut i: usize = 0;
    assert(toc_entries(toc@) =~= Seq::<(nat, Seq<char>, Seq<char>)>::empty());
    assert(string_views(used@) =~= Seq::<Seq<char>>::empty());
    while i < ls.len()
        invariant
            i <= ls.len(),
            lv == views(ls@),
            lv == lines(resolved@),
            used.len() <= i,
            toc_fold(lv.take(i as int)) == (out@, toc_entries(toc@), string_views(used@), raw),
        decreases ls.len() - i,
    {
        assert(lv.take(i + 1).drop_last() =~= lv.take(i as int));
        assert(lv.take(i + 1).last() == ls@[i as int]@);
        let line = &ls[i];
        if fence_line(line) {
            raw = !raw;
        } else if !raw {
            let line_text = string_of(line);
            match parse_heading(line_text.as_str()) {
                Some((level, text)) => {
                    let base = chars_of(slugify(text.as_str()).as_str());
                    let id = unique_heading_id(&base, &used);
                    let ghost before_used = string_views(used@);
                    let ghost before_toc = toc_entries(toc@);
                    used.push(string_of(&id));
                    assert(string_views(used@) =~= before_used.push(id@));
                    out.append("#context { if target() == \"html\" { html.elem(\"a\", attrs: (id: ");
                    out.append(typst_string(string_of(&id).as_str()).as_str());
                    out.append(", class: \"anchor\"))[] } }\n");
                    toc.push(TocItem { level, id: string_of(&id), text });
                    assert(toc_entries(toc@) =~= before_toc.push((level as nat, id@, text@)));
                },
                None => {},
            }
        }
        push_chars(&mut out, line);
        push_char(&mut out, '\n');
        i += 1;
    }
    assert(lv.take(ls.len() as int) =~= lv);
    (toc, out, broken)
}

} // verus!
