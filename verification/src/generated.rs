//! Pages a build generates itself: the paginated lists of sections and
//! of taxonomy terms.
use vstd::prelude::*;

use crate::config::{
    copy_value, keyed, keyed_map, lemma_meta_keyed_map, meta_keyed, Config, MetaValue, MetaView,
    TaxonomyConfig,
};
use crate::feed::{text_less, text_lt};
use crate::listing::{
    find_keyed, key_view, section_order, section_sort, sort_positions, stable_sorted, summary_fields,
    summary_key, Key, SortKey, SortOrder,
};
use crate::util::{slug_of, slugify};
use crate::model::{copy_strings, opt_text, same_summary, FrontMatter, GeneratedPage, PageSummary};
use crate::script::string_views;
use crate::paths::{join_path, join_path_of};
use crate::text::{chars_of, eq_str, push_chars, strip_char, strip_char_vec, string_of, vec_eq};
use crate::url::{
    decimal, output_path_for_url, output_path_of, paginated_url, paginated_url_of, section_url,
    section_url_of, usize_to_decimal,
};

verus! {

broadcast use vstd::string::group_string_axioms;

// ---------------------------------------------------------------------------
// Pagination
// ---------------------------------------------------------------------------

/// How many items one page of a list holds: `paginate_by` when it is
/// set and not 0, else all of them (at least one).
pub open spec fn page_size_of(count: nat, paginate_by: Option<usize>) -> nat {
    if paginate_by is Some && paginate_by->0 > 0 {
        paginate_by->0 as nat
    } else if count > 0 {
        count
    } else {
        1
    }
}

/// How many pages a list of `count` items takes, `size` to a page; an
/// empty list still has one page.
pub open spec fn page_count_of(count: nat, size: nat) -> nat
    recommends
        size > 0,
{
    let m: nat = if count > 0 {
        count
    } else {
        1
    };
    let pages = ((m + size - 1) as nat) / size;
    if pages > 0 {
        pages
    } else {
        1
    }
}

/// Item `q` of a list is a summary of the same page as `src[q]`.
pub open spec fn like_items(src: Seq<PageSummary>) -> spec_fn(int, PageSummary) -> bool {
    |q: int, p: PageSummary| same_summary(p, src[q])
}

/// Two lists of the same page summaries, in the same order.
pub open spec fn summaries_match(a: Seq<PageSummary>, b: Seq<PageSummary>) -> bool {
    a.len() == b.len() && forall|k: int| 0 <= k < a.len() ==> same_summary(#[trigger] a[k], b[k])
}

/// The page file of a route, or `invalid/index.html` under the output
/// root when the route is no valid URL path.
pub open spec fn page_file_of(out_root: Seq<char>, url: Seq<char>) -> Seq<char> {
    match output_path_of(out_root, url) {
        Ok(p) => p,
        Err(_) => join_path_of(join_path_of(out_root, "invalid"@), "index.html"@),
    }
}

/// The title of page `number` of a list titled `title`.
pub open spec fn page_title_of(title: Seq<char>, number: nat) -> Seq<char> {
    if number == 1 {
        title
    } else {
        title + " - page "@ + decimal(number)
    }
}

/// Page `idx` (from 0) of a list of `total` pages, `size` items to a
/// page: its route, file, title, items and links to the pages before and
/// after it.
pub open spec fn paginated_page(
    g: GeneratedPage,
    kind: Seq<char>,
    title: Seq<char>,
    description: Option<Seq<char>>,
    base_url: Seq<char>,
    out_root: Seq<char>,
    count: nat,
    item_ok: spec_fn(int, PageSummary) -> bool,
    size: nat,
    total: nat,
    idx: nat,
) -> bool {
    let number = idx + 1;
    let url = paginated_url_of(base_url, number);
    let start = (idx * size) as int;
    let end: int = if start + size < count {
        start + size
    } else {
        count as int
    };
    &&& g.kind@ == kind
    &&& g.title@ == page_title_of(title, number)
    &&& opt_text(g.description) == description
    &&& g.url@ == url
    &&& g.output_html@ == page_file_of(out_root, url)
    &&& g.items@.len() == (if start < count {
        end - start
    } else {
        0
    })
    &&& forall|k: int| 0 <= k < g.items@.len() ==> item_ok(start + k, #[trigger] g.items@[k])
    &&& g.page_number == number
    &&& g.total_pages == total
    &&& opt_text(g.prev_url) == (if number > 1 {
        Some(paginated_url_of(base_url, (number - 1) as nat))
    } else {
        None
    })
    &&& opt_text(g.prev_title) == (if number > 1 {
        Some("Previous"@)
    } else {
        None
    })
    &&& opt_text(g.next_url) == (if number < total {
        Some(paginated_url_of(base_url, number + 1))
    } else {
        None
    })
    &&& opt_text(g.next_title) == (if number < total {
        Some("Next"@)
    } else {
        None
    })
}

fn page_file(out_root: &str, url: &str) -> (r: String)
    ensures
        r@ == page_file_of(out_root@, url@),
{
    match output_path_for_url(out_root, url) {
        Ok(p) => p,
        Err(_) => {
            let dir = join_path(out_root, "invalid");
            join_path(dir.as_str(), "index.html")
        },
    }
}

fn page_title(title: &String, number: usize) -> (r: String)
    ensures
        r@ == page_title_of(title@, number as nat),
{
    if number == 1 {
        return title.clone();
    }
    let mut t = String::new();
    push_chars(&mut t, &chars_of(title.as_str()));
    push_chars(&mut t, &chars_of(" - page "));
    push_chars(&mut t, &usize_to_decimal(number));
    assert(t@ =~= title@ + " - page "@ + decimal(number as nat));
    t
}

fn copy_opt_string(o: &Option<String>) -> (r: Option<String>)
    ensures
        opt_text(r) == opt_text(*o),
{
    match o {
        Some(s) => Some(s.clone()),
        None => None,
    }
}

/// Appends the pages of a paginated list: `items` split into pages of
/// `page_size_of(items, paginate_by)` items, each page linked to the
/// pages before and after it.
pub fn push_paginated(
    generated: &mut Vec<GeneratedPage>,
    out_root: &str,
    kind: &str,
    title: String,
    description: Option<String>,
    base_url: String,
    items: Vec<PageSummary>,
    paginate_by: Option<usize>,
)
    ensures
        final(generated)@.len() == old(generated)@.len() + page_count_of(
            items@.len(),
            page_size_of(items@.len(), paginate_by),
        ),
        final(generated)@.take(old(generated)@.len() as int) == old(generated)@,
        forall|idx: int|
            0 <= idx < page_count_of(items@.len(), page_size_of(items@.len(), paginate_by))
                ==> paginated_page(
                #[trigger] final(generated)@[old(generated)@.len() + idx],
                kind@,
                title@,
                opt_text(description),
                base_url@,
                out_root@,
                items@.len(),
                like_items(items@),
                page_size_of(items@.len(), paginate_by),
                page_count_of(items@.len(), page_size_of(items@.len(), paginate_by)),
                idx as nat,
            ),
{
    let ghost all = items@;
    let ghost start_len = generated@.len();
    let count = items.len();
    let size: usize = match paginate_by {
        Some(n) => if n > 0 {
            n
        } else if count > 0 {
            count
        } else {
            1
        },
        None => if count > 0 {
            count
        } else {
            1
        },
    };
    let m: usize = if count > 0 {
        count
    } else {
        1
    };
    let total: usize = (m - 1) / size + 1;
    proof {
        assert(((m + size - 1) as int) / (size as int) == ((m - 1) as int) / (size as int) + 1) by (nonlinear_arith)
            requires
                size > 0,
                m >= 1,
        ;
    }
    assert(size as nat == page_size_of(count as nat, paginate_by));
    assert(total as nat == page_count_of(count as nat, size as nat));
    let mut rest = items;
    let mut idx: usize = 0;
    assert(all.skip(0) =~= all);
    while idx < total
        invariant
            idx <= total,
            size > 0,
            m >= 1,
            m == (if count > 0 {
                count
            } else {
                1
            }),
            total == ((m - 1) as int) / (size as int) + 1,
            count == all.len(),
            size as nat == page_size_of(count as nat, paginate_by),
            total as nat == page_count_of(count as nat, size as nat),
            rest@ == all.skip(if idx * size < count {
                idx * size
            } else {
                count as int
            }),
            generated@.len() == start_len + idx,
            generated@.take(start_len as int) == old(generated)@,
            start_len == old(generated)@.len(),
            forall|q: int|
                0 <= q < idx ==> paginated_page(
                    #[trigger] generated@[start_len + q],
                    kind@,
                    title@,
                    opt_text(description),
                    base_url@,
                    out_root@,
                    all.len(),
                    like_items(all),
                    size as nat,
                    total as nat,
                    q as nat,
                ),
        decreases total - idx,
    {
        proof {
            assert(idx * size <= m - 1) by (nonlinear_arith)
                requires
                    idx <= ((m - 1) as int) / (size as int),
                    size > 0,
                    m >= 1,
            ;
            assert((idx + 1) * size == idx * size + size) by (nonlinear_arith);
        }
        let start: usize = idx * size;
        let number = idx + 1;
        let url = paginated_url(base_url.as_str(), number);
        let mut chunk: Vec<PageSummary> = Vec::new();
        if start < count {
            let take: usize = if count - start > size {
                size
            } else {
                count - start
            };
            let mut q: usize = 0;
            while q < take
                invariant
                    q <= take,
                    start + take <= count,
                    count == all.len(),
                    rest@ == all.skip(start + q),
                    chunk@ == all.subrange(start as int, start + q),
                decreases take - q,
            {
                assert(all.skip(start + q)[0] == all[start + q]);
                let x = rest.remove(0);
                assert(all.skip(start + q).remove(0) =~= all.skip(start + q + 1));
                chunk.push(x);
                assert(chunk@ =~= all.subrange(start as int, start + q + 1));
                q += 1;
            }
        }
        let prev_url = if number > 1 {
            Some(paginated_url(base_url.as_str(), number - 1))
        } else {
            None
        };
        let next_url = if number < total {
            Some(paginated_url(base_url.as_str(), number + 1))
        } else {
            None
        };
        let prev_title = if number > 1 {
            Some(String::from_str("Previous"))
        } else {
            None
        };
        let next_title = if number < total {
            Some(String::from_str("Next"))
        } else {
            None
        };
        let page = GeneratedPage {
            kind: String::from_str(kind),
            title: page_title(&title, number),
            description: copy_opt_string(&description),
            output_html: page_file(out_root, url.as_str()),
            url,
            items: chunk,
            page_number: number,
            total_pages: total,
            prev_title,
            prev_url,
            next_title,
            next_url,
        };
        let ghost before = generated@;
        generated.push(page);
        proof {
            assert(generated@.take(start_len as int) =~= before.take(start_len as int));
            assert forall|q: int| 0 <= q < idx + 1 implies paginated_page(
                #[trigger] generated@[start_len + q],
                kind@,
                title@,
                opt_text(description),
                base_url@,
                out_root@,
                all.len(),
                like_items(all),
                size as nat,
                total as nat,
                q as nat,
            ) by {
                if q < idx {
                    assert(generated@[start_len + q] == before[start_len + q]);
                }
            }
        }
        idx += 1;
    }
}

/// A paginated page whose items meet one condition meets any condition
/// that follows from it.
proof fn lemma_paginated_page_weaken(
    g: GeneratedPage,
    kind: Seq<char>,
    title: Seq<char>,
    description: Option<Seq<char>>,
    base_url: Seq<char>,
    out_root: Seq<char>,
    count: nat,
    ok1: spec_fn(int, PageSummary) -> bool,
    ok2: spec_fn(int, PageSummary) -> bool,
    size: nat,
    total: nat,
    idx: nat,
)
    requires
        forall|q: int, p: PageSummary| 0 <= q < count && #[trigger] ok1(q, p) ==> ok2(q, p),
        paginated_page(g, kind, title, description, base_url, out_root, count, ok1, size, total, idx),
    ensures
        paginated_page(g, kind, title, description, base_url, out_root, count, ok2, size, total, idx),
{
    let start = (idx * size) as int;
    assert forall|k: int| 0 <= k < g.items@.len() implies ok2(start + k, #[trigger] g.items@[k]) by {
        assert(ok1(start + k, g.items@[k]));
    }
}

// ---------------------------------------------------------------------------
// Lists of pages
// ---------------------------------------------------------------------------

/// A list a build writes pages for: its kind, title, description, route,
/// how many items it has and what each item is, and its `paginate_by`
/// setting.
pub type ListSpec = (
    Seq<char>,
    Seq<char>,
    Option<Seq<char>>,
    Seq<char>,
    nat,
    spec_fn(int, PageSummary) -> bool,
    Option<usize>,
);

/// How many pages a list takes.
pub open spec fn list_page_count(l: ListSpec) -> nat {
    page_count_of(l.4, page_size_of(l.4, l.6))
}

/// How many pages the first `k` lists take.
pub open spec fn lists_offset(lists: Seq<ListSpec>, k: int) -> nat
    decreases k,
{
    if k <= 0 {
        0
    } else {
        lists_offset(lists, k - 1) + list_page_count(lists[k - 1])
    }
}

/// Page `idx` of list `k` among the pages `g` of `lists`.
pub open spec fn list_page(g: Seq<GeneratedPage>, lists: Seq<ListSpec>, k: int, idx: int) -> GeneratedPage {
    g[lists_offset(lists, k) + idx]
}

/// `g` holds the pages of `lists`, list after list.
pub open spec fn pages_of_lists(g: Seq<GeneratedPage>, lists: Seq<ListSpec>, out_root: Seq<char>) -> bool {
    &&& g.len() == lists_offset(lists, lists.len() as int)
    &&& forall|k: int, idx: int|
        0 <= k < lists.len() && 0 <= idx < list_page_count(lists[k]) ==> paginated_page(
            #[trigger] list_page(g, lists, k, idx),
            lists[k].0,
            lists[k].1,
            lists[k].2,
            lists[k].3,
            out_root,
            lists[k].4,
            lists[k].5,
            page_size_of(lists[k].4, lists[k].6),
            list_page_count(lists[k]),
            idx as nat,
        )
}

proof fn lemma_offset_prefix(lists: Seq<ListSpec>, l: ListSpec, k: int)
    requires
        0 <= k <= lists.len(),
    ensures
        lists_offset(lists.push(l), k) == lists_offset(lists, k),
    decreases k,
{
    if k > 0 {
        lemma_offset_prefix(lists, l, k - 1);
        assert(lists.push(l)[k - 1] == lists[k - 1]);
    }
}

proof fn lemma_offset_monotone(lists: Seq<ListSpec>, k: int, j: int)
    requires
        0 <= k <= j <= lists.len(),
    ensures
        lists_offset(lists, k) + list_page_count(lists[k]) <= lists_offset(lists, j) || k == j,
    decreases j,
{
    if k < j {
        if k < j - 1 {
            lemma_offset_monotone(lists, k, j - 1);
        }
    }
}

/// Appending the pages of one more list.
proof fn lemma_pages_of_lists_push(
    g0: Seq<GeneratedPage>,
    g1: Seq<GeneratedPage>,
    lists: Seq<ListSpec>,
    l: ListSpec,
    out_root: Seq<char>,
)
    requires
        pages_of_lists(g0, lists, out_root),
        g1.len() == g0.len() + list_page_count(l),
        g1.take(g0.len() as int) == g0,
        forall|idx: int|
            0 <= idx < list_page_count(l) ==> paginated_page(
                #[trigger] g1[g0.len() + idx],
                l.0,
                l.1,
                l.2,
                l.3,
                out_root,
                l.4,
                l.5,
                page_size_of(l.4, l.6),
                list_page_count(l),
                idx as nat,
            ),
    ensures
        pages_of_lists(g1, lists.push(l), out_root),
{
    let ls = lists.push(l);
    lemma_offset_prefix(lists, l, lists.len() as int);
    assert(ls[lists.len() as int] == l);
    assert forall|k: int, idx: int|
        0 <= k < ls.len() && 0 <= idx < list_page_count(ls[k]) implies paginated_page(
            #[trigger] list_page(g1, ls, k, idx),
            ls[k].0,
            ls[k].1,
            ls[k].2,
            ls[k].3,
            out_root,
            ls[k].4,
            ls[k].5,
            page_size_of(ls[k].4, ls[k].6),
            list_page_count(ls[k]),
            idx as nat,
        ) by {
        if k < lists.len() {
            lemma_offset_prefix(lists, l, k);
            assert(ls[k] == lists[k]);
            lemma_offset_monotone(lists, k, lists.len() as int);
            assert(list_page(g0, lists, k, idx) == g0[lists_offset(lists, k) + idx]);
            assert(g1[lists_offset(lists, k) + idx] == g1.take(g0.len() as int)[lists_offset(lists, k) + idx]);
        } else {
            assert(k == lists.len());
            assert(list_page(g1, ls, k, idx) == g1[g0.len() + idx]);
        }
    }
}

// ---------------------------------------------------------------------------
// Section pages
// ---------------------------------------------------------------------------

/// `names`, kept in ascending order with each name once, with `s` added.
pub open spec fn insert_name(names: Seq<Seq<char>>, s: Seq<char>) -> Seq<Seq<char>>
    decreases names.len(),
{
    if names.len() == 0 {
        seq![s]
    } else if names.last() == s {
        names
    } else if text_lt(s, names.last()) {
        insert_name(names.drop_last(), s).push(names.last())
    } else {
        names.push(s)
    }
}

/// The sections of the pages, in ascending order, each once.
pub open spec fn section_names(pages: Seq<PageSummary>) -> Seq<Seq<char>>
    decreases pages.len(),
{
    if pages.len() == 0 {
        Seq::<Seq<char>>::empty()
    } else {
        insert_name(section_names(pages.drop_last()), pages.last().section@)
    }
}

/// The positions of the pages of section `s`, in page order.
pub open spec fn summary_positions(pages: Seq<PageSummary>, s: Seq<char>) -> Seq<int>
    decreases pages.len(),
{
    if pages.len() == 0 {
        Seq::<int>::empty()
    } else {
        let prev = summary_positions(pages.drop_last(), s);
        if pages.last().section@ == s {
            prev.push(pages.len() - 1)
        } else {
            prev
        }
    }
}

/// The key of the summary at a position, as a function.
pub open spec fn summary_position_key(pages: Seq<PageSummary>) -> spec_fn(int) -> SortKey {
    |i: int| summary_key(pages[i])
}

/// The summaries at the given positions.
pub open spec fn picked(pages: Seq<PageSummary>, idx: Seq<int>) -> Seq<PageSummary> {
    idx.map_values(|i: int| pages[i])
}

/// The pages of section `s`, in the order the section lists them.
pub open spec fn section_items(
    pages: Seq<PageSummary>,
    meta: Seq<(String, FrontMatter)>,
    s: Seq<char>,
) -> Seq<PageSummary> {
    picked(
        pages,
        stable_sorted(summary_positions(pages, s), summary_position_key(pages), section_sort(meta, s)),
    )
}

/// The list page of section `s`: titled by its metadata (else by its
/// name), described by it (else as the pages in it), paginated by it
/// (else by the site), at the section's URL.
pub open spec fn section_list(
    cfg: Config,
    pages: Seq<PageSummary>,
    meta: Seq<(String, FrontMatter)>,
    s: Seq<char>,
) -> ListSpec {
    let m = keyed_map(keyed(meta));
    let has = m.contains_key(s);
    let title = if has && m[s].title is Some {
        m[s].title->0@
    } else {
        s
    };
    let desc = if has && m[s].description is Some {
        m[s].description->0@
    } else {
        "Pages in "@ + s
    };
    let per = if has && m[s].paginate_by is Some {
        m[s].paginate_by
    } else {
        cfg.paginate_by
    };
    let items = section_items(pages, meta, s);
    ("section"@, title, Some(desc), section_url_of(s), items.len(), like_items(items), per)
}

/// The URLs of the pages.
pub open spec fn summary_urls(pages: Seq<PageSummary>) -> Seq<Seq<char>> {
    pages.map_values(|p: PageSummary| p.url@)
}

/// The lists of the sections `names`: every section but `pages`, and but
/// one whose URL a page of its own already has.
pub open spec fn section_lists(
    cfg: Config,
    pages: Seq<PageSummary>,
    meta: Seq<(String, FrontMatter)>,
    names: Seq<Seq<char>>,
) -> Seq<ListSpec>
    decreases names.len(),
{
    if names.len() == 0 {
        Seq::<ListSpec>::empty()
    } else {
        let prev = section_lists(cfg, pages, meta, names.drop_last());
        let s = names.last();
        if s == "pages"@ || summary_urls(pages).contains(section_url_of(s)) {
            prev
        } else {
            prev.push(section_list(cfg, pages, meta, s))
        }
    }
}

proof fn lemma_insert_name_at(names: Seq<Seq<char>>, s: Seq<char>, j: int)
    requires
        0 <= j <= names.len(),
        forall|k: int| j <= k < names.len() ==> #[trigger] names[k] != s && text_lt(s, names[k]),
    ensures
        insert_name(names, s) == insert_name(names.take(j), s) + names.skip(j),
    decreases names.len(),
{
    if j == names.len() {
        assert(names.take(j) =~= names);
        assert(names.skip(j) =~= Seq::<Seq<char>>::empty());
        assert(insert_name(names, s) + Seq::<Seq<char>>::empty() =~= insert_name(names, s));
    } else {
        let d = names.drop_last();
        assert(names.last() == names[names.len() - 1]);
        assert forall|k: int| j <= k < d.len() implies #[trigger] d[k] != s && text_lt(s, d[k]) by {
            assert(d[k] == names[k]);
        }
        lemma_insert_name_at(d, s, j);
        assert(d.take(j) =~= names.take(j));
        assert(d.skip(j).push(names.last()) =~= names.skip(j));
        assert(insert_name(d.take(j), s) + d.skip(j).push(names.last()) =~= (insert_name(d.take(j), s)
            + d.skip(j)).push(names.last()));
    }
}

/// Adds `s` to names kept in ascending order, each once.
pub(crate) fn insert_name_vec(names: &mut Vec<String>, s: &String)
    ensures
        crate::script::string_views(final(names)@) == insert_name(
            crate::script::string_views(old(names)@),
            s@,
        ),
{
    let ghost v = crate::script::string_views(names@);
    let target = chars_of(s.as_str());
    let mut j: usize = names.len();
    loop
        invariant
            j <= names@.len(),
            v == crate::script::string_views(names@),
            names@ == old(names)@,
            target@ == s@,
            forall|k: int| j <= k < v.len() ==> #[trigger] v[k] != s@ && text_lt(s@, v[k]),
        decreases j,
    {
        if j == 0 {
            proof {
                lemma_insert_name_at(v, s@, 0);
                assert(v.take(0) =~= Seq::<Seq<char>>::empty());
            }
            names.insert(0, s.clone());
            assert(crate::script::string_views(names@) =~= seq![s@] + v.skip(0));
            return;
        }
        let cur = chars_of(names[j - 1].as_str());
        assert(v[j - 1] == names@[j - 1]@);
        if vec_eq(&cur, &target) {
            proof {
                lemma_insert_name_at(v, s@, j as int);
                assert(v.take(j as int).last() == s@);
                assert(v.take(j as int) + v.skip(j as int) =~= v);
            }
            return;
        }
        if !text_less(&target, &cur) {
            proof {
                lemma_insert_name_at(v, s@, j as int);
                assert(v.take(j as int).last() == v[j - 1]);
            }
            names.insert(j, s.clone());
            assert(crate::script::string_views(names@) =~= v.take(j as int).push(s@) + v.skip(
                j as int,
            ));
            return;
        }
        j -= 1;
    }
}

/// Whether one of the pages has the URL `url`.
fn url_taken(pages: &Vec<PageSummary>, url: &String) -> (r: bool)
    ensures
        r == summary_urls(pages@).contains(url@),
{
    let target = chars_of(url.as_str());
    let mut i: usize = 0;
    while i < pages.len()
        invariant
            i <= pages@.len(),
            target@ == url@,
            forall|k: int| 0 <= k < i ==> #[trigger] pages@[k].url@ != url@,
        decreases pages.len() - i,
    {
        let u = chars_of(pages[i].url.as_str());
        if vec_eq(&u, &target) {
            assert(summary_urls(pages@)[i as int] == url@);
            return true;
        }
        i += 1;
    }
    proof {
        if summary_urls(pages@).contains(url@) {
            let k = choose|k: int| 0 <= k < summary_urls(pages@).len() && summary_urls(pages@)[k] == url@;
            assert(pages@[k].url@ == url@);
        }
    }
    false
}

/// The sort keys of the summaries.
fn summary_keys(pages: &Vec<PageSummary>) -> (keys: Vec<Key>)
    ensures
        keys@.len() == pages@.len(),
        forall|k: int| 0 <= k < keys@.len() ==> key_view(#[trigger] keys@[k]) == summary_key(pages@[k]),
{
    let mut keys: Vec<Key> = Vec::new();
    let mut i: usize = 0;
    while i < pages.len()
        invariant
            i <= pages@.len(),
            keys@.len() == i,
            forall|k: int| 0 <= k < i ==> key_view(#[trigger] keys@[k]) == summary_key(pages@[k]),
        decreases pages.len() - i,
    {
        keys.push(summary_fields(&pages[i]));
        i += 1;
    }
    keys
}

/// Copies of the summaries at the positions `ord`.
fn pick_copies(pages: &Vec<PageSummary>, ord: &Vec<usize>) -> (items: Vec<PageSummary>)
    requires
        forall|k: int| 0 <= k < ord@.len() ==> #[trigger] ord@[k] < pages@.len(),
    ensures
        summaries_match(items@, picked(pages@, ord@.map_values(|v: usize| v as int))),
{
    let ghost want = picked(pages@, ord@.map_values(|v: usize| v as int));
    let mut items: Vec<PageSummary> = Vec::new();
    let mut q: usize = 0;
    while q < ord.len()
        invariant
            q <= ord@.len(),
            want == picked(pages@, ord@.map_values(|v: usize| v as int)),
            forall|k: int| 0 <= k < ord@.len() ==> #[trigger] ord@[k] < pages@.len(),
            items@.len() == q,
            forall|k: int| 0 <= k < q ==> same_summary(#[trigger] items@[k], want[k]),
        decreases ord.len() - q,
    {
        let c = pages[ord[q]].copy();
        items.push(c);
        q += 1;
    }
    items
}

/// The pages of section `s` in listing order (copies).
fn section_item_list(
    pages: &Vec<PageSummary>,
    keys: &Vec<Key>,
    meta: &Vec<(String, FrontMatter)>,
    s: &String,
) -> (items: Vec<PageSummary>)
    requires
        keys@.len() == pages@.len(),
        forall|k: int| 0 <= k < keys@.len() ==> key_view(#[trigger] keys@[k]) == summary_key(pages@[k]),
    ensures
        summaries_match(items@, section_items(pages@, meta@, s@)),
{
    let target = chars_of(s.as_str());
    let mut g: Vec<usize> = Vec::new();
    let mut i: usize = 0;
    while i < pages.len()
        invariant
            i <= pages@.len(),
            target@ == s@,
            g@.map_values(|v: usize| v as int) == summary_positions(pages@.take(i as int), s@),
            forall|k: int| 0 <= k < g@.len() ==> #[trigger] g@[k] < i,
        decreases pages.len() - i,
    {
        assert(pages@.take(i + 1).drop_last() =~= pages@.take(i as int));
        assert(pages@.take(i + 1).last() == pages@[i as int]);
        let ghost before = g@.map_values(|v: usize| v as int);
        let sec = chars_of(pages[i].section.as_str());
        if vec_eq(&sec, &target) {
            g.push(i);
            assert(g@.map_values(|v: usize| v as int) =~= before.push(i as int));
        }
        i += 1;
    }
    assert(pages@.take(pages@.len() as int) =~= pages@);
    let o = section_order(meta, s);
    let ord = sort_positions(keys, &g, o, Ghost(summary_position_key(pages@)));
    pick_copies(pages, &ord)
}

/// Appends the list pages of section `s`.
fn push_section_list(
    generated: &mut Vec<GeneratedPage>,
    out_root: &str,
    cfg: &Config,
    pages: &Vec<PageSummary>,
    keys: &Vec<Key>,
    meta: &Vec<(String, FrontMatter)>,
    s: &String,
)
    requires
        keys@.len() == pages@.len(),
        forall|k: int| 0 <= k < keys@.len() ==> key_view(#[trigger] keys@[k]) == summary_key(pages@[k]),
    ensures
        final(generated)@.len() == old(generated)@.len() + list_page_count(
            section_list(*cfg, pages@, meta@, s@),
        ),
        final(generated)@.take(old(generated)@.len() as int) == old(generated)@,
        forall|idx: int|
            0 <= idx < list_page_count(section_list(*cfg, pages@, meta@, s@)) ==> paginated_page(
                #[trigger] final(generated)@[old(generated)@.len() + idx],
                section_list(*cfg, pages@, meta@, s@).0,
                section_list(*cfg, pages@, meta@, s@).1,
                section_list(*cfg, pages@, meta@, s@).2,
                section_list(*cfg, pages@, meta@, s@).3,
                out_root@,
                section_list(*cfg, pages@, meta@, s@).4,
                section_list(*cfg, pages@, meta@, s@).5,
                page_size_of(
                    section_list(*cfg, pages@, meta@, s@).4,
                    section_list(*cfg, pages@, meta@, s@).6,
                ),
                list_page_count(section_list(*cfg, pages@, meta@, s@)),
                idx as nat,
            ),
{
    let ghost l = section_list(*cfg, pages@, meta@, s@);
    let found = find_keyed(meta, s);
    let title = match found {
        Some(i) => match &meta[i].1.title {
            Some(t) => t.clone(),
            None => s.clone(),
        },
        None => s.clone(),
    };
    let description = match found {
        Some(i) => match &meta[i].1.description {
            Some(d) => d.clone(),
            None => {
                let mut d = String::new();
                push_chars(&mut d, &chars_of("Pages in "));
                push_chars(&mut d, &chars_of(s.as_str()));
                d
            },
        },
        None => {
            let mut d = String::new();
            push_chars(&mut d, &chars_of("Pages in "));
            push_chars(&mut d, &chars_of(s.as_str()));
            d
        },
    };
    assert(description@ =~= l.2->0);
    let per = match found {
        Some(i) => match meta[i].1.paginate_by {
            Some(n) => Some(n),
            None => cfg.paginate_by,
        },
        None => cfg.paginate_by,
    };
    let url = section_url(s.as_str());
    let items = section_item_list(pages, keys, meta, s);
    let ghost exec_items = items@;
    let ghost start = generated@.len();
    push_paginated(generated, out_root, "section", title, Some(description), url, items, per);
    proof {
        let src = section_items(pages@, meta@, s@);
        assert forall|q: int, p: PageSummary|
            0 <= q < exec_items.len() && #[trigger] like_items(exec_items)(q, p) implies like_items(src)(q, p) by {
            assert(same_summary(exec_items[q], src[q]));
        }
        assert forall|idx: int| 0 <= idx < list_page_count(l) implies paginated_page(
            #[trigger] generated@[start + idx],
            l.0,
            l.1,
            l.2,
            l.3,
            out_root@,
            l.4,
            l.5,
            page_size_of(l.4, l.6),
            list_page_count(l),
            idx as nat,
        ) by {
            lemma_paginated_page_weaken(
                generated@[start + idx],
                l.0,
                l.1,
                l.2,
                l.3,
                out_root@,
                l.4,
                like_items(exec_items),
                l.5,
                page_size_of(l.4, l.6),
                list_page_count(l),
                idx as nat,
            );
        }
    }
}

// ---------------------------------------------------------------------------
// Taxonomy pages
// ---------------------------------------------------------------------------

/// The texts among optional texts, in order.
pub open spec fn present_texts(xs: Seq<Option<Seq<char>>>) -> Seq<Seq<char>>
    decreases xs.len(),
{
    if xs.len() == 0 {
        Seq::<Seq<char>>::empty()
    } else {
        let prev = present_texts(xs.drop_last());
        match xs.last() {
            Some(t) => prev.push(t),
            None => prev,
        }
    }
}

/// The values a taxonomy reads from a free-form field: the text of a
/// string value; else the texts among the items of an array value; else
/// none.
pub open spec fn field_values_of(
    text: Option<Seq<char>>,
    items: Option<Seq<Option<Seq<char>>>>,
) -> Seq<Seq<char>> {
    match text {
        Some(t) => seq![t],
        None => match items {
            Some(xs) => present_texts(xs),
            None => Seq::<Seq<char>>::empty(),
        },
    }
}

/// The texts of optional strings.
pub open spec fn opt_texts(xs: Seq<Option<String>>) -> Seq<Option<Seq<char>>> {
    xs.map_values(|o: Option<String>| opt_text(o))
}

/// The values a taxonomy reads from a free-form field, given the text of
/// the field (when it is a string) and the texts of its items (when it is
/// an array).
pub fn field_values(text: Option<String>, items: Option<Vec<Option<String>>>) -> (r: Vec<String>)
    ensures
        string_views(r@) == field_values_of(
            opt_text(text),
            match items {
                Some(xs) => Some(opt_texts(xs@)),
                None => None,
            },
        ),
{
    match text {
        Some(t) => {
            let mut r: Vec<String> = Vec::new();
            r.push(t);
            assert(string_views(r@) =~= seq![t@]);
            r
        },
        None => match items {
            Some(xs) => {
                let ghost ts = opt_texts(xs@);
                let mut r: Vec<String> = Vec::new();
                let mut i: usize = 0;
                while i < xs.len()
                    invariant
                        i <= xs@.len(),
                        ts == opt_texts(xs@),
                        string_views(r@) == present_texts(ts.take(i as int)),
                    decreases xs.len() - i,
                {
                    assert(ts.take(i + 1).drop_last() =~= ts.take(i as int));
                    assert(ts.take(i + 1).last() == opt_text(xs@[i as int]));
                    let ghost before = string_views(r@);
                    match &xs[i] {
                        Some(t) => {
                            r.push(t.clone());
                            assert(string_views(r@) =~= before.push(t@));
                        },
                        None => {},
                    }
                    i += 1;
                }
                assert(ts.take(xs@.len() as int) =~= ts);
                r
            },
            None => {
                let r: Vec<String> = Vec::new();
                assert(string_views(r@) =~= Seq::<Seq<char>>::empty());
                r
            },
        },
    }
}

/// The texts a taxonomy reads from a free-form value: a text gives
/// itself; an array gives the texts of its string items, in order; any
/// other value gives none.
pub open spec fn value_texts_of(v: MetaView) -> Seq<Seq<char>> {
    match v {
        MetaView::Text(t) => field_values_of(Some(t), None),
        MetaView::List(ts) => field_values_of(None, Some(ts)),
        MetaView::Other => field_values_of(None, None),
    }
}

/// The texts a taxonomy reads from a free-form value.
pub(crate) fn value_texts(v: &MetaValue) -> (r: Vec<String>)
    ensures
        string_views(r@) == value_texts_of(v@),
{
    match copy_value(v) {
        MetaValue::Text(t) => field_values(Some(t), None),
        MetaValue::List(xs) => field_values(None, Some(xs)),
        MetaValue::Other => field_values(None, None),
    }
}

/// The values page `p` has for taxonomy `name`: its tags, its
/// categories, or the values of its free-form field of that name.
pub open spec fn taxonomy_values_of(p: PageSummary, name: Seq<char>) -> Seq<Seq<char>> {
    if name == "tags"@ {
        string_views(p.tags@)
    } else if name == "categories"@ {
        string_views(p.categories@)
    } else {
        let m = keyed_map(meta_keyed(p.extra@));
        if m.contains_key(name) {
            value_texts_of(m[name])
        } else {
            Seq::<Seq<char>>::empty()
        }
    }
}

/// The values page `page` has for taxonomy `name`.
pub fn taxonomy_values(page: &PageSummary, name: &str) -> (r: Vec<String>)
    ensures
        string_views(r@) == taxonomy_values_of(*page, name@),
{
    let n = chars_of(name);
    if eq_str(&n, "tags") {
        return copy_strings(&page.tags);
    }
    if eq_str(&n, "categories") {
        return copy_strings(&page.categories);
    }
    let key = String::from_str(name);
    proof {
        lemma_meta_keyed_map(page.extra@);
    }
    match find_keyed(&page.extra, &key) {
        Some(i) => value_texts(&page.extra[i].1),
        None => {
            let r: Vec<String> = Vec::new();
            assert(string_views(r@) =~= Seq::<Seq<char>>::empty());
            r
        },
    }
}

/// `names` with the values `vals` added, one after the other.
pub open spec fn insert_names(names: Seq<Seq<char>>, vals: Seq<Seq<char>>) -> Seq<Seq<char>>
    decreases vals.len(),
{
    if vals.len() == 0 {
        names
    } else {
        insert_name(insert_names(names, vals.drop_last()), vals.last())
    }
}

/// The terms of taxonomy `name` over the pages, in ascending order, each
/// once.
pub open spec fn term_names(pages: Seq<PageSummary>, name: Seq<char>) -> Seq<Seq<char>>
    decreases pages.len(),
{
    if pages.len() == 0 {
        Seq::<Seq<char>>::empty()
    } else {
        insert_names(term_names(pages.drop_last(), name), taxonomy_values_of(pages.last(), name))
    }
}

/// How often `t` occurs among `vals`.
pub open spec fn occurrences(vals: Seq<Seq<char>>, t: Seq<char>) -> nat
    decreases vals.len(),
{
    if vals.len() == 0 {
        0
    } else if vals.last() == t {
        occurrences(vals.drop_last(), t) + 1
    } else {
        occurrences(vals.drop_last(), t)
    }
}

/// The positions of the pages with term `t` of taxonomy `name`, in page
/// order; a page stands there once for each time it has the term.
pub open spec fn term_positions(pages: Seq<PageSummary>, name: Seq<char>, t: Seq<char>) -> Seq<int>
    decreases pages.len(),
{
    if pages.len() == 0 {
        Seq::<int>::empty()
    } else {
        term_positions(pages.drop_last(), name, t) + Seq::new(
            occurrences(taxonomy_values_of(pages.last(), name), t),
            |_k: int| pages.len() - 1,
        )
    }
}

/// The pages of term `t`, newest first.
pub open spec fn term_items(pages: Seq<PageSummary>, name: Seq<char>, t: Seq<char>) -> Seq<PageSummary> {
    picked(pages, stable_sorted(term_positions(pages, name, t), summary_position_key(pages), SortOrder::DateDesc))
}

/// The URL of term `t` of a taxonomy with URL segment `slug`.
pub open spec fn term_url_of(slug: Seq<char>, t: Seq<char>) -> Seq<char> {
    "/"@ + slug + "/"@ + slug_of(t) + "/"@
}

/// The list of term `t` of taxonomy `tax`.
pub open spec fn term_list(cfg: Config, pages: Seq<PageSummary>, tax: TaxonomyConfig, t: Seq<char>) -> ListSpec {
    let items = term_items(pages, tax.name@, t);
    (
        tax.name@,
        tax.name@ + ": "@ + t,
        None,
        term_url_of(tax.slug@, t),
        items.len(),
        like_items(items),
        cfg.paginate_by,
    )
}

/// `p` is the summary of term `t` of taxonomy `tax`, a term of `n` pages.
pub open spec fn term_summary_ok(p: PageSummary, tax: TaxonomyConfig, t: Seq<char>, n: nat) -> bool {
    let url = term_url_of(tax.slug@, t);
    &&& p.kind@ == "term"@
    &&& p.title@ == t
    &&& p.url@ == url
    &&& p.canonical_url@ == url
    &&& p.slug@ == slug_of(t)
    &&& p.path@ == strip_char(url, '/')
    &&& p.file_path@.len() == 0
    &&& opt_text(p.description) == Some(decimal(n) + " page(s)"@)
    &&& p.date is None
    &&& p.updated is None
    &&& p.weight is None
    &&& p.section@ == tax.name@
    &&& p.parent_section is None
    &&& p.ancestors@.len() == 0
    &&& p.tags@.len() == 0
    &&& p.categories@.len() == 0
    &&& p.aliases@.len() == 0
    &&& p.source@.len() == 0
    &&& p.excerpt is None
    &&& p.toc@.len() == 0
    &&& p.extra@.len() == 0
}

/// The index list of taxonomy `tax`: a summary of each of its terms, in
/// ascending order.
pub open spec fn index_list(cfg: Config, pages: Seq<PageSummary>, tax: TaxonomyConfig) -> ListSpec {
    let terms = term_names(pages, tax.name@);
    (
        tax.name@ + "-index"@,
        tax.name@,
        Some("All "@ + tax.name@),
        "/"@ + tax.slug@ + "/"@,
        terms.len(),
        |q: int, p: PageSummary| term_summary_ok(p, tax, terms[q], term_items(pages, tax.name@, terms[q]).len()),
        cfg.paginate_by,
    )
}

/// The lists of the terms `terms` of taxonomy `tax`.
pub open spec fn term_lists(
    cfg: Config,
    pages: Seq<PageSummary>,
    tax: TaxonomyConfig,
    terms: Seq<Seq<char>>,
) -> Seq<ListSpec> {
    terms.map_values(|t: Seq<char>| term_list(cfg, pages, tax, t))
}

/// The lists of the taxonomies: for each, the list of each of its terms,
/// then its index.
pub open spec fn taxonomy_lists(cfg: Config, pages: Seq<PageSummary>, taxes: Seq<TaxonomyConfig>) -> Seq<ListSpec>
    decreases taxes.len(),
{
    if taxes.len() == 0 {
        Seq::<ListSpec>::empty()
    } else {
        let tax = taxes.last();
        taxonomy_lists(cfg, pages, taxes.drop_last()) + term_lists(
            cfg,
            pages,
            tax,
            term_names(pages, tax.name@),
        ).push(index_list(cfg, pages, tax))
    }
}

/// Copies of the texts.
fn text_strings(a: &String, b: &str) -> (r: String)
    ensures
        r@ == a@ + b@,
{
    let mut r = String::new();
    push_chars(&mut r, &chars_of(a.as_str()));
    push_chars(&mut r, &chars_of(b));
    assert(r@ =~= a@ + b@);
    r
}

/// The URL of a term.
fn term_url(slug: &String, t: &String) -> (r: String)
    ensures
        r@ == term_url_of(slug@, t@),
{
    let mut r = String::new();
    push_chars(&mut r, &chars_of("/"));
    push_chars(&mut r, &chars_of(slug.as_str()));
    push_chars(&mut r, &chars_of("/"));
    let sl = slugify(t.as_str());
    push_chars(&mut r, &chars_of(sl.as_str()));
    push_chars(&mut r, &chars_of("/"));
    assert(r@ =~= term_url_of(slug@, t@));
    r
}

/// The summary of term `t` of a taxonomy, a term of `n` pages.
fn term_summary(tax: &TaxonomyConfig, t: &String, n: usize) -> (p: PageSummary)
    ensures
        term_summary_ok(p, *tax, t@, n as nat),
{
    let url = term_url(&tax.slug, t);
    let path = string_of(&strip_char_vec(&chars_of(url.as_str()), '/'));
    let mut description = String::new();
    push_chars(&mut description, &usize_to_decimal(n));
    push_chars(&mut description, &chars_of(" page(s)"));
    assert(description@ =~= decimal(n as nat) + " page(s)"@);
    PageSummary {
        kind: String::from_str("term"),
        title: t.clone(),
        url: url.clone(),
        canonical_url: url,
        slug: slugify(t.as_str()),
        path,
        file_path: String::new(),
        description: Some(description),
        date: None,
        updated: None,
        weight: None,
        section: tax.name.clone(),
        parent_section: None,
        ancestors: Vec::new(),
        tags: Vec::new(),
        categories: Vec::new(),
        aliases: Vec::new(),
        source: String::new(),
        excerpt: None,
        toc: Vec::new(),
        extra: Vec::new(),
    }
}

/// Appends the pages of the term lists of taxonomy `tax`, then those of
/// its index.
fn push_taxonomy_lists(
    generated: &mut Vec<GeneratedPage>,
    out_root: &str,
    cfg: &Config,
    pages: &Vec<PageSummary>,
    keys: &Vec<Key>,
    tax: &TaxonomyConfig,
    Ghost(lists): Ghost<Seq<ListSpec>>,
)
    requires
        keys@.len() == pages@.len(),
        forall|k: int| 0 <= k < keys@.len() ==> key_view(#[trigger] keys@[k]) == summary_key(pages@[k]),
        pages_of_lists(old(generated)@, lists, out_root@),
    ensures
        pages_of_lists(
            final(generated)@,
            lists + term_lists(*cfg, pages@, *tax, term_names(pages@, tax.name@)).push(
                index_list(*cfg, pages@, *tax),
            ),
            out_root@,
        ),
{
    let ghost name = tax.name@;
    let n = pages.len();
    // The values of every page.
    let mut vals: Vec<Vec<String>> = Vec::new();
    let mut i: usize = 0;
    while i < n
        invariant
            i <= n,
            n == pages@.len(),
            name == tax.name@,
            vals@.len() == i,
            forall|k: int| 0 <= k < i ==> string_views(#[trigger] vals@[k]@) == taxonomy_values_of(pages@[k], name),
        decreases n - i,
    {
        vals.push(taxonomy_values(&pages[i], tax.name.as_str()));
        i += 1;
    }
    // The terms.
    let mut terms: Vec<String> = Vec::new();
    i = 0;
    assert(pages@.take(0) =~= Seq::<PageSummary>::empty());
    while i < n
        invariant
            i <= n,
            n == pages@.len(),
            vals@.len() == n,
            forall|k: int| 0 <= k < n ==> string_views(#[trigger] vals@[k]@) == taxonomy_values_of(pages@[k], name),
            string_views(terms@) == term_names(pages@.take(i as int), name),
        decreases n - i,
    {
        let vs = &vals[i];
        let ghost base = term_names(pages@.take(i as int), name);
        let ghost vv = string_views(vs@);
        let mut j: usize = 0;
        while j < vs.len()
            invariant
                j <= vs@.len(),
                vv == string_views(vs@),
                string_views(terms@) == insert_names(base, vv.take(j as int)),
            decreases vs.len() - j,
        {
            assert(vv.take(j + 1).drop_last() =~= vv.take(j as int));
            assert(vv.take(j + 1).last() == vs@[j as int]@);
            insert_name_vec(&mut terms, &vs[j]);
            j += 1;
        }
        assert(vv.take(vs@.len() as int) =~= vv);
        assert(pages@.take(i + 1).drop_last() =~= pages@.take(i as int));
        assert(pages@.take(i + 1).last() == pages@[i as int]);
        i += 1;
    }
    assert(pages@.take(n as int) =~= pages@);
    let ghost tv = string_views(terms@);
    assert(tv == term_names(pages@, name));
    // The term lists.
    let mut all_terms: Vec<PageSummary> = Vec::new();
    let mut k: usize = 0;
    assert(lists + term_lists(*cfg, pages@, *tax, tv.take(0)) =~= lists);
    while k < terms.len()
        invariant
            k <= terms@.len(),
            n == pages@.len(),
            name == tax.name@,
            tv == string_views(terms@),
            tv == term_names(pages@, name),
            keys@.len() == pages@.len(),
            forall|q: int| 0 <= q < keys@.len() ==> key_view(#[trigger] keys@[q]) == summary_key(pages@[q]),
            vals@.len() == n,
            forall|q: int| 0 <= q < n ==> string_views(#[trigger] vals@[q]@) == taxonomy_values_of(pages@[q], name),
            pages_of_lists(generated@, lists + term_lists(*cfg, pages@, *tax, tv.take(k as int)), out_root@),
            all_terms@.len() == k,
            forall|q: int|
                0 <= q < k ==> term_summary_ok(
                    #[trigger] all_terms@[q],
                    *tax,
                    tv[q],
                    term_items(pages@, name, tv[q]).len(),
                ),
        decreases terms.len() - k,
    {
        let t = terms[k].clone();
        let ghost tt = t@;
        assert(tt == tv[k as int]);
        let target = chars_of(t.as_str());
        // The positions of the pages with the term.
        let mut g: Vec<usize> = Vec::new();
        i = 0;
        while i < n
            invariant
                i <= n,
                n == pages@.len(),
                target@ == tt,
                vals@.len() == n,
                forall|q: int| 0 <= q < n ==> string_views(#[trigger] vals@[q]@) == taxonomy_values_of(pages@[q], name),
                g@.map_values(|v: usize| v as int) == term_positions(pages@.take(i as int), name, tt),
                forall|q: int| 0 <= q < g@.len() ==> #[trigger] g@[q] < i,
            decreases n - i,
        {
            let vs = &vals[i];
            let ghost vv = string_views(vs@);
            let ghost base = g@.map_values(|v: usize| v as int);
            let mut j: usize = 0;
            assert(base + Seq::new(0, |_k: int| i as int) =~= base);
            while j < vs.len()
                invariant
                    j <= vs@.len(),
                    i < n,
                    target@ == tt,
                    vv == string_views(vs@),
                    g@.map_values(|v: usize| v as int) == base + Seq::new(
                        occurrences(vv.take(j as int), tt),
                        |_k: int| i as int,
                    ),
                    forall|q: int| 0 <= q < g@.len() ==> #[trigger] g@[q] <= i,
                decreases vs.len() - j,
            {
                assert(vv.take(j + 1).drop_last() =~= vv.take(j as int));
                assert(vv.take(j + 1).last() == vs@[j as int]@);
                let c = chars_of(vs[j].as_str());
                if vec_eq(&c, &target) {
                    let ghost before = g@.map_values(|v: usize| v as int);
                    assert(occurrences(vv.take(j + 1), tt) == occurrences(vv.take(j as int), tt) + 1);
                    assert(Seq::new(occurrences(vv.take(j + 1), tt), |_k: int| i as int) =~= Seq::new(
                        occurrences(vv.take(j as int), tt),
                        |_k: int| i as int,
                    ).push(i as int));
                    g.push(i);
                    assert(g@.map_values(|v: usize| v as int) =~= before.push(i as int));
                    assert((base + Seq::new(occurrences(vv.take(j as int), tt), |_k: int| i as int)).push(
                        i as int,
                    ) =~= base + Seq::new(occurrences(vv.take(j as int), tt), |_k: int| i as int).push(
                        i as int,
                    ));
                    assert(g@.map_values(|v: usize| v as int) =~= base + Seq::new(
                        occurrences(vv.take(j + 1), tt),
                        |_k: int| i as int,
                    ));
                }
                j += 1;
            }
            assert(vv.take(vs@.len() as int) =~= vv);
            assert(pages@.take(i + 1).drop_last() =~= pages@.take(i as int));
            assert(pages@.take(i + 1).last() == pages@[i as int]);
            assert(pages@.take(i + 1).len() - 1 == i);
            i += 1;
        }
        assert(pages@.take(n as int) =~= pages@);
        let ord = sort_positions(keys, &g, SortOrder::DateDesc, Ghost(summary_position_key(pages@)));
        let items = pick_copies(pages, &ord);
        let ghost exec_items = items@;
        let ghost src = term_items(pages@, name, tt);
        assert(summaries_match(exec_items, src));
        let count = items.len();
        all_terms.push(term_summary(tax, &t, count));
        let mut title = text_strings(&tax.name, ": ");
        push_chars(&mut title, &target);
        let url = term_url(&tax.slug, &t);
        let ghost l = term_list(*cfg, pages@, *tax, tt);
        let ghost g0 = generated@;
        push_paginated(generated, out_root, tax.name.as_str(), title, None, url, items, cfg.paginate_by);
        proof {
            assert(l.1 == name + ": "@ + tt);
            assert forall|q: int, p: PageSummary|
                0 <= q < exec_items.len() && #[trigger] like_items(exec_items)(q, p) implies like_items(src)(q, p) by {
                assert(same_summary(exec_items[q], src[q]));
            }
            assert forall|idx: int| 0 <= idx < list_page_count(l) implies paginated_page(
                #[trigger] generated@[g0.len() + idx],
                l.0,
                l.1,
                l.2,
                l.3,
                out_root@,
                l.4,
                l.5,
                page_size_of(l.4, l.6),
                list_page_count(l),
                idx as nat,
            ) by {
                lemma_paginated_page_weaken(
                    generated@[g0.len() + idx],
                    l.0,
                    l.1,
                    l.2,
                    l.3,
                    out_root@,
                    l.4,
                    like_items(exec_items),
                    l.5,
                    page_size_of(l.4, l.6),
                    list_page_count(l),
                    idx as nat,
                );
            }
            let before_lists = lists + term_lists(*cfg, pages@, *tax, tv.take(k as int));
            lemma_pages_of_lists_push(g0, generated@, before_lists, l, out_root@);
            assert(before_lists.push(l) =~= lists + term_lists(*cfg, pages@, *tax, tv.take(k + 1)));
        }
        k += 1;
    }
    assert(tv.take(terms@.len() as int) =~= tv);
    // The index.
    let mut index_kind = String::new();
    push_chars(&mut index_kind, &chars_of(tax.name.as_str()));
    push_chars(&mut index_kind, &chars_of("-index"));
    let mut index_desc = String::new();
    push_chars(&mut index_desc, &chars_of("All "));
    push_chars(&mut index_desc, &chars_of(tax.name.as_str()));
    let mut index_url = String::new();
    push_chars(&mut index_url, &chars_of("/"));
    push_chars(&mut index_url, &chars_of(tax.slug.as_str()));
    push_chars(&mut index_url, &chars_of("/"));
    let ghost l = index_list(*cfg, pages@, *tax);
    assert(index_kind@ =~= l.0);
    assert(index_desc@ =~= l.2->0);
    assert(index_url@ =~= l.3);
    let ghost exec_items = all_terms@;
    let ghost g0 = generated@;
    push_paginated(
        generated,
        out_root,
        index_kind.as_str(),
        tax.name.clone(),
        Some(index_desc),
        index_url,
        all_terms,
        cfg.paginate_by,
    );
    proof {
        assert forall|q: int, p: PageSummary|
            0 <= q < exec_items.len() && #[trigger] like_items(exec_items)(q, p) implies (l.5)(q, p) by {
            let e = exec_items[q];
            assert(term_summary_ok(e, *tax, tv[q], term_items(pages@, name, tv[q]).len()));
            assert(same_summary(p, e));
            assert(p.ancestors@.len() == string_views(p.ancestors@).len());
            assert(e.ancestors@.len() == string_views(e.ancestors@).len());
            assert(p.tags@.len() == string_views(p.tags@).len());
            assert(e.tags@.len() == string_views(e.tags@).len());
            assert(p.categories@.len() == string_views(p.categories@).len());
            assert(e.categories@.len() == string_views(e.categories@).len());
            assert(p.aliases@.len() == string_views(p.aliases@).len());
            assert(e.aliases@.len() == string_views(e.aliases@).len());
            assert(p.toc@.len() == crate::model::toc_view(p.toc@).len());
            assert(e.toc@.len() == crate::model::toc_view(e.toc@).len());
            assert(p.extra@.len() == meta_keyed(p.extra@).len());
            assert(e.extra@.len() == meta_keyed(e.extra@).len());
            assert(term_summary_ok(p, *tax, tv[q], term_items(pages@, name, tv[q]).len()));
        }
        assert forall|idx: int| 0 <= idx < list_page_count(l) implies paginated_page(
            #[trigger] generated@[g0.len() + idx],
            l.0,
            l.1,
            l.2,
            l.3,
            out_root@,
            l.4,
            l.5,
            page_size_of(l.4, l.6),
            list_page_count(l),
            idx as nat,
        ) by {
            lemma_paginated_page_weaken(
                generated@[g0.len() + idx],
                l.0,
                l.1,
                l.2,
                l.3,
                out_root@,
                l.4,
                like_items(exec_items),
                l.5,
                page_size_of(l.4, l.6),
                list_page_count(l),
                idx as nat,
            );
        }
        let before_lists = lists + term_lists(*cfg, pages@, *tax, tv);
        lemma_pages_of_lists_push(g0, generated@, before_lists, l, out_root@);
        assert(before_lists.push(l) =~= lists + term_lists(*cfg, pages@, *tax, tv).push(l));
    }
}

// ---------------------------------------------------------------------------
// All generated pages
// ---------------------------------------------------------------------------

/// Every list a build generates pages for: those of the sections, in
/// ascending order of name, then those of the taxonomies, in their order.
pub open spec fn generated_lists(
    cfg: Config,
    pages: Seq<PageSummary>,
    meta: Seq<(String, FrontMatter)>,
) -> Seq<ListSpec> {
    section_lists(cfg, pages, meta, section_names(pages)) + taxonomy_lists(cfg, pages, cfg.taxonomies@)
}

/// The pages a build generates for the sections and taxonomies of a
/// site (see `generated_lists`), page after page of each list.
pub fn make_generated_pages(
    cfg: &Config,
    out_root: &str,
    pages: &Vec<PageSummary>,
    section_meta: &Vec<(String, FrontMatter)>,
) -> (r: Vec<GeneratedPage>)
    ensures
        pages_of_lists(r@, generated_lists(*cfg, pages@, section_meta@), out_root@),
{
    let keys = summary_keys(pages);
    let mut names: Vec<String> = Vec::new();
    let mut i: usize = 0;
    while i < pages.len()
        invariant
            i <= pages@.len(),
            string_views(names@) == section_names(pages@.take(i as int)),
        decreases pages.len() - i,
    {
        assert(pages@.take(i + 1).drop_last() =~= pages@.take(i as int));
        assert(pages@.take(i + 1).last() == pages@[i as int]);
        insert_name_vec(&mut names, &pages[i].section);
        i += 1;
    }
    assert(pages@.take(pages@.len() as int) =~= pages@);
    let ghost nv = string_views(names@);
    let ghost meta = section_meta@;
    let mut generated: Vec<GeneratedPage> = Vec::new();
    let mut k: usize = 0;
    assert(pages_of_lists(generated@, section_lists(*cfg, pages@, meta, nv.take(0)), out_root@));
    while k < names.len()
        invariant
            k <= names@.len(),
            nv == string_views(names@),
            nv == section_names(pages@),
            meta == section_meta@,
            keys@.len() == pages@.len(),
            forall|q: int| 0 <= q < keys@.len() ==> key_view(#[trigger] keys@[q]) == summary_key(pages@[q]),
            pages_of_lists(generated@, section_lists(*cfg, pages@, meta, nv.take(k as int)), out_root@),
        decreases names.len() - k,
    {
        let s = &names[k];
        assert(nv.take(k + 1).drop_last() =~= nv.take(k as int));
        assert(nv.take(k + 1).last() == s@);
        let sc = chars_of(s.as_str());
        if !eq_str(&sc, "pages") {
            let url = section_url(s.as_str());
            if !url_taken(pages, &url) {
                let ghost g0 = generated@;
                let ghost before = section_lists(*cfg, pages@, meta, nv.take(k as int));
                push_section_list(&mut generated, out_root, cfg, pages, &keys, section_meta, s);
                proof {
                    lemma_pages_of_lists_push(
                        g0,
                        generated@,
                        before,
                        section_list(*cfg, pages@, meta, s@),
                        out_root@,
                    );
                }
            }
        }
        k += 1;
    }
    assert(nv.take(names@.len() as int) =~= nv);
    let ghost sections = section_lists(*cfg, pages@, meta, nv);
    let ghost taxes = cfg.taxonomies@;
    let mut t: usize = 0;
    assert(sections + taxonomy_lists(*cfg, pages@, taxes.take(0)) =~= sections);
    while t < cfg.taxonomies.len()
        invariant
            t <= taxes.len(),
            taxes == cfg.taxonomies@,
            keys@.len() == pages@.len(),
            forall|q: int| 0 <= q < keys@.len() ==> key_view(#[trigger] keys@[q]) == summary_key(pages@[q]),
            pages_of_lists(generated@, sections + taxonomy_lists(*cfg, pages@, taxes.take(t as int)), out_root@),
        decreases cfg.taxonomies.len() - t,
    {
        let tax = &cfg.taxonomies[t];
        let ghost before = sections + taxonomy_lists(*cfg, pages@, taxes.take(t as int));
        push_taxonomy_lists(&mut generated, out_root, cfg, pages, &keys, tax, Ghost(before));
        proof {
            assert(taxes.take(t + 1).drop_last() =~= taxes.take(t as int));
            assert(taxes.take(t + 1).last() == *tax);
            assert(before + term_lists(*cfg, pages@, *tax, term_names(pages@, tax.name@)).push(
                index_list(*cfg, pages@, *tax),
            ) =~= sections + taxonomy_lists(*cfg, pages@, taxes.take(t + 1)));
        }
        t += 1;
    }
    assert(taxes.take(taxes.len() as int) =~= taxes);
    generated
}

/// Names in strictly ascending order (so each once).
pub open spec fn ascending(names: Seq<Seq<char>>) -> bool {
    forall|i: int, j: int| 0 <= i < j < names.len() ==> text_lt(#[trigger] names[i], #[trigger] names[j])
}

/// Adding a name keeps the names ascending, keeps every name and adds the
/// new one, and adds nothing else.
pub proof fn lemma_insert_name(names: Seq<Seq<char>>, s: Seq<char>)
    requires
        ascending(names),
    ensures
        ascending(insert_name(names, s)),
        insert_name(names, s).contains(s),
        forall|x: Seq<char>| names.contains(x) ==> #[trigger] insert_name(names, s).contains(x),
        forall|x: Seq<char>| #[trigger] insert_name(names, s).contains(x) ==> names.contains(x) || x == s,
    decreases names.len(),
{
    let r = insert_name(names, s);
    if names.len() == 0 {
        assert(r[0] == s);
    } else if names.last() == s {
        assert(names[names.len() - 1] == s);
    } else if text_lt(s, names.last()) {
        let d = names.drop_last();
        let last = names.last();
        assert(ascending(d)) by {
            assert forall|i: int, j: int| 0 <= i < j < d.len() implies text_lt(#[trigger] d[i], #[trigger] d[j]) by {
                assert(d[i] == names[i] && d[j] == names[j]);
            }
        }
        lemma_insert_name(d, s);
        let t = insert_name(d, s);
        assert(r == t.push(last));
        assert forall|i: int, j: int| 0 <= i < j < r.len() implies text_lt(#[trigger] r[i], #[trigger] r[j]) by {
            if j == r.len() - 1 {
                assert(r[j] == last);
                assert(r[i] == t[i]);
                assert(t.contains(t[i]));
                if t[i] != s {
                    assert(d.contains(t[i]));
                    let w = choose|w: int| 0 <= w < d.len() && d[w] == t[i];
                    assert(names[w] == d[w]);
                    assert(names[names.len() - 1] == last);
                }
            } else {
                assert(r[i] == t[i] && r[j] == t[j]);
            }
        }
        assert(r.contains(s)) by {
            let w = choose|w: int| 0 <= w < t.len() && t[w] == s;
            assert(r[w] == s);
        }
        assert forall|x: Seq<char>| names.contains(x) implies #[trigger] r.contains(x) by {
            let w = choose|w: int| 0 <= w < names.len() && names[w] == x;
            if w == names.len() - 1 {
                assert(r[r.len() - 1] == x);
            } else {
                assert(d[w] == x);
                assert(t.contains(x));
                let v = choose|v: int| 0 <= v < t.len() && t[v] == x;
                assert(r[v] == x);
            }
        }
        assert forall|x: Seq<char>| #[trigger] r.contains(x) implies names.contains(x) || x == s by {
            let w = choose|w: int| 0 <= w < r.len() && r[w] == x;
            if w == r.len() - 1 {
                assert(names[names.len() - 1] == x);
            } else {
                assert(t[w] == x);
                assert(t.contains(x));
                if x != s {
                    let v = choose|v: int| 0 <= v < d.len() && d[v] == x;
                    assert(names[v] == x);
                }
            }
        }
    } else {
        let last = names.last();
        assert(r == names.push(s));
        assert forall|i: int, j: int| 0 <= i < j < r.len() implies text_lt(#[trigger] r[i], #[trigger] r[j]) by {
            if j == r.len() - 1 {
                assert(r[j] == s);
                assert(r[i] == names[i]);
                assert(names[names.len() - 1] == last);
                crate::listing::lemma_text_order3(names[i], last, s);
            } else {
                assert(r[i] == names[i] && r[j] == names[j]);
            }
        }
        assert(r[r.len() - 1] == s);
        assert forall|x: Seq<char>| names.contains(x) implies #[trigger] r.contains(x) by {
            let w = choose|w: int| 0 <= w < names.len() && names[w] == x;
            assert(r[w] == x);
        }
        assert forall|x: Seq<char>| #[trigger] r.contains(x) implies names.contains(x) || x == s by {
            let w = choose|w: int| 0 <= w < r.len() && r[w] == x;
            if w < names.len() {
                assert(names[w] == x);
            }
        }
    }
}

/// The sections of the pages are ascending and are exactly the sections
/// the pages have.
pub proof fn lemma_section_names(pages: Seq<PageSummary>)
    ensures
        ascending(section_names(pages)),
        forall|i: int| 0 <= i < pages.len() ==> section_names(pages).contains(#[trigger] pages[i].section@),
        forall|x: Seq<char>|
            #[trigger] section_names(pages).contains(x) ==> exists|i: int| 0 <= i < pages.len() && pages[i].section@ == x,
    decreases pages.len(),
{
    if pages.len() > 0 {
        let d = pages.drop_last();
        lemma_section_names(d);
        let last = pages.last().section@;
        lemma_insert_name(section_names(d), last);
        assert forall|i: int| 0 <= i < pages.len() implies section_names(pages).contains(#[trigger] pages[i].section@) by {
            if i < d.len() {
                assert(d[i] == pages[i]);
                assert(section_names(d).contains(d[i].section@));
            } else {
                assert(pages[i] == pages.last());
            }
        }
        assert forall|x: Seq<char>| #[trigger] section_names(pages).contains(x) implies exists|i: int|
            0 <= i < pages.len() && pages[i].section@ == x by {
            if x == last {
                assert(pages[pages.len() - 1].section@ == x);
            } else {
                assert(section_names(d).contains(x));
                let i = choose|i: int| 0 <= i < d.len() && d[i].section@ == x;
                assert(pages[i] == d[i]);
            }
        }
    }
}

} // verus!
