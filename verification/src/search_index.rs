//! The search index of a site: what it records of each page, and the
//! warnings its settings deserve.
use vstd::prelude::*;

use crate::config::{keyed, keyed_map, lemma_meta_keyed_map, meta_keyed, SearchConfig};
use crate::generated::{insert_name_vec, insert_names, value_texts, value_texts_of};
use crate::listing::find_keyed;
use crate::markup::{make_excerpt, truncate_chars, truncated};
use crate::model::{copy_strings, opt_text, FrontMatter, Page, TocItem};
use crate::script::string_views;
use crate::search::{
    dedupe, dedupe_tokens, ngram_width, plain_text, plain_text_for_search, search_tokens_of,
    tokenize_search_text,
};
use crate::text::{chars_of, eq_str, string_of, trim, views};
use crate::util::{join, join_vecs};

verus! {

broadcast use vstd::string::group_string_axioms;

// ---------------------------------------------------------------------------
// Token helpers
// ---------------------------------------------------------------------------

/// The search tokens of a text under the settings.
pub open spec fn tokens_of(text: Seq<char>, cfg: SearchConfig) -> Seq<Seq<char>> {
    search_tokens_of(text, cfg.mode@, cfg.ngram, cfg.max_tokens)
}

fn to_char_vecs(v: &Vec<String>) -> (r: Vec<Vec<char>>)
    ensures
        views(r@) == string_views(v@),
{
    let mut out: Vec<Vec<char>> = Vec::new();
    let mut i: usize = 0;
    while i < v.len()
        invariant
            i <= v@.len(),
            views(out@) == string_views(v@).take(i as int),
        decreases v.len() - i,
    {
        let ghost before = views(out@);
        out.push(chars_of(v[i].as_str()));
        assert(views(out@) =~= before.push(v@[i as int]@));
        assert(string_views(v@).take(i + 1) =~= string_views(v@).take(i as int).push(v@[i as int]@));
        i += 1;
    }
    assert(string_views(v@).take(v@.len() as int) =~= string_views(v@));
    out
}

fn to_strings(v: &Vec<Vec<char>>) -> (r: Vec<String>)
    ensures
        string_views(r@) == views(v@),
{
    let mut out: Vec<String> = Vec::new();
    let mut i: usize = 0;
    while i < v.len()
        invariant
            i <= v@.len(),
            string_views(out@) == views(v@).take(i as int),
        decreases v.len() - i,
    {
        let ghost before = string_views(out@);
        out.push(string_of(&v[i]));
        assert(string_views(out@) =~= before.push(v@[i as int]@));
        assert(views(v@).take(i + 1) =~= views(v@).take(i as int).push(v@[i as int]@));
        i += 1;
    }
    assert(views(v@).take(v@.len() as int) =~= views(v@));
    out
}

/// The first occurrence of each non-empty token, at most
/// `max(max_tokens, 1)` of them.
fn dedupe_strings(tokens: &Vec<String>, max_tokens: usize) -> (r: Vec<String>)
    ensures
        string_views(r@) == dedupe(string_views(tokens@), max_tokens as nat),
{
    to_strings(&dedupe_tokens(&to_char_vecs(tokens), max_tokens))
}

/// Appends copies of the strings.
fn extend_strings(out: &mut Vec<String>, more: &Vec<String>)
    ensures
        string_views(final(out)@) == string_views(old(out)@) + string_views(more@),
{
    let ghost start = string_views(out@);
    let mut i: usize = 0;
    while i < more.len()
        invariant
            i <= more@.len(),
            string_views(out@) == start + string_views(more@).take(i as int),
        decreases more.len() - i,
    {
        let ghost before = string_views(out@);
        out.push(more[i].clone());
        assert(string_views(out@) =~= before.push(more@[i as int]@));
        assert(string_views(more@).take(i + 1) =~= string_views(more@).take(i as int).push(
            more@[i as int]@,
        ));
        i += 1;
    }
    assert(string_views(more@).take(more@.len() as int) =~= string_views(more@));
}

// ---------------------------------------------------------------------------
// Taxonomy text
// ---------------------------------------------------------------------------

/// The free-form fields of a page: unknown top-level fields, then the
/// `[extra]` table, whose keys win.
pub open spec fn field_map(meta: FrontMatter) -> Map<Seq<char>, crate::config::MetaView> {
    keyed_map(meta_keyed(meta.flattened_extra@)).union_prefer_right(keyed_map(meta_keyed(meta.extra@)))
}

/// The names of the free-form fields, in ascending order, each once.
pub open spec fn field_names(meta: FrontMatter) -> Seq<Seq<char>> {
    insert_names(
        Seq::<Seq<char>>::empty(),
        meta_keyed(meta.flattened_extra@ + meta.extra@).map_values(|p: (Seq<char>, crate::config::MetaView)| p.0),
    )
}

/// The texts of the fields `names` other than `tags` and `categories`,
/// name after name.
pub open spec fn fields_texts(names: Seq<Seq<char>>, m: Map<Seq<char>, crate::config::MetaView>) -> Seq<Seq<char>>
    decreases names.len(),
{
    if names.len() == 0 {
        Seq::<Seq<char>>::empty()
    } else {
        let n = names.last();
        fields_texts(names.drop_last(), m) + if n == "tags"@ || n == "categories"@ || !m.contains_key(n) {
            Seq::<Seq<char>>::empty()
        } else {
            value_texts_of(m[n])
        }
    }
}

/// The taxonomy words search indexes for a page: its tags and categories
/// (when tags are included), then the texts of its other free-form fields
/// in order of name (when taxonomies are included), joined by spaces.
pub open spec fn taxonomy_text_of(meta: FrontMatter, include_tags: bool, include_taxonomies: bool) -> Seq<char> {
    if !include_tags && !include_taxonomies {
        Seq::<char>::empty()
    } else {
        join(
            (if include_tags {
                string_views(meta.tags@) + string_views(meta.categories@)
            } else {
                Seq::<Seq<char>>::empty()
            }) + (if include_taxonomies {
                fields_texts(field_names(meta), field_map(meta))
            } else {
                Seq::<Seq<char>>::empty()
            }),
            seq![' '],
        )
    }
}

/// The taxonomy words search indexes for a page.
pub fn taxonomy_search_text(page: &Page, cfg: &SearchConfig) -> (r: String)
    ensures
        r@ == taxonomy_text_of(page.meta, cfg.include_tags, cfg.include_taxonomies),
{
    if !cfg.include_tags && !cfg.include_taxonomies {
        return String::new();
    }
    let mut parts: Vec<String> = Vec::new();
    if cfg.include_tags {
        extend_strings(&mut parts, &page.meta.tags);
        extend_strings(&mut parts, &page.meta.categories);
    }
    let ghost first = string_views(parts@);
    assert(first =~= (if cfg.include_tags {
        string_views(page.meta.tags@) + string_views(page.meta.categories@)
    } else {
        Seq::<Seq<char>>::empty()
    }));
    if cfg.include_taxonomies {
        let merged = page.meta.extra();
        let ghost m = field_map(page.meta);
        let ghost keys = meta_keyed(merged@).map_values(|p: (Seq<char>, crate::config::MetaView)| p.0);
        assert(meta_keyed(merged@) =~= meta_keyed(page.meta.flattened_extra@ + page.meta.extra@));
        let mut names: Vec<String> = Vec::new();
        let mut k: usize = 0;
        assert(keys.take(0) =~= Seq::<Seq<char>>::empty());
        while k < merged.len()
            invariant
                k <= merged@.len(),
                keys == meta_keyed(merged@).map_values(|p: (Seq<char>, crate::config::MetaView)| p.0),
                string_views(names@) == insert_names(Seq::<Seq<char>>::empty(), keys.take(k as int)),
            decreases merged.len() - k,
        {
            assert(keys.take(k + 1).drop_last() =~= keys.take(k as int));
            assert(keys.take(k + 1).last() == merged@[k as int].0@);
            insert_name_vec(&mut names, &merged[k].0);
            k += 1;
        }
        assert(keys.take(merged@.len() as int) =~= keys);
        let ghost nv = string_views(names@);
        assert(nv == field_names(page.meta));
        let mut q: usize = 0;
        assert(first + fields_texts(nv.take(0), m) =~= first);
        proof {
            lemma_meta_keyed_map(merged@);
        }
        while q < names.len()
            invariant
                q <= names@.len(),
                nv == string_views(names@),
                m == field_map(page.meta),
                keyed_map(meta_keyed(merged@)) == m,
                forall|k: Seq<char>|
                    #[trigger] keyed_map(meta_keyed(merged@)).contains_key(k) == keyed_map(
                        keyed(merged@),
                    ).contains_key(k),
                forall|k: Seq<char>|
                    #[trigger] keyed_map(keyed(merged@)).contains_key(k) ==> keyed_map(
                        meta_keyed(merged@),
                    )[k] == keyed_map(keyed(merged@))[k]@,
                string_views(parts@) == first + fields_texts(nv.take(q as int), m),
            decreases names.len() - q,
        {
            assert(nv.take(q + 1).drop_last() =~= nv.take(q as int));
            assert(nv.take(q + 1).last() == names@[q as int]@);
            let name = &names[q];
            let nc = chars_of(name.as_str());
            let ghost before = string_views(parts@);
            if !eq_str(&nc, "tags") && !eq_str(&nc, "categories") {
                match find_keyed(&merged, name) {
                    Some(i) => {
                        let texts = value_texts(&merged[i].1);
                        extend_strings(&mut parts, &texts);
                    },
                    None => {},
                }
            }
            assert(string_views(parts@) =~= first + fields_texts(nv.take(q + 1), m));
            q += 1;
        }
        assert(nv.take(names@.len() as int) =~= nv);
    } else {
        assert(first + Seq::<Seq<char>>::empty() =~= first);
    }
    let sep = chars_of(" ");
    proof {
        reveal_strlit(" ");
        assert(sep@ =~= seq![' ']);
    }
    string_of(&join_vecs(&to_char_vecs(&parts), &sep))
}

// ---------------------------------------------------------------------------
// Index entries
// ---------------------------------------------------------------------------

/// A heading of a page as the index records it.
#[derive(Debug, Clone)]
pub struct SearchHeading {
    pub level: usize,
    pub id: String,
    pub text: String,
    pub tokens: Vec<String>,
}

/// The tokens of a page by where they come from.
#[derive(Debug, Clone)]
pub struct SearchFields {
    pub title: Vec<String>,
    pub headings: Vec<String>,
    pub body: Vec<String>,
    pub taxonomies: Vec<String>,
}

/// What the index records of a page.
#[derive(Debug, Clone)]
pub struct SearchEntry {
    pub title: String,
    pub url: String,
    pub description: Option<String>,
    pub date: Option<String>,
    pub updated: Option<String>,
    pub weight: Option<i64>,
    pub section: String,
    pub tags: Vec<String>,
    pub categories: Vec<String>,
    pub excerpt: String,
    /// Full body text. Empty when `search.compact = true`.
    pub text: String,
    pub tokens: Vec<String>,
    pub headings: Vec<SearchHeading>,
    pub fields: SearchFields,
}

/// The settings the index states.
#[derive(Debug, Clone)]
pub struct SearchIndexConfig {
    pub mode: String,
    pub ngram: usize,
    pub compact: bool,
}

/// The search index of a site.
#[derive(Debug, Clone)]
pub struct SearchIndex {
    pub version: u32,
    pub config: SearchIndexConfig,
    pub pages: Vec<SearchEntry>,
}

/// The text search reads of a page.
pub open spec fn page_text_of(page: Page) -> Seq<char> {
    plain_text(page.processed_body@)
}

/// The excerpt the index shows of a page: its own, else its description,
/// else the first 180 characters of its text, trimmed.
pub open spec fn excerpt_of(page: Page) -> Seq<char> {
    match opt_text(page.meta.excerpt) {
        Some(e) => e,
        None => match opt_text(page.meta.description) {
            Some(d) => d,
            None => trim(truncated(page_text_of(page), 180)),
        },
    }
}

/// A heading as the index records it: its level and id, its text cut to
/// the heading limit, and the tokens of its text.
pub open spec fn heading_ok(h: SearchHeading, item: TocItem, cfg: SearchConfig) -> bool {
    &&& h.level == item.level
    &&& h.id@ == item.id@
    &&& h.text@ == truncated(item.text@, cfg.max_heading_chars as nat)
    &&& string_views(h.tokens@) == tokens_of(item.text@, cfg)
}

/// The tokens of the headings, heading after heading.
pub open spec fn toc_tokens(toc: Seq<TocItem>, cfg: SearchConfig) -> Seq<Seq<char>>
    decreases toc.len(),
{
    if toc.len() == 0 {
        Seq::<Seq<char>>::empty()
    } else {
        toc_tokens(toc.drop_last(), cfg) + tokens_of(toc.last().text@, cfg)
    }
}

/// The heading tokens of a page (none when headings are left out).
pub open spec fn heading_tokens_of(page: Page, cfg: SearchConfig) -> Seq<Seq<char>> {
    dedupe(
        if cfg.include_headings {
            toc_tokens(page.toc@, cfg)
        } else {
            Seq::<Seq<char>>::empty()
        },
        cfg.max_tokens as nat,
    )
}

/// The body tokens of a page (none when the body is left out).
pub open spec fn body_tokens_of(page: Page, cfg: SearchConfig) -> Seq<Seq<char>> {
    if cfg.include_body {
        tokens_of(page_text_of(page), cfg)
    } else {
        Seq::<Seq<char>>::empty()
    }
}

/// The text of an optional string, empty when there is none.
pub open spec fn text_or_empty(o: Option<String>) -> Seq<char> {
    match o {
        Some(s) => s@,
        None => Seq::<char>::empty(),
    }
}

/// All tokens of a page: of its title, description and excerpt, its
/// heading, body and taxonomy tokens, first occurrences only, at most
/// `max_tokens`.
pub open spec fn entry_tokens_of(page: Page, cfg: SearchConfig) -> Seq<Seq<char>> {
    dedupe(
        tokens_of(page.title@, cfg) + tokens_of(text_or_empty(page.meta.description), cfg) + tokens_of(
            excerpt_of(page),
            cfg,
        ) + heading_tokens_of(page, cfg) + body_tokens_of(page, cfg) + tokens_of(
            taxonomy_text_of(page.meta, cfg.include_tags, cfg.include_taxonomies),
            cfg,
        ),
        cfg.max_tokens as nat,
    )
}

/// What the index records of a page.
pub open spec fn search_entry_ok(e: SearchEntry, page: Page, cfg: SearchConfig) -> bool {
    &&& e.title@ == page.title@
    &&& e.url@ == page.url@
    &&& opt_text(e.description) == opt_text(page.meta.description)
    &&& opt_text(e.date) == opt_text(page.meta.date)
    &&& opt_text(e.updated) == opt_text(page.meta.updated)
    &&& e.weight == page.meta.weight
    &&& e.section@ == page.section@
    &&& string_views(e.tags@) == string_views(page.meta.tags@)
    &&& string_views(e.categories@) == string_views(page.meta.categories@)
    &&& e.excerpt@ == excerpt_of(page)
    &&& e.text@ == (if cfg.compact {
        Seq::<char>::empty()
    } else {
        truncated(page_text_of(page), cfg.max_body_chars as nat)
    })
    &&& string_views(e.tokens@) == entry_tokens_of(page, cfg)
    &&& e.headings@.len() == (if cfg.include_headings {
        page.toc@.len()
    } else {
        0
    })
    &&& forall|k: int| 0 <= k < e.headings@.len() ==> heading_ok(#[trigger] e.headings@[k], page.toc@[k], cfg)
    &&& string_views(e.fields.title@) == tokens_of(page.title@, cfg)
    &&& string_views(e.fields.headings@) == heading_tokens_of(page, cfg)
    &&& string_views(e.fields.body@) == body_tokens_of(page, cfg)
    &&& string_views(e.fields.taxonomies@) == tokens_of(taxonomy_text_of(page.meta, cfg.include_tags, cfg.include_taxonomies), cfg)
}

fn copy_opt_string(o: &Option<String>) -> (r: Option<String>)
    ensures
        opt_text(r) == opt_text(*o),
{
    match o {
        Some(s) => Some(s.clone()),
        None => None,
    }
}

/// The headings of a page as the index records them, with their tokens
/// in order.
fn search_headings(toc: &Vec<TocItem>, cfg: &SearchConfig) -> (r: (Vec<SearchHeading>, Vec<String>))
    ensures
        r.0@.len() == toc@.len(),
        forall|k: int| 0 <= k < r.0@.len() ==> heading_ok(#[trigger] r.0@[k], toc@[k], *cfg),
        string_views(r.1@) == toc_tokens(toc@, *cfg),
{
    let mut out: Vec<SearchHeading> = Vec::new();
    let mut all: Vec<String> = Vec::new();
    let mut i: usize = 0;
    assert(toc@.take(0) =~= Seq::<TocItem>::empty());
    while i < toc.len()
        invariant
            i <= toc@.len(),
            out@.len() == i,
            forall|k: int| 0 <= k < i ==> heading_ok(#[trigger] out@[k], toc@[k], *cfg),
            string_views(all@) == toc_tokens(toc@.take(i as int), *cfg),
        decreases toc.len() - i,
    {
        let item = &toc[i];
        let tokens = tokenize_search_text(item.text.as_str(), cfg);
        assert(toc@.take(i + 1).drop_last() =~= toc@.take(i as int));
        assert(toc@.take(i + 1).last() == *item);
        extend_strings(&mut all, &tokens);
        out.push(SearchHeading {
            level: item.level,
            id: item.id.clone(),
            text: truncate_chars(item.text.as_str(), cfg.max_heading_chars),
            tokens,
        });
        i += 1;
    }
    assert(toc@.take(toc@.len() as int) =~= toc@);
    (out, all)
}

/// What the index records of a page.
pub fn search_entry(page: &Page, cfg: &SearchConfig) -> (r: SearchEntry)
    ensures
        search_entry_ok(r, *page, *cfg),
{
    let text = plain_text_for_search(page.processed_body.as_str());
    let excerpt = match &page.meta.excerpt {
        Some(e) => e.clone(),
        None => match &page.meta.description {
            Some(d) => d.clone(),
            None => make_excerpt(text.as_str(), 180),
        },
    };
    let title_tokens = tokenize_search_text(page.title.as_str(), cfg);
    let (headings, toc_all) = if cfg.include_headings {
        search_headings(&page.toc, cfg)
    } else {
        let h: Vec<SearchHeading> = Vec::new();
        let t: Vec<String> = Vec::new();
        assert(string_views(t@) =~= Seq::<Seq<char>>::empty());
        (h, t)
    };
    let heading_tokens = dedupe_strings(&toc_all, cfg.max_tokens);
    let body_tokens = if cfg.include_body {
        tokenize_search_text(text.as_str(), cfg)
    } else {
        let t: Vec<String> = Vec::new();
        assert(string_views(t@) =~= Seq::<Seq<char>>::empty());
        t
    };
    let taxonomy_text = taxonomy_search_text(page, cfg);
    let taxonomy_tokens = tokenize_search_text(taxonomy_text.as_str(), cfg);
    let description = match &page.meta.description {
        Some(d) => d.clone(),
        None => String::new(),
    };
    let mut all: Vec<String> = Vec::new();
    extend_strings(&mut all, &title_tokens);
    extend_strings(&mut all, &tokenize_search_text(description.as_str(), cfg));
    extend_strings(&mut all, &tokenize_search_text(excerpt.as_str(), cfg));
    extend_strings(&mut all, &heading_tokens);
    extend_strings(&mut all, &body_tokens);
    extend_strings(&mut all, &taxonomy_tokens);
    assert(description@ == text_or_empty(page.meta.description));
    let tokens = dedupe_strings(&all, cfg.max_tokens);
    let body_text = if cfg.compact {
        String::new()
    } else {
        truncate_chars(text.as_str(), cfg.max_body_chars)
    };
    SearchEntry {
        title: page.title.clone(),
        url: page.url.clone(),
        description: copy_opt_string(&page.meta.description),
        date: copy_opt_string(&page.meta.date),
        updated: copy_opt_string(&page.meta.updated),
        weight: page.meta.weight,
        section: page.section.clone(),
        tags: copy_strings(&page.meta.tags),
        categories: copy_strings(&page.meta.categories),
        excerpt,
        text: body_text,
        tokens,
        headings,
        fields: SearchFields {
            title: title_tokens,
            headings: heading_tokens,
            body: body_tokens,
            taxonomies: taxonomy_tokens,
        },
    }
}

/// The search index of the pages: version 2, the settings it was made
/// with (the n-gram width clamped to 1..8), and an entry per page.
pub fn search_index(pages: &Vec<Page>, cfg: &SearchConfig) -> (r: SearchIndex)
    ensures
        r.version == 2,
        r.config.mode@ == cfg.mode@,
        r.config.ngram as nat == ngram_width(cfg.ngram),
        r.config.compact == cfg.compact,
        r.pages@.len() == pages@.len(),
        forall|k: int| 0 <= k < pages@.len() ==> search_entry_ok(#[trigger] r.pages@[k], pages@[k], *cfg),
{
    let mut entries: Vec<SearchEntry> = Vec::new();
    let mut i: usize = 0;
    while i < pages.len()
        invariant
            i <= pages@.len(),
            entries@.len() == i,
            forall|k: int| 0 <= k < i ==> search_entry_ok(#[trigger] entries@[k], pages@[k], *cfg),
        decreases pages.len() - i,
    {
        entries.push(search_entry(&pages[i], cfg));
        i += 1;
    }
    let ngram = if cfg.ngram < 1 {
        1
    } else if cfg.ngram > 8 {
        8
    } else {
        cfg.ngram
    };
    SearchIndex {
        version: 2,
        config: SearchIndexConfig { mode: cfg.mode.clone(), ngram, compact: cfg.compact },
        pages: entries,
    }
}

/// The search tokens of a text under the default settings.
pub open spec fn default_tokens_of(text: Seq<char>) -> Seq<Seq<char>> {
    search_tokens_of(text, "auto"@, 2, 2048)
}

/// The tokens a page gets under the default search settings, given its
/// text and excerpt: those of its title, description, excerpt, text and
/// taxonomy words, first occurrences only, at most 2048.
pub open spec fn page_tokens_of(page: Page, text: Seq<char>, excerpt: Seq<char>) -> Seq<Seq<char>> {
    dedupe(
        default_tokens_of(page.title@) + default_tokens_of(text_or_empty(page.meta.description))
            + default_tokens_of(excerpt) + default_tokens_of(text) + default_tokens_of(
            taxonomy_text_of(page.meta, true, true),
        ),
        2048,
    )
}

/// The tokens a page gets under the default search settings.
pub fn search_tokens(page: &Page, text: &str, excerpt: &str) -> (r: Vec<String>)
    ensures
        string_views(r@) == page_tokens_of(*page, text@, excerpt@),
{
    let cfg = SearchConfig::default();
    let description = match &page.meta.description {
        Some(d) => d.clone(),
        None => String::new(),
    };
    let mut all: Vec<String> = Vec::new();
    extend_strings(&mut all, &tokenize_search_text(page.title.as_str(), &cfg));
    extend_strings(&mut all, &tokenize_search_text(description.as_str(), &cfg));
    extend_strings(&mut all, &tokenize_search_text(excerpt, &cfg));
    extend_strings(&mut all, &tokenize_search_text(text, &cfg));
    extend_strings(&mut all, &tokenize_search_text(taxonomy_search_text(page, &cfg).as_str(), &cfg));
    dedupe_strings(&all, cfg.max_tokens)
}

// ---------------------------------------------------------------------------
// Diagnostics
// ---------------------------------------------------------------------------

/// What search reports of its settings and the pages: a summary line,
/// and warnings.
#[derive(Debug, Clone)]
pub struct SearchDiagnostics {
    pub summary: Option<String>,
    pub warnings: Vec<String>,
}

/// The search modes there are.
pub open spec fn known_mode(m: Seq<char>) -> bool {
    m == "auto"@ || m == "latin"@ || m == "cjk"@ || m == "ngram"@ || m == "ngram-only"@
}

/// How many characters the index reads of the pages: their titles,
/// descriptions and texts.
pub open spec fn indexed_chars_of(pages: Seq<Page>) -> nat
    decreases pages.len(),
{
    if pages.len() == 0 {
        0
    } else {
        let p = pages.last();
        indexed_chars_of(pages.drop_last()) + p.title@.len() + text_or_empty(p.meta.description).len()
            + page_text_of(p).len()
    }
}

/// Whether a text holds a CJK character.
pub open spec fn has_cjk(s: Seq<char>) -> bool {
    exists|i: int| 0 <= i < s.len() && crate::search::is_cjk_char(#[trigger] s[i])
}

/// How many pages hold CJK text in their text or title.
pub open spec fn cjk_pages_of(pages: Seq<Page>) -> nat
    decreases pages.len(),
{
    if pages.len() == 0 {
        0
    } else {
        let p = pages.last();
        cjk_pages_of(pages.drop_last()) + if has_cjk(page_text_of(p)) || has_cjk(p.title@) {
            1nat
        } else {
            0nat
        }
    }
}

/// A decimal number.
pub open spec fn dec(n: nat) -> Seq<char> {
    crate::url::decimal(n)
}

/// The summary line of search.
pub open spec fn summary_of(cfg: SearchConfig, pages: Seq<Page>) -> Seq<char> {
    "search: enabled mode="@ + cfg.mode@ + " ngram="@ + dec(ngram_width(cfg.ngram)) + " compact="@ + (
    if cfg.compact {
        "true"@
    } else {
        "false"@
    }) + " pages="@ + dec(pages.len()) + " cjk_pages="@ + dec(cjk_pages_of(pages))
        + " indexed_chars\u{2248}"@ + dec(indexed_chars_of(pages))
}

/// The warnings search gives: an unknown mode, an n-gram width out of
/// range, CJK text under the latin mode, and a large index that is not
/// compact.
pub open spec fn warnings_of(cfg: SearchConfig, pages: Seq<Page>) -> Seq<Seq<char>> {
    (if !known_mode(cfg.mode@) {
        seq![
            "unknown search.mode `"@ + cfg.mode@
                + "`; expected auto, latin, cjk, ngram, or ngram-only"@,
        ]
    } else {
        Seq::<Seq<char>>::empty()
    }) + (if cfg.ngram == 0 || cfg.ngram > 8 {
        seq![
            "search.ngram="@ + dec(cfg.ngram as nat) + " will be clamped to "@ + dec(
                ngram_width(cfg.ngram),
            ),
        ]
    } else {
        Seq::<Seq<char>>::empty()
    }) + (if cjk_pages_of(pages) > 0 && cfg.mode@ == "latin"@ {
        seq![
            "CJK text detected but search.mode = \"latin\"; consider mode = \"cjk\" or \"auto\""@,
        ]
    } else {
        Seq::<Seq<char>>::empty()
    }) + (if !cfg.compact && indexed_chars_of(pages) > 500_000 {
        seq![
            "search index may be large ("@ + dec(indexed_chars_of(pages))
                + " indexed chars); consider [search] compact = true"@,
        ]
    } else {
        Seq::<Seq<char>>::empty()
    })
}

fn has_cjk_vec(v: &Vec<char>) -> (r: bool)
    ensures
        r == has_cjk(v@),
{
    let mut i: usize = 0;
    while i < v.len()
        invariant
            i <= v@.len(),
            forall|k: int| 0 <= k < i ==> !crate::search::is_cjk_char(#[trigger] v@[k]),
        decreases v.len() - i,
    {
        if crate::search::is_cjk(v[i]) {
            return true;
        }
        i += 1;
    }
    false
}

fn append(s: &mut String, t: &str)
    ensures
        final(s)@ == old(s)@ + t@,
{
    crate::text::push_chars(s, &chars_of(t));
}

fn append_number(s: &mut String, n: usize)
    ensures
        final(s)@ == old(s)@ + dec(n as nat),
{
    crate::text::push_chars(s, &crate::url::usize_to_decimal(n));
}

/// What search reports: nothing when it is off; else its summary line
/// and its warnings.
pub fn search_diagnostics(cfg: &SearchConfig, pages: &Vec<Page>) -> (r: SearchDiagnostics)
    requires
        indexed_chars_of(pages@) <= usize::MAX,
    ensures
        cfg.enabled ==> (r.summary matches Some(x) && x@ == summary_of(*cfg, pages@)),
        !cfg.enabled ==> r.summary is None,
        string_views(r.warnings@) == (if cfg.enabled {
            warnings_of(*cfg, pages@)
        } else {
            Seq::<Seq<char>>::empty()
        }),
{
    if !cfg.enabled {
        let w: Vec<String> = Vec::new();
        assert(string_views(w@) =~= Seq::<Seq<char>>::empty());
        return SearchDiagnostics { summary: None, warnings: w };
    }
    let mode = chars_of(cfg.mode.as_str());
    let known = eq_str(&mode, "auto") || eq_str(&mode, "latin") || eq_str(&mode, "cjk") || eq_str(
        &mode,
        "ngram",
    ) || eq_str(&mode, "ngram-only");
    let width: usize = if cfg.ngram < 1 {
        1
    } else if cfg.ngram > 8 {
        8
    } else {
        cfg.ngram
    };
    // Count what the index reads.
    let mut indexed: usize = 0;
    let mut cjk: usize = 0;
    let mut i: usize = 0;
    while i < pages.len()
        invariant
            i <= pages@.len(),
            indexed_chars_of(pages@) <= usize::MAX,
            indexed as nat == indexed_chars_of(pages@.take(i as int)),
            cjk as nat == cjk_pages_of(pages@.take(i as int)),
            cjk <= i,
        decreases pages.len() - i,
    {
        let page = &pages[i];
        assert(pages@.take(i + 1).drop_last() =~= pages@.take(i as int));
        assert(pages@.take(i + 1).last() == *page);
        proof {
            lemma_indexed_prefix(pages@, i as int + 1);
        }
        let text = chars_of(plain_text_for_search(page.processed_body.as_str()).as_str());
        let title = chars_of(page.title.as_str());
        let desc_len = match &page.meta.description {
            Some(d) => chars_of(d.as_str()).len(),
            None => 0,
        };
        indexed = indexed + title.len() + desc_len + text.len();
        if has_cjk_vec(&text) || has_cjk_vec(&title) {
            cjk = cjk + 1;
        }
        i += 1;
    }
    assert(pages@.take(pages@.len() as int) =~= pages@);
    let mut warnings: Vec<String> = Vec::new();
    let ghost w0 = string_views(warnings@);
    if !known {
        let mut m = String::new();
        append(&mut m, "unknown search.mode `");
        append(&mut m, cfg.mode.as_str());
        append(&mut m, "`; expected auto, latin, cjk, ngram, or ngram-only");
        warnings.push(m);
    }
    if cfg.ngram == 0 || cfg.ngram > 8 {
        let mut m = String::new();
        append(&mut m, "search.ngram=");
        append_number(&mut m, cfg.ngram);
        append(&mut m, " will be clamped to ");
        append_number(&mut m, width);
        warnings.push(m);
    }
    let mut line = String::new();
    append(&mut line, "search: enabled mode=");
    append(&mut line, cfg.mode.as_str());
    append(&mut line, " ngram=");
    append_number(&mut line, width);
    append(&mut line, " compact=");
    if cfg.compact {
        append(&mut line, "true");
    } else {
        append(&mut line, "false");
    }
    append(&mut line, " pages=");
    append_number(&mut line, pages.len());
    append(&mut line, " cjk_pages=");
    append_number(&mut line, cjk);
    append(&mut line, " indexed_chars\u{2248}");
    append_number(&mut line, indexed);
    assert(line@ =~= summary_of(*cfg, pages@));
    if cjk > 0 && eq_str(&mode, "latin") {
        warnings.push(
            String::from_str(
                "CJK text detected but search.mode = \"latin\"; consider mode = \"cjk\" or \"auto\"",
            ),
        );
    }
    if !cfg.compact && indexed > 500_000 {
        let mut m = String::new();
        append(&mut m, "search index may be large (");
        append_number(&mut m, indexed);
        append(&mut m, " indexed chars); consider [search] compact = true");
        warnings.push(m);
    }
    assert(string_views(warnings@) =~= warnings_of(*cfg, pages@));
    SearchDiagnostics { summary: Some(line), warnings }
}

proof fn lemma_indexed_prefix(pages: Seq<Page>, k: int)
    requires
        0 <= k <= pages.len(),
    ensures
        indexed_chars_of(pages.take(k)) <= indexed_chars_of(pages),
    decreases pages.len() - k,
{
    if k < pages.len() {
        lemma_indexed_prefix(pages, k + 1);
        assert(pages.take(k + 1).drop_last() =~= pages.take(k));
    } else {
        assert(pages.take(k) =~= pages);
    }
}

} // verus!
