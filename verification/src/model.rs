//! Records of the content model and of a build: page metadata,
//! table-of-contents entries, the build cache, and build counters.
use vstd::prelude::*;

use crate::config::{copy_value, keyed, keyed_map, meta_keyed, MetaValue};
use crate::escape::{escaped, Escape};
use crate::script::string_views;

verus! {

/// The metadata of a page, from its front matter or metadata directive.
#[derive(Debug, Clone)]
pub struct FrontMatter {
    pub title: Option<String>,
    pub description: Option<String>,
    pub date: Option<String>,
    pub updated: Option<String>,
    pub expires: Option<String>,
    pub weight: Option<i64>,
    pub lang: Option<String>,
    pub draft: bool,
    pub slug: Option<String>,
    /// Optional per-page permalink pattern. When omitted, the site's
    /// pattern or the directory URL of the source path is used.
    pub permalink: Option<String>,
    pub template: Option<String>,
    pub section: Option<String>,
    pub tags: Vec<String>,
    pub categories: Vec<String>,
    pub aliases: Vec<String>,
    pub build_pdf: Option<bool>,
    pub excerpt: Option<String>,
    pub toc: Option<bool>,
    pub sort_by: Option<String>,
    pub paginate_by: Option<usize>,
    /// The `[extra]` table, as a keyed list.
    pub extra: Vec<(String, MetaValue)>,
    /// Unknown top-level fields, kept as metadata, as a keyed list.
    pub flattened_extra: Vec<(String, MetaValue)>,
}

impl Default for FrontMatter {
    fn default() -> (r: Self)
        ensures
            r.title is None,
            r.description is None,
            r.date is None,
            r.updated is None,
            r.expires is None,
            r.weight is None,
            r.lang is None,
            !r.draft,
            r.slug is None,
            r.permalink is None,
            r.template is None,
            r.section is None,
            r.tags@.len() == 0,
            r.categories@.len() == 0,
            r.aliases@.len() == 0,
            r.build_pdf is None,
            r.excerpt is None,
            r.toc is None,
            r.sort_by is None,
            r.paginate_by is None,
            r.extra@.len() == 0,
            r.flattened_extra@.len() == 0,
    {
        FrontMatter {
            title: None,
            description: None,
            date: None,
            updated: None,
            expires: None,
            weight: None,
            lang: None,
            draft: false,
            slug: None,
            permalink: None,
            template: None,
            section: None,
            tags: Vec::new(),
            categories: Vec::new(),
            aliases: Vec::new(),
            build_pdf: None,
            excerpt: None,
            toc: None,
            sort_by: None,
            paginate_by: None,
            extra: Vec::new(),
            flattened_extra: Vec::new(),
        }
    }
}

/// One heading of a page's table of contents.
#[derive(Debug, Clone)]
pub struct TocItem {
    pub level: usize,
    pub id: String,
    pub text: String,
}

/// What the build cache remembers of one page or generated output.
#[derive(Debug, Clone)]
pub struct CacheEntry {
    pub hash: String,
    pub outputs: Vec<String>,
}

/// The build cache: entries by cache key, as a keyed list (a later entry
/// for a key replaces an earlier one).
#[derive(Debug)]
pub struct BuildCache {
    pub entries: Vec<(String, CacheEntry)>,
}

/// Counters of one build.
#[derive(Debug)]
pub struct BuildStats {
    pub built: usize,
    pub skipped: usize,
    pub drafts: usize,
    pub future: usize,
    pub expired: usize,
    pub generated: usize,
    pub failed: usize,
}

/// Pages left out of a build, by reason.
#[derive(Debug, Clone, Copy)]
pub struct SkipStats {
    pub drafts: usize,
    pub future: usize,
    pub expired: usize,
}

impl SkipStats {
    /// The number of pages left out for any reason.
    pub fn total(self) -> (r: usize)
        requires
            self.drafts + self.future + self.expired <= usize::MAX,
        ensures
            r == self.drafts + self.future + self.expired,
    {
        self.drafts + self.future + self.expired
    }
}

impl Default for BuildCache {
    fn default() -> (r: Self)
        ensures
            r.entries@.len() == 0,
    {
        BuildCache { entries: Vec::new() }
    }
}

impl Default for BuildStats {
    fn default() -> (r: Self)
        ensures
            r.built == 0,
            r.skipped == 0,
            r.drafts == 0,
            r.future == 0,
            r.expired == 0,
            r.generated == 0,
            r.failed == 0,
    {
        BuildStats { built: 0, skipped: 0, drafts: 0, future: 0, expired: 0, generated: 0, failed: 0 }
    }
}

impl Default for SkipStats {
    fn default() -> (r: Self)
        ensures
            r.drafts == 0,
            r.future == 0,
            r.expired == 0,
    {
        SkipStats { drafts: 0, future: 0, expired: 0 }
    }
}

// ---------------------------------------------------------------------------
// Pages
// ---------------------------------------------------------------------------

/// A keyed list followed by another stands for the first table updated
/// with the second.
pub proof fn lemma_keyed_map_concat<V>(a: Seq<(Seq<char>, V)>, b: Seq<(Seq<char>, V)>)
    ensures
        keyed_map(a + b) == keyed_map(a).union_prefer_right(keyed_map(b)),
    decreases b.len(),
{
    if b.len() == 0 {
        assert(a + b =~= a);
        assert(keyed_map(a).union_prefer_right(Map::<Seq<char>, V>::empty()) =~= keyed_map(a));
    } else {
        lemma_keyed_map_concat(a, b.drop_last());
        assert((a + b).drop_last() =~= a + b.drop_last());
        assert((a + b).last() == b.last());
        assert(keyed_map(a + b) =~= keyed_map(a).union_prefer_right(keyed_map(b)));
    }
}

/// Appends copies of the entries of `v` to `out`.
fn append_values(out: &mut Vec<(String, MetaValue)>, v: &Vec<(String, MetaValue)>)
    ensures
        meta_keyed(final(out)@) == meta_keyed(old(out)@) + meta_keyed(v@),
{
    let ghost start = meta_keyed(out@);
    let mut i: usize = 0;
    while i < v.len()
        invariant
            i <= v.len(),
            meta_keyed(out@) == start + meta_keyed(v@).take(i as int),
        decreases v.len() - i,
    {
        let ghost before = meta_keyed(out@);
        let k = v[i].0.clone();
        let x = copy_value(&v[i].1);
        out.push((k, x));
        assert(meta_keyed(out@) =~= before.push((v@[i as int].0@, v@[i as int].1@)));
        assert(meta_keyed(v@).take(i + 1) =~= meta_keyed(v@).take(i as int).push(meta_keyed(v@)[i as int]));
        i += 1;
    }
    assert(meta_keyed(v@).take(v.len() as int) =~= meta_keyed(v@));
}

impl FrontMatter {
    /// The page's free-form metadata: unknown top-level fields, then the
    /// `[extra]` table, whose keys win.
    pub fn extra(&self) -> (r: Vec<(String, MetaValue)>)
        ensures
            meta_keyed(r@) == meta_keyed(self.flattened_extra@) + meta_keyed(self.extra@),
            keyed_map(meta_keyed(r@)) == keyed_map(meta_keyed(self.flattened_extra@)).union_prefer_right(
                keyed_map(meta_keyed(self.extra@)),
            ),
    {
        let mut merged: Vec<(String, MetaValue)> = Vec::new();
        append_values(&mut merged, &self.flattened_extra);
        append_values(&mut merged, &self.extra);
        assert(meta_keyed(merged@) =~= meta_keyed(self.flattened_extra@) + meta_keyed(self.extra@));
        proof {
            lemma_keyed_map_concat(meta_keyed(self.flattened_extra@), meta_keyed(self.extra@));
        }
        merged
    }
}

/// A content page, as read and placed by a build.
#[derive(Debug, Clone)]
pub struct Page {
    pub source: String,
    pub rel: String,
    pub body: String,
    pub processed_body: String,
    pub meta: FrontMatter,
    pub title: String,
    pub url: String,
    pub canonical_url: String,
    pub slug: String,
    /// URL-ish content path without extension, e.g. `posts/hello`.
    pub path: String,
    /// Source file path relative to the content directory, e.g.
    /// `posts/hello.typ`.
    pub file_path: String,
    pub output_html: String,
    pub output_pdf: String,
    pub template: String,
    pub section: String,
    pub parent_section: Option<String>,
    pub ancestors: Vec<String>,
    pub toc: Vec<TocItem>,
    pub hash: String,
    pub prev_title: Option<String>,
    pub prev_url: Option<String>,
    pub next_title: Option<String>,
    pub next_url: Option<String>,
}

/// What templates and feeds see of a page.
#[derive(Debug, Clone)]
pub struct PageSummary {
    pub kind: String,
    pub title: String,
    pub url: String,
    pub canonical_url: String,
    pub slug: String,
    pub path: String,
    pub file_path: String,
    pub description: Option<String>,
    pub date: Option<String>,
    pub updated: Option<String>,
    pub weight: Option<i64>,
    pub section: String,
    pub parent_section: Option<String>,
    pub ancestors: Vec<String>,
    pub tags: Vec<String>,
    pub categories: Vec<String>,
    pub aliases: Vec<String>,
    pub source: String,
    pub excerpt: Option<String>,
    pub toc: Vec<TocItem>,
    pub extra: Vec<(String, MetaValue)>,
}

/// A page a build generates itself: a section, taxonomy or pagination
/// page.
#[derive(Debug, Clone)]
pub struct GeneratedPage {
    pub kind: String,
    pub title: String,
    pub description: Option<String>,
    pub url: String,
    pub output_html: String,
    pub items: Vec<PageSummary>,
    pub page_number: usize,
    pub total_pages: usize,
    pub prev_title: Option<String>,
    pub prev_url: Option<String>,
    pub next_title: Option<String>,
    pub next_url: Option<String>,
}

/// The text of an optional string.
pub open spec fn opt_text(o: Option<String>) -> Option<Seq<char>> {
    match o {
        Some(s) => Some(s@),
        None => None,
    }
}

/// The fields of table-of-contents entries.
pub open spec fn toc_view(v: Seq<TocItem>) -> Seq<(usize, Seq<char>, Seq<char>)> {
    v.map_values(|t: TocItem| (t.level, t.id@, t.text@))
}

fn copy_opt(o: &Option<String>) -> (r: Option<String>)
    ensures
        opt_text(r) == opt_text(*o),
{
    match o {
        Some(s) => Some(s.clone()),
        None => None,
    }
}

pub(crate) fn copy_strings(v: &Vec<String>) -> (r: Vec<String>)
    ensures
        string_views(r@) == string_views(v@),
{
    let mut out: Vec<String> = Vec::new();
    let mut i: usize = 0;
    while i < v.len()
        invariant
            i <= v.len(),
            string_views(out@) == string_views(v@).take(i as int),
        decreases v.len() - i,
    {
        let ghost before = string_views(out@);
        out.push(v[i].clone());
        assert(string_views(out@) =~= before.push(v@[i as int]@));
        assert(string_views(v@).take(i + 1) =~= string_views(v@).take(i as int).push(v@[i as int]@));
        i += 1;
    }
    assert(string_views(v@).take(v.len() as int) =~= string_views(v@));
    out
}

fn copy_toc(v: &Vec<TocItem>) -> (r: Vec<TocItem>)
    ensures
        toc_view(r@) == toc_view(v@),
{
    let mut out: Vec<TocItem> = Vec::new();
    let mut i: usize = 0;
    while i < v.len()
        invariant
            i <= v.len(),
            toc_view(out@) == toc_view(v@).take(i as int),
        decreases v.len() - i,
    {
        let ghost before = toc_view(out@);
        let item = TocItem { level: v[i].level, id: v[i].id.clone(), text: v[i].text.clone() };
        out.push(item);
        assert(toc_view(out@) =~= before.push(toc_view(v@)[i as int]));
        assert(toc_view(v@).take(i + 1) =~= toc_view(v@).take(i as int).push(toc_view(v@)[i as int]));
        i += 1;
    }
    assert(toc_view(v@).take(v.len() as int) =~= toc_view(v@));
    out
}

impl Page {
    /// What templates and feeds see of the page: a `page` record with its
    /// address and metadata, the source path with `/` separators, the
    /// excerpt or else the description, and the merged free-form metadata.
    pub fn summary(&self) -> (r: PageSummary)
        ensures
            r.kind@ == "page"@,
            r.title@ == self.title@,
            r.url@ == self.url@,
            r.canonical_url@ == self.canonical_url@,
            r.slug@ == self.slug@,
            r.path@ == self.path@,
            r.file_path@ == self.file_path@,
            opt_text(r.description) == opt_text(self.meta.description),
            opt_text(r.date) == opt_text(self.meta.date),
            opt_text(r.updated) == opt_text(self.meta.updated),
            r.weight == self.meta.weight,
            r.section@ == self.section@,
            opt_text(r.parent_section) == opt_text(self.parent_section),
            string_views(r.ancestors@) == string_views(self.ancestors@),
            string_views(r.tags@) == string_views(self.meta.tags@),
            string_views(r.categories@) == string_views(self.meta.categories@),
            string_views(r.aliases@) == string_views(self.meta.aliases@),
            r.source@ == escaped(Escape::YamlPath, self.rel@),
            opt_text(r.excerpt) == (match self.meta.excerpt {
                Some(e) => Some(e@),
                None => opt_text(self.meta.description),
            }),
            toc_view(r.toc@) == toc_view(self.toc@),
            keyed_map(meta_keyed(r.extra@)) == keyed_map(meta_keyed(self.meta.flattened_extra@)).union_prefer_right(
                keyed_map(meta_keyed(self.meta.extra@)),
            ),
    {
        let excerpt = match &self.meta.excerpt {
            Some(e) => Some(e.clone()),
            None => copy_opt(&self.meta.description),
        };
        PageSummary {
            kind: String::from_str("page"),
            title: self.title.clone(),
            url: self.url.clone(),
            canonical_url: self.canonical_url.clone(),
            slug: self.slug.clone(),
            path: self.path.clone(),
            file_path: self.file_path.clone(),
            description: copy_opt(&self.meta.description),
            date: copy_opt(&self.meta.date),
            updated: copy_opt(&self.meta.updated),
            weight: self.meta.weight,
            section: self.section.clone(),
            parent_section: copy_opt(&self.parent_section),
            ancestors: copy_strings(&self.ancestors),
            tags: copy_strings(&self.meta.tags),
            categories: copy_strings(&self.meta.categories),
            aliases: copy_strings(&self.meta.aliases),
            source: crate::escape::path_for_yaml(self.rel.as_str()),
            excerpt,
            toc: copy_toc(&self.toc),
            extra: self.meta.extra(),
        }
    }
}

/// Whether two page summaries hold the same values.
pub open spec fn same_summary(a: PageSummary, b: PageSummary) -> bool {
    &&& a.kind@ == b.kind@
    &&& a.title@ == b.title@
    &&& a.url@ == b.url@
    &&& a.canonical_url@ == b.canonical_url@
    &&& a.slug@ == b.slug@
    &&& a.path@ == b.path@
    &&& a.file_path@ == b.file_path@
    &&& opt_text(a.description) == opt_text(b.description)
    &&& opt_text(a.date) == opt_text(b.date)
    &&& opt_text(a.updated) == opt_text(b.updated)
    &&& a.weight == b.weight
    &&& a.section@ == b.section@
    &&& opt_text(a.parent_section) == opt_text(b.parent_section)
    &&& string_views(a.ancestors@) == string_views(b.ancestors@)
    &&& string_views(a.tags@) == string_views(b.tags@)
    &&& string_views(a.categories@) == string_views(b.categories@)
    &&& string_views(a.aliases@) == string_views(b.aliases@)
    &&& a.source@ == b.source@
    &&& opt_text(a.excerpt) == opt_text(b.excerpt)
    &&& toc_view(a.toc@) == toc_view(b.toc@)
    &&& meta_keyed(a.extra@) == meta_keyed(b.extra@)
}

impl PageSummary {
    /// A copy of the summary.
    pub fn copy(&self) -> (r: PageSummary)
        ensures
            same_summary(r, *self),
    {
        let mut extra: Vec<(String, MetaValue)> = Vec::new();
        append_values(&mut extra, &self.extra);
        assert(meta_keyed(extra@) =~= meta_keyed(self.extra@));
        PageSummary {
            kind: self.kind.clone(),
            title: self.title.clone(),
            url: self.url.clone(),
            canonical_url: self.canonical_url.clone(),
            slug: self.slug.clone(),
            path: self.path.clone(),
            file_path: self.file_path.clone(),
            description: copy_opt(&self.description),
            date: copy_opt(&self.date),
            updated: copy_opt(&self.updated),
            weight: self.weight,
            section: self.section.clone(),
            parent_section: copy_opt(&self.parent_section),
            ancestors: copy_strings(&self.ancestors),
            tags: copy_strings(&self.tags),
            categories: copy_strings(&self.categories),
            aliases: copy_strings(&self.aliases),
            source: self.source.clone(),
            excerpt: copy_opt(&self.excerpt),
            toc: copy_toc(&self.toc),
            extra,
        }
    }
}

} // verus!
