//! Configuration records of a site: the site settings, search,
//! taxonomies, feeds and PDF documents, with the defaults a missing setting
//! takes.
use vstd::prelude::*;

verus! {

broadcast use vstd::string::group_string_axioms;

/// A value of a free-form metadata table, as far as the library reads
/// it: a text, an array (the text of each item that is a string, none for
/// any other item), or any other value (a number, a boolean, a date or a
/// table), whose content the library never reads.
#[derive(Debug, Clone, PartialEq)]
pub enum MetaValue {
    Text(String),
    List(Vec<Option<String>>),
    Other,
}

/// What a free-form value stands for.
pub enum MetaView {
    Text(Seq<char>),
    List(Seq<Option<Seq<char>>>),
    Other,
}

impl View for MetaValue {
    type V = MetaView;

    open spec fn view(&self) -> MetaView {
        match self {
            MetaValue::Text(s) => MetaView::Text(s@),
            MetaValue::List(xs) => MetaView::List(crate::generated::opt_texts(xs@)),
            MetaValue::Other => MetaView::Other,
        }
    }
}

/// A copy of a free-form value.
pub fn copy_value(v: &MetaValue) -> (r: MetaValue)
    ensures
        r@ == v@,
{
    match v {
        MetaValue::Text(s) => MetaValue::Text(s.clone()),
        MetaValue::List(xs) => {
            let mut out: Vec<Option<String>> = Vec::new();
            let mut i: usize = 0;
            while i < xs.len()
                invariant
                    i <= xs.len(),
                    crate::generated::opt_texts(out@) == crate::generated::opt_texts(xs@.take(i as int)),
                decreases xs.len() - i,
            {
                let ghost before = crate::generated::opt_texts(out@);
                let item = match &xs[i] {
                    Some(t) => Some(t.clone()),
                    None => None,
                };
                out.push(item);
                assert(crate::generated::opt_texts(out@) =~= before.push(crate::model::opt_text(xs@[i as int])));
                assert(crate::generated::opt_texts(xs@.take(i + 1)) =~= crate::generated::opt_texts(xs@.take(i as int)).push(
                    crate::model::opt_text(xs@[i as int]),
                ));
                i += 1;
            }
            assert(xs@.take(xs.len() as int) =~= xs@);
            MetaValue::List(out)
        },
        MetaValue::Other => MetaValue::Other,
    }
}

/// A keyed list of free-form values, by what its keys and values stand for.
pub open spec fn meta_keyed(v: Seq<(String, MetaValue)>) -> Seq<(Seq<char>, MetaView)> {
    v.map_values(|p: (String, MetaValue)| (p.0@, p.1@))
}

/// The table of a keyed list of free-form values holds the same keys as
/// the list's own table, each for the view of its value.
pub proof fn lemma_meta_keyed_map(t: Seq<(String, MetaValue)>)
    ensures
        forall|k: Seq<char>|
            #[trigger] keyed_map(meta_keyed(t)).contains_key(k) == keyed_map(keyed(t)).contains_key(
                k,
            ),
        forall|k: Seq<char>|
            #[trigger] keyed_map(keyed(t)).contains_key(k) ==> keyed_map(meta_keyed(t))[k]
                == keyed_map(keyed(t))[k]@,
    decreases t.len(),
{
    if t.len() > 0 {
        let u = t.drop_last();
        lemma_meta_keyed_map(u);
        assert(meta_keyed(t).drop_last() =~= meta_keyed(u));
        assert(keyed(t).drop_last() =~= keyed(u));
        assert(meta_keyed(t).last() == (t.last().0@, t.last().1@));
        assert(keyed(t).last() == (t.last().0@, t.last().1));
        assert(keyed_map(meta_keyed(t)) == keyed_map(meta_keyed(u)).insert(t.last().0@, t.last().1@));
        assert(keyed_map(keyed(t)) == keyed_map(keyed(u)).insert(t.last().0@, t.last().1));
    }
}

/// The keys of a keyed list as text.
pub open spec fn keyed<V>(v: Seq<(String, V)>) -> Seq<(Seq<char>, V)> {
    v.map_values(|p: (String, V)| (p.0@, p.1))
}

/// The table a keyed list stands for: a later entry for a key replaces an
/// earlier one.
pub open spec fn keyed_map<V>(s: Seq<(Seq<char>, V)>) -> Map<Seq<char>, V>
    decreases s.len(),
{
    if s.len() == 0 {
        Map::empty()
    } else {
        keyed_map(s.drop_last()).insert(s.last().0, s.last().1)
    }
}

/// The settings of a site. Paths are relative to the site root, `/`
/// separated. The `scripts` and `hooks` tables are listed by name, each
/// name once; the `extra` table is a keyed list.
#[derive(Debug, Clone)]
pub struct Config {
    pub title: String,
    pub base_url: String,
    pub lang: String,
    pub typst: String,
    pub content_dir: String,
    pub templates_dir: String,
    pub static_dir: String,
    pub out_dir: String,
    /// Optional page permalink pattern, e.g. `/:section/:slug/`.
    pub permalink: Option<String>,
    pub theme: Option<String>,
    pub cache_dir: String,
    pub default_template: String,
    pub list_template: String,
    pub features: String,
    pub bundle_features: String,
    pub build_pdf: bool,
    /// Include pages with future `date` values.
    pub build_future: bool,
    /// Include pages whose `expires` date is before today.
    pub build_expired: bool,
    pub fail_on_broken_links: bool,
    pub paginate_by: Option<usize>,
    pub feed: bool,
    pub feed_path: String,
    pub feed_title: Option<String>,
    pub feed_description: Option<String>,
    pub feed_link: String,
    pub feed_sections: Vec<String>,
    /// Maximum RSS items. 0 means unlimited.
    pub feed_limit: usize,
    pub atom_feed: bool,
    pub atom_path: String,
    pub feeds: Vec<FeedConfig>,
    pub pdf_documents: Vec<PdfDocumentConfig>,
    pub sitemap: bool,
    pub search: SearchConfig,
    /// Generate robots.txt.
    pub robots: bool,
    /// Number of parallel Typst compile jobs. 0 means auto.
    pub jobs: usize,
    pub extra: Vec<(String, MetaValue)>,
    pub scripts: Vec<(String, String)>,
    /// Command hooks such as pre_build/post_build.
    pub hooks: Vec<(String, String)>,
    pub taxonomies: Vec<TaxonomyConfig>,
}

impl Default for Config {
    fn default() -> (r: Self)
        ensures
            r.title@ == "Typage"@,
            r.base_url@.len() == 0,
            r.lang@ == "en"@,
            r.typst@ == "typst"@,
            r.content_dir@ == "content"@,
            r.templates_dir@ == "templates"@,
            r.static_dir@ == "static"@,
            r.out_dir@ == "public"@,
            r.permalink is None,
            r.theme is None,
            r.cache_dir@ == ".typage"@,
            r.default_template@ == "base.typ"@,
            r.list_template@ == "list.typ"@,
            r.features@ == "html"@,
            r.bundle_features@ == "bundle,html"@,
            !r.build_pdf,
            !r.build_future,
            !r.build_expired,
            r.fail_on_broken_links,
            r.paginate_by is None,
            r.feed,
            r.feed_path@ == "feed.xml"@,
            r.feed_title is None,
            r.feed_description is None,
            r.feed_link@ == "/"@,
            r.feed_sections@.len() == 0,
            r.feed_limit == 20,
            r.atom_feed,
            r.atom_path@ == "atom.xml"@,
            r.feeds@.len() == 0,
            r.pdf_documents@.len() == 0,
            r.sitemap,
            r.search.enabled,
            r.search.mode@ == "auto"@,
            r.search.ngram == 2,
            r.search.include_body,
            r.search.include_headings,
            r.search.include_tags,
            r.search.include_taxonomies,
            !r.search.compact,
            r.search.max_tokens == 2048,
            r.search.max_body_chars == 20_000,
            r.search.max_heading_chars == 240,
            r.robots,
            r.jobs == 0,
            r.extra@.len() == 0,
            r.scripts@.len() == 0,
            r.hooks@.len() == 0,
            r.taxonomies@.len() == 2,
            r.taxonomies@[0].name@ == "tags"@,
            r.taxonomies@[0].slug@ == "tags"@,
            r.taxonomies@[1].name@ == "categories"@,
            r.taxonomies@[1].slug@ == "categories"@,
    {
        let mut taxonomies: Vec<TaxonomyConfig> = Vec::new();
        taxonomies.push(
            TaxonomyConfig { name: String::from_str("tags"), slug: String::from_str("tags") },
        );
        taxonomies.push(
            TaxonomyConfig {
                name: String::from_str("categories"),
                slug: String::from_str("categories"),
            },
        );
        Config {
            title: String::from_str("Typage"),
            base_url: String::new(),
            lang: String::from_str("en"),
            typst: String::from_str("typst"),
            content_dir: String::from_str("content"),
            templates_dir: String::from_str("templates"),
            static_dir: String::from_str("static"),
            out_dir: String::from_str("public"),
            permalink: None,
            theme: None,
            cache_dir: String::from_str(".typage"),
            default_template: String::from_str("base.typ"),
            list_template: String::from_str("list.typ"),
            features: String::from_str("html"),
            bundle_features: String::from_str("bundle,html"),
            build_pdf: false,
            build_future: false,
            build_expired: false,
            fail_on_broken_links: true,
            paginate_by: None,
            feed: true,
            feed_path: String::from_str("feed.xml"),
            feed_title: None,
            feed_description: None,
            feed_link: String::from_str("/"),
            feed_sections: Vec::new(),
            feed_limit: 20,
            atom_feed: true,
            atom_path: String::from_str("atom.xml"),
            feeds: Vec::new(),
            pdf_documents: Vec::new(),
            sitemap: true,
            search: SearchConfig::default(),
            robots: true,
            jobs: 0,
            extra: Vec::new(),
            scripts: Vec::new(),
            hooks: Vec::new(),
            taxonomies,
        }
    }
}

/// How the search index is built.
#[derive(Debug, Clone)]
pub struct SearchConfig {
    pub enabled: bool,
    /// `auto`, `latin`, `cjk`, `ngram`, or `ngram-only`.
    pub mode: String,
    /// CJK n-gram width used when mode is `auto` or `ngram`.
    pub ngram: usize,
    pub include_body: bool,
    pub include_headings: bool,
    pub include_tags: bool,
    pub include_taxonomies: bool,
    /// When true, omit full body text from the index and rely on tokens and fields.
    pub compact: bool,
    pub max_tokens: usize,
    pub max_body_chars: usize,
    pub max_heading_chars: usize,
}

impl Default for SearchConfig {
    fn default() -> (r: Self)
        ensures
            r.enabled,
            r.mode@ == "auto"@,
            r.ngram == 2,
            r.include_body,
            r.include_headings,
            r.include_tags,
            r.include_taxonomies,
            !r.compact,
            r.max_tokens == 2048,
            r.max_body_chars == 20_000,
            r.max_heading_chars == 240,
    {
        SearchConfig {
            enabled: true,
            mode: String::from_str("auto"),
            ngram: 2,
            include_body: true,
            include_headings: true,
            include_tags: true,
            include_taxonomies: true,
            compact: false,
            max_tokens: 2048,
            max_body_chars: 20_000,
            max_heading_chars: 240,
        }
    }
}

impl SearchConfig {
    /// The search settings that the short form `search = <enabled>` stands
    /// for: the defaults with `enabled` set.
    pub fn with_enabled(enabled: bool) -> (r: Self)
        ensures
            r.enabled == enabled,
            r.mode@ == "auto"@,
            r.ngram == 2,
            r.include_body,
            r.include_headings,
            r.include_tags,
            r.include_taxonomies,
            !r.compact,
            r.max_tokens == 2048,
            r.max_body_chars == 20_000,
            r.max_heading_chars == 240,
    {
        let mut c = SearchConfig::default();
        c.enabled = enabled;
        c
    }
}

/// A taxonomy such as tags or categories.
#[derive(Debug, Clone)]
pub struct TaxonomyConfig {
    pub name: String,
    pub slug: String,
}

impl Default for TaxonomyConfig {
    fn default() -> (r: Self)
        ensures
            r.name@ == "tags"@,
            r.slug@ == "tags"@,
    {
        TaxonomyConfig { name: String::from_str("tags"), slug: String::from_str("tags") }
    }
}

/// An RSS feed of some sections.
#[derive(Debug, Clone)]
pub struct FeedConfig {
    pub path: String,
    pub title: Option<String>,
    pub description: Option<String>,
    pub link: String,
    pub section: Option<String>,
    pub sections: Vec<String>,
    /// Maximum RSS items. 0 means unlimited.
    pub limit: usize,
}

impl Default for FeedConfig {
    fn default() -> (r: Self)
        ensures
            r.path@ == "feed.xml"@,
            r.title is None,
            r.description is None,
            r.link@ == "/"@,
            r.section is None,
            r.sections@.len() == 0,
            r.limit == 20,
    {
        FeedConfig {
            path: String::from_str("feed.xml"),
            title: None,
            description: None,
            link: String::from_str("/"),
            section: None,
            sections: Vec::new(),
            limit: 20,
        }
    }
}

/// A PDF document that combines pages.
#[derive(Debug, Clone)]
pub struct PdfDocumentConfig {
    /// Output PDF path relative to the output directory, for example `print.pdf`.
    pub path: String,
    pub title: Option<String>,
    pub description: Option<String>,
    /// Template path relative to the templates directory.
    pub template: String,
    pub sections: Vec<String>,
    pub pages: Vec<String>,
    /// Sections that receive their own heading in combined PDF output.
    pub section_headings: Vec<String>,
    /// Heading level used for generated section headings.
    pub section_heading_level: usize,
    pub sort_by: Option<String>,
    pub include_drafts: Option<bool>,
    pub include_future: Option<bool>,
    pub include_expired: Option<bool>,
}

impl Default for PdfDocumentConfig {
    fn default() -> (r: Self)
        ensures
            r.path@.len() == 0,
            r.title is None,
            r.description is None,
            r.template@ == "print.typ"@,
            r.sections@.len() == 0,
            r.pages@.len() == 0,
            r.section_headings@.len() == 0,
            r.section_heading_level == 1,
            r.sort_by is None,
            r.include_drafts is None,
            r.include_future is None,
            r.include_expired is None,
    {
        PdfDocumentConfig {
            path: String::new(),
            title: None,
            description: None,
            template: String::from_str("print.typ"),
            sections: Vec::new(),
            pages: Vec::new(),
            section_headings: Vec::new(),
            section_heading_level: 1,
            sort_by: None,
            include_drafts: None,
            include_future: None,
            include_expired: None,
        }
    }
}

} // verus!
