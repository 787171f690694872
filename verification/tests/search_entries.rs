use typage::config::{Config, FeedConfig, MetaValue, SearchConfig};
use typage::model::{FrontMatter, GeneratedPage, Page, TocItem};
use typage::search_index::{search_diagnostics, search_entry, search_index, search_tokens, taxonomy_search_text};
use typage::site_files::{alias_redirects, desired_public_outputs};
use typage::theme::default_theme_toml;
use typage::url::UrlError;

fn hello_page() -> Page {
    Page {
        source: "content/posts/hello.typ".to_string(),
        rel: "posts/hello.typ".to_string(),
        body: String::new(),
        processed_body: String::new(),
        meta: FrontMatter::default(),
        title: "Hello Rust".to_string(),
        url: "/posts/hello/".to_string(),
        canonical_url: "/posts/hello/".to_string(),
        slug: "hello".to_string(),
        path: "posts/hello".to_string(),
        file_path: "posts/hello.typ".to_string(),
        output_html: "public/posts/hello/index.html".to_string(),
        output_pdf: "public/posts/hello/index.pdf".to_string(),
        template: "base.typ".to_string(),
        section: "posts".to_string(),
        parent_section: None,
        ancestors: Vec::new(),
        toc: Vec::new(),
        hash: String::new(),
        prev_title: None,
        prev_url: None,
        next_title: None,
        next_url: None,
    }
}

#[test]
fn search_tokens_are_normalized_and_deduped() {
    let mut page = hello_page();
    page.meta.tags = vec!["Typst".to_string(), "Rust".to_string()];
    let tokens = search_tokens(&page, "Rust rust HTML", "Typage");
    assert!(tokens.contains(&"rust".to_string()));
    assert!(tokens.contains(&"typst".to_string()));
    assert_eq!(tokens.iter().filter(|t| *t == "rust").count(), 1);
}

#[test]
fn taxonomy_text_takes_tags_then_fields_by_name() {
    let mut page = hello_page();
    page.meta.tags = vec!["a".to_string()];
    page.meta.categories = vec!["b".to_string()];
    page.meta.flattened_extra = vec![
        ("zeta".to_string(), MetaValue::Text("last".to_string())),
        ("series".to_string(), MetaValue::Text("guide".to_string())),
        ("tags".to_string(), MetaValue::Text("skipped".to_string())),
    ];
    page.meta.extra = vec![(
        "langs".to_string(),
        MetaValue::List(vec![Some("Rust".to_string()), None]),
    )];
    let cfg = SearchConfig::default();
    assert_eq!(taxonomy_search_text(&page, &cfg), "a b Rust guide last");
    let mut only_tags = SearchConfig::default();
    only_tags.include_taxonomies = false;
    assert_eq!(taxonomy_search_text(&page, &only_tags), "a b");
    only_tags.include_tags = false;
    assert_eq!(taxonomy_search_text(&page, &only_tags), "");
}

#[test]
fn search_entries_record_text_headings_and_tokens() {
    let mut page = hello_page();
    page.processed_body = "== Intro\nSome *body* text `code` here.\n".to_string();
    page.meta.description = Some("About Rust".to_string());
    page.toc = vec![TocItem { level: 2, id: "intro".to_string(), text: "Intro words".to_string() }];
    let mut cfg = SearchConfig::default();
    cfg.max_heading_chars = 5;
    let entry = search_entry(&page, &cfg);
    assert_eq!(entry.title, "Hello Rust");
    assert_eq!(entry.excerpt, "About Rust");
    assert_eq!(entry.headings.len(), 1);
    assert_eq!(entry.headings[0].text, "Intro");
    assert_eq!(entry.headings[0].tokens, vec!["intro".to_string(), "words".to_string()]);
    assert_eq!(entry.fields.title, vec!["hello".to_string(), "rust".to_string()]);
    assert_eq!(entry.fields.headings, vec!["intro".to_string(), "words".to_string()]);
    assert!(entry.tokens.contains(&"body".to_string()));
    assert!(!entry.text.is_empty());
    let mut compact = SearchConfig::default();
    compact.compact = true;
    compact.include_headings = false;
    compact.include_body = false;
    let small = search_entry(&page, &compact);
    assert!(small.text.is_empty());
    assert!(small.headings.is_empty());
    assert!(small.fields.body.is_empty());
    let index = search_index(&vec![page], &compact);
    assert_eq!(index.version, 2);
    assert_eq!(index.config.ngram, 2);
    assert!(index.config.compact);
    assert_eq!(index.pages.len(), 1);
}

#[test]
fn excerpts_fall_back_to_the_text() {
    let mut page = hello_page();
    page.processed_body = "Plain words only".to_string();
    let entry = search_entry(&page, &SearchConfig::default());
    assert_eq!(entry.excerpt, "Plain words only");
}

#[test]
fn search_diagnostics_warn_about_settings() {
    let mut cfg = SearchConfig::default();
    cfg.mode = "fancy".to_string();
    cfg.ngram = 12;
    let mut page = hello_page();
    page.title = "日本語".to_string();
    let report = search_diagnostics(&cfg, &vec![page.clone()]);
    assert_eq!(
        report.summary.as_deref(),
        Some("search: enabled mode=fancy ngram=8 compact=false pages=1 cjk_pages=1 indexed_chars\u{2248}3")
    );
    assert_eq!(
        report.warnings,
        vec![
            "unknown search.mode `fancy`; expected auto, latin, cjk, ngram, or ngram-only".to_string(),
            "search.ngram=12 will be clamped to 8".to_string(),
        ]
    );
    cfg.mode = "latin".to_string();
    cfg.ngram = 2;
    let latin = search_diagnostics(&cfg, &vec![page.clone()]);
    assert_eq!(
        latin.warnings,
        vec!["CJK text detected but search.mode = \"latin\"; consider mode = \"cjk\" or \"auto\"".to_string()]
    );
    cfg.enabled = false;
    let off = search_diagnostics(&cfg, &vec![page]);
    assert!(off.summary.is_none());
    assert!(off.warnings.is_empty());
}

#[test]
fn alias_pages_redirect_to_the_canonical_url() {
    let mut page = hello_page();
    page.canonical_url = "https://example.com/posts/hello/".to_string();
    page.meta.aliases = vec!["old/hello".to_string(), "../escape".to_string(), "x".to_string()];
    let (redirects, fault) = alias_redirects("public", &vec![page]);
    assert_eq!(fault, Some(UrlError::UnsafeSegment));
    assert_eq!(redirects.len(), 1);
    assert_eq!(redirects[0].0, "public/old/hello/index.html");
    assert_eq!(
        redirects[0].1,
        "<!doctype html><meta charset=\"utf-8\"><title>Redirect</title><link rel=\"canonical\" href=\"https://example.com/posts/hello/\"><meta http-equiv=\"refresh\" content=\"0; url=https://example.com/posts/hello/\"><p><a href=\"https://example.com/posts/hello/\">Moved</a></p>\n"
    );
}

#[test]
fn desired_outputs_list_every_kept_file() {
    let mut cfg = Config::default();
    cfg.base_url = "https://example.com".to_string();
    cfg.feeds = vec![FeedConfig { path: "blog/rss.xml".to_string(), ..FeedConfig::default() }];
    let mut page = hello_page();
    page.meta.aliases = vec!["old".to_string()];
    page.meta.build_pdf = Some(true);
    let generated = GeneratedPage {
        kind: "section".to_string(),
        title: "posts".to_string(),
        description: None,
        url: "/posts/".to_string(),
        output_html: "public/posts/index.html".to_string(),
        items: Vec::new(),
        page_number: 1,
        total_pages: 1,
        prev_title: None,
        prev_url: None,
        next_title: None,
        next_url: None,
    };
    let outputs = desired_public_outputs(&cfg, &vec!["css/site.css".to_string()], "public", &vec![page], &vec![generated], false).unwrap();
    assert_eq!(
        outputs,
        vec![
            "public/posts/hello/index.html",
            "public/posts/hello/index.pdf",
            "public/old/index.html",
            "public/posts/index.html",
            "public/css/site.css",
            "public/sitemap.xml",
            "public/feed.xml",
            "public/atom.xml",
            "public/blog/rss.xml",
            "public/robots.txt",
            "public/search_index.json",
        ]
    );
    let mut bad = Config::default();
    bad.feed_path = "feeds/".to_string();
    assert_eq!(
        desired_public_outputs(&bad, &Vec::new(), "public", &Vec::new(), &Vec::new(), false),
        Err(UrlError::UnsafeFilePath)
    );
}

#[test]
fn new_themes_get_a_default_theme_toml() {
    let toml = default_theme_toml("my \"theme\"");
    assert!(toml.starts_with("name = \"my \\\"theme\\\"\"\nversion = \"0.1.0\"\n"));
    assert!(toml.contains("min_typage = \"0.1.0\""));
    assert!(toml.contains("[components]\nnote = true\n"));
    assert!(toml.ends_with("[extra]\naccent = \"#2563eb\"\n"));
}
