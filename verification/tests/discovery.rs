use typage::config::Config;
use typage::discover::{build_page, is_page_source, DiscoveredPage, PageSkip};
use typage::listing::sort_pages_by_url;
use typage::model::FrontMatter;

#[test]
fn page_sources_are_typst_files_that_are_not_special() {
    assert!(is_page_source("posts/hello.typ"));
    assert!(is_page_source("index.typ"));
    assert!(is_page_source("posts/config.typ"));
    assert!(!is_page_source("config.typ"));
    assert!(!is_page_source("posts/_index.typ"));
    assert!(!is_page_source("_prelude.typ"));
    assert!(!is_page_source(".drafts/a.typ"));
    assert!(!is_page_source("posts/.hidden.typ"));
    assert!(!is_page_source("notes.md"));
}

fn built(r: Result<DiscoveredPage, typage::url::UrlError>) -> typage::model::Page {
    match r {
        Ok(DiscoveredPage::Built(p)) => p,
        other => panic!("expected a page, got {other:?}"),
    }
}

#[test]
fn built_pages_get_address_outputs_and_defaults() {
    let cfg = Config::default();
    let meta = FrontMatter::default();
    let page = built(build_page(
        &cfg,
        "/site/content/posts/hello-world.typ",
        "posts/hello-world.typ",
        "/site/public",
        meta,
        "Body".to_string(),
        false,
        "2026-01-01",
    ));
    assert_eq!(page.url, "/posts/hello-world/");
    assert_eq!(page.canonical_url, "/posts/hello-world/");
    assert_eq!(page.title, "hello world");
    assert_eq!(page.section, "posts");
    assert_eq!(page.parent_section, None);
    assert_eq!(page.output_html, "/site/public/posts/hello-world/index.html");
    assert_eq!(page.output_pdf, "/site/public/posts/hello-world/index.pdf");
    assert_eq!(page.template, "base.typ");
    assert_eq!(page.meta.lang, Some("en".to_string()));
    assert_eq!(page.body, "Body");
    assert!(page.processed_body.is_empty());
}

#[test]
fn metadata_overrides_title_section_template_and_language() {
    let cfg = Config::default();
    let mut meta = FrontMatter::default();
    meta.title = Some("Hello".to_string());
    meta.section = Some("blog".to_string());
    meta.template = Some("post.typ".to_string());
    meta.lang = Some("ja".to_string());
    let page = built(build_page(&cfg, "c/index.typ", "index.typ", "out", meta, String::new(), false, "2026-01-01"));
    assert_eq!(page.url, "/");
    assert_eq!(page.output_html, "out/index.html");
    assert_eq!(page.title, "Hello");
    assert_eq!(page.section, "blog");
    assert_eq!(page.template, "post.typ");
    assert_eq!(page.meta.lang, Some("ja".to_string()));
}

#[test]
fn drafts_future_and_expired_pages_are_skipped_by_default() {
    let cfg = Config::default();
    let mut draft = FrontMatter::default();
    draft.draft = true;
    assert!(matches!(
        build_page(&cfg, "a.typ", "a.typ", "out", draft.clone(), String::new(), false, "2026-01-01"),
        Ok(DiscoveredPage::Skipped(PageSkip::Draft))
    ));
    assert!(matches!(
        build_page(&cfg, "a.typ", "a.typ", "out", draft, String::new(), true, "2026-01-01"),
        Ok(DiscoveredPage::Built(_))
    ));
    let mut future = FrontMatter::default();
    future.date = Some("2027-06-01".to_string());
    assert!(matches!(
        build_page(&cfg, "a.typ", "a.typ", "out", future.clone(), String::new(), false, "2026-01-01"),
        Ok(DiscoveredPage::Skipped(PageSkip::Future))
    ));
    let mut expired = FrontMatter::default();
    expired.expires = Some("2025-12-31".to_string());
    assert!(matches!(
        build_page(&cfg, "a.typ", "a.typ", "out", expired.clone(), String::new(), false, "2026-01-01"),
        Ok(DiscoveredPage::Skipped(PageSkip::Expired))
    ));
    let mut open = Config::default();
    open.build_future = true;
    open.build_expired = true;
    assert!(matches!(
        build_page(&open, "a.typ", "a.typ", "out", future, String::new(), false, "2026-01-01"),
        Ok(DiscoveredPage::Built(_))
    ));
    assert!(matches!(
        build_page(&open, "a.typ", "a.typ", "out", expired, String::new(), false, "2026-01-01"),
        Ok(DiscoveredPage::Built(_))
    ));
}

#[test]
fn unsafe_slugs_stop_the_page() {
    let cfg = Config::default();
    let mut meta = FrontMatter::default();
    meta.slug = Some("../escape".to_string());
    assert!(build_page(&cfg, "a.typ", "a.typ", "out", meta, String::new(), false, "2026-01-01").is_err());
}

#[test]
fn pages_sort_by_url() {
    let cfg = Config::default();
    let mut pages = Vec::new();
    for rel in ["zeta.typ", "alpha.typ", "posts/mid.typ"] {
        pages.push(built(build_page(&cfg, rel, rel, "out", FrontMatter::default(), String::new(), false, "2026-01-01")));
    }
    sort_pages_by_url(&mut pages);
    let urls: Vec<&str> = pages.iter().map(|p| p.url.as_str()).collect();
    assert_eq!(urls, vec!["/alpha/", "/posts/mid/", "/zeta/"]);
}
