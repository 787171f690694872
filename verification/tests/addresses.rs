use typage::config::Config;
use typage::model::FrontMatter;
use typage::permalink::{
    apply_permalink_pattern, date_parts, date_slices_cleanly, page_address, simple_date_prefix,
    strip_extension,
};
use typage::url::UrlError;
use typage::util::effective_jobs;

#[test]
fn permalink_policy_expands_placeholders() {
    let mut cfg = Config::default();
    cfg.permalink = Some("/docs/:year/:month/:slug/".to_string());
    let mut fm = FrontMatter::default();
    fm.title = Some("Intro".to_string());
    fm.date = Some("2026-06-24".to_string());
    fm.slug = Some("getting-started".to_string());
    let addr = page_address(&cfg, "posts/intro.typ", "posts", &fm).unwrap();
    assert_eq!(addr.url, "/docs/2026/06/getting-started/");
    assert_eq!(addr.slug, "getting-started");
    assert_eq!(addr.path, "posts/intro");
    assert_eq!(addr.file_path, "posts/intro.typ");
}

#[test]
fn page_permalink_overrides_global_policy() {
    let mut cfg = Config::default();
    cfg.permalink = Some("/:section/:slug/".to_string());
    let mut fm = FrontMatter::default();
    fm.slug = Some("v0-23".to_string());
    fm.permalink = Some("/releases/:slug/".to_string());
    let addr = page_address(&cfg, "posts/release.typ", "posts", &fm).unwrap();
    assert_eq!(addr.url, "/releases/v0-23/");
}

#[test]
fn unsafe_slug_and_permalink_are_rejected() {
    let cfg = Config::default();
    let mut fm = FrontMatter::default();
    fm.slug = Some("../escape".to_string());
    assert!(page_address(&cfg, "posts/hello.typ", "posts", &fm).is_err());
    let mut fm = FrontMatter::default();
    fm.permalink = Some("/../escape/".to_string());
    assert!(page_address(&cfg, "posts/hello.typ", "posts", &fm).is_err());
}

#[test]
fn effective_jobs_clamps_to_job_count() {
    assert_eq!(effective_jobs(Some(1), 0, 10, 8), 1);
    assert_eq!(effective_jobs(Some(99), 0, 3, 8), 3);
    assert_eq!(effective_jobs(Some(0), 0, 0, 8), 0);
    assert_eq!(effective_jobs(None, 0, 10, 4), 4);
    assert_eq!(effective_jobs(None, 2, 10, 4), 2);
    assert_eq!(effective_jobs(Some(0), 5, 10, 0), 1);
}

#[test]
fn default_addresses_follow_source_paths() {
    let cfg = Config::default();
    let fm = FrontMatter::default();
    let root = page_address(&cfg, "index.typ", "pages", &fm).unwrap();
    assert_eq!(root.url, "/");
    assert_eq!(root.slug, "index");
    let dir = page_address(&cfg, "docs/guide/index.typ", "docs", &fm).unwrap();
    assert_eq!(dir.url, "/docs/guide/");
    assert_eq!(dir.slug, "guide");
    assert_eq!(dir.path, "docs/guide/index");
    let plain = page_address(&cfg, "posts/hello.typ", "posts", &fm).unwrap();
    assert_eq!(plain.url, "/posts/hello/");
    assert_eq!(plain.canonical_url, "/posts/hello/");
    let mut given = FrontMatter::default();
    given.slug = Some("custom".to_string());
    assert_eq!(page_address(&cfg, "posts/hello.typ", "posts", &given).unwrap().url, "/custom/");
}

#[test]
fn permalink_errors_are_reported() {
    let mut cfg = Config::default();
    cfg.permalink = Some("   ".to_string());
    let fm = FrontMatter::default();
    assert_eq!(
        page_address(&cfg, "posts/a.typ", "posts", &fm),
        Err(UrlError::EmptyPermalink)
    );
    let mut bad = FrontMatter::default();
    bad.slug = Some("a/b".to_string());
    assert_eq!(
        page_address(&Config::default(), "posts/a.typ", "posts", &bad),
        Err(UrlError::SlugHasSlash)
    );
    assert_eq!(
        apply_permalink_pattern("/{section}/:filename/:day/", "blog", "s", "blog/x", "x", Some("2026-01-09T10:00")),
        Ok("/blog/x/09/".to_string())
    );
    assert_eq!(
        apply_permalink_pattern("/:year/:slug", "blog", "s", "p", "f", None),
        Ok("/s/".to_string())
    );
}

#[test]
fn dates_split_into_year_month_day() {
    assert_eq!(simple_date_prefix(" 2026-06-24T08:00 ").as_deref(), Some("2026-06-24"));
    assert_eq!(simple_date_prefix("2026/06/24"), None);
    assert_eq!(simple_date_prefix("2026-6-24"), None);
    assert_eq!(
        date_parts(Some("2026-06-24")),
        Some(("2026".to_string(), "06".to_string(), "24".to_string()))
    );
    assert_eq!(date_parts(None), None);
    assert!(date_slices_cleanly("2026-06-24"));
    assert!(!date_slices_cleanly("2026-06-2\u{e9}"));
}

#[test]
fn extensions_are_stripped_from_the_file_name() {
    assert_eq!(strip_extension("posts/intro.typ"), "posts/intro");
    assert_eq!(strip_extension("a.b/c.tar.gz"), "a.b/c.tar");
    assert_eq!(strip_extension(".hidden"), ".hidden");
    assert_eq!(strip_extension("/abs/x.typ"), "/abs/x");
    assert_eq!(strip_extension("dir/.."), "dir/..");
}
