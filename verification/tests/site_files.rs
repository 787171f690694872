use typage::config::{Config, FeedConfig, MetaValue};
use typage::feed::feed_description;
use typage::model::{GeneratedPage, PageSummary};
use typage::site_files::{atom_feed, latest_page_date, newest_date, robots_txt, rss_feed, sitemap_xml};
use typage::url::UrlError;

fn page_summary(title: &str, url: &str, section: &str, date: &str) -> PageSummary {
    PageSummary {
        kind: "page".to_string(),
        title: title.to_string(),
        url: url.to_string(),
        canonical_url: url.to_string(),
        slug: title.to_ascii_lowercase().replace(' ', "-"),
        path: url.trim_matches('/').to_string(),
        file_path: format!("{}.typ", url.trim_matches('/')),
        description: Some(format!("{title} feed")),
        date: Some(date.to_string()),
        updated: None,
        weight: None,
        section: section.to_string(),
        parent_section: None,
        ancestors: Vec::new(),
        tags: Vec::new(),
        categories: Vec::new(),
        aliases: Vec::new(),
        source: format!("{}.typ", url.trim_matches('/')),
        excerpt: None,
        toc: Vec::new(),
        extra: Vec::new(),
    }
}

fn primary_feed(cfg: &Config) -> FeedConfig {
    FeedConfig {
        path: cfg.feed_path.clone(),
        title: cfg.feed_title.clone(),
        description: cfg.feed_description.clone(),
        link: cfg.feed_link.clone(),
        section: None,
        sections: cfg.feed_sections.clone(),
        limit: cfg.feed_limit,
    }
}

#[test]
fn feeds_are_written_without_base_url() {
    let mut cfg = Config::default();
    cfg.base_url = String::new();
    let pages = vec![page_summary("Hello", "/hello/", "posts", "2026-06-23")];
    let rss = rss_feed(&cfg, &pages, &primary_feed(&cfg)).unwrap();
    let atom = atom_feed(&cfg, &pages).unwrap();
    assert!(rss.contains("<link>/</link>"));
    assert!(rss.contains("<link>/hello/</link>"));
    assert!(atom.contains("<link href=\"/\"/>"));
    assert!(atom.contains("<link href=\"/hello/\"/>"));
}

#[test]
fn configured_rss_feeds_filter_sections_and_paths() {
    let mut cfg = Config::default();
    cfg.base_url = String::new();
    cfg.feed_path = "rss.xml".to_string();
    cfg.feed_sections = vec!["blog".to_string()];
    cfg.feed_limit = 0;
    let projects_feed = FeedConfig {
        path: "projects/rss.xml".to_string(),
        title: Some("Projects".to_string()),
        description: Some("Project feed".to_string()),
        link: "/projects/".to_string(),
        section: Some("projects".to_string()),
        limit: 0,
        ..FeedConfig::default()
    };
    let pages = vec![
        page_summary("Blog", "/blog/post/", "blog", "2026-06-23"),
        page_summary("Project", "/projects/tool/", "projects", "2026-06-22"),
        page_summary("Favorite", "/favorites/art/", "favorites", "2026-06-21"),
    ];
    let rss = rss_feed(&cfg, &pages, &primary_feed(&cfg)).unwrap();
    let projects = rss_feed(&cfg, &pages, &projects_feed).unwrap();
    assert!(rss.contains("<title>Blog</title>"));
    assert!(!rss.contains("<title>Project</title>"));
    assert!(!rss.contains("<title>Favorite</title>"));
    assert!(projects.contains("<title>Project</title>"));
    assert!(!projects.contains("<title>Blog</title>"));
    assert!(!projects.contains("<title>Favorite</title>"));
}

#[test]
fn rss_feed_text_is_exact() {
    let mut cfg = Config::default();
    cfg.base_url = "https://example.com/".to_string();
    let mut p = page_summary("A & B", "/a/", "posts", "2026-06-23");
    p.excerpt = Some("<short>".to_string());
    let pages = vec![p];
    let rss = rss_feed(&cfg, &pages, &primary_feed(&cfg)).unwrap();
    let expected = [
        "<?xml version=\"1.0\" encoding=\"utf-8\"?>\n",
        "<rss version=\"2.0\"><channel><title>Typage</title><link>https://example.com/</link>",
        "<description>Typage</description>\n",
        "<atom:link xmlns:atom=\"http://www.w3.org/2005/Atom\" href=\"https://example.com/feed.xml\" ",
        "rel=\"self\" type=\"application/rss+xml\"/>\n",
        "<lastBuildDate>23 Jun 2026 00:00:00 +0000</lastBuildDate>\n",
        "<item><title>A &amp; B</title><link>https://example.com/a/</link>",
        "<guid isPermaLink=\"true\">https://example.com/a/</guid>",
        "<pubDate>23 Jun 2026 00:00:00 +0000</pubDate>",
        "<description>&lt;short&gt;</description></item>\n",
        "</channel></rss>\n"
    ]
    .concat();
    assert_eq!(rss, expected);
}

#[test]
fn feeds_with_unsafe_paths_are_refused() {
    let cfg = Config::default();
    let mut spec = primary_feed(&cfg);
    spec.path = "../feed.xml".to_string();
    assert_eq!(rss_feed(&cfg, &Vec::new(), &spec), Err(UrlError::UnsafeSegment));
    let mut bad_atom = Config::default();
    bad_atom.atom_path = "feeds/".to_string();
    assert_eq!(atom_feed(&bad_atom, &Vec::new()), Err(UrlError::UnsafeFilePath));
}

#[test]
fn atom_feed_text_is_exact() {
    let mut cfg = Config::default();
    cfg.base_url = "https://example.com".to_string();
    let mut p = page_summary("Hello", "/hello/", "posts", "2026-06-23");
    p.updated = Some("2026-06-25".to_string());
    let atom = atom_feed(&cfg, &vec![p]).unwrap();
    let expected = [
        "<?xml version=\"1.0\" encoding=\"utf-8\"?>\n",
        "<feed xmlns=\"http://www.w3.org/2005/Atom\">\n",
        "  <title>Typage</title>\n",
        "  <id>https://example.com/</id>\n",
        "  <link href=\"https://example.com/\"/>\n",
        "  <link rel=\"self\" href=\"https://example.com/atom.xml\"/>\n",
        "  <updated>2026-06-25T00:00:00Z</updated>\n",
        "  <entry>\n",
        "    <title>Hello</title>\n",
        "    <id>https://example.com/hello/</id>\n",
        "    <link href=\"https://example.com/hello/\"/>\n",
        "    <updated>2026-06-25T00:00:00Z</updated>\n",
        "    <summary>Hello feed</summary>\n",
        "  </entry>\n",
        "</feed>\n"
    ]
    .concat();
    assert_eq!(atom, expected);
    let empty = atom_feed(&cfg, &Vec::new()).unwrap();
    assert!(empty.contains("<updated>1970-01-01T00:00:00Z</updated>"));
}

#[test]
fn feed_descriptions_fall_back_to_the_site() {
    let mut cfg = Config::default();
    let spec = primary_feed(&cfg);
    assert_eq!(feed_description(&cfg, &spec), "Typage");
    cfg.extra = vec![("description".to_string(), MetaValue::Text("A site".to_string()))];
    assert_eq!(feed_description(&cfg, &spec), "A site");
    cfg.extra = vec![("description".to_string(), MetaValue::Other)];
    assert_eq!(feed_description(&cfg, &spec), "Typage");
    cfg.feed_description = Some("Site feed".to_string());
    assert_eq!(feed_description(&cfg, &spec), "Site feed");
    let own = FeedConfig { description: Some("Own".to_string()), ..FeedConfig::default() };
    assert_eq!(feed_description(&cfg, &own), "Own");
}

#[test]
fn latest_dates_compare_as_text() {
    assert_eq!(newest_date(Some("2026-01-02".into()), Some("2026-01-10".into())).as_deref(), Some("2026-01-10"));
    assert_eq!(newest_date(Some("2026-02-01".into()), None).as_deref(), Some("2026-02-01"));
    assert_eq!(newest_date(None, Some("x".into())).as_deref(), Some("x"));
    assert_eq!(newest_date(None, None), None);
    let mut a = page_summary("A", "/a/", "s", "2026-01-01");
    a.updated = Some("2026-03-01".to_string());
    let b = page_summary("B", "/b/", "s", "2026-02-01");
    assert_eq!(latest_page_date(&vec![a, b]).as_deref(), Some("2026-03-01"));
    assert_eq!(latest_page_date(&Vec::new()), None);
}

#[test]
fn robots_names_the_sitemap_only_with_a_base_url() {
    let mut cfg = Config::default();
    assert_eq!(robots_txt(&cfg), "User-agent: *\nAllow: /\n");
    cfg.base_url = "https://example.com/".to_string();
    assert_eq!(robots_txt(&cfg), "User-agent: *\nAllow: /\n\nSitemap: https://example.com/sitemap.xml\n");
    cfg.sitemap = false;
    assert_eq!(robots_txt(&cfg), "User-agent: *\nAllow: /\n");
}

#[test]
fn sitemap_lists_each_route_once_with_its_latest_date() {
    let mut cfg = Config::default();
    assert_eq!(sitemap_xml(&cfg, &Vec::new(), &Vec::new()), None);
    cfg.base_url = "https://example.com".to_string();
    let pages = vec![
        page_summary("B", "/b/", "s", "2026-01-01"),
        page_summary("A", "/a/", "s", "2026-02-01"),
    ];
    let listing = GeneratedPage {
        kind: "section".to_string(),
        title: "s".to_string(),
        description: None,
        url: "/s/".to_string(),
        output_html: "public/s/index.html".to_string(),
        items: pages.clone(),
        page_number: 1,
        total_pages: 1,
        prev_title: None,
        prev_url: None,
        next_title: None,
        next_url: None,
    };
    let again = GeneratedPage { url: "/b/".to_string(), items: vec![page_summary("C", "/c/", "s", "2026-05-05")], ..listing.clone() };
    let xml = sitemap_xml(&cfg, &pages, &vec![listing, again]).unwrap();
    let expected = [
        "<?xml version=\"1.0\" encoding=\"utf-8\"?>\n",
        "<urlset xmlns=\"http://www.sitemaps.org/schemas/sitemap/0.9\">\n",
        "  <url>\n    <loc>https://example.com/a/</loc>\n    <lastmod>2026-02-01</lastmod>\n  </url>\n",
        "  <url>\n    <loc>https://example.com/b/</loc>\n    <lastmod>2026-05-05</lastmod>\n  </url>\n",
        "  <url>\n    <loc>https://example.com/s/</loc>\n    <lastmod>2026-02-01</lastmod>\n  </url>\n",
        "</urlset>\n"
    ]
    .concat();
    assert_eq!(xml, expected);
}
