use typage::config::{Config, FeedConfig, MetaValue, TaxonomyConfig};
use typage::feed::{feed_items, feed_title};
use typage::generated::{field_values, make_generated_pages, push_paginated, taxonomy_values};
use typage::listing::{assign_prev_next, sort_order, sort_page_summaries, SortOrder};
use typage::model::{FrontMatter, GeneratedPage, Page, PageSummary};

fn page_summary(title: &str, url: &str, section: &str, date: &str) -> PageSummary {
    PageSummary {
        kind: "page".to_string(),
        title: title.to_string(),
        url: url.to_string(),
        canonical_url: url.to_string(),
        slug: title.to_ascii_lowercase().replace(' ', "-"),
        path: url.trim_matches('/').to_string(),
        file_path: format!("{}.typ", url.trim_matches('/')),
        description: Some(format!("{title} feed")),
        date: Some(date.to_string()),
        updated: None,
        weight: None,
        section: section.to_string(),
        parent_section: None,
        ancestors: Vec::new(),
        tags: Vec::new(),
        categories: Vec::new(),
        aliases: Vec::new(),
        source: format!("{}.typ", url.trim_matches('/')),
        excerpt: None,
        toc: Vec::new(),
        extra: Vec::new(),
    }
}

fn bare_summary(title: &str, url: &str, section: &str) -> PageSummary {
    let mut p = page_summary(title, url, section, "");
    p.date = None;
    p.description = None;
    p
}

fn page(title: &str, url: &str, section: &str, date: Option<&str>, weight: Option<i64>) -> Page {
    let mut meta = FrontMatter::default();
    meta.date = date.map(|d| d.to_string());
    meta.weight = weight;
    Page {
        source: format!("content{url}index.typ"),
        rel: format!("{}.typ", url.trim_matches('/')),
        body: String::new(),
        processed_body: String::new(),
        meta,
        title: title.to_string(),
        url: url.to_string(),
        canonical_url: url.to_string(),
        slug: title.to_ascii_lowercase(),
        path: url.trim_matches('/').to_string(),
        file_path: format!("{}.typ", url.trim_matches('/')),
        output_html: format!("public{url}index.html"),
        output_pdf: String::new(),
        template: "base.typ".to_string(),
        section: section.to_string(),
        parent_section: None,
        ancestors: Vec::new(),
        toc: Vec::new(),
        hash: String::new(),
        prev_title: None,
        prev_url: None,
        next_title: None,
        next_url: None,
    }
}

fn urls(items: &[PageSummary]) -> Vec<&str> {
    items.iter().map(|p| p.url.as_str()).collect()
}

#[test]
fn section_index_page_suppresses_generated_section_page() {
    let cfg = Config::default();
    let out = "/tmp/typage-section-index-test";
    let mut index = bare_summary("Awards", "/awards/", "awards");
    index.path = "awards/index".to_string();
    index.file_path = "awards/index.typ".to_string();
    index.source = "awards/index.typ".to_string();
    let child = bare_summary("Child", "/awards/child/", "awards");
    let pages = vec![index, child];
    let generated = make_generated_pages(&cfg, out, &pages, &Vec::new());
    assert!(!generated.iter().any(|page| page.url == "/awards/"));
}

#[test]
fn sort_by_names_pick_orders() {
    assert_eq!(sort_order("weight"), SortOrder::WeightAsc);
    assert_eq!(sort_order("weight_asc"), SortOrder::WeightAsc);
    assert_eq!(sort_order("weight_desc"), SortOrder::WeightDesc);
    assert_eq!(sort_order("date"), SortOrder::DateDesc);
    assert_eq!(sort_order("date_asc"), SortOrder::DateAsc);
    assert_eq!(sort_order("updated"), SortOrder::UpdatedDesc);
    assert_eq!(sort_order("updated_asc"), SortOrder::UpdatedAsc);
    assert_eq!(sort_order("title"), SortOrder::TitleAsc);
    assert_eq!(sort_order("title_desc"), SortOrder::TitleDesc);
    assert_eq!(sort_order("url"), SortOrder::UrlAsc);
    assert_eq!(sort_order("url_desc"), SortOrder::UrlDesc);
    assert_eq!(sort_order("newest"), SortOrder::DateDesc);
}

#[test]
fn summaries_sort_newest_first_then_weight_then_url() {
    let mut a = page_summary("A", "/a/", "posts", "2026-01-01");
    a.weight = Some(5);
    let b = page_summary("B", "/b/", "posts", "2026-03-01");
    let c = bare_summary("C", "/c/", "posts");
    let mut d = page_summary("D", "/d/", "posts", "2026-01-01");
    d.weight = Some(1);
    let e = page_summary("E", "/e/", "posts", "2026-01-01");
    let mut items = vec![a, b, c, d, e];
    sort_page_summaries(&mut items, "date_desc");
    assert_eq!(urls(&items), vec!["/b/", "/e/", "/d/", "/a/", "/c/"]);
    sort_page_summaries(&mut items, "date_asc");
    assert_eq!(urls(&items), vec!["/c/", "/e/", "/d/", "/a/", "/b/"]);
}

#[test]
fn summaries_sort_by_title_weight_and_url() {
    let mut x = page_summary("Zeta", "/x/", "posts", "2026-01-01");
    x.weight = Some(2);
    let mut y = page_summary("Alpha", "/y/", "posts", "2026-01-02");
    y.weight = Some(-1);
    let z = page_summary("Alpha", "/a-z/", "posts", "2026-01-03");
    let mut items = vec![x, y, z];
    sort_page_summaries(&mut items, "title");
    assert_eq!(urls(&items), vec!["/a-z/", "/y/", "/x/"]);
    sort_page_summaries(&mut items, "title_desc");
    assert_eq!(urls(&items), vec!["/x/", "/a-z/", "/y/"]);
    sort_page_summaries(&mut items, "weight");
    assert_eq!(urls(&items), vec!["/y/", "/a-z/", "/x/"]);
    sort_page_summaries(&mut items, "weight_desc");
    assert_eq!(urls(&items), vec!["/x/", "/a-z/", "/y/"]);
    sort_page_summaries(&mut items, "url_desc");
    assert_eq!(urls(&items), vec!["/y/", "/x/", "/a-z/"]);
    sort_page_summaries(&mut items, "url");
    assert_eq!(urls(&items), vec!["/a-z/", "/x/", "/y/"]);
}

#[test]
fn updated_order_falls_back_on_date() {
    let mut a = page_summary("A", "/a/", "posts", "2026-01-01");
    a.updated = Some("2026-05-01".to_string());
    let b = page_summary("B", "/b/", "posts", "2026-04-01");
    let mut c = page_summary("C", "/c/", "posts", "2026-02-01");
    c.updated = Some("2026-05-01".to_string());
    let mut items = vec![a, b, c];
    sort_page_summaries(&mut items, "updated");
    assert_eq!(urls(&items), vec!["/c/", "/a/", "/b/"]);
    sort_page_summaries(&mut items, "updated_asc");
    assert_eq!(urls(&items), vec!["/b/", "/a/", "/c/"]);
}

#[test]
fn neighbours_link_within_each_section() {
    let mut pages = vec![
        page("Old", "/posts/old/", "posts", Some("2026-01-01"), None),
        page("About", "/about/", "pages", None, None),
        page("New", "/posts/new/", "posts", Some("2026-03-01"), None),
        page("Mid", "/posts/mid/", "posts", Some("2026-02-01"), None),
    ];
    assign_prev_next(&mut pages, &Vec::new());
    // Newest first: New, Mid, Old.
    assert_eq!(pages[2].prev_url, None);
    assert_eq!(pages[2].next_url.as_deref(), Some("/posts/mid/"));
    assert_eq!(pages[2].next_title.as_deref(), Some("Mid"));
    assert_eq!(pages[3].prev_url.as_deref(), Some("/posts/new/"));
    assert_eq!(pages[3].prev_title.as_deref(), Some("New"));
    assert_eq!(pages[3].next_url.as_deref(), Some("/posts/old/"));
    assert_eq!(pages[0].prev_url.as_deref(), Some("/posts/mid/"));
    assert_eq!(pages[0].next_url, None);
    assert_eq!(pages[1].prev_url, None);
    assert_eq!(pages[1].next_url, None);
    assert_eq!(pages[1].title, "About");
}

#[test]
fn section_sort_by_decides_the_neighbours() {
    let mut meta = FrontMatter::default();
    meta.sort_by = Some("title".to_string());
    let mut pages = vec![
        page("Charlie", "/docs/c/", "docs", None, None),
        page("Alpha", "/docs/a/", "docs", None, None),
        page("Bravo", "/docs/b/", "docs", None, None),
    ];
    assign_prev_next(&mut pages, &vec![("docs".to_string(), meta)]);
    assert_eq!(pages[1].prev_url, None);
    assert_eq!(pages[1].next_url.as_deref(), Some("/docs/b/"));
    assert_eq!(pages[2].prev_url.as_deref(), Some("/docs/a/"));
    assert_eq!(pages[2].next_url.as_deref(), Some("/docs/c/"));
    assert_eq!(pages[0].prev_url.as_deref(), Some("/docs/b/"));
    assert_eq!(pages[0].next_url, None);
}

#[test]
fn first_and_last_pages_keep_their_outer_links() {
    let mut first = page("First", "/a/one/", "a", Some("2026-02-01"), None);
    first.prev_url = Some("/kept/".to_string());
    let mut last = page("Last", "/a/two/", "a", Some("2026-01-01"), None);
    last.next_url = Some("/kept-too/".to_string());
    let mut pages = vec![first, last];
    assign_prev_next(&mut pages, &Vec::new());
    assert_eq!(pages[0].prev_url.as_deref(), Some("/kept/"));
    assert_eq!(pages[0].next_url.as_deref(), Some("/a/two/"));
    assert_eq!(pages[1].prev_url.as_deref(), Some("/a/one/"));
    assert_eq!(pages[1].next_url.as_deref(), Some("/kept-too/"));
}

#[test]
fn paginated_lists_split_into_linked_pages() {
    let items: Vec<PageSummary> = (1..=5)
        .map(|k| page_summary(&format!("P{k}"), &format!("/posts/p{k}/"), "posts", "2026-01-01"))
        .collect();
    let mut generated: Vec<GeneratedPage> = Vec::new();
    push_paginated(
        &mut generated,
        "public",
        "section",
        "Posts".to_string(),
        Some("All posts".to_string()),
        "/posts/".to_string(),
        items,
        Some(2),
    );
    assert_eq!(generated.len(), 3);
    assert_eq!(generated[0].title, "Posts");
    assert_eq!(generated[1].title, "Posts - page 2");
    assert_eq!(generated[2].title, "Posts - page 3");
    assert_eq!(generated[0].url, "/posts/");
    assert_eq!(generated[1].url, "/posts/page/2/");
    assert_eq!(generated[2].url, "/posts/page/3/");
    assert_eq!(generated[1].output_html, "public/posts/page/2/index.html");
    assert_eq!(urls(&generated[0].items), vec!["/posts/p1/", "/posts/p2/"]);
    assert_eq!(urls(&generated[2].items), vec!["/posts/p5/"]);
    assert_eq!(generated[0].prev_url, None);
    assert_eq!(generated[0].next_url.as_deref(), Some("/posts/page/2/"));
    assert_eq!(generated[0].next_title.as_deref(), Some("Next"));
    assert_eq!(generated[2].prev_url.as_deref(), Some("/posts/page/2/"));
    assert_eq!(generated[2].prev_title.as_deref(), Some("Previous"));
    assert_eq!(generated[2].next_url, None);
    assert!(generated.iter().all(|g| g.total_pages == 3 && g.kind == "section"));
    assert_eq!(generated[2].page_number, 3);
    assert_eq!(generated[1].description.as_deref(), Some("All posts"));
}

#[test]
fn unpaginated_and_empty_lists_take_one_page() {
    let items = vec![
        page_summary("A", "/a/", "s", "2026-01-01"),
        page_summary("B", "/b/", "s", "2026-01-02"),
    ];
    let mut generated: Vec<GeneratedPage> = Vec::new();
    push_paginated(&mut generated, "public", "k", "T".to_string(), None, "/s/".to_string(), items, None);
    push_paginated(&mut generated, "public", "k", "E".to_string(), None, "/e/".to_string(), Vec::new(), Some(3));
    push_paginated(&mut generated, "public", "k", "Z".to_string(), None, "/z/".to_string(), vec![page_summary("A", "/a/", "s", "x")], Some(0));
    assert_eq!(generated.len(), 3);
    assert_eq!(generated[0].items.len(), 2);
    assert_eq!(generated[0].total_pages, 1);
    assert_eq!(generated[1].items.len(), 0);
    assert_eq!(generated[1].total_pages, 1);
    assert_eq!(generated[1].output_html, "public/e/index.html");
    assert_eq!(generated[2].items.len(), 1);
    assert_eq!(generated[2].next_url, None);
}

#[test]
fn invalid_list_routes_get_an_invalid_page_file() {
    let mut generated: Vec<GeneratedPage> = Vec::new();
    push_paginated(&mut generated, "public", "k", "T".to_string(), None, "/../x/".to_string(), Vec::new(), None);
    assert_eq!(generated[0].output_html, "public/invalid/index.html");
}

#[test]
fn sections_and_taxonomies_generate_lists() {
    let cfg = Config::default();
    let mut hello = page_summary("Hello", "/posts/hello/", "posts", "2026-06-23");
    hello.tags = vec!["Rust".to_string(), "Typst".to_string()];
    let mut older = page_summary("Older", "/posts/older/", "posts", "2026-06-01");
    older.tags = vec!["Rust".to_string()];
    let about = page_summary("About", "/about/", "pages", "2026-01-01");
    let note = page_summary("Note", "/notes/n/", "notes", "2026-02-01");
    let pages = vec![hello, older, about, note];
    let generated = make_generated_pages(&cfg, "public", &pages, &Vec::new());
    let listed: Vec<(&str, &str, &str)> = generated
        .iter()
        .map(|g| (g.kind.as_str(), g.title.as_str(), g.url.as_str()))
        .collect();
    assert_eq!(
        listed,
        vec![
            ("section", "notes", "/notes/"),
            ("section", "posts", "/posts/"),
            ("tags", "tags: Rust", "/tags/rust/"),
            ("tags", "tags: Typst", "/tags/typst/"),
            ("tags-index", "tags", "/tags/"),
            ("categories-index", "categories", "/categories/"),
        ]
    );
    assert_eq!(generated[1].description.as_deref(), Some("Pages in posts"));
    assert_eq!(urls(&generated[1].items), vec!["/posts/hello/", "/posts/older/"]);
    assert_eq!(urls(&generated[2].items), vec!["/posts/hello/", "/posts/older/"]);
    assert_eq!(generated[2].description, None);
    let terms = &generated[4].items;
    assert_eq!(terms.len(), 2);
    assert_eq!(terms[0].kind, "term");
    assert_eq!(terms[0].title, "Rust");
    assert_eq!(terms[0].url, "/tags/rust/");
    assert_eq!(terms[0].path, "tags/rust");
    assert_eq!(terms[0].slug, "rust");
    assert_eq!(terms[0].section, "tags");
    assert_eq!(terms[0].description.as_deref(), Some("2 page(s)"));
    assert_eq!(terms[1].description.as_deref(), Some("1 page(s)"));
    assert_eq!(generated[4].description.as_deref(), Some("All tags"));
    assert_eq!(generated[5].items.len(), 0);
}

#[test]
fn section_metadata_titles_and_paginates_its_list() {
    let cfg = Config::default();
    let mut meta = FrontMatter::default();
    meta.title = Some("Journal".to_string());
    meta.description = Some("Entries".to_string());
    meta.paginate_by = Some(1);
    meta.sort_by = Some("date_asc".to_string());
    let pages = vec![
        page_summary("New", "/blog/new/", "blog", "2026-02-01"),
        page_summary("Old", "/blog/old/", "blog", "2026-01-01"),
    ];
    let mut no_tax = cfg.clone();
    no_tax.taxonomies = Vec::new();
    let generated = make_generated_pages(&no_tax, "public", &pages, &vec![("blog".to_string(), meta)]);
    assert_eq!(generated.len(), 2);
    assert_eq!(generated[0].title, "Journal");
    assert_eq!(generated[1].title, "Journal - page 2");
    assert_eq!(generated[0].description.as_deref(), Some("Entries"));
    assert_eq!(urls(&generated[0].items), vec!["/blog/old/"]);
    assert_eq!(urls(&generated[1].items), vec!["/blog/new/"]);
    assert_eq!(generated[1].url, "/blog/page/2/");
}

#[test]
fn custom_taxonomies_read_free_form_fields() {
    let mut p = page_summary("Tool", "/projects/tool/", "projects", "2026-06-22");
    p.tags = vec!["cli".to_string()];
    p.categories = vec!["dev".to_string()];
    p.extra = vec![
        ("series".to_string(), MetaValue::Text("guide".to_string())),
        (
            "languages".to_string(),
            MetaValue::List(vec![Some("Rust".to_string()), None, Some("Typst".to_string())]),
        ),
        ("stars".to_string(), MetaValue::Other),
    ];
    assert_eq!(taxonomy_values(&p, "tags"), vec!["cli".to_string()]);
    assert_eq!(taxonomy_values(&p, "categories"), vec!["dev".to_string()]);
    assert_eq!(taxonomy_values(&p, "series"), vec!["guide".to_string()]);
    assert_eq!(taxonomy_values(&p, "languages"), vec!["Rust".to_string(), "Typst".to_string()]);
    assert!(taxonomy_values(&p, "stars").is_empty());
    assert!(taxonomy_values(&p, "missing").is_empty());

    let mut cfg = Config::default();
    cfg.taxonomies = vec![TaxonomyConfig { name: "series".to_string(), slug: "series".to_string() }];
    let generated = make_generated_pages(&cfg, "public", &vec![p], &Vec::new());
    let kinds: Vec<&str> = generated.iter().map(|g| g.url.as_str()).collect();
    assert_eq!(kinds, vec!["/projects/", "/series/guide/", "/series/"]);
}

#[test]
fn field_values_take_strings_and_string_items() {
    assert_eq!(field_values(Some("a".to_string()), None), vec!["a".to_string()]);
    assert_eq!(
        field_values(None, Some(vec![Some("x".to_string()), None, Some("y".to_string())])),
        vec!["x".to_string(), "y".to_string()]
    );
    assert!(field_values(None, None).is_empty());
}

#[test]
fn feeds_list_their_sections_newest_first() {
    let mut cfg = Config::default();
    cfg.feed_sections = vec!["blog".to_string()];
    let pages = vec![
        page_summary("Blog", "/blog/post/", "blog", "2026-06-23"),
        page_summary("Project", "/projects/tool/", "projects", "2026-06-22"),
        page_summary("Favorite", "/favorites/art/", "favorites", "2026-06-21"),
        page_summary("Later", "/blog/later/", "blog", "2026-06-24"),
    ];
    let primary = FeedConfig { sections: cfg.feed_sections.clone(), ..FeedConfig::default() };
    assert_eq!(urls(&feed_items(&cfg, &pages, &primary)), vec!["/blog/later/", "/blog/post/"]);
    let projects = FeedConfig {
        section: Some("projects".to_string()),
        title: Some("Projects".to_string()),
        ..FeedConfig::default()
    };
    assert_eq!(urls(&feed_items(&cfg, &pages, &projects)), vec!["/projects/tool/"]);
    assert_eq!(feed_title(&cfg, &projects), "Projects");
    assert_eq!(feed_title(&cfg, &primary), "Typage");
    let mut everything = Config::default();
    everything.feed_sections = vec!["  ".to_string()];
    let limited = FeedConfig { limit: 2, ..FeedConfig::default() };
    assert_eq!(urls(&feed_items(&everything, &pages, &limited)), vec!["/blog/later/", "/blog/post/"]);
    let all = FeedConfig { limit: 0, ..FeedConfig::default() };
    assert_eq!(feed_items(&everything, &pages, &all).len(), 4);
}
