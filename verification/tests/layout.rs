use typage::config::{Config, MetaValue};
use typage::model::{FrontMatter, Page, TocItem};
use typage::paths::{is_page_wrapper, relative_path};
use typage::policy::{static_roots, validate_directory_policy, validate_theme_name};

#[test]
fn rejects_dangerous_directory_policy() {
    let root = "/tmp/site";
    let mut cfg = Config::default();
    cfg.out_dir = "public".to_string();
    cfg.static_dir = "public".to_string();
    let errors = validate_directory_policy(
        root,
        &cfg,
        "/tmp/site/content",
        "/tmp/site/templates",
        &vec!["/tmp/site/public".to_string()],
        "/tmp/site/public",
    );
    assert!(!errors.is_empty());
}

#[test]
fn directory_policy_names_each_overlap() {
    let cfg = Config::default();
    let ok = validate_directory_policy(
        "/s",
        &cfg,
        "/s/content",
        "/s/templates",
        &vec!["/s/static".to_string()],
        "/s/public",
    );
    assert!(ok.is_empty());
    let errors = validate_directory_policy(
        "/s/./x/..",
        &cfg,
        "/s/content",
        "/s/templates",
        &vec!["/s/public/assets".to_string()],
        "/s/content/out",
    );
    assert_eq!(
        errors,
        vec!["out_dir must not be inside content_dir: /s/content".to_string()]
    );
    let root_out = validate_directory_policy("/s", &cfg, "/s/c", "/s/t", &Vec::new(), "/s/");
    assert!(root_out.contains(&"out_dir must not be the project root".to_string()));
    assert!(root_out.contains(&"out_dir must not contain content_dir: /s/c".to_string()));
    assert!(root_out.contains(&"out_dir must not contain cache_dir: /s/.typage".to_string()));
    let mut bad = Config::default();
    bad.out_dir = "../out".to_string();
    bad.theme = Some("a/b".to_string());
    let errs = validate_directory_policy("/s", &bad, "/s/c", "/s/t", &Vec::new(), "/s/../out");
    assert_eq!(
        errs[0],
        "out_dir must not contain root, prefix, or parent components: ../out"
    );
    assert_eq!(errs[1], "invalid theme name: a/b");
}

#[test]
fn theme_names_and_static_roots() {
    assert_eq!(validate_theme_name("  ").as_deref(), Some("theme name must not be empty"));
    assert_eq!(validate_theme_name("x..y").as_deref(), Some("invalid theme name: x..y"));
    assert_eq!(validate_theme_name("dark"), None);
    let mut cfg = Config::default();
    assert_eq!(static_roots("/s", &cfg), vec!["/s/static"]);
    cfg.theme = Some("dark".to_string());
    assert_eq!(static_roots("/s", &cfg), vec!["/s/themes/dark/static", "/s/static"]);
}

#[test]
fn relative_paths_climb_to_the_common_parent() {
    assert_eq!(relative_path("/a/b/c", "/a/d/e.typ"), "../../d/e.typ");
    assert_eq!(relative_path("/a/b", "/a/b/c"), "c");
    assert_eq!(relative_path("/a", "/a"), "");
}

#[test]
fn page_summaries_merge_metadata() {
    let mut meta = FrontMatter::default();
    meta.description = Some("desc".to_string());
    meta.tags = vec!["t".to_string()];
    meta.flattened_extra = vec![
        ("a".to_string(), MetaValue::Text("1".to_string())),
        ("b".to_string(), MetaValue::Other),
    ];
    meta.extra = vec![("b".to_string(), MetaValue::Text("3".to_string()))];
    let merged: std::collections::BTreeMap<String, MetaValue> = meta.extra().into_iter().collect();
    assert_eq!(merged.get("a"), Some(&MetaValue::Text("1".to_string())));
    assert_eq!(merged.get("b"), Some(&MetaValue::Text("3".to_string())));
    let page = Page {
        source: "content/posts/a.typ".to_string(),
        rel: "posts\\a.typ".to_string(),
        body: String::new(),
        processed_body: String::new(),
        meta,
        title: "A".to_string(),
        url: "/posts/a/".to_string(),
        canonical_url: "/posts/a/".to_string(),
        slug: "a".to_string(),
        path: "posts/a".to_string(),
        file_path: "posts/a.typ".to_string(),
        output_html: "public/posts/a/index.html".to_string(),
        output_pdf: String::new(),
        template: "base.typ".to_string(),
        section: "posts".to_string(),
        parent_section: None,
        ancestors: vec!["posts".to_string()],
        toc: vec![TocItem { level: 2, id: "x".to_string(), text: "X".to_string() }],
        hash: String::new(),
        prev_title: None,
        prev_url: None,
        next_title: None,
        next_url: None,
    };
    let s = page.summary();
    assert_eq!(s.kind, "page");
    assert_eq!(s.source, "posts/a.typ");
    assert_eq!(s.excerpt.as_deref(), Some("desc"));
    assert_eq!(s.tags, vec!["t".to_string()]);
    assert_eq!(s.toc[0].id, "x");
    assert_eq!(s.extra.len(), 3);
}

#[test]
fn page_wrappers_are_recognized_by_name() {
    assert!(is_page_wrapper(".typage.hello.typ"));
    assert!(!is_page_wrapper("hello.typ"));
    assert!(!is_page_wrapper(".typage.hello.txt"));
}
