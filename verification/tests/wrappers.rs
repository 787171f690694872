use typage::cache::page_outputs;
use typage::deps::normalize_dependency_path;
use typage::links::{build_link_map, resolve_internal_links};
use typage::markup::new_page_source;
use typage::model::{FrontMatter, Page};
use typage::paths::validate_relative_content_path;
use typage::permalink::{default_title, with_typ_extension};
use typage::wrappers::{
    generated_wrapper_source, page_wrapper_path, page_wrapper_source,
    rewrite_local_dependency_paths,
};

fn page_at(rel: &str, url: &str) -> Page {
    Page {
        source: format!("content/{rel}"),
        rel: rel.to_string(),
        body: String::new(),
        processed_body: String::new(),
        meta: FrontMatter::default(),
        title: rel.to_string(),
        url: url.to_string(),
        canonical_url: url.to_string(),
        slug: String::new(),
        path: rel.trim_end_matches(".typ").to_string(),
        file_path: rel.to_string(),
        output_html: format!("public{url}index.html"),
        output_pdf: format!("public{url}index.pdf"),
        template: "page.typ".to_string(),
        section: "pages".to_string(),
        parent_section: None,
        ancestors: Vec::new(),
        toc: Vec::new(),
        hash: String::new(),
        prev_title: None,
        prev_url: None,
        next_title: None,
        next_url: None,
    }
}

#[test]
fn rewrites_local_dependency_paths_for_isolated_wrappers() {
    let moved = vec![("dep.typ".to_string(), "../../content/dep.typ".to_string())];
    let mut unresolved = Vec::new();
    let got = rewrite_local_dependency_paths("#import \"dep.typ\": x", &moved, &mut unresolved);
    assert!(got.contains("../../content/dep.typ") || got.contains("../content/dep.typ"));
    assert_eq!(got, "#import \"../../content/dep.typ\": x\n");
    assert!(unresolved.is_empty());
}

#[test]
fn dependency_rewriting_keeps_missing_packages_and_raw_blocks() {
    let body = "#import \"@preview/cetz:0.3.0\": canvas\n#include \"missing.typ\"\n```\n#import \"dep.typ\"\n```\n";
    let moved = vec![("dep.typ".to_string(), "../dep.typ".to_string())];
    let mut unresolved = Vec::new();
    let got = rewrite_local_dependency_paths(body, &moved, &mut unresolved);
    assert_eq!(got, body);
    assert_eq!(unresolved, vec!["missing.typ".to_string()]);
}

#[test]
fn later_markers_read_what_earlier_markers_wrote() {
    let moved = vec![("pic.typ".to_string(), "../c/pic.typ".to_string())];
    let mut unresolved = Vec::new();
    let got = rewrite_local_dependency_paths("#image(read(\"pic.typ\"))", &moved, &mut unresolved);
    assert_eq!(got, "#image(read(\"../c/pic.typ\"))\n");
    assert_eq!(unresolved, vec!["../c/pic.typ".to_string()]);
}

#[test]
fn wrapper_paths_replace_the_extension() {
    let page = page_at("posts/hello.typ", "/posts/hello/");
    assert_eq!(page_wrapper_path(".typage/wrappers", &page), ".typage/wrappers/posts/hello.wrapper.typ");
    let bare = page_at("about", "/about/");
    assert_eq!(page_wrapper_path("/w", &bare), "/w/about.wrapper.typ");
}

#[test]
fn wrapper_sources_import_the_template_and_data() {
    assert_eq!(
        generated_wrapper_source("../../templates/list.typ"),
        "#import \"../../templates/list.typ\": render\n#import \"@local/typage:0.1.0\" as typage\n\n#show: render.with(site: typage.site, page: typage.current, pages: typage.pages, taxonomies: typage.taxonomies)\n\n"
    );
    assert_eq!(
        page_wrapper_source("../t/page.typ", "(title: \"A\")", "", "Body"),
        "#import \"../t/page.typ\": render\n#import \"@local/typage:0.1.0\" as typage\n\n#let __typage_current = (title: \"A\")\n#show: render.with(site: typage.site, page: __typage_current, pages: typage.pages, taxonomies: typage.taxonomies)\n\nBody\n"
    );
}

#[test]
fn default_titles_come_from_file_stems() {
    assert_eq!(default_title("content/hello-world.typ"), "hello world");
    assert_eq!(default_title("a/my_first.post.typ"), "my first.post");
    assert_eq!(default_title(".hidden"), ".hidden");
    assert_eq!(default_title(".."), "Untitled");
}

#[test]
fn page_outputs_add_the_pdf_on_request() {
    let page = page_at("posts/hello.typ", "/posts/hello/");
    assert_eq!(page_outputs(&page, false), vec!["public/posts/hello/index.html".to_string()]);
    assert_eq!(
        page_outputs(&page, true),
        vec![
            "public/posts/hello/index.html".to_string(),
            "public/posts/hello/index.pdf".to_string()
        ]
    );
}

#[test]
fn link_maps_reach_pages_with_and_without_extension() {
    let pages = vec![
        page_at("posts/hello.typ", "/posts/hello/"),
        page_at("about.typ", "/about/"),
    ];
    let map = build_link_map(&pages);
    assert_eq!(map.get("@/posts/hello.typ"), Some("/posts/hello/".to_string()));
    assert_eq!(map.get("@/posts/hello"), Some("/posts/hello/".to_string()));
    assert_eq!(map.get("@/about"), Some("/about/".to_string()));
    assert_eq!(map.get("@/missing"), None);
    let mut broken = Vec::new();
    let got = resolve_internal_links("See @/about and @/posts/hello.typ#top.", &map, &mut broken);
    assert_eq!(got, "See /about/ and /posts/hello/#top.\n");
    assert!(broken.is_empty());
}

#[test]
fn content_paths_must_be_plain_and_relative() {
    assert_eq!(validate_relative_content_path("posts/hello.typ"), Ok(()));
    assert_eq!(
        validate_relative_content_path("../x.typ"),
        Err("invalid content path: ../x.typ".to_string())
    );
    assert!(validate_relative_content_path("/abs.typ").is_err());
    assert!(validate_relative_content_path("./a.typ").is_err());
    assert!(validate_relative_content_path("a\\b.typ").is_err());
}

#[test]
fn new_pages_get_the_typst_extension_and_a_source() {
    assert_eq!(with_typ_extension("posts/hello"), "posts/hello.typ");
    assert_eq!(with_typ_extension("posts/hello.typ"), "posts/hello.typ");
    assert_eq!(with_typ_extension("notes.md"), "notes.md");
    assert_eq!(
        new_page_source("Hello \"World\"", Some("2024-01-02"), true),
        "#show: page.with(\n  title: \"Hello \\\"World\\\"\",\n  date: \"2024-01-02\",\n  draft: true,\n  tags: (),\n)\n\nWrite your content here.\n"
    );
    assert_eq!(
        new_page_source("Plain", None, false),
        "#show: page.with(\n  title: \"Plain\",\n  tags: (),\n)\n\nWrite your content here.\n"
    );
}

#[test]
fn dependency_paths_join_the_source_directory() {
    assert_eq!(normalize_dependency_path("content/posts", "./dep.typ"), "content/posts/dep.typ");
    assert_eq!(normalize_dependency_path("content", "lib/dep.typ"), "content/lib/dep.typ");
}
