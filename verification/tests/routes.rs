use typage::model::{FrontMatter, GeneratedPage, Page};
use typage::routes::{collect_routes, validate_routes, RouteError, RouteOwner};
use typage::url::{output_path_for_url, public_file_path, public_file_url, UrlError};

fn page(source: &str, url: &str, aliases: &[&str]) -> Page {
    let mut meta = FrontMatter::default();
    meta.aliases = aliases.iter().map(|a| a.to_string()).collect();
    Page {
        source: source.to_string(),
        rel: source.to_string(),
        body: String::new(),
        processed_body: String::new(),
        meta,
        title: source.to_string(),
        url: url.to_string(),
        canonical_url: url.to_string(),
        slug: String::new(),
        path: String::new(),
        file_path: String::new(),
        output_html: String::new(),
        output_pdf: String::new(),
        template: String::new(),
        section: String::new(),
        parent_section: None,
        ancestors: Vec::new(),
        toc: Vec::new(),
        hash: String::new(),
        prev_title: None,
        prev_url: None,
        next_title: None,
        next_url: None,
    }
}

fn generated(title: &str, url: &str) -> GeneratedPage {
    GeneratedPage {
        kind: "section".to_string(),
        title: title.to_string(),
        description: None,
        url: url.to_string(),
        output_html: String::new(),
        items: Vec::new(),
        page_number: 1,
        total_pages: 1,
        prev_title: None,
        prev_url: None,
        next_title: None,
        next_url: None,
    }
}

#[test]
fn distinct_routes_are_accepted() {
    let pages = vec![page("a.typ", "/a/", &["old/a"]), page("b.typ", "/b/", &[])];
    let gens = vec![generated("Posts", "/posts/")];
    assert_eq!(validate_routes(&pages, &gens), Ok(()));
    let routes = collect_routes(&pages, &gens);
    assert_eq!(routes.len(), 4);
    assert_eq!(routes[1].1, Ok("/old/a/".to_string()));
}

#[test]
fn aliases_that_collide_with_pages_are_reported() {
    let pages = vec![page("a.typ", "/a/", &[]), page("b.typ", "/b/", &["a"])];
    assert_eq!(
        validate_routes(&pages, &Vec::new()),
        Err(RouteError::Collision {
            url: "/a/".to_string(),
            previous: RouteOwner::Page { source: "a.typ".to_string() },
            owner: RouteOwner::Alias { alias: "a".to_string(), source: "b.typ".to_string() },
        })
    );
    let gens = vec![generated("B", "/b/")];
    assert!(matches!(
        validate_routes(&vec![page("b.typ", "/b/", &[])], &gens),
        Err(RouteError::Collision { .. })
    ));
}

#[test]
fn unsafe_routes_are_reported_first() {
    let pages = vec![page("a.typ", "a/", &[]), page("b.typ", "/b/", &["../x"])];
    assert_eq!(
        validate_routes(&pages, &Vec::new()),
        Err(RouteError::InvalidUrl {
            owner: RouteOwner::Page { source: "a.typ".to_string() },
            error: UrlError::NotRooted,
        })
    );
    let pages = vec![page("b.typ", "/b/", &["../x"])];
    assert_eq!(
        validate_routes(&pages, &Vec::new()),
        Err(RouteError::InvalidAlias {
            owner: RouteOwner::Alias { alias: "../x".to_string(), source: "b.typ".to_string() },
            error: UrlError::UnsafeSegment,
        })
    );
}

#[test]
fn output_files_live_under_the_output_root() {
    assert_eq!(output_path_for_url("public", "/"), Ok("public/index.html".to_string()));
    assert_eq!(
        output_path_for_url("public", "/posts/a/"),
        Ok("public/posts/a/index.html".to_string())
    );
    assert_eq!(output_path_for_url("public", "/a/../b/"), Err(UrlError::Traversal));
    assert_eq!(public_file_url(" /feeds/rss.xml "), Ok("/feeds/rss.xml".to_string()));
    assert_eq!(public_file_url("dir/"), Err(UrlError::UnsafeFilePath));
    assert_eq!(public_file_url("///"), Err(UrlError::UnsafeFilePath));
    assert_eq!(public_file_url("a//b"), Err(UrlError::UnsafeSegment));
    assert_eq!(public_file_path("public", "print.pdf"), Ok("public/print.pdf".to_string()));
}
