use std::collections::BTreeSet;

use typage::config::SearchConfig;
use typage::deps::{extract_dependency_paths, is_local_typst_path};
use typage::links::{resolve_internal_links, resolve_internal_links_line, LinkMap};
use typage::paths::{infer_section, is_content_partial, validate_project_relative_dir};
use typage::search::{plain_text_for_search, tokenize_search_text};
use typage::typst::{check_typst_version, parse_typst_version, TypstVersionError};
use typage::url::{
    alias_to_url, paginated_url, parent_section_name, section_ancestors, section_url,
};

const TYPAGE_VERSION: &str = "0.1.0";

#[test]
fn parses_typst_versions() {
    assert_eq!(
        parse_typst_version("typst 0.15.0 (unknown commit)"),
        Some((0, 15, 0))
    );
    assert_eq!(parse_typst_version("typst v0.16.1-dev"), Some((0, 16, 1)));
    assert_eq!(parse_typst_version("typst unknown"), None);
}

#[test]
fn resolves_internal_links_and_keeps_raw_spans() {
    let mut map = LinkMap::new();
    map.insert("@/posts/hello.typ".to_string(), "/posts/hello/".to_string());
    let mut broken = Vec::new();
    let line = "#link(\"@/posts/hello.typ#sec\")[ok] and `@/posts/hello.typ`";
    let got = resolve_internal_links_line(line, &map, &mut broken);
    assert_eq!(
        got,
        "#link(\"/posts/hello/#sec\")[ok] and `@/posts/hello.typ`"
    );
    assert!(broken.is_empty());
}

#[test]
fn reports_broken_links() {
    let map = LinkMap::new();
    let mut broken = Vec::new();
    let got =
        resolve_internal_links_line("#link(\"@/missing.typ\")[missing]", &map, &mut broken);
    assert_eq!(got, "#link(\"@/missing.typ\")[missing]");
    assert_eq!(broken, vec!["@/missing.typ".to_string()]);
}

#[test]
fn rejects_unsafe_aliases() {
    assert!(alias_to_url("old/hello").is_ok());
    assert!(alias_to_url("../escape").is_err());
    assert!(alias_to_url("").is_err());
}

#[test]
fn root_level_pages_belong_to_pages_section() {
    assert_eq!(infer_section("search.typ"), "pages");
    assert_eq!(infer_section("posts/hello.typ"), "posts");
}

#[test]
fn underscore_typst_files_are_content_partials() {
    assert!(is_content_partial("_prelude.typ"));
    assert!(is_content_partial("components/_helpers.typ"));
    assert!(!is_content_partial("_index.typ"));
    assert!(!is_content_partial("index.typ"));
}

#[test]
fn paginated_urls_are_directory_urls() {
    assert_eq!(paginated_url("/posts/", 1), "/posts/");
    assert_eq!(paginated_url("/posts/", 2), "/posts/page/2/");
}

#[test]
fn rejects_project_dirs_outside_root() {
    assert!(validate_project_relative_dir("content_dir", "../content").is_some());
    assert!(validate_project_relative_dir("static_dir", "/tmp/static").is_some());
    assert!(validate_project_relative_dir("out_dir", "public").is_none());
}

#[test]
fn search_plain_text_ignores_code() {
    let got = plain_text_for_search("== Title\n`code` text #strong[ok]");
    assert!(got.contains("Title"));
    assert!(got.contains("text"));
    assert!(!got.contains("code"));
}

#[test]
fn package_imports_are_not_local_dependencies() {
    let deps = extract_dependency_paths(&format!(
        "#import \"@local/typage:{TYPAGE_VERSION}\": site\n#import \"@preview/cetz:0.5.2\""
    ));
    assert!(deps.is_empty());
    assert!(!is_local_typst_path(&format!(
        "@local/typage:{TYPAGE_VERSION}"
    )));
    assert!(!is_local_typst_path("@preview/cetz:0.5.2"));
    assert!(is_local_typst_path("./helpers.typ"));
}

#[test]
fn dependency_paths_ignore_raw_blocks_and_inline_code() {
    let deps = extract_dependency_paths(
        r#"#import "helpers.typ": x

````typ
```txt
inner fence
```
#let sample = read("example.dat", encoding: none)
````

Use `read("inline.dat", encoding: none)` in examples.
("icons", "loaded via read(..., encoding: none)"), ("next", "value")
"#,
    );
    let deps: BTreeSet<String> = deps.into_iter().collect();
    assert_eq!(deps, BTreeSet::from(["helpers.typ".to_string()]));
}

#[test]
fn section_hierarchy_uses_nested_paths() {
    assert_eq!(
        infer_section("posts/tutorials/intro.typ"),
        "posts/tutorials"
    );
    assert_eq!(
        parent_section_name("posts/tutorials").as_deref(),
        Some("posts")
    );
    assert_eq!(
        section_ancestors("posts/tutorials/deep"),
        vec!["posts".to_string(), "posts/tutorials".to_string()]
    );
    assert_eq!(section_url("posts/tutorials"), "/posts/tutorials/");
}

#[test]
fn search_tokenizer_emits_cjk_ngrams() {
    let cfg = SearchConfig {
        mode: "auto".to_string(),
        ngram: 2,
        ..SearchConfig::default()
    };
    let tokens = tokenize_search_text("\u{65e5}\u{672c}\u{8a9e}\u{691c}\u{7d22} Typst", &cfg);
    assert!(tokens.contains(&"\u{65e5}\u{672c}".to_string()));
    assert!(tokens.contains(&"\u{672c}\u{8a9e}".to_string()));
    assert!(tokens.contains(&"\u{8a9e}\u{691c}".to_string()));
    assert!(tokens.contains(&"\u{691c}\u{7d22}".to_string()));
    assert!(tokens.contains(&"typst".to_string()));
}

#[test]
fn resolves_links_outside_fenced_blocks_only() {
    let mut map = LinkMap::new();
    map.insert("@/a.typ".to_string(), "/a/".to_string());
    let mut broken = Vec::new();
    let body = "see @/a.typ\n```\n@/a.typ and @/b.typ\n```\n@/b.typ here";
    let got = resolve_internal_links(body, &map, &mut broken);
    assert_eq!(got, "see /a/\n```\n@/a.typ and @/b.typ\n```\n@/b.typ here\n");
    assert_eq!(broken, vec!["@/b.typ".to_string()]);
}

#[test]
fn checks_the_typst_version_against_the_minimum() {
    assert_eq!(check_typst_version("typst 0.15.0 (unknown commit)"), Ok((0, 15, 0)));
    assert_eq!(check_typst_version("typst 1.0.0"), Ok((1, 0, 0)));
    assert_eq!(check_typst_version("typst 0.14.2"), Err(TypstVersionError::TooOld));
    assert_eq!(check_typst_version("no version here"), Err(TypstVersionError::Unparsable));
}
