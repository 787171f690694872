use typage::config::{Config, FeedConfig, PdfDocumentConfig, SearchConfig, TaxonomyConfig};
use typage::escape::{escape_html, escape_xml, json_escape, path_for_json, path_for_toml, path_for_yaml};
use typage::feed::{absolute_url, atom_date, rss_date};
use typage::model::{BuildStats, FrontMatter, SkipStats};
use typage::paths::{is_hidden, is_typst_file, to_posix_path};
use typage::script::{hook_invocation, HookCall, ScriptError};
use typage::term::{bold, cyan, dim, green, magenta, red, yellow};
use typage::url::normalize_directory_url;
use typage::util::{
    compare_chunks, copy_action, hash_strs, hex_digest, slugify, typst_array_str,
    typst_opt_string, typst_string, typst_tuple, write_action, ChunkVerdict, CopyAction,
    ExistingKind, WriteAction,
};
use typage::watch::{on_change, watch_dirs};

#[test]
fn rss_date_formats_simple_dates() {
    assert_eq!(rss_date("2026-06-23"), "23 Jun 2026 00:00:00 +0000");
    assert_eq!(atom_date("2026-06-23"), "2026-06-23T00:00:00Z");
}

#[test]
fn feed_dates_leave_other_text_alone() {
    assert_eq!(rss_date("2026-13-01"), "2026-13-01");
    assert_eq!(rss_date("2026-+2-01"), "01 Feb 2026 00:00:00 +0000");
    assert_eq!(rss_date("June 2026"), "June 2026");
    assert_eq!(atom_date("2026-06"), "2026-06");
    assert_eq!(absolute_url("https://example.com//", "/feed.xml"), "https://example.com/feed.xml");
    assert_eq!(absolute_url("", "/feed.xml"), "/feed.xml");
}

#[test]
fn slugs_keep_letters_and_collapse_the_rest() {
    assert_eq!(slugify("Hello, World!"), "hello-world");
    assert_eq!(slugify("  Café Über  "), "café-Über");
    assert_eq!(slugify("!!!"), "section");
    assert_eq!(slugify("a--b"), "a-b");
}

#[test]
fn typst_literals_escape_quotes_and_controls() {
    assert_eq!(typst_string("a\"b\\c\n"), "\"a\\\"b\\\\c\\n\"");
    assert_eq!(typst_opt_string(&None), "none");
    assert_eq!(typst_opt_string(&Some("x".to_string())), "\"x\"");
    assert_eq!(typst_tuple(vec![]), "()");
    assert_eq!(typst_tuple(vec!["1".to_string()]), "(1,)");
    assert_eq!(typst_tuple(vec!["1".to_string(), "2".to_string()]), "(1, 2)");
    assert_eq!(typst_array_str(&vec!["a".to_string(), "b".to_string()]), "(\"a\", \"b\")");
}

#[test]
fn escapes_for_xml_json_and_config_files() {
    assert_eq!(escape_xml("<a href=\"x\">&'"), "&lt;a href=&quot;x&quot;&gt;&amp;&apos;");
    assert_eq!(escape_html("a&b"), "a&amp;b");
    assert_eq!(json_escape("a\\\"b"), "a\\\\\\\"b");
    assert_eq!(path_for_yaml("a\\b"), "a/b");
    assert_eq!(path_for_toml("a\\\"b"), "a/\\\"b");
    assert_eq!(path_for_json("a\\\"b"), "a/\\\"b");
}

#[test]
fn terminal_colours_wrap_text_when_on() {
    assert_eq!(bold("x", true), "\x1b[1mx\x1b[0m");
    assert_eq!(dim("x", true), "\x1b[2mx\x1b[0m");
    assert_eq!(green("x", true), "\x1b[32mx\x1b[0m");
    assert_eq!(yellow("x", true), "\x1b[33mx\x1b[0m");
    assert_eq!(red("x", true), "\x1b[31mx\x1b[0m");
    assert_eq!(cyan("x", true), "\x1b[36mx\x1b[0m");
    assert_eq!(magenta("x", true), "\x1b[35mx\x1b[0m");
    assert_eq!(bold("x", false), "x");
}

#[test]
fn content_hashes_are_sha256_of_framed_parts() {
    assert_eq!(
        hash_strs(&["a", "b"]),
        "8fb20ef63ced4145fc2e983ffe597d1dcff39154c3bf21f0fa9dde6a0c50fdc9"
    );
    assert_eq!(
        hash_strs(&[]),
        "e3b0c44298fc1c149afbf4c8996fb92427ae41e4649b934ca495991b7852b855"
    );
    assert_eq!(
        hash_strs(&["é"]),
        "6133f2d2dc6cad8dbbfc80f0fb587d3e61469954c82d906cce85239e4c6c8bbd"
    );
    assert_ne!(hash_strs(&["ab"]), hash_strs(&["a", "b"]));
    assert_eq!(hex_digest(&vec![0, 15, 16, 255]), "000f10ff");
}

#[test]
fn defaults_match_a_fresh_site() {
    let cfg = Config::default();
    assert_eq!(cfg.title, "Typage");
    assert_eq!(cfg.out_dir, "public");
    assert_eq!(cfg.feed_limit, 20);
    assert_eq!(cfg.taxonomies.len(), 2);
    assert_eq!(cfg.taxonomies[1].name, "categories");
    assert!(cfg.search.enabled);
    let search = SearchConfig::with_enabled(false);
    assert!(!search.enabled);
    assert_eq!(search.max_tokens, 2048);
    assert_eq!(FeedConfig::default().path, "feed.xml");
    assert_eq!(PdfDocumentConfig::default().template, "print.typ");
    assert_eq!(TaxonomyConfig::default().slug, "tags");
    assert!(FrontMatter::default().tags.is_empty());
    assert_eq!(BuildStats::default().built, 0);
    let skipped = SkipStats { drafts: 1, future: 2, expired: 3 };
    assert_eq!(skipped.total(), 6);
    assert_eq!(SkipStats::default().total(), 0);
}

#[test]
fn paths_and_urls_are_normalized() {
    assert_eq!(to_posix_path("a//b/./c"), "a/b/c");
    assert_eq!(to_posix_path("/a/../b"), "/a/../b");
    assert!(is_hidden("dir/.git"));
    assert!(!is_hidden("dir/file"));
    assert!(is_typst_file("a/b.typ"));
    assert!(!is_typst_file("a/b.typx"));
    assert_eq!(normalize_directory_url(" /a//b/ ").unwrap_err(), typage::url::UrlError::UnsafeSegment);
    assert_eq!(normalize_directory_url("a/b").unwrap(), "/a/b/");
    assert_eq!(normalize_directory_url("///").unwrap(), "/");
}

#[test]
fn watched_directories_include_a_named_theme() {
    assert_eq!(
        watch_dirs("/site", "content", "templates", "static", Some("dark")),
        vec!["/site/content", "/site/templates", "/site/static", "/site/themes/dark"]
    );
    assert_eq!(watch_dirs("/site", "c", "t", "s", Some("  ")).len(), 3);
    assert_eq!(watch_dirs("/site", "c", "t", "s", None).len(), 3);
}

#[test]
fn changes_close_to_a_rebuild_are_let_pass() {
    assert_eq!(on_change(None, 5), (Some(5), true));
    assert_eq!(on_change(Some(100), 349), (Some(100), false));
    assert_eq!(on_change(Some(100), 350), (Some(350), true));
}

#[test]
fn hooks_run_their_configured_command() {
    let hooks = vec![("pre_build".to_string(), "typage clean --root .".to_string())];
    assert_eq!(
        hook_invocation(&hooks, "pre_build", false, false),
        Ok(Some(HookCall {
            command: "typage clean --root .".to_string(),
            program: "typage".to_string(),
            runs_self: true,
            args: vec!["clean".to_string(), "--root".to_string(), ".".to_string()],
        }))
    );
    assert_eq!(hook_invocation(&hooks, "pre_build", true, false), Ok(None));
    assert_eq!(hook_invocation(&hooks, "pre_build", false, true), Ok(None));
    assert_eq!(hook_invocation(&hooks, "post_build", false, false), Ok(None));
    let bad = vec![("post_build".to_string(), "echo 'x".to_string())];
    assert_eq!(
        hook_invocation(&bad, "post_build", false, false),
        Err(ScriptError::UnterminatedQuote)
    );
}

#[test]
fn outputs_are_written_only_over_files_and_links() {
    assert_eq!(write_action(ExistingKind::Missing), WriteAction::Write);
    assert_eq!(write_action(ExistingKind::Symlink), WriteAction::RemoveLinkThenWrite);
    assert_eq!(write_action(ExistingKind::File), WriteAction::CompareThenWrite);
    assert_eq!(write_action(ExistingKind::Other), WriteAction::Refuse);
    assert_eq!(copy_action(false, ExistingKind::Missing, false), CopyAction::SkipSource);
    assert_eq!(copy_action(true, ExistingKind::File, true), CopyAction::CompareThenCopy);
    assert_eq!(copy_action(true, ExistingKind::File, false), CopyAction::Copy);
    assert_eq!(copy_action(true, ExistingKind::Symlink, true), CopyAction::RemoveLinkThenCopy);
    assert_eq!(copy_action(true, ExistingKind::Other, true), CopyAction::Refuse);
    assert_eq!(compare_chunks(b"", b""), ChunkVerdict::Equal);
    assert_eq!(compare_chunks(b"ab", b"ab"), ChunkVerdict::More);
    assert_eq!(compare_chunks(b"ab", b"ac"), ChunkVerdict::Different);
    assert_eq!(compare_chunks(b"ab", b"a"), ChunkVerdict::Different);
}
