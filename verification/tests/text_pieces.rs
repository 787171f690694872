use typage::cache::{cache_decision, OutputState};
use typage::dates::{civil_from_days, date_of_days, is_expired_date, is_future_date, today_ymd_utc};
use typage::markup::{
    line_column, make_excerpt, nav_dict, parse_heading, strip_inline_markup, toc_array, toml_string,
    truncate_chars, typst_ident,
};
use typage::model::{BuildCache, CacheEntry, TocItem};
use typage::theme::{component_exported, component_name_to_export, parse_version_tuple, version_lt};

#[test]
fn cache_decision_explains_miss() {
    let cache = BuildCache::default();
    let got = cache_decision(&cache, "page:x", "hash", &Vec::new(), false);
    assert!(!got.hit);
    assert_eq!(got.reasons, vec!["no cache entry".to_string()]);
}

#[test]
fn cache_decision_rebuilds_unsafe_output_symlink() {
    let mut cache = BuildCache::default();
    cache.insert(
        "page:index.typ".to_string(),
        CacheEntry { hash: "hash".to_string(), outputs: vec!["public/index.html".to_string()] },
    );
    let outputs = vec![("public/index.html".to_string(), OutputState::Other)];
    let got = cache_decision(&cache, "page:index.typ", "hash", &outputs, false);
    assert!(!got.hit);
    assert!(got.reasons.iter().any(|reason| reason.contains("unsafe output path")));
}

#[test]
fn cache_decisions_give_every_reason() {
    let mut cache = BuildCache::default();
    cache.insert("k".to_string(), CacheEntry { hash: "old".to_string(), outputs: Vec::new() });
    let outputs = vec![
        ("a.html".to_string(), OutputState::File),
        ("b.html".to_string(), OutputState::Missing),
        ("c.html".to_string(), OutputState::Failed("denied".to_string())),
    ];
    let got = cache_decision(&cache, "k", "new", &outputs, false);
    assert!(!got.hit);
    assert_eq!(
        got.reasons,
        vec![
            "hash changed".to_string(),
            "missing output b.html".to_string(),
            "failed to inspect output c.html: denied".to_string(),
        ]
    );
    let ok = vec![("a.html".to_string(), OutputState::File)];
    let hit = cache_decision(&cache, "k", "old", &ok, false);
    assert!(hit.hit);
    assert_eq!(hit.reasons, vec!["cache hit".to_string()]);
    let forced = cache_decision(&cache, "k", "old", &ok, true);
    assert!(!forced.hit);
    assert_eq!(forced.reasons, vec!["forced rebuild".to_string()]);
    cache.insert("k".to_string(), CacheEntry { hash: "new".to_string(), outputs: Vec::new() });
    assert_eq!(cache.get("k").map(|e| e.hash.as_str()), Some("new"));
    assert!(cache.get("other").is_none());
}

#[test]
fn civil_dates_of_day_counts() {
    assert_eq!(civil_from_days(0), (1970, 1, 1));
    assert_eq!(civil_from_days(59), (1970, 3, 1));
    assert_eq!(civil_from_days(11_016), (2000, 2, 29));
    assert_eq!(civil_from_days(20_627), (2026, 6, 23));
    assert_eq!(date_of_days(0), "1970-01-01");
    assert_eq!(date_of_days(20_627), "2026-06-23");
    let today = today_ymd_utc();
    assert_eq!(today.len(), 10);
    assert_eq!(&today[4..5], "-");
}

#[test]
fn future_and_expired_dates_compare_with_today() {
    let today = "2026-06-23";
    assert!(is_future_date(&Some("2026-07-01".to_string()), today));
    assert!(!is_future_date(&Some("2026-06-23T10:00".to_string()), today));
    assert!(!is_future_date(&Some("soon".to_string()), today));
    assert!(!is_future_date(&None, today));
    assert!(is_expired_date(&Some(" 2025-01-01 ".to_string()), today));
    assert!(!is_expired_date(&Some("2026-06-24".to_string()), today));
}

#[test]
fn excerpts_cut_characters_and_trim() {
    assert_eq!(truncate_chars("héllo", 2), "hé");
    assert_eq!(truncate_chars("abc", 0), "");
    assert_eq!(truncate_chars("abc", 10), "abc");
    assert_eq!(make_excerpt("  one two", 6), "one");
    assert_eq!(toml_string("a\"b\\c\n"), "\"a\\\"b\\\\c\\n\"");
}

#[test]
fn headings_give_level_and_plain_text() {
    assert_eq!(parse_heading("== Hello *World*"), Some((2, "Hello World".to_string())));
    assert_eq!(parse_heading("  = `code` _x_ "), Some((1, "code x".to_string())));
    assert_eq!(parse_heading("======= too deep"), None);
    assert_eq!(parse_heading("== = odd"), None);
    assert_eq!(parse_heading("=="), None);
    assert_eq!(parse_heading("text"), None);
    assert_eq!(strip_inline_markup(" *a_b* `c` "), "ab c");
}

#[test]
fn line_and_column_of_byte_offsets() {
    let source = "ab\ncé\nx";
    assert_eq!(line_column(source, 0), (1, 1));
    assert_eq!(line_column(source, 2), (1, 3));
    assert_eq!(line_column(source, 3), (2, 1));
    assert_eq!(line_column(source, 6), (2, 3));
    assert_eq!(line_column(source, 100), (3, 2));
}

#[test]
fn typst_identifiers_and_values() {
    assert_eq!(typst_ident("github-url"), "github_url");
    assert_eq!(typst_ident("2nd"), "_nd");
    assert_eq!(typst_ident(""), "_");
    assert_eq!(typst_ident("été"), "été");
    assert_eq!(typst_ident("a1"), "a1");
    assert_eq!(nav_dict(&Some("Next".to_string()), &Some("/n/".to_string())), "(title: \"Next\", url: \"/n/\")");
    assert_eq!(nav_dict(&Some("Next".to_string()), &None), "none");
    let toc = vec![
        TocItem { level: 1, id: "a".to_string(), text: "A".to_string() },
        TocItem { level: 2, id: "b".to_string(), text: "B \"q\"".to_string() },
    ];
    assert_eq!(
        toc_array(&toc),
        "((level: 1, id: \"a\", text: \"A\"), (level: 2, id: \"b\", text: \"B \\\"q\\\"\"))"
    );
    assert_eq!(toc_array(&toc[..1].to_vec()), "((level: 1, id: \"a\", text: \"A\"),)");
    assert_eq!(toc_array(&Vec::new()), "()");
}

#[test]
fn theme_versions_and_components() {
    assert_eq!(parse_version_tuple("v0.12.3-beta"), (0, 12, 3));
    assert_eq!(parse_version_tuple("1.2"), (1, 2, 0));
    assert_eq!(parse_version_tuple("none"), (0, 0, 0));
    assert_eq!(parse_version_tuple("99999999999999999999.1.2"), (0, 1, 2));
    assert!(version_lt("0.9.0", "0.10.0"));
    assert!(!version_lt("1.0.0", "1.0.0"));
    assert!(!version_lt("2", "1.9.9"));
    assert_eq!(component_name_to_export("social-link"), "social-link");
    assert_eq!(component_name_to_export("nav-menu"), "nav_menu");
    assert_eq!(component_name_to_export("footer_link"), "footer-link");
    assert!(component_exported("#let note(body) = body\n", "note"));
    assert!(component_exported("#import \"x.typ\": card, note", "note"));
    assert!(!component_exported("#let notes = 1", "card"));
}
