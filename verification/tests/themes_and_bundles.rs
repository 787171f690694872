use typage::theme_report::{theme_report, ThemeFacts, ThemeMeta};
use typage::wrappers::{bundle_html_path, bundle_source, BundleGenerated, BundlePage};

fn meta(name: Option<&str>, min: Option<&str>, components: &[(&str, bool)]) -> ThemeMeta {
    ThemeMeta {
        name: name.map(String::from),
        version: Some("0.1.0".to_string()),
        description: None,
        min_typage: min.map(String::from),
        components: components.iter().map(|(k, v)| (k.to_string(), *v)).collect(),
        extra_keys: Vec::new(),
    }
}

fn facts(m: Result<ThemeMeta, String>, lib: &str) -> ThemeFacts {
    ThemeFacts {
        dir_exists: true,
        meta: m,
        templates_exist: true,
        static_exists: true,
        components_exist: true,
        entry_exists: true,
        lib: Ok(lib.to_string()),
    }
}

#[test]
fn a_complete_theme_has_no_issues() {
    let f = facts(Ok(meta(Some("ink"), Some("0.1.0"), &[("note", true), ("page_link", true)])), "#let note(body) = body\n#let page-link(x) = x\n");
    let r = theme_report("themes/ink", Some("ink"), Some("ink"), "0.1.0", &f);
    assert!(r.ok());
    assert!(r.warnings.is_empty());
    assert_eq!(r.name, "ink");
    assert_eq!(r.path, "themes/ink");
}

#[test]
fn theme_problems_are_reported_in_order() {
    let mut m = meta(None, Some("9.0.0"), &[("card", true), ("note", false)]);
    m.version = None;
    let mut f = facts(Ok(m), "#let note = 1");
    f.static_exists = false;
    let r = theme_report("themes/ink", Some("ink"), Some("other"), "0.1.0", &f);
    assert_eq!(
        r.errors,
        vec![
            "theme.toml is missing version".to_string(),
            "theme requires typage >= 9.0.0, current is 0.1.0".to_string(),
            "theme declares component `card` but templates/components/lib.typ does not appear to export `card`".to_string(),
        ]
    );
    assert_eq!(
        r.warnings,
        vec![
            "theme.toml name Some(\"ink\") differs from directory name \"other\"".to_string(),
            "theme static dir is missing: themes/ink/static".to_string(),
        ]
    );
    assert_eq!(r.name, "ink");
}

#[test]
fn missing_directories_and_metadata_stop_the_report() {
    let mut f = facts(Err("bad toml".to_string()), "");
    let r = theme_report("themes/x", Some("x"), None, "0.1.0", &f);
    assert_eq!(r.errors, vec!["theme metadata is missing or invalid: bad toml".to_string()]);
    assert!(r.meta.is_none());
    f.dir_exists = false;
    let r = theme_report("themes/x", Some("x"), None, "0.1.0", &f);
    assert_eq!(r.errors, vec!["theme directory is missing: themes/x".to_string()]);
    let mut g = facts(Ok(meta(Some("x"), None, &[])), "");
    g.components_exist = false;
    let r = theme_report("themes/x", Some("x"), None, "0.1.0", &g);
    assert_eq!(r.errors, vec!["theme components dir is missing: themes/x/templates/components".to_string()]);
    assert_eq!(r.warnings, vec!["theme.toml does not specify min_typage".to_string()]);
}

#[test]
fn bundle_paths_are_directory_index_files() {
    assert_eq!(bundle_html_path("/"), "index.html");
    assert_eq!(bundle_html_path("/posts/hello/"), "posts/hello/index.html");
}

#[test]
fn bundles_hold_documents_and_assets() {
    let pages = vec![BundlePage {
        template_rel: "../templates/base.typ".to_string(),
        url: "/about/".to_string(),
        current: "(title: \"About\")".to_string(),
        validation: "#let a = 1\n#let b = 2".to_string(),
        body: "Hello".to_string(),
    }];
    let generated = vec![BundleGenerated {
        template_rel: "../templates/list.typ".to_string(),
        url: "/".to_string(),
        current: "(kind: \"home\")".to_string(),
    }];
    let assets = vec![("css\\site.css".to_string(), "../static/css/site.css".to_string())];
    let render = "  #let asset = path => if site.base_url == \"\" { path } else { site.base_url + path }\n  #show: render.with(site: site, page: current, pages: pages, taxonomies: taxonomies)\n";
    let expected = [
        "// Generated by typage. Experimental Typst bundle export.\n#import \"site.typ\": site, pages, taxonomies\n",
        "#document(\"about/index.html\")[\n  #import \"../templates/base.typ\": render\n  #let current = (title: \"About\")\n  #let __typage_current = current\n  #let a = 1\n  #let b = 2\n",
        render,
        "Hello\n]\n",
        "#document(\"index.html\")[\n  #import \"../templates/list.typ\": render\n  #let current = (kind: \"home\")\n",
        render,
        "]\n",
        "#asset(\"css/site.css\", read(\"../static/css/site.css\", encoding: none))\n",
    ]
    .concat();
    assert_eq!(bundle_source("site.typ", &pages, &generated, &assets), expected);
}
