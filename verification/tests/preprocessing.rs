use typage::links::LinkMap;
use typage::preprocess::preprocess_body;

fn anchor(id: &str) -> String {
    format!("#context {{ if target() == \"html\" {{ html.elem(\"a\", attrs: (id: \"{id}\", class: \"anchor\"))[] }} }}\n")
}

#[test]
fn headings_get_anchors_with_distinct_ids() {
    let map = LinkMap::new();
    let body = "= Intro\nText\n== Intro\n= Intro\n```\n= Not heading\n```\n";
    let (toc, out, broken) = preprocess_body(body, &map, true);
    let ids: Vec<&str> = toc.iter().map(|t| t.id.as_str()).collect();
    assert_eq!(ids, vec!["intro", "intro-2", "intro-3"]);
    assert_eq!(toc[1].level, 2);
    assert_eq!(toc[1].text, "Intro");
    let expected = [
        anchor("intro").as_str(),
        "= Intro\nText\n",
        anchor("intro-2").as_str(),
        "== Intro\n",
        anchor("intro-3").as_str(),
        "= Intro\n```\n= Not heading\n```\n",
    ]
    .concat();
    assert_eq!(out, expected);
    assert!(broken.is_empty());
}

#[test]
fn bodies_without_a_toc_only_resolve_links() {
    let mut map = LinkMap::new();
    map.insert("@/a.typ".to_string(), "/a/".to_string());
    let (toc, out, broken) = preprocess_body("= Title\nsee @/a.typ and @/b.typ", &map, false);
    assert!(toc.is_empty());
    assert_eq!(out, "= Title\nsee /a/ and @/b.typ\n");
    assert_eq!(broken, vec!["@/b.typ".to_string()]);
}
