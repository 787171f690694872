use typage::shortcode::{
    expand_shortcodes, parse_shortcode_args, split_shortcode_args, try_expand_shortcodes,
};

#[test]
fn expands_builtin_shortcodes() {
    let got = expand_shortcodes("before {{ note(text=\"hello\") }} after");
    assert!(got.contains("html.elem(\"aside\""));
    assert!(got.contains("hello"));
}

#[test]
fn note_shortcode_renders_exact_markup() {
    let got = expand_shortcodes("a {{ note(\"hi \\\"there\\\"\") }} b");
    assert_eq!(
        got,
        "a #context { let text = \"hi \\\"there\\\"\"; if target() == \"html\" { html.elem(\"aside\", attrs: (class: \"note\"))[#text] } else { block(inset: 8pt, stroke: luma(180))[#text] } } b\n"
    );
}

#[test]
fn figure_and_youtube_shortcodes_fill_defaults() {
    let fig = expand_shortcodes("{{ figure(src=\"a.png\") }}");
    assert!(fig.starts_with("#context { let src = \"a.png\"; let alt = \"\"; let caption = none;"));
    let cap = expand_shortcodes("{{ figure(src='a.png', alt=Alt, caption=\"C\") }}");
    assert!(cap.contains("let alt = \"Alt\"; let caption = some(\"C\");"));
    let yt = expand_shortcodes("{{ youtube(id=abc) }}");
    assert!(yt.contains("let src = \"https://www.youtube-nocookie.com/embed/abc\"; let title = \"YouTube video\";"));
}

#[test]
fn unknown_or_unclosed_shortcodes_stay_as_written() {
    assert_eq!(expand_shortcodes("x {{  other(a=1)  }} y"), "x {{other(a=1)}} y\n");
    assert_eq!(expand_shortcodes("x {{ note(text=1) y"), "x {{ note(text=1) y\n");
    assert_eq!(expand_shortcodes("{{ note() }}"), "{{note()}}\n");
    assert_eq!(expand_shortcodes("no codes"), "no codes\n");
}

#[test]
fn raw_blocks_keep_shortcodes() {
    let body = "```\n{{ note(text=x) }}\n```\n{{ note(text=y) }}";
    let got = expand_shortcodes(body);
    let lines: Vec<&str> = got.lines().collect();
    assert_eq!(lines[0], "```");
    assert_eq!(lines[1], "{{ note(text=x) }}");
    assert_eq!(lines[2], "```");
    assert!(lines[3].contains("let text = \"y\""));
}

#[test]
fn shortcode_arguments_split_outside_quotes() {
    assert_eq!(
        split_shortcode_args("a=1, b=\"x,y\" , 'c\\'d',"),
        vec!["a=1", "b=\"x,y\"", "'c\\'d'"]
    );
    let table = parse_shortcode_args("first, key = \"v\", third").unwrap();
    assert_eq!(
        table,
        vec![
            ("0".to_string(), "first".to_string()),
            ("key".to_string(), "v".to_string()),
            ("2".to_string(), "third".to_string()),
        ]
    );
}

#[test]
fn a_lone_quote_value_has_no_expansion() {
    assert_eq!(try_expand_shortcodes("{{ note(text=\") }}"), None);
    assert!(parse_shortcode_args("text=\"").is_none());
}
