use typage::script::{merged_scripts, script_args, split_script, ScriptError};

#[test]
fn splits_script_like_shell_words() {
    let got = split_script("serve --addr \"127.0.0.1:1111\" --live-reload").unwrap();
    assert_eq!(
        got,
        vec!["serve", "--addr", "127.0.0.1:1111", "--live-reload"]
    );
}

#[test]
fn split_script_reports_unterminated_quote_and_empty_command() {
    assert_eq!(split_script("serve 'oops"), Err(ScriptError::UnterminatedQuote));
    assert_eq!(split_script("   "), Err(ScriptError::EmptyCommand));
    assert_eq!(split_script("a\\ b c").unwrap(), vec!["a b", "c"]);
}

#[test]
fn configured_scripts_override_defaults() {
    let user = vec![
        ("dev".to_string(), "serve --addr 0.0.0.0:8080".to_string()),
        ("lint".to_string(), "doctor".to_string()),
    ];
    let merged = merged_scripts(&user);
    let get = |k: &str| merged.iter().find(|(n, _)| n == k).map(|(_, c)| c.clone());
    assert_eq!(get("dev").as_deref(), Some("serve --addr 0.0.0.0:8080"));
    assert_eq!(get("build").as_deref(), Some("build"));
    assert_eq!(get("lint").as_deref(), Some("doctor"));
    assert_eq!(merged.len(), 6);
}

#[test]
fn script_args_add_root_and_extra_arguments() {
    let args = script_args(&Vec::new(), "dev", "site", &vec!["--jobs".to_string(), "4".to_string()])
        .unwrap();
    assert_eq!(args, vec!["serve", "--live-reload", "--root", "site", "--jobs", "4"]);
    assert_eq!(script_args(&Vec::new(), "nope", ".", &Vec::new()), Err(ScriptError::UnknownScript));
}
