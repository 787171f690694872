use typage::deploy::DeployError;
use typage::script::{split_script, ScriptError};
use typage::util::{copy_refusal_message, slugify, write_refusal_message};
use typage::watch::next_revision;

#[test]
fn deploy_errors_have_their_messages() {
    assert_eq!(DeployError::EmptyCname.message("  "), "CNAME must not be empty");
    assert_eq!(DeployError::InvalidCname.message(" a/b "), "invalid CNAME: a/b");
    assert_eq!(
        DeployError::RefuseOverwrite.message("site/netlify.toml"),
        "refusing to overwrite site/netlify.toml. Re-run with --force"
    );
}

#[test]
fn script_errors_have_their_messages() {
    assert_eq!(
        ScriptError::UnknownScript.message("\"dev\"", ""),
        "unknown script \"dev\". Run `typage run` to list scripts"
    );
    assert_eq!(
        ScriptError::UnterminatedQuote.message("\"x\"", "echo 'hi"),
        "unterminated quote in script: echo 'hi"
    );
    assert_eq!(ScriptError::EmptyCommand.message("\"x\"", ""), "empty script command");
}

#[test]
fn refused_writes_name_the_path() {
    assert_eq!(write_refusal_message("out/a"), "refusing to overwrite non-file path out/a");
    assert_eq!(
        copy_refusal_message("public/x.css"),
        "refusing to overwrite non-file static output public/x.css"
    );
}

#[test]
fn revisions_grow_only_on_successful_builds() {
    assert_eq!(next_revision(4, true), 5);
    assert_eq!(next_revision(4, false), 4);
    assert_eq!(next_revision(u64::MAX, true), 0);
}

#[test]
fn slugs_are_fixed_points() {
    for s in ["Hello, World!", "  --Déjà vu--  ", "", "a__b", "section"] {
        let once = slugify(s);
        assert_eq!(slugify(&once), once);
    }
    assert_eq!(slugify("Hello, World!"), "hello-world");
}

#[test]
fn plain_commands_split_on_white_space() {
    let cmd = "typage  build --root\tsite";
    let expected: Vec<String> = cmd.split_whitespace().map(String::from).collect();
    assert_eq!(split_script(cmd), Ok(expected));
}
