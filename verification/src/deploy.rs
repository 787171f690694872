//! Deployment scaffolds for static hosts: which files each target needs
//! and what they hold.
use vstd::prelude::*;

use crate::escape::{escaped, json_escape, path_for_json, path_for_toml, path_for_yaml, Escape};
use crate::paths::{join_path, join_path_of};
use crate::text::{chars_of, contains_char, is_whitespace, is_ws, push_char, push_chars, string_of, trim, trim_vec, views};

verus! {

broadcast use vstd::string::group_string_axioms;

/// The Typst CLI release that scaffolds install.
pub const TYPST_CLI_VERSION: &'static str = "0.15.0";

/// How scaffolds install this site generator.
pub const TYPAGE_INSTALL_COMMAND: &'static str = "cargo install typage --locked";

/// A static hosting platform.
#[derive(Debug, Clone, Copy, PartialEq, Eq)]
pub enum DeployTarget {
    /// A GitHub Actions workflow for GitHub Pages.
    GithubPages,
    /// A wrangler.toml scaffold for Cloudflare Pages.
    CloudflarePages,
    /// A netlify.toml scaffold for Netlify.
    Netlify,
    /// A vercel.json scaffold for Vercel.
    Vercel,
}

/// The command-line name of a target.
pub open spec fn target_name(t: DeployTarget) -> Seq<char> {
    match t {
        DeployTarget::GithubPages => "github-pages"@,
        DeployTarget::CloudflarePages => "cloudflare-pages"@,
        DeployTarget::Netlify => "netlify"@,
        DeployTarget::Vercel => "vercel"@,
    }
}

impl DeployTarget {
    /// The command-line name of the target.
    pub fn as_str(self) -> (r: &'static str)
        ensures
            r@ == target_name(self),
    {
        match self {
            DeployTarget::GithubPages => "github-pages",
            DeployTarget::CloudflarePages => "cloudflare-pages",
            DeployTarget::Netlify => "netlify",
            DeployTarget::Vercel => "vercel",
        }
    }
}

/// Why a scaffold could not be written.
#[derive(Debug, Clone, Copy, PartialEq, Eq)]
pub enum DeployError {
    /// The custom domain is empty after trimming.
    EmptyCname,
    /// The custom domain holds `/`, `\`, `:` or white space.
    InvalidCname,
    /// The scaffold file exists and `--force` was not given.
    RefuseOverwrite,
}

/// The message for a deploy error; `detail` is the custom domain for the
/// domain errors and the file's path for a refused overwrite.
pub open spec fn deploy_message_of(e: DeployError, detail: Seq<char>) -> Seq<char> {
    match e {
        DeployError::EmptyCname => "CNAME must not be empty"@,
        DeployError::InvalidCname => "invalid CNAME: "@ + trim(detail),
        DeployError::RefuseOverwrite => "refusing to overwrite "@ + detail + ". Re-run with --force"@,
    }
}

impl DeployError {
    /// The message that reports this error; `detail` is the custom domain
    /// as given for the domain errors, the file's path for a refused
    /// overwrite.
    pub fn message(&self, detail: &str) -> (r: String)
        ensures
            r@ == deploy_message_of(*self, detail@),
    {
        match self {
            DeployError::EmptyCname => String::from_str("CNAME must not be empty"),
            DeployError::InvalidCname => {
                let mut m = String::from_str("invalid CNAME: ");
                push_chars(&mut m, &trim_vec(&chars_of(detail)));
                m
            },
            DeployError::RefuseOverwrite => {
                let mut m = String::from_str("refusing to overwrite ");
                m.append(detail);
                m.append(". Re-run with --force");
                m
            },
        }
    }
}

/// Whether `cname` is acceptable as a custom domain.
pub open spec fn cname_check(cname: Seq<char>) -> Result<(), DeployError> {
    let t = trim(cname);
    if t.len() == 0 {
        Err(DeployError::EmptyCname)
    } else if t.contains('/') || t.contains('\\') || t.contains(':') || exists|i: int|
        0 <= i < t.len() && is_ws(#[trigger] t[i]) {
        Err(DeployError::InvalidCname)
    } else {
        Ok(())
    }
}

/// Checks a custom domain.
pub fn validate_cname(cname: &str) -> (r: Result<(), DeployError>)
    ensures
        r == cname_check(cname@),
{
    let cs = chars_of(cname);
    let t = trim_vec(&cs);
    if t.len() == 0 {
        return Err(DeployError::EmptyCname);
    }
    if contains_char(&t, '/') || contains_char(&t, '\\') || contains_char(&t, ':') {
        return Err(DeployError::InvalidCname);
    }
    let mut i: usize = 0;
    while i < t.len()
        invariant
            i <= t.len(),
            t@ == trim(cname@),
            t@.len() > 0,
            !(t@.contains('/') || t@.contains('\\') || t@.contains(':')),
            forall|k: int| 0 <= k < i ==> !is_ws(#[trigger] t@[k]),
        decreases t.len() - i,
    {
        if is_whitespace(t[i]) {
            assert(is_ws(t@[i as int]));
            return Err(DeployError::InvalidCname);
        }
        i += 1;
    }
    Ok(())
}

/// Whether a scaffold file may be written: not when it exists, unless
/// forced.
pub fn check_overwrite(exists: bool, force: bool) -> (r: Result<(), DeployError>)
    ensures
        r is Err <==> exists && !force,
        r matches Err(e) ==> e == DeployError::RefuseOverwrite,
{
    if exists && !force {
        Err(DeployError::RefuseOverwrite)
    } else {
        Ok(())
    }
}

/// The targets whose scaffold files exist, given whether the GitHub
/// workflow, `wrangler.toml`, `netlify.toml` and `vercel.json` exist.
pub fn detect_targets(github: bool, wrangler: bool, netlify: bool, vercel: bool) -> (r: Vec<
    DeployTarget,
>)
    ensures
        r@ == (if github {
            seq![DeployTarget::GithubPages]
        } else {
            Seq::<DeployTarget>::empty()
        }) + (if wrangler {
            seq![DeployTarget::CloudflarePages]
        } else {
            Seq::<DeployTarget>::empty()
        }) + (if netlify {
            seq![DeployTarget::Netlify]
        } else {
            Seq::<DeployTarget>::empty()
        }) + (if vercel {
            seq![DeployTarget::Vercel]
        } else {
            Seq::<DeployTarget>::empty()
        }),
{
    let mut targets: Vec<DeployTarget> = Vec::new();
    if github {
        targets.push(DeployTarget::GithubPages);
    }
    let ghost a = targets@;
    if wrangler {
        targets.push(DeployTarget::CloudflarePages);
    }
    let ghost b = targets@;
    if netlify {
        targets.push(DeployTarget::Netlify);
    }
    let ghost c = targets@;
    if vercel {
        targets.push(DeployTarget::Vercel);
    }
    assert(targets@ =~= (if github {
        seq![DeployTarget::GithubPages]
    } else {
        Seq::<DeployTarget>::empty()
    }) + (if wrangler {
        seq![DeployTarget::CloudflarePages]
    } else {
        Seq::<DeployTarget>::empty()
    }) + (if netlify {
        seq![DeployTarget::Netlify]
    } else {
        Seq::<DeployTarget>::empty()
    }) + (if vercel {
        seq![DeployTarget::Vercel]
    } else {
        Seq::<DeployTarget>::empty()
    }));
    targets
}

// ---------------------------------------------------------------------------
// Scaffold texts
// ---------------------------------------------------------------------------

/// The shell command that installs the Typst CLI.
pub open spec fn typst_install_of() -> Seq<char> {
    "cargo install typst-cli --locked --version "@ + TYPST_CLI_VERSION@
}

/// The shell command that installs the Typst CLI.
pub fn typst_install_command() -> (r: String)
    ensures
        r@ == typst_install_of(),
{
    let mut s = String::from_str("cargo install typst-cli --locked --version ");
    s.append(TYPST_CLI_VERSION);
    s
}

/// The shell command that installs the Typst CLI and this generator.
pub open spec fn install_of() -> Seq<char> {
    typst_install_of() + " && "@ + TYPAGE_INSTALL_COMMAND@
}

/// The shell command that installs the Typst CLI and this generator.
pub fn install_command() -> (r: String)
    ensures
        r@ == install_of(),
{
    let mut s = typst_install_command();
    s.append(" && ");
    s.append(TYPAGE_INSTALL_COMMAND);
    s
}

pub const GITHUB_WORKFLOW_HEAD: &'static str = "name: Deploy typage site to GitHub Pages\n\non:\n  push:\n    branches: [main]\n  workflow_dispatch:\n\npermissions:\n  contents: read\n  pages: write\n  id-token: write\n\nconcurrency:\n  group: pages\n  cancel-in-progress: true\n\njobs:\n  build:\n    runs-on: ubuntu-latest\n    steps:\n      - uses: actions/checkout@v4\n      - uses: dtolnay/rust-toolchain@stable\n      - uses: typst-community/setup-typst@v4\n        with:\n          typst-version: ";

pub const GITHUB_WORKFLOW_INSTALL: &'static str = "\n      - name: Install typage\n        run: ";

pub const GITHUB_WORKFLOW_BUILD: &'static str = "\n      - name: Build site\n        run: typage build --force --jobs 0\n      - uses: actions/upload-pages-artifact@v3\n        with:\n          path: ";

pub const GITHUB_WORKFLOW_TAIL: &'static str = "\n\n  deploy:\n    environment:\n      name: github-pages\n      url: ${{ steps.deployment.outputs.page_url }}\n    runs-on: ubuntu-latest\n    needs: build\n    steps:\n      - id: deployment\n        uses: actions/deploy-pages@v4\n";

/// The GitHub Pages workflow that builds the site into `out_dir` and
/// publishes it.
pub open spec fn github_workflow_of(out_dir: Seq<char>) -> Seq<char> {
    GITHUB_WORKFLOW_HEAD@ + TYPST_CLI_VERSION@ + GITHUB_WORKFLOW_INSTALL@ + TYPAGE_INSTALL_COMMAND@
        + GITHUB_WORKFLOW_BUILD@ + escaped(Escape::YamlPath, out_dir) + GITHUB_WORKFLOW_TAIL@
}

/// The GitHub Pages workflow.
pub fn github_pages_workflow(out_dir: &str) -> (r: String)
    ensures
        r@ == github_workflow_of(out_dir@),
{
    let out = path_for_yaml(out_dir);
    let mut s = String::from_str(GITHUB_WORKFLOW_HEAD);
    s.append(TYPST_CLI_VERSION);
    s.append(GITHUB_WORKFLOW_INSTALL);
    s.append(TYPAGE_INSTALL_COMMAND);
    s.append(GITHUB_WORKFLOW_BUILD);
    s.append(out.as_str());
    s.append(GITHUB_WORKFLOW_TAIL);
    s
}

pub const WRANGLER_HEAD: &'static str = "# Cloudflare Pages scaffold for typage.\n# Install command: ";

pub const WRANGLER_BUILD: &'static str = "\n# Build command: typage build --force --jobs 0\n# Output directory: ";

pub const WRANGLER_DEPLOY: &'static str = "\n#\n# For direct deploys with Wrangler:\n#   npx wrangler pages deploy ";

pub const WRANGLER_PROJECT: &'static str = " --project-name <your-project>\n\nname = \"typage-site\"\npages_build_output_dir = \"";

pub const WRANGLER_TAIL: &'static str = "\"\ncompatibility_date = \"2026-06-24\"\n";

/// The `wrangler.toml` scaffold for Cloudflare Pages.
pub open spec fn wrangler_of(out_dir: Seq<char>) -> Seq<char> {
    let out = escaped(Escape::QuotedPath, out_dir);
    WRANGLER_HEAD@ + install_of() + WRANGLER_BUILD@ + out + WRANGLER_DEPLOY@ + out
        + WRANGLER_PROJECT@ + out + WRANGLER_TAIL@
}

/// The `wrangler.toml` scaffold for Cloudflare Pages.
pub fn cloudflare_wrangler(out_dir: &str) -> (r: String)
    ensures
        r@ == wrangler_of(out_dir@),
{
    let out = path_for_toml(out_dir);
    let install = install_command();
    let mut s = String::from_str(WRANGLER_HEAD);
    s.append(install.as_str());
    s.append(WRANGLER_BUILD);
    s.append(out.as_str());
    s.append(WRANGLER_DEPLOY);
    s.append(out.as_str());
    s.append(WRANGLER_PROJECT);
    s.append(out.as_str());
    s.append(WRANGLER_TAIL);
    s
}

pub const NETLIFY_HEAD: &'static str = "# Netlify scaffold for typage.\n# Installs Typst CLI ";

pub const NETLIFY_COMMAND: &'static str = " and typage before building.\n# Replace this command if your build image provides them another way.\n\n[build]\ncommand = \"";

pub const NETLIFY_PUBLISH: &'static str = " && typage build --force --jobs 0\"\npublish = \"";

pub const NETLIFY_TAIL: &'static str = "\"\n";

/// The `netlify.toml` scaffold.
pub open spec fn netlify_of(out_dir: Seq<char>) -> Seq<char> {
    NETLIFY_HEAD@ + TYPST_CLI_VERSION@ + NETLIFY_COMMAND@ + install_of() + NETLIFY_PUBLISH@
        + escaped(Escape::QuotedPath, out_dir) + NETLIFY_TAIL@
}

/// The `netlify.toml` scaffold.
pub fn netlify_toml(out_dir: &str) -> (r: String)
    ensures
        r@ == netlify_of(out_dir@),
{
    let out = path_for_toml(out_dir);
    let install = install_command();
    let mut s = String::from_str(NETLIFY_HEAD);
    s.append(TYPST_CLI_VERSION);
    s.append(NETLIFY_COMMAND);
    s.append(install.as_str());
    s.append(NETLIFY_PUBLISH);
    s.append(out.as_str());
    s.append(NETLIFY_TAIL);
    s
}

pub const VERCEL_HEAD: &'static str = "{\n  \"$schema\": \"https://openapi.vercel.sh/vercel.json\",\n  \"installCommand\": \"";

pub const VERCEL_OUTPUT: &'static str = "\",\n  \"buildCommand\": \"typage build --force --jobs 0\",\n  \"outputDirectory\": \"";

pub const VERCEL_TAIL: &'static str = "\",\n  \"cleanUrls\": true\n}\n";

/// The `vercel.json` scaffold.
pub open spec fn vercel_of(out_dir: Seq<char>) -> Seq<char> {
    VERCEL_HEAD@ + escaped(Escape::Json, install_of()) + VERCEL_OUTPUT@ + escaped(
        Escape::QuotedPath,
        out_dir,
    ) + VERCEL_TAIL@
}

/// The `vercel.json` scaffold.
pub fn vercel_json(out_dir: &str) -> (r: String)
    ensures
        r@ == vercel_of(out_dir@),
{
    let out = path_for_json(out_dir);
    let install_raw = install_command();
    let install = json_escape(install_raw.as_str());
    let mut s = String::from_str(VERCEL_HEAD);
    s.append(install.as_str());
    s.append(VERCEL_OUTPUT);
    s.append(out.as_str());
    s.append(VERCEL_TAIL);
    s
}

// ---------------------------------------------------------------------------
// Scaffold plans
// ---------------------------------------------------------------------------

/// The path of the GitHub Pages workflow, relative to the site root.
pub const GITHUB_WORKFLOW_PATH: &'static str = ".github/workflows/deploy.yml";

/// The files (path relative to the site root, contents) that `deploy init`
/// writes for `target`, in order, and the error it stops with after them.
/// GitHub Pages writes its workflow and `.nojekyll` before it checks the
/// custom domain; the other targets check the domain first.
pub open spec fn scaffold_plan(
    target: DeployTarget,
    out_dir: Seq<char>,
    static_dir: Seq<char>,
    cname: Option<Seq<char>>,
) -> (Seq<(Seq<char>, Seq<char>)>, Option<DeployError>) {
    let bad = match cname {
        Some(c) => match cname_check(c) {
            Err(e) => Some(e),
            Ok(_) => None,
        },
        None => None,
    };
    match target {
        DeployTarget::GithubPages => {
            let base = seq![
                (GITHUB_WORKFLOW_PATH@, github_workflow_of(out_dir)),
                (join_path_of(static_dir, ".nojekyll"@), Seq::<char>::empty()),
            ];
            match cname {
                Some(c) => if bad is Some {
                    (base, bad)
                } else {
                    (base.push((join_path_of(static_dir, "CNAME"@), trim(c).push('\n'))), None)
                },
                None => (base, None),
            }
        },
        _ => if bad is Some {
            (Seq::<(Seq<char>, Seq<char>)>::empty(), bad)
        } else {
            match target {
                DeployTarget::CloudflarePages => (
                    seq![("wrangler.toml"@, wrangler_of(out_dir))],
                    None,
                ),
                DeployTarget::Netlify => (seq![("netlify.toml"@, netlify_of(out_dir))], None),
                _ => (seq![("vercel.json"@, vercel_of(out_dir))], None),
            }
        },
    }
}

/// The files that `deploy init` writes for a target and the error it stops
/// with, if any.
pub fn scaffold_files(target: DeployTarget, out_dir: &str, static_dir: &str, cname: Option<&str>) -> (r: (
    Vec<(String, String)>,
    Option<DeployError>,
))
    ensures
        (r.0@.map_values(|p: (String, String)| (p.0@, p.1@)), r.1) == scaffold_plan(
            target,
            out_dir@,
            static_dir@,
            match cname {
                Some(c) => Some(c@),
                None => None,
            },
        ),
{
    let bad: Option<DeployError> = match cname {
        Some(c) => match validate_cname(c) {
            Err(e) => Some(e),
            Ok(_) => None,
        },
        None => None,
    };
    let mut files: Vec<(String, String)> = Vec::new();
    match target {
        DeployTarget::GithubPages => {
            files.push((String::from_str(GITHUB_WORKFLOW_PATH), github_pages_workflow(out_dir)));
            files.push((join_path(static_dir, ".nojekyll"), String::new()));
            match cname {
                Some(c) => {
                    if bad.is_some() {
                        assert(files@.map_values(|p: (String, String)| (p.0@, p.1@)) =~= seq![
                            (GITHUB_WORKFLOW_PATH@, github_workflow_of(out_dir@)),
                            (join_path_of(static_dir@, ".nojekyll"@), Seq::<char>::empty()),
                        ]);
                        return (files, bad);
                    }
                    let cs = chars_of(c);
                    let t = trim_vec(&cs);
                    let mut body = string_of(&t);
                    push_char(&mut body, '\n');
                    files.push((join_path(static_dir, "CNAME"), body));
                    assert(files@.map_values(|p: (String, String)| (p.0@, p.1@)) =~= seq![
                        (GITHUB_WORKFLOW_PATH@, github_workflow_of(out_dir@)),
                        (join_path_of(static_dir@, ".nojekyll"@), Seq::<char>::empty()),
                        (join_path_of(static_dir@, "CNAME"@), trim(c@).push('\n')),
                    ]);
                    (files, None)
                },
                None => {
                    assert(files@.map_values(|p: (String, String)| (p.0@, p.1@)) =~= seq![
                        (GITHUB_WORKFLOW_PATH@, github_workflow_of(out_dir@)),
                        (join_path_of(static_dir@, ".nojekyll"@), Seq::<char>::empty()),
                    ]);
                    (files, None)
                },
            }
        },
        _ => {
            if bad.is_some() {
                assert(files@.map_values(|p: (String, String)| (p.0@, p.1@)) =~= Seq::<
                    (Seq<char>, Seq<char>),
                >::empty());
                return (files, bad);
            }
            match target {
                DeployTarget::CloudflarePages => {
                    files.push((String::from_str("wrangler.toml"), cloudflare_wrangler(out_dir)));
                },
                DeployTarget::Netlify => {
                    files.push((String::from_str("netlify.toml"), netlify_toml(out_dir)));
                },
                _ => {
                    files.push((String::from_str("vercel.json"), vercel_json(out_dir)));
                },
            }
            assert(files@.map_values(|p: (String, String)| (p.0@, p.1@)) =~= scaffold_plan(
                target,
                out_dir@,
                static_dir@,
                match cname {
                    Some(c) => Some(c@),
                    None => None,
                },
            ).0);
            (files, None)
        },
    }
}

// ---------------------------------------------------------------------------
// Deploy doctor
// ---------------------------------------------------------------------------

/// The file whose presence shows that a target is set up, relative to the
/// site root.
pub open spec fn target_file_of(t: DeployTarget) -> Seq<char> {
    match t {
        DeployTarget::GithubPages => GITHUB_WORKFLOW_PATH@,
        DeployTarget::CloudflarePages => "wrangler.toml"@,
        DeployTarget::Netlify => "netlify.toml"@,
        DeployTarget::Vercel => "vercel.json"@,
    }
}

/// The file whose presence shows that a target is set up.
pub fn target_file(t: DeployTarget) -> (r: &'static str)
    ensures
        r@ == target_file_of(t),
{
    match t {
        DeployTarget::GithubPages => GITHUB_WORKFLOW_PATH,
        DeployTarget::CloudflarePages => "wrangler.toml",
        DeployTarget::Netlify => "netlify.toml",
        DeployTarget::Vercel => "vercel.json",
    }
}

/// How the doctor names a target's file.
pub open spec fn target_label_of(t: DeployTarget) -> Seq<char> {
    match t {
        DeployTarget::GithubPages => "github-pages workflow"@,
        DeployTarget::CloudflarePages => "cloudflare-pages wrangler.toml"@,
        DeployTarget::Netlify => "netlify.toml"@,
        DeployTarget::Vercel => "vercel.json"@,
    }
}

/// How the doctor names a target's file.
pub fn target_label(t: DeployTarget) -> (r: &'static str)
    ensures
        r@ == target_label_of(t),
{
    match t {
        DeployTarget::GithubPages => "github-pages workflow",
        DeployTarget::CloudflarePages => "cloudflare-pages wrangler.toml",
        DeployTarget::Netlify => "netlify.toml",
        DeployTarget::Vercel => "vercel.json",
    }
}

/// The issue reported when no target is set up.
pub const NO_SCAFFOLD_ISSUE: &'static str = "no deployment scaffold found; run `typage deploy init <target>`";

/// The issue for a target whose file is missing.
pub open spec fn missing_issue_of(root: Seq<char>, t: DeployTarget) -> Seq<char> {
    "missing "@ + target_label_of(t) + ": "@ + join_path_of(root, target_file_of(t))
}

/// The issues for the targets whose files are missing (`present[i]` tells
/// whether the file of `targets[i]` exists), in order.
pub open spec fn missing_issues(root: Seq<char>, targets: Seq<DeployTarget>, present: Seq<bool>) -> Seq<
    Seq<char>,
>
    decreases targets.len(),
{
    if targets.len() == 0 {
        Seq::<Seq<char>>::empty()
    } else {
        let prev = missing_issues(root, targets.drop_last(), present.drop_last());
        if present.last() {
            prev
        } else {
            prev.push(missing_issue_of(root, targets.last()))
        }
    }
}

/// The issues the deploy doctor finds: none set up at all, then each
/// missing file.
pub open spec fn doctor_issues_of(root: Seq<char>, targets: Seq<DeployTarget>, present: Seq<bool>) -> Seq<
    Seq<char>,
> {
    if targets.len() == 0 {
        seq![NO_SCAFFOLD_ISSUE@]
    } else {
        missing_issues(root, targets, present)
    }
}

/// The issues the deploy doctor finds for the site at `root`, checking
/// `targets`, where `present[i]` tells whether the file of `targets[i]`
/// exists.
pub fn doctor_issues(root: &str, targets: &Vec<DeployTarget>, present: &Vec<bool>) -> (r: Vec<String>)
    requires
        targets.len() == present.len(),
    ensures
        crate::script::string_views(r@) == doctor_issues_of(root@, targets@, present@),
{
    let mut issues: Vec<String> = Vec::new();
    if targets.len() == 0 {
        issues.push(String::from_str(NO_SCAFFOLD_ISSUE));
        assert(crate::script::string_views(issues@) =~= seq![NO_SCAFFOLD_ISSUE@]);
        return issues;
    }
    let mut i: usize = 0;
    while i < targets.len()
        invariant
            i <= targets.len(),
            targets.len() == present.len(),
            crate::script::string_views(issues@) == missing_issues(
                root@,
                targets@.take(i as int),
                present@.take(i as int),
            ),
        decreases targets.len() - i,
    {
        let ghost before = crate::script::string_views(issues@);
        assert(targets@.take(i + 1).drop_last() =~= targets@.take(i as int));
        assert(present@.take(i + 1).drop_last() =~= present@.take(i as int));
        if !present[i] {
            let t = targets[i];
            let mut msg = String::from_str("missing ");
            msg.append(target_label(t));
            msg.append(": ");
            let p = join_path(root, target_file(t));
            msg.append(p.as_str());
            issues.push(msg);
            assert(crate::script::string_views(issues@) =~= before.push(missing_issue_of(root@, t)));
        }
        i += 1;
    }
    assert(targets@.take(targets.len() as int) =~= targets@);
    assert(present@.take(present.len() as int) =~= present@);
    issues
}

/// The error the deploy doctor ends with when it found issues: their
/// count, a blank line, then the issues one per line.
pub open spec fn doctor_failure_of(issues: Seq<Seq<char>>) -> Option<Seq<char>> {
    if issues.len() == 0 {
        None
    } else {
        Some(
            "deploy doctor found "@ + crate::url::decimal(issues.len()) + " issue(s)\n\n"@
                + crate::util::join(issues, "\n"@),
        )
    }
}

/// The error the deploy doctor ends with, if it found issues.
pub fn doctor_failure(issues: &Vec<String>) -> (r: Option<String>)
    ensures
        r matches Some(m) ==> doctor_failure_of(crate::script::string_views(issues@)) == Some(m@),
        r is None ==> doctor_failure_of(crate::script::string_views(issues@)) is None,
{
    if issues.len() == 0 {
        return None;
    }
    let mut parts: Vec<Vec<char>> = Vec::new();
    let mut i: usize = 0;
    while i < issues.len()
        invariant
            i <= issues.len(),
            views(parts@) == crate::script::string_views(issues@).take(i as int),
        decreases issues.len() - i,
    {
        let ghost before = views(parts@);
        parts.push(chars_of(issues[i].as_str()));
        assert(views(parts@) =~= before.push(issues@[i as int]@));
        assert(crate::script::string_views(issues@).take(i + 1) =~= crate::script::string_views(
            issues@,
        ).take(i as int).push(issues@[i as int]@));
        i += 1;
    }
    assert(crate::script::string_views(issues@).take(issues.len() as int) =~= crate::script::string_views(issues@));
    let sep = chars_of("\n");
    let body = crate::util::join_vecs(&parts, &sep);
    let mut msg = String::from_str("deploy doctor found ");
    push_chars(&mut msg, &crate::url::usize_to_decimal(issues.len()));
    msg.append(" issue(s)\n\n");
    push_chars(&mut msg, &body);
    Some(msg)
}

} // verus!
