use typage::deploy::{
    check_overwrite, cloudflare_wrangler, detect_targets, doctor_failure, doctor_issues,
    github_pages_workflow, netlify_toml, scaffold_files, target_file, target_label,
    validate_cname, vercel_json, DeployError, DeployTarget,
};

#[test]
fn github_pages_scaffold_lists_workflow_and_static_files() {
    let (files, err) = scaffold_files(DeployTarget::GithubPages, "public", "static", Some("example.com"));
    assert_eq!(err, None);
    assert_eq!(files.len(), 3);
    assert_eq!(files[0].0, ".github/workflows/deploy.yml");
    let workflow = &files[0].1;
    assert!(workflow.contains("uses: typst-community/setup-typst@v4"));
    assert!(workflow.contains("typst-version: 0.15.0"));
    assert!(workflow.contains("run: cargo install typage --locked"));
    assert!(workflow.contains("path: public\n"));
    assert_eq!(files[1], ("static/.nojekyll".to_string(), String::new()));
    assert_eq!(files[2], ("static/CNAME".to_string(), "example.com\n".to_string()));
}

#[test]
fn github_pages_scaffold_stops_at_a_bad_domain_after_the_workflow() {
    let (files, err) = scaffold_files(DeployTarget::GithubPages, "public", "static", Some("a b"));
    assert_eq!(err, Some(DeployError::InvalidCname));
    assert_eq!(files.len(), 2);
    let (files, err) = scaffold_files(DeployTarget::Netlify, "public", "static", Some("  "));
    assert_eq!(err, Some(DeployError::EmptyCname));
    assert!(files.is_empty());
}

#[test]
fn vercel_scaffold_holds_commands_and_output_dir() {
    let raw = vercel_json("public");
    assert!(raw.contains("cargo install typst-cli --locked --version 0.15.0"));
    assert!(raw.contains("cargo install typage --locked"));
    assert!(raw.contains("\"buildCommand\": \"typage build --force --jobs 0\""));
    assert!(raw.contains("\"outputDirectory\": \"public\""));
    assert!(raw.contains("\"cleanUrls\": true"));
    let (files, _) = scaffold_files(DeployTarget::Vercel, "public", "static", None);
    assert_eq!(files, vec![("vercel.json".to_string(), raw)]);
}

#[test]
fn netlify_scaffold_installs_typst_and_this_generator() {
    let raw = netlify_toml("public");
    assert!(raw.contains("cargo install typst-cli --locked --version 0.15.0"));
    assert!(raw.contains("cargo install typage --locked"));
    assert!(raw.contains("typage build --force --jobs 0"));
    assert!(raw.contains("publish = \"public\""));
    assert!(netlify_toml("out\\dir").contains("publish = \"out/dir\""));
}

#[test]
fn wrangler_scaffold_points_at_the_output() {
    let raw = cloudflare_wrangler("site \"x\"");
    assert!(raw.contains("pages_build_output_dir = \"site \\\"x\\\"\""));
    assert!(raw.starts_with("# Cloudflare Pages scaffold for typage.\n"));
    assert!(github_pages_workflow("a\\b").contains("path: a/b\n"));
}

#[test]
fn refuses_to_overwrite_scaffold_without_force() {
    assert_eq!(check_overwrite(true, false), Err(DeployError::RefuseOverwrite));
    assert_eq!(check_overwrite(true, true), Ok(()));
    assert_eq!(check_overwrite(false, false), Ok(()));
}

#[test]
fn custom_domains_are_checked() {
    assert_eq!(validate_cname(" example.com "), Ok(()));
    assert_eq!(validate_cname(""), Err(DeployError::EmptyCname));
    assert_eq!(validate_cname("a/b"), Err(DeployError::InvalidCname));
    assert_eq!(validate_cname("host:80"), Err(DeployError::InvalidCname));
    assert_eq!(validate_cname("a\tb"), Err(DeployError::InvalidCname));
}

#[test]
fn deploy_doctor_reports_missing_scaffolds() {
    let none = doctor_issues("/site", &Vec::new(), &Vec::new());
    assert_eq!(
        none,
        vec!["no deployment scaffold found; run `typage deploy init <target>`".to_string()]
    );
    let targets = detect_targets(true, false, true, true);
    assert_eq!(
        targets,
        vec![DeployTarget::GithubPages, DeployTarget::Netlify, DeployTarget::Vercel]
    );
    let issues = doctor_issues("/site", &targets, &vec![false, true, false]);
    assert_eq!(
        issues,
        vec![
            "missing github-pages workflow: /site/.github/workflows/deploy.yml".to_string(),
            "missing vercel.json: /site/vercel.json".to_string(),
        ]
    );
    assert_eq!(
        doctor_failure(&issues).unwrap(),
        "deploy doctor found 2 issue(s)\n\nmissing github-pages workflow: /site/.github/workflows/deploy.yml\nmissing vercel.json: /site/vercel.json"
    );
    assert_eq!(doctor_failure(&Vec::new()), None);
    assert_eq!(target_file(DeployTarget::CloudflarePages), "wrangler.toml");
    assert_eq!(target_label(DeployTarget::CloudflarePages), "cloudflare-pages wrangler.toml");
    assert_eq!(DeployTarget::CloudflarePages.as_str(), "cloudflare-pages");
}
