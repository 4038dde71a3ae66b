use std::path::PathBuf;

use gls::cli::{
    apply, cleanup_rule, diff, extract_allowlist, github_annotation, github_annotations,
    is_allowed_shown, is_confirmed_shown, is_selected, review, run, scan, should_skip, ApplyArgs,
    ApplyFormat, ApplyOutput, CleanupRuleArgs, DiffArgs, DiffFormat, ExitStatus,
    ExtractAllowlistArgs, Job, Outcome, ReviewArgs, ReviewMode, ScanArgs, GLOBAL_ALLOWLIST_ID,
};
use gls::config::{Allowlist, RegexString, RegexTarget};
use gls::error::ConfigError;
use gls::filter::FilterResult;
use gls::gitleaks_config::{GitleaksAllowlist, GitleaksConfig, Rule};
use gls::report::{AllowedFinding, Finding, Report};

fn finding(rule_id: &str, secret: &str, fingerprint: &str) -> Finding {
    Finding {
        description: String::new(),
        start_line: 12,
        end_line: 13,
        start_column: 1,
        end_column: 9,
        line: format!("key = {secret}"),
        matched: format!("key = {secret}"),
        secret: secret.to_owned(),
        file: "conf/app.toml".to_owned(),
        symlink_file: String::new(),
        commit: "c0ffee".to_owned(),
        entropy_bits: 0,
        author: "author".to_owned(),
        email: "author@example.com".to_owned(),
        date: "2024-01-01".to_owned(),
        message: "message".to_owned(),
        tags: vec![],
        rule_id: rule_id.to_owned(),
        fingerprint: fingerprint.to_owned(),
    }
}

fn stopword_allowlist(id: &str, word: &str) -> Allowlist {
    Allowlist {
        id: id.to_owned(),
        target_rule_ids: vec![],
        description: None,
        regexes: None,
        regex_target: None,
        paths: None,
        commits: None,
        stopwords: Some(vec![word.to_owned()]),
    }
}

fn report(repo_name: &str, secrets: &[&str]) -> Report {
    Report {
        repo_name: repo_name.to_owned(),
        findings: secrets
            .iter()
            .enumerate()
            .map(|(i, secret)| finding("rule", secret, &format!("{repo_name}-{i}")))
            .collect(),
    }
}

fn apply_args(format: ApplyFormat, guide: Option<&str>, no_fail: bool) -> ApplyArgs {
    ApplyArgs {
        config_path: PathBuf::from("allowlist.toml"),
        report_path: PathBuf::from("repo.json"),
        root: None,
        format,
        output: None,
        guide: guide.map(str::to_owned),
        no_fail,
    }
}

fn review_args() -> ReviewArgs {
    ReviewArgs {
        config_path: PathBuf::from("allowlist.toml"),
        reports_dir_path: PathBuf::from("reports"),
        root: None,
        mode: ReviewMode::Summary,
        select_allowlists: vec![],
        skip_allowlists: vec![],
        select_rules: vec![],
        skip_rules: vec![],
        file_length: 120,
        secret_length: 30,
        line_length: 80,
        output: None,
    }
}

fn extract_args() -> ExtractAllowlistArgs {
    ExtractAllowlistArgs { source: PathBuf::from("gitleaks.toml"), output: None }
}

fn allowed_by(allow_rule_id: &str) -> AllowedFinding {
    AllowedFinding { allow_rule_id: allow_rule_id.to_owned(), finding: finding("rule", "s", "fp") }
}

fn gitleaks_allowlist(regex: &str) -> GitleaksAllowlist {
    GitleaksAllowlist {
        description: None,
        regex_target: Some("match".to_owned()),
        regexes: Some(vec![regex.to_owned()]),
        paths: None,
        commits: None,
        stopwords: None,
    }
}

fn rule(id: &str, allowlist: Option<GitleaksAllowlist>) -> Rule {
    Rule {
        id: id.to_owned(),
        description: None,
        entropy_bits: Some(3.5_f64.to_bits()),
        secret_group: None,
        regex: Some("secret".to_owned()),
        keywords: None,
        path: None,
        tags: None,
        allowlist,
    }
}

fn names(list: &[String]) -> Vec<&str> {
    list.iter().map(String::as_str).collect()
}

#[test]
fn test_apply_status() {
    let allowlists = vec![stopword_allowlist("dev", "dev")];

    let done = apply(&apply_args(ApplyFormat::Json, None, false), &allowlists, report("r", &["dev-1"]));
    assert_eq!(done.confirmed, 0);
    assert_eq!(done.status, ExitStatus::Success);

    let done = apply(
        &apply_args(ApplyFormat::Json, None, false),
        &allowlists,
        report("r", &["dev-1", "prod-2", "prod-3"]),
    );
    assert_eq!(done.confirmed, 2);
    assert_eq!(done.status, ExitStatus::Failure);
    match done.output {
        ApplyOutput::Json(confirmed) => {
            let secrets: Vec<&str> = confirmed.iter().map(|f| f.secret.as_str()).collect();
            assert_eq!(secrets, ["prod-2", "prod-3"]);
        }
        other => panic!("unexpected output: {other:?}"),
    }

    let done =
        apply(&apply_args(ApplyFormat::Json, None, true), &allowlists, report("r", &["prod-2"]));
    assert_eq!(done.confirmed, 1);
    assert_eq!(done.status, ExitStatus::Success);

    let done = apply(&apply_args(ApplyFormat::Sarif, None, true), &allowlists, report("r", &[]));
    assert_eq!(done.confirmed, 0);
    assert_eq!(done.status, ExitStatus::Success);
}

#[test]
fn test_apply_github() {
    let allowlists = vec![stopword_allowlist("dev", "dev")];
    let done = apply(
        &apply_args(ApplyFormat::Github, Some("See the guide."), false),
        &allowlists,
        report("r", &["prod-1", "dev-2", "prod-3"]),
    );
    match done.output {
        ApplyOutput::Github(lines) => assert_eq!(
            lines,
            [
                "::warning file=conf/app.toml,line=12,endLine=13,title=Secrets detected::`prod-1` is considered as secret value. See the guide.",
                "::warning file=conf/app.toml,line=12,endLine=13,title=Secrets detected::`prod-3` is considered as secret value. See the guide.",
            ]
        ),
        other => panic!("unexpected output: {other:?}"),
    }
}

#[test]
fn test_apply_sarif() {
    let done = apply(
        &apply_args(ApplyFormat::Sarif, None, false),
        &vec![],
        report("r", &["prod-1", "prod-2"]),
    );
    assert_eq!(done.status, ExitStatus::Failure);
    match done.output {
        ApplyOutput::Sarif(root) => {
            assert_eq!(root.runs.len(), 1);
            assert_eq!(root.runs[0].results.len(), 2);
            assert_eq!(root.runs[0].tool.driver.rules.len(), 1);
        }
        other => panic!("unexpected output: {other:?}"),
    }
}

#[test]
fn test_github_annotation() {
    let mut found = finding("rule", "hunter2", "fp");
    found.start_line = 0;
    found.end_line = 1000;
    assert_eq!(
        github_annotation(&found, ""),
        "::warning file=conf/app.toml,line=0,endLine=1000,title=Secrets detected::`hunter2` is considered as secret value."
    );
    let lines = github_annotations(&vec![found], &None);
    assert_eq!(
        lines,
        ["::warning file=conf/app.toml,line=0,endLine=1000,title=Secrets detected::`hunter2` is considered as secret value."]
    );
    assert!(github_annotations(&vec![], &Some("guide".to_owned())).is_empty());
}

#[test]
fn test_review() {
    let allowlists = vec![stopword_allowlist("dev", "dev"), stopword_allowlist("test", "test")];
    let results = review(
        &allowlists,
        vec![report("one", &["dev-1", "prod-2"]), report("two", &[]), report("three", &["test-1"])],
    );
    let names: Vec<&str> = results.iter().map(|r| r.repo_name.as_str()).collect();
    assert_eq!(names, ["one", "two", "three"]);
    assert_eq!(results[0].confirmed.len(), 1);
    assert_eq!(results[0].allowed.len(), 1);
    assert_eq!(results[0].allowed[0].allow_rule_id, "dev");
    assert!(results[1].is_empty());
    assert_eq!(results[2].allowed[0].allow_rule_id, "test");
    assert!(review(&allowlists, vec![]).is_empty());
}

#[test]
fn test_review_selection_of_allowlists() {
    let mut args = review_args();
    assert!(!is_selected(&args, &allowed_by("a")));
    assert!(!should_skip(&args, &allowed_by("a")));
    assert!(is_allowed_shown(&args, &allowed_by("a")));

    args.select_allowlists = vec!["a".to_owned(), "b".to_owned()];
    assert!(!is_selected(&args, &allowed_by("b")));
    assert!(is_selected(&args, &allowed_by("c")));
    assert!(is_allowed_shown(&args, &allowed_by("a")));
    assert!(!is_allowed_shown(&args, &allowed_by("c")));

    args.select_allowlists = vec![];
    args.skip_allowlists = vec!["a".to_owned()];
    assert!(should_skip(&args, &allowed_by("a")));
    assert!(!should_skip(&args, &allowed_by("b")));
    assert!(!is_allowed_shown(&args, &allowed_by("a")));
    assert!(is_allowed_shown(&args, &allowed_by("b")));
}

#[test]
fn test_review_selection_of_rules() {
    let mut args = review_args();
    assert!(is_confirmed_shown(&args, &finding("r1", "s", "fp")));

    args.select_rules = vec!["r1".to_owned()];
    assert!(is_confirmed_shown(&args, &finding("r1", "s", "fp")));
    assert!(!is_confirmed_shown(&args, &finding("r2", "s", "fp")));

    args.select_rules = vec![];
    args.skip_rules = vec!["r2".to_owned()];
    assert!(is_confirmed_shown(&args, &finding("r1", "s", "fp")));
    assert!(!is_confirmed_shown(&args, &finding("r2", "s", "fp")));

    args.select_rules = vec!["r2".to_owned()];
    assert!(!is_confirmed_shown(&args, &finding("r2", "s", "fp")));
}

#[test]
fn test_diff_command() {
    let before = FilterResult {
        repo_name: "repo".to_owned(),
        confirmed: vec![finding("rule", "s", "a")],
        allowed: vec![],
    };
    let after = FilterResult {
        repo_name: "repo".to_owned(),
        confirmed: vec![finding("rule", "s", "b")],
        allowed: vec![],
    };
    let diffs = diff(vec![before], vec![after]);
    assert_eq!(diffs.len(), 1);
    let keys: Vec<&str> = diffs[0].confirmed.iter().map(|f| f.fingerprint.as_str()).collect();
    assert_eq!(keys, ["a", "b"]);
}

#[test]
fn test_cleanup_rule() {
    let ids = vec!["keep-1".to_owned(), "drop".to_owned(), "keep-2".to_owned(), "drop".to_owned()];
    let mut args = CleanupRuleArgs {
        source: PathBuf::from("config.toml"),
        output: None,
        rules: vec!["drop".to_owned(), "not-there".to_owned()],
    };
    let done = cleanup_rule(&args, &ids);
    assert_eq!(done.status, ExitStatus::Success);
    assert_eq!(done.keep, [true, false, true, false]);

    args.rules = vec![];
    let done = cleanup_rule(&args, &ids);
    assert_eq!(done.status, ExitStatus::Failure);
    assert_eq!(done.keep, [true, true, true, true]);
}

#[test]
fn test_scan_plan() {
    let args = ScanArgs {
        gitleaks_path: PathBuf::from("gitleaks"),
        repos_path: PathBuf::from("repos"),
        skip_repos: vec!["b".to_owned(), "d".to_owned(), "x".to_owned()],
        config: PathBuf::from("gitleaks.toml"),
        output: PathBuf::from("out"),
        threads: Some(2),
    };
    let directories = ["a", "b", "c", "d", "e"].iter().map(|d| (*d).to_owned()).collect();
    let plan = scan(&args, directories);
    assert_eq!(names(&plan.targets), ["a", "c", "e"]);
    assert_eq!(names(&plan.non_targets), ["b", "d"]);

    let plan = scan(&args, vec![]);
    assert!(plan.targets.is_empty());
    assert!(plan.non_targets.is_empty());
}

#[test]
fn test_extract_allowlist() {
    let config = GitleaksConfig {
        title: Some("title".to_owned()),
        description: None,
        extend: None,
        rules: Some(vec![
            rule("first", Some(gitleaks_allowlist("^a"))),
            rule("second", None),
            rule("third", Some(gitleaks_allowlist("^c"))),
        ]),
        allowlist: Some(gitleaks_allowlist("^global")),
    };
    let root = extract_allowlist(config).unwrap();
    let allowlists = root.extensions.allowlists;
    let ids: Vec<&str> = allowlists.iter().map(|a| a.id.as_str()).collect();
    assert_eq!(ids, ["gitleaks-global-allowlist", "gitleaks-first", "gitleaks-third"]);
    assert_eq!(ids[0], GLOBAL_ALLOWLIST_ID);
    assert!(allowlists[0].target_rule_ids.is_empty());
    assert_eq!(allowlists[1].target_rule_ids, ["first"]);
    assert_eq!(allowlists[2].target_rule_ids, ["third"]);
    assert_eq!(allowlists[2].regex_target, Some(RegexTarget::Match));
    let patterns: Vec<&str> =
        allowlists[2].regexes.as_ref().unwrap().iter().map(RegexString::as_str).collect();
    assert_eq!(patterns, ["^c"]);

    let none = GitleaksConfig {
        title: None,
        description: None,
        extend: None,
        rules: None,
        allowlist: None,
    };
    assert!(extract_allowlist(none).unwrap().extensions.allowlists.is_empty());
}

#[test]
fn test_extract_allowlist_reports_the_first_fault() {
    let config = GitleaksConfig {
        title: None,
        description: None,
        extend: None,
        rules: Some(vec![
            rule("first", Some(gitleaks_allowlist("fine"))),
            rule("second", Some(gitleaks_allowlist("("))),
            rule("third", Some(gitleaks_allowlist("["))),
        ]),
        allowlist: Some(gitleaks_allowlist("fine")),
    };
    match extract_allowlist(config) {
        Err(ConfigError::InvalidRegex { pattern, .. }) => assert_eq!(pattern, "("),
        other => panic!("unexpected outcome: {other:?}"),
    }

    let mut global = gitleaks_allowlist("fine");
    global.regex_target = Some("nothing".to_owned());
    let config = GitleaksConfig {
        title: None,
        description: None,
        extend: None,
        rules: Some(vec![rule("first", Some(gitleaks_allowlist("(")))]),
        allowlist: Some(global),
    };
    match extract_allowlist(config) {
        Err(ConfigError::InvalidRegexTarget { value }) => assert_eq!(value, "nothing"),
        other => panic!("unexpected outcome: {other:?}"),
    }
}

#[test]
fn test_run() {
    let job = Job::Apply {
        args: apply_args(ApplyFormat::Json, None, false),
        allowlists: vec![stopword_allowlist("dev", "dev")],
        report: report("r", &["prod"]),
    };
    let outcome = run(job).unwrap();
    assert_eq!(outcome.status(), ExitStatus::Failure);
    assert!(matches!(outcome, Outcome::Applied(_)));

    let job = Job::CleanupRule {
        args: CleanupRuleArgs { source: PathBuf::from("c.toml"), output: None, rules: vec![] },
        rule_ids: vec!["a".to_owned()],
    };
    let outcome = run(job).unwrap();
    assert_eq!(outcome.status(), ExitStatus::Failure);
    assert!(matches!(outcome, Outcome::RulesCleaned(_)));

    let job = Job::Diff {
        args: DiffArgs {
            before: PathBuf::from("before.json"),
            after: PathBuf::from("after.json"),
            root: None,
            output: None,
            format: DiffFormat::Markdown,
            file_length: 120,
            secret_length: 30,
            line_length: 80,
        },
        befores: vec![],
        afters: vec![],
    };
    match run(job).unwrap() {
        Outcome::Diffed(diffs) => assert!(diffs.is_empty()),
        other => panic!("unexpected outcome: {other:?}"),
    }

    let job = Job::Review {
        args: review_args(),
        allowlists: vec![],
        reports: vec![report("r", &["a", "b"])],
    };
    match run(job).unwrap() {
        Outcome::Reviewed(results) => {
            assert_eq!(results.len(), 1);
            assert_eq!(results[0].confirmed.len(), 2);
        }
        other => panic!("unexpected outcome: {other:?}"),
    }

    let job = Job::Scan {
        args: ScanArgs {
            gitleaks_path: PathBuf::from("gitleaks"),
            repos_path: PathBuf::from("repos"),
            skip_repos: vec!["skip".to_owned()],
            config: PathBuf::from("gitleaks.toml"),
            output: PathBuf::from("out"),
            threads: None,
        },
        directories: vec!["scan".to_owned(), "skip".to_owned()],
    };
    match run(job).unwrap() {
        Outcome::Planned(plan) => {
            assert_eq!(names(&plan.targets), ["scan"]);
            assert_eq!(names(&plan.non_targets), ["skip"]);
        }
        other => panic!("unexpected outcome: {other:?}"),
    }

    let config = GitleaksConfig {
        title: None,
        description: None,
        extend: None,
        rules: Some(vec![rule("r", Some(gitleaks_allowlist("(")))]),
        allowlist: None,
    };
    assert!(matches!(
        run(Job::ExtractAllowlist { args: extract_args(), config }),
        Err(ConfigError::InvalidRegex { .. })
    ));
    let config = GitleaksConfig {
        title: None,
        description: None,
        extend: None,
        rules: Some(vec![rule("r", Some(gitleaks_allowlist("a+")))]),
        allowlist: None,
    };
    let outcome = run(Job::ExtractAllowlist { args: extract_args(), config }).unwrap();
    assert_eq!(outcome.status(), ExitStatus::Success);
    match outcome {
        Outcome::Extracted(root) => assert_eq!(root.extensions.allowlists[0].id, "gitleaks-r"),
        other => panic!("unexpected outcome: {other:?}"),
    }
}
