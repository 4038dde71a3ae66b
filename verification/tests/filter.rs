use std::collections::HashSet;
use std::hash::{DefaultHasher, Hash, Hasher};

use gls::config::{Allowlist, RegexString, RegexTarget};
use gls::error::ConfigError;
use gls::filter::{apply_allowlist, FilteredFinding, FindingFilter};
use gls::report::{AllowedFinding, Finding, Keyed, Report};

type TestResult = Result<(), ConfigError>;

fn build_empty_allowlist() -> Allowlist {
    Allowlist {
        id: "test-alowlist".to_owned(),
        description: None,
        regexes: None,
        regex_target: None,
        paths: None,
        commits: None,
        stopwords: None,
        target_rule_ids: vec!["test-rule".to_owned()],
    }
}

fn build_empty_finding() -> Finding {
    let secret = "test-secret".to_owned();
    let matched = format!("key = '{secret}'");
    let line = format!("test-line: {matched} # comment");
    Finding {
        description: String::new(),
        start_line: 1,
        end_line: 1,
        start_column: 1,
        end_column: 1,
        line,
        matched,
        secret,
        file: "test-file".to_owned(),
        symlink_file: "test-symlink-file".to_owned(),
        commit: "test-commit".to_owned(),
        entropy_bits: 0.0_f32.to_bits(),
        author: "test-author".to_owned(),
        email: "test-email".to_owned(),
        date: "test-date".to_owned(),
        message: "test-message".to_owned(),
        tags: vec![],
        fingerprint: "test-fingerprint".to_owned(),
        rule_id: "test-rule".to_owned(),
    }
}

fn make_allow_situation(allowlist: &mut Allowlist, finding: &mut Finding) -> TestResult {
    let path = "test-path".to_owned();
    let regex_string = RegexString::new(&path)?;
    allowlist.paths = Some(vec![regex_string]);
    finding.file = path;
    Ok(())
}

fn set_regex_expr_to_allowlist(allowlist: &mut Allowlist, expr: &str) -> TestResult {
    let regex_string = RegexString::new(expr)?;
    allowlist.regexes = Some(vec![regex_string]);
    Ok(())
}

fn assert_allow(allowlist: &Allowlist, finding: &Finding) -> TestResult {
    assert!(apply_allowlist(allowlist, finding));
    Ok(())
}

fn assert_not_allow(allowlist: &Allowlist, finding: &Finding) -> TestResult {
    assert!(!apply_allowlist(allowlist, finding));
    Ok(())
}

fn allowed_id(verdict: &FilteredFinding) -> Option<&str> {
    match verdict {
        FilteredFinding::Allowed(allowed) => Some(allowed.allow_rule_id.as_str()),
        FilteredFinding::Confirmed(_) => None,
    }
}

#[test]
fn test_target_rule_ids_not_match() -> TestResult {
    let mut allowlist = build_empty_allowlist();
    let mut finding = build_empty_finding();

    allowlist.target_rule_ids = vec!["another-rule".to_owned()];
    make_allow_situation(&mut allowlist, &mut finding)?;
    assert_not_allow(&allowlist, &finding)
}

#[test]
fn test_target_rule_ids_match() -> TestResult {
    // Default rule ids are same but explicitly set rule ids here.
    let rule_id = "test-rule".to_owned();
    let mut allowlist = build_empty_allowlist();
    let mut finding = build_empty_finding();

    allowlist.target_rule_ids = vec![rule_id.clone()];
    finding.rule_id = rule_id;
    make_allow_situation(&mut allowlist, &mut finding)?;
    assert_allow(&allowlist, &finding)
}

#[test]
fn test_target_rule_ids_empty() -> TestResult {
    let mut allowlist = build_empty_allowlist();
    let mut finding = build_empty_finding();

    allowlist.target_rule_ids = vec![];
    make_allow_situation(&mut allowlist, &mut finding)?;
    assert_allow(&allowlist, &finding)
}

#[test]
fn test_stopwords_match() -> TestResult {
    let mut allowlist = build_empty_allowlist();
    let mut finding = build_empty_finding();

    allowlist.stopwords = Some(vec!["dev".to_owned()]);
    "334-dev-kjdlsa93428".clone_into(&mut finding.secret);
    assert_allow(&allowlist, &finding)
}

#[test]
fn test_regexes_target_default_match() -> TestResult {
    let mut allowlist = build_empty_allowlist();
    let mut finding = build_empty_finding();

    set_regex_expr_to_allowlist(&mut allowlist, "^test-secret$")?;
    "test-secret".clone_into(&mut finding.secret);
    assert_allow(&allowlist, &finding)
}

#[test]
fn test_regexes_target_default_not_match() -> TestResult {
    let mut allowlist = build_empty_allowlist();
    let mut finding = build_empty_finding();

    set_regex_expr_to_allowlist(&mut allowlist, "^test$")?;
    "test-secret".clone_into(&mut finding.secret);
    assert_not_allow(&allowlist, &finding)
}

#[test]
fn test_regexes_target_match_match() -> TestResult {
    let mut allowlist = build_empty_allowlist();
    let mut finding = build_empty_finding();

    allowlist.regex_target = Some(RegexTarget::Match);
    set_regex_expr_to_allowlist(&mut allowlist, "^key = test-secret")?;
    "test-secret".clone_into(&mut finding.secret);
    "key = test-secret".clone_into(&mut finding.matched);
    assert_allow(&allowlist, &finding)
}

#[test]
fn test_regexes_target_match_not_match() -> TestResult {
    let mut allowlist = build_empty_allowlist();
    let mut finding = build_empty_finding();

    allowlist.regex_target = Some(RegexTarget::Match);
    set_regex_expr_to_allowlist(&mut allowlist, "^test-secret$")?;
    "test-secret".clone_into(&mut finding.secret);
    "key = test-secret".clone_into(&mut finding.matched);
    assert_not_allow(&allowlist, &finding)
}

#[test]
fn test_regexes_target_line_match() -> TestResult {
    let mut allowlist = build_empty_allowlist();
    let mut finding = build_empty_finding();

    allowlist.regex_target = Some(RegexTarget::Line);
    set_regex_expr_to_allowlist(&mut allowlist, "^book_key = test-secret")?;
    "test-secret".clone_into(&mut finding.secret);
    "key = test-secret".clone_into(&mut finding.matched);
    "book_key = test-secret # comment".clone_into(&mut finding.line);
    assert_allow(&allowlist, &finding)
}

#[test]
fn test_regexes_target_line_not_match() -> TestResult {
    let mut allowlist = build_empty_allowlist();
    let mut finding = build_empty_finding();

    allowlist.regex_target = Some(RegexTarget::Line);
    set_regex_expr_to_allowlist(&mut allowlist, "^key = test-secret")?;
    "test-secret".clone_into(&mut finding.secret);
    "key = test-secret".clone_into(&mut finding.matched);
    "book_key = test-secret # comment".clone_into(&mut finding.line);
    assert_not_allow(&allowlist, &finding)
}

#[test]
fn test_regexes_target_secret_ignores_match_and_line() -> TestResult {
    let mut allowlist = build_empty_allowlist();
    let mut finding = build_empty_finding();

    allowlist.regex_target = Some(RegexTarget::Secret);
    set_regex_expr_to_allowlist(&mut allowlist, "^key")?;
    "test-secret".clone_into(&mut finding.secret);
    "key = test-secret".clone_into(&mut finding.matched);
    "key = test-secret # comment".clone_into(&mut finding.line);
    assert_not_allow(&allowlist, &finding)
}

#[test]
fn test_no_criteria_does_not_allow() -> TestResult {
    let mut allowlist = build_empty_allowlist();
    let finding = build_empty_finding();
    assert_not_allow(&allowlist, &finding)?;

    allowlist.target_rule_ids = vec![];
    allowlist.paths = Some(vec![]);
    allowlist.commits = Some(vec![]);
    allowlist.stopwords = Some(vec![]);
    allowlist.regexes = Some(vec![]);
    assert_not_allow(&allowlist, &finding)
}

#[test]
fn test_scope_gate_blocks_every_criterion() -> TestResult {
    let mut allowlist = build_empty_allowlist();
    let mut finding = build_empty_finding();

    make_allow_situation(&mut allowlist, &mut finding)?;
    set_regex_expr_to_allowlist(&mut allowlist, "secret")?;
    allowlist.stopwords = Some(vec!["secret".to_owned()]);
    allowlist.commits = Some(vec!["test-rule".to_owned()]);
    assert_allow(&allowlist, &finding)?;

    allowlist.target_rule_ids = vec!["another-rule".to_owned(), "third-rule".to_owned()];
    assert_not_allow(&allowlist, &finding)
}

#[test]
fn test_path_scenario() -> TestResult {
    let mut allowlist = build_empty_allowlist();
    "path-rule".clone_into(&mut allowlist.id);
    allowlist.target_rule_ids = vec!["aws-key".to_owned()];
    allowlist.paths = Some(vec![RegexString::new("^config/")?]);
    let allowlists = vec![allowlist];
    let filter = FindingFilter::new(&allowlists);

    let mut finding = build_empty_finding();
    "aws-key".clone_into(&mut finding.rule_id);
    "config/prod.yaml".clone_into(&mut finding.file);
    assert_eq!(allowed_id(&filter.apply(finding)), Some("path-rule"));

    let mut finding = build_empty_finding();
    "other-rule".clone_into(&mut finding.rule_id);
    "config/prod.yaml".clone_into(&mut finding.file);
    assert!(matches!(filter.apply(finding), FilteredFinding::Confirmed(_)));

    let mut finding = build_empty_finding();
    "aws-key".clone_into(&mut finding.rule_id);
    "src/config/prod.yaml".clone_into(&mut finding.file);
    assert!(matches!(filter.apply(finding), FilteredFinding::Confirmed(_)));
    Ok(())
}

#[test]
fn test_stopword_scenario() {
    let mut allowlist = build_empty_allowlist();
    "dev-stopword".clone_into(&mut allowlist.id);
    allowlist.target_rule_ids = vec![];
    allowlist.stopwords = Some(vec!["dev".to_owned()]);
    let allowlists = vec![allowlist];
    let filter = FindingFilter::new(&allowlists);

    let mut finding = build_empty_finding();
    "334-dev-kjdlsa93428".clone_into(&mut finding.secret);
    match filter.apply(finding) {
        FilteredFinding::Allowed(allowed) => {
            assert_eq!(allowed.allow_rule_id, "dev-stopword");
            assert_eq!(allowed.finding.secret, "334-dev-kjdlsa93428");
        }
        FilteredFinding::Confirmed(_) => panic!("the stopword occurs in the secret"),
    }
}

#[test]
fn test_stopword_edges() -> TestResult {
    let mut allowlist = build_empty_allowlist();
    let mut finding = build_empty_finding();
    "abc".clone_into(&mut finding.secret);

    allowlist.stopwords = Some(vec!["abcd".to_owned()]);
    assert_not_allow(&allowlist, &finding)?;
    allowlist.stopwords = Some(vec!["abd".to_owned(), "bc".to_owned()]);
    assert_allow(&allowlist, &finding)?;
    allowlist.stopwords = Some(vec!["abc".to_owned()]);
    assert_allow(&allowlist, &finding)?;
    allowlist.stopwords = Some(vec!["ca".to_owned()]);
    assert_not_allow(&allowlist, &finding)?;
    allowlist.stopwords = Some(vec![String::new()]);
    assert_allow(&allowlist, &finding)?;

    "caf\u{e9}-\u{1f511}-key".clone_into(&mut finding.secret);
    allowlist.stopwords = Some(vec!["\u{e9}-\u{1f511}".to_owned()]);
    assert_allow(&allowlist, &finding)?;
    allowlist.stopwords = Some(vec!["e-".to_owned()]);
    assert_not_allow(&allowlist, &finding)
}

#[test]
fn test_commits_are_held_against_the_rule_id() -> TestResult {
    let mut allowlist = build_empty_allowlist();
    let mut finding = build_empty_finding();
    "deadbeef".clone_into(&mut finding.commit);

    allowlist.commits = Some(vec!["deadbeef".to_owned()]);
    assert_not_allow(&allowlist, &finding)?;
    allowlist.commits = Some(vec!["deadbeef".to_owned(), "test-rule".to_owned()]);
    assert_allow(&allowlist, &finding)
}

#[test]
fn test_first_match_wins() -> TestResult {
    let mut first = build_empty_allowlist();
    "first".clone_into(&mut first.id);
    first.stopwords = Some(vec!["secret".to_owned()]);
    let mut second = build_empty_allowlist();
    "second".clone_into(&mut second.id);
    second.regexes = Some(vec![RegexString::new("^test-")?]);
    let mut third = build_empty_allowlist();
    "third".clone_into(&mut third.id);
    third.stopwords = Some(vec!["other".to_owned()]);

    let allowlists = vec![third, first, second];
    let filter = FindingFilter::new(&allowlists);
    assert_eq!(filter.allowlists_size(), 3);
    assert_eq!(allowed_id(&filter.apply(build_empty_finding())), Some("first"));

    let allowlists: Vec<Allowlist> = allowlists.into_iter().rev().collect();
    let filter = FindingFilter::new(&allowlists);
    assert_eq!(allowed_id(&filter.apply(build_empty_finding())), Some("second"));

    let none: Vec<Allowlist> = vec![];
    let filter = FindingFilter::new(&none);
    assert_eq!(filter.allowlists_size(), 0);
    assert!(matches!(filter.apply(build_empty_finding()), FilteredFinding::Confirmed(_)));
    Ok(())
}

#[test]
fn test_apply_report_partitions_in_order() {
    let mut allowlist = build_empty_allowlist();
    allowlist.stopwords = Some(vec!["dev".to_owned()]);
    let allowlists = vec![allowlist];
    let filter = FindingFilter::new(&allowlists);

    let secrets = ["prod-1", "dev-2", "prod-3", "dev-4", "dev-5"];
    let findings = secrets
        .iter()
        .enumerate()
        .map(|(i, secret)| {
            let mut finding = build_empty_finding();
            finding.secret = (*secret).to_owned();
            finding.fingerprint = format!("fp-{i}");
            finding
        })
        .collect();
    let result = filter.apply_report(Report { repo_name: "repo".to_owned(), findings });

    assert_eq!(result.repo_name, "repo");
    assert!(!result.is_empty());
    let confirmed: Vec<&str> = result.confirmed.iter().map(|f| f.fingerprint.as_str()).collect();
    assert_eq!(confirmed, ["fp-0", "fp-2"]);
    let allowed: Vec<(&str, &str)> = result
        .allowed
        .iter()
        .map(|a| (a.allow_rule_id.as_str(), a.finding.fingerprint.as_str()))
        .collect();
    assert_eq!(
        allowed,
        [("test-alowlist", "fp-1"), ("test-alowlist", "fp-3"), ("test-alowlist", "fp-4")]
    );

    let empty = filter.apply_report(Report { repo_name: "none".to_owned(), findings: vec![] });
    assert!(empty.is_empty());
}

#[test]
fn test_findings_are_equal_by_fingerprint() {
    let left = build_empty_finding();
    let mut right = build_empty_finding();
    "another-secret".clone_into(&mut right.secret);
    "another-file".clone_into(&mut right.file);
    right.start_line = 7;
    assert!(left == right);

    "another-fingerprint".clone_into(&mut right.fingerprint);
    right.secret.clone_from(&left.secret);
    right.file.clone_from(&left.file);
    right.start_line = left.start_line;
    assert!(left != right);
}

fn hash_of<T: Hash>(value: &T) -> u64 {
    let mut hasher = DefaultHasher::new();
    value.hash(&mut hasher);
    hasher.finish()
}

#[test]
fn test_findings_hash_by_fingerprint() {
    let left = build_empty_finding();
    let mut right = build_empty_finding();
    "another-secret".clone_into(&mut right.secret);
    right.tags = vec!["tag".to_owned()];
    assert_eq!(hash_of(&left), hash_of(&right));
    assert!(left.same_key(&right));

    let mut other = build_empty_finding();
    "another-fingerprint".clone_into(&mut other.fingerprint);
    assert!(!left.same_key(&other));
    let set: HashSet<Finding> = [left, right, other].into_iter().collect();
    assert_eq!(set.len(), 2);
}

#[test]
fn test_allowed_findings_are_equal_by_allowlist_and_fingerprint() {
    let allowed = |id: &str, fingerprint: &str, secret: &str| {
        let mut finding = build_empty_finding();
        fingerprint.clone_into(&mut finding.fingerprint);
        secret.clone_into(&mut finding.secret);
        AllowedFinding { allow_rule_id: id.to_owned(), finding }
    };
    let one = allowed("a", "fp", "one");
    assert!(one == allowed("a", "fp", "two"));
    assert!(one.same_key(&allowed("a", "fp", "two")));
    assert_eq!(hash_of(&one), hash_of(&allowed("a", "fp", "two")));
    assert!(one != allowed("b", "fp", "one"));
    assert!(!one.same_key(&allowed("b", "fp", "one")));
    assert!(one != allowed("a", "other", "one"));
    assert!(!one.same_key(&allowed("a", "other", "one")));
}

#[test]
fn test_apply_report_covers_the_report() {
    let mut by_stopword = build_empty_allowlist();
    by_stopword.stopwords = Some(vec!["dev".to_owned()]);
    let mut by_path = build_empty_allowlist();
    "by-path".clone_into(&mut by_path.id);
    by_path.paths = Some(vec![RegexString::new("^docs/").unwrap()]);
    let allowlists = vec![by_stopword, by_path];
    let filter = FindingFilter::new(&allowlists);

    let findings: Vec<Finding> = (0..40)
        .map(|i| {
            let mut finding = build_empty_finding();
            finding.fingerprint = format!("fp-{i}");
            finding.secret = if i % 3 == 0 { format!("dev-{i}") } else { format!("prod-{i}") };
            finding.file = if i % 5 == 0 { format!("docs/{i}.md") } else { format!("src/{i}.rs") };
            finding
        })
        .collect();
    let given: HashSet<String> = findings.iter().map(|f| f.fingerprint.clone()).collect();
    let result = filter.apply_report(Report { repo_name: "repo".to_owned(), findings });

    let confirmed: HashSet<String> =
        result.confirmed.iter().map(|f| f.fingerprint.clone()).collect();
    let allowed: HashSet<String> =
        result.allowed.iter().map(|a| a.finding.fingerprint.clone()).collect();
    assert_eq!(result.confirmed.len() + result.allowed.len(), 40);
    assert!(confirmed.is_disjoint(&allowed));
    assert_eq!(confirmed.union(&allowed).cloned().collect::<HashSet<_>>(), given);
    assert_eq!(result.allowed.iter().filter(|a| a.allow_rule_id == "by-path").count(), 5);
    assert_eq!(result.allowed.iter().filter(|a| a.allow_rule_id == "test-alowlist").count(), 14);
}
