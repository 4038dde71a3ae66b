use gls::config::{
    collect_regex_string, from_regex_strings, validate_duplication, Allowlist, ConfigRoot,
    RegexString, RegexTarget,
};
use gls::error::ConfigError;
use gls::gitleaks_config::GitleaksAllowlist;

fn build_empty_allowlist() -> Allowlist {
    Allowlist {
        id: "test-alowlist".to_owned(),
        description: None,
        regexes: None,
        regex_target: None,
        paths: None,
        commits: None,
        stopwords: None,
        target_rule_ids: vec!["test-rule".to_owned()],
    }
}

fn named(id: &str) -> Allowlist {
    let mut allowlist = build_empty_allowlist();
    id.clone_into(&mut allowlist.id);
    allowlist
}

fn gitleaks_allowlist() -> GitleaksAllowlist {
    GitleaksAllowlist {
        description: Some("from the scanner".to_owned()),
        regex_target: Some("line".to_owned()),
        regexes: Some(vec!["^a+$".to_owned(), "b|c".to_owned()]),
        paths: Some(vec!["^vendor/".to_owned()]),
        commits: Some(vec!["c0ffee".to_owned()]),
        stopwords: Some(vec!["example".to_owned()]),
    }
}

#[test]
fn test_validate_duplication_fail() {
    let allowlists = vec![build_empty_allowlist(), build_empty_allowlist()];
    assert!(validate_duplication(&allowlists).is_err());
}

#[test]
fn test_validate_duplication_ok() {
    let mut allowlist = build_empty_allowlist();
    "another-allowlist".clone_into(&mut allowlist.id);
    let allowlists = vec![allowlist, build_empty_allowlist()];
    assert!(validate_duplication(&allowlists).is_ok());
}

#[test]
fn test_validate_duplication_names_the_first_repeat() {
    let allowlists = vec![named("a"), named("b"), named("c"), named("b"), named("a")];
    match validate_duplication(&allowlists) {
        Err(ConfigError::DuplicatedAllowlistId { id }) => assert_eq!(id, "b"),
        other => panic!("unexpected outcome: {other:?}"),
    }
    let error = validate_duplication(&allowlists).unwrap_err();
    assert_eq!(error.message(), "Duplicated allowlist id: b");

    let none: Vec<Allowlist> = vec![];
    assert!(validate_duplication(&none).is_ok());
    assert!(validate_duplication(&[named("only")]).is_ok());
}

#[test]
fn test_regex_target_from_str() {
    assert_eq!(RegexTarget::from_str("secret").unwrap(), RegexTarget::Secret);
    assert_eq!(RegexTarget::from_str("match").unwrap(), RegexTarget::Match);
    assert_eq!(RegexTarget::from_str("line").unwrap(), RegexTarget::Line);
    assert_eq!(RegexTarget::default(), RegexTarget::Secret);
    for word in ["", "Secret", "lines", "secret "] {
        match RegexTarget::from_str(word) {
            Err(ConfigError::InvalidRegexTarget { value }) => assert_eq!(value, word),
            other => panic!("unexpected outcome: {other:?}"),
        }
    }
    let error = RegexTarget::from_str("entropy").unwrap_err();
    assert_eq!(error.message(), "Invalid regex target: entropy");

    assert_eq!("match".parse::<RegexTarget>().unwrap(), RegexTarget::Match);
    assert!("matches".parse::<RegexTarget>().is_err());
}

#[test]
fn test_regex_string_new() {
    let regex = RegexString::new(r"^ab+c$").unwrap();
    assert_eq!(regex.as_str(), r"^ab+c$");
    assert!(regex.is_match("abbbc"));
    assert!(!regex.is_match("ac"));
    assert!(!regex.is_match("^ab+c$"));
    let copy = regex.clone();
    assert_eq!(copy.as_str(), r"^ab+c$");

    match RegexString::new("foo(bar") {
        Err(ConfigError::InvalidRegex { pattern, reason }) => {
            assert_eq!(pattern, "foo(bar");
            assert!(!reason.is_empty());
        }
        other => panic!("unexpected outcome: {other:?}"),
    }
}

#[test]
fn test_collect_regex_string() {
    let acc = collect_regex_string(Vec::new(), "a".to_owned()).unwrap();
    let acc = collect_regex_string(acc, "b+".to_owned()).unwrap();
    let patterns: Vec<&str> = acc.iter().map(RegexString::as_str).collect();
    assert_eq!(patterns, ["a", "b+"]);
    match collect_regex_string(acc, "[".to_owned()) {
        Err(ConfigError::InvalidRegex { pattern, .. }) => assert_eq!(pattern, "["),
        other => panic!("unexpected outcome: {other:?}"),
    }
}

#[test]
fn test_from_regex_strings() {
    assert!(from_regex_strings(None).unwrap().is_none());
    assert_eq!(from_regex_strings(Some(vec![])).unwrap().map(|made| made.len()), Some(0));

    let made = from_regex_strings(Some(vec!["^x".to_owned(), "y$".to_owned()])).unwrap().unwrap();
    let patterns: Vec<&str> = made.iter().map(RegexString::as_str).collect();
    assert_eq!(patterns, ["^x", "y$"]);

    let given = vec!["ok".to_owned(), "(".to_owned(), "fine".to_owned(), "[".to_owned()];
    match from_regex_strings(Some(given)) {
        Err(ConfigError::InvalidRegex { pattern, .. }) => assert_eq!(pattern, "("),
        other => panic!("unexpected outcome: {other:?}"),
    }
}

#[test]
fn test_from_gitleaks() {
    let made = Allowlist::from_gitleaks(
        gitleaks_allowlist(),
        "gitleaks-rule".to_owned(),
        vec!["rule".to_owned()],
    )
    .unwrap();
    assert_eq!(made.id, "gitleaks-rule");
    assert_eq!(made.target_rule_ids, ["rule"]);
    assert_eq!(made.description.as_deref(), Some("from the scanner"));
    assert_eq!(made.regex_target, Some(RegexTarget::Line));
    let regexes: Vec<&str> = made.regexes.as_ref().unwrap().iter().map(RegexString::as_str).collect();
    assert_eq!(regexes, ["^a+$", "b|c"]);
    let paths: Vec<&str> = made.paths.as_ref().unwrap().iter().map(RegexString::as_str).collect();
    assert_eq!(paths, ["^vendor/"]);
    assert_eq!(made.commits.unwrap(), ["c0ffee"]);
    assert_eq!(made.stopwords.unwrap(), ["example"]);

    let mut bare = gitleaks_allowlist();
    bare.regex_target = None;
    bare.regexes = None;
    bare.paths = None;
    let made = Allowlist::from_gitleaks(bare, "global".to_owned(), vec![]).unwrap();
    assert_eq!(made.regex_target, None);
    assert!(made.regexes.is_none());
    assert!(made.paths.is_none());
    assert!(made.target_rule_ids.is_empty());
}

#[test]
fn test_from_gitleaks_reports_the_first_fault() {
    let mut other = gitleaks_allowlist();
    other.regex_target = Some("everything".to_owned());
    other.regexes = Some(vec!["(".to_owned()]);
    other.paths = Some(vec!["[".to_owned()]);
    match Allowlist::from_gitleaks(other, "id".to_owned(), vec![]) {
        Err(ConfigError::InvalidRegexTarget { value }) => assert_eq!(value, "everything"),
        other => panic!("unexpected outcome: {other:?}"),
    }

    let mut other = gitleaks_allowlist();
    other.regexes = Some(vec!["fine".to_owned(), "(".to_owned()]);
    other.paths = Some(vec!["[".to_owned()]);
    match Allowlist::from_gitleaks(other, "id".to_owned(), vec![]) {
        Err(ConfigError::InvalidRegex { pattern, .. }) => assert_eq!(pattern, "("),
        other => panic!("unexpected outcome: {other:?}"),
    }

    let mut other = gitleaks_allowlist();
    other.paths = Some(vec!["fine".to_owned(), "[".to_owned()]);
    match Allowlist::from_gitleaks(other, "id".to_owned(), vec![]) {
        Err(ConfigError::InvalidRegex { pattern, .. }) => assert_eq!(pattern, "["),
        other => panic!("unexpected outcome: {other:?}"),
    }
}

#[test]
fn test_config_root_new() {
    let root = ConfigRoot::new(vec![named("a"), named("b")]);
    let ids: Vec<&str> = root.extensions.allowlists.iter().map(|a| a.id.as_str()).collect();
    assert_eq!(ids, ["a", "b"]);
}
