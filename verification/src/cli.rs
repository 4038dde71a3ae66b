//! The commands of the tool, as far as they decide anything: what a command
//! makes of what was read for it, and how it ends. Reading, writing and the
//! layout of tables are left to the program around this crate.

use std::path::PathBuf;
use vstd::prelude::*;
use vstd::string::StringExecFns;

use crate::config::{carries, convertible, is_fault_of, Allowlist, ConfigRoot};
use crate::diff::{changes, compute_diff, diff_of, targets, DiffResult};
use crate::error::ConfigError;
use crate::filter::{allowed_of, confirmed_of, FilterResult, FindingFilter};
use crate::gitleaks_config::{GitleaksAllowlist, GitleaksConfig, Rule};
use crate::report::{AllowedFinding, Finding, Report};
use crate::sarif::{is_log_of, to_sarif, Root};
use crate::text::{decimal, decimal_text, holds_text, texts};

verus! {

/// A path of the file system. Nothing in this crate looks into one: paths
/// are carried from the command line to whoever opens the files.
#[verifier::external_type_specification]
#[verifier::external_body]
pub struct ExPathBuf(PathBuf);

/// How a command ends when nothing went wrong on the way.
#[derive(Debug, Clone, Copy, PartialEq, Eq, Structural)]
pub enum ExitStatus {
    Success,
    /// The command did its work and the answer is a bad one: there are
    /// confirmed findings, or there was nothing to do.
    Failure,
}

/// The output formats of `apply`.
#[derive(Debug, Clone, Copy, PartialEq, Eq, Structural)]
pub enum ApplyFormat {
    Json,
    Github,
    Sarif,
}

/// The arguments of `apply`.
#[derive(Debug)]
pub struct ApplyArgs {
    pub config_path: PathBuf,
    pub report_path: PathBuf,
    pub root: Option<PathBuf>,
    pub format: ApplyFormat,
    pub output: Option<PathBuf>,
    /// A message that is added to what the GitHub format says of a finding.
    pub guide: Option<String>,
    /// Do not fail on confirmed findings.
    pub no_fail: bool,
}

/// What `apply` writes.
#[derive(Debug)]
pub enum ApplyOutput {
    /// The confirmed findings themselves.
    Json(Vec<Finding>),
    /// One workflow command for each confirmed finding.
    Github(Vec<String>),
    /// The confirmed findings as a SARIF log.
    Sarif(Root),
}

/// What `apply` comes to.
#[derive(Debug)]
pub struct Applied {
    pub output: ApplyOutput,
    /// The number of confirmed findings.
    pub confirmed: usize,
    pub status: ExitStatus,
}

/// `apply` fails on confirmed findings, unless it was told not to.
pub open spec fn apply_status(confirmed: nat, no_fail: bool) -> ExitStatus {
    if confirmed == 0 || no_fail {
        ExitStatus::Success
    } else {
        ExitStatus::Failure
    }
}

/// The guide as it is added to a workflow command: after a blank, or not at
/// all.
pub open spec fn github_guide(guide: Option<String>) -> Seq<char> {
    match guide {
        Some(guide) => " "@ + guide@,
        None => Seq::empty(),
    }
}

/// The workflow command that warns of a finding.
pub open spec fn annotation_text(finding: Finding, guide: Seq<char>) -> Seq<char> {
    "::warning file="@ + finding.file@ + ",line="@ + decimal_text(finding.start_line as nat)
        + ",endLine="@ + decimal_text(finding.end_line as nat) + ",title=Secrets detected::`"@
        + finding.secret@ + "` is considered as secret value."@ + guide
}

/// The workflow commands that warn of a list of findings, in order.
pub open spec fn annotation_texts(findings: Seq<Finding>, guide: Seq<char>) -> Seq<Seq<char>> {
    findings.map_values(|finding: Finding| annotation_text(finding, guide))
}

/// Writes the workflow command that warns of a finding.
pub fn github_annotation(finding: &Finding, guide: &str) -> (text: String)
    ensures
        text@ == annotation_text(*finding, guide@),
{
    let mut text = String::from_str("::warning file=");
    text.append(finding.file.as_str());
    text.append(",line=");
    text.append(decimal(finding.start_line).as_str());
    text.append(",endLine=");
    text.append(decimal(finding.end_line).as_str());
    text.append(",title=Secrets detected::`");
    text.append(finding.secret.as_str());
    text.append("` is considered as secret value.");
    text.append(guide);
    text
}

/// Writes the workflow commands that warn of a list of findings.
pub fn github_annotations(findings: &Vec<Finding>, guide: &Option<String>) -> (lines: Vec<String>)
    ensures
        lines@.map_values(|line: String| line@) == annotation_texts(
            findings@,
            github_guide(*guide),
        ),
{
    let suffix = match guide {
        Some(guide) => String::from_str(" ").concat(guide.as_str()),
        None => String::new(),
    };
    let mut lines: Vec<String> = Vec::new();
    let mut at: usize = 0;
    while at < findings.len()
        invariant
            at <= findings.len(),
            suffix@ == github_guide(*guide),
            lines@.map_values(|line: String| line@) == annotation_texts(
                findings@.take(at as int),
                suffix@,
            ),
        decreases findings.len() - at,
    {
        let ghost before = lines@.map_values(|line: String| line@);
        let line = github_annotation(&findings[at], suffix.as_str());
        lines.push(line);
        assert(lines@.map_values(|line: String| line@) =~= before.push(
            annotation_text(findings@[at as int], suffix@),
        ));
        assert(annotation_texts(findings@.take(at + 1), suffix@) =~= annotation_texts(
            findings@.take(at as int),
            suffix@,
        ).push(annotation_text(findings@[at as int], suffix@)));
        at += 1;
    }
    assert(findings@.take(findings@.len() as int) =~= findings@);
    lines
}

/// Whether `output` is what `apply` writes of the confirmed findings in the
/// given format.
pub open spec fn is_output_of(
    output: ApplyOutput,
    format: ApplyFormat,
    confirmed: Seq<Finding>,
    guide: Option<String>,
) -> bool {
    match format {
        ApplyFormat::Json => output matches ApplyOutput::Json(findings) && findings@ == confirmed,
        ApplyFormat::Github => output matches ApplyOutput::Github(lines) && lines@.map_values(
            |line: String| line@,
        ) == annotation_texts(confirmed, github_guide(guide)),
        ApplyFormat::Sarif => output matches ApplyOutput::Sarif(root) && is_log_of(
            root,
            confirmed,
        ),
    }
}

/// Whether `done` is what `apply` comes to on a report: the confirmed
/// findings of the report in the format asked for, their number, and
/// failure where there are any, unless failing was switched off.
pub open spec fn is_applied(
    done: Applied,
    args: ApplyArgs,
    allowlists: Seq<Allowlist>,
    report: Report,
) -> bool {
    &&& done.confirmed == confirmed_of(allowlists, report.findings@).len()
    &&& done.status == apply_status(done.confirmed as nat, args.no_fail)
    &&& is_output_of(
        done.output,
        args.format,
        confirmed_of(allowlists, report.findings@),
        args.guide,
    )
}

/// Filters a report and says what to write and how to end.
pub fn apply(args: &ApplyArgs, allowlists: &Vec<Allowlist>, report: Report) -> (done: Applied)
    ensures
        is_applied(done, *args, allowlists@, report),
{
    let filter = FindingFilter::new(allowlists);
    let result = filter.apply_report(report);
    let confirmed = result.confirmed.len();
    let status = if confirmed < 1 || args.no_fail {
        ExitStatus::Success
    } else {
        ExitStatus::Failure
    };
    let output = match args.format {
        ApplyFormat::Json => ApplyOutput::Json(result.confirmed),
        ApplyFormat::Github => ApplyOutput::Github(
            github_annotations(&result.confirmed, &args.guide),
        ),
        ApplyFormat::Sarif => ApplyOutput::Sarif(to_sarif(result.confirmed)),
    };
    Applied { output, confirmed, status }
}

/// What `review` shows.
#[derive(Debug, Clone, Copy, PartialEq, Eq, Structural)]
pub enum ReviewMode {
    Summary,
    Allowed,
    Confirmed,
    Json,
}

/// The arguments of `review`.
#[derive(Debug)]
pub struct ReviewArgs {
    pub config_path: PathBuf,
    pub reports_dir_path: PathBuf,
    pub root: Option<PathBuf>,
    pub mode: ReviewMode,
    /// Allowlists to show. Empty means all of them.
    pub select_allowlists: Vec<String>,
    /// Allowlists to leave out.
    pub skip_allowlists: Vec<String>,
    /// Detection rules to show. Empty means all of them.
    pub select_rules: Vec<String>,
    /// Detection rules to leave out.
    pub skip_rules: Vec<String>,
    pub file_length: usize,
    pub secret_length: usize,
    pub line_length: usize,
    pub output: Option<PathBuf>,
}

/// Whether a selection leaves `name` out: there is a selection, and `name`
/// is not in it.
pub open spec fn deselects(selection: Seq<Seq<char>>, name: Seq<char>) -> bool {
    selection.len() > 0 && !selection.contains(name)
}

/// Whether the selection of allowlists leaves an allowed finding out of the
/// details.
pub fn is_selected(args: &ReviewArgs, allowed_finding: &AllowedFinding) -> (left_out: bool)
    ensures
        left_out == deselects(texts(args.select_allowlists@), allowed_finding.allow_rule_id@),
{
    args.select_allowlists.len() != 0 && !holds_text(
        &args.select_allowlists,
        &allowed_finding.allow_rule_id,
    )
}

/// Whether an allowed finding is left out of the details because its
/// allowlist is to be skipped.
pub fn should_skip(args: &ReviewArgs, allowed_finding: &AllowedFinding) -> (skipped: bool)
    ensures
        skipped == texts(args.skip_allowlists@).contains(allowed_finding.allow_rule_id@),
{
    holds_text(&args.skip_allowlists, &allowed_finding.allow_rule_id)
}

/// Whether the details show an allowed finding.
pub open spec fn shows_allowed(args: ReviewArgs, allowed_finding: AllowedFinding) -> bool {
    &&& !deselects(texts(args.select_allowlists@), allowed_finding.allow_rule_id@)
    &&& !texts(args.skip_allowlists@).contains(allowed_finding.allow_rule_id@)
}

/// Whether the details show a confirmed finding: its rule is selected, or
/// nothing is, and its rule is not to be skipped.
pub open spec fn shows_confirmed(args: ReviewArgs, finding: Finding) -> bool {
    &&& !deselects(texts(args.select_rules@), finding.rule_id@)
    &&& !texts(args.skip_rules@).contains(finding.rule_id@)
}

/// Whether the details show an allowed finding.
pub fn is_allowed_shown(args: &ReviewArgs, allowed_finding: &AllowedFinding) -> (shown: bool)
    ensures
        shown == shows_allowed(*args, *allowed_finding),
{
    !(is_selected(args, allowed_finding) || should_skip(args, allowed_finding))
}

/// Whether the details show a confirmed finding.
pub fn is_confirmed_shown(args: &ReviewArgs, finding: &Finding) -> (shown: bool)
    ensures
        shown == shows_confirmed(*args, *finding),
{
    let is_selected = args.select_rules.len() != 0 && !holds_text(
        &args.select_rules,
        &finding.rule_id,
    );
    let should_skip = holds_text(&args.skip_rules, &finding.rule_id);
    !(is_selected || should_skip)
}

/// `result` is what the filter makes of `report`.
pub open spec fn is_result_of(
    result: FilterResult,
    allowlists: Seq<Allowlist>,
    report: Report,
) -> bool {
    &&& result.repo_name == report.repo_name
    &&& result.confirmed@ == confirmed_of(allowlists, report.findings@)
    &&& result.allowed@ == allowed_of(allowlists, report.findings@)
}

/// Whether `results` are what the filter makes of `reports`, one by one.
pub open spec fn is_reviewed(
    results: Seq<FilterResult>,
    allowlists: Seq<Allowlist>,
    reports: Seq<Report>,
) -> bool {
    &&& results.len() == reports.len()
    &&& forall|i: int|
        0 <= i < reports.len() ==> is_result_of(#[trigger] results[i], allowlists, reports[i])
}

/// Filters every report of a scan.
pub fn review(allowlists: &Vec<Allowlist>, reports: Vec<Report>) -> (results: Vec<FilterResult>)
    ensures
        is_reviewed(results@, allowlists@, reports@),
{
    let filter = FindingFilter::new(allowlists);
    let ghost given = reports@;
    let mut results: Vec<FilterResult> = Vec::new();
    for report in it: reports
        invariant
            it.seq() == given,
            filter.allowlists() == allowlists@,
            results@.len() == it.index(),
            forall|i: int|
                0 <= i < it.index() ==> is_result_of(#[trigger] results@[i], allowlists@, given[i]),
    {
        let result = filter.apply_report(report);
        results.push(result);
    }
    results
}

/// The output formats of `diff`.
#[derive(Debug, Clone, Copy, PartialEq, Eq, Structural)]
pub enum DiffFormat {
    Json,
    Markdown,
}

/// The arguments of `diff`.
#[derive(Debug)]
pub struct DiffArgs {
    pub before: PathBuf,
    pub after: PathBuf,
    pub root: Option<PathBuf>,
    pub output: Option<PathBuf>,
    pub format: DiffFormat,
    pub file_length: usize,
    pub secret_length: usize,
    pub line_length: usize,
}

/// Compares the results of two reviews.
pub fn diff(befores: Vec<FilterResult>, afters: Vec<FilterResult>) -> (diffs: Vec<DiffResult>)
    ensures
        changes(diffs@) == diff_of(targets(befores@), targets(afters@)),
{
    compute_diff(befores, afters)
}

/// The arguments of `cleanup-rule`.
#[derive(Debug)]
pub struct CleanupRuleArgs {
    pub source: PathBuf,
    pub output: Option<PathBuf>,
    /// The ids of the detection rules that are to go.
    pub rules: Vec<String>,
}

/// What `cleanup-rule` comes to.
#[derive(Debug)]
pub struct RulesCleaned {
    /// For each rule of the configuration, in order, whether it stays.
    pub keep: Vec<bool>,
    pub status: ExitStatus,
}

/// Whether `done` is what `cleanup-rule` comes to on the rules of a
/// configuration: the rules that the arguments do not name stay. Without a
/// rule to remove the command fails, and every rule stays.
pub open spec fn is_cleaned(done: RulesCleaned, args: CleanupRuleArgs, rule_ids: Seq<String>) -> bool {
    &&& done.status == if args.rules@.len() == 0 {
        ExitStatus::Failure
    } else {
        ExitStatus::Success
    }
    &&& done.keep@.len() == rule_ids.len()
    &&& forall|i: int|
        0 <= i < rule_ids.len() ==> done.keep@[i] == !texts(args.rules@).contains(
            #[trigger] rule_ids[i]@,
        )
}

/// Says which detection rules of a configuration stay.
pub fn cleanup_rule(args: &CleanupRuleArgs, rule_ids: &Vec<String>) -> (done: RulesCleaned)
    ensures
        is_cleaned(done, *args, rule_ids@),
{
    let status = if args.rules.len() == 0 {
        ExitStatus::Failure
    } else {
        ExitStatus::Success
    };
    let mut keep: Vec<bool> = Vec::new();
    let mut at: usize = 0;
    while at < rule_ids.len()
        invariant
            at <= rule_ids.len(),
            keep@.len() == at,
            forall|i: int|
                0 <= i < at ==> keep@[i] == !texts(args.rules@).contains(
                    #[trigger] rule_ids@[i]@,
                ),
        decreases rule_ids.len() - at,
    {
        keep.push(!holds_text(&args.rules, &rule_ids[at]));
        at += 1;
    }
    RulesCleaned { keep, status }
}

/// The arguments of `scan`.
#[derive(Debug)]
pub struct ScanArgs {
    pub gitleaks_path: PathBuf,
    pub repos_path: PathBuf,
    /// Names of the repositories that are not to be scanned.
    pub skip_repos: Vec<String>,
    pub config: PathBuf,
    pub output: PathBuf,
    pub threads: Option<usize>,
}

/// The repositories that `scan` scans and those that it leaves out.
#[derive(Debug)]
pub struct ScanPlan {
    pub targets: Vec<String>,
    pub non_targets: Vec<String>,
}

/// The names of `directories` that `skip_repos` names, or those that it
/// does not name, in order.
pub open spec fn chosen(directories: Seq<String>, skip_repos: Seq<Seq<char>>, skipped: bool) -> Seq<
    String,
>
    decreases directories.len(),
{
    if directories.len() == 0 {
        Seq::empty()
    } else {
        let earlier = chosen(directories.drop_last(), skip_repos, skipped);
        if skip_repos.contains(directories.last()@) == skipped {
            earlier.push(directories.last())
        } else {
            earlier
        }
    }
}

/// Whether `plan` splits the repositories that were found as the arguments
/// ask: those that are to be skipped are left out, the others are scanned,
/// and both keep their order.
pub open spec fn is_planned(plan: ScanPlan, args: ScanArgs, directories: Seq<String>) -> bool {
    &&& plan.targets@ == chosen(directories, texts(args.skip_repos@), false)
    &&& plan.non_targets@ == chosen(directories, texts(args.skip_repos@), true)
}

/// Splits the repositories that were found into those to scan and those to
/// leave out.
pub fn scan(args: &ScanArgs, directories: Vec<String>) -> (plan: ScanPlan)
    ensures
        is_planned(plan, *args, directories@),
{
    let ghost found = directories@;
    let mut targets: Vec<String> = Vec::new();
    let mut non_targets: Vec<String> = Vec::new();
    for directory_name in it: directories
        invariant
            it.seq() == found,
            targets@ == chosen(found.take(it.index()), texts(args.skip_repos@), false),
            non_targets@ == chosen(found.take(it.index()), texts(args.skip_repos@), true),
    {
        assert(found.take(it.index() + 1).drop_last() =~= found.take(it.index()));
        if holds_text(&args.skip_repos, &directory_name) {
            non_targets.push(directory_name);
        } else {
            targets.push(directory_name);
        }
    }
    assert(found.take(found.len() as int) =~= found);
    ScanPlan { targets, non_targets }
}

/// The arguments of `extract-allowlist`.
#[derive(Debug)]
pub struct ExtractAllowlistArgs {
    pub source: PathBuf,
    pub output: Option<PathBuf>,
}

/// The id under which the global allowlist of a scanner configuration is
/// taken over.
pub const GLOBAL_ALLOWLIST_ID: &'static str = "gitleaks-global-allowlist";

/// An allowlist of a scanner configuration, with the id and the target
/// rules that it is taken over under.
pub struct Source {
    pub allowlist: GitleaksAllowlist,
    pub id: Seq<char>,
    pub target_rule_ids: Seq<Seq<char>>,
}

/// The allowlists of the rules of a scanner configuration, in the order of
/// the rules: the allowlist of rule `r` goes by `gitleaks-r` and applies to
/// `r` alone.
pub open spec fn rule_sources(rules: Seq<Rule>) -> Seq<Source>
    decreases rules.len(),
{
    if rules.len() == 0 {
        Seq::empty()
    } else {
        let earlier = rule_sources(rules.drop_last());
        let rule = rules.last();
        match rule.allowlist {
            Some(allowlist) => earlier.push(
                Source { allowlist, id: "gitleaks-"@ + rule.id@, target_rule_ids: seq![rule.id@] },
            ),
            None => earlier,
        }
    }
}

/// The global allowlist of a scanner configuration, which applies to every
/// rule.
pub open spec fn global_source(allowlist: Option<GitleaksAllowlist>) -> Seq<Source> {
    match allowlist {
        Some(allowlist) => seq![
            Source { allowlist, id: GLOBAL_ALLOWLIST_ID@, target_rule_ids: Seq::empty() },
        ],
        None => Seq::empty(),
    }
}

/// The allowlists of a scanner configuration: the global one first, then
/// those of the rules.
pub open spec fn sources_of(config: GitleaksConfig) -> Seq<Source> {
    global_source(config.allowlist) + match config.rules {
        Some(rules) => rule_sources(rules@),
        None => Seq::empty(),
    }
}

/// `made` is `source` taken over.
pub open spec fn is_taken_from(made: Allowlist, source: Source) -> bool {
    &&& made.id@ == source.id
    &&& texts(made.target_rule_ids@) == source.target_rule_ids
    &&& carries(made, source.allowlist)
}

/// Every allowlist of `made` is the source at its place, taken over.
pub open spec fn are_taken_from(made: Seq<Allowlist>, sources: Seq<Source>) -> bool {
    &&& made.len() == sources.len()
    &&& forall|i: int| 0 <= i < sources.len() ==> is_taken_from(#[trigger] made[i], sources[i])
}

/// Every source can be taken over.
pub open spec fn all_convertible(sources: Seq<Source>) -> bool {
    forall|i: int| 0 <= i < sources.len() ==> convertible((#[trigger] sources[i]).allowlist)
}

/// `error` is the fault of the first source that cannot be taken over.
pub open spec fn is_first_fault(error: ConfigError, sources: Seq<Source>) -> bool {
    exists|at: int|
        0 <= at < sources.len() && all_convertible(sources.take(at)) && !convertible(
            (#[trigger] sources[at]).allowlist,
        ) && is_fault_of(error, sources[at].allowlist)
}

/// Whether `extracted` is what `extract-allowlist` comes to on a scanner
/// configuration: its allowlists taken over, in order; or, where one of
/// them cannot be taken over, the fault of the first such.
pub open spec fn is_extracted(extracted: Result<ConfigRoot, ConfigError>, config: GitleaksConfig) -> bool {
    match extracted {
        Ok(root) => all_convertible(sources_of(config)) && are_taken_from(
            root.extensions.allowlists@,
            sources_of(config),
        ),
        Err(error) => is_first_fault(error, sources_of(config)),
    }
}

/// Takes the allowlists out of a scanner configuration, as a configuration
/// of this tool.
pub fn extract_allowlist(config: GitleaksConfig) -> (extracted: Result<ConfigRoot, ConfigError>)
    ensures
        is_extracted(extracted, config),
{
    let ghost global = global_source(config.allowlist);
    let mut allowlists: Vec<Allowlist> = Vec::new();
    if let Some(allowlist) = config.allowlist {
        let id = String::from_str(GLOBAL_ALLOWLIST_ID);
        let target_rule_ids: Vec<String> = Vec::new();
        assert(texts(target_rule_ids@) =~= Seq::<Seq<char>>::empty());
        match Allowlist::from_gitleaks(allowlist, id, target_rule_ids) {
            Ok(made) => {
                allowlists.push(made);
            },
            Err(error) => {
                assert(all_convertible(sources_of(config).take(0)));
                assert(sources_of(config)[0] == global[0]);
                return Err(error);
            },
        }
    }
    assert(are_taken_from(allowlists@, global));
    assert(all_convertible(global));
    match config.rules {
        None => {
            assert(sources_of(config) =~= global);
        },
        Some(rules) => {
            let ghost given = rules@;
            assert(global + rule_sources(given.take(0)) =~= global);
            for rule in it: rules
                invariant
                    it.seq() == given,
                    config.rules == Some(rules),
                    rules@ == given,
                    global == global_source(config.allowlist),
                    all_convertible(global + rule_sources(given.take(it.index()))),
                    are_taken_from(allowlists@, global + rule_sources(given.take(it.index()))),
            {
                let ghost upto = given.take(it.index() + 1);
                let ghost so_far = global + rule_sources(given.take(it.index()));
                assert(upto.drop_last() =~= given.take(it.index()));
                assert(upto.last() == rule);
                if let Some(allowlist) = rule.allowlist {
                    let ghost source = Source {
                        allowlist,
                        id: "gitleaks-"@ + rule.id@,
                        target_rule_ids: seq![rule.id@],
                    };
                    assert(global + rule_sources(upto) =~= so_far.push(source));
                    let id = String::from_str("gitleaks-").concat(rule.id.as_str());
                    let mut target_rule_ids: Vec<String> = Vec::new();
                    target_rule_ids.push(rule.id.clone());
                    assert(texts(target_rule_ids@) =~= seq![rule.id@]);
                    match Allowlist::from_gitleaks(allowlist, id, target_rule_ids) {
                        Ok(made) => {
                            allowlists.push(made);
                        },
                        Err(error) => {
                            proof {
                                lemma_rule_sources_grow(given, it.index() + 1);
                                let earlier = rule_sources(given.take(it.index()));
                                let longer = rule_sources(upto);
                                let whole = rule_sources(given);
                                let all = global + whole;
                                let at = so_far.len() as int;
                                assert(longer =~= earlier.push(source));
                                assert(whole.take(longer.len() as int) == longer);
                                assert forall|i: int| 0 <= i < longer.len() implies whole[i]
                                    == longer[i] by {
                                    assert(whole.take(longer.len() as int)[i] == whole[i]);
                                }
                                assert(all.take(at) =~= so_far);
                                assert(all[at] == whole[at - global.len()]);
                                assert(all[at] == source);
                                assert(all == sources_of(config));
                            }
                            return Err(error);
                        },
                    }
                }
            }
            assert(given.take(given.len() as int) =~= given);
        },
    }
    Ok(ConfigRoot::new(allowlists))
}

/// The allowlists of the first rules of a configuration are the first of
/// the allowlists of all its rules.
proof fn lemma_rule_sources_grow(rules: Seq<Rule>, upto: int)
    requires
        0 <= upto <= rules.len(),
    ensures
        rule_sources(rules.take(upto)).len() <= rule_sources(rules).len(),
        rule_sources(rules).take(rule_sources(rules.take(upto)).len() as int) == rule_sources(
            rules.take(upto),
        ),
    decreases rules.len() - upto,
{
    if upto == rules.len() {
        assert(rules.take(upto) =~= rules);
        assert(rule_sources(rules).take(rule_sources(rules).len() as int) =~= rule_sources(
            rules,
        ));
    } else {
        lemma_rule_sources_grow(rules, upto + 1);
        let longer = rules.take(upto + 1);
        assert(longer.drop_last() =~= rules.take(upto));
        assert(rule_sources(rules).take(rule_sources(rules.take(upto)).len() as int)
            =~= rule_sources(rules.take(upto)));
    }
}

/// A command of the tool: its arguments together with what was read for
/// it. Commands that only rewrite a file have nothing to decide and are no
/// jobs.
#[derive(Debug)]
#[allow(inconsistent_fields)]
pub enum Job {
    Apply { args: ApplyArgs, allowlists: Vec<Allowlist>, report: Report },
    CleanupRule { args: CleanupRuleArgs, rule_ids: Vec<String> },
    Diff { args: DiffArgs, befores: Vec<FilterResult>, afters: Vec<FilterResult> },
    ExtractAllowlist { args: ExtractAllowlistArgs, config: GitleaksConfig },
    Review { args: ReviewArgs, allowlists: Vec<Allowlist>, reports: Vec<Report> },
    Scan { args: ScanArgs, directories: Vec<String> },
}

/// What a job comes to.
#[derive(Debug)]
pub enum Outcome {
    Applied(Applied),
    RulesCleaned(RulesCleaned),
    Diffed(Vec<DiffResult>),
    Extracted(ConfigRoot),
    Reviewed(Vec<FilterResult>),
    Planned(ScanPlan),
}

impl Outcome {
    /// How the command ends: with the status of `apply` and `cleanup-rule`,
    /// with success everywhere else.
    pub open spec fn exit_status(&self) -> ExitStatus {
        match self {
            Outcome::Applied(done) => done.status,
            Outcome::RulesCleaned(done) => done.status,
            _ => ExitStatus::Success,
        }
    }

    /// How the command ends.
    pub fn status(&self) -> (status: ExitStatus)
        ensures
            status == self.exit_status(),
    {
        match self {
            Outcome::Applied(done) => done.status,
            Outcome::RulesCleaned(done) => done.status,
            _ => ExitStatus::Success,
        }
    }
}

/// Whether `ended` is what `job` comes to.
pub open spec fn is_run(ended: Result<Outcome, ConfigError>, job: Job) -> bool {
    match job {
        Job::Apply { args, allowlists, report } => ended matches Ok(Outcome::Applied(done))
            && is_applied(done, args, allowlists@, report),
        Job::CleanupRule { args, rule_ids } => ended matches Ok(Outcome::RulesCleaned(done))
            && is_cleaned(done, args, rule_ids@),
        Job::Diff { args, befores, afters } => ended matches Ok(Outcome::Diffed(diffs))
            && changes(diffs@) == diff_of(targets(befores@), targets(afters@)),
        Job::ExtractAllowlist { args, config } => match ended {
            Ok(Outcome::Extracted(root)) => is_extracted(Ok(root), config),
            Ok(_) => false,
            Err(error) => is_extracted(Err(error), config),
        },
        Job::Review { args, allowlists, reports } => ended matches Ok(Outcome::Reviewed(results))
            && is_reviewed(results@, allowlists@, reports@),
        Job::Scan { args, directories } => ended matches Ok(Outcome::Planned(plan))
            && is_planned(plan, args, directories@),
    }
}

/// Runs a command on what was read for it. Only `extract-allowlist` can go
/// wrong, on an allowlist that cannot be taken over.
pub fn run(job: Job) -> (ended: Result<Outcome, ConfigError>)
    ensures
        is_run(ended, job),
{
    match job {
        Job::Apply { args, allowlists, report } => Ok(
            Outcome::Applied(apply(&args, &allowlists, report)),
        ),
        Job::CleanupRule { args, rule_ids } => Ok(
            Outcome::RulesCleaned(cleanup_rule(&args, &rule_ids)),
        ),
        Job::Diff { args, befores, afters } => Ok(Outcome::Diffed(diff(befores, afters))),
        Job::ExtractAllowlist { args, config } => match extract_allowlist(config) {
            Ok(root) => Ok(Outcome::Extracted(root)),
            Err(error) => Err(error),
        },
        Job::Review { args, allowlists, reports } => Ok(
            Outcome::Reviewed(review(&allowlists, reports)),
        ),
        Job::Scan { args, directories } => Ok(Outcome::Planned(scan(&args, directories))),
    }
}

} // verus!
