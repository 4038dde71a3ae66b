//! Confirmed findings as a SARIF log, ready to be serialised.

use vstd::prelude::*;
use vstd::string::StringExecFns;

use crate::report::Finding;

verus! {

pub const SCHEMA: &'static str = "https://json.schemastore.org/sarif-2.1.0.json";

pub const VERSION: &'static str = "2.1.0";

pub const DRIVER_NAME: &'static str = "gls";

pub const DRIVER_SEMANTIC_VERSION: &'static str = "v0.0.0";

pub const DRIVER_INFORMATION_URI: &'static str = "https://github.com/Finatext/gls";

/// A SARIF log.
#[derive(Debug)]
pub struct Root {
    pub schema: &'static str,
    pub version: &'static str,
    pub runs: Vec<Run>,
}

#[derive(Debug)]
pub struct Run {
    pub tool: Tool,
    pub results: Vec<SarifResult>,
}

#[derive(Debug)]
pub struct Tool {
    pub driver: Driver,
}

#[derive(Debug)]
pub struct Driver {
    pub name: &'static str,
    pub semantic_version: &'static str,
    pub information_uri: &'static str,
    pub rules: Vec<Rule>,
}

/// A detection rule, as the log lists it.
#[derive(Debug)]
pub struct Rule {
    pub id: String,
    pub name: String,
    pub short_description: ShortDescription,
}

#[derive(Debug)]
pub struct ShortDescription {
    pub text: String,
}

/// One finding, as the log lists it.
#[derive(Debug)]
pub struct SarifResult {
    pub message: Message,
    pub rule_id: String,
    pub locations: Vec<Location>,
    pub partial_fingerprints: PartialFingerprints,
    pub properties: Properties,
}

#[derive(Debug)]
pub struct Message {
    pub text: String,
}

#[derive(Debug)]
pub struct Location {
    pub physical_location: PhysicalLocation,
}

#[derive(Debug)]
pub struct PhysicalLocation {
    pub artifact_location: ArtifactLocation,
    pub region: Region,
}

#[derive(Debug)]
pub struct ArtifactLocation {
    pub uri: String,
}

#[derive(Debug)]
pub struct Region {
    pub start_line: usize,
    pub start_column: usize,
    pub end_line: usize,
    pub end_column: usize,
    pub snippet: Snippet,
}

#[derive(Debug)]
pub struct Snippet {
    pub text: String,
}

#[derive(Debug)]
pub struct PartialFingerprints {
    pub commit_sha: String,
    pub commit_message: String,
    pub email: String,
    pub author: String,
    pub date: String,
}

#[derive(Debug)]
pub struct Properties {
    pub tags: Vec<String>,
}

/// `result` is the entry of the log for `finding`: one location, and every
/// field taken over from the finding.
pub open spec fn reports(result: SarifResult, finding: Finding) -> bool {
    &&& result.message.text == finding.description
    &&& result.rule_id == finding.rule_id
    &&& result.locations@.len() == 1
    &&& result.locations@[0].physical_location.artifact_location.uri == finding.file
    &&& result.locations@[0].physical_location.region.start_line == finding.start_line
    &&& result.locations@[0].physical_location.region.start_column == finding.start_column
    &&& result.locations@[0].physical_location.region.end_line == finding.end_line
    &&& result.locations@[0].physical_location.region.end_column == finding.end_column
    &&& result.locations@[0].physical_location.region.snippet.text == finding.secret
    &&& result.partial_fingerprints.commit_sha == finding.commit
    &&& result.partial_fingerprints.commit_message == finding.message
    &&& result.partial_fingerprints.email == finding.email
    &&& result.partial_fingerprints.author == finding.author
    &&& result.partial_fingerprints.date == finding.date
    &&& result.properties.tags == finding.tags
}

impl SarifResult {
    /// The entry of the log for a finding.
    pub fn from(finding: Finding) -> (result: Self)
        ensures
            reports(result, finding),
    {
        let mut locations: Vec<Location> = Vec::new();
        locations.push(
            Location {
                physical_location: PhysicalLocation {
                    artifact_location: ArtifactLocation { uri: finding.file },
                    region: Region {
                        start_line: finding.start_line,
                        start_column: finding.start_column,
                        end_line: finding.end_line,
                        end_column: finding.end_column,
                        snippet: Snippet { text: finding.secret },
                    },
                },
            },
        );
        SarifResult {
            message: Message { text: finding.description },
            rule_id: finding.rule_id,
            locations,
            partial_fingerprints: PartialFingerprints {
                commit_sha: finding.commit,
                commit_message: finding.message,
                email: finding.email,
                author: finding.author,
                date: finding.date,
            },
            properties: Properties { tags: finding.tags },
        }
    }
}

/// The rule ids of a list of findings, each once, in the order in which
/// they first occur.
pub open spec fn rule_ids_of(findings: Seq<Finding>) -> Seq<Seq<char>>
    decreases findings.len(),
{
    if findings.len() == 0 {
        Seq::empty()
    } else {
        let earlier = rule_ids_of(findings.drop_last());
        if earlier.contains(findings.last().rule_id@) {
            earlier
        } else {
            earlier.push(findings.last().rule_id@)
        }
    }
}

/// `rule` is the entry of the log for the detection rule `id`.
pub open spec fn lists(rule: Rule, id: Seq<char>) -> bool {
    &&& rule.id@ == id
    &&& rule.name@ == id + " rule"@
    &&& rule.short_description.text@ == id
}

/// Whether one of `rules` stands for the rule `id`.
fn is_listed(rules: &Vec<Rule>, id: &String) -> (listed: bool)
    ensures
        listed == exists|i: int| 0 <= i < rules@.len() && (#[trigger] rules@[i]).id@ == id@,
{
    let mut i: usize = 0;
    while i < rules.len()
        invariant
            i <= rules.len(),
            forall|j: int| 0 <= j < i ==> (#[trigger] rules@[j]).id@ != id@,
        decreases rules.len() - i,
    {
        if rules[i].id == *id {
            return true;
        }
        i += 1;
    }
    false
}

/// The rules that the findings name, each once, in the order in which they
/// first occur.
fn rules_of(findings: &Vec<Finding>) -> (rules: Vec<Rule>)
    ensures
        rules@.len() == rule_ids_of(findings@).len(),
        forall|i: int|
            0 <= i < rules@.len() ==> lists(#[trigger] rules@[i], rule_ids_of(findings@)[i]),
{
    let mut rules: Vec<Rule> = Vec::new();
    let mut at: usize = 0;
    while at < findings.len()
        invariant
            at <= findings.len(),
            rules@.len() == rule_ids_of(findings@.take(at as int)).len(),
            forall|i: int|
                0 <= i < rules@.len() ==> lists(
                    #[trigger] rules@[i],
                    rule_ids_of(findings@.take(at as int))[i],
                ),
        decreases findings.len() - at,
    {
        let ghost earlier = rule_ids_of(findings@.take(at as int));
        let ghost upto = findings@.take(at + 1);
        assert(upto.drop_last() =~= findings@.take(at as int));
        assert(upto.last() == findings@[at as int]);
        let id = &findings[at].rule_id;
        let listed = is_listed(&rules, id);
        proof {
            if listed {
                let i = choose|i: int| 0 <= i < rules@.len() && (#[trigger] rules@[i]).id@ == id@;
                assert(lists(rules@[i], earlier[i]));
                assert(earlier.contains(id@));
            }
            if earlier.contains(id@) {
                let i = choose|i: int| 0 <= i < earlier.len() && earlier[i] == id@;
                assert(lists(rules@[i], earlier[i]));
            }
        }
        if !listed {
            rules.push(
                Rule {
                    id: id.clone(),
                    name: id.clone().concat(" rule"),
                    short_description: ShortDescription { text: id.clone() },
                },
            );
        }
        at += 1;
    }
    assert(findings@.take(findings@.len() as int) =~= findings@);
    rules
}

/// Whether `root` is the SARIF log of `findings`: one run of this tool,
/// with the rules that the findings name, each once and in the order of
/// their first finding, and with one result for each finding, in order.
pub open spec fn is_log_of(root: Root, findings: Seq<Finding>) -> bool {
    &&& root.schema@ == SCHEMA@
    &&& root.version@ == VERSION@
    &&& root.runs@.len() == 1
    &&& root.runs@[0].tool.driver.name@ == DRIVER_NAME@
    &&& root.runs@[0].tool.driver.semantic_version@ == DRIVER_SEMANTIC_VERSION@
    &&& root.runs@[0].tool.driver.information_uri@ == DRIVER_INFORMATION_URI@
    &&& root.runs@[0].tool.driver.rules@.len() == rule_ids_of(findings).len()
    &&& forall|i: int|
        0 <= i < rule_ids_of(findings).len() ==> lists(
            #[trigger] root.runs@[0].tool.driver.rules@[i],
            rule_ids_of(findings)[i],
        )
    &&& root.runs@[0].results@.len() == findings.len()
    &&& forall|i: int|
        0 <= i < findings.len() ==> reports(#[trigger] root.runs@[0].results@[i], findings[i])
}

/// The SARIF log of a list of findings.
pub fn to_sarif(findings: Vec<Finding>) -> (root: Root)
    ensures
        is_log_of(root, findings@),
{
    let rules = rules_of(&findings);
    let ghost listed = findings@;
    let mut results: Vec<SarifResult> = Vec::new();
    for finding in it: findings
        invariant
            it.seq() == listed,
            results@.len() == it.index(),
            forall|i: int| 0 <= i < it.index() ==> reports(#[trigger] results@[i], listed[i]),
    {
        results.push(SarifResult::from(finding));
    }
    let mut runs: Vec<Run> = Vec::new();
    runs.push(
        Run {
            tool: Tool {
                driver: Driver {
                    name: DRIVER_NAME,
                    semantic_version: DRIVER_SEMANTIC_VERSION,
                    information_uri: DRIVER_INFORMATION_URI,
                    rules,
                },
            },
            results,
        },
    );
    Root { schema: SCHEMA, version: VERSION, runs }
}

} // verus!
