//! The finding filter: which findings an allowlist suppresses, and the
//! sorting of a report into confirmed and allowed findings.

use vstd::prelude::*;

use crate::config::{patterns, Allowlist, AllowlistView, RegexString, RegexTarget};
use crate::pattern::regex_finds;
use crate::report::{
    has_key, keys, lemma_has_key_push, AllowedFinding, Finding, FindingView, Keyed, Report,
};
use crate::text::{contains, holds_text, is_substring, texts};

verus! {

/// The scope gate: an allowlist without target rules applies to every
/// finding, one with target rules only to findings of those rules.
pub open spec fn in_scope(allowlist: AllowlistView, finding: FindingView) -> bool {
    allowlist.target_rule_ids.len() == 0 || allowlist.target_rule_ids.contains(finding.rule_id)
}

/// One of the patterns matches somewhere in the text.
pub open spec fn some_pattern_finds(patterns: Seq<Seq<char>>, text: Seq<char>) -> bool {
    exists|i: int| 0 <= i < patterns.len() && regex_finds(#[trigger] patterns[i], text)
}

/// One of the words occurs in the text.
pub open spec fn some_word_occurs(words: Seq<Seq<char>>, text: Seq<char>) -> bool {
    exists|i: int| 0 <= i < words.len() && is_substring(#[trigger] words[i], text)
}

/// The path criterion: a path pattern matches the file of the finding.
pub open spec fn path_allows(allowlist: AllowlistView, finding: FindingView) -> bool {
    allowlist.paths matches Some(paths) && some_pattern_finds(paths, finding.file)
}

/// The commit criterion. The list of commits is held against the rule id of
/// the finding, not against its commit.
pub open spec fn commit_allows(allowlist: AllowlistView, finding: FindingView) -> bool {
    allowlist.commits matches Some(commits) && commits.contains(finding.rule_id)
}

/// The stopword criterion: a stopword occurs in the secret.
pub open spec fn stopword_allows(allowlist: AllowlistView, finding: FindingView) -> bool {
    allowlist.stopwords matches Some(words) && some_word_occurs(words, finding.secret)
}

/// The text of the finding that the regexes of the allowlist look at: the
/// secret, unless the allowlist names the match or the line.
pub open spec fn regex_subject(allowlist: AllowlistView, finding: FindingView) -> Seq<char> {
    match allowlist.regex_target {
        Some(RegexTarget::Line) => finding.line,
        Some(RegexTarget::Match) => finding.matched,
        Some(RegexTarget::Secret) => finding.secret,
        None => finding.secret,
    }
}

/// The regex criterion: a regex matches the text that the allowlist targets.
pub open spec fn regex_allows(allowlist: AllowlistView, finding: FindingView) -> bool {
    allowlist.regexes matches Some(regexes) && some_pattern_finds(
        regexes,
        regex_subject(allowlist, finding),
    )
}

/// Whether an allowlist suppresses a finding: the finding is in scope and
/// one of the four criteria holds.
pub open spec fn allows(allowlist: AllowlistView, finding: FindingView) -> bool {
    in_scope(allowlist, finding) && (path_allows(allowlist, finding) || commit_allows(
        allowlist,
        finding,
    ) || stopword_allows(allowlist, finding) || regex_allows(allowlist, finding))
}

/// The scope gate closes before any criterion is asked: an allowlist that
/// names target rules, none of them the rule of the finding, does not allow
/// the finding, whatever its paths, commits, stopwords and regexes are.
pub proof fn lemma_scope_gate(allowlist: AllowlistView, finding: FindingView)
    requires
        allowlist.target_rule_ids.len() > 0,
        !allowlist.target_rule_ids.contains(finding.rule_id),
    ensures
        !allows(allowlist, finding),
{
}

/// Whether one of `regexes` matches somewhere in `text`.
fn any_finds(regexes: &Vec<RegexString>, text: &str) -> (found: bool)
    ensures
        found == some_pattern_finds(patterns(regexes@), text@),
{
    let mut i: usize = 0;
    while i < regexes.len()
        invariant
            i <= regexes.len(),
            forall|j: int| 0 <= j < i ==> !regex_finds(#[trigger] patterns(regexes@)[j], text@),
        decreases regexes.len() - i,
    {
        if regexes[i].is_match(text) {
            assert(regex_finds(patterns(regexes@)[i as int], text@));
            return true;
        }
        i += 1;
    }
    false
}

/// Whether one of `words` occurs in `text`.
fn any_occurs(words: &Vec<String>, text: &str) -> (found: bool)
    ensures
        found == some_word_occurs(texts(words@), text@),
{
    let mut i: usize = 0;
    while i < words.len()
        invariant
            i <= words.len(),
            forall|j: int| 0 <= j < i ==> !is_substring(#[trigger] texts(words@)[j], text@),
        decreases words.len() - i,
    {
        if contains(text, words[i].as_str()) {
            assert(is_substring(texts(words@)[i as int], text@));
            return true;
        }
        i += 1;
    }
    false
}

/// Decides whether `allowlist` suppresses `finding`.
pub fn apply_allowlist(allowlist: &Allowlist, finding: &Finding) -> (allowed: bool)
    ensures
        allowed == allows(allowlist@, finding@),
{
    if allowlist.target_rule_ids.len() != 0 && !holds_text(
        &allowlist.target_rule_ids,
        &finding.rule_id,
    ) {
        return false;
    }
    if let Some(paths) = &allowlist.paths {
        if any_finds(paths, finding.file.as_str()) {
            return true;
        }
    }
    if let Some(commits) = &allowlist.commits {
        if holds_text(commits, &finding.rule_id) {
            return true;
        }
    }
    if let Some(stopwords) = &allowlist.stopwords {
        if any_occurs(stopwords, finding.secret.as_str()) {
            return true;
        }
    }
    if let Some(regexes) = &allowlist.regexes {
        let subject = match allowlist.regex_target {
            Some(RegexTarget::Line) => &finding.line,
            Some(RegexTarget::Match) => &finding.matched,
            Some(RegexTarget::Secret) => &finding.secret,
            None => &finding.secret,
        };
        if any_finds(regexes, subject.as_str()) {
            return true;
        }
    }
    false
}

/// What the filter makes of one finding.
#[derive(Debug)]
pub enum FilteredFinding {
    /// No allowlist suppresses the finding.
    Confirmed(Finding),
    /// An allowlist suppresses the finding.
    Allowed(AllowedFinding),
}

/// The verdict on a finding under an ordered list of allowlists: the first
/// allowlist that suppresses the finding wins, and later ones are not asked.
/// A finding that no allowlist suppresses is confirmed.
pub open spec fn classify(allowlists: Seq<Allowlist>, finding: Finding) -> FilteredFinding
    decreases allowlists.len(),
{
    if allowlists.len() == 0 {
        FilteredFinding::Confirmed(finding)
    } else if allows(allowlists[0]@, finding@) {
        FilteredFinding::Allowed(AllowedFinding { allow_rule_id: allowlists[0].id, finding })
    } else {
        classify(allowlists.drop_first(), finding)
    }
}

/// The first match wins: where the first two allowlists both suppress a
/// finding, the finding is allowed under the id of the first.
pub proof fn lemma_first_match_wins(allowlists: Seq<Allowlist>, finding: Finding)
    requires
        allowlists.len() >= 2,
        allows(allowlists[0]@, finding@),
        allows(allowlists[1]@, finding@),
    ensures
        classify(allowlists, finding) == FilteredFinding::Allowed(
            AllowedFinding { allow_rule_id: allowlists[0].id, finding },
        ),
{
}

/// The verdict names the first allowlist that suppresses the finding, at
/// whatever position it stands, and hands the finding back as it came.
pub proof fn lemma_classify_allowed(allowlists: Seq<Allowlist>, finding: Finding, at: int)
    requires
        0 <= at < allowlists.len(),
        allows(allowlists[at]@, finding@),
        forall|j: int| 0 <= j < at ==> !allows(#[trigger] allowlists[j]@, finding@),
    ensures
        classify(allowlists, finding) == FilteredFinding::Allowed(
            AllowedFinding { allow_rule_id: allowlists[at].id, finding },
        ),
    decreases at,
{
    if at > 0 {
        let rest = allowlists.drop_first();
        assert(!allows(allowlists[0]@, finding@));
        assert forall|j: int| 0 <= j < at - 1 implies !allows(#[trigger] rest[j]@, finding@) by {
            assert(rest[j] == allowlists[j + 1]);
        }
        lemma_classify_allowed(rest, finding, at - 1);
    }
}

/// A finding is confirmed exactly when no allowlist suppresses it, and it is
/// handed back as it came.
pub proof fn lemma_classify_confirmed(allowlists: Seq<Allowlist>, finding: Finding)
    ensures
        classify(allowlists, finding) is Confirmed <==> forall|j: int|
            0 <= j < allowlists.len() ==> !allows(#[trigger] allowlists[j]@, finding@),
        classify(allowlists, finding) is Confirmed ==> classify(allowlists, finding)
            == FilteredFinding::Confirmed(finding),
        classify(allowlists, finding) matches FilteredFinding::Allowed(allowed)
            ==> allowed.finding == finding,
    decreases allowlists.len(),
{
    if allowlists.len() > 0 {
        let rest = allowlists.drop_first();
        lemma_classify_confirmed(rest, finding);
        if !allows(allowlists[0]@, finding@) {
            if classify(rest, finding) is Confirmed {
                assert forall|j: int| 0 <= j < allowlists.len() implies !allows(
                    #[trigger] allowlists[j]@,
                    finding@,
                ) by {
                    if j > 0 {
                        assert(rest[j - 1] == allowlists[j]);
                    }
                }
            } else {
                let j = choose|j: int| 0 <= j < rest.len() && allows(#[trigger] rest[j]@, finding@);
                assert(rest[j] == allowlists[j + 1]);
            }
        }
    }
}

/// The confirmed findings of a report, in the order of the report.
pub open spec fn confirmed_of(allowlists: Seq<Allowlist>, findings: Seq<Finding>) -> Seq<Finding>
    decreases findings.len(),
{
    if findings.len() == 0 {
        Seq::empty()
    } else {
        let earlier = confirmed_of(allowlists, findings.drop_last());
        match classify(allowlists, findings.last()) {
            FilteredFinding::Confirmed(finding) => earlier.push(finding),
            FilteredFinding::Allowed(_) => earlier,
        }
    }
}

/// The allowed findings of a report, in the order of the report.
pub open spec fn allowed_of(allowlists: Seq<Allowlist>, findings: Seq<Finding>) -> Seq<
    AllowedFinding,
>
    decreases findings.len(),
{
    if findings.len() == 0 {
        Seq::empty()
    } else {
        let earlier = allowed_of(allowlists, findings.drop_last());
        match classify(allowlists, findings.last()) {
            FilteredFinding::Confirmed(_) => earlier,
            FilteredFinding::Allowed(allowed) => earlier.push(allowed),
        }
    }
}

/// The findings of a list of allowed findings.
pub open spec fn findings_of(allowed: Seq<AllowedFinding>) -> Seq<Finding> {
    allowed.map_values(|allowed: AllowedFinding| allowed.finding)
}

/// Findings of a report that share a fingerprint get the same verdict.
pub open spec fn judged_alike(allowlists: Seq<Allowlist>, findings: Seq<Finding>) -> bool {
    forall|i: int, j: int|
        0 <= i < findings.len() && 0 <= j < findings.len() && findings[i].key()
            == findings[j].key() ==> (classify(allowlists, findings[i]) is Confirmed
            <==> classify(allowlists, findings[j]) is Confirmed)
}

/// Filtering loses and invents nothing: every finding of the report is
/// either confirmed or allowed, so the two lists together are as long as the
/// report, and the fingerprints of the two lists together are those of the
/// report.
pub proof fn lemma_partition_covers(allowlists: Seq<Allowlist>, findings: Seq<Finding>)
    ensures
        confirmed_of(allowlists, findings).len() + allowed_of(allowlists, findings).len()
            == findings.len(),
        keys(confirmed_of(allowlists, findings)).union(
            keys(findings_of(allowed_of(allowlists, findings))),
        ) == keys(findings),
    decreases findings.len(),
{
    let confirmed = confirmed_of(allowlists, findings);
    let allowed = findings_of(allowed_of(allowlists, findings));
    if findings.len() > 0 {
        let earlier = findings.drop_last();
        let last = findings.last();
        lemma_partition_covers(allowlists, earlier);
        lemma_classify_confirmed(allowlists, last);
        let earlier_confirmed = confirmed_of(allowlists, earlier);
        let earlier_allowed = findings_of(allowed_of(allowlists, earlier));
        assert(keys(earlier_confirmed).union(keys(earlier_allowed)) == keys(earlier));
        assert forall|key: Seq<char>|
            (has_key(confirmed, key) || has_key(allowed, key)) == has_key(findings, key) by {
            assert(keys(earlier_confirmed).union(keys(earlier_allowed)).contains(key) == keys(
                earlier,
            ).contains(key));
            lemma_has_key_push(earlier, last, key);
            assert(earlier.push(last) =~= findings);
            match classify(allowlists, last) {
                FilteredFinding::Confirmed(_) => {
                    lemma_has_key_push(earlier_confirmed, last, key);
                },
                FilteredFinding::Allowed(verdict) => {
                    lemma_has_key_push(earlier_allowed, last, key);
                    assert(allowed =~= earlier_allowed.push(last));
                },
            }
        }
    }
    assert(keys(confirmed).union(keys(allowed)) =~= keys(findings));
}

/// Filtering sorts by fingerprint: where findings that share a fingerprint
/// get the same verdict, no fingerprint stands on both sides.
pub proof fn lemma_partition_disjoint(allowlists: Seq<Allowlist>, findings: Seq<Finding>)
    requires
        judged_alike(allowlists, findings),
    ensures
        keys(confirmed_of(allowlists, findings)).disjoint(
            keys(findings_of(allowed_of(allowlists, findings))),
        ),
{
    let confirmed = confirmed_of(allowlists, findings);
    let allowed = findings_of(allowed_of(allowlists, findings));
    assert forall|key: Seq<char>| !(has_key(confirmed, key) && has_key(allowed, key)) by {
        if has_key(confirmed, key) && has_key(allowed, key) {
            lemma_verdicts_come_from_the_report(allowlists, findings);
            let c = choose|c: int| 0 <= c < confirmed.len() && #[trigger] confirmed[c].key() == key;
            let a = choose|a: int| 0 <= a < allowed.len() && #[trigger] allowed[a].key() == key;
            assert(judged(allowlists, findings, confirmed[c], true));
            assert(judged(allowlists, findings, allowed[a], false));
            let i = choose|i: int| judged_at(allowlists, findings, confirmed[c], true, i);
            let j = choose|j: int| judged_at(allowlists, findings, allowed[a], false, j);
            assert(findings[i].key() == findings[j].key());
        }
    }
}

/// The finding at `at` is `finding`, and its verdict is confirmed or not as
/// `confirmed` says.
spec fn judged_at(
    allowlists: Seq<Allowlist>,
    findings: Seq<Finding>,
    finding: Finding,
    confirmed: bool,
    at: int,
) -> bool {
    &&& 0 <= at < findings.len()
    &&& findings[at] == finding
    &&& classify(allowlists, findings[at]) is Confirmed == confirmed
}

/// `finding` is a finding of the report, with the verdict that `confirmed`
/// says.
spec fn judged(
    allowlists: Seq<Allowlist>,
    findings: Seq<Finding>,
    finding: Finding,
    confirmed: bool,
) -> bool {
    exists|at: int| judged_at(allowlists, findings, finding, confirmed, at)
}

/// Every confirmed finding is a finding of the report whose verdict is
/// confirmed, and every allowed finding one whose verdict is allowed.
proof fn lemma_verdicts_come_from_the_report(allowlists: Seq<Allowlist>, findings: Seq<Finding>)
    ensures
        forall|c: int|
            0 <= c < confirmed_of(allowlists, findings).len() ==> judged(
                allowlists,
                findings,
                #[trigger] confirmed_of(allowlists, findings)[c],
                true,
            ),
        forall|a: int|
            0 <= a < findings_of(allowed_of(allowlists, findings)).len() ==> judged(
                allowlists,
                findings,
                #[trigger] findings_of(allowed_of(allowlists, findings))[a],
                false,
            ),
    decreases findings.len(),
{
    let confirmed = confirmed_of(allowlists, findings);
    let allowed = findings_of(allowed_of(allowlists, findings));
    if findings.len() > 0 {
        let earlier = findings.drop_last();
        let last = findings.last();
        let at = findings.len() - 1;
        lemma_verdicts_come_from_the_report(allowlists, earlier);
        lemma_classify_confirmed(allowlists, last);
        let earlier_confirmed = confirmed_of(allowlists, earlier);
        let earlier_allowed = findings_of(allowed_of(allowlists, earlier));
        assert forall|c: int| 0 <= c < confirmed.len() implies judged(
            allowlists,
            findings,
            #[trigger] confirmed[c],
            true,
        ) by {
            if c < earlier_confirmed.len() {
                assert(confirmed[c] == earlier_confirmed[c]);
                assert(judged(allowlists, earlier, earlier_confirmed[c], true));
                let i = choose|i: int| judged_at(allowlists, earlier, earlier_confirmed[c], true, i);
                assert(judged_at(allowlists, findings, confirmed[c], true, i));
            } else {
                assert(judged_at(allowlists, findings, confirmed[c], true, at));
            }
        }
        assert forall|a: int| 0 <= a < allowed.len() implies judged(
            allowlists,
            findings,
            #[trigger] allowed[a],
            false,
        ) by {
            if a < earlier_allowed.len() {
                assert(allowed[a] == earlier_allowed[a]);
                assert(judged(allowlists, earlier, earlier_allowed[a], false));
                let j = choose|j: int| judged_at(allowlists, earlier, earlier_allowed[a], false, j);
                assert(judged_at(allowlists, findings, allowed[a], false, j));
            } else {
                assert(judged_at(allowlists, findings, allowed[a], false, at));
            }
        }
    }
}

/// The outcome of filtering the findings of one scan target.
#[derive(Debug)]
pub struct FilterResult {
    pub repo_name: String,
    pub confirmed: Vec<Finding>,
    pub allowed: Vec<AllowedFinding>,
}

/// A filter result as plain mathematics.
pub struct FilterResultView {
    pub repo_name: Seq<char>,
    pub confirmed: Seq<Finding>,
    pub allowed: Seq<AllowedFinding>,
}

impl View for FilterResult {
    type V = FilterResultView;

    open spec fn view(&self) -> FilterResultView {
        FilterResultView {
            repo_name: self.repo_name@,
            confirmed: self.confirmed@,
            allowed: self.allowed@,
        }
    }
}

impl FilterResult {
    /// Whether the target has no finding at all, confirmed or allowed.
    pub fn is_empty(&self) -> (empty: bool)
        ensures
            empty == (self.confirmed@.len() == 0 && self.allowed@.len() == 0),
    {
        self.confirmed.len() == 0 && self.allowed.len() == 0
    }
}

/// A filter over an ordered list of allowlists.
pub struct FindingFilter<'vec> {
    allowlist_list: &'vec Vec<Allowlist>,
}

impl<'vec> FindingFilter<'vec> {
    /// The allowlists of the filter, in configuration order.
    pub closed spec fn allowlists(&self) -> Seq<Allowlist> {
        self.allowlist_list@
    }

    /// A filter that asks `allowlist` in the given order.
    pub fn new(allowlist: &'vec Vec<Allowlist>) -> (filter: Self)
        ensures
            filter.allowlists() == allowlist@,
    {
        FindingFilter { allowlist_list: allowlist }
    }

    /// The number of allowlists that the filter asks.
    pub fn allowlists_size(&self) -> (size: usize)
        ensures
            size == self.allowlists().len(),
    {
        self.allowlist_list.len()
    }

    /// Filters one finding: it comes back allowed under the id of the first
    /// allowlist that suppresses it, or confirmed where none does.
    pub fn apply(&self, finding: Finding) -> (verdict: FilteredFinding)
        ensures
            verdict == classify(self.allowlists(), finding),
    {
        let mut i: usize = 0;
        assert(self.allowlist_list@.skip(0) =~= self.allowlist_list@);
        while i < self.allowlist_list.len()
            invariant
                i <= self.allowlist_list.len(),
                classify(self.allowlist_list@, finding) == classify(
                    self.allowlist_list@.skip(i as int),
                    finding,
                ),
            decreases self.allowlist_list.len() - i,
        {
            let ghost rest = self.allowlist_list@.skip(i as int);
            assert(rest[0] == self.allowlist_list@[i as int]);
            assert(rest.drop_first() =~= self.allowlist_list@.skip(i + 1));
            let rule = &self.allowlist_list[i];
            if apply_allowlist(rule, &finding) {
                return FilteredFinding::Allowed(
                    AllowedFinding { allow_rule_id: rule.id.clone(), finding },
                );
            }
            i += 1;
        }
        FilteredFinding::Confirmed(finding)
    }

    /// Filters a report: every finding goes either to the confirmed or to the
    /// allowed findings of the result, and keeps its place among them.
    pub fn apply_report(&self, report: Report) -> (result: FilterResult)
        ensures
            result.repo_name == report.repo_name,
            result.confirmed@ == confirmed_of(self.allowlists(), report.findings@),
            result.allowed@ == allowed_of(self.allowlists(), report.findings@),
    {
        let mut confirmed: Vec<Finding> = Vec::new();
        let mut allowed: Vec<AllowedFinding> = Vec::new();
        let ghost findings = report.findings@;
        for finding in it: report.findings
            invariant
                it.seq() == findings,
                confirmed@ == confirmed_of(self.allowlists(), findings.take(it.index())),
                allowed@ == allowed_of(self.allowlists(), findings.take(it.index())),
        {
            assert(findings.take(it.index() + 1).drop_last() =~= findings.take(it.index()));
            match self.apply(finding) {
                FilteredFinding::Allowed(allowed_finding) => allowed.push(allowed_finding),
                FilteredFinding::Confirmed(finding) => confirmed.push(finding),
            }
        }
        assert(findings.take(findings.len() as int) =~= findings);
        FilterResult { repo_name: report.repo_name, confirmed, allowed }
    }
}

} // verus!
